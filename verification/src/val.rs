//! The values that contracts are usually driven with: scalars, texts, records and
//! tuples.

use vstd::prelude::*;

use crate::cause::Cause;
use crate::value::{lemma_entry_decreases, lemma_item_decreases, value_view, Value, ValueV};

verus! {

/// A value without lists, options, variants, floats or handles.
#[derive(Debug, PartialEq, Eq)]
pub enum Val {
    Bool(bool),
    S8(i8),
    U8(u8),
    S16(i16),
    U16(u16),
    S32(i32),
    U32(u32),
    S64(i64),
    U64(u64),
    Char(char),
    String(String),
    Record(Vec<(String, Val)>),
    Tuple(Vec<Val>),
}

/// The value that a [`Val`] is.
pub open spec fn val_view(v: Val) -> ValueV
    decreases v,
{
    match v {
        Val::Bool(x) => ValueV::Bool(x),
        Val::S8(x) => ValueV::S8(x),
        Val::U8(x) => ValueV::U8(x),
        Val::S16(x) => ValueV::S16(x),
        Val::U16(x) => ValueV::U16(x),
        Val::S32(x) => ValueV::S32(x),
        Val::U32(x) => ValueV::U32(x),
        Val::S64(x) => ValueV::S64(x),
        Val::U64(x) => ValueV::U64(x),
        Val::Char(x) => ValueV::Char(x),
        Val::String(x) => ValueV::String(x@),
        Val::Record(vs) => ValueV::Record(
            Seq::new(
                vs@.len(),
                |i: int|
                    if 0 <= i < vs@.len() {
                        (vs@[i].0@, val_view(vs@[i].1))
                    } else {
                        arbitrary()
                    },
            ),
        ),
        Val::Tuple(vs) => ValueV::Tuple(
            Seq::new(
                vs@.len(),
                |i: int|
                    if 0 <= i < vs@.len() {
                        val_view(vs@[i])
                    } else {
                        arbitrary()
                    },
            ),
        ),
    }
}

impl View for Val {
    type V = ValueV;

    open spec fn view(&self) -> ValueV {
        val_view(*self)
    }
}

/// Whether a value is one that a [`Val`] can be.
pub open spec fn is_simple(v: ValueV) -> bool
    decreases v,
{
    match v {
        ValueV::Bool(_) => true,
        ValueV::S8(_) => true,
        ValueV::U8(_) => true,
        ValueV::S16(_) => true,
        ValueV::U16(_) => true,
        ValueV::S32(_) => true,
        ValueV::U32(_) => true,
        ValueV::S64(_) => true,
        ValueV::U64(_) => true,
        ValueV::Char(_) => true,
        ValueV::String(_) => true,
        ValueV::Record(vs) => forall|i: int| 0 <= i < vs.len() ==> is_simple((#[trigger] vs[i]).1),
        ValueV::Tuple(vs) => forall|i: int| 0 <= i < vs.len() ==> is_simple(#[trigger] vs[i]),
        _ => false,
    }
}

/// Every [`Val`] is simple.
pub proof fn vals_are_simple(v: Val)
    ensures
        is_simple(v@),
    decreases v,
{
    match v {
        Val::Record(vs) => {
            assert forall|i: int| 0 <= i < vs@.len() implies is_simple(
                (#[trigger] v@->Record_0[i]).1,
            ) by {
                assert(decreases_to!(vs => vs@));
                assert(decreases_to!(vs@ => vs@[i]));
                assert(decreases_to!(vs@[i] => vs@[i].1));
                vals_are_simple(vs@[i].1);
            }
        },
        Val::Tuple(vs) => {
            assert forall|i: int| 0 <= i < vs@.len() implies is_simple(
                #[trigger] v@->Tuple_0[i],
            ) by {
                assert(decreases_to!(vs => vs@));
                assert(decreases_to!(vs@ => vs@[i]));
                vals_are_simple(vs@[i]);
            }
        },
        _ => {},
    }
}

impl Val {
    /// The same value as a [`Value`].
    pub fn to_value(&self) -> (r: Value)
        ensures
            r@ == self@,
        decreases self,
    {
        match self {
            Val::Bool(x) => Value::Bool(*x),
            Val::S8(x) => Value::S8(*x),
            Val::U8(x) => Value::U8(*x),
            Val::S16(x) => Value::S16(*x),
            Val::U16(x) => Value::U16(*x),
            Val::S32(x) => Value::S32(*x),
            Val::U32(x) => Value::U32(*x),
            Val::S64(x) => Value::S64(*x),
            Val::U64(x) => Value::U64(*x),
            Val::Char(x) => Value::Char(*x),
            Val::String(x) => Value::String(x.clone()),
            Val::Record(vs) => {
                let mut r: Vec<(String, Value)> = Vec::new();
                let mut i: usize = 0;
                while i < vs.len()
                    invariant
                        0 <= i <= vs@.len(),
                        *self == Val::Record(*vs),
                        r@.len() == i,
                        forall|j: int|
                            0 <= j < i ==> (#[trigger] r@[j]).0@ == vs@[j].0@ && r@[j].1@
                                == vs@[j].1@,
                    decreases vs@.len() - i,
                {
                    proof {
                        assert(decreases_to!(self => self->Record_0));
                        assert(decreases_to!(vs => vs@));
                        assert(decreases_to!(vs@ => vs@[i as int]));
                        assert(decreases_to!(vs@[i as int] => vs@[i as int].1));
                    }
                    r.push((vs[i].0.clone(), vs[i].1.to_value()));
                    i += 1;
                }
                assert(value_view(Value::Record(r))->Record_0 =~= self@->Record_0);
                Value::Record(r)
            },
            Val::Tuple(vs) => {
                let mut r: Vec<Value> = Vec::new();
                let mut i: usize = 0;
                while i < vs.len()
                    invariant
                        0 <= i <= vs@.len(),
                        *self == Val::Tuple(*vs),
                        r@.len() == i,
                        forall|j: int| 0 <= j < i ==> (#[trigger] r@[j])@ == vs@[j]@,
                    decreases vs@.len() - i,
                {
                    proof {
                        assert(decreases_to!(self => self->Tuple_0));
                        assert(decreases_to!(vs => vs@));
                        assert(decreases_to!(vs@ => vs@[i as int]));
                    }
                    r.push(vs[i].to_value());
                    i += 1;
                }
                assert(value_view(Value::Tuple(r))->Tuple_0 =~= self@->Tuple_0);
                Value::Tuple(r)
            },
        }
    }

    /// The same value as a [`Val`], where it is simple.
    pub fn try_from_value(v: &Value) -> (r: Result<Val, Cause>)
        ensures
            match r {
                Ok(x) => is_simple(v@) && x@ == v@,
                Err(c) => !is_simple(v@) && c == Cause::UnexpectedValue,
            },
        decreases v,
    {
        match v {
            Value::Bool(x) => Ok(Val::Bool(*x)),
            Value::S8(x) => Ok(Val::S8(*x)),
            Value::U8(x) => Ok(Val::U8(*x)),
            Value::S16(x) => Ok(Val::S16(*x)),
            Value::U16(x) => Ok(Val::U16(*x)),
            Value::S32(x) => Ok(Val::S32(*x)),
            Value::U32(x) => Ok(Val::U32(*x)),
            Value::S64(x) => Ok(Val::S64(*x)),
            Value::U64(x) => Ok(Val::U64(*x)),
            Value::Char(x) => Ok(Val::Char(*x)),
            Value::String(x) => Ok(Val::String(x.clone())),
            Value::Record(vs) => {
                let mut r: Vec<(String, Val)> = Vec::new();
                let mut i: usize = 0;
                while i < vs.len()
                    invariant
                        0 <= i <= vs@.len(),
                        *v == Value::Record(*vs),
                        r@.len() == i,
                        forall|j: int|
                            0 <= j < i ==> (#[trigger] r@[j]).0@ == vs@[j].0@ && r@[j].1@
                                == vs@[j].1@,
                        forall|j: int| 0 <= j < i ==> is_simple((#[trigger] vs@[j]).1@),
                    decreases vs@.len() - i,
                {
                    proof {
                        assert(decreases_to!(v => v->Record_0));
                        lemma_entry_decreases(*vs, i as int);
                    }
                    match Val::try_from_value(&vs[i].1) {
                        Ok(x) => {
                            r.push((vs[i].0.clone(), x));
                        },
                        Err(c) => {
                            assert(!is_simple(v@->Record_0[i as int].1));
                            return Err(c);
                        },
                    }
                    i += 1;
                }
                assert(val_view(Val::Record(r))->Record_0 =~= v@->Record_0);
                Ok(Val::Record(r))
            },
            Value::Tuple(vs) => {
                let mut r: Vec<Val> = Vec::new();
                let mut i: usize = 0;
                while i < vs.len()
                    invariant
                        0 <= i <= vs@.len(),
                        *v == Value::Tuple(*vs),
                        r@.len() == i,
                        forall|j: int| 0 <= j < i ==> (#[trigger] r@[j])@ == vs@[j]@,
                        forall|j: int| 0 <= j < i ==> is_simple((#[trigger] vs@[j])@),
                    decreases vs@.len() - i,
                {
                    proof {
                        assert(decreases_to!(v => v->Tuple_0));
                        lemma_item_decreases(*vs, i as int);
                    }
                    match Val::try_from_value(&vs[i]) {
                        Ok(x) => {
                            r.push(x);
                        },
                        Err(c) => {
                            assert(!is_simple(v@->Tuple_0[i as int]));
                            return Err(c);
                        },
                    }
                    i += 1;
                }
                assert(val_view(Val::Tuple(r))->Tuple_0 =~= v@->Tuple_0);
                Ok(Val::Tuple(r))
            },
            _ => Err(Cause::UnexpectedValue),
        }
    }
}

/// A simple value is the same value in both forms, and comes back from the other; a value
/// that is not simple has no such form.
pub proof fn simple_values_come_back(v: &Val, w: Value, other: &Value, r: Result<Val, Cause>)
    requires
        call_ensures(Val::to_value, (v,), w),
        call_ensures(Val::try_from_value, (other,), r),
    ensures
        other@ == w@ ==> (r matches Ok(x) && x@ == v@),
        other is Float32 || other is Float64 || other is List || other is Mapping || other
            is Variant || other is Enum || other is Option || other is Result || other is Flags
            || other is Resource || other is Future || other is Stream || other is ErrorContext
            ==> (r matches Err(c) && c == Cause::UnexpectedValue),
        r matches Ok(x) ==> x@ == other@,
        match *v {
            Val::Bool(x) => w@ == ValueV::Bool(x),
            Val::S8(x) => w@ == ValueV::S8(x),
            Val::U8(x) => w@ == ValueV::U8(x),
            Val::S16(x) => w@ == ValueV::S16(x),
            Val::U16(x) => w@ == ValueV::U16(x),
            Val::S32(x) => w@ == ValueV::S32(x),
            Val::U32(x) => w@ == ValueV::U32(x),
            Val::S64(x) => w@ == ValueV::S64(x),
            Val::U64(x) => w@ == ValueV::U64(x),
            Val::Char(x) => w@ == ValueV::Char(x),
            Val::String(s) => w@ == ValueV::String(s@),
            Val::Record(vs) => w@ matches ValueV::Record(all) && all.len() == vs@.len() && forall|
                i: int,
            |
                0 <= i < all.len() ==> #[trigger] all[i] == (vs@[i].0@, vs@[i].1@),
            Val::Tuple(vs) => w@ matches ValueV::Tuple(all) && all.len() == vs@.len() && forall|
                i: int,
            |
                0 <= i < all.len() ==> #[trigger] all[i] == vs@[i]@,
        },
{
    vals_are_simple(*v);
}

} // verus!
