//! Component values as plain data.
//!
//! Floating-point numbers are held as their bit patterns, so that values can be
//! compared and moved without doing arithmetic on them. A [`Value`] is a tree and
//! its view, [`ValueV`], is the same tree over mathematical sequences.

use vstd::prelude::*;

use crate::types::texts;

verus! {

/// A value of some interface type.
#[derive(Debug, PartialEq, Eq)]
pub enum Value {
    Bool(bool),
    S8(i8),
    U8(u8),
    S16(i16),
    U16(u16),
    S32(i32),
    U32(u32),
    S64(i64),
    U64(u64),
    /// The bits of a 32-bit float.
    Float32(u32),
    /// The bits of a 64-bit float.
    Float64(u64),
    Char(char),
    String(String),
    List(Vec<Value>),
    Mapping(Vec<(Value, Value)>),
    Record(Vec<(String, Value)>),
    Tuple(Vec<Value>),
    Variant(String, Option<Box<Value>>),
    Enum(String),
    Option(Option<Box<Value>>),
    Result(Result<Option<Box<Value>>, Option<Box<Value>>>),
    Flags(Vec<String>),
    /// A handle to a resource, by the slot it is kept in.
    Resource(u32),
    Future,
    Stream,
    ErrorContext,
}

/// The view of a [`Value`].
pub enum ValueV {
    Bool(bool),
    S8(i8),
    U8(u8),
    S16(i16),
    U16(u16),
    S32(i32),
    U32(u32),
    S64(i64),
    U64(u64),
    Float32(u32),
    Float64(u64),
    Char(char),
    String(Seq<char>),
    List(Seq<ValueV>),
    Mapping(Seq<(ValueV, ValueV)>),
    Record(Seq<(Seq<char>, ValueV)>),
    Tuple(Seq<ValueV>),
    Variant(Seq<char>, Option<Box<ValueV>>),
    Enum(Seq<char>),
    Option(Option<Box<ValueV>>),
    Result(Result<Option<Box<ValueV>>, Option<Box<ValueV>>>),
    Flags(Seq<Seq<char>>),
    Resource(u32),
    Future,
    Stream,
    ErrorContext,
}

pub open spec fn value_view(v: Value) -> ValueV
    decreases v,
{
    match v {
        Value::Bool(x) => ValueV::Bool(x),
        Value::S8(x) => ValueV::S8(x),
        Value::U8(x) => ValueV::U8(x),
        Value::S16(x) => ValueV::S16(x),
        Value::U16(x) => ValueV::U16(x),
        Value::S32(x) => ValueV::S32(x),
        Value::U32(x) => ValueV::U32(x),
        Value::S64(x) => ValueV::S64(x),
        Value::U64(x) => ValueV::U64(x),
        Value::Float32(x) => ValueV::Float32(x),
        Value::Float64(x) => ValueV::Float64(x),
        Value::Char(x) => ValueV::Char(x),
        Value::String(x) => ValueV::String(x@),
        Value::List(vs) => ValueV::List(
            Seq::new(
                vs@.len(),
                |i: int|
                    if 0 <= i < vs@.len() {
                        value_view(vs@[i])
                    } else {
                        arbitrary()
                    },
            ),
        ),
        Value::Mapping(vs) => ValueV::Mapping(
            Seq::new(
                vs@.len(),
                |i: int|
                    if 0 <= i < vs@.len() {
                        (value_view(vs@[i].0), value_view(vs@[i].1))
                    } else {
                        arbitrary()
                    },
            ),
        ),
        Value::Record(vs) => ValueV::Record(
            Seq::new(
                vs@.len(),
                |i: int|
                    if 0 <= i < vs@.len() {
                        (vs@[i].0@, value_view(vs@[i].1))
                    } else {
                        arbitrary()
                    },
            ),
        ),
        Value::Tuple(vs) => ValueV::Tuple(
            Seq::new(
                vs@.len(),
                |i: int|
                    if 0 <= i < vs@.len() {
                        value_view(vs@[i])
                    } else {
                        arbitrary()
                    },
            ),
        ),
        Value::Variant(name, payload) => ValueV::Variant(
            name@,
            match payload {
                Some(p) => Some(Box::new(value_view(*p))),
                None => None,
            },
        ),
        Value::Enum(name) => ValueV::Enum(name@),
        Value::Option(payload) => ValueV::Option(
            match payload {
                Some(p) => Some(Box::new(value_view(*p))),
                None => None,
            },
        ),
        Value::Result(r) => ValueV::Result(
            match r {
                Ok(Some(p)) => Ok(Some(Box::new(value_view(*p)))),
                Ok(None) => Ok(None),
                Err(Some(p)) => Err(Some(Box::new(value_view(*p)))),
                Err(None) => Err(None),
            },
        ),
        Value::Flags(names) => ValueV::Flags(texts(names@)),
        Value::Resource(slot) => ValueV::Resource(slot),
        Value::Future => ValueV::Future,
        Value::Stream => ValueV::Stream,
        Value::ErrorContext => ValueV::ErrorContext,
    }
}

impl View for Value {
    type V = ValueV;

    open spec fn view(&self) -> ValueV {
        value_view(*self)
    }
}

/// The views of a sequence of values.
pub open spec fn views(vs: Seq<Value>) -> Seq<ValueV> {
    Seq::new(vs.len(), |i: int| vs[i]@)
}

/// An element is smaller than the list it stands in.
pub(crate) proof fn lemma_item_decreases(vs: Vec<Value>, i: int)
    requires
        0 <= i < vs@.len(),
    ensures
        decreases_to!(vs => vs@[i]),
{
    assert(decreases_to!(vs => vs@));
    assert(decreases_to!(vs@ => vs@[i]));
}

/// A field's value is smaller than the list of fields it stands in.
pub(crate) proof fn lemma_entry_decreases(vs: Vec<(String, Value)>, i: int)
    requires
        0 <= i < vs@.len(),
    ensures
        decreases_to!(vs => vs@[i].1),
{
    assert(decreases_to!(vs => vs@));
    assert(decreases_to!(vs@ => vs@[i]));
    assert(decreases_to!(vs@[i] => vs@[i].1));
}

/// A value is seen as it is: of its own kind, with its own parts in their order.
pub proof fn values_are_seen_as_they_are(v: Value, i: int)
    ensures
        match v {
            Value::Bool(x) => v@ == ValueV::Bool(x),
            Value::S8(x) => v@ == ValueV::S8(x),
            Value::U8(x) => v@ == ValueV::U8(x),
            Value::S16(x) => v@ == ValueV::S16(x),
            Value::U16(x) => v@ == ValueV::U16(x),
            Value::S32(x) => v@ == ValueV::S32(x),
            Value::U32(x) => v@ == ValueV::U32(x),
            Value::S64(x) => v@ == ValueV::S64(x),
            Value::U64(x) => v@ == ValueV::U64(x),
            Value::Float32(x) => v@ == ValueV::Float32(x),
            Value::Float64(x) => v@ == ValueV::Float64(x),
            Value::Char(x) => v@ == ValueV::Char(x),
            Value::String(s) => v@ == ValueV::String(s@),
            Value::List(vs) => v@ matches ValueV::List(all) && all.len() == vs@.len() && (0 <= i
                < all.len() ==> all[i] == vs@[i]@),
            Value::Mapping(vs) => v@ matches ValueV::Mapping(all) && all.len() == vs@.len() && (0
                <= i < all.len() ==> all[i] == (vs@[i].0@, vs@[i].1@)),
            Value::Record(vs) => v@ matches ValueV::Record(all) && all.len() == vs@.len() && (0 <= i
                < all.len() ==> all[i] == (vs@[i].0@, vs@[i].1@)),
            Value::Tuple(vs) => v@ matches ValueV::Tuple(all) && all.len() == vs@.len() && (0 <= i
                < all.len() ==> all[i] == vs@[i]@),
            Value::Variant(name, None) => v@ == ValueV::Variant(name@, None),
            Value::Variant(name, Some(p)) => v@ == ValueV::Variant(name@, Some(Box::new(p@))),
            Value::Enum(name) => v@ == ValueV::Enum(name@),
            Value::Option(None) => v@ == ValueV::Option(None),
            Value::Option(Some(p)) => v@ == ValueV::Option(Some(Box::new(p@))),
            Value::Result(Ok(None)) => v@ == ValueV::Result(Ok(None)),
            Value::Result(Ok(Some(p))) => v@ == ValueV::Result(Ok(Some(Box::new(p@)))),
            Value::Result(Err(None)) => v@ == ValueV::Result(Err(None)),
            Value::Result(Err(Some(p))) => v@ == ValueV::Result(Err(Some(Box::new(p@)))),
            Value::Flags(names) => v@ matches ValueV::Flags(all) && all.len() == names@.len() && (0
                <= i < all.len() ==> all[i] == names@[i]@),
            Value::Resource(slot) => v@ == ValueV::Resource(slot),
            Value::Future => v@ == ValueV::Future,
            Value::Stream => v@ == ValueV::Stream,
            Value::ErrorContext => v@ == ValueV::ErrorContext,
        },
{
}

/// Values and names are seen in their order.
pub proof fn lists_are_seen_in_order(vs: Seq<Value>, names: Seq<String>, i: int)
    ensures
        views(vs).len() == vs.len(),
        0 <= i < vs.len() ==> views(vs)[i] == vs[i]@,
        texts(names).len() == names.len(),
        0 <= i < names.len() ==> texts(names)[i] == names[i]@,
{
}

} // verus!
