//! Values as JSON, for a page that drives a contract.
//!
//! [`Json`] is what was parsed from a page; a number comes with the conversions that
//! it has. [`Rendered`] is what is written back; floats go by their bits.

use vstd::arithmetic::div_mod::{
    lemma_fundamental_div_mod, lemma_mod_add_multiples_vanish, lemma_mod_multiples_basic,
    lemma_small_mod,
};
use vstd::prelude::*;
use vstd::utf8::char_u32_cast;

use crate::discovery::{
    function_list, found, listed, utxo_list, Catalog, FuncExportV, Role, StorageV, UtxoV,
};
use crate::host::{last_segment, segment_of};
use crate::roundtrip::has_type;
use crate::text::{chars_of, same_text};
use crate::types::{
    lemma_element_decreases, lemma_field_decreases, type_view, FuncType, FuncTypeV, Type, TypeV,
};
use crate::value::{
    lemma_entry_decreases, lemma_item_decreases, value_view, views, Value, ValueV,
};

verus! {

/// What a number is exactly.
#[derive(Clone, Copy, Debug, PartialEq, Eq, Structural)]
pub enum Exact {
    /// An integer that is not negative.
    Unsigned(u64),
    /// A negative integer.
    Negative(i64),
    /// Not an integer.
    Fraction,
}

/// A number: what it is exactly, its nearest floats as bits, and the integers nearest
/// to its double that they have room for.
#[derive(Clone, Copy, Debug, PartialEq, Eq, Structural)]
pub struct JsonNumber {
    pub exact: Exact,
    pub double: u64,
    pub single: u32,
    pub signed: i64,
    pub unsigned: u64,
}

/// A parsed JSON value.
#[derive(Debug, PartialEq, Eq)]
pub enum Json {
    Null,
    Bool(bool),
    Number(JsonNumber),
    String(String),
    Array(Vec<Json>),
    Object(Vec<(String, Json)>),
}

/// The view of a [`Json`].
pub enum JsonV {
    Null,
    Bool(bool),
    Number(JsonNumber),
    String(Seq<char>),
    Array(Seq<JsonV>),
    Object(Seq<(Seq<char>, JsonV)>),
}

pub open spec fn json_view(v: Json) -> JsonV
    decreases v,
{
    match v {
        Json::Null => JsonV::Null,
        Json::Bool(b) => JsonV::Bool(b),
        Json::Number(n) => JsonV::Number(n),
        Json::String(s) => JsonV::String(s@),
        Json::Array(vs) => JsonV::Array(
            Seq::new(
                vs@.len(),
                |i: int|
                    if 0 <= i < vs@.len() {
                        json_view(vs@[i])
                    } else {
                        arbitrary()
                    },
            ),
        ),
        Json::Object(vs) => JsonV::Object(
            Seq::new(
                vs@.len(),
                |i: int|
                    if 0 <= i < vs@.len() {
                        (vs@[i].0@, json_view(vs@[i].1))
                    } else {
                        arbitrary()
                    },
            ),
        ),
    }
}

impl View for Json {
    type V = JsonV;

    open spec fn view(&self) -> JsonV {
        json_view(*self)
    }
}

/// What a JSON value was expected to be.
#[derive(Clone, Copy, Debug, PartialEq, Eq, Structural)]
pub enum Expected {
    Boolean,
    Integer,
    UnsignedInteger,
    Number,
    StringForChar,
    String,
    ArrayForList,
    ObjectForRecord,
    ArrayForTuple,
}

/// Why a JSON value is not a value of a type.
#[derive(Debug, PartialEq, Eq)]
pub enum JsonError<'a> {
    /// The value is of another kind.
    Expected(Expected, &'a Json),
    NotOneCharacter,
    MissingField(String),
    TupleSize { expected: usize, got: usize },
    ArgumentCount { expected: usize, got: usize },
    UnsupportedType,
}

/// The view of a [`JsonError`].
pub enum JsonErrorV {
    Expected(Expected, JsonV),
    NotOneCharacter,
    MissingField(Seq<char>),
    TupleSize { expected: nat, got: nat },
    ArgumentCount { expected: nat, got: nat },
    UnsupportedType,
}

impl<'a> View for JsonError<'a> {
    type V = JsonErrorV;

    open spec fn view(&self) -> JsonErrorV {
        match self {
            JsonError::Expected(e, v) => JsonErrorV::Expected(*e, v@),
            JsonError::NotOneCharacter => JsonErrorV::NotOneCharacter,
            JsonError::MissingField(name) => JsonErrorV::MissingField(name@),
            JsonError::TupleSize { expected, got } => JsonErrorV::TupleSize {
                expected: *expected as nat,
                got: *got as nat,
            },
            JsonError::ArgumentCount { expected, got } => JsonErrorV::ArgumentCount {
                expected: *expected as nat,
                got: *got as nat,
            },
            JsonError::UnsupportedType => JsonErrorV::UnsupportedType,
        }
    }
}

/// A value, or why there is none.
pub type Lowering = Result<ValueV, JsonErrorV>;

/// A number as a signed integer of 64 bits: itself where it is one, else the nearest
/// to its double.
pub open spec fn as_signed(n: JsonNumber) -> int {
    match n.exact {
        Exact::Unsigned(x) => if x <= i64::MAX {
            x as int
        } else {
            n.signed as int
        },
        Exact::Negative(x) => x as int,
        Exact::Fraction => n.signed as int,
    }
}

/// A number as an unsigned integer of 64 bits: itself where it is one, else the
/// nearest to its double.
pub open spec fn as_unsigned(n: JsonNumber) -> int {
    match n.exact {
        Exact::Unsigned(x) => x as int,
        _ => n.unsigned as int,
    }
}

/// An integer cut to the low bits of a signed integer, `half` of whose values are not
/// negative.
pub open spec fn wrapped(x: int, half: int) -> int {
    if x % (2 * half) < half {
        x % (2 * half)
    } else {
        x % (2 * half) - 2 * half
    }
}

/// The place at which `name` first stands among the members of an object.
pub open spec fn first_member(members: Seq<(Seq<char>, JsonV)>, name: Seq<char>, i: int) -> bool {
    &&& 0 <= i < members.len()
    &&& members[i].0 == name
    &&& forall|j: int| 0 <= j < i ==> (#[trigger] members[j]).0 != name
}

/// The member `name` of an object.
pub open spec fn member(members: Seq<(Seq<char>, JsonV)>, name: Seq<char>) -> Option<JsonV> {
    if exists|i: int| first_member(members, name, i) {
        Some(members[choose|i: int| first_member(members, name, i)].1)
    } else {
        None
    }
}

/// A JSON value as a value of the type `ty`.
pub open spec fn lowering(ty: TypeV, v: JsonV) -> Lowering
    decreases ty, 0nat,
{
    match ty {
        TypeV::Bool => match v {
            JsonV::Bool(b) => Ok(ValueV::Bool(b)),
            _ => Err(JsonErrorV::Expected(Expected::Boolean, v)),
        },
        TypeV::S8 => match v {
            JsonV::Number(n) => Ok(ValueV::S8(wrapped(as_signed(n), 0x80) as i8)),
            _ => Err(JsonErrorV::Expected(Expected::Integer, v)),
        },
        TypeV::U8 => match v {
            JsonV::Number(n) => Ok(ValueV::U8((as_unsigned(n) % 0x100) as u8)),
            _ => Err(JsonErrorV::Expected(Expected::UnsignedInteger, v)),
        },
        TypeV::S16 => match v {
            JsonV::Number(n) => Ok(ValueV::S16(wrapped(as_signed(n), 0x8000) as i16)),
            _ => Err(JsonErrorV::Expected(Expected::Integer, v)),
        },
        TypeV::U16 => match v {
            JsonV::Number(n) => Ok(ValueV::U16((as_unsigned(n) % 0x1_0000) as u16)),
            _ => Err(JsonErrorV::Expected(Expected::UnsignedInteger, v)),
        },
        TypeV::S32 => match v {
            JsonV::Number(n) => Ok(ValueV::S32(wrapped(as_signed(n), 0x8000_0000) as i32)),
            _ => Err(JsonErrorV::Expected(Expected::Integer, v)),
        },
        TypeV::U32 => match v {
            JsonV::Number(n) => Ok(ValueV::U32((as_unsigned(n) % 0x1_0000_0000) as u32)),
            _ => Err(JsonErrorV::Expected(Expected::UnsignedInteger, v)),
        },
        TypeV::S64 => match v {
            JsonV::Number(n) => Ok(ValueV::S64(as_signed(n) as i64)),
            _ => Err(JsonErrorV::Expected(Expected::Integer, v)),
        },
        TypeV::U64 => match v {
            JsonV::Number(n) => Ok(ValueV::U64(as_unsigned(n) as u64)),
            _ => Err(JsonErrorV::Expected(Expected::UnsignedInteger, v)),
        },
        TypeV::Float32 => match v {
            JsonV::Number(n) => Ok(ValueV::Float32(n.single)),
            _ => Err(JsonErrorV::Expected(Expected::Number, v)),
        },
        TypeV::Float64 => match v {
            JsonV::Number(n) => Ok(ValueV::Float64(n.double)),
            _ => Err(JsonErrorV::Expected(Expected::Number, v)),
        },
        TypeV::Char => match v {
            JsonV::String(s) => if s.len() == 1 {
                Ok(ValueV::Char(s[0]))
            } else {
                Err(JsonErrorV::NotOneCharacter)
            },
            _ => Err(JsonErrorV::Expected(Expected::StringForChar, v)),
        },
        TypeV::String => match v {
            JsonV::String(s) => Ok(ValueV::String(s)),
            _ => Err(JsonErrorV::Expected(Expected::String, v)),
        },
        TypeV::List(e) => match v {
            JsonV::Array(vs) => match list_lowering(*e, vs, vs.len()) {
                Ok(items) => Ok(ValueV::List(items)),
                Err(e) => Err(e),
            },
            _ => Err(JsonErrorV::Expected(Expected::ArrayForList, v)),
        },
        TypeV::Record(fields) => match v {
            JsonV::Object(members) => match record_lowering(fields, members, fields.len()) {
                Ok(items) => Ok(ValueV::Record(items)),
                Err(e) => Err(e),
            },
            _ => Err(JsonErrorV::Expected(Expected::ObjectForRecord, v)),
        },
        TypeV::Tuple(types) => match v {
            JsonV::Array(vs) => if types.len() != vs.len() {
                Err(JsonErrorV::TupleSize { expected: types.len(), got: vs.len() })
            } else {
                match tuple_lowering(types, vs, types.len()) {
                    Ok(items) => Ok(ValueV::Tuple(items)),
                    Err(e) => Err(e),
                }
            },
            _ => Err(JsonErrorV::Expected(Expected::ArrayForTuple, v)),
        },
        TypeV::Option(t) => match v {
            JsonV::Null => Ok(ValueV::Option(None)),
            _ => match lowering(*t, v) {
                Ok(x) => Ok(ValueV::Option(Some(Box::new(x)))),
                Err(e) => Err(e),
            },
        },
        _ => Err(JsonErrorV::UnsupportedType),
    }
}

/// The first `n` of some JSON values as values of one type, up to the first fault.
pub open spec fn list_lowering(ty: TypeV, vs: Seq<JsonV>, n: nat) -> Result<
    Seq<ValueV>,
    JsonErrorV,
>
    decreases ty, n,
{
    if n == 0 {
        Ok(Seq::empty())
    } else {
        match list_lowering(ty, vs, (n - 1) as nat) {
            Err(e) => Err(e),
            Ok(before) => match lowering(ty, vs[n - 1]) {
                Ok(x) => Ok(before.push(x)),
                Err(e) => Err(e),
            },
        }
    }
}

/// The first `n` fields of a record, each the member of its name.
pub open spec fn record_lowering(
    fields: Seq<(Seq<char>, TypeV)>,
    members: Seq<(Seq<char>, JsonV)>,
    n: nat,
) -> Result<Seq<(Seq<char>, ValueV)>, JsonErrorV>
    decreases fields, n,
{
    if n == 0 || n > fields.len() {
        Ok(Seq::empty())
    } else {
        match record_lowering(fields, members, (n - 1) as nat) {
            Err(e) => Err(e),
            Ok(before) => match member(members, fields[n - 1].0) {
                None => Err(JsonErrorV::MissingField(fields[n - 1].0)),
                Some(v) => match lowering(fields[n - 1].1, v) {
                    Ok(x) => Ok(before.push((fields[n - 1].0, x))),
                    Err(e) => Err(e),
                },
            },
        }
    }
}

/// The first `n` of some JSON values, each as a value of the type at its place.
pub open spec fn tuple_lowering(types: Seq<TypeV>, vs: Seq<JsonV>, n: nat) -> Result<
    Seq<ValueV>,
    JsonErrorV,
>
    decreases types, n,
{
    if n == 0 || n > types.len() {
        Ok(Seq::empty())
    } else {
        match tuple_lowering(types, vs, (n - 1) as nat) {
            Err(e) => Err(e),
            Ok(before) => match lowering(types[n - 1], vs[n - 1]) {
                Ok(x) => Ok(before.push(x)),
                Err(e) => Err(e),
            },
        }
    }
}

/// Whether a lowering function returned what `lowering` says.
pub open spec fn lowers(l: Lowering, r: Result<Value, JsonError>) -> bool {
    match r {
        Ok(v) => l == Lowering::Ok(v@),
        Err(e) => l == Lowering::Err(e@),
    }
}

fn signed(n: &JsonNumber) -> (r: i64)
    ensures
        r == as_signed(*n),
{
    match n.exact {
        Exact::Unsigned(x) => if x <= 0x7fff_ffff_ffff_ffff {
            x as i64
        } else {
            n.signed
        },
        Exact::Negative(x) => x,
        Exact::Fraction => n.signed,
    }
}

fn unsigned(n: &JsonNumber) -> (r: u64)
    ensures
        r == as_unsigned(*n),
{
    match n.exact {
        Exact::Unsigned(x) => x,
        _ => n.unsigned,
    }
}

/// The bits of a signed number as an unsigned one.
fn bits_of(x: i64) -> (r: u64)
    ensures
        r == x as int % 0x1_0000_0000_0000_0000,
{
    if x >= 0 {
        x as u64
    } else {
        0xffff_ffff_ffff_ffff - ((-(x + 1)) as u64)
    }
}

fn wrap_s8(x: i64) -> (r: i8)
    ensures
        r == wrapped(x as int, 0x80),
{
    let low: u64 = bits_of(x) % 0x100;
    assert(low == x as int % 0x100);
    if low < 0x80 {
        low as i8
    } else {
        (low as i16 - 0x100) as i8
    }
}

fn wrap_s16(x: i64) -> (r: i16)
    ensures
        r == wrapped(x as int, 0x8000),
{
    let low: u64 = bits_of(x) % 0x1_0000;
    assert(low == x as int % 0x1_0000);
    if low < 0x8000 {
        low as i16
    } else {
        (low as i32 - 0x1_0000) as i16
    }
}

fn wrap_s32(x: i64) -> (r: i32)
    ensures
        r == wrapped(x as int, 0x8000_0000),
{
    let low: u64 = bits_of(x) % 0x1_0000_0000;
    assert(low == x as int % 0x1_0000_0000);
    if low < 0x8000_0000 {
        low as i32
    } else {
        (low as i64 - 0x1_0000_0000) as i32
    }
}

proof fn lemma_member(members: Seq<(Seq<char>, JsonV)>, name: Seq<char>, i: int)
    requires
        first_member(members, name, i),
    ensures
        member(members, name) == Some(members[i].1),
{
    let k = choose|k: int| first_member(members, name, k);
    assert(first_member(members, name, k));
    assert(k == i);
}

/// The member `name` of an object.
fn find_member<'a>(members: &'a Vec<(String, Json)>, name: &str) -> (r: Option<&'a Json>)
    ensures
        match r {
            Some(v) => member(json_view(Json::Object(*members))->Object_0, name@) == Some(v@),
            None => member(json_view(Json::Object(*members))->Object_0, name@) is None,
        },
{
    let ghost all = json_view(Json::Object(*members))->Object_0;
    let mut i: usize = 0;
    while i < members.len()
        invariant
            0 <= i <= members@.len(),
            all == json_view(Json::Object(*members))->Object_0,
            forall|j: int| 0 <= j < i ==> (#[trigger] all[j]).0 != name@,
        decreases members@.len() - i,
    {
        if same_text(members[i].0.as_str(), name) {
            proof {
                lemma_member(all, name@, i as int);
            }
            return Some(&members[i].1);
        }
        i += 1;
    }
    assert(!exists|i: int| first_member(all, name@, i));
    None
}

/// The views of a list of JSON values.
pub open spec fn json_views(vs: Seq<Json>) -> Seq<JsonV> {
    Seq::new(vs.len(), |i: int| vs[i]@)
}

proof fn lemma_list_stops(ty: TypeV, vs: Seq<JsonV>, i: nat, n: nat)
    requires
        i <= n,
        list_lowering(ty, vs, i) is Err,
    ensures
        list_lowering(ty, vs, n) == list_lowering(ty, vs, i),
    decreases n,
{
    if i < n {
        lemma_list_stops(ty, vs, i, (n - 1) as nat);
    }
}

fn lower_list<'a>(ty: &Type, vs: &'a Vec<Json>) -> (r: Result<Vec<Value>, JsonError<'a>>)
    ensures
        match r {
            Ok(items) => list_lowering(ty@, json_views(vs@), vs@.len()) == Ok::<
                Seq<ValueV>,
                JsonErrorV,
            >(views(items@)),
            Err(e) => list_lowering(ty@, json_views(vs@), vs@.len()) == Err::<
                Seq<ValueV>,
                JsonErrorV,
            >(e@),
        },
    decreases ty, 1nat,
{
    let ghost all = json_views(vs@);
    let mut items: Vec<Value> = Vec::new();
    let mut i: usize = 0;
    assert(views(items@) =~= Seq::<ValueV>::empty());
    while i < vs.len()
        invariant
            0 <= i <= vs@.len(),
            all == json_views(vs@),
            list_lowering(ty@, all, i as nat) == Ok::<Seq<ValueV>, JsonErrorV>(views(items@)),
        decreases vs@.len() - i,
    {
        let ghost before = items@;
        match json_to_val(ty, &vs[i]) {
            Ok(x) => {
                items.push(x);
                assert(views(items@) =~= views(before).push(x@));
            },
            Err(e) => {
                proof {
                    lemma_list_stops(ty@, all, (i + 1) as nat, all.len());
                }
                return Err(e);
            },
        }
        i += 1;
    }
    Ok(items)
}

proof fn lemma_record_stops(
    fields: Seq<(Seq<char>, TypeV)>,
    members: Seq<(Seq<char>, JsonV)>,
    i: nat,
    n: nat,
)
    requires
        i <= n <= fields.len(),
        record_lowering(fields, members, i) is Err,
    ensures
        record_lowering(fields, members, n) == record_lowering(fields, members, i),
    decreases n,
{
    if i < n {
        lemma_record_stops(fields, members, i, (n - 1) as nat);
    }
}

fn lower_record<'a>(fields: &Vec<(String, Type)>, members: &'a Vec<(String, Json)>) -> (r: Result<
    Value,
    JsonError<'a>,
>)
    ensures
        lowers(
            lowering(type_view(Type::Record(*fields)), json_view(Json::Object(*members))),
            r,
        ),
    decreases fields, 1nat,
{
    let ghost tys = type_view(Type::Record(*fields))->Record_0;
    let ghost all = json_view(Json::Object(*members))->Object_0;
    let mut items: Vec<(String, Value)> = Vec::new();
    let mut i: usize = 0;
    assert(value_view(Value::Record(items))->Record_0 =~= Seq::<(Seq<char>, ValueV)>::empty());
    while i < fields.len()
        invariant
            0 <= i <= fields@.len(),
            tys == type_view(Type::Record(*fields))->Record_0,
            all == json_view(Json::Object(*members))->Object_0,
            record_lowering(tys, all, i as nat) == Ok::<Seq<(Seq<char>, ValueV)>, JsonErrorV>(
                value_view(Value::Record(items))->Record_0,
            ),
        decreases fields@.len() - i,
    {
        let ghost before = items;
        proof {
            lemma_field_decreases(*fields, i as int);
        }
        match find_member(members, fields[i].0.as_str()) {
            None => {
                proof {
                    lemma_record_stops(tys, all, (i + 1) as nat, tys.len());
                }
                return Err(JsonError::MissingField(fields[i].0.clone()));
            },
            Some(v) => match json_to_val(&fields[i].1, v) {
                Ok(x) => {
                    items.push((fields[i].0.clone(), x));
                    assert(value_view(Value::Record(items))->Record_0 =~= value_view(
                        Value::Record(before),
                    )->Record_0.push((tys[i as int].0, x@)));
                },
                Err(e) => {
                    proof {
                        lemma_record_stops(tys, all, (i + 1) as nat, tys.len());
                    }
                    return Err(e);
                },
            },
        }
        i += 1;
    }
    Ok(Value::Record(items))
}

proof fn lemma_tuple_stops(types: Seq<TypeV>, vs: Seq<JsonV>, i: nat, n: nat)
    requires
        i <= n <= types.len(),
        tuple_lowering(types, vs, i) is Err,
    ensures
        tuple_lowering(types, vs, n) == tuple_lowering(types, vs, i),
    decreases n,
{
    if i < n {
        lemma_tuple_stops(types, vs, i, (n - 1) as nat);
    }
}

fn lower_tuple<'a>(types: &Vec<Type>, vs: &'a Vec<Json>) -> (r: Result<Value, JsonError<'a>>)
    ensures
        lowers(lowering(type_view(Type::Tuple(*types)), json_view(Json::Array(*vs))), r),
    decreases types, 1nat,
{
    let ghost tys = type_view(Type::Tuple(*types))->Tuple_0;
    let ghost all = json_view(Json::Array(*vs))->Array_0;
    if types.len() != vs.len() {
        return Err(JsonError::TupleSize { expected: types.len(), got: vs.len() });
    }
    let mut items: Vec<Value> = Vec::new();
    let mut i: usize = 0;
    assert(views(items@) =~= Seq::<ValueV>::empty());
    while i < types.len()
        invariant
            0 <= i <= types@.len() == vs@.len(),
            tys == type_view(Type::Tuple(*types))->Tuple_0,
            all == json_view(Json::Array(*vs))->Array_0,
            tuple_lowering(tys, all, i as nat) == Ok::<Seq<ValueV>, JsonErrorV>(views(items@)),
        decreases types@.len() - i,
    {
        let ghost before = items@;
        proof {
            lemma_element_decreases(*types, i as int);
        }
        match json_to_val(&types[i], &vs[i]) {
            Ok(x) => {
                items.push(x);
                assert(views(items@) =~= views(before).push(x@));
            },
            Err(e) => {
                proof {
                    lemma_tuple_stops(tys, all, (i + 1) as nat, tys.len());
                }
                return Err(e);
            },
        }
        i += 1;
    }
    assert(views(items@) =~= value_view(Value::Tuple(items))->Tuple_0);
    Ok(Value::Tuple(items))
}

/// The only character of a text.
fn sole_char(s: &str) -> (r: Option<char>)
    ensures
        match r {
            Some(c) => s@.len() == 1 && s@[0] == c,
            None => s@.len() != 1,
        },
{
    let chars = chars_of(s);
    if chars.len() == 1 {
        Some(chars[0])
    } else {
        None
    }
}

/// A JSON value as a value of the type `ty`: a scalar, a record, a tuple, a list or an
/// option of these.
pub fn json_to_val<'a>(ty: &Type, v: &'a Json) -> (r: Result<Value, JsonError<'a>>)
    ensures
        lowers(lowering(ty@, v@), r),
    decreases ty, 0nat,
{
    match ty {
        Type::Bool => match v {
            Json::Bool(b) => Ok(Value::Bool(*b)),
            _ => Err(JsonError::Expected(Expected::Boolean, v)),
        },
        Type::S8 => match v {
            Json::Number(n) => Ok(Value::S8(wrap_s8(signed(n)))),
            _ => Err(JsonError::Expected(Expected::Integer, v)),
        },
        Type::U8 => match v {
            Json::Number(n) => Ok(Value::U8((unsigned(n) % 0x100) as u8)),
            _ => Err(JsonError::Expected(Expected::UnsignedInteger, v)),
        },
        Type::S16 => match v {
            Json::Number(n) => Ok(Value::S16(wrap_s16(signed(n)))),
            _ => Err(JsonError::Expected(Expected::Integer, v)),
        },
        Type::U16 => match v {
            Json::Number(n) => Ok(Value::U16((unsigned(n) % 0x1_0000) as u16)),
            _ => Err(JsonError::Expected(Expected::UnsignedInteger, v)),
        },
        Type::S32 => match v {
            Json::Number(n) => Ok(Value::S32(wrap_s32(signed(n)))),
            _ => Err(JsonError::Expected(Expected::Integer, v)),
        },
        Type::U32 => match v {
            Json::Number(n) => Ok(Value::U32((unsigned(n) % 0x1_0000_0000) as u32)),
            _ => Err(JsonError::Expected(Expected::UnsignedInteger, v)),
        },
        Type::S64 => match v {
            Json::Number(n) => Ok(Value::S64(signed(n))),
            _ => Err(JsonError::Expected(Expected::Integer, v)),
        },
        Type::U64 => match v {
            Json::Number(n) => Ok(Value::U64(unsigned(n))),
            _ => Err(JsonError::Expected(Expected::UnsignedInteger, v)),
        },
        Type::Float32 => match v {
            Json::Number(n) => Ok(Value::Float32(n.single)),
            _ => Err(JsonError::Expected(Expected::Number, v)),
        },
        Type::Float64 => match v {
            Json::Number(n) => Ok(Value::Float64(n.double)),
            _ => Err(JsonError::Expected(Expected::Number, v)),
        },
        Type::Char => match v {
            Json::String(s) => {
                match sole_char(s.as_str()) {
                    Some(c) => {
                        proof {
                            char_u32_cast(c, c as u32);
                        }
                        Ok(Value::Char(c))
                    },
                    None => Err(JsonError::NotOneCharacter),
                }
            },
            _ => Err(JsonError::Expected(Expected::StringForChar, v)),
        },
        Type::String => match v {
            Json::String(s) => Ok(Value::String(s.clone())),
            _ => Err(JsonError::Expected(Expected::String, v)),
        },
        Type::List(e) => match v {
            Json::Array(vs) => {
                assert(json_views(vs@) =~= v@->Array_0);
                match lower_list(&**e, vs) {
                    Ok(items) => {
                        assert(views(items@) =~= value_view(Value::List(items))->List_0);
                        Ok(Value::List(items))
                    },
                    Err(e) => Err(e),
                }
            },
            _ => Err(JsonError::Expected(Expected::ArrayForList, v)),
        },
        Type::Record(fields) => match v {
            Json::Object(members) => lower_record(fields, members),
            _ => Err(JsonError::Expected(Expected::ObjectForRecord, v)),
        },
        Type::Tuple(types) => match v {
            Json::Array(vs) => lower_tuple(types, vs),
            _ => Err(JsonError::Expected(Expected::ArrayForTuple, v)),
        },
        Type::Option(t) => match v {
            Json::Null => Ok(Value::Option(None)),
            _ => match json_to_val(&**t, v) {
                Ok(x) => Ok(Value::Option(Some(Box::new(x)))),
                Err(e) => Err(e),
            },
        },
        _ => Err(JsonError::UnsupportedType),
    }
}

/// The types of a function's parameters but for the first `skip`.
pub open spec fn types_behind(params: Seq<(Seq<char>, TypeV)>, skip: nat) -> Seq<TypeV> {
    if params.len() < skip {
        Seq::empty()
    } else {
        Seq::new((params.len() - skip) as nat, |i: int| params[i + skip].1)
    }
}

/// JSON values as the arguments of a function, but for its first `skip` parameters.
pub open spec fn arguments(params: Seq<(Seq<char>, TypeV)>, skip: nat, args: Seq<JsonV>) -> Result<
    Seq<ValueV>,
    JsonErrorV,
> {
    let types = types_behind(params, skip);
    if types.len() != args.len() {
        Err(JsonErrorV::ArgumentCount { expected: types.len(), got: args.len() })
    } else {
        tuple_lowering(types, args, types.len())
    }
}

/// Converts JSON values to the arguments of a function: those from `from` on, for its
/// parameters but for the first `skip`.
pub fn convert_args<'a>(ty: &FuncType, skip: usize, args: &'a Vec<Json>, from: usize) -> (r: Result<
    Vec<Value>,
    JsonError<'a>,
>)
    requires
        from <= args@.len(),
    ensures
        match r {
            Ok(vs) => arguments(ty@.params, skip as nat, json_views(args@).skip(from as int))
                == Ok::<Seq<ValueV>, JsonErrorV>(views(vs@)),
            Err(e) => arguments(ty@.params, skip as nat, json_views(args@).skip(from as int))
                == Err::<Seq<ValueV>, JsonErrorV>(e@),
        },
{
    let ghost types = types_behind(ty@.params, skip as nat);
    let ghost all = json_views(args@).skip(from as int);
    let expected: usize = if ty.params.len() < skip {
        0
    } else {
        ty.params.len() - skip
    };
    let got: usize = args.len() - from;
    if expected != got {
        return Err(JsonError::ArgumentCount { expected, got });
    }
    let mut vs: Vec<Value> = Vec::new();
    let mut i: usize = 0;
    assert(views(vs@) =~= Seq::<ValueV>::empty());
    while i < expected
        invariant
            0 <= i <= expected,
            expected == types.len() == all.len(),
            expected > 0 ==> expected == ty.params@.len() - skip,
            expected == args@.len() - from,
            types == types_behind(ty@.params, skip as nat),
            all == json_views(args@).skip(from as int),
            tuple_lowering(types, all, i as nat) == Ok::<Seq<ValueV>, JsonErrorV>(views(vs@)),
        decreases expected - i,
    {
        let ghost before = vs@;
        let params: usize = ty.params.len();
        let count: usize = args.len();
        assert(skip + i < params);
        assert(from + i < count);
        assert(types[i as int] == ty.params@[skip + i].1@);
        assert(all[i as int] == args@[from + i]@);
        match json_to_val(&ty.params[skip + i].1, &args[from + i]) {
            Ok(x) => {
                vs.push(x);
                assert(views(vs@) =~= views(before).push(x@));
            },
            Err(e) => {
                proof {
                    lemma_tuple_stops(types, all, (i + 1) as nat, types.len());
                }
                return Err(e);
            },
        }
        i += 1;
    }
    Ok(vs)
}

/// A JSON value to be written.
#[derive(Debug, PartialEq, Eq)]
pub enum Rendered<'a> {
    Null,
    Bool(bool),
    Int(i64),
    Uint(u64),
    /// The bits of a 32-bit float.
    Single(u32),
    /// The bits of a 64-bit float.
    Double(u64),
    String(String),
    Array(Vec<Rendered<'a>>),
    Object(Vec<(String, Rendered<'a>)>),
    /// A text that shows the value as it is.
    Shown(&'a Value),
}

/// The view of a [`Rendered`].
pub enum RenderedV {
    Null,
    Bool(bool),
    Int(int),
    Single(u32),
    Double(u64),
    String(Seq<char>),
    Array(Seq<RenderedV>),
    Object(Seq<(Seq<char>, RenderedV)>),
    Shown(ValueV),
}

pub open spec fn rendered_view(v: Rendered) -> RenderedV
    decreases v,
{
    match v {
        Rendered::Null => RenderedV::Null,
        Rendered::Bool(b) => RenderedV::Bool(b),
        Rendered::Int(n) => RenderedV::Int(n as int),
        Rendered::Uint(n) => RenderedV::Int(n as int),
        Rendered::Single(n) => RenderedV::Single(n),
        Rendered::Double(n) => RenderedV::Double(n),
        Rendered::String(s) => RenderedV::String(s@),
        Rendered::Array(vs) => RenderedV::Array(
            Seq::new(
                vs@.len(),
                |i: int|
                    if 0 <= i < vs@.len() {
                        rendered_view(vs@[i])
                    } else {
                        arbitrary()
                    },
            ),
        ),
        Rendered::Object(vs) => RenderedV::Object(
            Seq::new(
                vs@.len(),
                |i: int|
                    if 0 <= i < vs@.len() {
                        (vs@[i].0@, rendered_view(vs@[i].1))
                    } else {
                        arbitrary()
                    },
            ),
        ),
        Rendered::Shown(v) => RenderedV::Shown(v@),
    }
}

impl<'a> View for Rendered<'a> {
    type V = RenderedV;

    open spec fn view(&self) -> RenderedV {
        rendered_view(*self)
    }
}

/// A value as JSON. Handles to resources are not told apart, and what has no JSON form
/// is shown as it is.
pub open spec fn rendering(v: ValueV) -> RenderedV
    decreases v,
{
    match v {
        ValueV::Bool(b) => RenderedV::Bool(b),
        ValueV::S8(n) => RenderedV::Int(n as int),
        ValueV::U8(n) => RenderedV::Int(n as int),
        ValueV::S16(n) => RenderedV::Int(n as int),
        ValueV::U16(n) => RenderedV::Int(n as int),
        ValueV::S32(n) => RenderedV::Int(n as int),
        ValueV::U32(n) => RenderedV::Int(n as int),
        ValueV::S64(n) => RenderedV::Int(n as int),
        ValueV::U64(n) => RenderedV::Int(n as int),
        ValueV::Float32(n) => RenderedV::Single(n),
        ValueV::Float64(n) => RenderedV::Double(n),
        ValueV::Char(c) => RenderedV::String(seq![c]),
        ValueV::String(s) => RenderedV::String(s),
        ValueV::List(vs) => RenderedV::Array(
            Seq::new(
                vs.len(),
                |i: int|
                    if 0 <= i < vs.len() {
                        rendering(vs[i])
                    } else {
                        arbitrary()
                    },
            ),
        ),
        ValueV::Record(vs) => RenderedV::Object(
            Seq::new(
                vs.len(),
                |i: int|
                    if 0 <= i < vs.len() {
                        (vs[i].0, rendering(vs[i].1))
                    } else {
                        arbitrary()
                    },
            ),
        ),
        ValueV::Tuple(vs) => RenderedV::Array(
            Seq::new(
                vs.len(),
                |i: int|
                    if 0 <= i < vs.len() {
                        rendering(vs[i])
                    } else {
                        arbitrary()
                    },
            ),
        ),
        ValueV::Option(p) => match p {
            Some(p) => rendering(*p),
            None => RenderedV::Null,
        },
        ValueV::Resource(_) => RenderedV::Object(seq![("$resource"@, RenderedV::Bool(true))]),
        _ => RenderedV::Shown(v),
    }
}

/// The views of a list.
pub open spec fn rendered_views(vs: Seq<Rendered>) -> Seq<RenderedV> {
    Seq::new(vs.len(), |i: int| vs[i]@)
}

/// The views of a list of members.
pub open spec fn member_views(vs: Seq<(String, Rendered)>) -> Seq<(Seq<char>, RenderedV)> {
    Seq::new(vs.len(), |i: int| (vs[i].0@, vs[i].1@))
}

proof fn lemma_array_view(vs: Vec<Rendered>)
    ensures
        rendered_view(Rendered::Array(vs)) == RenderedV::Array(rendered_views(vs@)),
{
    assert(rendered_view(Rendered::Array(vs))->Array_0 =~= rendered_views(vs@));
}

proof fn lemma_object_view(vs: Vec<(String, Rendered)>)
    ensures
        rendered_view(Rendered::Object(vs)) == RenderedV::Object(member_views(vs@)),
{
    assert(rendered_view(Rendered::Object(vs))->Object_0 =~= member_views(vs@));
}

/// The renderings of a list of values.
pub open spec fn renderings(vs: Seq<ValueV>) -> Seq<RenderedV> {
    Seq::new(vs.len(), |i: int| rendering(vs[i]))
}

/// Values as JSON, one for each.
pub fn vals_to_json(vs: &Vec<Value>) -> (r: Vec<Rendered<'_>>)
    ensures
        rendered_views(r@) == renderings(views(vs@)),
    decreases vs, 1nat,
{
    let mut r: Vec<Rendered> = Vec::new();
    let mut i: usize = 0;
    while i < vs.len()
        invariant
            0 <= i <= vs@.len(),
            r@.len() == i,
            forall|j: int| 0 <= j < i ==> (#[trigger] r@[j])@ == rendering(vs@[j]@),
        decreases vs@.len() - i,
    {
        proof {
            lemma_item_decreases(*vs, i as int);
        }
        r.push(val_to_json(&vs[i]));
        i += 1;
    }
    assert(rendered_views(r@) =~= renderings(views(vs@)));
    r
}

/// The renderings of the fields of a record.
pub open spec fn field_renderings(vs: Seq<(Seq<char>, ValueV)>) -> Seq<(Seq<char>, RenderedV)> {
    Seq::new(vs.len(), |i: int| (vs[i].0, rendering(vs[i].1)))
}

/// The fields of a record as JSON, one member for each.
pub fn fields_to_json(vs: &Vec<(String, Value)>) -> (r: Vec<(String, Rendered<'_>)>)
    ensures
        member_views(r@) == field_renderings(value_view(Value::Record(*vs))->Record_0),
    decreases vs, 1nat,
{
    let mut r: Vec<(String, Rendered)> = Vec::new();
    let mut i: usize = 0;
    while i < vs.len()
        invariant
            0 <= i <= vs@.len(),
            r@.len() == i,
            forall|j: int|
                0 <= j < i ==> (#[trigger] r@[j]).0@ == vs@[j].0@ && r@[j].1@ == rendering(
                    vs@[j].1@,
                ),
        decreases vs@.len() - i,
    {
        proof {
            lemma_entry_decreases(*vs, i as int);
        }
        r.push((vs[i].0.clone(), val_to_json(&vs[i].1)));
        i += 1;
    }
    assert(member_views(r@) =~= field_renderings(value_view(Value::Record(*vs))->Record_0));
    r
}

/// A value as JSON.
pub fn val_to_json(v: &Value) -> (r: Rendered<'_>)
    ensures
        r@ == rendering(v@),
    decreases v, 0nat,
{
    match v {
        Value::Bool(b) => Rendered::Bool(*b),
        Value::S8(n) => Rendered::Int(*n as i64),
        Value::U8(n) => Rendered::Uint(*n as u64),
        Value::S16(n) => Rendered::Int(*n as i64),
        Value::U16(n) => Rendered::Uint(*n as u64),
        Value::S32(n) => Rendered::Int(*n as i64),
        Value::U32(n) => Rendered::Uint(*n as u64),
        Value::S64(n) => Rendered::Int(*n),
        Value::U64(n) => Rendered::Uint(*n),
        Value::Float32(n) => Rendered::Single(*n),
        Value::Float64(n) => Rendered::Double(*n),
        Value::Char(c) => {
            let mut s = String::new();
            s.push(*c);
            assert(s@ =~= seq![*c]);
            Rendered::String(s)
        },
        Value::String(s) => Rendered::String(s.clone()),
        Value::List(vs) => {
            let items = vals_to_json(vs);
            proof {
                lemma_array_view(items);
                assert(views(vs@) =~= v@->List_0);
                assert(renderings(views(vs@)) =~= rendering(v@)->Array_0);
            }
            Rendered::Array(items)
        },
        Value::Record(vs) => {
            let members = fields_to_json(vs);
            proof {
                lemma_object_view(members);
                assert(field_renderings(v@->Record_0) =~= rendering(v@)->Object_0);
            }
            Rendered::Object(members)
        },
        Value::Tuple(vs) => {
            let items = vals_to_json(vs);
            proof {
                lemma_array_view(items);
                assert(views(vs@) =~= v@->Tuple_0);
                assert(renderings(views(vs@)) =~= rendering(v@)->Array_0);
            }
            Rendered::Array(items)
        },
        Value::Option(p) => match p {
            Some(p) => val_to_json(&**p),
            None => Rendered::Null,
        },
        Value::Resource(_) => {
            let mut members: Vec<(String, Rendered)> = Vec::new();
            members.push(("$resource".to_owned(), Rendered::Bool(true)));
            proof {
                lemma_object_view(members);
                assert(member_views(members@) =~= seq![("$resource"@, RenderedV::Bool(true))]);
            }
            Rendered::Object(members)
        },
        _ => Rendered::Shown(v),
    }
}

/// The number of a handle, out of an object that holds one.
pub open spec fn handle_number(v: Option<JsonV>) -> Option<u32> {
    match v {
        Some(JsonV::Object(members)) => match member(members, "$handle"@) {
            Some(JsonV::Number(n)) => match n.exact {
                Exact::Unsigned(id) => Some((id % 0x1_0000_0000) as u32),
                _ => None,
            },
            _ => None,
        },
        _ => None,
    }
}

/// The number of a handle, out of an object that holds one.
pub fn handle_id(v: Option<&Json>) -> (r: Option<u32>)
    ensures
        r == handle_number(
            match v {
                Some(v) => Some(v@),
                None => None,
            },
        ),
{
    match v {
        Some(Json::Object(members)) => match find_member(members, "$handle") {
            Some(Json::Number(n)) => match n.exact {
                Exact::Unsigned(id) => Some((id % 0x1_0000_0000) as u32),
                _ => None,
            },
            _ => None,
        },
        _ => None,
    }
}

/// What a page is told of a minted UTXO: a list of one object that holds the number of
/// its handle.
pub open spec fn handle_rendering(id: u32) -> RenderedV {
    RenderedV::Array(seq![handle_object(id)])
}

/// The object that holds the number of a handle.
pub open spec fn handle_object(id: u32) -> RenderedV {
    RenderedV::Object(seq![("$handle"@, RenderedV::Int(id as int))])
}

/// What a page is told of a minted UTXO.
pub fn handle_to_json(id: u32) -> (r: Rendered<'static>)
    ensures
        r@ == handle_rendering(id),
{
    let mut members: Vec<(String, Rendered<'static>)> = Vec::new();
    members.push(("$handle".to_owned(), Rendered::Uint(id as u64)));
    let object = Rendered::Object(members);
    proof {
        reveal_with_fuel(rendered_view, 2);
        assert(object@->Object_0 =~= handle_object(id)->Object_0);
    }
    let mut all: Vec<Rendered<'static>> = Vec::new();
    all.push(object);
    let r = Rendered::Array(all);
    assert(r@->Array_0 =~= handle_rendering(id)->Array_0);
    r
}

/// A handle comes back: where a page sends the object that it was told of a minted UTXO,
/// that is read as the same handle.
pub proof fn handles_come_back(id: u32, j: JsonV)
    requires
        reads_back(handle_object(id), j),
    ensures
        handle_number(Some(j)) == Some(id),
{
    reveal_with_fuel(reads_back, 2);
    let members = handle_object(id)->Object_0;
    assert(members[0] == ("$handle"@, RenderedV::Int(id as int)));
    assert(member(j->Object_0, members[0].0) is Some);
}

/// A short name for a type: that of a scalar, or `json`.
pub open spec fn kind_name(ty: TypeV) -> Seq<char> {
    match ty {
        TypeV::Bool => "bool"@,
        TypeV::S8 => "s8"@,
        TypeV::U8 => "u8"@,
        TypeV::S16 => "s16"@,
        TypeV::U16 => "u16"@,
        TypeV::S32 => "s32"@,
        TypeV::U32 => "u32"@,
        TypeV::S64 => "s64"@,
        TypeV::U64 => "u64"@,
        TypeV::Float32 => "f32"@,
        TypeV::Float64 => "f64"@,
        TypeV::Char => "char"@,
        TypeV::String => "string"@,
        _ => "json"@,
    }
}

/// A short name for a type: that of a scalar, or `json`.
pub fn kind_str(ty: &Type) -> (r: &'static str)
    ensures
        r@ == kind_name(ty@),
{
    match ty {
        Type::Bool => "bool",
        Type::S8 => "s8",
        Type::U8 => "u8",
        Type::S16 => "s16",
        Type::U16 => "u16",
        Type::S32 => "s32",
        Type::U32 => "u32",
        Type::S64 => "s64",
        Type::U64 => "u64",
        Type::Float32 => "f32",
        Type::Float64 => "f64",
        Type::Char => "char",
        Type::String => "string",
        _ => "json",
    }
}

/// A parameter or a field: its name and the kind of its type.
pub open spec fn described_field(field: (Seq<char>, TypeV)) -> RenderedV {
    RenderedV::Object(
        seq![
            ("name"@, RenderedV::String(field.0)),
            ("kind"@, RenderedV::String(kind_name(field.1))),
        ],
    )
}

/// Parameters or fields, but for the first `skip`.
pub open spec fn described_fields(fields: Seq<(Seq<char>, TypeV)>, skip: nat) -> RenderedV {
    RenderedV::Array(
        if fields.len() < skip {
            Seq::empty()
        } else {
            Seq::new((fields.len() - skip) as nat, |i: int| described_field(fields[i + skip]))
        },
    )
}

/// A function: its export, its name there, and its parameters but for the first `skip`.
pub open spec fn described_func(export: Seq<char>, ty: FuncTypeV, skip: nat) -> RenderedV {
    RenderedV::Object(
        seq![
            ("export"@, RenderedV::String(export)),
            ("label"@, RenderedV::String(last_segment(export))),
            ("params"@, described_fields(ty.params, skip)),
        ],
    )
}

fn field_json(name: &str, ty: &Type) -> (r: Rendered<'static>)
    ensures
        r@ == described_field((name@, ty@)),
{
    let mut members: Vec<(String, Rendered<'static>)> = Vec::new();
    members.push(("name".to_owned(), Rendered::String(name.to_owned())));
    members.push(("kind".to_owned(), Rendered::String(kind_str(ty).to_owned())));
    proof {
        lemma_object_view(members);
        assert(member_views(members@) =~= described_field((name@, ty@))->Object_0);
    }
    Rendered::Object(members)
}

fn fields_json(fields: &Vec<(String, Type)>, skip: usize) -> (r: Rendered<'static>)
    ensures
        r@ == described_fields(type_view(Type::Record(*fields))->Record_0, skip as nat),
{
    let ghost all = type_view(Type::Record(*fields))->Record_0;
    let ghost wanted = described_fields(all, skip as nat)->Array_0;
    let mut items: Vec<Rendered<'static>> = Vec::new();
    let mut i: usize = skip;
    while i < fields.len()
        invariant
            skip <= i,
            i <= fields@.len() || i == skip,
            all == type_view(Type::Record(*fields))->Record_0,
            wanted == described_fields(all, skip as nat)->Array_0,
            items@.len() == i - skip,
            forall|j: int| 0 <= j < items@.len() ==> (#[trigger] items@[j])@ == wanted[j],
        decreases fields@.len() - i,
    {
        assert(all[i as int] == (fields@[i as int].0@, fields@[i as int].1@));
        items.push(field_json(fields[i].0.as_str(), &fields[i].1));
        i += 1;
    }
    proof {
        lemma_array_view(items);
        assert(rendered_views(items@) =~= wanted);
    }
    Rendered::Array(items)
}

/// A function: its export, its name there, and its parameters but for the first `skip`.
pub fn func_json(export: &str, ty: &FuncType, skip: usize) -> (r: Rendered<'static>)
    ensures
        r@ == described_func(export@, ty@, skip as nat),
{
    let mut members: Vec<(String, Rendered<'static>)> = Vec::new();
    members.push(("export".to_owned(), Rendered::String(export.to_owned())));
    members.push(("label".to_owned(), Rendered::String(segment_of(export))));
    members.push(("params".to_owned(), fields_json(&ty.params, skip)));
    proof {
        assert(ty@.params =~= type_view(Type::Record(ty.params))->Record_0);
        lemma_object_view(members);
        assert(member_views(members@) =~= described_func(export@, ty@, skip as nat)->Object_0);
    }
    Rendered::Object(members)
}

/// Those of the first `n` functions that are as they should be.
pub open spec fn described_funcs(
    funcs: Seq<(Seq<char>, Result<FuncExportV, crate::cause::Cause>)>,
    skip: nat,
    n: nat,
) -> Seq<RenderedV>
    decreases n,
{
    if n == 0 {
        Seq::empty()
    } else {
        let before = described_funcs(funcs, skip, (n - 1) as nat);
        match funcs[n - 1].1 {
            Ok(f) => before.push(described_func(funcs[n - 1].0, f.ty, skip)),
            Err(_) => before,
        }
    }
}

/// The storage of a resource: its fields, or null.
pub open spec fn described_storage(storage: Option<StorageV>) -> RenderedV {
    match storage {
        Some(s) => described_fields(s.fields, 0),
        None => RenderedV::Null,
    }
}

/// An instance that owns a `utxo`. The receiver of a method is not among its
/// parameters.
pub open spec fn described_instance(
    own: Seq<(Seq<char>, crate::types::ItemV)>,
    name: Seq<char>,
    utxo: UtxoV,
) -> RenderedV {
    let constructors = function_list(Role::Constructor, own, utxo, utxo.items.len());
    let methods = function_list(Role::Method, own, utxo, utxo.items.len());
    RenderedV::Object(
        seq![
            ("name"@, RenderedV::String(name)),
            ("resource"@, RenderedV::String("utxo"@)),
            (
                "constructors"@,
                RenderedV::Array(described_funcs(constructors, 0, constructors.len())),
            ),
            ("methods"@, RenderedV::Array(described_funcs(methods, 1, methods.len()))),
            ("storage"@, described_storage(utxo.storage)),
        ],
    )
}

/// Those of the first `n` instances that own a `utxo` that is as it should be.
pub open spec fn described_instances(
    own: Seq<(Seq<char>, crate::types::ItemV)>,
    utxos: Seq<(Seq<char>, Result<UtxoV, crate::cause::Cause>)>,
    n: nat,
) -> Seq<RenderedV>
    decreases n,
{
    if n == 0 {
        Seq::empty()
    } else {
        let before = described_instances(own, utxos, (n - 1) as nat);
        match utxos[n - 1].1 {
            Ok(utxo) => before.push(described_instance(own, utxos[n - 1].0, utxo)),
            Err(_) => before,
        }
    }
}

/// What a contract exports, for a page to show.
pub open spec fn description(catalog: Catalog) -> RenderedV {
    let own = catalog.own@.exports;
    let utxos = utxo_list(own, catalog.ty@.exports, catalog.ty@.exports.len());
    RenderedV::Object(
        seq![("instances"@, RenderedV::Array(described_instances(own, utxos, utxos.len())))],
    )
}

fn instance_json(catalog: &Catalog, name: &str, utxo: &crate::discovery::UtxoExport) -> (r:
    Rendered<'static>)
    ensures
        r@ == described_instance(catalog.own@.exports, name@, utxo@),
{
    let ghost own = catalog.own@.exports;
    let ghost wanted = described_instance(own, name@, utxo@)->Object_0;
    let constructors = catalog.utxo_constructors(utxo);
    let ghost clist = listed(constructors@);
    let mut ctors: Vec<Rendered<'static>> = Vec::new();
    let mut i: usize = 0;
    assert(rendered_views(ctors@) =~= described_funcs(clist, 0, 0));
    while i < constructors.len()
        invariant
            0 <= i <= constructors@.len(),
            clist == listed(constructors@),
            rendered_views(ctors@) == described_funcs(clist, 0, i as nat),
        decreases constructors@.len() - i,
    {
        let ghost before = ctors@;
        assert(clist[i as int] == (constructors@[i as int].0@, found(constructors@[i as int].1)));
        if let Ok(ctor) = &constructors[i].1 {
            let item = func_json(constructors[i].0.as_str(), ctor.ty(), 0);
            ctors.push(item);
            assert(rendered_views(ctors@) =~= rendered_views(before).push(item@));
        }
        i += 1;
    }
    let methods = catalog.utxo_methods(utxo);
    let ghost mlist = listed(methods@);
    let mut meths: Vec<Rendered<'static>> = Vec::new();
    let mut k: usize = 0;
    assert(rendered_views(meths@) =~= described_funcs(mlist, 1, 0));
    while k < methods.len()
        invariant
            0 <= k <= methods@.len(),
            mlist == listed(methods@),
            rendered_views(meths@) == described_funcs(mlist, 1, k as nat),
        decreases methods@.len() - k,
    {
        let ghost before = meths@;
        assert(mlist[k as int] == (methods@[k as int].0@, found(methods@[k as int].1)));
        if let Ok(method) = &methods[k].1 {
            let item = func_json(methods[k].0.as_str(), method.ty(), 1);
            meths.push(item);
            assert(rendered_views(meths@) =~= rendered_views(before).push(item@));
        }
        k += 1;
    }
    let storage: Rendered<'static> = match utxo.storage() {
        Some(storage) => fields_json(storage.ty(), 0),
        None => Rendered::Null,
    };
    proof {
        lemma_array_view(ctors);
        lemma_array_view(meths);
    }
    let mut members: Vec<(String, Rendered<'static>)> = Vec::new();
    members.push(("name".to_owned(), Rendered::String(name.to_owned())));
    members.push(("resource".to_owned(), Rendered::String("utxo".to_owned())));
    members.push(("constructors".to_owned(), Rendered::Array(ctors)));
    members.push(("methods".to_owned(), Rendered::Array(meths)));
    members.push(("storage".to_owned(), storage));
    proof {
        lemma_object_view(members);
        assert(member_views(members@) =~= wanted);
    }
    Rendered::Object(members)
}

/// What a contract exports, for a page to show: the instances that own a `utxo`, their
/// constructors, methods and storage.
pub fn describe(catalog: &Catalog) -> (r: Rendered<'static>)
    ensures
        r@ == description(*catalog),
{
    let ghost own = catalog.own@.exports;
    let utxos = catalog.utxos();
    let ghost list = listed(utxos@);
    let mut instances: Vec<Rendered<'static>> = Vec::new();
    let mut i: usize = 0;
    assert(rendered_views(instances@) =~= described_instances(own, list, 0));
    while i < utxos.len()
        invariant
            0 <= i <= utxos@.len(),
            own == catalog.own@.exports,
            list == listed(utxos@),
            rendered_views(instances@) == described_instances(own, list, i as nat),
        decreases utxos@.len() - i,
    {
        let ghost before = instances@;
        assert(list[i as int] == (utxos@[i as int].0@, found(utxos@[i as int].1)));
        if let Ok(utxo) = &utxos[i].1 {
            let item = instance_json(catalog, utxos[i].0.as_str(), utxo);
            instances.push(item);
            assert(rendered_views(instances@) =~= rendered_views(before).push(item@));
        }
        i += 1;
    }
    proof {
        lemma_array_view(instances);
    }
    let mut members: Vec<(String, Rendered<'static>)> = Vec::new();
    members.push(("instances".to_owned(), Rendered::Array(instances)));
    proof {
        lemma_object_view(members);
        assert(member_views(members@) =~= description(*catalog)->Object_0);
    }
    Rendered::Object(members)
}

/// The fields of a record out of a JSON object.
pub fn json_to_record<'a>(fields: &Vec<(String, Type)>, v: &'a Json) -> (r: Result<
    Vec<(String, Value)>,
    JsonError<'a>,
>)
    ensures
        match r {
            Ok(items) => lowering(type_view(Type::Record(*fields)), v@) == Lowering::Ok(
                value_view(Value::Record(items)),
            ),
            Err(e) => lowering(type_view(Type::Record(*fields)), v@) == Lowering::Err(e@),
        },
{
    match v {
        Json::Object(members) => match lower_record(fields, members) {
            Ok(Value::Record(items)) => Ok(items),
            Ok(_) => Err(JsonError::UnsupportedType),
            Err(e) => Err(e),
        },
        _ => Err(JsonError::Expected(Expected::ObjectForRecord, v)),
    }
}

/// Whether `j` is what is parsed where `r` was written. The members of an object may
/// come in another order.
pub open spec fn reads_back(r: RenderedV, j: JsonV) -> bool
    decreases r,
{
    match (r, j) {
        (RenderedV::Null, JsonV::Null) => true,
        (RenderedV::Bool(a), JsonV::Bool(b)) => a == b,
        (RenderedV::Int(a), JsonV::Number(n)) => match n.exact {
            Exact::Unsigned(b) => a == b,
            Exact::Negative(b) => a == b && b < 0,
            Exact::Fraction => false,
        },
        (RenderedV::Single(a), JsonV::Number(n)) => a == n.single,
        (RenderedV::Double(a), JsonV::Number(n)) => a == n.double,
        (RenderedV::String(a), JsonV::String(b)) => a == b,
        (RenderedV::Array(a), JsonV::Array(b)) => a.len() == b.len() && forall|i: int|
            0 <= i < a.len() ==> reads_back(#[trigger] a[i], b[i]),
        (RenderedV::Object(a), JsonV::Object(b)) => forall|i: int|
            0 <= i < a.len() ==> (member(b, (#[trigger] a[i]).0) matches Some(x) && reads_back(
                a[i].1,
                x,
            )),
        _ => false,
    }
}

/// Whether values of a type are told apart by their JSON, and can be set from it: no
/// options of options. A float that is no number is written as `null`, which is read
/// back as no float.
pub open spec fn faithful(ty: TypeV) -> bool
    decreases ty,
{
    match ty {
        TypeV::Bool => true,
        TypeV::S8 => true,
        TypeV::U8 => true,
        TypeV::S16 => true,
        TypeV::U16 => true,
        TypeV::S32 => true,
        TypeV::U32 => true,
        TypeV::S64 => true,
        TypeV::U64 => true,
        TypeV::Float32 => true,
        TypeV::Float64 => true,
        TypeV::Char => true,
        TypeV::String => true,
        TypeV::List(e) => faithful(*e),
        TypeV::Record(fields) => forall|i: int|
            0 <= i < fields.len() ==> faithful((#[trigger] fields[i]).1),
        TypeV::Tuple(types) => forall|i: int| 0 <= i < types.len() ==> faithful(#[trigger] types[i]),
        TypeV::Option(t) => !(*t is Option) && faithful(*t),
        _ => false,
    }
}

proof fn lemma_list_reads_back(e: TypeV, vs: Seq<ValueV>, js: Seq<JsonV>, n: nat)
    requires
        n <= vs.len() == js.len(),
        faithful(e),
        forall|i: int| 0 <= i < vs.len() ==> has_type(#[trigger] vs[i], e),
        forall|i: int| 0 <= i < vs.len() ==> reads_back(rendering(#[trigger] vs[i]), js[i]),
    ensures
        list_lowering(e, js, n) == Ok::<Seq<ValueV>, JsonErrorV>(vs.take(n as int)),
    decreases e, n,
{
    if n == 0 {
        assert(vs.take(0) =~= Seq::<ValueV>::empty());
    } else {
        lemma_list_reads_back(e, vs, js, (n - 1) as nat);
        json_round_trip(e, vs[n - 1], js[n - 1]);
        assert(vs.take(n as int) =~= vs.take(n - 1).push(vs[n - 1]));
    }
}

proof fn lemma_tuple_reads_back(types: Seq<TypeV>, vs: Seq<ValueV>, js: Seq<JsonV>, n: nat)
    requires
        n <= vs.len() == js.len() == types.len(),
        forall|i: int| 0 <= i < types.len() ==> faithful(#[trigger] types[i]),
        forall|i: int| 0 <= i < vs.len() ==> has_type(#[trigger] vs[i], types[i]),
        forall|i: int| 0 <= i < vs.len() ==> reads_back(rendering(#[trigger] vs[i]), js[i]),
    ensures
        tuple_lowering(types, js, n) == Ok::<Seq<ValueV>, JsonErrorV>(vs.take(n as int)),
    decreases types, n,
{
    if n == 0 {
        assert(vs.take(0) =~= Seq::<ValueV>::empty());
    } else {
        lemma_tuple_reads_back(types, vs, js, (n - 1) as nat);
        assert(faithful(types[n - 1]));
        json_round_trip(types[n - 1], vs[n - 1], js[n - 1]);
        assert(vs.take(n as int) =~= vs.take(n - 1).push(vs[n - 1]));
    }
}

proof fn lemma_record_reads_back(
    fields: Seq<(Seq<char>, TypeV)>,
    vs: Seq<(Seq<char>, ValueV)>,
    members: Seq<(Seq<char>, JsonV)>,
    n: nat,
)
    requires
        n <= vs.len() == fields.len(),
        forall|i: int| 0 <= i < fields.len() ==> faithful((#[trigger] fields[i]).1),
        forall|i: int|
            0 <= i < vs.len() ==> (#[trigger] vs[i]).0 == fields[i].0 && has_type(
                vs[i].1,
                fields[i].1,
            ),
        forall|i: int|
            0 <= i < vs.len() ==> (member(members, (#[trigger] vs[i]).0) matches Some(x)
                && reads_back(rendering(vs[i].1), x)),
    ensures
        record_lowering(fields, members, n) == Ok::<Seq<(Seq<char>, ValueV)>, JsonErrorV>(
            vs.take(n as int),
        ),
    decreases fields, n,
{
    if n == 0 {
        assert(vs.take(0) =~= Seq::<(Seq<char>, ValueV)>::empty());
    } else {
        lemma_record_reads_back(fields, vs, members, (n - 1) as nat);
        assert(faithful(fields[n - 1].1));
        assert(vs[n - 1].0 == fields[n - 1].0);
        json_round_trip(fields[n - 1].1, vs[n - 1].1, member(members, vs[n - 1].0)->0);
        assert(vs.take(n as int) =~= vs.take(n - 1).push((fields[n - 1].0, vs[n - 1].1)));
    }
}

/// A number that fits is not changed by being cut.
proof fn lemma_wrapped(x: int, half: int)
    requires
        0 < half,
        -half <= x < half,
    ensures
        wrapped(x, half) == x,
{
    let m = 2 * half;
    if x >= 0 {
        lemma_small_mod(x as nat, m as nat);
    } else {
        lemma_mod_add_multiples_vanish(x, m);
        lemma_small_mod((m + x) as nat, m as nat);
    }
}

/// A value that was written as JSON and parsed again is the same value, for types whose
/// values are told apart by their JSON. So a storage record that was shown can be set.
pub proof fn json_round_trip(ty: TypeV, v: ValueV, j: JsonV)
    requires
        faithful(ty),
        has_type(v, ty),
        reads_back(rendering(v), j),
    ensures
        lowering(ty, j) == Lowering::Ok(v),
    decreases ty, 0nat,
{
    match (ty, v) {
        (TypeV::List(e), ValueV::List(vs)) => {
            let js = j->Array_0;
            assert forall|i: int| 0 <= i < vs.len() implies reads_back(
                rendering(#[trigger] vs[i]),
                js[i],
            ) by {
                assert(rendering(v)->Array_0[i] == rendering(vs[i]));
            }
            lemma_list_reads_back(*e, vs, js, vs.len());
            assert(vs.take(vs.len() as int) =~= vs);
        },
        (TypeV::Record(fields), ValueV::Record(vs)) => {
            let members = j->Object_0;
            assert forall|i: int| 0 <= i < vs.len() implies (member(
                members,
                (#[trigger] vs[i]).0,
            ) matches Some(x) && reads_back(rendering(vs[i].1), x)) by {
                assert(rendering(v)->Object_0[i] == (vs[i].0, rendering(vs[i].1)));
            }
            lemma_record_reads_back(fields, vs, members, vs.len());
            assert(vs.take(vs.len() as int) =~= vs);
        },
        (TypeV::Tuple(types), ValueV::Tuple(vs)) => {
            let js = j->Array_0;
            assert forall|i: int| 0 <= i < vs.len() implies reads_back(
                rendering(#[trigger] vs[i]),
                js[i],
            ) by {
                assert(rendering(v)->Array_0[i] == rendering(vs[i]));
            }
            lemma_tuple_reads_back(types, vs, js, vs.len());
            assert(vs.take(vs.len() as int) =~= vs);
        },
        (TypeV::Option(t), ValueV::Option(Some(p))) => {
            json_round_trip(*t, *p, j);
        },
        (TypeV::Char, ValueV::Char(c)) => {
            assert(seq![c][0] == c);
        },
        (TypeV::S8, ValueV::S8(x)) => {
            lemma_wrapped(x as int, 0x80);
        },
        (TypeV::S16, ValueV::S16(x)) => {
            lemma_wrapped(x as int, 0x8000);
        },
        (TypeV::S32, ValueV::S32(x)) => {
            lemma_wrapped(x as int, 0x8000_0000);
        },
        _ => {},
    }
}

proof fn lemma_tuple_lowered(types: Seq<TypeV>, vs: Seq<JsonV>, n: nat)
    requires
        n <= types.len(),
    ensures
        match tuple_lowering(types, vs, n) {
            Ok(items) => items.len() == n && forall|i: int|
                0 <= i < n ==> lowering(types[i], vs[i]) == Lowering::Ok(#[trigger] items[i]),
            Err(e) => exists|k: int|
                0 <= k < n && lowering(types[k], #[trigger] vs[k]) == Lowering::Err(e) && forall|
                    i: int,
                |
                    0 <= i < k ==> lowering(types[i], #[trigger] vs[i]) is Ok,
        },
    decreases n,
{
    if n > 0 {
        lemma_tuple_lowered(types, vs, (n - 1) as nat);
        match tuple_lowering(types, vs, (n - 1) as nat) {
            Ok(before) => {
                if let Err(e) = lowering(types[n - 1], vs[n - 1]) {
                    assert forall|i: int| 0 <= i < n - 1 implies lowering(
                        types[i],
                        #[trigger] vs[i],
                    ) is Ok by {
                        let _ = before[i];
                    }
                }
            },
            Err(_) => {},
        }
    }
}

/// Each argument of a function is converted by the type of the parameter at its place, but
/// for the first `skip`, and there are as many arguments as such parameters. Where one is
/// at fault, the first that is tells why.
pub proof fn arguments_are_converted_by_their_parameters(
    ty: &FuncType,
    skip: usize,
    args: &Vec<Json>,
    from: usize,
    r: Result<Vec<Value>, JsonError>,
)
    requires
        from <= args@.len(),
        call_ensures(convert_args, (ty, skip, args, from), r),
    ensures
        ({
            let expected = if skip <= ty.params@.len() {
                ty.params@.len() - skip
            } else {
                0
            };
            let got = args@.len() - from;
            match r {
                Ok(vs) => vs@.len() == expected == got && forall|i: int|
                    0 <= i < vs@.len() ==> lowering(ty.params@[skip + i].1@, args@[from + i]@)
                        == Lowering::Ok((#[trigger] vs@[i])@),
                Err(e) => if expected != got {
                    e@ == JsonErrorV::ArgumentCount { expected: expected as nat, got: got as nat }
                } else {
                    exists|k: int|
                        0 <= k < expected && lowering(
                            (#[trigger] ty.params@[skip + k]).1@,
                            args@[from + k]@,
                        ) == Lowering::Err(e@) && forall|i: int|
                            0 <= i < k ==> lowering(
                                (#[trigger] ty.params@[skip + i]).1@,
                                args@[from + i]@,
                            ) is Ok
                },
            }
        }),
{
    let params = ty@.params;
    let all = json_views(args@).skip(from as int);
    let types = types_behind(params, skip as nat);
    assert(params.len() == ty.params@.len());
    assert forall|i: int| 0 <= i < types.len() implies types[i] == ty.params@[skip + i].1@ by {}
    assert forall|i: int| 0 <= i < all.len() implies all[i] == args@[from + i]@ by {}
    if types.len() == all.len() {
        lemma_tuple_lowered(types, all, types.len());
        match r {
            Ok(vs) => {
                assert forall|i: int| 0 <= i < vs@.len() implies lowering(
                    ty.params@[skip + i].1@,
                    args@[from + i]@,
                ) == Lowering::Ok((#[trigger] vs@[i])@) by {
                    let _ = views(vs@)[i];
                }
            },
            Err(e) => {
                let k = choose|k: int|
                    0 <= k < types.len() && lowering(types[k], #[trigger] all[k]) == Lowering::Err(
                        e@,
                    ) && forall|i: int|
                        0 <= i < k ==> lowering(types[i], #[trigger] all[i]) is Ok;
                let _ = ty.params@[skip + k];
                assert forall|i: int| 0 <= i < k implies lowering(
                    (#[trigger] ty.params@[skip + i]).1@,
                    args@[from + i]@,
                ) is Ok by {
                    let _ = all[i];
                }
            },
        }
    }
}

/// A converted value is of the kind of its type.
pub proof fn converted_values_have_the_kind_of_their_type(ty: TypeV, v: JsonV)
    requires
        lowering(ty, v) is Ok,
    ensures
        match lowering(ty, v)->Ok_0 {
            ValueV::Bool(_) => ty is Bool,
            ValueV::S8(_) => ty is S8,
            ValueV::U8(_) => ty is U8,
            ValueV::S16(_) => ty is S16,
            ValueV::U16(_) => ty is U16,
            ValueV::S32(_) => ty is S32,
            ValueV::U32(_) => ty is U32,
            ValueV::S64(_) => ty is S64,
            ValueV::U64(_) => ty is U64,
            ValueV::Float32(_) => ty is Float32,
            ValueV::Float64(_) => ty is Float64,
            ValueV::Char(_) => ty is Char,
            ValueV::String(_) => ty is String,
            ValueV::List(_) => ty is List,
            ValueV::Record(_) => ty is Record,
            ValueV::Tuple(_) => ty is Tuple,
            ValueV::Option(_) => ty is Option,
            _ => false,
        },
{
}

/// What stands for a number that is converted to a signed integer: the number itself where
/// it has 64 bits, else the nearest integer that has.
pub open spec fn stands_for_signed(n: JsonNumber, x: int) -> bool {
    match n.exact {
        Exact::Unsigned(u) => if u < 0x8000_0000_0000_0000 {
            x == u
        } else {
            x == n.signed
        },
        Exact::Negative(i) => x == i,
        Exact::Fraction => x == n.signed,
    }
}

/// What stands for a number that is converted to an unsigned integer: the number itself
/// where it has 64 bits, else the nearest integer that has.
pub open spec fn stands_for_unsigned(n: JsonNumber, x: int) -> bool {
    match n.exact {
        Exact::Unsigned(u) => x == u,
        Exact::Negative(_) => x == n.unsigned,
        Exact::Fraction => x == n.unsigned,
    }
}

/// A number is converted to the integer that agrees with it in the bits that the type has,
/// and to the float that is nearest to it.
pub proof fn numbers_are_converted_modulo_their_bits(n: JsonNumber, x: int, u: int)
    requires
        stands_for_signed(n, x),
        stands_for_unsigned(n, u),
    ensures
        lowering(TypeV::S8, JsonV::Number(n)) matches Ok(ValueV::S8(y)) && (x - y) % 0x100 == 0,
        lowering(TypeV::S16, JsonV::Number(n)) matches Ok(ValueV::S16(y)) && (x - y)
            % 0x1_0000 == 0,
        lowering(TypeV::S32, JsonV::Number(n)) matches Ok(ValueV::S32(y)) && (x - y)
            % 0x1_0000_0000 == 0,
        lowering(TypeV::S64, JsonV::Number(n)) matches Ok(ValueV::S64(y)) && y == x,
        lowering(TypeV::U8, JsonV::Number(n)) matches Ok(ValueV::U8(y)) && (u - y) % 0x100 == 0,
        lowering(TypeV::U16, JsonV::Number(n)) matches Ok(ValueV::U16(y)) && (u - y)
            % 0x1_0000 == 0,
        lowering(TypeV::U32, JsonV::Number(n)) matches Ok(ValueV::U32(y)) && (u - y)
            % 0x1_0000_0000 == 0,
        lowering(TypeV::U64, JsonV::Number(n)) matches Ok(ValueV::U64(y)) && y == u,
        lowering(TypeV::Float32, JsonV::Number(n)) == Lowering::Ok(ValueV::Float32(n.single)),
        lowering(TypeV::Float64, JsonV::Number(n)) == Lowering::Ok(ValueV::Float64(n.double)),
{
    lemma_cut(x, 0x80);
    lemma_cut(x, 0x8000);
    lemma_cut(x, 0x8000_0000);
    lemma_rest(u, 0x100);
    lemma_rest(u, 0x1_0000);
    lemma_rest(u, 0x1_0000_0000);
    assert(as_signed(n) == x);
    assert(as_unsigned(n) == u);
}

proof fn lemma_rest(x: int, m: int)
    requires
        m > 0,
    ensures
        (x - x % m) % m == 0,
        0 <= x % m < m,
{
    lemma_fundamental_div_mod(x, m);
    lemma_mod_multiples_basic(x / m, m);
    assert(m * (x / m) == (x / m) * m) by (nonlinear_arith);
}

proof fn lemma_cut(x: int, half: int)
    requires
        half > 0,
    ensures
        (x - wrapped(x, half)) % (2 * half) == 0,
        -half <= wrapped(x, half) < half,
{
    let m = 2 * half;
    lemma_rest(x, m);
    if x % m >= half {
        lemma_mod_add_multiples_vanish(x - x % m, m);
    }
}

/// Booleans and texts are converted as they are, and a character is a text of one.
pub proof fn plain_values_are_converted_as_they_are(b: bool, s: Seq<char>)
    ensures
        lowering(TypeV::Bool, JsonV::Bool(b)) == Lowering::Ok(ValueV::Bool(b)),
        lowering(TypeV::String, JsonV::String(s)) == Lowering::Ok(ValueV::String(s)),
        s.len() == 1 ==> lowering(TypeV::Char, JsonV::String(s)) == Lowering::Ok(
            ValueV::Char(s[0]),
        ),
        s.len() != 1 ==> lowering(TypeV::Char, JsonV::String(s)) == Lowering::Err(
            JsonErrorV::NotOneCharacter,
        ),
{
}

/// A value of another kind than its type asks for is refused, and it is told what was
/// expected.
pub proof fn other_json_is_refused(ty: TypeV, v: JsonV)
    ensures
        match ty {
            TypeV::Bool => v is Bool || lowering(ty, v) == Lowering::Err(
                JsonErrorV::Expected(Expected::Boolean, v),
            ),
            TypeV::S8 | TypeV::S16 | TypeV::S32 | TypeV::S64 => v is Number || lowering(ty, v)
                == Lowering::Err(JsonErrorV::Expected(Expected::Integer, v)),
            TypeV::U8 | TypeV::U16 | TypeV::U32 | TypeV::U64 => v is Number || lowering(ty, v)
                == Lowering::Err(JsonErrorV::Expected(Expected::UnsignedInteger, v)),
            TypeV::Float32 | TypeV::Float64 => v is Number || lowering(ty, v) == Lowering::Err(
                JsonErrorV::Expected(Expected::Number, v),
            ),
            TypeV::Char => v is String || lowering(ty, v) == Lowering::Err(
                JsonErrorV::Expected(Expected::StringForChar, v),
            ),
            TypeV::String => v is String || lowering(ty, v) == Lowering::Err(
                JsonErrorV::Expected(Expected::String, v),
            ),
            TypeV::List(_) => v is Array || lowering(ty, v) == Lowering::Err(
                JsonErrorV::Expected(Expected::ArrayForList, v),
            ),
            TypeV::Record(_) => v is Object || lowering(ty, v) == Lowering::Err(
                JsonErrorV::Expected(Expected::ObjectForRecord, v),
            ),
            TypeV::Tuple(types) => match v {
                JsonV::Array(vs) => vs.len() != types.len() ==> lowering(ty, v) == Lowering::Err(
                    JsonErrorV::TupleSize { expected: types.len(), got: vs.len() },
                ),
                _ => lowering(ty, v) == Lowering::Err(
                    JsonErrorV::Expected(Expected::ArrayForTuple, v),
                ),
            },
            TypeV::Option(t) => if v is Null {
                lowering(ty, v) == Lowering::Ok(ValueV::Option(None))
            } else {
                lowering(ty, v) == match lowering(*t, v) {
                    Ok(x) => Lowering::Ok(ValueV::Option(Some(Box::new(x)))),
                    Err(e) => Lowering::Err(e),
                }
            },
            _ => lowering(ty, v) == Lowering::Err(JsonErrorV::UnsupportedType),
        },
{
}

proof fn lemma_list_lowered(e: TypeV, types: Seq<TypeV>, vs: Seq<JsonV>, n: nat)
    requires
        n <= types.len(),
        forall|i: int| 0 <= i < types.len() ==> types[i] == e,
    ensures
        list_lowering(e, vs, n) == tuple_lowering(types, vs, n),
    decreases n,
{
    if n > 0 {
        lemma_list_lowered(e, types, vs, (n - 1) as nat);
    }
}

/// Lists are converted element by element by one type, and tuples each element by the type
/// at its place. The first element at fault tells why.
pub proof fn arrays_are_converted_in_order(e: TypeV, types: Seq<TypeV>, vs: Seq<JsonV>)
    ensures
        match lowering(TypeV::List(Box::new(e)), JsonV::Array(vs)) {
            Ok(v) => v matches ValueV::List(items) && items.len() == vs.len() && forall|i: int|
                0 <= i < vs.len() ==> lowering(e, vs[i]) == Lowering::Ok(#[trigger] items[i]),
            Err(f) => exists|k: int|
                0 <= k < vs.len() && lowering(e, #[trigger] vs[k]) == Lowering::Err(f) && forall|
                    i: int,
                |
                    0 <= i < k ==> lowering(e, #[trigger] vs[i]) is Ok,
        },
        types.len() == vs.len() ==> match lowering(TypeV::Tuple(types), JsonV::Array(vs)) {
            Ok(v) => v matches ValueV::Tuple(items) && items.len() == vs.len() && forall|i: int|
                0 <= i < vs.len() ==> lowering(types[i], vs[i]) == Lowering::Ok(
                    #[trigger] items[i],
                ),
            Err(f) => exists|k: int|
                0 <= k < vs.len() && lowering(types[k], #[trigger] vs[k]) == Lowering::Err(f)
                    && forall|i: int|
                    0 <= i < k ==> lowering(types[i], #[trigger] vs[i]) is Ok,
        },
{
    let all = Seq::new(vs.len(), |i: int| e);
    lemma_list_lowered(e, all, vs, vs.len());
    lemma_tuple_lowered(all, vs, vs.len());
    assert forall|i: int| 0 <= i < vs.len() implies all[i] == e by {}
    if types.len() == vs.len() {
        lemma_tuple_lowered(types, vs, vs.len());
    }
}

/// Whether the first member of an object with that name has that value, or no member has
/// the name.
pub open spec fn holds(
    members: Seq<(Seq<char>, JsonV)>,
    name: Seq<char>,
    v: Option<JsonV>,
) -> bool {
    match v {
        Some(v) => exists|i: int|
            0 <= i < members.len() && (#[trigger] members[i]).0 == name && members[i].1 == v
                && forall|j: int| 0 <= j < i ==> (#[trigger] members[j]).0 != name,
        None => forall|i: int| 0 <= i < members.len() ==> (#[trigger] members[i]).0 != name,
    }
}

proof fn lemma_holds(members: Seq<(Seq<char>, JsonV)>, name: Seq<char>)
    ensures
        holds(members, name, member(members, name)),
{
    if exists|i: int| first_member(members, name, i) {
        let i = choose|i: int| first_member(members, name, i);
        assert(members[i].0 == name);
    } else {
        assert forall|i: int| 0 <= i < members.len() implies (#[trigger] members[i]).0 != name by {
            lemma_none_first(members, name, i);
        }
    }
}

proof fn lemma_none_first(members: Seq<(Seq<char>, JsonV)>, name: Seq<char>, i: int)
    requires
        !exists|j: int| first_member(members, name, j),
        0 <= i < members.len(),
    ensures
        members[i].0 != name,
    decreases i,
{
    assert forall|j: int| 0 <= j < i implies (#[trigger] members[j]).0 != name by {
        lemma_none_first(members, name, j);
    }
    assert(!first_member(members, name, i));
}

/// Whether the field at `k` is the first that is not converted.
spec fn stops_at(
    fields: Seq<(Seq<char>, TypeV)>,
    members: Seq<(Seq<char>, JsonV)>,
    k: int,
    e: JsonErrorV,
) -> bool {
    &&& 0 <= k
    &&& match member(members, fields[k].0) {
        Some(v) => lowering(fields[k].1, v) == Lowering::Err(e),
        None => e == JsonErrorV::MissingField(fields[k].0),
    }
    &&& forall|i: int| #![trigger fields[i]]
        0 <= i < k ==> (member(members, fields[i].0) matches Some(v) && lowering(fields[i].1, v)
            is Ok)
}

proof fn lemma_record_lowered(
    fields: Seq<(Seq<char>, TypeV)>,
    members: Seq<(Seq<char>, JsonV)>,
    n: nat,
)
    requires
        n <= fields.len(),
    ensures
        match record_lowering(fields, members, n) {
            Ok(items) => items.len() == n && forall|i: int|
                0 <= i < n ==> (#[trigger] items[i]).0 == fields[i].0 && (member(
                    members,
                    fields[i].0,
                ) matches Some(v) && lowering(fields[i].1, v) == Lowering::Ok(items[i].1)),
            Err(e) => exists|k: int| k < n && stops_at(fields, members, k, e),
        },
    decreases n,
{
    if n > 0 {
        lemma_record_lowered(fields, members, (n - 1) as nat);
        if let Ok(before) = record_lowering(fields, members, (n - 1) as nat) {
            assert forall|i: int| 0 <= i < n - 1 implies (member(
                members,
                (#[trigger] fields[i]).0,
            ) matches Some(v) && lowering(fields[i].1, v) is Ok) by {
                let _ = before[i];
            }
            if let Err(e) = record_lowering(fields, members, n) {
                assert(stops_at(fields, members, n - 1, e));
            }
        }
    }
}

/// Whether the first member of an object that has the name of a field comes to `r` where it
/// is converted by the field's type.
pub open spec fn field_comes_to(
    members: Seq<(Seq<char>, JsonV)>,
    field: (Seq<char>, TypeV),
    r: Lowering,
) -> bool {
    exists|j: JsonV| holds(members, field.0, Some(j)) && #[trigger] lowering(field.1, j) == r
}

/// Whether the first member of an object that has the name of a field is converted by the
/// field's type.
pub open spec fn field_converts(
    members: Seq<(Seq<char>, JsonV)>,
    field: (Seq<char>, TypeV),
) -> bool {
    exists|j: JsonV| holds(members, field.0, Some(j)) && #[trigger] lowering(field.1, j) is Ok
}

proof fn lemma_field_comes_to(members: Seq<(Seq<char>, JsonV)>, field: (Seq<char>, TypeV))
    requires
        member(members, field.0) is Some,
    ensures
        field_comes_to(members, field, lowering(field.1, member(members, field.0)->0)),
{
    lemma_holds(members, field.0);
}

/// Whether the field at `k` is the first that the members of an object have no value for:
/// there is no member of its name, or that is at fault.
pub open spec fn fails_first(
    members: Seq<(Seq<char>, JsonV)>,
    fields: Seq<(Seq<char>, TypeV)>,
    k: int,
    e: JsonErrorV,
) -> bool {
    &&& 0 <= k < fields.len()
    &&& field_comes_to(members, fields[k], Err(e)) || (holds(members, fields[k].0, None) && e
        == JsonErrorV::MissingField(fields[k].0))
    &&& forall|i: int| #![trigger fields[i]]
        0 <= i < k ==> field_converts(members, fields[i])
}

/// A record is converted field by field, in the order of its type, each from the first
/// member of its name. The first field that has none, or is at fault, tells why.
pub proof fn records_are_converted_by_their_names(
    fields: Seq<(Seq<char>, TypeV)>,
    members: Seq<(Seq<char>, JsonV)>,
)
    ensures
        match lowering(TypeV::Record(fields), JsonV::Object(members)) {
            Ok(v) => v matches ValueV::Record(items) && items.len() == fields.len() && forall|
                i: int,
            |
                0 <= i < items.len() ==> (#[trigger] items[i]).0 == fields[i].0 && field_comes_to(
                    members,
                    fields[i],
                    Ok(items[i].1),
                ),
            Err(e) => exists|k: int| fails_first(members, fields, k, e),
        },
{
    lemma_record_lowered(fields, members, fields.len());
    match record_lowering(fields, members, fields.len()) {
        Ok(items) => {
            assert forall|i: int| 0 <= i < items.len() implies (#[trigger] items[i]).0
                == fields[i].0 && field_comes_to(members, fields[i], Ok(items[i].1)) by {
                assert(items[i].0 == fields[i].0);
                lemma_field_comes_to(members, fields[i]);
            }
        },
        Err(e) => {
            let k = choose|k: int| k < fields.len() && stops_at(fields, members, k, e);
            assert forall|i: int| #![trigger fields[i]] 0 <= i < k implies field_converts(
                members,
                fields[i],
            ) by {
                lemma_holds(members, fields[i].0);
                let j = member(members, fields[i].0)->0;
                assert(lowering(fields[i].1, j) is Ok);
            }
            lemma_holds(members, fields[k].0);
            if member(members, fields[k].0) is Some {
                lemma_field_comes_to(members, fields[k]);
            }
            assert(fails_first(members, fields, k, e));
        },
    }
}

/// Values are shown as the JSON that stands for them: numbers by their value, floats by
/// their bits, texts and characters as texts.
pub proof fn scalars_are_shown_as_they_are(v: &Value, r: Rendered)
    requires
        call_ensures(val_to_json, (v,), r),
    ensures
        match *v {
            Value::Bool(b) => r@ == RenderedV::Bool(b),
            Value::S8(n) => r@ == RenderedV::Int(n as int),
            Value::U8(n) => r@ == RenderedV::Int(n as int),
            Value::S16(n) => r@ == RenderedV::Int(n as int),
            Value::U16(n) => r@ == RenderedV::Int(n as int),
            Value::S32(n) => r@ == RenderedV::Int(n as int),
            Value::U32(n) => r@ == RenderedV::Int(n as int),
            Value::S64(n) => r@ == RenderedV::Int(n as int),
            Value::U64(n) => r@ == RenderedV::Int(n as int),
            Value::Float32(n) => r@ == RenderedV::Single(n),
            Value::Float64(n) => r@ == RenderedV::Double(n),
            Value::Char(c) => r@ == RenderedV::String(seq![c]),
            Value::String(s) => r@ == RenderedV::String(s@),
            Value::Option(None) => r@ == RenderedV::Null,
            Value::Option(Some(p)) => r@ == rendering(p@),
            Value::Resource(_) => r@ == RenderedV::Object(
                seq![("$resource"@, RenderedV::Bool(true))],
            ),
            Value::List(_) => r@ is Array,
            Value::Tuple(_) => r@ is Array,
            Value::Record(_) => r@ is Object,
            _ => r@ == RenderedV::Shown(v@),
        },
{
}

/// The elements of a list or a tuple are shown in order, and the fields of a record in
/// order under their names.
pub proof fn parts_are_shown_in_order(
    vs: Seq<ValueV>,
    fields: Seq<(Seq<char>, ValueV)>,
    i: int,
)
    ensures
        rendering(ValueV::List(vs)) matches RenderedV::Array(items) && items.len() == vs.len() && (
        0 <= i < vs.len() ==> items[i] == rendering(vs[i])),
        rendering(ValueV::Tuple(vs)) matches RenderedV::Array(items) && items.len() == vs.len() && (
        0 <= i < vs.len() ==> items[i] == rendering(vs[i])),
        rendering(ValueV::Record(fields)) matches RenderedV::Object(members) && members.len()
            == fields.len() && (0 <= i < fields.len() ==> members[i] == (
            fields[i].0,
            rendering(fields[i].1),
        )),
{
}

/// The results of a call are shown in order, one for each.
pub proof fn results_are_shown_in_order(vs: &Vec<Value>, r: Vec<Rendered>, i: int)
    requires
        call_ensures(vals_to_json, (vs,), r),
    ensures
        r@.len() == vs@.len(),
        0 <= i < vs@.len() ==> r@[i]@ == rendering(vs@[i]@),
{
    assert(rendered_views(r@).len() == renderings(views(vs@)).len());
    if 0 <= i < vs@.len() {
        assert(rendered_views(r@)[i] == renderings(views(vs@))[i]);
    }
}

/// The fields of a record are shown in order, each under its name.
pub proof fn fields_are_shown_in_order(
    vs: &Vec<(String, Value)>,
    r: Vec<(String, Rendered)>,
    i: int,
)
    requires
        call_ensures(fields_to_json, (vs,), r),
    ensures
        r@.len() == vs@.len(),
        0 <= i < vs@.len() ==> r@[i].0@ == vs@[i].0@ && r@[i].1@ == rendering(vs@[i].1@),
{
    let all = value_view(Value::Record(*vs))->Record_0;
    assert(member_views(r@).len() == field_renderings(all).len());
    if 0 <= i < vs@.len() {
        assert(member_views(r@)[i] == field_renderings(all)[i]);
        assert(all[i] == (vs@[i].0@, vs@[i].1@));
    }
}

/// A handle is the number that is the first member `$handle` of an object, cut to 32 bits;
/// nothing else is a handle.
pub proof fn handles_are_read_from_their_objects(v: Option<&Json>, r: Option<u32>)
    requires
        call_ensures(handle_id, (v,), r),
    ensures
        match r {
            Some(id) => v is Some && (v->0@ matches JsonV::Object(members) && exists|n: JsonNumber|
                #[trigger] holds(members, "$handle"@, Some(JsonV::Number(n))) && (
                n.exact matches Exact::Unsigned(x) && (x - id) % 0x1_0000_0000 == 0)),
            None => v is None || !(v->0@ is Object) || forall|n: JsonNumber| #[trigger]
                holds(v->0@->Object_0, "$handle"@, Some(JsonV::Number(n))) ==> !(n.exact
                    is Unsigned),
        },
{
    if let Some(j) = v {
        if let JsonV::Object(members) = j@ {
            lemma_holds(members, "$handle"@);
            let found = member(members, "$handle"@);
            assert forall|x: JsonV| #[trigger] holds(members, "$handle"@, Some(x)) implies found
                == Some(x) by {
                let i = choose|i: int|
                    0 <= i < members.len() && (#[trigger] members[i]).0 == "$handle"@
                        && members[i].1 == x && forall|j: int|
                        0 <= j < i ==> (#[trigger] members[j]).0 != "$handle"@;
                assert(first_member(members, "$handle"@, i));
                lemma_member(members, "$handle"@, i);
            }
        }
    }
}

/// What a page is told of a minted UTXO: a list of one object, whose one member `$handle` is
/// the number.
pub proof fn handles_are_shown_as_their_objects(id: u32, r: Rendered<'static>)
    requires
        call_ensures(handle_to_json, (id,), r),
    ensures
        r@ matches RenderedV::Array(items) && items.len() == 1 && (
        items[0] matches RenderedV::Object(members) && members.len() == 1 && members[0].0
            == "$handle"@ && members[0].1 == RenderedV::Int(id as int)),
{
}

/// A parameter is described by its name and the kind of its type, which for a scalar is the
/// type's own name.
pub proof fn kinds_are_the_names_of_scalars(ty: &Type, r: &'static str)
    requires
        call_ensures(kind_str, (ty,), r),
    ensures
        r@ == kind_name(ty@),
        ty is Bool ==> r@ == "bool"@,
        ty is S8 ==> r@ == "s8"@,
        ty is S16 ==> r@ == "s16"@,
        ty is S32 ==> r@ == "s32"@,
        ty is S64 ==> r@ == "s64"@,
        ty is U8 ==> r@ == "u8"@,
        ty is U16 ==> r@ == "u16"@,
        ty is U32 ==> r@ == "u32"@,
        ty is U64 ==> r@ == "u64"@,
        ty is Float32 ==> r@ == "f32"@,
        ty is Float64 ==> r@ == "f64"@,
        ty is Char ==> r@ == "char"@,
        ty is String ==> r@ == "string"@,
        !(ty is Bool || ty is S8 || ty is S16 || ty is S32 || ty is S64 || ty is U8 || ty is U16
            || ty is U32 || ty is U64 || ty is Float32 || ty is Float64 || ty is Char || ty
            is String) ==> r@ == "json"@,
{
}

/// A function is described by its export, the name behind the export's last dot, and its
/// parameters: one entry for each behind the first `skip`, in their order.
pub proof fn functions_are_described_with_their_parameters(
    export: &str,
    ty: &FuncType,
    skip: usize,
    r: Rendered<'static>,
    i: int,
)
    requires
        call_ensures(func_json, (export, ty, skip), r),
    ensures
        r@ matches RenderedV::Object(members) && members.len() == 3 && members[0] == (
            "export"@,
            RenderedV::String(export@),
        ) && members[1] == ("label"@, RenderedV::String(last_segment(export@))) && members[2].0
            == "params"@ && (members[2].1 matches RenderedV::Array(params) && {
            &&& params.len() == if skip <= ty.params@.len() {
                ty.params@.len() - skip
            } else {
                0
            }
            &&& 0 <= i < params.len() ==> (params[i] matches RenderedV::Object(entry)
                && entry.len() == 2 && entry[0].0 == "name"@ && entry[0].1 == RenderedV::String(
                ty.params@[skip + i].0@,
            ) && entry[1].0 == "kind"@ && entry[1].1 == RenderedV::String(
                kind_name(ty.params@[skip + i].1@),
            ))
        }),
{
}

/// The fields of a storage record are described one by one, in their order.
pub proof fn storage_is_described_by_its_fields(
    fields: Seq<(Seq<char>, TypeV)>,
    instance: Seq<char>,
    i: int,
)
    ensures
        described_storage(None) == RenderedV::Null,
        described_storage(Some(StorageV { fields, instance })) matches RenderedV::Array(entries)
            && entries.len() == fields.len() && (0 <= i < fields.len() ==> (
        entries[i] matches RenderedV::Object(entry) && entry.len() == 2 && entry[0].0 == "name"@
            && entry[0].1 == RenderedV::String(fields[i].0) && entry[1].0 == "kind"@ && entry[1].1
            == RenderedV::String(kind_name(fields[i].1)))),
{
}

/// A page that sends one argument for each described parameter, in that order, sends each
/// to the parameter that was described: as many are taken as were described, and each is
/// converted by the type whose kind was shown.
pub proof fn described_parameters_are_what_a_call_takes(
    export: &str,
    ty: &FuncType,
    skip: usize,
    shown: Rendered<'static>,
    args: &Vec<Json>,
    from: usize,
    r: Result<Vec<Value>, JsonError>,
    i: int,
)
    requires
        call_ensures(func_json, (export, ty, skip), shown),
        from <= args@.len(),
        call_ensures(convert_args, (ty, skip, args, from), r),
        r is Ok,
        0 <= i < r->Ok_0@.len(),
    ensures
        shown@ matches RenderedV::Object(members) && (
        members[2].1 matches RenderedV::Array(params) && params.len() == r->Ok_0@.len()
            == args@.len() - from && (params[i] matches RenderedV::Object(entry) && exists|t: TypeV| #[trigger]
            lowering(t, args@[from + i]@) == Lowering::Ok(r->Ok_0@[i]@) && entry[1].1
                == RenderedV::String(kind_name(t)) && entry[0].1 == RenderedV::String(
                ty.params@[skip + i].0@,
            ))),
{
    functions_are_described_with_their_parameters(export, ty, skip, shown, i);
    arguments_are_converted_by_their_parameters(ty, skip, args, from, r);
    let v = r->Ok_0@[i];
    assert(lowering(ty.params@[skip + i].1@, args@[from + i]@) == Lowering::Ok(v@));
}

proof fn lemma_described_part(
    a: Seq<(Seq<char>, Result<FuncExportV, crate::cause::Cause>)>,
    b: Seq<(Seq<char>, Result<FuncExportV, crate::cause::Cause>)>,
    skip: nat,
    n: nat,
)
    requires
        n <= a.len(),
        n <= b.len(),
        forall|i: int| 0 <= i < n ==> a[i] == b[i],
    ensures
        described_funcs(a, skip, n) == described_funcs(b, skip, n),
    decreases n,
{
    if n > 0 {
        lemma_described_part(a, b, skip, (n - 1) as nat);
    }
}

/// Functions are described in their order, and those that are not as they should be are
/// left out.
pub proof fn functions_are_described_in_order(
    funcs: Seq<(Seq<char>, Result<FuncExportV, crate::cause::Cause>)>,
    name: Seq<char>,
    f: Result<FuncExportV, crate::cause::Cause>,
    skip: nat,
)
    ensures
        described_funcs(Seq::empty(), skip, 0) == Seq::<RenderedV>::empty(),
        f matches Err(_) ==> described_funcs(funcs.push((name, f)), skip, funcs.len() + 1)
            == described_funcs(funcs, skip, funcs.len()),
        f matches Ok(x) ==> described_funcs(funcs.push((name, f)), skip, funcs.len() + 1)
            == described_funcs(funcs, skip, funcs.len()).push(described_func(name, x.ty, skip)),
{
    lemma_described_part(funcs, funcs.push((name, f)), skip, funcs.len());
}

proof fn lemma_instances_part(
    own: Seq<(Seq<char>, crate::types::ItemV)>,
    a: Seq<(Seq<char>, Result<UtxoV, crate::cause::Cause>)>,
    b: Seq<(Seq<char>, Result<UtxoV, crate::cause::Cause>)>,
    n: nat,
)
    requires
        n <= a.len(),
        n <= b.len(),
        forall|i: int| 0 <= i < n ==> a[i] == b[i],
    ensures
        described_instances(own, a, n) == described_instances(own, b, n),
    decreases n,
{
    if n > 0 {
        lemma_instances_part(own, a, b, (n - 1) as nat);
    }
}

/// Instances are described in their order, and those whose `utxo` is not as it should be
/// are left out. Each is described by its name, its resource, its constructors with all
/// their parameters, its methods with all but their receivers, and its storage.
pub proof fn instances_are_described_in_order(
    own: Seq<(Seq<char>, crate::types::ItemV)>,
    utxos: Seq<(Seq<char>, Result<UtxoV, crate::cause::Cause>)>,
    name: Seq<char>,
    u: Result<UtxoV, crate::cause::Cause>,
)
    ensures
        described_instances(own, Seq::empty(), 0) == Seq::<RenderedV>::empty(),
        ({
            let before = described_instances(own, utxos, utxos.len());
            let now = described_instances(own, utxos.push((name, u)), utxos.len() + 1);
            match u {
                Err(_) => now == before,
                Ok(utxo) => {
                    let ctors = function_list(Role::Constructor, own, utxo, utxo.items.len());
                    let methods = function_list(Role::Method, own, utxo, utxo.items.len());
                    now == before.push(
                        RenderedV::Object(
                            seq![
                                ("name"@, RenderedV::String(name)),
                                ("resource"@, RenderedV::String("utxo"@)),
                                (
                                    "constructors"@,
                                    RenderedV::Array(described_funcs(ctors, 0, ctors.len())),
                                ),
                                (
                                    "methods"@,
                                    RenderedV::Array(described_funcs(methods, 1, methods.len())),
                                ),
                                ("storage"@, described_storage(utxo.storage)),
                            ],
                        ),
                    )
                },
            }
        }),
{
    lemma_instances_part(own, utxos, utxos.push((name, u)), utxos.len());
}

/// A contract is described by all its instances: an object with the one member `instances`.
pub proof fn contracts_are_described_by_their_instances(
    catalog: &Catalog,
    r: Rendered<'static>,
    utxos: Vec<(String, Result<crate::discovery::UtxoExport, crate::cause::Cause>)>,
)
    requires
        call_ensures(describe, (catalog,), r),
        call_ensures(Catalog::utxos, (catalog,), utxos),
    ensures
        r@ matches RenderedV::Object(members) && members.len() == 1 && members[0].0
            == "instances"@ && members[0].1 == RenderedV::Array(
            described_instances(catalog.own@.exports, listed(utxos@), utxos@.len()),
        ),
{
}

/// What a described function holds: its export, its name, and one entry for each parameter
/// behind the first `skip`, in their order.
pub proof fn described_functions_hold_their_parameters(
    export: Seq<char>,
    ty: FuncTypeV,
    skip: nat,
    i: int,
)
    ensures
        described_func(export, ty, skip) matches RenderedV::Object(members) && members.len() == 3
            && members[0] == ("export"@, RenderedV::String(export)) && members[1] == (
            "label"@,
            RenderedV::String(last_segment(export)),
        ) && members[2].0 == "params"@ && (members[2].1 matches RenderedV::Array(params) && {
            &&& params.len() == if skip <= ty.params.len() {
                ty.params.len() - skip
            } else {
                0
            }
            &&& 0 <= i < params.len() ==> (params[i] matches RenderedV::Object(entry)
                && entry.len() == 2 && entry[0].0 == "name"@ && entry[0].1 == RenderedV::String(
                ty.params[skip + i].0,
            ) && entry[1].0 == "kind"@ && entry[1].1 == RenderedV::String(
                kind_name(ty.params[skip + i].1),
            ))
        }),
{
}

/// As [`arguments_are_converted_by_their_parameters`], of the values themselves.
pub proof fn arguments_go_to_their_parameters(
    params: Seq<(Seq<char>, TypeV)>,
    skip: nat,
    args: Seq<JsonV>,
)
    ensures
        ({
            let expected = if skip <= params.len() {
                params.len() - skip
            } else {
                0
            };
            match arguments(params, skip, args) {
                Ok(vs) => vs.len() == args.len() == expected && forall|i: int|
                    0 <= i < vs.len() ==> lowering(params[skip + i].1, args[i]) == Lowering::Ok(
                        #[trigger] vs[i],
                    ),
                Err(e) => if args.len() != expected {
                    e == JsonErrorV::ArgumentCount { expected: expected as nat, got: args.len() }
                } else {
                    exists|k: int|
                        0 <= k < args.len() && lowering(params[skip + k].1, #[trigger] args[k])
                            == Lowering::Err(e) && forall|i: int|
                            0 <= i < k ==> lowering(params[skip + i].1, #[trigger] args[i]) is Ok
                },
            }
        }),
{
    let types = types_behind(params, skip);
    assert forall|i: int| 0 <= i < types.len() implies types[i] == params[skip + i].1 by {}
    if types.len() == args.len() {
        lemma_tuple_lowered(types, args, types.len());
        if let Err(e) = arguments(params, skip, args) {
            let k = choose|k: int|
                0 <= k < types.len() && lowering(types[k], #[trigger] args[k]) == Lowering::Err(e)
                    && forall|i: int|
                    0 <= i < k ==> lowering(types[i], #[trigger] args[i]) is Ok;
            assert(lowering(params[skip + k].1, args[k]) == Lowering::Err(e));
            assert forall|i: int| 0 <= i < k implies lowering(
                params[skip + i].1,
                #[trigger] args[i],
            ) is Ok by {
                assert(lowering(types[i], args[i]) is Ok);
            }
        }
    }
}

/// JSON is seen as it is: of its own kind, with its own parts in their order.
pub proof fn json_is_seen_as_it_is(v: Json, r: Rendered, i: int)
    ensures
        match v {
            Json::Null => v@ == JsonV::Null,
            Json::Bool(b) => v@ == JsonV::Bool(b),
            Json::Number(n) => v@ == JsonV::Number(n),
            Json::String(s) => v@ == JsonV::String(s@),
            Json::Array(vs) => v@ matches JsonV::Array(all) && all.len() == vs@.len() && (0 <= i
                < all.len() ==> all[i] == vs@[i]@),
            Json::Object(vs) => v@ matches JsonV::Object(all) && all.len() == vs@.len() && (0 <= i
                < all.len() ==> all[i] == (vs@[i].0@, vs@[i].1@)),
        },
        match r {
            Rendered::Null => r@ == RenderedV::Null,
            Rendered::Bool(b) => r@ == RenderedV::Bool(b),
            Rendered::Int(n) => r@ == RenderedV::Int(n as int),
            Rendered::Uint(n) => r@ == RenderedV::Int(n as int),
            Rendered::Single(n) => r@ == RenderedV::Single(n),
            Rendered::Double(n) => r@ == RenderedV::Double(n),
            Rendered::String(s) => r@ == RenderedV::String(s@),
            Rendered::Array(vs) => r@ matches RenderedV::Array(all) && all.len() == vs@.len() && (0
                <= i < all.len() ==> all[i] == vs@[i]@),
            Rendered::Object(vs) => r@ matches RenderedV::Object(all) && all.len() == vs@.len() && (
            0 <= i < all.len() ==> all[i] == (vs@[i].0@, vs@[i].1@)),
            Rendered::Shown(x) => r@ == RenderedV::Shown(x@),
        },
{
}

/// A converter gives the value where there is one, and the fault where there is none.
pub proof fn converters_give_the_value_or_the_fault(
    ty: &Type,
    v: &Json,
    r: Result<Value, JsonError>,
    fields: &Vec<(String, Type)>,
    record: Result<Vec<(String, Value)>, JsonError>,
)
    requires
        call_ensures(json_to_val, (ty, v), r),
        call_ensures(json_to_record, (fields, v), record),
    ensures
        match r {
            Ok(x) => lowering(ty@, v@) == Lowering::Ok(x@),
            Err(e) => lowering(ty@, v@) == Lowering::Err(e@),
        },
        match record {
            Ok(items) => lowering(type_view(Type::Record(*fields)), v@) == Lowering::Ok(
                value_view(Value::Record(items)),
            ),
            Err(e) => lowering(type_view(Type::Record(*fields)), v@) == Lowering::Err(e@),
        },
{
}

/// Lists of JSON are seen in their order.
pub proof fn json_lists_are_seen_in_order(vs: Seq<Json>, rs: Seq<Rendered>, i: int)
    ensures
        json_views(vs).len() == vs.len(),
        0 <= i < vs.len() ==> json_views(vs)[i] == vs[i]@,
        rendered_views(rs).len() == rs.len(),
        0 <= i < rs.len() ==> rendered_views(rs)[i] == rs[i]@,
{
}

} // verus!
