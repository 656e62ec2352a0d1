//! Values on the wire.
//!
//! [`ValEncoder`] appends a value's encoding to a buffer and [`read_value`] takes
//! one off the front of a buffer. The encoding is directed by an interface type
//! and holds no type information of its own.

use vstd::prelude::*;
use vstd::utf8::{encode_scalar, encode_utf8};

use crate::text::{contains_text, same_text};
use crate::types::{texts, type_view, Type, TypeV};
use crate::value::{
    lemma_entry_decreases, lemma_item_decreases, value_view, views, Value, ValueV,
};
use crate::wire::{
    contents, le_bytes, put_char, put_core_name, put_i16_leb128, put_i32_leb128,
    put_i64_leb128, put_i8, put_u16_leb128, put_u32_le, put_u32_leb128, put_u64_le, put_u64_leb128,
    put_u8, sleb, uleb,
};

verus! {

/// A kind of type that has no encoding.
#[derive(Clone, Copy, Debug, PartialEq, Eq, Structural)]
pub enum Unsupported {
    Maps,
    Resources,
    Futures,
    Streams,
    ErrorContexts,
}

/// Why a value could not be encoded.
#[derive(Debug, PartialEq, Eq)]
pub enum EncodeError {
    StringTooLong,
    ListTooLong,
    ListElement(Box<EncodeError>),
    Field(String, Box<EncodeError>),
    TupleElement(Box<EncodeError>),
    UnknownVariant,
    TooManyCases,
    VariantTypeMissing,
    VariantValue(Box<EncodeError>),
    UnknownEnum,
    TooManyNames,
    OptionValue(Box<EncodeError>),
    OkUnknownType,
    OkMissing,
    OkValue(Box<EncodeError>),
    ErrUnknownType,
    ErrMissing,
    ErrValue(Box<EncodeError>),
    Unsupported(Unsupported),
    Mismatch,
}

/// The view of an [`EncodeError`].
pub enum EncodeErrorV {
    StringTooLong,
    ListTooLong,
    ListElement(Box<EncodeErrorV>),
    Field(Seq<char>, Box<EncodeErrorV>),
    TupleElement(Box<EncodeErrorV>),
    UnknownVariant,
    TooManyCases,
    VariantTypeMissing,
    VariantValue(Box<EncodeErrorV>),
    UnknownEnum,
    TooManyNames,
    OptionValue(Box<EncodeErrorV>),
    OkUnknownType,
    OkMissing,
    OkValue(Box<EncodeErrorV>),
    ErrUnknownType,
    ErrMissing,
    ErrValue(Box<EncodeErrorV>),
    Unsupported(Unsupported),
    Mismatch,
}

pub open spec fn encode_error_view(e: EncodeError) -> EncodeErrorV
    decreases e,
{
    match e {
        EncodeError::StringTooLong => EncodeErrorV::StringTooLong,
        EncodeError::ListTooLong => EncodeErrorV::ListTooLong,
        EncodeError::ListElement(e) => EncodeErrorV::ListElement(Box::new(encode_error_view(*e))),
        EncodeError::Field(name, e) => EncodeErrorV::Field(
            name@,
            Box::new(encode_error_view(*e)),
        ),
        EncodeError::TupleElement(e) => EncodeErrorV::TupleElement(Box::new(encode_error_view(*e))),
        EncodeError::UnknownVariant => EncodeErrorV::UnknownVariant,
        EncodeError::TooManyCases => EncodeErrorV::TooManyCases,
        EncodeError::VariantTypeMissing => EncodeErrorV::VariantTypeMissing,
        EncodeError::VariantValue(e) => EncodeErrorV::VariantValue(Box::new(encode_error_view(*e))),
        EncodeError::UnknownEnum => EncodeErrorV::UnknownEnum,
        EncodeError::TooManyNames => EncodeErrorV::TooManyNames,
        EncodeError::OptionValue(e) => EncodeErrorV::OptionValue(Box::new(encode_error_view(*e))),
        EncodeError::OkUnknownType => EncodeErrorV::OkUnknownType,
        EncodeError::OkMissing => EncodeErrorV::OkMissing,
        EncodeError::OkValue(e) => EncodeErrorV::OkValue(Box::new(encode_error_view(*e))),
        EncodeError::ErrUnknownType => EncodeErrorV::ErrUnknownType,
        EncodeError::ErrMissing => EncodeErrorV::ErrMissing,
        EncodeError::ErrValue(e) => EncodeErrorV::ErrValue(Box::new(encode_error_view(*e))),
        EncodeError::Unsupported(k) => EncodeErrorV::Unsupported(k),
        EncodeError::Mismatch => EncodeErrorV::Mismatch,
    }
}

impl View for EncodeError {
    type V = EncodeErrorV;

    open spec fn view(&self) -> EncodeErrorV {
        encode_error_view(*self)
    }
}

/// What encoding a value comes to: the bytes written, and the error that ended it
/// early if one did. What was written before an error stays written.
pub struct Encoded {
    pub bytes: Seq<u8>,
    pub error: Option<EncodeErrorV>,
}

pub open spec fn wrote(bytes: Seq<u8>) -> Encoded {
    Encoded { bytes, error: None }
}

pub open spec fn failed(error: EncodeErrorV) -> Encoded {
    Encoded { bytes: Seq::empty(), error: Some(error) }
}

/// Whether `i` is the first place at which `name` stands in `names`.
pub open spec fn is_first(names: Seq<Seq<char>>, name: Seq<char>, i: int) -> bool {
    &&& 0 <= i < names.len()
    &&& names[i] == name
    &&& forall|j: int| 0 <= j < i ==> names[j] != name
}

/// The first place at which `name` stands in `names`.
pub open spec fn position(names: Seq<Seq<char>>, name: Seq<char>) -> Option<nat> {
    if exists|i: int| is_first(names, name, i) {
        Some((choose|i: int| is_first(names, name, i)) as nat)
    } else {
        None
    }
}

pub open spec fn case_names(cases: Seq<(Seq<char>, Option<TypeV>)>) -> Seq<Seq<char>> {
    Seq::new(cases.len(), |i: int| cases[i].0)
}

/// The number of bytes that hold `n` flags: one for each eight, but at least one.
pub open spec fn flag_len(n: nat) -> nat {
    if n == 0 {
        1
    } else {
        (n + 7) / 8
    }
}

/// Whether the flag at `k` is named in `set`.
pub open spec fn flagged(names: Seq<Seq<char>>, set: Seq<Seq<char>>, k: int) -> bool {
    0 <= k < names.len() && set.contains(names[k])
}

/// The value of bit `j` in a byte.
pub open spec fn weight(j: int) -> int {
    if j == 0 {
        1
    } else if j == 1 {
        2
    } else if j == 2 {
        4
    } else if j == 3 {
        8
    } else if j == 4 {
        16
    } else if j == 5 {
        32
    } else if j == 6 {
        64
    } else {
        128
    }
}

/// The sum of the bits below `j` in the byte of flags that starts at flag `start`.
pub open spec fn flag_sum(
    names: Seq<Seq<char>>,
    set: Seq<Seq<char>>,
    start: int,
    j: nat,
) -> int
    decreases j,
{
    if j == 0 {
        0
    } else {
        flag_sum(names, set, start, (j - 1) as nat) + if flagged(names, set, start + j - 1) {
            weight(j - 1)
        } else {
            0
        }
    }
}

/// The bytes of a set of flags: flag `k` is bit `k % 8` of byte `k / 8`.
pub open spec fn flag_bytes(names: Seq<Seq<char>>, set: Seq<Seq<char>>) -> Seq<u8> {
    Seq::new(flag_len(names.len()), |i: int| flag_sum(names, set, 8 * i, 8) as u8)
}

/// The encoding of `v` as a `ty`.
pub open spec fn encoding(v: ValueV, ty: TypeV) -> Encoded
    decreases v, 0nat,
{
    match (v, ty) {
        (ValueV::Bool(x), TypeV::Bool) => wrote(
            seq![
                if x {
                    1u8
                } else {
                    0u8
                },
            ],
        ),
        (ValueV::S8(x), TypeV::S8) => wrote(seq![(x as int % 256) as u8]),
        (ValueV::U8(x), TypeV::U8) => wrote(seq![x]),
        (ValueV::S16(x), TypeV::S16) => wrote(sleb(x as int)),
        (ValueV::U16(x), TypeV::U16) => wrote(uleb(x as nat)),
        (ValueV::S32(x), TypeV::S32) => wrote(sleb(x as int)),
        (ValueV::U32(x), TypeV::U32) => wrote(uleb(x as nat)),
        (ValueV::S64(x), TypeV::S64) => wrote(sleb(x as int)),
        (ValueV::U64(x), TypeV::U64) => wrote(uleb(x as nat)),
        (ValueV::Float32(x), TypeV::Float32) => wrote(le_bytes(x as nat, 4)),
        (ValueV::Float64(x), TypeV::Float64) => wrote(le_bytes(x as nat, 8)),
        (ValueV::Char(c), TypeV::Char) => wrote(encode_scalar(c as u32)),
        (ValueV::String(s), TypeV::String) => if encode_utf8(s).len() <= u32::MAX {
            wrote(uleb(encode_utf8(s).len()) + encode_utf8(s))
        } else {
            failed(EncodeErrorV::StringTooLong)
        },
        (ValueV::List(vs), TypeV::List(e)) => if vs.len() <= u32::MAX {
            let items = list_encoding(vs, *e, vs.len());
            Encoded { bytes: uleb(vs.len()) + items.bytes, error: items.error }
        } else {
            failed(EncodeErrorV::ListTooLong)
        },
        (ValueV::Record(vs), TypeV::Record(fields)) => record_encoding(
            vs,
            fields,
            shorter(vs.len(), fields.len()),
        ),
        (ValueV::Tuple(vs), TypeV::Tuple(types)) => tuple_encoding(
            vs,
            types,
            shorter(vs.len(), types.len()),
        ),
        (ValueV::Variant(name, payload), TypeV::Variant(cases)) => if cases.len() > u32::MAX {
            failed(EncodeErrorV::TooManyCases)
        } else {
            match position(case_names(cases), name) {
                None => failed(EncodeErrorV::UnknownVariant),
                Some(d) => match payload {
                    None => wrote(uleb(d)),
                    Some(p) => match cases[d as int].1 {
                        None => Encoded {
                            bytes: uleb(d),
                            error: Some(EncodeErrorV::VariantTypeMissing),
                        },
                        Some(t) => {
                            let inner = encoding(*p, t);
                            Encoded {
                                bytes: uleb(d) + inner.bytes,
                                error: match inner.error {
                                    Some(e) => Some(EncodeErrorV::VariantValue(Box::new(e))),
                                    None => None,
                                },
                            }
                        },
                    },
                },
            }
        },
        (ValueV::Enum(name), TypeV::Enum(names)) => if names.len() > u32::MAX {
            failed(EncodeErrorV::TooManyNames)
        } else {
            match position(names, name) {
                None => failed(EncodeErrorV::UnknownEnum),
                Some(d) => wrote(uleb(d)),
            }
        },
        (ValueV::Option(None), TypeV::Option(_)) => wrote(seq![0u8]),
        (ValueV::Option(Some(p)), TypeV::Option(t)) => {
            let inner = encoding(*p, *t);
            Encoded {
                bytes: seq![1u8] + inner.bytes,
                error: match inner.error {
                    Some(e) => Some(EncodeErrorV::OptionValue(Box::new(e))),
                    None => None,
                },
            }
        },
        (ValueV::Result(Ok(p)), TypeV::Result(t, _)) => match (p, t) {
            (Some(p), Some(t)) => {
                let inner = encoding(*p, *t);
                Encoded {
                    bytes: seq![0u8] + inner.bytes,
                    error: match inner.error {
                        Some(e) => Some(EncodeErrorV::OkValue(Box::new(e))),
                        None => None,
                    },
                }
            },
            (Some(_), None) => failed(EncodeErrorV::OkUnknownType),
            (None, Some(_)) => failed(EncodeErrorV::OkMissing),
            (None, None) => wrote(seq![0u8]),
        },
        (ValueV::Result(Err(p)), TypeV::Result(_, t)) => match (p, t) {
            (Some(p), Some(t)) => {
                let inner = encoding(*p, *t);
                Encoded {
                    bytes: seq![1u8] + inner.bytes,
                    error: match inner.error {
                        Some(e) => Some(EncodeErrorV::ErrValue(Box::new(e))),
                        None => None,
                    },
                }
            },
            (Some(_), None) => failed(EncodeErrorV::ErrUnknownType),
            (None, Some(_)) => failed(EncodeErrorV::ErrMissing),
            (None, None) => wrote(seq![1u8]),
        },
        (ValueV::Flags(set), TypeV::Flags(names)) => wrote(flag_bytes(names, set)),
        (_, TypeV::Mapping(..)) => failed(EncodeErrorV::Unsupported(Unsupported::Maps)),
        (_, TypeV::Own(_)) => failed(EncodeErrorV::Unsupported(Unsupported::Resources)),
        (_, TypeV::Borrow(_)) => failed(EncodeErrorV::Unsupported(Unsupported::Resources)),
        (_, TypeV::Future(_)) => failed(EncodeErrorV::Unsupported(Unsupported::Futures)),
        (_, TypeV::Stream(_)) => failed(EncodeErrorV::Unsupported(Unsupported::Streams)),
        (_, TypeV::ErrorContext) => failed(EncodeErrorV::Unsupported(Unsupported::ErrorContexts)),
        _ => failed(EncodeErrorV::Mismatch),
    }
}

pub open spec fn shorter(a: nat, b: nat) -> nat {
    if a < b {
        a
    } else {
        b
    }
}

/// The encodings of the first `n` of `vs`, one behind the other, up to the first
/// that fails.
pub open spec fn list_encoding(vs: Seq<ValueV>, ty: TypeV, n: nat) -> Encoded
    decreases vs, n,
{
    if n == 0 || n > vs.len() {
        wrote(Seq::empty())
    } else {
        let before = list_encoding(vs, ty, (n - 1) as nat);
        if before.error is Some {
            before
        } else {
            let last = encoding(vs[n - 1], ty);
            Encoded {
                bytes: before.bytes + last.bytes,
                error: match last.error {
                    Some(e) => Some(EncodeErrorV::ListElement(Box::new(e))),
                    None => None,
                },
            }
        }
    }
}

/// As [`list_encoding`], for the first `n` fields of a record: they go by their
/// places, not by their names.
pub open spec fn record_encoding(
    vs: Seq<(Seq<char>, ValueV)>,
    fields: Seq<(Seq<char>, TypeV)>,
    n: nat,
) -> Encoded
    decreases vs, n,
{
    if n == 0 || n > vs.len() {
        wrote(Seq::empty())
    } else {
        let before = record_encoding(vs, fields, (n - 1) as nat);
        if before.error is Some {
            before
        } else {
            let last = encoding(vs[n - 1].1, fields[n - 1].1);
            Encoded {
                bytes: before.bytes + last.bytes,
                error: match last.error {
                    Some(e) => Some(EncodeErrorV::Field(vs[n - 1].0, Box::new(e))),
                    None => None,
                },
            }
        }
    }
}

/// As [`list_encoding`], for the first `n` elements of a tuple.
pub open spec fn tuple_encoding(vs: Seq<ValueV>, types: Seq<TypeV>, n: nat) -> Encoded
    decreases vs, n,
{
    if n == 0 || n > vs.len() {
        wrote(Seq::empty())
    } else {
        let before = tuple_encoding(vs, types, (n - 1) as nat);
        if before.error is Some {
            before
        } else {
            let last = encoding(vs[n - 1], types[n - 1]);
            Encoded {
                bytes: before.bytes + last.bytes,
                error: match last.error {
                    Some(e) => Some(EncodeErrorV::TupleElement(Box::new(e))),
                    None => None,
                },
            }
        }
    }
}

/// Whether an encoder did to its buffer, and returned, what `e` says.
pub open spec fn encodes(
    e: Encoded,
    before: Seq<u8>,
    after: Seq<u8>,
    r: Result<(), EncodeError>,
) -> bool {
    &&& after == before + e.bytes
    &&& match r {
        Ok(_) => e.error is None,
        Err(error) => e.error == Some(error@),
    }
}

/// An encoder of values of the type `ty`.
pub struct ValEncoder<'a> {
    pub ty: &'a Type,
}

/// The first place is the position.
pub(crate) proof fn lemma_position(names: Seq<Seq<char>>, name: Seq<char>, i: int)
    requires
        is_first(names, name, i),
    ensures
        position(names, name) == Some(i as nat),
{
    let k = choose|k: int| is_first(names, name, k);
    assert(is_first(names, name, k));
    assert(k == i);
}

/// The place of an enum case, the first of its name.
fn find_enum_discriminant(names: &Vec<String>, discriminant: &str) -> (r: Result<u32, EncodeError>)
    requires
        names@.len() <= u32::MAX,
    ensures
        match position(texts(names@), discriminant@) {
            Some(d) => r matches Ok(x) && x == d,
            None => r == Err::<u32, EncodeError>(EncodeError::UnknownEnum),
        },
{
    let ghost all = texts(names@);
    let mut i: usize = 0;
    while i < names.len()
        invariant
            0 <= i <= names@.len() <= u32::MAX,
            all == texts(names@),
            forall|j: int| 0 <= j < i ==> #[trigger] all[j] != discriminant@,
        decreases names@.len() - i,
    {
        if same_text(names[i].as_str(), discriminant) {
            proof {
                lemma_position(all, discriminant@, i as int);
            }
            return Ok(i as u32);
        }
        i += 1;
    }
    assert(!exists|i: int| is_first(all, discriminant@, i));
    Err(EncodeError::UnknownEnum)
}

/// The place of a variant case, the first of its name.
fn find_variant_discriminant(
    cases: &Vec<(String, Option<Type>)>,
    discriminant: &str,
) -> (r: Result<u32, EncodeError>)
    requires
        cases@.len() <= u32::MAX,
    ensures
        match position(Seq::new(cases@.len(), |i: int| cases@[i].0@), discriminant@) {
            Some(d) => r matches Ok(x) && x == d && d < cases@.len(),
            None => r == Err::<u32, EncodeError>(EncodeError::UnknownVariant),
        },
{
    let ghost all = Seq::new(cases@.len(), |i: int| cases@[i].0@);
    let mut i: usize = 0;
    while i < cases.len()
        invariant
            0 <= i <= cases@.len() <= u32::MAX,
            all == Seq::new(cases@.len(), |i: int| cases@[i].0@),
            forall|j: int| 0 <= j < i ==> #[trigger] all[j] != discriminant@,
        decreases cases@.len() - i,
    {
        if same_text(cases[i].0.as_str(), discriminant) {
            proof {
                lemma_position(all, discriminant@, i as int);
            }
            return Ok(i as u32);
        }
        i += 1;
    }
    assert(!exists|i: int| is_first(all, discriminant@, i));
    Err(EncodeError::UnknownVariant)
}

/// The byte of flags that starts at flag `start`.
fn flag_bits(names: &Vec<String>, flags: &Vec<String>, start: usize) -> (b: u8)
    requires
        start <= names@.len(),
    ensures
        b == flag_sum(texts(names@), texts(flags@), start as int, 8),
{
    let ghost all = texts(names@);
    let ghost set = texts(flags@);
    let mut sum: u8 = 0;
    let mut bit: u8 = 1;
    let mut j: usize = 0;
    while j < 8
        invariant
            0 <= j <= 8,
            start <= names@.len(),
            all == texts(names@),
            set == texts(flags@),
            j < 8 ==> bit == weight(j as int),
            sum == flag_sum(all, set, start as int, j as nat),
            j < 8 ==> sum < weight(j as int),
        decreases 8 - j,
    {
        let ghost before = sum;
        if j < names.len() - start {
            if contains_text(flags, names[start + j].as_str()) {
                sum = sum + bit;
            }
            assert(all[start + j] == names@[start + j]@);
        }
        assert(flagged(all, set, start + j) == (j < names@.len() - start && set.contains(
            names@[start + j]@,
        )));
        if j < 7 {
            bit = bit * 2;
        }
        j += 1;
    }
    sum
}

/// Appends the bytes of a set of flags.
fn put_flags(names: &Vec<String>, flags: &Vec<String>, dst: &mut bytes::BytesMut)
    ensures
        contents(*final(dst)) == contents(*old(dst)) + flag_bytes(texts(names@), texts(flags@)),
{
    let ghost all = texts(names@);
    let ghost set = texts(flags@);
    let ghost bytes = flag_bytes(all, set);
    let mut start: usize = 0;
    let ghost mut k: int = 0;
    let mut more: bool = true;
    while more
        invariant
            all == texts(names@),
            set == texts(flags@),
            bytes == flag_bytes(all, set),
            0 <= k <= bytes.len(),
            more ==> start == 8 * k && start <= names@.len() && k < bytes.len(),
            !more ==> k == bytes.len(),
            contents(*dst) == contents(*old(dst)) + bytes.take(k),
        decreases bytes.len() - k,
    {
        let b = flag_bits(names, flags, start);
        proof {
            assert(bytes[k] == b);
            assert(bytes.take(k + 1) =~= bytes.take(k) + seq![b]);
        }
        put_u8(dst, b);
        proof {
            k = k + 1;
        }
        if names.len() - start > 8 {
            start += 8;
        } else {
            more = false;
        }
    }
    assert(bytes.take(k) =~= bytes);
}

/// Bytes may be appended together or one part after the other.
proof fn lemma_joined(a: Seq<u8>, b: Seq<u8>, c: Seq<u8>)
    ensures
        (a + b) + c == a + (b + c),
{
    assert((a + b) + c =~= a + (b + c));
}

impl<'a> ValEncoder<'a> {
    #[must_use]
    pub fn new(ty: &'a Type) -> (r: Self)
        ensures
            r.ty == ty,
    {
        ValEncoder { ty }
    }

    /// Appends the encoding of `v` to `dst`.
    #[verifier::rlimit(40)]
    pub fn encode(&mut self, v: &Value, dst: &mut bytes::BytesMut) -> (r: Result<(), EncodeError>)
        ensures
            encodes(encoding(v@, old(self).ty@), contents(*old(dst)), contents(*final(dst)), r),
            *final(self) == *old(self),
        decreases v,
    {
        let ghost start = contents(*dst);
        assert(start + Seq::<u8>::empty() =~= start);
        match (v, self.ty) {
            (Value::Bool(x), Type::Bool) => {
                put_u8(
                    dst,
                    if *x {
                        1
                    } else {
                        0
                    },
                );
                Ok(())
            },
            (Value::S8(x), Type::S8) => {
                put_i8(dst, *x);
                Ok(())
            },
            (Value::U8(x), Type::U8) => {
                put_u8(dst, *x);
                Ok(())
            },
            (Value::S16(x), Type::S16) => {
                let _ = put_i16_leb128(dst, *x);
                Ok(())
            },
            (Value::U16(x), Type::U16) => {
                let _ = put_u16_leb128(dst, *x);
                Ok(())
            },
            (Value::S32(x), Type::S32) => {
                let _ = put_i32_leb128(dst, *x);
                Ok(())
            },
            (Value::U32(x), Type::U32) => {
                let _ = put_u32_leb128(dst, *x);
                Ok(())
            },
            (Value::S64(x), Type::S64) => {
                let _ = put_i64_leb128(dst, *x);
                Ok(())
            },
            (Value::U64(x), Type::U64) => {
                let _ = put_u64_leb128(dst, *x);
                Ok(())
            },
            (Value::Float32(x), Type::Float32) => {
                put_u32_le(dst, *x);
                Ok(())
            },
            (Value::Float64(x), Type::Float64) => {
                put_u64_le(dst, *x);
                Ok(())
            },
            (Value::Char(c), Type::Char) => {
                let _ = put_char(dst, *c);
                Ok(())
            },
            (Value::String(s), Type::String) => match put_core_name(dst, s.as_str()) {
                Ok(_) => {
                    proof {
                        lemma_joined(start, uleb(encode_utf8(s@).len()), encode_utf8(s@));
                    }
                    Ok(())
                },
                Err(_) => Err(EncodeError::StringTooLong),
            },
            (Value::List(vs), Type::List(e)) => {
                assert(views(vs@) =~= v@->List_0);
                encode_list(vs, &**e, dst)
            },
            (Value::Record(vs), Type::Record(fields)) => encode_record(vs, fields, dst),
            (Value::Tuple(vs), Type::Tuple(types)) => encode_tuple(vs, types, dst),
            (Value::Variant(name, payload), Type::Variant(cases)) => encode_variant(
                name,
                payload,
                cases,
                dst,
            ),
            (Value::Enum(name), Type::Enum(names)) => {
                if names.len() > 0xffff_ffff {
                    return Err(EncodeError::TooManyNames);
                }
                match find_enum_discriminant(names, name.as_str()) {
                    Ok(d) => {
                        let _ = put_u32_leb128(dst, d);
                        Ok(())
                    },
                    Err(e) => Err(e),
                }
            },
            (Value::Option(None), Type::Option(_)) => {
                put_u8(dst, 0);
                Ok(())
            },
            (Value::Option(Some(p)), Type::Option(t)) => {
                put_u8(dst, 1);
                proof {
                    lemma_joined(start, seq![1u8], encoding(p@, t@).bytes);
                }
                match ValEncoder::new(&**t).encode(&**p, dst) {
                    Ok(_) => Ok(()),
                    Err(e) => Err(EncodeError::OptionValue(Box::new(e))),
                }
            },
            (Value::Result(Ok(p)), Type::Result(t, _)) => match (p, t) {
                (Some(p), Some(t)) => {
                    put_u8(dst, 0);
                    proof {
                        lemma_joined(start, seq![0u8], encoding(p@, t@).bytes);
                    }
                    match ValEncoder::new(&**t).encode(&**p, dst) {
                        Ok(_) => Ok(()),
                        Err(e) => Err(EncodeError::OkValue(Box::new(e))),
                    }
                },
                (Some(_), None) => Err(EncodeError::OkUnknownType),
                (None, Some(_)) => Err(EncodeError::OkMissing),
                (None, None) => {
                    put_u8(dst, 0);
                    Ok(())
                },
            },
            (Value::Result(Err(p)), Type::Result(_, t)) => match (p, t) {
                (Some(p), Some(t)) => {
                    put_u8(dst, 1);
                    proof {
                        lemma_joined(start, seq![1u8], encoding(p@, t@).bytes);
                    }
                    match ValEncoder::new(&**t).encode(&**p, dst) {
                        Ok(_) => Ok(()),
                        Err(e) => Err(EncodeError::ErrValue(Box::new(e))),
                    }
                },
                (Some(_), None) => Err(EncodeError::ErrUnknownType),
                (None, Some(_)) => Err(EncodeError::ErrMissing),
                (None, None) => {
                    put_u8(dst, 1);
                    Ok(())
                },
            },
            (Value::Flags(flags), Type::Flags(names)) => {
                put_flags(names, flags, dst);
                Ok(())
            },
            (_, Type::Mapping(..)) => Err(EncodeError::Unsupported(Unsupported::Maps)),
            (_, Type::Own(_)) => Err(EncodeError::Unsupported(Unsupported::Resources)),
            (_, Type::Borrow(_)) => Err(EncodeError::Unsupported(Unsupported::Resources)),
            (_, Type::Future(_)) => Err(EncodeError::Unsupported(Unsupported::Futures)),
            (_, Type::Stream(_)) => Err(EncodeError::Unsupported(Unsupported::Streams)),
            (_, Type::ErrorContext) => Err(EncodeError::Unsupported(Unsupported::ErrorContexts)),
            _ => Err(EncodeError::Mismatch),
        }
    }
}

/// Appends a list: its length and its elements.
fn encode_list(vs: &Vec<Value>, ty: &Type, dst: &mut bytes::BytesMut) -> (r: Result<
    (),
    EncodeError,
>)
    ensures
        encodes(
            encoding(ValueV::List(views(vs@)), TypeV::List(Box::new(ty@))),
            contents(*old(dst)),
            contents(*final(dst)),
            r,
        ),
    decreases vs,
{
    let ghost items = views(vs@);
    let ghost start = contents(*dst);
    if vs.len() > 0xffff_ffff {
        assert(start + Seq::<u8>::empty() =~= start);
        return Err(EncodeError::ListTooLong);
    }
    let _ = put_u32_leb128(dst, vs.len() as u32);
    let ghost head = start + uleb(vs@.len());
    let mut i: usize = 0;
    assert(head + Seq::<u8>::empty() =~= head);
    while i < vs.len()
        invariant
            0 <= i <= vs@.len() <= u32::MAX,
            items == views(vs@),
            head == start + uleb(vs@.len()),
            start == contents(*old(dst)),
            list_encoding(items, ty@, i as nat).error is None,
            contents(*dst) == head + list_encoding(items, ty@, i as nat).bytes,
        decreases vs@.len() - i,
    {
        let ghost before = list_encoding(items, ty@, i as nat).bytes;
        let ghost last = encoding(items[i as int], ty@);
        proof {
            lemma_item_decreases(*vs, i as int);
            assert((head + before) + last.bytes =~= head + (before + last.bytes));
        }
        if let Err(e) = ValEncoder::new(ty).encode(&vs[i], dst) {
            proof {
                lemma_list_stops(items, ty@, (i + 1) as nat, items.len());
                let bytes = list_encoding(items, ty@, items.len()).bytes;
                assert(head + bytes =~= start + (uleb(vs@.len()) + bytes));
            }
            return Err(EncodeError::ListElement(Box::new(e)));
        }
        i += 1;
    }
    proof {
        let bytes = list_encoding(items, ty@, items.len()).bytes;
        assert(head + bytes =~= start + (uleb(vs@.len()) + bytes));
    }
    Ok(())
}

/// Once an element has failed, nothing more is written.
proof fn lemma_list_stops(vs: Seq<ValueV>, ty: TypeV, i: nat, n: nat)
    requires
        i <= n <= vs.len(),
        list_encoding(vs, ty, i).error is Some,
    ensures
        list_encoding(vs, ty, n) == list_encoding(vs, ty, i),
    decreases n,
{
    if i < n {
        lemma_list_stops(vs, ty, i, (n - 1) as nat);
    }
}

/// Appends the fields of a record.
fn encode_record(
    vs: &Vec<(String, Value)>,
    fields: &Vec<(String, Type)>,
    dst: &mut bytes::BytesMut,
) -> (r: Result<(), EncodeError>)
    ensures
        encodes(
            encoding(value_view(Value::Record(*vs)), type_view(Type::Record(*fields))),
            contents(*old(dst)),
            contents(*final(dst)),
            r,
        ),
    decreases vs,
{
    let ghost items = value_view(Value::Record(*vs))->Record_0;
    let ghost tys = type_view(Type::Record(*fields))->Record_0;
    let ghost start = contents(*dst);
    let mut i: usize = 0;
    assert(start + Seq::<u8>::empty() =~= start);
    while i < vs.len() && i < fields.len()
        invariant
            0 <= i <= vs@.len(),
            i <= fields@.len(),
            items == value_view(Value::Record(*vs))->Record_0,
            tys == type_view(Type::Record(*fields))->Record_0,
            start == contents(*old(dst)),
            record_encoding(items, tys, i as nat).error is None,
            contents(*dst) == start + record_encoding(items, tys, i as nat).bytes,
        decreases vs@.len() - i,
    {
        let ghost before = record_encoding(items, tys, i as nat).bytes;
        let ghost last = encoding(items[i as int].1, tys[i as int].1);
        proof {
            lemma_entry_decreases(*vs, i as int);
            assert((start + before) + last.bytes =~= start + (before + last.bytes));
        }
        if let Err(e) = ValEncoder::new(&fields[i].1).encode(&vs[i].1, dst) {
            proof {
                lemma_record_stops(items, tys, (i + 1) as nat, shorter(items.len(), tys.len()));
            }
            return Err(EncodeError::Field(vs[i].0.clone(), Box::new(e)));
        }
        i += 1;
    }
    Ok(())
}

proof fn lemma_record_stops(
    vs: Seq<(Seq<char>, ValueV)>,
    fields: Seq<(Seq<char>, TypeV)>,
    i: nat,
    n: nat,
)
    requires
        i <= n <= vs.len(),
        record_encoding(vs, fields, i).error is Some,
    ensures
        record_encoding(vs, fields, n) == record_encoding(vs, fields, i),
    decreases n,
{
    if i < n {
        lemma_record_stops(vs, fields, i, (n - 1) as nat);
    }
}

/// Appends the elements of a tuple.
fn encode_tuple(vs: &Vec<Value>, types: &Vec<Type>, dst: &mut bytes::BytesMut) -> (r: Result<
    (),
    EncodeError,
>)
    ensures
        encodes(
            encoding(value_view(Value::Tuple(*vs)), type_view(Type::Tuple(*types))),
            contents(*old(dst)),
            contents(*final(dst)),
            r,
        ),
    decreases vs,
{
    let ghost items = value_view(Value::Tuple(*vs))->Tuple_0;
    let ghost tys = type_view(Type::Tuple(*types))->Tuple_0;
    let ghost start = contents(*dst);
    let mut i: usize = 0;
    assert(start + Seq::<u8>::empty() =~= start);
    while i < vs.len() && i < types.len()
        invariant
            0 <= i <= vs@.len(),
            i <= types@.len(),
            items == value_view(Value::Tuple(*vs))->Tuple_0,
            tys == type_view(Type::Tuple(*types))->Tuple_0,
            start == contents(*old(dst)),
            tuple_encoding(items, tys, i as nat).error is None,
            contents(*dst) == start + tuple_encoding(items, tys, i as nat).bytes,
        decreases vs@.len() - i,
    {
        let ghost before = tuple_encoding(items, tys, i as nat).bytes;
        let ghost last = encoding(items[i as int], tys[i as int]);
        proof {
            lemma_item_decreases(*vs, i as int);
            assert((start + before) + last.bytes =~= start + (before + last.bytes));
        }
        if let Err(e) = ValEncoder::new(&types[i]).encode(&vs[i], dst) {
            proof {
                lemma_tuple_stops(items, tys, (i + 1) as nat, shorter(items.len(), tys.len()));
            }
            return Err(EncodeError::TupleElement(Box::new(e)));
        }
        i += 1;
    }
    Ok(())
}

proof fn lemma_tuple_stops(vs: Seq<ValueV>, types: Seq<TypeV>, i: nat, n: nat)
    requires
        i <= n <= vs.len(),
        tuple_encoding(vs, types, i).error is Some,
    ensures
        tuple_encoding(vs, types, n) == tuple_encoding(vs, types, i),
    decreases n,
{
    if i < n {
        lemma_tuple_stops(vs, types, i, (n - 1) as nat);
    }
}

/// Appends a variant: the place of its case and its payload.
fn encode_variant(
    name: &String,
    payload: &Option<Box<Value>>,
    cases: &Vec<(String, Option<Type>)>,
    dst: &mut bytes::BytesMut,
) -> (r: Result<(), EncodeError>)
    ensures
        encodes(
            encoding(value_view(Value::Variant(*name, *payload)), type_view(Type::Variant(*cases))),
            contents(*old(dst)),
            contents(*final(dst)),
            r,
        ),
    decreases payload,
{
    let ghost tys = type_view(Type::Variant(*cases))->Variant_0;
    let ghost start = contents(*dst);
    assert(start + Seq::<u8>::empty() =~= start);
    assert(case_names(tys) =~= Seq::new(cases@.len(), |i: int| cases@[i].0@));
    if cases.len() > 0xffff_ffff {
        return Err(EncodeError::TooManyCases);
    }
    let d: u32 = match find_variant_discriminant(cases, name.as_str()) {
        Ok(d) => d,
        Err(e) => {
            return Err(e);
        },
    };
    let _ = put_u32_leb128(dst, d);
    match payload {
        None => Ok(()),
        Some(p) => match &cases[d as usize].1 {
            None => Err(EncodeError::VariantTypeMissing),
            Some(t) => {
                let ghost inner = encoding(p@, t@);
                assert((start + uleb(d as nat)) + inner.bytes =~= start + (uleb(d as nat)
                    + inner.bytes));
                match ValEncoder::new(t).encode(&**p, dst) {
                    Ok(_) => Ok(()),
                    Err(e) => Err(EncodeError::VariantValue(Box::new(e))),
                }
            },
        },
    }
}

} // verus!
