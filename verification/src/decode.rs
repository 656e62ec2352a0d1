//! Reading values off the wire.

use vstd::prelude::*;
use vstd::utf8::{
    char_u32_cast, decode_first_scalar, decode_utf8, length_of_first_scalar, valid_first_scalar,
    valid_utf8,
};

use crate::codec::{flag_len, weight, Unsupported};
use crate::types::{
    lemma_case_decreases, lemma_element_decreases, lemma_field_decreases, texts, type_view, Type,
    TypeV,
};
use crate::value::{value_view, views, Value, ValueV};
use crate::wire::{
    buffered, contents, from_utf8, get_char, get_i16_leb128, get_i32_leb128, get_i64_leb128,
    get_i8, get_u16_leb128, get_u32_le, get_u32_leb128, get_u64_le, get_u64_leb128, get_u8,
    le_number, scalar_dropped, scalar_pending, sleb_read, split_to, uleb_read, Leb,
};

verus! {

/// Why no value could be read.
#[derive(Clone, Copy, Debug, PartialEq, Eq, Structural)]
pub enum ReadError {
    /// The buffer ends inside the value.
    UnexpectedEof,
    InvalidBool(u8),
    InvalidOptionStatus(u8),
    InvalidResultStatus(u8),
    /// An integer does not fit the number of bits.
    Overflow(u8),
    InvalidChar,
    InvalidUtf8,
    UnknownVariant(u32),
    UnknownEnum(u32),
    Unsupported(Unsupported),
}

/// A value read, and the number of bytes that it took.
pub type Reading = Result<(ValueV, nat), ReadError>;

/// The number that a LEB128 decoder of so many bits found, and the number of bytes that
/// it took.
pub open spec fn number(read: Leb, bits: u8) -> Result<(int, nat), ReadError> {
    match read {
        Leb::More => Err(ReadError::UnexpectedEof),
        Leb::Overflow => Err(ReadError::Overflow(bits)),
        Leb::Number(v, n) => Ok((v, n)),
    }
}

/// A byte as a two's complement number.
pub open spec fn signed_byte(b: u8) -> i8 {
    if b < 128 {
        b as i8
    } else {
        (b - 256) as i8
    }
}

/// Whether bit `j` of `b` is set.
pub open spec fn bit_of(b: u8, j: int) -> bool {
    (b as int / weight(j)) % 2 == 1
}

/// Those of the first `n` names whose flag is set, in the order of the names.
pub open spec fn set_flags(names: Seq<Seq<char>>, s: Seq<u8>, n: nat) -> Seq<Seq<char>>
    decreases n,
{
    if n == 0 {
        Seq::empty()
    } else {
        let before = set_flags(names, s, (n - 1) as nat);
        if bit_of(s[(n - 1) / 8], (n - 1) % 8) {
            before.push(names[n - 1])
        } else {
            before
        }
    }
}

/// A value with one payload, after `k` bytes that tell what it is.
pub open spec fn behind(inner: Reading, k: nat, wrap: spec_fn(ValueV) -> ValueV) -> Reading {
    match inner {
        Ok((v, n)) => Ok((wrap(v), k + n)),
        Err(e) => Err(e),
    }
}

/// What stands at the front of `s`, read as a `ty`.
pub open spec fn reading(s: Seq<u8>, ty: TypeV) -> Reading
    decreases ty, 0nat,
{
    match ty {
        TypeV::Bool => if s.len() == 0 {
            Err(ReadError::UnexpectedEof)
        } else if s[0] <= 1 {
            Ok((ValueV::Bool(s[0] == 1), 1))
        } else {
            Err(ReadError::InvalidBool(s[0]))
        },
        TypeV::S8 => if s.len() == 0 {
            Err(ReadError::UnexpectedEof)
        } else {
            Ok((ValueV::S8(signed_byte(s[0])), 1))
        },
        TypeV::U8 => if s.len() == 0 {
            Err(ReadError::UnexpectedEof)
        } else {
            Ok((ValueV::U8(s[0]), 1))
        },
        TypeV::S16 => match number(sleb_read(s, 16), 16) {
            Ok((v, n)) => Ok((ValueV::S16(v as i16), n)),
            Err(e) => Err(e),
        },
        TypeV::U16 => match number(uleb_read(s, 16), 16) {
            Ok((v, n)) => Ok((ValueV::U16(v as u16), n)),
            Err(e) => Err(e),
        },
        TypeV::S32 => match number(sleb_read(s, 32), 32) {
            Ok((v, n)) => Ok((ValueV::S32(v as i32), n)),
            Err(e) => Err(e),
        },
        TypeV::U32 => match number(uleb_read(s, 32), 32) {
            Ok((v, n)) => Ok((ValueV::U32(v as u32), n)),
            Err(e) => Err(e),
        },
        TypeV::S64 => match number(sleb_read(s, 64), 64) {
            Ok((v, n)) => Ok((ValueV::S64(v as i64), n)),
            Err(e) => Err(e),
        },
        TypeV::U64 => match number(uleb_read(s, 64), 64) {
            Ok((v, n)) => Ok((ValueV::U64(v as u64), n)),
            Err(e) => Err(e),
        },
        TypeV::Float32 => if s.len() < 4 {
            Err(ReadError::UnexpectedEof)
        } else {
            Ok((ValueV::Float32(le_number(s, 4) as u32), 4))
        },
        TypeV::Float64 => if s.len() < 8 {
            Err(ReadError::UnexpectedEof)
        } else {
            Ok((ValueV::Float64(le_number(s, 8) as u64), 8))
        },
        TypeV::Char => if valid_first_scalar(s) {
            Ok((ValueV::Char(decode_first_scalar(s) as char), length_of_first_scalar(s) as nat))
        } else if scalar_pending(s) {
            Err(ReadError::UnexpectedEof)
        } else {
            Err(ReadError::InvalidChar)
        },
        TypeV::String => match number(uleb_read(s, 32), 32) {
            Ok((len, n)) => if s.len() - n < len {
                Err(ReadError::UnexpectedEof)
            } else if valid_utf8(s.skip(n as int).take(len)) {
                Ok((ValueV::String(decode_utf8(s.skip(n as int).take(len))), (n + len) as nat))
            } else {
                Err(ReadError::InvalidUtf8)
            },
            Err(e) => Err(e),
        },
        TypeV::List(e) => match number(uleb_read(s, 32), 32) {
            Ok((len, n)) => match list_reading(s.skip(n as int), *e, len as nat) {
                Ok((vs, k)) => Ok((ValueV::List(vs), n + k)),
                Err(e) => Err(e),
            },
            Err(e) => Err(e),
        },
        TypeV::Record(fields) => match record_reading(s, fields, fields.len()) {
            Ok((vs, n)) => Ok((ValueV::Record(vs), n)),
            Err(e) => Err(e),
        },
        TypeV::Tuple(types) => match tuple_reading(s, types, types.len()) {
            Ok((vs, n)) => Ok((ValueV::Tuple(vs), n)),
            Err(e) => Err(e),
        },
        TypeV::Variant(cases) => match number(uleb_read(s, 32), 32) {
            Ok((d, n)) => if 0 <= d < cases.len() {
                match cases[d].1 {
                    Some(t) => behind(
                        reading(s.skip(n as int), t),
                        n,
                        |v: ValueV| ValueV::Variant(cases[d].0, Some(Box::new(v))),
                    ),
                    None => Ok((ValueV::Variant(cases[d].0, None), n)),
                }
            } else {
                Err(ReadError::UnknownVariant(d as u32))
            },
            Err(e) => Err(e),
        },
        TypeV::Enum(names) => match number(uleb_read(s, 32), 32) {
            Ok((d, n)) => if 0 <= d < names.len() {
                Ok((ValueV::Enum(names[d]), n))
            } else {
                Err(ReadError::UnknownEnum(d as u32))
            },
            Err(e) => Err(e),
        },
        TypeV::Option(t) => if s.len() == 0 {
            Err(ReadError::UnexpectedEof)
        } else if s[0] == 0 {
            Ok((ValueV::Option(None), 1))
        } else if s[0] == 1 {
            behind(reading(s.skip(1), *t), 1, |v: ValueV| ValueV::Option(Some(Box::new(v))))
        } else {
            Err(ReadError::InvalidOptionStatus(s[0]))
        },
        TypeV::Result(ok, err) => if s.len() == 0 {
            Err(ReadError::UnexpectedEof)
        } else if s[0] == 0 {
            match ok {
                Some(t) => behind(
                    reading(s.skip(1), *t),
                    1,
                    |v: ValueV| ValueV::Result(Ok(Some(Box::new(v)))),
                ),
                None => Ok((ValueV::Result(Ok(None)), 1)),
            }
        } else if s[0] == 1 {
            match err {
                Some(t) => behind(
                    reading(s.skip(1), *t),
                    1,
                    |v: ValueV| ValueV::Result(Err(Some(Box::new(v)))),
                ),
                None => Ok((ValueV::Result(Err(None)), 1)),
            }
        } else {
            Err(ReadError::InvalidResultStatus(s[0]))
        },
        TypeV::Flags(names) => if s.len() < flag_len(names.len()) {
            Err(ReadError::UnexpectedEof)
        } else {
            Ok((ValueV::Flags(set_flags(names, s, names.len())), flag_len(names.len())))
        },
        TypeV::Mapping(..) => Err(ReadError::Unsupported(Unsupported::Maps)),
        TypeV::Own(_) => Err(ReadError::Unsupported(Unsupported::Resources)),
        TypeV::Borrow(_) => Err(ReadError::Unsupported(Unsupported::Resources)),
        TypeV::Future(_) => Err(ReadError::Unsupported(Unsupported::Futures)),
        TypeV::Stream(_) => Err(ReadError::Unsupported(Unsupported::Streams)),
        TypeV::ErrorContext => Err(ReadError::Unsupported(Unsupported::ErrorContexts)),
    }
}

/// `n` values of one type, one behind the other.
pub open spec fn list_reading(s: Seq<u8>, ty: TypeV, n: nat) -> Result<
    (Seq<ValueV>, nat),
    ReadError,
>
    decreases ty, n,
{
    if n == 0 {
        Ok((Seq::empty(), 0))
    } else {
        match list_reading(s, ty, (n - 1) as nat) {
            Ok((vs, k)) => match reading(s.skip(k as int), ty) {
                Ok((v, m)) => Ok((vs.push(v), k + m)),
                Err(e) => Err(e),
            },
            Err(e) => Err(e),
        }
    }
}

/// The first `n` fields of a record, one behind the other.
pub open spec fn record_reading(
    s: Seq<u8>,
    fields: Seq<(Seq<char>, TypeV)>,
    n: nat,
) -> Result<(Seq<(Seq<char>, ValueV)>, nat), ReadError>
    decreases fields, n,
{
    if n == 0 || n > fields.len() {
        Ok((Seq::empty(), 0))
    } else {
        match record_reading(s, fields, (n - 1) as nat) {
            Ok((vs, k)) => match reading(s.skip(k as int), fields[n - 1].1) {
                Ok((v, m)) => Ok((vs.push((fields[n - 1].0, v)), k + m)),
                Err(e) => Err(e),
            },
            Err(e) => Err(e),
        }
    }
}

/// The first `n` elements of a tuple, one behind the other.
pub open spec fn tuple_reading(s: Seq<u8>, types: Seq<TypeV>, n: nat) -> Result<
    (Seq<ValueV>, nat),
    ReadError,
>
    decreases types, n,
{
    if n == 0 || n > types.len() {
        Ok((Seq::empty(), 0))
    } else {
        match tuple_reading(s, types, (n - 1) as nat) {
            Ok((vs, k)) => match reading(s.skip(k as int), types[n - 1]) {
                Ok((v, m)) => Ok((vs.push(v), k + m)),
                Err(e) => Err(e),
            },
            Err(e) => Err(e),
        }
    }
}

/// How many bytes are taken off `s` where no `ty` can be read from it: a byte or a number
/// that tells which case there is, the bytes of a text, and whatever was read before. What
/// ends too early stays, and so does an integer that does not fit.
pub open spec fn stopped(s: Seq<u8>, ty: TypeV) -> nat
    decreases ty, 0nat,
{
    match ty {
        TypeV::Bool => if s.len() == 0 {
            0
        } else {
            1
        },
        TypeV::Char => scalar_dropped(s),
        TypeV::String => match number(uleb_read(s, 32), 32) {
            Ok((len, n)) => if s.len() - n < len {
                n
            } else {
                (n + len) as nat
            },
            Err(_) => 0,
        },
        TypeV::List(e) => match number(uleb_read(s, 32), 32) {
            Ok((len, n)) => n + list_stopped(s.skip(n as int), *e, len as nat),
            Err(_) => 0,
        },
        TypeV::Record(fields) => record_stopped(s, fields, fields.len()),
        TypeV::Tuple(types) => tuple_stopped(s, types, types.len()),
        TypeV::Variant(cases) => match number(uleb_read(s, 32), 32) {
            Ok((d, n)) => if 0 <= d < cases.len() && cases[d].1 is Some {
                n + stopped(s.skip(n as int), cases[d].1->0)
            } else {
                n
            },
            Err(_) => 0,
        },
        TypeV::Enum(_) => match number(uleb_read(s, 32), 32) {
            Ok((_, n)) => n,
            Err(_) => 0,
        },
        TypeV::Option(t) => if s.len() == 0 {
            0
        } else if s[0] == 1 {
            1 + stopped(s.skip(1), *t)
        } else {
            1
        },
        TypeV::Result(ok, err) => if s.len() == 0 {
            0
        } else if s[0] == 0 && ok is Some {
            1 + stopped(s.skip(1), *(ok->0))
        } else if s[0] == 1 && err is Some {
            1 + stopped(s.skip(1), *(err->0))
        } else {
            1
        },
        _ => 0,
    }
}

/// How many bytes are taken off `s` where one of `n` values of one type cannot be read.
pub open spec fn list_stopped(s: Seq<u8>, ty: TypeV, n: nat) -> nat
    decreases ty, n,
{
    if n == 0 {
        0
    } else {
        match list_reading(s, ty, (n - 1) as nat) {
            Ok((_, k)) => k + stopped(s.skip(k as int), ty),
            Err(_) => list_stopped(s, ty, (n - 1) as nat),
        }
    }
}

/// How many bytes are taken off `s` where one of the first `n` fields of a record cannot
/// be read.
pub open spec fn record_stopped(s: Seq<u8>, fields: Seq<(Seq<char>, TypeV)>, n: nat) -> nat
    decreases fields, n,
{
    if n == 0 || n > fields.len() {
        0
    } else {
        match record_reading(s, fields, (n - 1) as nat) {
            Ok((_, k)) => k + stopped(s.skip(k as int), fields[n - 1].1),
            Err(_) => record_stopped(s, fields, (n - 1) as nat),
        }
    }
}

/// How many bytes are taken off `s` where one of the first `n` elements of a tuple cannot
/// be read.
pub open spec fn tuple_stopped(s: Seq<u8>, types: Seq<TypeV>, n: nat) -> nat
    decreases types, n,
{
    if n == 0 || n > types.len() {
        0
    } else {
        match tuple_reading(s, types, (n - 1) as nat) {
            Ok((_, k)) => k + stopped(s.skip(k as int), types[n - 1]),
            Err(_) => tuple_stopped(s, types, (n - 1) as nat),
        }
    }
}

pub(crate) proof fn lemma_uleb_read_len(s: Seq<u8>, bits: nat)
    ensures
        uleb_read(s, bits) matches Leb::Number(v, n) ==> 1 <= n <= s.len() && v >= 0,
    decreases bits,
{
    if s.len() > 0 && bits > 7 && s[0] >= 128 {
        lemma_uleb_read_len(s.skip(1), (bits - 7) as nat);
    }
}

pub(crate) proof fn lemma_sleb_read_len(s: Seq<u8>, bits: nat)
    ensures
        sleb_read(s, bits) matches Leb::Number(v, n) ==> 1 <= n <= s.len(),
    decreases bits,
{
    if s.len() > 0 && bits > 7 && s[0] >= 128 {
        lemma_sleb_read_len(s.skip(1), (bits - 7) as nat);
    }
}

/// A value takes no more bytes than there are, and neither does what is no value.
pub proof fn reading_within(s: Seq<u8>, ty: TypeV)
    ensures
        reading(s, ty) matches Ok((v, n)) ==> n <= s.len(),
        reading(s, ty) is Err ==> stopped(s, ty) <= s.len(),
    decreases ty, 0nat,
{
    lemma_uleb_read_len(s, 16);
    lemma_uleb_read_len(s, 32);
    lemma_uleb_read_len(s, 64);
    lemma_sleb_read_len(s, 16);
    lemma_sleb_read_len(s, 32);
    lemma_sleb_read_len(s, 64);
    match ty {
        TypeV::List(e) => {
            if let Ok((len, n)) = number(uleb_read(s, 32), 32) {
                lemma_list_within(s.skip(n as int), *e, len as nat);
            }
        },
        TypeV::Record(fields) => {
            lemma_record_within(s, fields, fields.len());
        },
        TypeV::Tuple(types) => {
            lemma_tuple_within(s, types, types.len());
        },
        TypeV::Variant(cases) => {
            if let Ok((d, n)) = number(uleb_read(s, 32), 32) {
                if 0 <= d < cases.len() {
                    if let Some(t) = cases[d].1 {
                        reading_within(s.skip(n as int), t);
                    }
                }
            }
        },
        TypeV::Option(t) => {
            if s.len() > 0 {
                reading_within(s.skip(1), *t);
            }
        },
        TypeV::Result(ok, err) => {
            if s.len() > 0 {
                if let Some(t) = ok {
                    reading_within(s.skip(1), *t);
                }
                if let Some(t) = err {
                    reading_within(s.skip(1), *t);
                }
            }
        },
        _ => {},
    }
}

pub(crate) proof fn lemma_list_within(s: Seq<u8>, ty: TypeV, n: nat)
    ensures
        list_reading(s, ty, n) matches Ok((vs, k)) ==> k <= s.len() && vs.len() == n,
        list_reading(s, ty, n) is Err ==> list_stopped(s, ty, n) <= s.len(),
    decreases ty, n,
{
    if n > 0 {
        lemma_list_within(s, ty, (n - 1) as nat);
        if let Ok((vs, k)) = list_reading(s, ty, (n - 1) as nat) {
            reading_within(s.skip(k as int), ty);
        }
    }
}

pub(crate) proof fn lemma_record_within(s: Seq<u8>, fields: Seq<(Seq<char>, TypeV)>, n: nat)
    requires
        n <= fields.len(),
    ensures
        record_reading(s, fields, n) matches Ok((vs, k)) ==> k <= s.len() && vs.len() == n,
        record_reading(s, fields, n) is Err ==> record_stopped(s, fields, n) <= s.len(),
    decreases fields, n,
{
    if n > 0 {
        lemma_record_within(s, fields, (n - 1) as nat);
        if let Ok((vs, k)) = record_reading(s, fields, (n - 1) as nat) {
            reading_within(s.skip(k as int), fields[n - 1].1);
        }
    }
}

pub(crate) proof fn lemma_tuple_within(s: Seq<u8>, types: Seq<TypeV>, n: nat)
    requires
        n <= types.len(),
    ensures
        tuple_reading(s, types, n) matches Ok((vs, k)) ==> k <= s.len() && vs.len() == n,
        tuple_reading(s, types, n) is Err ==> tuple_stopped(s, types, n) <= s.len(),
    decreases types, n,
{
    if n > 0 {
        lemma_tuple_within(s, types, (n - 1) as nat);
        if let Ok((vs, k)) = tuple_reading(s, types, (n - 1) as nat) {
            reading_within(s.skip(k as int), types[n - 1]);
        }
    }
}

/// Of a type that is not supported nothing is read, and nothing is taken.
pub proof fn unsupported_types_take_nothing(s: Seq<u8>, ty: TypeV)
    requires
        ty is Mapping || ty is Own || ty is Borrow || ty is Future || ty is Stream || ty
            is ErrorContext,
    ensures
        reading(s, ty) matches Err(ReadError::Unsupported(_)),
        stopped(s, ty) == 0,
{
}

/// A number that is the place of no case is taken, and nothing behind it.
pub proof fn unknown_cases_take_their_number(
    s: Seq<u8>,
    cases: Seq<(Seq<char>, Option<TypeV>)>,
    names: Seq<Seq<char>>,
    d: u32,
    n: nat,
)
    requires
        number(uleb_read(s, 32), 32) == Ok::<(int, nat), ReadError>((d as int, n)),
    ensures
        d >= cases.len() ==> reading(s, TypeV::Variant(cases)) == Reading::Err(
            ReadError::UnknownVariant(d),
        ) && stopped(s, TypeV::Variant(cases)) == n,
        d >= names.len() ==> reading(s, TypeV::Enum(names)) == Reading::Err(
            ReadError::UnknownEnum(d),
        ) && stopped(s, TypeV::Enum(names)) == n,
{
}

/// Whether a reader of a `ty` did to its buffer, and returned, what it should.
pub open spec fn reads(
    ty: TypeV,
    before: Seq<u8>,
    after: Seq<u8>,
    r: Result<Value, ReadError>,
) -> bool {
    match r {
        Ok(v) => reading(before, ty) matches Ok((w, n)) && v@ == w && after == before.skip(
            n as int,
        ),
        Err(e) => reading(before, ty) == Reading::Err(e) && after == before.skip(
            stopped(before, ty) as int,
        ),
    }
}

/// Takes a length or a discriminant.
fn take_u32(r: &mut bytes::BytesMut) -> (res: Result<u32, ReadError>)
    ensures
        match number(uleb_read(contents(*old(r)), 32), 32) {
            Ok((v, n)) => res matches Ok(x) && x == v && contents(*final(r)) == contents(
                *old(r),
            ).skip(n as int) && 1 <= n <= contents(*old(r)).len(),
            Err(e) => res == Err::<u32, ReadError>(e) && contents(*final(r)) == contents(*old(r)),
        },
{
    proof {
        lemma_uleb_read_len(contents(*r), 32);
    }
    match get_u32_leb128(r) {
        Ok(Some(x)) => Ok(x),
        Ok(None) => Err(ReadError::UnexpectedEof),
        Err(_) => Err(ReadError::Overflow(32)),
    }
}

/// Takes a byte.
fn take_byte(r: &mut bytes::BytesMut) -> (res: Result<u8, ReadError>)
    ensures
        contents(*old(r)).len() == 0 ==> res == Err::<u8, ReadError>(ReadError::UnexpectedEof)
            && contents(*final(r)) == contents(*old(r)),
        contents(*old(r)).len() > 0 ==> res == Ok::<u8, ReadError>(contents(*old(r))[0])
            && contents(*final(r)) == contents(*old(r)).skip(1),
{
    if buffered(r) == 0 {
        Err(ReadError::UnexpectedEof)
    } else {
        Ok(get_u8(r))
    }
}

proof fn lemma_left(s: Seq<u8>)
    ensures
        s.skip(0) == s,
{
    assert(s.skip(0) =~= s);
}

proof fn lemma_skips(a: Seq<u8>, j: int, k: int)
    requires
        0 <= j,
        0 <= k,
        j + k <= a.len(),
    ensures
        a.skip(j).skip(k) == a.skip(j + k),
{
    assert(a.skip(j).skip(k) =~= a.skip(j + k));
}

fn bit_weight(j: usize) -> (w: u8)
    requires
        j < 8,
    ensures
        w == weight(j as int),
{
    match j {
        0 => 1,
        1 => 2,
        2 => 4,
        3 => 8,
        4 => 16,
        5 => 32,
        6 => 64,
        _ => 128,
    }
}

/// Takes a set of flags.
fn take_flags(r: &mut bytes::BytesMut, names: &Vec<String>) -> (res: Result<Value, ReadError>)
    ensures
        reads(
            TypeV::Flags(texts(names@)),
            contents(*old(r)),
            contents(*final(r)),
            res,
        ),
{
    let ghost s = contents(*r);
    proof {
        lemma_left(s);
    }
    let ghost all = texts(names@);
    let len: usize = if names.len() == 0 {
        1
    } else {
        (names.len() - 1) / 8 + 1
    };
    assert(len == flag_len(all.len()));
    if buffered(r) < len {
        return Err(ReadError::UnexpectedEof);
    }
    let buf = split_to(r, len);
    let mut set: Vec<String> = Vec::new();
    let mut i: usize = 0;
    assert(texts(set@) =~= set_flags(all, s, 0));
    while i < names.len()
        invariant
            0 <= i <= names@.len(),
            all == texts(names@),
            len == flag_len(all.len()),
            len <= s.len(),
            buf@ == s.take(len as int),
            texts(set@) == set_flags(all, s, i as nat),
        decreases names@.len() - i,
    {
        let b: u8 = buf[i / 8];
        let w: u8 = bit_weight(i % 8);
        let ghost before = set@;
        assert(b == s[i as int / 8]);
        if (b / w) % 2 == 1 {
            set.push(names[i].clone());
            assert(texts(set@) =~= texts(before).push(all[i as int]));
        }
        i += 1;
    }
    Ok(Value::Flags(set))
}

/// Takes a name: a number of bytes and that many bytes of UTF-8.
fn take_name(r: &mut bytes::BytesMut) -> (res: Result<Value, ReadError>)
    ensures
        reads(
            TypeV::String,
            contents(*old(r)),
            contents(*final(r)),
            res,
        ),
{
    let ghost s = contents(*r);
    proof {
        lemma_left(s);
    }
    let len: u32 = match take_u32(r) {
        Ok(len) => len,
        Err(e) => {
            return Err(e);
        },
    };
    let ghost n = number(uleb_read(s, 32), 32)->Ok_0.1;
    if buffered(r) < len as usize {
        return Err(ReadError::UnexpectedEof);
    }
    let bytes = split_to(r, len as usize);
    proof {
        lemma_skips(s, n as int, len as int);
    }
    match from_utf8(bytes) {
        Some(text) => Ok(Value::String(text)),
        None => Err(ReadError::InvalidUtf8),
    }
}

/// Takes the elements of a list, of which there are `n`.
fn take_items(r: &mut bytes::BytesMut, ty: &Type, n: u32) -> (res: Result<Vec<Value>, ReadError>)
    ensures
        match res {
            Ok(vs) => list_reading(contents(*old(r)), ty@, n as nat) matches Ok((ws, k)) && views(
                vs@,
            ) == ws && contents(*final(r)) == contents(*old(r)).skip(k as int),
            Err(e) => list_reading(contents(*old(r)), ty@, n as nat) == Err::<
                (Seq<ValueV>, nat),
                ReadError,
            >(e) && contents(*final(r)) == contents(*old(r)).skip(
                list_stopped(contents(*old(r)), ty@, n as nat) as int,
            ),
        },
    decreases ty, 2nat,
{
    let ghost s = contents(*r);
    let mut vs: Vec<Value> = Vec::new();
    let mut i: u32 = 0;
    let ghost mut k: nat = 0;
    assert(views(vs@) =~= Seq::<ValueV>::empty());
    assert(s.skip(0) =~= s);
    while i < n
        invariant
            0 <= i <= n,
            k <= s.len(),
            s == contents(*old(r)),
            list_reading(s, ty@, i as nat) == Ok::<(Seq<ValueV>, nat), ReadError>((views(vs@), k)),
            contents(*r) == s.skip(k as int),
        decreases n - i,
    {
        let ghost before = vs@;
        proof {
            reading_within(s.skip(k as int), ty@);
        }
        match take_value(r, ty) {
            Ok(v) => {
                vs.push(v);
                proof {
                    let m = reading(s.skip(k as int), ty@)->Ok_0.1;
                    lemma_skips(s, k as int, m as int);
                    assert(views(vs@) =~= views(before).push(v@));
                    k = k + m;
                }
            },
            Err(e) => {
                proof {
                    lemma_skips(s, k as int, stopped(s.skip(k as int), ty@) as int);
                    lemma_list_stops(s, ty@, (i + 1) as nat, n as nat, e);
                }
                return Err(e);
            },
        }
        i += 1;
    }
    Ok(vs)
}

/// Once an element has failed, the whole has.
proof fn lemma_list_stops(s: Seq<u8>, ty: TypeV, i: nat, n: nat, e: ReadError)
    requires
        i <= n,
        list_reading(s, ty, i) == Err::<(Seq<ValueV>, nat), ReadError>(e),
    ensures
        list_reading(s, ty, n) == Err::<(Seq<ValueV>, nat), ReadError>(e),
        list_stopped(s, ty, n) == list_stopped(s, ty, i),
    decreases n,
{
    if i < n {
        lemma_list_stops(s, ty, i, (n - 1) as nat, e);
    }
}

/// Takes the fields of a record.
fn take_record(r: &mut bytes::BytesMut, fields: &Vec<(String, Type)>) -> (res: Result<
    Value,
    ReadError,
>)
    ensures
        reads(
            type_view(Type::Record(*fields)),
            contents(*old(r)),
            contents(*final(r)),
            res,
        ),
    decreases fields, 1nat,
{
    let ghost s = contents(*r);
    let ghost tys = type_view(Type::Record(*fields))->Record_0;
    let mut vs: Vec<(String, Value)> = Vec::new();
    let mut i: usize = 0;
    let ghost mut k: nat = 0;
    assert(value_view(Value::Record(vs))->Record_0 =~= Seq::<(Seq<char>, ValueV)>::empty());
    assert(s.skip(0) =~= s);
    while i < fields.len()
        invariant
            0 <= i <= fields@.len(),
            k <= s.len(),
            s == contents(*old(r)),
            tys == type_view(Type::Record(*fields))->Record_0,
            record_reading(s, tys, i as nat) == Ok::<(Seq<(Seq<char>, ValueV)>, nat), ReadError>(
                (value_view(Value::Record(vs))->Record_0, k),
            ),
            contents(*r) == s.skip(k as int),
        decreases fields@.len() - i,
    {
        let ghost before = vs;
        proof {
            lemma_field_decreases(*fields, i as int);
            reading_within(s.skip(k as int), tys[i as int].1);
        }
        match take_value(r, &fields[i].1) {
            Ok(v) => {
                vs.push((fields[i].0.clone(), v));
                proof {
                    let m = reading(s.skip(k as int), tys[i as int].1)->Ok_0.1;
                    lemma_skips(s, k as int, m as int);
                    assert(value_view(Value::Record(vs))->Record_0 =~= value_view(
                        Value::Record(before),
                    )->Record_0.push((tys[i as int].0, v@)));
                    k = k + m;
                }
            },
            Err(e) => {
                proof {
                    lemma_skips(s, k as int, stopped(s.skip(k as int), tys[i as int].1) as int);
                    lemma_record_stops(s, tys, (i + 1) as nat, tys.len(), e);
                }
                return Err(e);
            },
        }
        i += 1;
    }
    Ok(Value::Record(vs))
}

proof fn lemma_record_stops(
    s: Seq<u8>,
    fields: Seq<(Seq<char>, TypeV)>,
    i: nat,
    n: nat,
    e: ReadError,
)
    requires
        i <= n <= fields.len(),
        record_reading(s, fields, i) == Err::<(Seq<(Seq<char>, ValueV)>, nat), ReadError>(e),
    ensures
        record_reading(s, fields, n) == Err::<(Seq<(Seq<char>, ValueV)>, nat), ReadError>(e),
        record_stopped(s, fields, n) == record_stopped(s, fields, i),
    decreases n,
{
    if i < n {
        lemma_record_stops(s, fields, i, (n - 1) as nat, e);
    }
}

/// Takes the elements of a tuple.
fn take_tuple(r: &mut bytes::BytesMut, types: &Vec<Type>) -> (res: Result<Value, ReadError>)
    ensures
        reads(
            type_view(Type::Tuple(*types)),
            contents(*old(r)),
            contents(*final(r)),
            res,
        ),
    decreases types, 1nat,
{
    let ghost s = contents(*r);
    let ghost tys = type_view(Type::Tuple(*types))->Tuple_0;
    let mut vs: Vec<Value> = Vec::new();
    let mut i: usize = 0;
    let ghost mut k: nat = 0;
    assert(views(vs@) =~= Seq::<ValueV>::empty());
    assert(s.skip(0) =~= s);
    while i < types.len()
        invariant
            0 <= i <= types@.len(),
            k <= s.len(),
            s == contents(*old(r)),
            tys == type_view(Type::Tuple(*types))->Tuple_0,
            tuple_reading(s, tys, i as nat) == Ok::<(Seq<ValueV>, nat), ReadError>((views(vs@), k)),
            contents(*r) == s.skip(k as int),
        decreases types@.len() - i,
    {
        let ghost before = vs@;
        proof {
            lemma_element_decreases(*types, i as int);
            reading_within(s.skip(k as int), tys[i as int]);
        }
        match take_value(r, &types[i]) {
            Ok(v) => {
                vs.push(v);
                proof {
                    let m = reading(s.skip(k as int), tys[i as int])->Ok_0.1;
                    lemma_skips(s, k as int, m as int);
                    assert(views(vs@) =~= views(before).push(v@));
                    k = k + m;
                }
            },
            Err(e) => {
                proof {
                    lemma_skips(s, k as int, stopped(s.skip(k as int), tys[i as int]) as int);
                    lemma_tuple_stops(s, tys, (i + 1) as nat, tys.len(), e);
                }
                return Err(e);
            },
        }
        i += 1;
    }
    assert(views(vs@) =~= value_view(Value::Tuple(vs))->Tuple_0);
    Ok(Value::Tuple(vs))
}

proof fn lemma_tuple_stops(s: Seq<u8>, types: Seq<TypeV>, i: nat, n: nat, e: ReadError)
    requires
        i <= n <= types.len(),
        tuple_reading(s, types, i) == Err::<(Seq<ValueV>, nat), ReadError>(e),
    ensures
        tuple_reading(s, types, n) == Err::<(Seq<ValueV>, nat), ReadError>(e),
        tuple_stopped(s, types, n) == tuple_stopped(s, types, i),
    decreases n,
{
    if i < n {
        lemma_tuple_stops(s, types, i, (n - 1) as nat, e);
    }
}

/// Takes a payload that stands behind `k` bytes already taken off `s`.
fn take_payload(r: &mut bytes::BytesMut, ty: &Type, s: Ghost<Seq<u8>>, k: Ghost<nat>) -> (res:
    Result<Value, ReadError>)
    requires
        k@ <= s@.len(),
        contents(*old(r)) == s@.skip(k@ as int),
    ensures
        match res {
            Ok(v) => reading(s@.skip(k@ as int), ty@) matches Ok((w, n)) && v@ == w && contents(
                *final(r),
            ) == s@.skip((k@ + n) as int),
            Err(e) => reading(s@.skip(k@ as int), ty@) == Reading::Err(e) && contents(*final(r))
                == s@.skip((k@ + stopped(s@.skip(k@ as int), ty@)) as int),
        },
    decreases ty, 2nat,
{
    let res = take_value(r, ty);
    proof {
        reading_within(s@.skip(k@ as int), ty@);
        if res is Ok {
            let n = reading(s@.skip(k@ as int), ty@)->Ok_0.1;
            lemma_skips(s@, k@ as int, n as int);
        } else {
            lemma_skips(s@, k@ as int, stopped(s@.skip(k@ as int), ty@) as int);
        }
    }
    res
}

/// Takes a variant: the place of a case and its payload.
fn take_variant(r: &mut bytes::BytesMut, cases: &Vec<(String, Option<Type>)>) -> (res: Result<
    Value,
    ReadError,
>)
    ensures
        reads(
            type_view(Type::Variant(*cases)),
            contents(*old(r)),
            contents(*final(r)),
            res,
        ),
    decreases cases, 1nat,
{
    let ghost s = contents(*r);
    proof {
        lemma_left(s);
    }
    let ghost tys = type_view(Type::Variant(*cases))->Variant_0;
    let d: u32 = match take_u32(r) {
        Ok(d) => d,
        Err(e) => {
            return Err(e);
        },
    };
    let ghost n = number(uleb_read(s, 32), 32)->Ok_0.1;
    if d as usize >= cases.len() {
        return Err(ReadError::UnknownVariant(d));
    }
    assert(tys[d as int].0 == cases@[d as int].0@);
    match &cases[d as usize].1 {
        Some(t) => {
            proof {
                lemma_case_decreases(*cases, d as int);
            }
            match take_payload(r, t, Ghost(s), Ghost(n)) {
                Ok(v) => Ok(Value::Variant(cases[d as usize].0.clone(), Some(Box::new(v)))),
                Err(e) => Err(e),
            }
        },
        None => Ok(Value::Variant(cases[d as usize].0.clone(), None)),
    }
}

/// Takes an option: whether there is a payload, and the payload.
fn take_option(r: &mut bytes::BytesMut, ty: &Type) -> (res: Result<Value, ReadError>)
    ensures
        reads(
            TypeV::Option(Box::new(ty@)),
            contents(*old(r)),
            contents(*final(r)),
            res,
        ),
    decreases ty, 3nat,
{
    let ghost s = contents(*r);
    proof {
        lemma_left(s);
    }
    match take_byte(r) {
        Ok(0) => Ok(Value::Option(None)),
        Ok(1) => match take_payload(r, ty, Ghost(s), Ghost(1)) {
            Ok(v) => Ok(Value::Option(Some(Box::new(v)))),
            Err(e) => Err(e),
        },
        Ok(b) => Err(ReadError::InvalidOptionStatus(b)),
        Err(e) => Err(e),
    }
}

/// Takes a result: which of the two it is, and its payload.
fn take_result(
    r: &mut bytes::BytesMut,
    ok: &Option<Box<Type>>,
    err: &Option<Box<Type>>,
    ty: &Type,
) -> (res: Result<Value, ReadError>)
    requires
        *ty == Type::Result(*ok, *err),
    ensures
        reads(ty@, contents(*old(r)), contents(*final(r)), res),
    decreases ty, 0nat,
{
    let ghost s = contents(*r);
    proof {
        lemma_left(s);
        if ok is Some {
            assert(decreases_to!(*ty => ty->Result_0));
            assert(decreases_to!(ty->Result_0 => ty->Result_0->0));
        }
        if err is Some {
            assert(decreases_to!(*ty => ty->Result_1));
            assert(decreases_to!(ty->Result_1 => ty->Result_1->0));
        }
    }
    match take_byte(r) {
        Ok(0) => match ok {
            Some(t) => match take_payload(r, &**t, Ghost(s), Ghost(1)) {
                Ok(v) => Ok(Value::Result(Ok(Some(Box::new(v))))),
                Err(e) => Err(e),
            },
            None => Ok(Value::Result(Ok(None))),
        },
        Ok(1) => match err {
            Some(t) => match take_payload(r, &**t, Ghost(s), Ghost(1)) {
                Ok(v) => Ok(Value::Result(Err(Some(Box::new(v))))),
                Err(e) => Err(e),
            },
            None => Ok(Value::Result(Err(None))),
        },
        Ok(b) => Err(ReadError::InvalidResultStatus(b)),
        Err(e) => Err(e),
    }
}

/// Takes a value off the front of a buffer.
#[verifier::rlimit(40)]
fn take_value(r: &mut bytes::BytesMut, ty: &Type) -> (res: Result<Value, ReadError>)
    ensures
        reads(ty@, contents(*old(r)), contents(*final(r)), res),
    decreases ty, 1nat,
{
    let ghost s = contents(*r);
    proof {
        lemma_left(s);
    }
    match ty {
        Type::Bool => match take_byte(r) {
            Ok(0) => Ok(Value::Bool(false)),
            Ok(1) => Ok(Value::Bool(true)),
            Ok(b) => Err(ReadError::InvalidBool(b)),
            Err(e) => Err(e),
        },
        Type::S8 => {
            if buffered(r) == 0 {
                return Err(ReadError::UnexpectedEof);
            }
            Ok(Value::S8(get_i8(r)))
        },
        Type::U8 => match take_byte(r) {
            Ok(b) => Ok(Value::U8(b)),
            Err(e) => Err(e),
        },
        Type::S16 => match get_i16_leb128(r) {
            Ok(Some(x)) => Ok(Value::S16(x)),
            Ok(None) => Err(ReadError::UnexpectedEof),
            Err(_) => Err(ReadError::Overflow(16)),
        },
        Type::U16 => match get_u16_leb128(r) {
            Ok(Some(x)) => Ok(Value::U16(x)),
            Ok(None) => Err(ReadError::UnexpectedEof),
            Err(_) => Err(ReadError::Overflow(16)),
        },
        Type::S32 => match get_i32_leb128(r) {
            Ok(Some(x)) => Ok(Value::S32(x)),
            Ok(None) => Err(ReadError::UnexpectedEof),
            Err(_) => Err(ReadError::Overflow(32)),
        },
        Type::U32 => match take_u32(r) {
            Ok(x) => Ok(Value::U32(x)),
            Err(e) => Err(e),
        },
        Type::S64 => match get_i64_leb128(r) {
            Ok(Some(x)) => Ok(Value::S64(x)),
            Ok(None) => Err(ReadError::UnexpectedEof),
            Err(_) => Err(ReadError::Overflow(64)),
        },
        Type::U64 => match get_u64_leb128(r) {
            Ok(Some(x)) => Ok(Value::U64(x)),
            Ok(None) => Err(ReadError::UnexpectedEof),
            Err(_) => Err(ReadError::Overflow(64)),
        },
        Type::Float32 => {
            if buffered(r) < 4 {
                return Err(ReadError::UnexpectedEof);
            }
            Ok(Value::Float32(get_u32_le(r)))
        },
        Type::Float64 => {
            if buffered(r) < 8 {
                return Err(ReadError::UnexpectedEof);
            }
            Ok(Value::Float64(get_u64_le(r)))
        },
        Type::Char => match get_char(r) {
            Ok(Some(c)) => {
                proof {
                    char_u32_cast(c, decode_first_scalar(s));
                }
                Ok(Value::Char(c))
            },
            Ok(None) => Err(ReadError::UnexpectedEof),
            Err(_) => Err(ReadError::InvalidChar),
        },
        Type::String => take_name(r),
        Type::List(e) => {
            let n: u32 = match take_u32(r) {
                Ok(n) => n,
                Err(e) => {
                    return Err(e);
                },
            };
            let ghost k = number(uleb_read(s, 32), 32)->Ok_0.1;
            proof {
                lemma_list_within(s.skip(k as int), e@, n as nat);
            }
            match take_items(r, &**e, n) {
                Ok(vs) => {
                    proof {
                        let m = list_reading(s.skip(k as int), e@, n as nat)->Ok_0.1;
                        lemma_skips(s, k as int, m as int);
                        assert(views(vs@) =~= value_view(Value::List(vs))->List_0);
                    }
                    Ok(Value::List(vs))
                },
                Err(error) => {
                    proof {
                        let m = list_stopped(s.skip(k as int), e@, n as nat);
                        lemma_skips(s, k as int, m as int);
                    }
                    Err(error)
                },
            }
        },
        Type::Record(fields) => take_record(r, fields),
        Type::Tuple(types) => take_tuple(r, types),
        Type::Variant(cases) => take_variant(r, cases),
        Type::Enum(names) => match take_u32(r) {
            Ok(d) => {
                if d as usize >= names.len() {
                    return Err(ReadError::UnknownEnum(d));
                }
                Ok(Value::Enum(names[d as usize].clone()))
            },
            Err(e) => Err(e),
        },
        Type::Option(t) => take_option(r, &**t),
        Type::Result(ok, err) => take_result(r, ok, err, ty),
        Type::Flags(names) => take_flags(r, names),
        Type::Mapping(..) => Err(ReadError::Unsupported(Unsupported::Maps)),
        Type::Own(_) => Err(ReadError::Unsupported(Unsupported::Resources)),
        Type::Borrow(_) => Err(ReadError::Unsupported(Unsupported::Resources)),
        Type::Future(_) => Err(ReadError::Unsupported(Unsupported::Futures)),
        Type::Stream(_) => Err(ReadError::Unsupported(Unsupported::Streams)),
        Type::ErrorContext => Err(ReadError::Unsupported(Unsupported::ErrorContexts)),
    }
}

/// Takes a value of the type `ty` off the front of `r` and stores it in `val`.
/// Where there is none, `val` keeps what it held, and what was taken off is gone.
pub fn read_value(r: &mut bytes::BytesMut, val: &mut Value, ty: &Type) -> (res: Result<
    (),
    ReadError,
>)
    ensures
        match reading(contents(*old(r)), ty@) {
            Ok((v, n)) => res is Ok && final(val)@ == v && contents(*final(r)) == contents(
                *old(r),
            ).skip(n as int),
            Err(e) => res == Err::<(), ReadError>(e) && *final(val) == *old(val) && contents(
                *final(r),
            ) == contents(*old(r)).skip(stopped(contents(*old(r)), ty@) as int),
        },
{
    match take_value(r, ty) {
        Ok(v) => {
            *val = v;
            Ok(())
        },
        Err(e) => Err(e),
    }
}

} // verus!
