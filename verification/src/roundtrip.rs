//! What reading and writing values have to do with each other.
//!
//! [`round_trip`] is the law that the encoding is for: a value that was written as
//! a type is read back as that type, whatever stands behind it.

use vstd::arithmetic::power2::{
    lemma2_to64, lemma2_to64_rest, lemma_pow2_adds, lemma_pow2_pos, lemma_pow2_strictly_increases,
    pow2,
};
use vstd::prelude::*;
use vstd::utf8::{
    char_u32_cast, decode_first_scalar, decode_utf8, decode_utf8_encode_utf8, encode_scalar,
    encode_utf8, encode_utf8_decode_utf8, encode_utf8_first_scalar, encode_utf8_valid_utf8,
    length_of_first_scalar, pop_first_scalar, valid_first_scalar, valid_utf8,
};

use crate::codec::{
    case_names, encodes, encoding, flag_bytes, flag_len, flag_sum, flagged, is_first,
    lemma_position, list_encoding, position, record_encoding, shorter, tuple_encoding, wrote,
    EncodeError, EncodeErrorV, Encoded, Unsupported, ValEncoder,
};
use crate::decode::{
    bit_of, lemma_list_within, lemma_record_within, lemma_tuple_within, lemma_uleb_read_len,
    list_reading, list_stopped, read_value, reading, record_reading, record_stopped, set_flags,
    signed_byte, stopped, tuple_reading, tuple_stopped, ReadError, Reading,
};
use crate::types::{Type, TypeV};
use crate::value::{Value, ValueV};
use crate::wire::{
    contents, le_bytes, le_number, low_signed, scalar_dropped, scalar_pending, sleb, sleb_read,
    uleb, uleb_read, Leb,
};

verus! {

/// Those of the first `n` names that are in `set`, in the order of the names.
pub open spec fn chosen(names: Seq<Seq<char>>, set: Seq<Seq<char>>, n: nat) -> Seq<Seq<char>>
    decreases n,
{
    if n == 0 {
        Seq::empty()
    } else {
        let before = chosen(names, set, (n - 1) as nat);
        if set.contains(names[n - 1]) {
            before.push(names[n - 1])
        } else {
            before
        }
    }
}

/// Whether `v` is a value of the type `ty` that has an encoding: lengths fit in
/// 32 bits, a record has the fields of its type, and flags are in the order of
/// their type.
pub open spec fn has_type(v: ValueV, ty: TypeV) -> bool
    decreases v,
{
    match (v, ty) {
        (ValueV::Bool(_), TypeV::Bool) => true,
        (ValueV::S8(_), TypeV::S8) => true,
        (ValueV::U8(_), TypeV::U8) => true,
        (ValueV::S16(_), TypeV::S16) => true,
        (ValueV::U16(_), TypeV::U16) => true,
        (ValueV::S32(_), TypeV::S32) => true,
        (ValueV::U32(_), TypeV::U32) => true,
        (ValueV::S64(_), TypeV::S64) => true,
        (ValueV::U64(_), TypeV::U64) => true,
        (ValueV::Float32(_), TypeV::Float32) => true,
        (ValueV::Float64(_), TypeV::Float64) => true,
        (ValueV::Char(_), TypeV::Char) => true,
        (ValueV::String(s), TypeV::String) => encode_utf8(s).len() <= u32::MAX,
        (ValueV::List(vs), TypeV::List(e)) => {
            &&& vs.len() <= u32::MAX
            &&& forall|i: int| 0 <= i < vs.len() ==> has_type(#[trigger] vs[i], *e)
        },
        (ValueV::Record(vs), TypeV::Record(fields)) => {
            &&& vs.len() == fields.len()
            &&& forall|i: int|
                0 <= i < vs.len() ==> (#[trigger] vs[i]).0 == fields[i].0 && has_type(
                    vs[i].1,
                    fields[i].1,
                )
        },
        (ValueV::Tuple(vs), TypeV::Tuple(types)) => {
            &&& vs.len() == types.len()
            &&& forall|i: int| 0 <= i < vs.len() ==> has_type(#[trigger] vs[i], types[i])
        },
        (ValueV::Variant(name, payload), TypeV::Variant(cases)) => {
            &&& cases.len() <= u32::MAX
            &&& position(case_names(cases), name) matches Some(d) && match (
                payload,
                cases[d as int].1,
            ) {
                (Some(p), Some(t)) => has_type(*p, t),
                (None, None) => true,
                _ => false,
            }
        },
        (ValueV::Enum(name), TypeV::Enum(names)) => {
            &&& names.len() <= u32::MAX
            &&& position(names, name) is Some
        },
        (ValueV::Option(p), TypeV::Option(t)) => match p {
            Some(p) => has_type(*p, *t),
            None => true,
        },
        (ValueV::Result(r), TypeV::Result(ok, err)) => match r {
            Ok(p) => match (p, ok) {
                (Some(p), Some(t)) => has_type(*p, *t),
                (None, None) => true,
                _ => false,
            },
            Err(p) => match (p, err) {
                (Some(p), Some(t)) => has_type(*p, *t),
                (None, None) => true,
                _ => false,
            },
        },
        (ValueV::Flags(set), TypeV::Flags(names)) => set == chosen(names, set, names.len()),
        _ => false,
    }
}

proof fn lemma_uleb(n: nat, bits: nat, rest: Seq<u8>)
    requires
        1 <= bits,
        n < pow2(bits),
    ensures
        uleb_read(uleb(n) + rest, bits) == Leb::Number(n as int, uleb(n).len()),
    decreases n,
{
    lemma2_to64();
    let s = uleb(n) + rest;
    if bits <= 7 {
        if bits < 7 {
            lemma_pow2_strictly_increases(bits, 7);
        }
    } else if n >= 128 {
        let m = n / 128;
        lemma_pow2_adds(7, (bits - 7) as nat);
        assert(m < pow2((bits - 7) as nat)) by (nonlinear_arith)
            requires
                n < 128 * pow2((bits - 7) as nat),
                m == n / 128,
        ;
        lemma_uleb(m, (bits - 7) as nat, rest);
        assert(s.skip(1) =~= uleb(m) + rest);
    }
}

proof fn lemma_sleb(x: int, bits: nat, rest: Seq<u8>)
    requires
        1 <= bits,
        -pow2((bits - 1) as nat) <= x < pow2((bits - 1) as nat),
    ensures
        sleb_read(sleb(x) + rest, bits) == Leb::Number(x, sleb(x).len()),
    decreases
            if x < 0 {
                -x
            } else {
                x
            },
{
    lemma2_to64();
    let s = sleb(x) + rest;
    if bits <= 7 {
        if bits < 7 {
            lemma_pow2_strictly_increases((bits - 1) as nat, 6);
        }
        assert(-64 <= x < 64);
        assert(low_signed((x % 128) as u8) == x);
    } else if -64 <= x < 64 {
        assert(low_signed((x % 128) as u8) == x);
    } else {
        let half = pow2((bits - 8) as nat);
        lemma_pow2_adds(7, (bits - 8) as nat);
        let m = x / 128;
        assert(-half <= m < half) by (nonlinear_arith)
            requires
                -(128 * half) <= x < 128 * half,
                m == x / 128,
        ;
        lemma_sleb(m, (bits - 7) as nat, rest);
        assert(s.skip(1) =~= sleb(m) + rest);
    }
}

proof fn lemma_le(x: nat, n: nat, rest: Seq<u8>)
    requires
        x < pow2(8 * n),
    ensures
        le_bytes(x, n).len() == n,
        le_number(le_bytes(x, n) + rest, n) == x,
    decreases n,
{
    lemma2_to64();
    if n > 0 {
        let m = x / 256;
        lemma_pow2_adds(8, (8 * (n - 1)) as nat);
        assert(8 + (8 * (n - 1)) as nat == 8 * n);
        assert(m < pow2((8 * (n - 1)) as nat)) by (nonlinear_arith)
            requires
                x < 256 * pow2((8 * (n - 1)) as nat),
                m == x / 256,
        ;
        lemma_le(m, (n - 1) as nat, rest);
        assert((le_bytes(x, n) + rest).skip(1) =~= le_bytes(m, (n - 1) as nat) + rest);
    }
}

proof fn lemma_scalar(c: char, rest: Seq<u8>)
    ensures
        valid_first_scalar(encode_scalar(c as u32) + rest),
        decode_first_scalar(encode_scalar(c as u32) + rest) as char == c,
        length_of_first_scalar(encode_scalar(c as u32) + rest) == encode_scalar(c as u32).len(),
{
    let a = encode_scalar(c as u32);
    assert(seq![c].drop_first() =~= Seq::<char>::empty());
    assert(encode_utf8(seq![c]) =~= a) by {
        reveal_with_fuel(encode_utf8, 2);
    }
    encode_utf8_first_scalar(seq![c]);
    lemma_scalar_local(a, rest);
    char_u32_cast(c, decode_first_scalar(a));
}

/// A scalar that is complete does not depend on what follows it.
proof fn lemma_scalar_local(a: Seq<u8>, rest: Seq<u8>)
    requires
        valid_first_scalar(a),
    ensures
        valid_first_scalar(a + rest),
        decode_first_scalar(a + rest) == decode_first_scalar(a),
        length_of_first_scalar(a + rest) == length_of_first_scalar(a),
{
    let s = a + rest;
    assert(forall|i: int| 0 <= i < a.len() ==> s[i] == a[i]);
}

proof fn lemma_flag_bits(names: Seq<Seq<char>>, set: Seq<Seq<char>>, start: int, j: int)
    requires
        0 <= j < 8,
    ensures
        0 <= flag_sum(names, set, start, 8) < 256,
        bit_of(flag_sum(names, set, start, 8) as u8, j) == flagged(names, set, start + j),
{
    reveal_with_fuel(flag_sum, 9);
    let b = |k: int|
        if flagged(names, set, start + k) {
            1int
        } else {
            0int
        };
    let sum = flag_sum(names, set, start, 8);
    assert(sum == b(0) + 2 * b(1) + 4 * b(2) + 8 * b(3) + 16 * b(4) + 32 * b(5) + 64 * b(6) + 128
        * b(7));
    if j == 0 {
        assert(sum % 2 == b(0));
    } else if j == 1 {
        assert((sum / 2) % 2 == b(1));
    } else if j == 2 {
        assert((sum / 4) % 2 == b(2));
    } else if j == 3 {
        assert((sum / 8) % 2 == b(3));
    } else if j == 4 {
        assert((sum / 16) % 2 == b(4));
    } else if j == 5 {
        assert((sum / 32) % 2 == b(5));
    } else if j == 6 {
        assert((sum / 64) % 2 == b(6));
    } else {
        assert((sum / 128) % 2 == b(7));
    }
}

proof fn lemma_flags(names: Seq<Seq<char>>, set: Seq<Seq<char>>, rest: Seq<u8>, n: nat)
    requires
        n <= names.len(),
    ensures
        set_flags(names, flag_bytes(names, set) + rest, n) == chosen(names, set, n),
    decreases n,
{
    if n > 0 {
        let k = n - 1;
        lemma_flags(names, set, rest, k as nat);
        lemma_flag_bits(names, set, 8 * (k / 8), k % 8);
        assert(8 * (k / 8) + k % 8 == k);
        assert((flag_bytes(names, set) + rest)[k / 8] == flag_sum(
            names,
            set,
            8 * (k / 8),
            8,
        ) as u8);
    }
}

proof fn lemma_list(vs: Seq<ValueV>, ty: TypeV, n: nat, rest: Seq<u8>)
    requires
        n <= vs.len(),
        forall|i: int| 0 <= i < vs.len() ==> has_type(#[trigger] vs[i], ty),
    ensures
        list_encoding(vs, ty, n).error is None,
        list_reading(list_encoding(vs, ty, n).bytes + rest, ty, n) == Ok::<
            (Seq<ValueV>, nat),
            ReadError,
        >((vs.take(n as int), list_encoding(vs, ty, n).bytes.len())),
    decreases vs, n,
{
    if n == 0 {
        assert(vs.take(0) =~= Seq::<ValueV>::empty());
    } else {
        let before = list_encoding(vs, ty, (n - 1) as nat).bytes;
        let last = encoding(vs[n - 1], ty).bytes;
        lemma_list(vs, ty, (n - 1) as nat, last + rest);
        round_trip(vs[n - 1], ty, rest);
        let s = (before + last) + rest;
        assert(s =~= before + (last + rest));
        assert(s.skip(before.len() as int) =~= last + rest);
        assert(vs.take(n as int) =~= vs.take(n - 1).push(vs[n - 1]));
    }
}

proof fn lemma_record(
    vs: Seq<(Seq<char>, ValueV)>,
    fields: Seq<(Seq<char>, TypeV)>,
    n: nat,
    rest: Seq<u8>,
)
    requires
        n <= vs.len() == fields.len(),
        forall|i: int|
            0 <= i < vs.len() ==> (#[trigger] vs[i]).0 == fields[i].0 && has_type(
                vs[i].1,
                fields[i].1,
            ),
    ensures
        record_encoding(vs, fields, n).error is None,
        record_reading(record_encoding(vs, fields, n).bytes + rest, fields, n) == Ok::<
            (Seq<(Seq<char>, ValueV)>, nat),
            ReadError,
        >((vs.take(n as int), record_encoding(vs, fields, n).bytes.len())),
    decreases vs, n,
{
    if n == 0 {
        assert(vs.take(0) =~= Seq::<(Seq<char>, ValueV)>::empty());
    } else {
        let before = record_encoding(vs, fields, (n - 1) as nat).bytes;
        let last = encoding(vs[n - 1].1, fields[n - 1].1).bytes;
        lemma_record(vs, fields, (n - 1) as nat, last + rest);
        round_trip(vs[n - 1].1, fields[n - 1].1, rest);
        let s = (before + last) + rest;
        assert(s =~= before + (last + rest));
        assert(s.skip(before.len() as int) =~= last + rest);
        assert(vs.take(n as int) =~= vs.take(n - 1).push((fields[n - 1].0, vs[n - 1].1)));
    }
}

proof fn lemma_tuple(vs: Seq<ValueV>, types: Seq<TypeV>, n: nat, rest: Seq<u8>)
    requires
        n <= vs.len() == types.len(),
        forall|i: int| 0 <= i < vs.len() ==> has_type(#[trigger] vs[i], types[i]),
    ensures
        tuple_encoding(vs, types, n).error is None,
        tuple_reading(tuple_encoding(vs, types, n).bytes + rest, types, n) == Ok::<
            (Seq<ValueV>, nat),
            ReadError,
        >((vs.take(n as int), tuple_encoding(vs, types, n).bytes.len())),
    decreases vs, n,
{
    if n == 0 {
        assert(vs.take(0) =~= Seq::<ValueV>::empty());
    } else {
        let before = tuple_encoding(vs, types, (n - 1) as nat).bytes;
        let last = encoding(vs[n - 1], types[n - 1]).bytes;
        lemma_tuple(vs, types, (n - 1) as nat, last + rest);
        round_trip(vs[n - 1], types[n - 1], rest);
        let s = (before + last) + rest;
        assert(s =~= before + (last + rest));
        assert(s.skip(before.len() as int) =~= last + rest);
        assert(vs.take(n as int) =~= vs.take(n - 1).push(vs[n - 1]));
    }
}

/// The position of a name is a place at which it stands.
proof fn lemma_position_stands(names: Seq<Seq<char>>, name: Seq<char>)
    ensures
        position(names, name) matches Some(d) ==> d < names.len() && names[d as int] == name,
{
    if exists|i: int| is_first(names, name, i) {
        let i = choose|i: int| is_first(names, name, i);
        assert(is_first(names, name, i));
    }
}

/// What [`round_trip`] says of one value.
pub open spec fn comes_back(v: ValueV, ty: TypeV, rest: Seq<u8>) -> bool {
    &&& encoding(v, ty).error is None
    &&& reading(encoding(v, ty).bytes + rest, ty) == Reading::Ok(
        (v, encoding(v, ty).bytes.len()),
    )
}

proof fn lemma_unsigned_comes_back(v: ValueV, ty: TypeV, rest: Seq<u8>)
    requires
        has_type(v, ty),
        v is U16 || v is U32 || v is U64 || v is Bool || v is U8 || v is S8,
    ensures
        comes_back(v, ty, rest),
{
    lemma2_to64();
    let s = encoding(v, ty).bytes + rest;
    match (v, ty) {
        (ValueV::U16(x), TypeV::U16) => {
            lemma_uleb(x as nat, 16, rest);
        },
        (ValueV::U32(x), TypeV::U32) => {
            lemma_uleb(x as nat, 32, rest);
        },
        (ValueV::U64(x), TypeV::U64) => {
            lemma_uleb(x as nat, 64, rest);
        },
        (ValueV::S8(x), TypeV::S8) => {
            assert(signed_byte((x as int % 256) as u8) == x);
        },
        _ => {},
    }
}

proof fn lemma_signed_comes_back(v: ValueV, ty: TypeV, rest: Seq<u8>)
    requires
        has_type(v, ty),
        v is S16 || v is S32 || v is S64,
    ensures
        comes_back(v, ty, rest),
{
    lemma2_to64();
    lemma2_to64_rest();
    match (v, ty) {
        (ValueV::S16(x), TypeV::S16) => {
            lemma_sleb(x as int, 16, rest);
        },
        (ValueV::S32(x), TypeV::S32) => {
            lemma_sleb(x as int, 32, rest);
        },
        (ValueV::S64(x), TypeV::S64) => {
            lemma_sleb(x as int, 64, rest);
        },
        _ => {},
    }
}

proof fn lemma_plain_comes_back(v: ValueV, ty: TypeV, rest: Seq<u8>)
    requires
        has_type(v, ty),
        v is Float32 || v is Float64 || v is Char || v is String || v is Flags || v is Enum,
    ensures
        comes_back(v, ty, rest),
{
    lemma2_to64();
    let s = encoding(v, ty).bytes + rest;
    match (v, ty) {
        (ValueV::Float32(x), TypeV::Float32) => {
            lemma_le(x as nat, 4, rest);
        },
        (ValueV::Float64(x), TypeV::Float64) => {
            lemma_le(x as nat, 8, rest);
        },
        (ValueV::Char(c), TypeV::Char) => {
            lemma_scalar(c, rest);
        },
        (ValueV::String(text), TypeV::String) => {
            let bytes = encode_utf8(text);
            let head = uleb(bytes.len());
            lemma_uleb(bytes.len(), 32, bytes + rest);
            assert(s =~= head + (bytes + rest));
            assert(s.skip(head.len() as int).take(bytes.len() as int) =~= bytes);
            encode_utf8_valid_utf8(text);
            encode_utf8_decode_utf8(text);
        },
        (ValueV::Flags(set), TypeV::Flags(names)) => {
            lemma_flags(names, set, rest, names.len());
        },
        (ValueV::Enum(name), TypeV::Enum(names)) => {
            lemma_position_stands(names, name);
            lemma_uleb(position(names, name)->0, 32, rest);
        },
        _ => {},
    }
}

proof fn lemma_list_comes_back(vs: Seq<ValueV>, e: TypeV, rest: Seq<u8>)
    requires
        has_type(ValueV::List(vs), TypeV::List(Box::new(e))),
    ensures
        comes_back(ValueV::List(vs), TypeV::List(Box::new(e)), rest),
    decreases vs, vs.len() + 1,
{
    lemma2_to64();
    let ty = TypeV::List(Box::new(e));
    let s = encoding(ValueV::List(vs), ty).bytes + rest;
    let items = list_encoding(vs, e, vs.len()).bytes;
    let head = uleb(vs.len());
    lemma_uleb(vs.len(), 32, items + rest);
    lemma_list(vs, e, vs.len(), rest);
    assert(s =~= head + (items + rest));
    assert(s.skip(head.len() as int) =~= items + rest);
    assert(vs.take(vs.len() as int) =~= vs);
}

proof fn lemma_variant_comes_back(
    name: Seq<char>,
    payload: Option<Box<ValueV>>,
    cases: Seq<(Seq<char>, Option<TypeV>)>,
    rest: Seq<u8>,
)
    requires
        has_type(ValueV::Variant(name, payload), TypeV::Variant(cases)),
    ensures
        comes_back(ValueV::Variant(name, payload), TypeV::Variant(cases), rest),
    decreases payload, 0nat,
{
    lemma2_to64();
    let v = ValueV::Variant(name, payload);
    let s = encoding(v, TypeV::Variant(cases)).bytes + rest;
    lemma_position_stands(case_names(cases), name);
    let d = position(case_names(cases), name)->0;
    let head = uleb(d);
    match (payload, cases[d as int].1) {
        (Some(p), Some(t)) => {
            let inner = encoding(*p, t).bytes;
            lemma_uleb(d, 32, inner + rest);
            round_trip(*p, t, rest);
            assert(s =~= head + (inner + rest));
            assert(s.skip(head.len() as int) =~= inner + rest);
        },
        _ => {
            lemma_uleb(d, 32, rest);
        },
    }
}

proof fn lemma_status_comes_back(v: ValueV, ty: TypeV, rest: Seq<u8>)
    requires
        has_type(v, ty),
        v is Option || v is Result,
    ensures
        comes_back(v, ty, rest),
    decreases v, 0nat,
{
    let s = encoding(v, ty).bytes + rest;
    match (v, ty) {
        (ValueV::Option(Some(p)), TypeV::Option(t)) => {
            round_trip(*p, *t, rest);
            assert(s.skip(1) =~= encoding(*p, *t).bytes + rest);
        },
        (ValueV::Result(Ok(Some(p))), TypeV::Result(Some(t), _)) => {
            round_trip(*p, *t, rest);
            assert(s.skip(1) =~= encoding(*p, *t).bytes + rest);
        },
        (ValueV::Result(Err(Some(p))), TypeV::Result(_, Some(t))) => {
            round_trip(*p, *t, rest);
            assert(s.skip(1) =~= encoding(*p, *t).bytes + rest);
        },
        _ => {},
    }
}

/// A value that has a type is encoded without an error, and from the bytes,
/// whatever follows them, that value is read back and nothing more is taken.
pub proof fn round_trip(v: ValueV, ty: TypeV, rest: Seq<u8>)
    requires
        has_type(v, ty),
    ensures
        encoding(v, ty).error is None,
        reading(encoding(v, ty).bytes + rest, ty) == Reading::Ok(
            (v, encoding(v, ty).bytes.len()),
        ),
    decreases v, 1nat,
{
    match (v, ty) {
        (ValueV::List(vs), TypeV::List(e)) => {
            lemma_list_comes_back(vs, *e, rest);
        },
        (ValueV::Record(vs), TypeV::Record(fields)) => {
            lemma_record(vs, fields, vs.len(), rest);
            assert(vs.take(vs.len() as int) =~= vs);
        },
        (ValueV::Tuple(vs), TypeV::Tuple(types)) => {
            lemma_tuple(vs, types, vs.len(), rest);
            assert(vs.take(vs.len() as int) =~= vs);
        },
        (ValueV::Variant(name, payload), TypeV::Variant(cases)) => {
            lemma_variant_comes_back(name, payload, cases, rest);
        },
        (ValueV::Option(_), _) => {
            lemma_status_comes_back(v, ty, rest);
        },
        (ValueV::Result(_), _) => {
            lemma_status_comes_back(v, ty, rest);
        },
        _ => {
            if v is S16 || v is S32 || v is S64 {
                lemma_signed_comes_back(v, ty, rest);
            } else if v is Float32 || v is Float64 || v is Char || v is String || v is Flags
                || v is Enum {
                lemma_plain_comes_back(v, ty, rest);
            } else {
                lemma_unsigned_comes_back(v, ty, rest);
            }
        },
    }
}

/// Flags are read back in the order of their type, however they were given: those that
/// the type does not have are left out, and each other stands once for each of its names.
pub proof fn flags_come_back_in_order(
    set: Seq<Seq<char>>,
    names: Seq<Seq<char>>,
    rest: Seq<u8>,
)
    ensures
        encoding(ValueV::Flags(set), TypeV::Flags(names)).error is None,
        reading(
            encoding(ValueV::Flags(set), TypeV::Flags(names)).bytes + rest,
            TypeV::Flags(names),
        ) == Reading::Ok(
            (
                ValueV::Flags(chosen(names, set, names.len())),
                encoding(ValueV::Flags(set), TypeV::Flags(names)).bytes.len(),
            ),
        ),
{
    lemma_flags(names, set, rest, names.len());
}

/// A value with each of its flag sets put in the order of its type, however deep it
/// stands. Flags that the type does not have are left out.
pub open spec fn ordered(v: ValueV, ty: TypeV) -> ValueV
    decreases v,
{
    match (v, ty) {
        (ValueV::Flags(set), TypeV::Flags(names)) => ValueV::Flags(
            chosen(names, set, names.len()),
        ),
        (ValueV::List(vs), TypeV::List(e)) => ValueV::List(
            Seq::new(
                vs.len(),
                |i: int|
                    if 0 <= i < vs.len() {
                        ordered(vs[i], *e)
                    } else {
                        arbitrary()
                    },
            ),
        ),
        (ValueV::Record(vs), TypeV::Record(fields)) => ValueV::Record(
            Seq::new(
                vs.len(),
                |i: int|
                    if 0 <= i < vs.len() && i < fields.len() {
                        (vs[i].0, ordered(vs[i].1, fields[i].1))
                    } else {
                        vs[i]
                    },
            ),
        ),
        (ValueV::Tuple(vs), TypeV::Tuple(types)) => ValueV::Tuple(
            Seq::new(
                vs.len(),
                |i: int|
                    if 0 <= i < vs.len() && i < types.len() {
                        ordered(vs[i], types[i])
                    } else {
                        vs[i]
                    },
            ),
        ),
        (ValueV::Variant(name, Some(p)), TypeV::Variant(cases)) => match position(
            case_names(cases),
            name,
        ) {
            Some(d) => match cases[d as int].1 {
                Some(t) => ValueV::Variant(name, Some(Box::new(ordered(*p, t)))),
                None => v,
            },
            None => v,
        },
        (ValueV::Option(Some(p)), TypeV::Option(t)) => ValueV::Option(
            Some(Box::new(ordered(*p, *t))),
        ),
        (ValueV::Result(Ok(Some(p))), TypeV::Result(Some(t), _)) => ValueV::Result(
            Ok(Some(Box::new(ordered(*p, *t)))),
        ),
        (ValueV::Result(Err(Some(p))), TypeV::Result(_, Some(t))) => ValueV::Result(
            Err(Some(Box::new(ordered(*p, *t)))),
        ),
        _ => v,
    }
}

/// What is chosen are the names that are in the set.
proof fn lemma_chosen_contains(
    names: Seq<Seq<char>>,
    set: Seq<Seq<char>>,
    n: nat,
    name: Seq<char>,
)
    requires
        n <= names.len(),
    ensures
        chosen(names, set, n).contains(name) <==> set.contains(name) && exists|k: int|
            0 <= k < n && #[trigger] names[k] == name,
    decreases n,
{
    let now = chosen(names, set, n);
    if n > 0 {
        let before = chosen(names, set, (n - 1) as nat);
        lemma_chosen_contains(names, set, (n - 1) as nat, name);
        if set.contains(names[n - 1]) {
            assert(now == before.push(names[n - 1]));
            assert(now[now.len() - 1] == names[n - 1]);
            if before.contains(name) {
                let i = before.index_of(name);
                assert(now[i] == name);
            }
            if now.contains(name) && name != names[n - 1] {
                let i = now.index_of(name);
                assert(before[i] == name);
            }
        }
    }
}

proof fn lemma_chosen_flags(names: Seq<Seq<char>>, set: Seq<Seq<char>>, start: int, j: nat)
    ensures
        flag_sum(names, chosen(names, set, names.len()), start, j) == flag_sum(
            names,
            set,
            start,
            j,
        ),
    decreases j,
{
    if j > 0 {
        lemma_chosen_flags(names, set, start, (j - 1) as nat);
        let k = start + j - 1;
        if 0 <= k < names.len() {
            lemma_chosen_contains(names, set, names.len(), names[k]);
        }
    }
}

proof fn lemma_list_order(vs: Seq<ValueV>, ws: Seq<ValueV>, e: TypeV, n: nat)
    requires
        n <= vs.len() == ws.len(),
        forall|i: int| 0 <= i < vs.len() ==> #[trigger] ws[i] == ordered(vs[i], e),
    ensures
        list_encoding(ws, e, n) == list_encoding(vs, e, n),
    decreases vs, n,
{
    if n > 0 {
        lemma_list_order(vs, ws, e, (n - 1) as nat);
        order_is_not_written(vs[n - 1], e);
        assert(ws[n - 1] == ordered(vs[n - 1], e));
    }
}

proof fn lemma_record_order(
    vs: Seq<(Seq<char>, ValueV)>,
    ws: Seq<(Seq<char>, ValueV)>,
    fields: Seq<(Seq<char>, TypeV)>,
    n: nat,
)
    requires
        n <= vs.len() == ws.len(),
        n <= fields.len(),
        forall|i: int|
            0 <= i < vs.len() && i < fields.len() ==> #[trigger] ws[i] == (
                vs[i].0,
                ordered(vs[i].1, fields[i].1),
            ),
    ensures
        record_encoding(ws, fields, n) == record_encoding(vs, fields, n),
    decreases vs, n,
{
    if n > 0 {
        lemma_record_order(vs, ws, fields, (n - 1) as nat);
        order_is_not_written(vs[n - 1].1, fields[n - 1].1);
        assert(ws[n - 1] == (vs[n - 1].0, ordered(vs[n - 1].1, fields[n - 1].1)));
    }
}

proof fn lemma_tuple_order(vs: Seq<ValueV>, ws: Seq<ValueV>, types: Seq<TypeV>, n: nat)
    requires
        n <= vs.len() == ws.len(),
        n <= types.len(),
        forall|i: int|
            0 <= i < vs.len() && i < types.len() ==> #[trigger] ws[i] == ordered(vs[i], types[i]),
    ensures
        tuple_encoding(ws, types, n) == tuple_encoding(vs, types, n),
    decreases vs, n,
{
    if n > 0 {
        lemma_tuple_order(vs, ws, types, (n - 1) as nat);
        order_is_not_written(vs[n - 1], types[n - 1]);
        assert(ws[n - 1] == ordered(vs[n - 1], types[n - 1]));
    }
}

/// The order in which flags are given is not written, however deep they stand.
pub proof fn order_is_not_written(v: ValueV, ty: TypeV)
    ensures
        encoding(ordered(v, ty), ty) == encoding(v, ty),
    decreases v, 1nat,
{
    match (v, ty) {
        (ValueV::Flags(set), TypeV::Flags(names)) => {
            assert forall|i: int| 0 <= i < flag_len(names.len()) implies #[trigger] flag_sum(
                names,
                chosen(names, set, names.len()),
                8 * i,
                8,
            ) == flag_sum(names, set, 8 * i, 8) by {
                lemma_chosen_flags(names, set, 8 * i, 8);
            }
            assert(flag_bytes(names, chosen(names, set, names.len())) =~= flag_bytes(names, set));
        },
        (ValueV::List(vs), TypeV::List(e)) => {
            lemma_list_order(vs, ordered(v, ty)->List_0, *e, vs.len());
        },
        (ValueV::Record(vs), TypeV::Record(fields)) => {
            lemma_record_order(
                vs,
                ordered(v, ty)->Record_0,
                fields,
                shorter(vs.len(), fields.len()),
            );
        },
        (ValueV::Tuple(vs), TypeV::Tuple(types)) => {
            lemma_tuple_order(
                vs,
                ordered(v, ty)->Tuple_0,
                types,
                shorter(vs.len(), types.len()),
            );
        },
        (ValueV::Variant(name, Some(p)), TypeV::Variant(cases)) => {
            if let Some(d) = position(case_names(cases), name) {
                if let Some(t) = cases[d as int].1 {
                    order_is_not_written(*p, t);
                }
            }
        },
        (ValueV::Option(Some(p)), TypeV::Option(t)) => {
            order_is_not_written(*p, *t);
        },
        (ValueV::Result(Ok(Some(p))), TypeV::Result(Some(t), _)) => {
            order_is_not_written(*p, *t);
        },
        (ValueV::Result(Err(Some(p))), TypeV::Result(_, Some(t))) => {
            order_is_not_written(*p, *t);
        },
        _ => {},
    }
}

/// Flags that were put in order are in order.
pub proof fn chosen_flags_are_in_order(names: Seq<Seq<char>>, set: Seq<Seq<char>>)
    ensures
        has_type(ordered(ValueV::Flags(set), TypeV::Flags(names)), TypeV::Flags(names)),
{
    lemma_chosen_again(names, set, names.len());
}

proof fn lemma_chosen_again(names: Seq<Seq<char>>, set: Seq<Seq<char>>, n: nat)
    requires
        n <= names.len(),
    ensures
        chosen(names, chosen(names, set, names.len()), n) == chosen(names, set, n),
    decreases n,
{
    if n > 0 {
        lemma_chosen_again(names, set, (n - 1) as nat);
        lemma_chosen_contains(names, set, names.len(), names[n - 1]);
    }
}

/// A value whose flags stand in any order is encoded without an error, and what is read
/// back is the value with each of its flag sets put in the order of its type.
pub proof fn round_trip_in_order(v: ValueV, ty: TypeV, rest: Seq<u8>)
    requires
        has_type(ordered(v, ty), ty),
    ensures
        encoding(v, ty).error is None,
        reading(encoding(v, ty).bytes + rest, ty) == Reading::Ok(
            (ordered(v, ty), encoding(v, ty).bytes.len()),
        ),
{
    order_is_not_written(v, ty);
    round_trip(ordered(v, ty), ty, rest);
}

/// A value that has a type has its flags in the order of the type.
pub proof fn typed_values_are_in_order(v: ValueV, ty: TypeV)
    requires
        has_type(v, ty),
    ensures
        ordered(v, ty) == v,
    decreases v,
{
    match (v, ty) {
        (ValueV::List(vs), TypeV::List(e)) => {
            assert forall|i: int| 0 <= i < vs.len() implies ordered(#[trigger] vs[i], *e)
                == vs[i] by {
                typed_values_are_in_order(vs[i], *e);
            }
            assert(ordered(v, ty)->List_0 =~= vs);
        },
        (ValueV::Record(vs), TypeV::Record(fields)) => {
            assert forall|i: int| 0 <= i < vs.len() implies ordered(
                (#[trigger] vs[i]).1,
                fields[i].1,
            ) == vs[i].1 by {
                typed_values_are_in_order(vs[i].1, fields[i].1);
            }
            assert(ordered(v, ty)->Record_0 =~= vs);
        },
        (ValueV::Tuple(vs), TypeV::Tuple(types)) => {
            assert forall|i: int| 0 <= i < vs.len() implies ordered(#[trigger] vs[i], types[i])
                == vs[i] by {
                typed_values_are_in_order(vs[i], types[i]);
            }
            assert(ordered(v, ty)->Tuple_0 =~= vs);
        },
        (ValueV::Variant(name, Some(p)), TypeV::Variant(cases)) => {
            if let Some(d) = position(case_names(cases), name) {
                if let Some(t) = cases[d as int].1 {
                    typed_values_are_in_order(*p, t);
                }
            }
        },
        (ValueV::Option(Some(p)), TypeV::Option(t)) => {
            typed_values_are_in_order(*p, *t);
        },
        (ValueV::Result(Ok(Some(p))), TypeV::Result(Some(t), _)) => {
            typed_values_are_in_order(*p, *t);
        },
        (ValueV::Result(Err(Some(p))), TypeV::Result(_, Some(t))) => {
            typed_values_are_in_order(*p, *t);
        },
        _ => {},
    }
}

/// Two values of a type are encoded alike only if they are the same value, but for the
/// order of their flags.
pub proof fn encoding_is_injective(v: ValueV, w: ValueV, ty: TypeV)
    requires
        has_type(ordered(v, ty), ty),
        has_type(ordered(w, ty), ty),
    ensures
        encoding(v, ty).bytes == encoding(w, ty).bytes <==> ordered(v, ty) == ordered(w, ty),
{
    round_trip_in_order(v, ty, Seq::empty());
    round_trip_in_order(w, ty, Seq::empty());
    order_is_not_written(v, ty);
    order_is_not_written(w, ty);
}

/// No encoding of a value of a type begins another: values can be written one
/// behind the other and told apart again.
pub proof fn encoding_is_prefix_free(v: ValueV, w: ValueV, ty: TypeV, rest: Seq<u8>)
    requires
        has_type(ordered(v, ty), ty),
        has_type(ordered(w, ty), ty),
        encoding(w, ty).bytes == encoding(v, ty).bytes + rest,
    ensures
        ordered(v, ty) == ordered(w, ty),
        rest.len() == 0,
{
    round_trip_in_order(v, ty, rest);
    round_trip_in_order(w, ty, Seq::empty());
    assert(encoding(w, ty).bytes + Seq::<u8>::empty() =~= encoding(w, ty).bytes);
}

proof fn lemma_uleb_local(s: Seq<u8>, rest: Seq<u8>, bits: nat)
    requires
        !(uleb_read(s, bits) is More),
    ensures
        uleb_read(s + rest, bits) == uleb_read(s, bits),
    decreases bits,
{
    assert((s + rest)[0] == s[0]);
    if bits > 7 && s[0] >= 128 {
        lemma_uleb_local(s.skip(1), rest, (bits - 7) as nat);
        assert((s + rest).skip(1) =~= s.skip(1) + rest);
    }
}

proof fn lemma_sleb_local(s: Seq<u8>, rest: Seq<u8>, bits: nat)
    requires
        !(sleb_read(s, bits) is More),
    ensures
        sleb_read(s + rest, bits) == sleb_read(s, bits),
    decreases bits,
{
    assert((s + rest)[0] == s[0]);
    if bits > 7 && s[0] >= 128 {
        lemma_sleb_local(s.skip(1), rest, (bits - 7) as nat);
        assert((s + rest).skip(1) =~= s.skip(1) + rest);
    }
}

proof fn lemma_le_local(s: Seq<u8>, rest: Seq<u8>, n: nat)
    requires
        n <= s.len(),
    ensures
        le_number(s + rest, n) == le_number(s, n),
    decreases n,
{
    if n > 0 {
        lemma_le_local(s.skip(1), rest, (n - 1) as nat);
        assert((s + rest).skip(1) =~= s.skip(1) + rest);
    }
}

/// Two-byte forms below `c2`, three-byte forms with a second byte below `a0` and
/// four-byte forms with one below `90` are overlong.
proof fn lemma_overlong(b1: u8, b2: u8, b3: u8, b4: u8)
    ensures
        0xc0 <= b1 < 0xc2 && 0x80 <= b2 <= 0xbf ==> vstd::utf8::codepoint_width_2(b1, b2) < 0x80,
        b1 == 0xe0 && 0x80 <= b2 < 0xa0 && 0x80 <= b3 <= 0xbf ==> vstd::utf8::codepoint_width_3(
            b1,
            b2,
            b3,
        ) < 0x800,
        b1 == 0xf0 && 0x80 <= b2 < 0x90 && 0x80 <= b3 <= 0xbf && 0x80 <= b4 <= 0xbf
            ==> vstd::utf8::codepoint_width_4(b1, b2, b3, b4) < 0x10000,
{
    assert(0xc0 <= b1 < 0xc2 && 0x80 <= b2 <= 0xbf ==> vstd::utf8::codepoint_width_2(b1, b2)
        < 0x80) by (bit_vector);
    assert(b1 == 0xe0 && 0x80 <= b2 < 0xa0 && 0x80 <= b3 <= 0xbf
        ==> vstd::utf8::codepoint_width_3(b1, b2, b3) < 0x800) by (bit_vector);
    assert(b1 == 0xf0 && 0x80 <= b2 < 0x90 && 0x80 <= b3 <= 0xbf && 0x80 <= b4 <= 0xbf
        ==> vstd::utf8::codepoint_width_4(b1, b2, b3, b4) < 0x10000) by (bit_vector);
}

/// What is wrong with the start of a scalar stays wrong.
proof fn lemma_invalid_scalar_local(s: Seq<u8>, rest: Seq<u8>)
    requires
        !valid_first_scalar(s),
        !scalar_pending(s),
    ensures
        !valid_first_scalar(s + rest),
        !scalar_pending(s + rest),
{
    let t = s + rest;
    assert(forall|i: int| 0 <= i < s.len() ==> t[i] == s[i]);
    if t.len() >= 4 {
        lemma_overlong(t[0], t[1], t[2], t[3]);
    } else if t.len() == 3 {
        lemma_overlong(t[0], t[1], t[2], 0x80);
    } else if t.len() == 2 {
        lemma_overlong(t[0], t[1], 0x80, 0x80);
    }
}

proof fn lemma_set_flags_local(names: Seq<Seq<char>>, s: Seq<u8>, rest: Seq<u8>, n: nat)
    requires
        n <= names.len(),
        flag_len(names.len()) <= s.len(),
    ensures
        set_flags(names, s + rest, n) == set_flags(names, s, n),
    decreases n,
{
    if n > 0 {
        lemma_set_flags_local(names, s, rest, (n - 1) as nat);
        assert((s + rest)[(n - 1) / 8] == s[(n - 1) / 8]);
    }
}

pub open spec fn ended<T>(r: Result<T, ReadError>) -> bool {
    r matches Err(e) && e == ReadError::UnexpectedEof
}

proof fn lemma_list_local(s: Seq<u8>, rest: Seq<u8>, ty: TypeV, n: nat)
    requires
        !ended(list_reading(s, ty, n)),
    ensures
        list_reading(s + rest, ty, n) == list_reading(s, ty, n),
    decreases ty, n,
{
    if n > 0 {
        lemma_list_local(s, rest, ty, (n - 1) as nat);
        if let Ok((vs, k)) = list_reading(s, ty, (n - 1) as nat) {
            lemma_list_within(s, ty, (n - 1) as nat);
            reading_is_local(s.skip(k as int), rest, ty);
            assert((s + rest).skip(k as int) =~= s.skip(k as int) + rest);
        }
    }
}

proof fn lemma_record_local(
    s: Seq<u8>,
    rest: Seq<u8>,
    fields: Seq<(Seq<char>, TypeV)>,
    n: nat,
)
    requires
        n <= fields.len(),
        !ended(record_reading(s, fields, n)),
    ensures
        record_reading(s + rest, fields, n) == record_reading(s, fields, n),
    decreases fields, n,
{
    if n > 0 {
        lemma_record_local(s, rest, fields, (n - 1) as nat);
        if let Ok((vs, k)) = record_reading(s, fields, (n - 1) as nat) {
            lemma_record_within(s, fields, (n - 1) as nat);
            reading_is_local(s.skip(k as int), rest, fields[n - 1].1);
            assert((s + rest).skip(k as int) =~= s.skip(k as int) + rest);
        }
    }
}

proof fn lemma_tuple_local(s: Seq<u8>, rest: Seq<u8>, types: Seq<TypeV>, n: nat)
    requires
        n <= types.len(),
        !ended(tuple_reading(s, types, n)),
    ensures
        tuple_reading(s + rest, types, n) == tuple_reading(s, types, n),
    decreases types, n,
{
    if n > 0 {
        lemma_tuple_local(s, rest, types, (n - 1) as nat);
        if let Ok((vs, k)) = tuple_reading(s, types, (n - 1) as nat) {
            lemma_tuple_within(s, types, (n - 1) as nat);
            reading_is_local(s.skip(k as int), rest, types[n - 1]);
            assert((s + rest).skip(k as int) =~= s.skip(k as int) + rest);
        }
    }
}

proof fn lemma_number_local(s: Seq<u8>, rest: Seq<u8>, ty: TypeV)
    requires
        !ended(reading(s, ty)),
        ty is S16 || ty is U16 || ty is S32 || ty is U32 || ty is S64 || ty is U64,
    ensures
        reading(s + rest, ty) == reading(s, ty),
{
    match ty {
        TypeV::S16 => {
            lemma_sleb_local(s, rest, 16);
        },
        TypeV::U16 => {
            lemma_uleb_local(s, rest, 16);
        },
        TypeV::S32 => {
            lemma_sleb_local(s, rest, 32);
        },
        TypeV::U32 => {
            lemma_uleb_local(s, rest, 32);
        },
        TypeV::S64 => {
            lemma_sleb_local(s, rest, 64);
        },
        _ => {
            lemma_uleb_local(s, rest, 64);
        },
    }
}

proof fn lemma_plain_local(s: Seq<u8>, rest: Seq<u8>, ty: TypeV)
    requires
        !ended(reading(s, ty)),
        ty is Float32 || ty is Float64 || ty is Char || ty is String || ty is Flags || ty is Enum,
    ensures
        reading(s + rest, ty) == reading(s, ty),
{
    match ty {
        TypeV::Float32 => {
            lemma_le_local(s, rest, 4);
        },
        TypeV::Float64 => {
            lemma_le_local(s, rest, 8);
        },
        TypeV::Char => {
            if valid_first_scalar(s) {
                lemma_scalar_local(s, rest);
            } else {
                lemma_invalid_scalar_local(s, rest);
            }
        },
        TypeV::String => {
            lemma_uleb_local(s, rest, 32);
            lemma_uleb_read_len(s, 32);
            if let Leb::Number(len, n) = uleb_read(s, 32) {
                assert((s + rest).skip(n as int).take(len) =~= s.skip(n as int).take(len));
            }
        },
        TypeV::Flags(names) => {
            lemma_set_flags_local(names, s, rest, names.len());
        },
        _ => {
            lemma_uleb_local(s, rest, 32);
        },
    }
}

proof fn lemma_variant_local(s: Seq<u8>, rest: Seq<u8>, cases: Seq<(Seq<char>, Option<TypeV>)>)
    requires
        !ended(reading(s, TypeV::Variant(cases))),
    ensures
        reading(s + rest, TypeV::Variant(cases)) == reading(s, TypeV::Variant(cases)),
    decreases cases, 0nat,
{
    lemma_uleb_local(s, rest, 32);
    lemma_uleb_read_len(s, 32);
    if let Leb::Number(d, n) = uleb_read(s, 32) {
        if 0 <= d < cases.len() {
            assert((s + rest).skip(n as int) =~= s.skip(n as int) + rest);
            if let Some(t) = cases[d].1 {
                reading_is_local(s.skip(n as int), rest, t);
            }
        }
    }
}

/// Unless the bytes end inside a value, what is read, or what is found wrong, does
/// not depend on what follows: a reader that waits for more bytes exactly while it
/// meets the end of its buffer reads what it would have read from all of them.
pub proof fn reading_is_local(s: Seq<u8>, rest: Seq<u8>, ty: TypeV)
    requires
        reading(s, ty) != Reading::Err(ReadError::UnexpectedEof),
    ensures
        reading(s + rest, ty) == reading(s, ty),
    decreases ty, 0nat,
{
    match ty {
        TypeV::List(e) => {
            lemma_uleb_local(s, rest, 32);
            lemma_uleb_read_len(s, 32);
            if let Leb::Number(len, n) = uleb_read(s, 32) {
                assert((s + rest).skip(n as int) =~= s.skip(n as int) + rest);
                lemma_list_local(s.skip(n as int), rest, *e, len as nat);
            }
        },
        TypeV::Record(fields) => {
            lemma_record_local(s, rest, fields, fields.len());
        },
        TypeV::Tuple(types) => {
            lemma_tuple_local(s, rest, types, types.len());
        },
        TypeV::Variant(cases) => {
            lemma_variant_local(s, rest, cases);
        },
        TypeV::Option(t) => {
            assert((s + rest).skip(1) =~= s.skip(1) + rest);
            if s[0] == 1 {
                reading_is_local(s.skip(1), rest, *t);
            }
        },
        TypeV::Result(ok, err) => {
            assert((s + rest).skip(1) =~= s.skip(1) + rest);
            if s[0] == 0 && ok is Some {
                reading_is_local(s.skip(1), rest, *ok->0);
            } else if s[0] == 1 && err is Some {
                reading_is_local(s.skip(1), rest, *err->0);
            }
        },
        TypeV::Bool => {},
        TypeV::S8 => {},
        TypeV::U8 => {},
        _ => {
            if ty is S16 || ty is U16 || ty is S32 || ty is U32 || ty is S64 || ty is U64 {
                lemma_number_local(s, rest, ty);
            } else if ty is Float32 || ty is Float64 || ty is Char || ty is String || ty is Flags
                || ty is Enum {
                lemma_plain_local(s, rest, ty);
            }
        },
    }
}

/// Whether the names that stand in `ty` are told apart, and are few enough to be
/// numbered with 32 bits, wherever it has names. Types of components are so.
pub open spec fn proper(ty: TypeV) -> bool
    decreases ty,
{
    match ty {
        TypeV::List(e) => proper(*e),
        TypeV::Record(fields) => forall|i: int|
            0 <= i < fields.len() ==> proper((#[trigger] fields[i]).1),
        TypeV::Tuple(types) => forall|i: int| 0 <= i < types.len() ==> proper(#[trigger] types[i]),
        TypeV::Variant(cases) => {
            &&& cases.len() <= u32::MAX
            &&& case_names(cases).no_duplicates()
            &&& forall|i: int|
                0 <= i < cases.len() ==> ((#[trigger] cases[i]).1 matches Some(t) ==> proper(t))
        },
        TypeV::Enum(names) => names.len() <= u32::MAX && names.no_duplicates(),
        TypeV::Option(t) => proper(*t),
        TypeV::Result(ok, err) => {
            &&& ok matches Some(t) ==> proper(*t)
            &&& err matches Some(t) ==> proper(*t)
        },
        TypeV::Flags(names) => names.no_duplicates(),
        _ => true,
    }
}

proof fn lemma_uleb_bound(s: Seq<u8>, bits: nat)
    requires
        1 <= bits,
    ensures
        uleb_read(s, bits) matches Leb::Number(v, n) ==> 0 <= v < pow2(bits),
    decreases bits,
{
    lemma2_to64();
    if s.len() > 0 && bits > 7 {
        lemma_pow2_adds(7, (bits - 7) as nat);
        lemma_pow2_pos((bits - 7) as nat);
        let p = pow2((bits - 7) as nat);
        assert(128 * p >= 128) by (nonlinear_arith)
            requires
                p >= 1,
        ;
        if s[0] >= 128 {
            lemma_uleb_bound(s.skip(1), (bits - 7) as nat);
            if let Leb::Number(v, n) = uleb_read(s.skip(1), (bits - 7) as nat) {
                assert(128 * v + 128 <= 128 * p) by (nonlinear_arith)
                    requires
                        v + 1 <= p,
                ;
            }
        }
    }
}

/// Which names a set of flags holds.
proof fn lemma_set_flags_members(names: Seq<Seq<char>>, s: Seq<u8>, n: nat)
    requires
        n <= names.len(),
        names.no_duplicates(),
    ensures
        forall|k: int|
            0 <= k < names.len() ==> (set_flags(names, s, n).contains(#[trigger] names[k]) <==> k < n
                && bit_of(s[k / 8], k % 8)),
    decreases n,
{
    if n > 0 {
        let before = set_flags(names, s, (n - 1) as nat);
        let all = set_flags(names, s, n);
        lemma_set_flags_members(names, s, (n - 1) as nat);
        assert forall|k: int| 0 <= k < names.len() implies (all.contains(#[trigger] names[k])
            <==> k < n && bit_of(s[k / 8], k % 8)) by {
            if bit_of(s[(n - 1) / 8], (n - 1) % 8) {
                assert(all == before.push(names[n - 1]));
                assert(all[all.len() - 1] == names[n - 1]);
                if before.contains(names[k]) {
                    let i = choose|i: int| 0 <= i < before.len() && before[i] == names[k];
                    assert(all[i] == names[k]);
                }
                if all.contains(names[k]) && k != n - 1 {
                    let i = choose|i: int| 0 <= i < all.len() && all[i] == names[k];
                    assert(i < before.len());
                    assert(before[i] == names[k]);
                }
            }
        }
    }
}

proof fn lemma_set_flags_chosen(names: Seq<Seq<char>>, s: Seq<u8>, n: nat)
    requires
        n <= names.len(),
        names.no_duplicates(),
    ensures
        set_flags(names, s, n) == chosen(names, set_flags(names, s, names.len()), n),
    decreases n,
{
    lemma_set_flags_members(names, s, names.len());
    if n > 0 {
        lemma_set_flags_chosen(names, s, (n - 1) as nat);
        let _ = names[n - 1];
    }
}

proof fn lemma_list_typed(s: Seq<u8>, ty: TypeV, n: nat)
    requires
        proper(ty),
    ensures
        list_reading(s, ty, n) matches Ok((vs, k)) ==> vs.len() == n && forall|i: int|
            0 <= i < vs.len() ==> has_type(#[trigger] vs[i], ty),
    decreases ty, n,
{
    if n > 0 {
        lemma_list_typed(s, ty, (n - 1) as nat);
        if let Ok((vs, k)) = list_reading(s, ty, (n - 1) as nat) {
            reading_is_typed(s.skip(k as int), ty);
        }
    }
}

proof fn lemma_record_typed(s: Seq<u8>, fields: Seq<(Seq<char>, TypeV)>, n: nat)
    requires
        n <= fields.len(),
        forall|i: int| 0 <= i < fields.len() ==> proper((#[trigger] fields[i]).1),
    ensures
        record_reading(s, fields, n) matches Ok((vs, k)) ==> vs.len() == n && forall|i: int|
            0 <= i < vs.len() ==> (#[trigger] vs[i]).0 == fields[i].0 && has_type(
                vs[i].1,
                fields[i].1,
            ),
    decreases fields, n,
{
    if n > 0 {
        lemma_record_typed(s, fields, (n - 1) as nat);
        if let Ok((vs, k)) = record_reading(s, fields, (n - 1) as nat) {
            assert(proper(fields[n - 1].1));
            reading_is_typed(s.skip(k as int), fields[n - 1].1);
        }
    }
}

proof fn lemma_tuple_typed(s: Seq<u8>, types: Seq<TypeV>, n: nat)
    requires
        n <= types.len(),
        forall|i: int| 0 <= i < types.len() ==> proper(#[trigger] types[i]),
    ensures
        tuple_reading(s, types, n) matches Ok((vs, k)) ==> vs.len() == n && forall|i: int|
            0 <= i < vs.len() ==> has_type(#[trigger] vs[i], types[i]),
    decreases types, n,
{
    if n > 0 {
        lemma_tuple_typed(s, types, (n - 1) as nat);
        if let Ok((vs, k)) = tuple_reading(s, types, (n - 1) as nat) {
            assert(proper(types[n - 1]));
            reading_is_typed(s.skip(k as int), types[n - 1]);
        }
    }
}

proof fn lemma_variant_typed(s: Seq<u8>, cases: Seq<(Seq<char>, Option<TypeV>)>)
    requires
        proper(TypeV::Variant(cases)),
    ensures
        reading(s, TypeV::Variant(cases)) matches Ok((v, n)) ==> has_type(
            v,
            TypeV::Variant(cases),
        ),
    decreases cases, 0nat,
{
    if let Leb::Number(d, n) = uleb_read(s, 32) {
        if 0 <= d < cases.len() {
            let names = case_names(cases);
            assert(names[d] == cases[d].0);
            assert(is_first(names, names[d], d));
            lemma_position(names, names[d], d);
            if let Some(t) = cases[d].1 {
                assert(proper(t));
                reading_is_typed(s.skip(n as int), t);
            }
        }
    }
}

/// What is read as a type is a value of that type.
pub proof fn reading_is_typed(s: Seq<u8>, ty: TypeV)
    requires
        proper(ty),
    ensures
        reading(s, ty) matches Ok((v, n)) ==> has_type(v, ty),
    decreases ty, 0nat,
{
    lemma2_to64();
    match ty {
        TypeV::String => {
            lemma_uleb_bound(s, 32);
            lemma_uleb_read_len(s, 32);
            if let Leb::Number(len, n) = uleb_read(s, 32) {
                let bytes = s.skip(n as int).take(len);
                if len <= s.len() - n && valid_utf8(bytes) {
                    decode_utf8_encode_utf8(bytes);
                    assert(bytes.len() == len);
                }
            }
        },
        TypeV::List(e) => {
            lemma_uleb_bound(s, 32);
            if let Leb::Number(len, n) = uleb_read(s, 32) {
                lemma_list_typed(s.skip(n as int), *e, len as nat);
            }
        },
        TypeV::Record(fields) => {
            lemma_record_typed(s, fields, fields.len());
        },
        TypeV::Tuple(types) => {
            lemma_tuple_typed(s, types, types.len());
        },
        TypeV::Variant(cases) => {
            lemma_variant_typed(s, cases);
        },
        TypeV::Enum(names) => {
            if let Leb::Number(d, n) = uleb_read(s, 32) {
                if 0 <= d < names.len() {
                    assert(is_first(names, names[d], d));
                    lemma_position(names, names[d], d);
                }
            }
        },
        TypeV::Option(t) => {
            reading_is_typed(s.skip(1), *t);
        },
        TypeV::Result(ok, err) => {
            if let Some(t) = ok {
                reading_is_typed(s.skip(1), *t);
            }
            if let Some(t) = err {
                reading_is_typed(s.skip(1), *t);
            }
        },
        TypeV::Flags(names) => {
            lemma_set_flags_chosen(names, s, names.len());
        },
        _ => {},
    }
}

/// Maps, resources, futures, streams and error contexts are neither written nor
/// read, whatever the value or the bytes, and nothing is written for them.
pub proof fn unsupported_types_fail(v: ValueV, s: Seq<u8>, ty: TypeV)
    requires
        ty is Mapping || ty is Own || ty is Borrow || ty is Future || ty is Stream
            || ty is ErrorContext,
    ensures
        encoding(v, ty).bytes.len() == 0,
        encoding(v, ty).error matches Some(e) && e is Unsupported,
        reading(s, ty) matches Err(e) && e is Unsupported,
{
}

/// An ok is written as the byte 0 and an err as the byte 1, whatever the payload types
/// are, and the payload follows where there is one. Nothing is written where the value and
/// the type differ on whether there is one.
pub proof fn results_are_written_with_their_status(
    p: Option<Box<ValueV>>,
    ok: Option<Box<TypeV>>,
    err: Option<Box<TypeV>>,
)
    ensures
        ({
            let e = encoding(ValueV::Result(Ok(p)), TypeV::Result(ok, err));
            match (p, ok) {
                (Some(p), Some(t)) => {
                    &&& e.bytes == seq![0u8] + encoding(*p, *t).bytes
                    &&& e.error == match encoding(*p, *t).error {
                        Some(inner) => Some(EncodeErrorV::OkValue(Box::new(inner))),
                        None => None,
                    }
                },
                (None, None) => e.bytes == seq![0u8] && e.error is None,
                (Some(_), None) => e.bytes.len() == 0 && e.error == Some(
                    EncodeErrorV::OkUnknownType,
                ),
                (None, Some(_)) => e.bytes.len() == 0 && e.error == Some(EncodeErrorV::OkMissing),
            }
        }),
        ({
            let e = encoding(ValueV::Result(Err(p)), TypeV::Result(ok, err));
            match (p, err) {
                (Some(p), Some(t)) => {
                    &&& e.bytes == seq![1u8] + encoding(*p, *t).bytes
                    &&& e.error == match encoding(*p, *t).error {
                        Some(inner) => Some(EncodeErrorV::ErrValue(Box::new(inner))),
                        None => None,
                    }
                },
                (None, None) => e.bytes == seq![1u8] && e.error is None,
                (Some(_), None) => e.bytes.len() == 0 && e.error == Some(
                    EncodeErrorV::ErrUnknownType,
                ),
                (None, Some(_)) => e.bytes.len() == 0 && e.error == Some(EncodeErrorV::ErrMissing),
            }
        }),
{
}

/// Bytes that begin with 0 are read as an ok and bytes that begin with 1 as an err,
/// whatever the payload types are; the payload is read behind that byte. Nothing else is
/// a result.
pub proof fn results_are_read_by_their_status(
    s: Seq<u8>,
    ok: Option<Box<TypeV>>,
    err: Option<Box<TypeV>>,
)
    ensures
        ({
            let r = reading(s, TypeV::Result(ok, err));
            if s.len() == 0 {
                r == Reading::Err(ReadError::UnexpectedEof)
            } else if s[0] == 0 {
                match ok {
                    None => r == Reading::Ok((ValueV::Result(Ok(None)), 1)),
                    Some(t) => match reading(s.skip(1), *t) {
                        Ok((v, n)) => r == Reading::Ok(
                            (ValueV::Result(Ok(Some(Box::new(v)))), 1 + n),
                        ),
                        Err(e) => r == Reading::Err(e),
                    },
                }
            } else if s[0] == 1 {
                match err {
                    None => r == Reading::Ok((ValueV::Result(Err(None)), 1)),
                    Some(t) => match reading(s.skip(1), *t) {
                        Ok((v, n)) => r == Reading::Ok(
                            (ValueV::Result(Err(Some(Box::new(v)))), 1 + n),
                        ),
                        Err(e) => r == Reading::Err(e),
                    },
                }
            } else {
                r == Reading::Err(ReadError::InvalidResultStatus(s[0]))
            }
        }),
{
}

/// An absent value is written as the byte 0, a present one as the byte 1 and its own
/// encoding; they are read so, and no other byte begins an option.
pub proof fn options_have_a_status(p: ValueV, t: TypeV, s: Seq<u8>)
    ensures
        encoding(ValueV::Option(None), TypeV::Option(Box::new(t))).bytes == seq![0u8],
        encoding(ValueV::Option(None), TypeV::Option(Box::new(t))).error is None,
        ({
            let e = encoding(ValueV::Option(Some(Box::new(p))), TypeV::Option(Box::new(t)));
            &&& e.bytes == seq![1u8] + encoding(p, t).bytes
            &&& e.error == match encoding(p, t).error {
                Some(inner) => Some(EncodeErrorV::OptionValue(Box::new(inner))),
                None => None,
            }
        }),
        ({
            let r = reading(s, TypeV::Option(Box::new(t)));
            if s.len() == 0 {
                r == Reading::Err(ReadError::UnexpectedEof)
            } else if s[0] == 0 {
                r == Reading::Ok((ValueV::Option(None), 1))
            } else if s[0] == 1 {
                match reading(s.skip(1), t) {
                    Ok((v, n)) => r == Reading::Ok((ValueV::Option(Some(Box::new(v))), 1 + n)),
                    Err(e) => r == Reading::Err(e),
                }
            } else {
                r == Reading::Err(ReadError::InvalidOptionStatus(s[0]))
            }
        }),
{
}

/// False is the byte 0 and true the byte 1, a byte is itself, and a signed byte is its two's
/// complement, written and read.
pub proof fn bytes_are_themselves(b: bool, x: u8, y: i8, s: Seq<u8>)
    ensures
        encoding(ValueV::Bool(b), TypeV::Bool).bytes == seq![if b { 1u8 } else { 0u8 }],
        encoding(ValueV::Bool(b), TypeV::Bool).error is None,
        encoding(ValueV::U8(x), TypeV::U8).bytes == seq![x],
        encoding(ValueV::U8(x), TypeV::U8).error is None,
        encoding(ValueV::S8(y), TypeV::S8).bytes.len() == 1,
        encoding(ValueV::S8(y), TypeV::S8).bytes[0] == if y >= 0 { y as int } else { y + 256 },
        encoding(ValueV::S8(y), TypeV::S8).error is None,
        s.len() == 0 ==> reading(s, TypeV::Bool) == Reading::Err(ReadError::UnexpectedEof)
            && reading(s, TypeV::U8) == Reading::Err(ReadError::UnexpectedEof) && reading(
            s,
            TypeV::S8,
        ) == Reading::Err(ReadError::UnexpectedEof),
        s.len() > 0 && s[0] == 0 ==> reading(s, TypeV::Bool) == Reading::Ok(
            (ValueV::Bool(false), 1),
        ),
        s.len() > 0 && s[0] == 1 ==> reading(s, TypeV::Bool) == Reading::Ok(
            (ValueV::Bool(true), 1),
        ),
        s.len() > 0 && s[0] > 1 ==> reading(s, TypeV::Bool) == Reading::Err(
            ReadError::InvalidBool(s[0]),
        ),
        s.len() > 0 ==> reading(s, TypeV::U8) == Reading::Ok((ValueV::U8(s[0]), 1)),
        s.len() > 0 ==> (reading(s, TypeV::S8) matches Ok((v, n)) && n == 1 && (
        v matches ValueV::S8(z) && z == if s[0] < 128 { s[0] as int } else { s[0] - 256 })),
{
}

/// Integers of more than a byte are written in groups of seven bits, the lowest first; each
/// byte but the last has its high bit set.
pub proof fn unsigned_integers_are_written_in_groups(n: nat)
    ensures
        n < 128 ==> uleb(n) == seq![n as u8],
        n >= 128 ==> uleb(n).len() > 1 && uleb(n)[0] == 128 + n % 128 && uleb(n).skip(1) == uleb(
            n / 128,
        ),
        n <= u16::MAX ==> encoding(ValueV::U16(n as u16), TypeV::U16).bytes == uleb(n) && encoding(
            ValueV::U16(n as u16),
            TypeV::U16,
        ).error is None,
        n <= u32::MAX ==> encoding(ValueV::U32(n as u32), TypeV::U32).bytes == uleb(n) && encoding(
            ValueV::U32(n as u32),
            TypeV::U32,
        ).error is None,
        n <= u64::MAX ==> encoding(ValueV::U64(n as u64), TypeV::U64).bytes == uleb(n) && encoding(
            ValueV::U64(n as u64),
            TypeV::U64,
        ).error is None,
{
    if n >= 128 {
        assert(uleb(n).skip(1) =~= uleb(n / 128));
        assert(uleb(n / 128).len() > 0);
    }
}

/// Signed integers are written in groups of seven bits, the lowest first; the last group is
/// the first that tells the sign of what is left.
pub proof fn signed_integers_are_written_in_groups(x: int)
    ensures
        0 <= x < 64 ==> sleb(x) == seq![x as u8],
        -64 <= x < 0 ==> sleb(x) == seq![(x + 128) as u8],
        (x < -64 || 64 <= x) ==> sleb(x).len() > 1 && sleb(x)[0] == 128 + x % 128 && sleb(x).skip(1)
            == sleb(x / 128),
        i16::MIN <= x <= i16::MAX ==> encoding(ValueV::S16(x as i16), TypeV::S16).bytes == sleb(x)
            && encoding(ValueV::S16(x as i16), TypeV::S16).error is None,
        i32::MIN <= x <= i32::MAX ==> encoding(ValueV::S32(x as i32), TypeV::S32).bytes == sleb(x)
            && encoding(ValueV::S32(x as i32), TypeV::S32).error is None,
        i64::MIN <= x <= i64::MAX ==> encoding(ValueV::S64(x as i64), TypeV::S64).bytes == sleb(x)
            && encoding(ValueV::S64(x as i64), TypeV::S64).error is None,
{
    if x < -64 || 64 <= x {
        assert(sleb(x).skip(1) =~= sleb(x / 128));
        assert(sleb(x / 128).len() > 0);
    }
}

proof fn lemma_four_bytes(x: u32)
    ensures
        le_bytes(x as nat, 4) == seq![
            (x % 0x100) as u8,
            (x / 0x100 % 0x100) as u8,
            (x / 0x1_0000 % 0x100) as u8,
            (x / 0x100_0000) as u8,
        ],
{
    reveal_with_fuel(le_bytes, 5);
    assert(le_bytes(x as nat, 4) =~= seq![
        (x % 0x100) as u8,
        (x / 0x100 % 0x100) as u8,
        (x / 0x1_0000 % 0x100) as u8,
        (x / 0x100_0000) as u8,
    ]);
}

proof fn lemma_byte_step(low: nat, k: nat, n: nat)
    requires
        n > 0,
    ensures
        le_bytes(low + 256 * k, n) == seq![(low % 256) as u8] + le_bytes(
            low / 256 + k,
            (n - 1) as nat,
        ),
{
    assert((low + 256 * k) % 256 == low % 256 && (low + 256 * k) / 256 == low / 256 + k);
}

proof fn lemma_eight_bytes(y: u64)
    ensures
        le_bytes(y as nat, 8) == le_bytes((y % 0x1_0000_0000) as nat, 4) + le_bytes(
            (y / 0x1_0000_0000) as nat,
            4,
        ),
{
    let low = (y % 0x1_0000_0000) as nat;
    let high = (y / 0x1_0000_0000) as nat;
    assert(y == low + 256 * (0x100_0000 * high));
    let a = low / 256;
    let b = a / 256;
    let c = b / 256;
    lemma_byte_step(low, 0x100_0000 * high, 8);
    lemma_byte_step(a, 0x1_0000 * high, 7);
    lemma_byte_step(b, 0x100 * high, 6);
    lemma_byte_step(c, high, 5);
    lemma_byte_step(low, 0, 4);
    lemma_byte_step(a, 0, 3);
    lemma_byte_step(b, 0, 2);
    lemma_byte_step(c, 0, 1);
    assert(c / 256 == 0);
    let rest = le_bytes(high, 4);
    let d = seq![(c % 256) as u8];
    assert(le_bytes(c, 1) =~= d);
    assert(le_bytes(c + 256 * high, 5) =~= le_bytes(c, 1) + rest);
    assert(le_bytes(b + 256 * (0x100 * high), 6) =~= le_bytes(b, 2) + rest);
    assert(le_bytes(a + 256 * (0x1_0000 * high), 7) =~= le_bytes(a, 3) + rest);
    assert(le_bytes(low + 256 * (0x100_0000 * high), 8) =~= le_bytes(low, 4) + rest);
}

proof fn lemma_four_read(s: Seq<u8>)
    requires
        s.len() >= 4,
    ensures
        le_number(s, 4) == s[0] + 0x100 * s[1] + 0x1_0000 * s[2] + 0x100_0000 * s[3],
{
    reveal_with_fuel(le_number, 5);
    assert(s.skip(1).skip(1) =~= s.skip(2));
    assert(s.skip(2).skip(1) =~= s.skip(3));
}

proof fn lemma_eight_read(s: Seq<u8>)
    requires
        s.len() >= 8,
    ensures
        le_number(s, 8) == le_number(s, 4) + 0x1_0000_0000 * le_number(s.skip(4), 4),
{
    let t = s.skip(4);
    assert(s.skip(1).skip(1) =~= s.skip(2));
    assert(s.skip(2).skip(1) =~= s.skip(3));
    assert(s.skip(3).skip(1) =~= t);
    assert(le_number(s, 8) == s[0] + 256 * le_number(s.skip(1), 7));
    assert(le_number(s.skip(1), 7) == s[1] + 256 * le_number(s.skip(2), 6));
    assert(le_number(s.skip(2), 6) == s[2] + 256 * le_number(s.skip(3), 5));
    assert(le_number(s.skip(3), 5) == s[3] + 256 * le_number(t, 4));
    lemma_four_read(s);
}

/// Floats are written as their bits, the lowest byte first, and read so.
pub proof fn floats_are_little_endian(x: u32, y: u64, s: Seq<u8>)
    ensures
        encoding(ValueV::Float32(x), TypeV::Float32).error is None,
        encoding(ValueV::Float32(x), TypeV::Float32).bytes == seq![
            (x % 0x100) as u8,
            (x / 0x100 % 0x100) as u8,
            (x / 0x1_0000 % 0x100) as u8,
            (x / 0x100_0000) as u8,
        ],
        encoding(ValueV::Float64(y), TypeV::Float64).error is None,
        encoding(ValueV::Float64(y), TypeV::Float64).bytes == encoding(
            ValueV::Float32((y % 0x1_0000_0000) as u32),
            TypeV::Float32,
        ).bytes + encoding(
            ValueV::Float32((y / 0x1_0000_0000) as u32),
            TypeV::Float32,
        ).bytes,
        s.len() < 4 ==> reading(s, TypeV::Float32) == Reading::Err(ReadError::UnexpectedEof),
        s.len() < 8 ==> reading(s, TypeV::Float64) == Reading::Err(ReadError::UnexpectedEof),
        s.len() >= 4 ==> (reading(s, TypeV::Float32) matches Ok((v, n)) && n == 4 && (
        v matches ValueV::Float32(z) && z == s[0] + 0x100 * s[1] + 0x1_0000 * s[2] + 0x100_0000
            * s[3])),
        s.len() >= 8 ==> (reading(s, TypeV::Float64) matches Ok((v, n)) && n == 8 && (
        v matches ValueV::Float64(z) && z == s[0] + 0x100 * s[1] + 0x1_0000 * s[2] + 0x100_0000
            * s[3] + 0x1_0000_0000 * (s[4] + 0x100 * s[5] + 0x1_0000 * s[6] + 0x100_0000 * s[7]))),
{
    let low = (y % 0x1_0000_0000) as u32;
    let high = (y / 0x1_0000_0000) as u32;
    lemma_four_bytes(x);
    lemma_eight_bytes(y);
    if s.len() >= 4 {
        lemma_four_read(s);
    }
    if s.len() >= 8 {
        lemma_four_read(s.skip(4));
        lemma_eight_read(s);
    }
}

/// LEB128 integers are read group by group: a byte with its high bit set is followed by the
/// groups above it, and the last group has to fit into the bits that are left.
pub proof fn unsigned_integers_are_read_in_groups(s: Seq<u8>, bits: nat)
    requires
        bits > 0,
    ensures
        s.len() == 0 ==> uleb_read(s, bits) == Leb::More,
        s.len() > 0 && bits <= 7 ==> uleb_read(s, bits) == if s[0] < pow2(bits) {
            Leb::Number(s[0] as int, 1)
        } else {
            Leb::Overflow
        },
        s.len() > 0 && bits > 7 && s[0] < 128 ==> uleb_read(s, bits) == Leb::Number(s[0] as int, 1),
        s.len() > 0 && bits > 7 && s[0] >= 128 ==> match uleb_read(s.skip(1), (bits - 7) as nat) {
            Leb::Number(v, n) => uleb_read(s, bits) == Leb::Number(s[0] % 128 + 128 * v, n + 1),
            Leb::More => uleb_read(s, bits) == Leb::More,
            Leb::Overflow => uleb_read(s, bits) == Leb::Overflow,
        },
{
}

/// As [`unsigned_integers_are_read_in_groups`], the last group being a signed one.
pub proof fn signed_integers_are_read_in_groups(s: Seq<u8>, bits: nat)
    requires
        bits > 0,
    ensures
        s.len() == 0 ==> sleb_read(s, bits) == Leb::More,
        s.len() > 0 && bits > 7 && s[0] < 128 ==> sleb_read(s, bits) == Leb::Number(
            if s[0] < 64 {
                s[0] as int
            } else {
                s[0] - 128
            },
            1,
        ),
        s.len() > 0 && bits <= 7 ==> sleb_read(s, bits) == {
            let v = if s[0] < 64 {
                s[0] as int
            } else {
                s[0] - 128
            };
            if s[0] < 128 && -pow2((bits - 1) as nat) <= v < pow2((bits - 1) as nat) {
                Leb::Number(v, 1)
            } else {
                Leb::Overflow
            }
        },
        s.len() > 0 && bits > 7 && s[0] >= 128 ==> match sleb_read(s.skip(1), (bits - 7) as nat) {
            Leb::Number(v, n) => sleb_read(s, bits) == Leb::Number(s[0] % 128 + 128 * v, n + 1),
            Leb::More => sleb_read(s, bits) == Leb::More,
            Leb::Overflow => sleb_read(s, bits) == Leb::Overflow,
        },
{
}

proof fn lemma_sleb_bound(s: Seq<u8>, bits: nat)
    requires
        bits > 0,
    ensures
        sleb_read(s, bits) matches Leb::Number(v, n) ==> -pow2((bits - 1) as nat) <= v < pow2(
            (bits - 1) as nat,
        ),
    decreases bits,
{
    lemma2_to64();
    if bits > 7 {
        lemma_pow2_adds(7, (bits - 8) as nat);
        lemma_pow2_pos((bits - 8) as nat);
        assert(pow2((bits - 1) as nat) == 128 * pow2((bits - 8) as nat));
        if s.len() > 0 && s[0] >= 128 {
            lemma_sleb_bound(s.skip(1), (bits - 7) as nat);
            assert((bits - 7 - 1) as nat == (bits - 8) as nat);
        }
    }
}

/// An integer is read as the number that its bytes stand for, and takes those bytes; an
/// integer that ends early, or does not fit its type, is not read.
pub proof fn integers_are_read_as_their_numbers(s: Seq<u8>)
    ensures
        match uleb_read(s, 16) {
            Leb::Number(v, n) => reading(s, TypeV::U16) matches Ok((x, k)) && k == n && (
            x matches ValueV::U16(y) && y == v),
            Leb::More => reading(s, TypeV::U16) == Reading::Err(ReadError::UnexpectedEof),
            Leb::Overflow => reading(s, TypeV::U16) == Reading::Err(ReadError::Overflow(16)),
        },
        match uleb_read(s, 32) {
            Leb::Number(v, n) => reading(s, TypeV::U32) matches Ok((x, k)) && k == n && (
            x matches ValueV::U32(y) && y == v),
            Leb::More => reading(s, TypeV::U32) == Reading::Err(ReadError::UnexpectedEof),
            Leb::Overflow => reading(s, TypeV::U32) == Reading::Err(ReadError::Overflow(32)),
        },
        match uleb_read(s, 64) {
            Leb::Number(v, n) => reading(s, TypeV::U64) matches Ok((x, k)) && k == n && (
            x matches ValueV::U64(y) && y == v),
            Leb::More => reading(s, TypeV::U64) == Reading::Err(ReadError::UnexpectedEof),
            Leb::Overflow => reading(s, TypeV::U64) == Reading::Err(ReadError::Overflow(64)),
        },
        match sleb_read(s, 16) {
            Leb::Number(v, n) => reading(s, TypeV::S16) matches Ok((x, k)) && k == n && (
            x matches ValueV::S16(y) && y == v),
            Leb::More => reading(s, TypeV::S16) == Reading::Err(ReadError::UnexpectedEof),
            Leb::Overflow => reading(s, TypeV::S16) == Reading::Err(ReadError::Overflow(16)),
        },
        match sleb_read(s, 32) {
            Leb::Number(v, n) => reading(s, TypeV::S32) matches Ok((x, k)) && k == n && (
            x matches ValueV::S32(y) && y == v),
            Leb::More => reading(s, TypeV::S32) == Reading::Err(ReadError::UnexpectedEof),
            Leb::Overflow => reading(s, TypeV::S32) == Reading::Err(ReadError::Overflow(32)),
        },
        match sleb_read(s, 64) {
            Leb::Number(v, n) => reading(s, TypeV::S64) matches Ok((x, k)) && k == n && (
            x matches ValueV::S64(y) && y == v),
            Leb::More => reading(s, TypeV::S64) == Reading::Err(ReadError::UnexpectedEof),
            Leb::Overflow => reading(s, TypeV::S64) == Reading::Err(ReadError::Overflow(64)),
        },
{
    lemma2_to64();
    lemma2_to64_rest();
    lemma_uleb_bound(s, 16);
    lemma_uleb_bound(s, 32);
    lemma_uleb_bound(s, 64);
    lemma_sleb_bound(s, 16);
    lemma_sleb_bound(s, 32);
    lemma_sleb_bound(s, 64);
}

/// A text is written as the number of its UTF-8 bytes and those bytes, a character as its
/// UTF-8 bytes alone.
pub proof fn texts_are_written_in_utf8(s: Seq<char>, c: char)
    ensures
        ({
            let e = encoding(ValueV::String(s), TypeV::String);
            if encode_utf8(s).len() <= u32::MAX {
                e.error is None && e.bytes == uleb(encode_utf8(s).len()) + encode_utf8(s)
            } else {
                e.bytes.len() == 0 && e.error == Some(EncodeErrorV::StringTooLong)
            }
        }),
        encoding(ValueV::Char(c), TypeV::Char).error is None,
        encoding(ValueV::Char(c), TypeV::Char).bytes == encode_utf8(seq![c]),
{
    reveal_with_fuel(encode_utf8, 2);
    assert(seq![c].drop_first() =~= Seq::<char>::empty());
    assert(encode_scalar(c as u32) + Seq::<u8>::empty() =~= encode_scalar(c as u32));
}

/// A text is read as the text whose UTF-8 bytes stand behind their number.
pub proof fn texts_are_read_in_utf8(s: Seq<u8>)
    ensures
        match uleb_read(s, 32) {
            Leb::Number(len, k) => if s.len() - k < len {
                reading(s, TypeV::String) == Reading::Err(ReadError::UnexpectedEof)
            } else {
                match reading(s, TypeV::String) {
                    Ok((v, n)) => n == k + len && (v matches ValueV::String(t) && encode_utf8(t)
                        == s.subrange(k as int, k + len)),
                    Err(e) => e == ReadError::InvalidUtf8 && forall|t: Seq<char>| #[trigger]
                        encode_utf8(t) != s.subrange(k as int, k + len),
                }
            },
            Leb::More => reading(s, TypeV::String) == Reading::Err(ReadError::UnexpectedEof),
            Leb::Overflow => reading(s, TypeV::String) == Reading::Err(ReadError::Overflow(32)),
        },
{
    lemma_uleb_read_len(s, 32);
    if let Leb::Number(len, k) = uleb_read(s, 32) {
        if s.len() - k >= len {
            let bytes = s.skip(k as int).take(len);
            assert(bytes =~= s.subrange(k as int, k + len));
            if valid_utf8(bytes) {
                decode_utf8_encode_utf8(bytes);
            } else {
                assert forall|t: Seq<char>| #[trigger] encode_utf8(t) != bytes by {
                    encode_utf8_valid_utf8(t);
                }
            }
        }
    }
}

proof fn lemma_tuple_written(
    vs: Seq<ValueV>,
    ws: Seq<ValueV>,
    types: Seq<TypeV>,
    others: Seq<TypeV>,
    n: nat,
)
    requires
        n <= vs.len(),
        n <= ws.len(),
        n <= types.len(),
        n <= others.len(),
        forall|i: int| 0 <= i < n ==> vs[i] == ws[i] && types[i] == others[i],
    ensures
        tuple_encoding(vs, types, n) == tuple_encoding(ws, others, n),
    decreases n,
{
    if n > 0 {
        lemma_tuple_written(vs, ws, types, others, (n - 1) as nat);
    }
}

pub(crate) proof fn lemma_tuple_whole(vs: Seq<ValueV>, types: Seq<TypeV>)
    ensures
        encoding(ValueV::Tuple(vs), TypeV::Tuple(types)) == tuple_encoding(
            vs,
            types,
            shorter(vs.len(), types.len()),
        ),
{
}

proof fn lemma_tuple_step(vs: Seq<ValueV>, types: Seq<TypeV>, n: nat)
    requires
        0 < n <= vs.len(),
    ensures
        tuple_encoding(vs, types, n) == {
            let before = tuple_encoding(vs, types, (n - 1) as nat);
            let last = encoding(vs[n - 1], types[n - 1]);
            if before.error is Some {
                before
            } else {
                Encoded {
                    bytes: before.bytes + last.bytes,
                    error: match last.error {
                        Some(e) => Some(EncodeErrorV::TupleElement(Box::new(e))),
                        None => None,
                    },
                }
            }
        },
{
}

/// The elements of a tuple are written in order, one behind the other, up to the first that
/// fails.
pub proof fn tuples_are_written_in_order(
    vs: Seq<ValueV>,
    types: Seq<TypeV>,
    v: ValueV,
    t: TypeV,
)
    requires
        vs.len() == types.len(),
    ensures
        encoding(ValueV::Tuple(Seq::empty()), TypeV::Tuple(Seq::empty())).bytes.len() == 0,
        encoding(ValueV::Tuple(Seq::empty()), TypeV::Tuple(Seq::empty())).error is None,
        ({
            let before = encoding(ValueV::Tuple(vs), TypeV::Tuple(types));
            let now = encoding(ValueV::Tuple(vs.push(v)), TypeV::Tuple(types.push(t)));
            if before.error is Some {
                now == before
            } else {
                now.bytes == before.bytes + encoding(v, t).bytes && now.error == match encoding(
                    v,
                    t,
                ).error {
                    Some(e) => Some(EncodeErrorV::TupleElement(Box::new(e))),
                    None => None,
                }
            }
        }),
        encoding(ValueV::Tuple(vs.push(v)), TypeV::Tuple(types)) == encoding(
            ValueV::Tuple(vs),
            TypeV::Tuple(types),
        ),
        encoding(ValueV::Tuple(vs), TypeV::Tuple(types.push(t))) == encoding(
            ValueV::Tuple(vs),
            TypeV::Tuple(types),
        ),
{
    let n = vs.len();
    lemma_tuple_written(vs, vs.push(v), types, types.push(t), n);
    lemma_tuple_written(vs, vs.push(v), types, types, n);
    lemma_tuple_written(vs, vs, types, types.push(t), n);
    lemma_tuple_whole(Seq::empty(), Seq::empty());
    assert(tuple_encoding(Seq::empty(), Seq::empty(), 0) == wrote(Seq::empty()));
    lemma_tuple_whole(vs, types);
    lemma_tuple_whole(vs.push(v), types);
    lemma_tuple_whole(vs, types.push(t));
    lemma_tuple_whole(vs.push(v), types.push(t));
    lemma_tuple_step(vs.push(v), types.push(t), n + 1);
}

proof fn lemma_record_written(
    vs: Seq<(Seq<char>, ValueV)>,
    ws: Seq<(Seq<char>, ValueV)>,
    fields: Seq<(Seq<char>, TypeV)>,
    others: Seq<(Seq<char>, TypeV)>,
    n: nat,
)
    requires
        n <= vs.len(),
        n <= ws.len(),
        n <= fields.len(),
        n <= others.len(),
        forall|i: int| 0 <= i < n ==> vs[i] == ws[i] && fields[i] == others[i],
    ensures
        record_encoding(vs, fields, n) == record_encoding(ws, others, n),
    decreases n,
{
    if n > 0 {
        lemma_record_written(vs, ws, fields, others, (n - 1) as nat);
    }
}

proof fn lemma_record_whole(vs: Seq<(Seq<char>, ValueV)>, fields: Seq<(Seq<char>, TypeV)>)
    ensures
        encoding(ValueV::Record(vs), TypeV::Record(fields)) == record_encoding(
            vs,
            fields,
            shorter(vs.len(), fields.len()),
        ),
{
}

proof fn lemma_record_step(
    vs: Seq<(Seq<char>, ValueV)>,
    fields: Seq<(Seq<char>, TypeV)>,
    n: nat,
)
    requires
        0 < n <= vs.len(),
    ensures
        record_encoding(vs, fields, n) == {
            let before = record_encoding(vs, fields, (n - 1) as nat);
            let last = encoding(vs[n - 1].1, fields[n - 1].1);
            if before.error is Some {
                before
            } else {
                Encoded {
                    bytes: before.bytes + last.bytes,
                    error: match last.error {
                        Some(e) => Some(EncodeErrorV::Field(vs[n - 1].0, Box::new(e))),
                        None => None,
                    },
                }
            }
        },
{
}

/// The fields of a record are written in order, one behind the other and without their
/// names, up to the first that fails, which is named.
pub proof fn records_are_written_in_order(
    vs: Seq<(Seq<char>, ValueV)>,
    fields: Seq<(Seq<char>, TypeV)>,
    v: (Seq<char>, ValueV),
    t: (Seq<char>, TypeV),
)
    requires
        vs.len() == fields.len(),
    ensures
        encoding(ValueV::Record(Seq::empty()), TypeV::Record(Seq::empty())).bytes.len() == 0,
        encoding(ValueV::Record(Seq::empty()), TypeV::Record(Seq::empty())).error is None,
        ({
            let before = encoding(ValueV::Record(vs), TypeV::Record(fields));
            let now = encoding(ValueV::Record(vs.push(v)), TypeV::Record(fields.push(t)));
            if before.error is Some {
                now == before
            } else {
                now.bytes == before.bytes + encoding(v.1, t.1).bytes && now.error == match encoding(
                    v.1,
                    t.1,
                ).error {
                    Some(e) => Some(EncodeErrorV::Field(v.0, Box::new(e))),
                    None => None,
                }
            }
        }),
        encoding(ValueV::Record(vs.push(v)), TypeV::Record(fields)) == encoding(
            ValueV::Record(vs),
            TypeV::Record(fields),
        ),
        encoding(ValueV::Record(vs), TypeV::Record(fields.push(t))) == encoding(
            ValueV::Record(vs),
            TypeV::Record(fields),
        ),
{
    let n = vs.len();
    lemma_record_written(vs, vs.push(v), fields, fields.push(t), n);
    lemma_record_written(vs, vs.push(v), fields, fields, n);
    lemma_record_written(vs, vs, fields, fields.push(t), n);
    lemma_record_whole(Seq::empty(), Seq::empty());
    assert(record_encoding(Seq::empty(), Seq::empty(), 0) == wrote(Seq::empty()));
    lemma_record_whole(vs, fields);
    lemma_record_whole(vs.push(v), fields);
    lemma_record_whole(vs, fields.push(t));
    lemma_record_whole(vs.push(v), fields.push(t));
    lemma_record_step(vs.push(v), fields.push(t), n + 1);
}

proof fn lemma_list_as_tuple(vs: Seq<ValueV>, e: TypeV, types: Seq<TypeV>, n: nat)
    requires
        n <= vs.len() == types.len(),
        forall|i: int| 0 <= i < types.len() ==> types[i] == e,
    ensures
        list_encoding(vs, e, n).bytes == tuple_encoding(vs, types, n).bytes,
        match tuple_encoding(vs, types, n).error {
            Some(EncodeErrorV::TupleElement(x)) => list_encoding(vs, e, n).error == Some(
                EncodeErrorV::ListElement(x),
            ),
            Some(_) => false,
            None => list_encoding(vs, e, n).error is None,
        },
    decreases n,
{
    if n > 0 {
        lemma_list_as_tuple(vs, e, types, (n - 1) as nat);
    }
}

/// A list is written as the number of its elements, and those as a tuple of so many.
pub proof fn lists_are_written_behind_their_length(vs: Seq<ValueV>, e: TypeV)
    ensures
        ({
            let now = encoding(ValueV::List(vs), TypeV::List(Box::new(e)));
            let items = encoding(
                ValueV::Tuple(vs),
                TypeV::Tuple(Seq::new(vs.len(), |i: int| e)),
            );
            if vs.len() > u32::MAX {
                now.bytes.len() == 0 && now.error == Some(EncodeErrorV::ListTooLong)
            } else {
                now.bytes == uleb(vs.len()) + items.bytes && match items.error {
                    Some(EncodeErrorV::TupleElement(x)) => now.error == Some(
                        EncodeErrorV::ListElement(x),
                    ),
                    Some(_) => false,
                    None => now.error is None,
                }
            }
        }),
{
    lemma_list_as_tuple(vs, e, Seq::new(vs.len(), |i: int| e), vs.len());
}

/// A case is written as the number of cases before the first of its name, and its payload
/// behind it. A name that no case has is refused.
pub proof fn variants_are_written_by_their_places(
    cases: Seq<(Seq<char>, Option<TypeV>)>,
    name: Seq<char>,
    payload: Option<Box<ValueV>>,
    i: int,
)
    requires
        0 <= i <= cases.len(),
        forall|j: int| 0 <= j < i ==> (#[trigger] cases[j]).0 != name,
        i < cases.len() ==> cases[i].0 == name,
    ensures
        ({
            let e = encoding(ValueV::Variant(name, payload), TypeV::Variant(cases));
            if cases.len() > u32::MAX {
                e.bytes.len() == 0 && e.error == Some(EncodeErrorV::TooManyCases)
            } else if i == cases.len() {
                e.bytes.len() == 0 && e.error == Some(EncodeErrorV::UnknownVariant)
            } else {
                match (payload, cases[i].1) {
                    (None, _) => e.bytes == uleb(i as nat) && e.error is None,
                    (Some(_), None) => e.bytes == uleb(i as nat) && e.error == Some(
                        EncodeErrorV::VariantTypeMissing,
                    ),
                    (Some(p), Some(t)) => e.bytes == uleb(i as nat) + encoding(*p, t).bytes
                        && e.error == match encoding(*p, t).error {
                        Some(x) => Some(EncodeErrorV::VariantValue(Box::new(x))),
                        None => None,
                    },
                }
            }
        }),
{
    let names = case_names(cases);
    if i < cases.len() {
        assert forall|j: int| 0 <= j < i implies names[j] != name by {
            assert(cases[j].0 != name);
        }
        assert(is_first(names, name, i));
        lemma_position(names, name, i);
    } else {
        assert forall|j: int| !is_first(names, name, j) by {
            if 0 <= j < cases.len() {
                assert(cases[j].0 != name);
            }
        }
    }
}

/// An enum case is written as the number of cases before the first of its name. A name that
/// no case has is refused.
pub proof fn enums_are_written_by_their_places(names: Seq<Seq<char>>, name: Seq<char>, i: int)
    requires
        0 <= i <= names.len(),
        forall|j: int| 0 <= j < i ==> #[trigger] names[j] != name,
        i < names.len() ==> names[i] == name,
    ensures
        ({
            let e = encoding(ValueV::Enum(name), TypeV::Enum(names));
            if names.len() > u32::MAX {
                e.bytes.len() == 0 && e.error == Some(EncodeErrorV::TooManyNames)
            } else if i == names.len() {
                e.bytes.len() == 0 && e.error == Some(EncodeErrorV::UnknownEnum)
            } else {
                e.bytes == uleb(i as nat) && e.error is None
            }
        }),
{
    if i < names.len() {
        assert(is_first(names, name, i));
        lemma_position(names, name, i);
    } else {
        assert forall|j: int| !is_first(names, name, j) by {
            if 0 <= j < names.len() {
                assert(names[j] != name);
            }
        }
    }
}

/// The case that is read is the one whose place the number is, with the payload behind it.
pub proof fn cases_are_read_by_their_places(
    s: Seq<u8>,
    cases: Seq<(Seq<char>, Option<TypeV>)>,
    names: Seq<Seq<char>>,
)
    ensures
        match uleb_read(s, 32) {
            Leb::More => reading(s, TypeV::Variant(cases)) == Reading::Err(
                ReadError::UnexpectedEof,
            ) && reading(s, TypeV::Enum(names)) == Reading::Err(ReadError::UnexpectedEof),
            Leb::Overflow => reading(s, TypeV::Variant(cases)) == Reading::Err(
                ReadError::Overflow(32),
            ) && reading(s, TypeV::Enum(names)) == Reading::Err(ReadError::Overflow(32)),
            Leb::Number(d, n) => {
                &&& d < names.len() ==> reading(s, TypeV::Enum(names)) == Reading::Ok(
                    (ValueV::Enum(names[d]), n),
                )
                &&& d >= names.len() ==> reading(s, TypeV::Enum(names)) == Reading::Err(
                    ReadError::UnknownEnum(d as u32),
                )
                &&& d >= cases.len() ==> reading(s, TypeV::Variant(cases)) == Reading::Err(
                    ReadError::UnknownVariant(d as u32),
                )
                &&& d < cases.len() ==> match cases[d].1 {
                    None => reading(s, TypeV::Variant(cases)) == Reading::Ok(
                        (ValueV::Variant(cases[d].0, None), n),
                    ),
                    Some(t) => match reading(s.skip(n as int), t) {
                        Ok((v, k)) => reading(s, TypeV::Variant(cases)) == Reading::Ok(
                            (ValueV::Variant(cases[d].0, Some(Box::new(v))), n + k),
                        ),
                        Err(e) => reading(s, TypeV::Variant(cases)) == Reading::Err(e),
                    },
                }
                &&& 0 <= d <= u32::MAX
            },
        },
{
    lemma2_to64();
    lemma_uleb_bound(s, 32);
}

pub(crate) proof fn lemma_tuple_read(s: Seq<u8>, types: Seq<TypeV>, others: Seq<TypeV>, n: nat)
    requires
        n <= types.len(),
        n <= others.len(),
        forall|i: int| 0 <= i < n ==> types[i] == others[i],
    ensures
        tuple_reading(s, types, n) == tuple_reading(s, others, n),
        tuple_stopped(s, types, n) == tuple_stopped(s, others, n),
    decreases n,
{
    if n > 0 {
        lemma_tuple_read(s, types, others, (n - 1) as nat);
    }
}

/// The elements of a tuple are read in order, each from where the one before it ended.
pub proof fn tuples_are_read_in_order(s: Seq<u8>, types: Seq<TypeV>, t: TypeV)
    ensures
        reading(s, TypeV::Tuple(Seq::empty())) == Reading::Ok((ValueV::Tuple(Seq::empty()), 0)),
        match reading(s, TypeV::Tuple(types)) {
            Err(e) => reading(s, TypeV::Tuple(types.push(t))) == Reading::Err(e),
            Ok((v, n)) => v matches ValueV::Tuple(vs) && vs.len() == types.len() && match reading(
                s.skip(n as int),
                t,
            ) {
                Ok((x, k)) => reading(s, TypeV::Tuple(types.push(t))) == Reading::Ok(
                    (ValueV::Tuple(vs.push(x)), n + k),
                ),
                Err(e) => reading(s, TypeV::Tuple(types.push(t))) == Reading::Err(e),
            },
        },
{
    let all = types.push(t);
    let n = types.len();
    lemma_tuple_read(s, types, all, n);
    lemma_tuple_within(s, types, n);
    assert(tuple_reading(s, Seq::empty(), 0) == Ok::<(Seq<ValueV>, nat), ReadError>(
        (Seq::empty(), 0),
    ));
    assert(tuple_reading(s, all, n + 1) == match tuple_reading(s, all, n) {
        Ok((vs, k)) => match reading(s.skip(k as int), t) {
            Ok((v, m)) => Ok((vs.push(v), k + m)),
            Err(e) => Err(e),
        },
        Err(e) => Err(e),
    });
}

proof fn lemma_record_read(
    s: Seq<u8>,
    fields: Seq<(Seq<char>, TypeV)>,
    others: Seq<(Seq<char>, TypeV)>,
    n: nat,
)
    requires
        n <= fields.len(),
        n <= others.len(),
        forall|i: int| 0 <= i < n ==> fields[i] == others[i],
    ensures
        record_reading(s, fields, n) == record_reading(s, others, n),
        record_stopped(s, fields, n) == record_stopped(s, others, n),
    decreases n,
{
    if n > 0 {
        lemma_record_read(s, fields, others, (n - 1) as nat);
    }
}

/// The fields of a record are read in order, each under its name and from where the one
/// before it ended.
pub proof fn records_are_read_in_order(
    s: Seq<u8>,
    fields: Seq<(Seq<char>, TypeV)>,
    t: (Seq<char>, TypeV),
)
    ensures
        reading(s, TypeV::Record(Seq::empty())) == Reading::Ok((ValueV::Record(Seq::empty()), 0)),
        match reading(s, TypeV::Record(fields)) {
            Err(e) => reading(s, TypeV::Record(fields.push(t))) == Reading::Err(e),
            Ok((v, n)) => v matches ValueV::Record(vs) && vs.len() == fields.len() && match reading(
                s.skip(n as int),
                t.1,
            ) {
                Ok((x, k)) => reading(s, TypeV::Record(fields.push(t))) == Reading::Ok(
                    (ValueV::Record(vs.push((t.0, x))), n + k),
                ),
                Err(e) => reading(s, TypeV::Record(fields.push(t))) == Reading::Err(e),
            },
        },
{
    let all = fields.push(t);
    let n = fields.len();
    lemma_record_read(s, fields, all, n);
    lemma_record_within(s, fields, n);
    assert(record_reading(s, Seq::empty(), 0) == Ok::<(Seq<(Seq<char>, ValueV)>, nat), ReadError>(
        (Seq::empty(), 0),
    ));
    assert(record_reading(s, all, n + 1) == match record_reading(s, all, n) {
        Ok((vs, k)) => match reading(s.skip(k as int), t.1) {
            Ok((v, m)) => Ok((vs.push((t.0, v)), k + m)),
            Err(e) => Err(e),
        },
        Err(e) => Err(e),
    });
}

proof fn lemma_list_read_as_tuple(s: Seq<u8>, e: TypeV, types: Seq<TypeV>, n: nat)
    requires
        n <= types.len(),
        forall|i: int| 0 <= i < types.len() ==> types[i] == e,
    ensures
        list_reading(s, e, n) == tuple_reading(s, types, n),
        list_stopped(s, e, n) == tuple_stopped(s, types, n),
    decreases n,
{
    if n > 0 {
        lemma_list_read_as_tuple(s, e, types, (n - 1) as nat);
    }
}

/// A list is read as the number of its elements, and those as a tuple of so many.
pub proof fn lists_are_read_behind_their_length(s: Seq<u8>, e: TypeV)
    ensures
        match uleb_read(s, 32) {
            Leb::More => reading(s, TypeV::List(Box::new(e))) == Reading::Err(
                ReadError::UnexpectedEof,
            ),
            Leb::Overflow => reading(s, TypeV::List(Box::new(e))) == Reading::Err(
                ReadError::Overflow(32),
            ),
            Leb::Number(len, n) => match reading(
                s.skip(n as int),
                TypeV::Tuple(Seq::new(len as nat, |i: int| e)),
            ) {
                Ok((v, k)) => v matches ValueV::Tuple(vs) && vs.len() == len && reading(
                    s,
                    TypeV::List(Box::new(e)),
                ) == Reading::Ok((ValueV::List(vs), n + k)),
                Err(x) => reading(s, TypeV::List(Box::new(e))) == Reading::Err(x),
            },
        },
{
    lemma_uleb_read_len(s, 32);
    if let Leb::Number(len, n) = uleb_read(s, 32) {
        let types = Seq::new(len as nat, |i: int| e);
        lemma_list_read_as_tuple(s.skip(n as int), e, types, len as nat);
        lemma_tuple_within(s.skip(n as int), types, len as nat);
    }
}

/// Flag `k` of a type is bit `k % 8` of byte `k / 8`: set where the flag is given, and only
/// then. There is one byte for each eight flags, but at least one, and no other bit is set.
pub proof fn flags_are_written_as_bits(names: Seq<Seq<char>>, set: Seq<Seq<char>>, k: nat)
    ensures
        ({
            let e = encoding(ValueV::Flags(set), TypeV::Flags(names));
            let bit = seq![1int, 2, 4, 8, 16, 32, 64, 128][k as int % 8];
            &&& e.error is None
            &&& names.len() == 0 ==> e.bytes.len() == 1
            &&& names.len() > 0 ==> 8 * (e.bytes.len() - 1) < names.len() <= 8 * e.bytes.len()
            &&& k < 8 * e.bytes.len() ==> ((e.bytes[k as int / 8] as int / bit) % 2 == 1 <==> k
                < names.len() && set.contains(names[k as int]))
        }),
{
    let bytes = flag_bytes(names, set);
    if k < 8 * bytes.len() {
        let i = k as int / 8;
        let j = k as int % 8;
        lemma_flag_bits(names, set, 8 * i, j);
        assert(8 * i + j == k);
        assert(bit_of(bytes[i], j) == flagged(names, set, k as int));
    }
}

proof fn lemma_set_flags_part(
    names: Seq<Seq<char>>,
    others: Seq<Seq<char>>,
    s: Seq<u8>,
    n: nat,
)
    requires
        n <= names.len(),
        n <= others.len(),
        forall|i: int| 0 <= i < n ==> names[i] == others[i],
    ensures
        set_flags(names, s, n) == set_flags(others, s, n),
    decreases n,
{
    if n > 0 {
        lemma_set_flags_part(names, others, s, (n - 1) as nat);
    }
}

/// Flags are read off their bits, in the order of their type: one more flag is read where
/// its bit is set.
pub proof fn flags_are_read_off_their_bits(names: Seq<Seq<char>>, name: Seq<char>, s: Seq<u8>)
    ensures
        s.len() > 0 ==> reading(s, TypeV::Flags(Seq::empty())) == Reading::Ok(
            (ValueV::Flags(Seq::empty()), 1),
        ),
        8 * s.len() <= names.len() ==> reading(s, TypeV::Flags(names.push(name))) == Reading::Err(
            ReadError::UnexpectedEof,
        ),
        8 * s.len() > names.len() ==> ({
            let k = names.len() as int;
            let bit = seq![1int, 2, 4, 8, 16, 32, 64, 128][k % 8];
            match (reading(s, TypeV::Flags(names)), reading(s, TypeV::Flags(names.push(name)))) {
                (Ok((ValueV::Flags(before), _)), Ok((ValueV::Flags(now), n))) => n == k / 8 + 1
                    && now == if (s[k / 8] as int / bit) % 2 == 1 {
                    before.push(name)
                } else {
                    before
                },
                _ => false,
            }
        }),
{
    let k = names.len();
    lemma_set_flags_part(names, names.push(name), s, k);
    assert(set_flags(Seq::empty(), s, 0) == Seq::<Seq<char>>::empty());
}

/// A character is read off its UTF-8 bytes and takes them; bytes that may yet become one are
/// waited for, and others are refused.
pub proof fn characters_are_read_in_utf8(s: Seq<u8>, c: char, rest: Seq<u8>)
    ensures
        s == encode_utf8(seq![c]) + rest ==> reading(s, TypeV::Char) == Reading::Ok(
            (ValueV::Char(c), encode_utf8(seq![c]).len()),
        ),
        s.len() == 0 ==> reading(s, TypeV::Char) == Reading::Err(ReadError::UnexpectedEof),
        reading(s, TypeV::Char) matches Ok((v, n)) ==> n <= s.len() && (v matches ValueV::Char(x)
            && encode_utf8(seq![x]) == s.take(n as int)),
{
    texts_are_written_in_utf8(Seq::empty(), c);
    round_trip(ValueV::Char(c), TypeV::Char, rest);
    if valid_first_scalar(s) {
        let bytes = s.take(length_of_first_scalar(s));
        reveal_with_fuel(valid_utf8, 2);
        reveal_with_fuel(decode_utf8, 2);
        assert(pop_first_scalar(bytes) =~= Seq::<u8>::empty());
        assert(decode_utf8(bytes) =~= seq![decode_first_scalar(s) as char]);
        decode_utf8_encode_utf8(bytes);
    }
}

/// A value of one kind is not written as a type of another, and nothing is written for a
/// type that has no encoding.
pub proof fn other_kinds_are_refused(v: ValueV, ty: TypeV)
    ensures
        ({
            let e = encoding(v, ty);
            let refused = e.bytes.len() == 0 && e.error == Some(EncodeErrorV::Mismatch);
            match ty {
                TypeV::Bool => !(v is Bool) ==> refused,
                TypeV::S8 => !(v is S8) ==> refused,
                TypeV::U8 => !(v is U8) ==> refused,
                TypeV::S16 => !(v is S16) ==> refused,
                TypeV::U16 => !(v is U16) ==> refused,
                TypeV::S32 => !(v is S32) ==> refused,
                TypeV::U32 => !(v is U32) ==> refused,
                TypeV::S64 => !(v is S64) ==> refused,
                TypeV::U64 => !(v is U64) ==> refused,
                TypeV::Float32 => !(v is Float32) ==> refused,
                TypeV::Float64 => !(v is Float64) ==> refused,
                TypeV::Char => !(v is Char) ==> refused,
                TypeV::String => !(v is String) ==> refused,
                TypeV::List(_) => !(v is List) ==> refused,
                TypeV::Record(_) => !(v is Record) ==> refused,
                TypeV::Tuple(_) => !(v is Tuple) ==> refused,
                TypeV::Variant(_) => !(v is Variant) ==> refused,
                TypeV::Enum(_) => !(v is Enum) ==> refused,
                TypeV::Option(_) => !(v is Option) ==> refused,
                TypeV::Result(_, _) => !(v is Result) ==> refused,
                TypeV::Flags(_) => !(v is Flags) ==> refused,
                TypeV::Mapping(_, _) => e.bytes.len() == 0 && e.error == Some(
                    EncodeErrorV::Unsupported(Unsupported::Maps),
                ),
                TypeV::Own(_) => e.bytes.len() == 0 && e.error == Some(
                    EncodeErrorV::Unsupported(Unsupported::Resources),
                ),
                TypeV::Borrow(_) => e.bytes.len() == 0 && e.error == Some(
                    EncodeErrorV::Unsupported(Unsupported::Resources),
                ),
                TypeV::Future(_) => e.bytes.len() == 0 && e.error == Some(
                    EncodeErrorV::Unsupported(Unsupported::Futures),
                ),
                TypeV::Stream(_) => e.bytes.len() == 0 && e.error == Some(
                    EncodeErrorV::Unsupported(Unsupported::Streams),
                ),
                TypeV::ErrorContext => e.bytes.len() == 0 && e.error == Some(
                    EncodeErrorV::Unsupported(Unsupported::ErrorContexts),
                ),
            }
        }),
{
}

/// What an encoder does: it appends, and it fails where there is an error and nowhere else.
pub proof fn encoders_append(
    v: ValueV,
    ty: TypeV,
    before: Seq<u8>,
    after: Seq<u8>,
    r: Result<(), EncodeError>,
)
    requires
        encodes(encoding(v, ty), before, after, r),
    ensures
        after == before + encoding(v, ty).bytes,
        r is Ok <==> encoding(v, ty).error is None,
        r matches Err(e) ==> encoding(v, ty).error == Some(e@),
{
}

/// What is taken off a buffer where nothing could be read from it: what tells the case, and
/// what was taken by the part that failed. An integer, a float or flags that are not there
/// in full stay where they are.
pub proof fn failed_reads_take_what_they_saw(
    s: Seq<u8>,
    t: TypeV,
    ok: Option<Box<TypeV>>,
    err: Option<Box<TypeV>>,
    types: Seq<TypeV>,
    fields: Seq<(Seq<char>, TypeV)>,
    names: Seq<Seq<char>>,
)
    ensures
        stopped(s, TypeV::U8) == 0,
        stopped(s, TypeV::S8) == 0,
        stopped(s, TypeV::U16) == 0,
        stopped(s, TypeV::S16) == 0,
        stopped(s, TypeV::U32) == 0,
        stopped(s, TypeV::S32) == 0,
        stopped(s, TypeV::U64) == 0,
        stopped(s, TypeV::S64) == 0,
        stopped(s, TypeV::Float32) == 0,
        stopped(s, TypeV::Float64) == 0,
        stopped(s, TypeV::Flags(names)) == 0,
        s.len() > 0 ==> stopped(s, TypeV::Bool) == 1,
        s.len() == 0 ==> stopped(s, TypeV::Bool) == 0 && stopped(
            s,
            TypeV::Option(Box::new(t)),
        ) == 0 && stopped(s, TypeV::Result(ok, err)) == 0,
        s.len() > 0 ==> stopped(s, TypeV::Option(Box::new(t))) == 1 + if s[0] == 1 {
            stopped(s.skip(1), t)
        } else {
            0
        },
        s.len() > 0 && s[0] == 0 ==> stopped(s, TypeV::Result(ok, err)) == 1 + match ok {
            Some(t) => stopped(s.skip(1), *t),
            None => 0,
        },
        s.len() > 0 && s[0] == 1 ==> stopped(s, TypeV::Result(ok, err)) == 1 + match err {
            Some(t) => stopped(s.skip(1), *t),
            None => 0,
        },
        s.len() > 0 && s[0] > 1 ==> stopped(s, TypeV::Result(ok, err)) == 1,
        stopped(s, TypeV::Tuple(types.push(t))) == match reading(s, TypeV::Tuple(types)) {
            Ok((_, n)) => n + stopped(s.skip(n as int), t),
            Err(_) => stopped(s, TypeV::Tuple(types)),
        },
        forall|name: Seq<char>| #[trigger]
            stopped(s, TypeV::Record(fields.push((name, t)))) == match reading(
                s,
                TypeV::Record(fields),
            ) {
                Ok((_, n)) => n + stopped(s.skip(n as int), t),
                Err(_) => stopped(s, TypeV::Record(fields)),
            },
        match uleb_read(s, 32) {
            Leb::Number(len, n) => stopped(s, TypeV::List(Box::new(t))) == n + stopped(
                s.skip(n as int),
                TypeV::Tuple(Seq::new(len as nat, |i: int| t)),
            ) && stopped(s, TypeV::String) == if s.len() - n < len {
                n as int
            } else {
                n + len
            } && stopped(s, TypeV::Enum(names)) == n,
            _ => stopped(s, TypeV::List(Box::new(t))) == 0 && stopped(s, TypeV::String) == 0
                && stopped(s, TypeV::Enum(names)) == 0,
        },
{
    let all = types.push(t);
    let n = types.len();
    lemma_tuple_read(s, types, all, n);
    assert(tuple_stopped(s, all, n + 1) == match tuple_reading(s, all, n) {
        Ok((_, k)) => k + stopped(s.skip(k as int), t),
        Err(_) => tuple_stopped(s, all, n),
    });
    assert forall|name: Seq<char>| #[trigger]
        stopped(s, TypeV::Record(fields.push((name, t)))) == match reading(
            s,
            TypeV::Record(fields),
        ) {
            Ok((_, n)) => n + stopped(s.skip(n as int), t),
            Err(_) => stopped(s, TypeV::Record(fields)),
        } by {
        let all = fields.push((name, t));
        let n = fields.len();
        lemma_record_read(s, fields, all, n);
        assert(record_stopped(s, all, n + 1) == match record_reading(s, all, n) {
            Ok((_, k)) => k + stopped(s.skip(k as int), t),
            Err(_) => record_stopped(s, all, n),
        });
    }
    lemma_uleb_read_len(s, 32);
    if let Leb::Number(len, n) = uleb_read(s, 32) {
        let types = Seq::new(len as nat, |i: int| t);
        lemma_list_read_as_tuple(s.skip(n as int), t, types, len as nat);
    }
}

/// An encoder appends the encoding of the value as its type, and fails where that has an
/// error and nowhere else.
pub proof fn encoders_append_the_encoding(v: &Value, r: Result<(), EncodeError>)
    ensures
        forall|encoder: &mut ValEncoder, dst: &mut bytes::BytesMut| #[trigger]
            call_ensures(ValEncoder::encode, (encoder, v, dst), r) ==> {
                let e = encoding(v@, (*encoder).ty@);
                &&& contents(*final(dst)) == contents(*dst) + e.bytes
                &&& r is Ok <==> e.error is None
                &&& r is Err ==> e.error == Some(r->Err_0@)
            },
{
}

/// A reader takes a value of the type off the buffer where one stands there, and otherwise
/// tells why there is none and leaves the value as it was.
pub proof fn readers_take_the_value(ty: &Type, r: Result<(), ReadError>)
    ensures
        forall|buffer: &mut bytes::BytesMut, v: &mut Value| #[trigger]
            call_ensures(read_value, (buffer, v, ty), r) ==> match reading(contents(*buffer), ty@) {
                Ok((x, n)) => r is Ok && (*final(v))@ == x && contents(*final(buffer)) == contents(
                    *buffer,
                ).skip(n as int),
                Err(e) => r == Err::<(), ReadError>(e) && *final(v) == *v && contents(
                    *final(buffer),
                ) == contents(*buffer).skip(stopped(contents(*buffer), ty@) as int),
            },
{
}

/// Bytes that may yet become a character are waited for, others are refused. What is taken
/// where a case is at fault is its number, and what its payload took.
pub proof fn characters_and_cases_fail_where_they_do(
    s: Seq<u8>,
    cases: Seq<(Seq<char>, Option<TypeV>)>,
)
    ensures
        !valid_first_scalar(s) && scalar_pending(s) ==> reading(s, TypeV::Char) == Reading::Err(
            ReadError::UnexpectedEof,
        ),
        !valid_first_scalar(s) && !scalar_pending(s) ==> reading(s, TypeV::Char) == Reading::Err(
            ReadError::InvalidChar,
        ),
        stopped(s, TypeV::Char) == scalar_dropped(s),
        match uleb_read(s, 32) {
            Leb::Number(d, n) => stopped(s, TypeV::Variant(cases)) == n + if 0 <= d < cases.len() {
                match cases[d].1 {
                    Some(t) => stopped(s.skip(n as int), t),
                    None => 0,
                }
            } else {
                0
            },
            _ => stopped(s, TypeV::Variant(cases)) == 0,
        },
{
}

} // verus!
