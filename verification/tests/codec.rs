//! Values on the wire.

use bytes::BytesMut;
use starstream_run::codec::{EncodeError, Unsupported, ValEncoder};
use starstream_run::decode::{read_value, ReadError};
use starstream_run::types::Type;
use starstream_run::value::Value;
use wasmtime::component::ResourceType;

/// What encoding a value comes to: the result, and the bytes written.
fn encode(v: &Value, ty: &Type) -> (Result<(), EncodeError>, Vec<u8>) {
    let mut bytes = BytesMut::new();
    let result = ValEncoder::new(ty).encode(v, &mut bytes);
    (result, bytes.to_vec())
}

/// What reading a value comes to: the result, and the bytes left.
fn read(bytes: &[u8], ty: &Type) -> (Result<Value, ReadError>, Vec<u8>) {
    let mut bytes = BytesMut::from(bytes);
    let mut v = Value::Bool(false);
    let result = read_value(&mut bytes, &mut v, ty);
    (result.map(|()| v), bytes.to_vec())
}

/// Checks that a value has this encoding, and that the encoding reads back.
fn both_ways(v: Value, ty: &Type, bytes: &[u8]) {
    assert_eq!(encode(&v, ty), (Ok(()), bytes.to_vec()));
    let mut more = bytes.to_vec();
    more.extend_from_slice(&[9, 8]);
    assert_eq!(read(&more, ty), (Ok(v), vec![9, 8]));
    for n in 0..bytes.len() {
        assert_eq!(read(&bytes[..n], ty).0, Err(ReadError::UnexpectedEof));
    }
}

fn text(s: &str) -> String {
    s.to_string()
}

fn names(v: &[&str]) -> Vec<String> {
    v.iter().map(|s| s.to_string()).collect()
}

fn some(v: Value) -> Option<Box<Value>> {
    Some(Box::new(v))
}

fn boxed(ty: Type) -> Box<Type> {
    Box::new(ty)
}

struct Thing;

#[test]
fn plain_values() {
    both_ways(Value::Bool(false), &Type::Bool, &[0]);
    both_ways(Value::Bool(true), &Type::Bool, &[1]);
    both_ways(Value::S8(-1), &Type::S8, &[0xff]);
    both_ways(Value::S8(i8::MIN), &Type::S8, &[0x80]);
    both_ways(Value::U8(200), &Type::U8, &[200]);
    both_ways(Value::Float32(1.5f32.to_bits()), &Type::Float32, &[0, 0, 0xc0, 0x3f]);
    both_ways(
        Value::Float64(1.5f64.to_bits()),
        &Type::Float64,
        &[0, 0, 0, 0, 0, 0, 0xf8, 0x3f],
    );
    both_ways(Value::Float32(0x7fc0_dead), &Type::Float32, &[0xad, 0xde, 0xc0, 0x7f]);
}

#[test]
fn integers_are_leb128() {
    both_ways(Value::U16(0), &Type::U16, &[0]);
    both_ways(Value::U16(127), &Type::U16, &[0x7f]);
    both_ways(Value::U16(128), &Type::U16, &[0x80, 0x01]);
    both_ways(Value::U16(u16::MAX), &Type::U16, &[0xff, 0xff, 0x03]);
    both_ways(Value::U32(624_485), &Type::U32, &[0xe5, 0x8e, 0x26]);
    both_ways(Value::U32(u32::MAX), &Type::U32, &[0xff, 0xff, 0xff, 0xff, 0x0f]);
    both_ways(
        Value::U64(u64::MAX),
        &Type::U64,
        &[0xff, 0xff, 0xff, 0xff, 0xff, 0xff, 0xff, 0xff, 0xff, 0x01],
    );
    both_ways(Value::S16(-1), &Type::S16, &[0x7f]);
    both_ways(Value::S16(64), &Type::S16, &[0xc0, 0x00]);
    both_ways(Value::S16(i16::MIN), &Type::S16, &[0x80, 0x80, 0x7e]);
    both_ways(Value::S32(-123_456), &Type::S32, &[0xc0, 0xbb, 0x78]);
    both_ways(Value::S32(i32::MAX), &Type::S32, &[0xff, 0xff, 0xff, 0xff, 0x07]);
    both_ways(
        Value::S64(i64::MIN),
        &Type::S64,
        &[0x80, 0x80, 0x80, 0x80, 0x80, 0x80, 0x80, 0x80, 0x80, 0x7f],
    );
}

#[test]
fn integers_that_do_not_fit_are_refused() {
    for (bytes, ty, bits) in [
        (vec![0xff, 0xff, 0x04], Type::U16, 16),
        (vec![0xff, 0xff, 0xff, 0xff, 0x10], Type::U32, 32),
        (vec![0xff, 0xff, 0xff, 0xff, 0xff, 0xff, 0xff, 0xff, 0xff, 0x02], Type::U64, 64),
        (vec![0x80, 0x80, 0x02], Type::S16, 16),
        (vec![0x80, 0x80, 0x80, 0x80, 0x08], Type::S32, 32),
        (vec![0x80, 0x80, 0x80, 0x80, 0x80, 0x80, 0x80, 0x80, 0x80, 0x01], Type::S64, 64),
    ] {
        assert_eq!(read(&bytes, &ty), (Err(ReadError::Overflow(bits)), bytes));
    }
    // A longer form of a small number is taken.
    assert_eq!(read(&[0x81, 0x00], &Type::U32).0, Ok(Value::U32(1)));
    assert_eq!(read(&[0xff, 0x7f], &Type::S32).0, Ok(Value::S32(-1)));
}

#[test]
fn characters_are_utf8() {
    both_ways(Value::Char('a'), &Type::Char, b"a");
    both_ways(Value::Char('\u{416}'), &Type::Char, &[0xd0, 0x96]);
    both_ways(Value::Char('\u{20ac}'), &Type::Char, &[0xe2, 0x82, 0xac]);
    both_ways(Value::Char('\u{10348}'), &Type::Char, &[0xf0, 0x90, 0x8d, 0x88]);
    for bytes in [
        &[0x80u8][..],
        &[0xc1],
        &[0xff],
        &[0xc2, 0x41],
        &[0xe0, 0x80],
        &[0xed, 0xa0, 0x80],
        &[0xf0, 0x80],
        &[0xf4, 0x90, 0x80, 0x80],
        &[0xf7, 0x80, 0x80, 0x80],
    ] {
        assert_eq!(read(bytes, &Type::Char).0, Err(ReadError::InvalidChar));
    }
    // Nothing is wrong yet with these.
    for bytes in [&[0xf7u8][..], &[0xed, 0xa0], &[0xf4, 0x90, 0x80]] {
        assert_eq!(read(bytes, &Type::Char).0, Err(ReadError::UnexpectedEof));
    }
}

#[test]
fn strings_are_prefixed_by_their_length() {
    both_ways(Value::String(text("")), &Type::String, &[0]);
    both_ways(Value::String(text("foo")), &Type::String, b"\x03foo");
    both_ways(Value::String(text("\u{20ac}")), &Type::String, &[3, 0xe2, 0x82, 0xac]);
    assert_eq!(read(&[1, 0xff], &Type::String).0, Err(ReadError::InvalidUtf8));
    assert_eq!(
        read(&[0xff, 0xff, 0xff, 0xff, 0x10], &Type::String).0,
        Err(ReadError::Overflow(32))
    );
}

#[test]
fn compound_values() {
    let list = Type::List(boxed(Type::U16));
    both_ways(Value::List(vec![]), &list, &[0]);
    both_ways(Value::List(vec![Value::U16(1), Value::U16(300)]), &list, &[2, 1, 0xac, 2]);
    let record =
        Type::Record(vec![(text("a"), Type::U8), (text("b"), Type::List(boxed(Type::Bool)))]);
    both_ways(
        Value::Record(vec![
            (text("a"), Value::U8(7)),
            (text("b"), Value::List(vec![Value::Bool(true)])),
        ]),
        &record,
        &[7, 1, 1],
    );
    both_ways(
        Value::Tuple(vec![Value::S8(-2), Value::String(text("x"))]),
        &Type::Tuple(vec![Type::S8, Type::String]),
        &[0xfe, 1, b'x'],
    );
    both_ways(Value::Tuple(vec![]), &Type::Tuple(vec![]), &[]);
    let option = Type::Option(boxed(Type::U8));
    both_ways(Value::Option(None), &option, &[0]);
    both_ways(Value::Option(some(Value::U8(5))), &option, &[1, 5]);
}

#[test]
fn variants_and_enums_go_by_position() {
    let variant = Type::Variant(vec![(text("none"), None), (text("some"), Some(Type::U32))]);
    both_ways(Value::Variant(text("none"), None), &variant, &[0]);
    both_ways(Value::Variant(text("some"), some(Value::U32(128))), &variant, &[1, 0x80, 1]);
    both_ways(Value::Enum(text("b")), &Type::Enum(names(&["a", "b", "c"])), &[1]);

    let many: Vec<String> = (0..300).map(|i| format!("n{i}")).collect();
    both_ways(Value::Enum(text("n299")), &Type::Enum(many.clone()), &[0xab, 2]);
    let cases = many.into_iter().map(|name| (name, None)).collect();
    both_ways(Value::Variant(text("n200"), None), &Type::Variant(cases), &[0xc8, 1]);

    assert_eq!(read(&[2], &variant).0, Err(ReadError::UnknownVariant(2)));
    assert_eq!(
        read(&[0x80, 1], &Type::Enum(names(&["a"]))).0,
        Err(ReadError::UnknownEnum(128))
    );
}

#[test]
fn results_carry_their_status() {
    let ty = Type::Result(Some(boxed(Type::U8)), None);
    both_ways(Value::Result(Ok(some(Value::U8(4)))), &ty, &[0, 4]);
    both_ways(Value::Result(Err(None)), &ty, &[1]);
    let ty = Type::Result(None, Some(boxed(Type::Bool)));
    both_ways(Value::Result(Ok(None)), &ty, &[0]);
    both_ways(Value::Result(Err(some(Value::Bool(true)))), &ty, &[1, 1]);
}

#[test]
fn flags_are_bits() {
    both_ways(Value::Flags(vec![]), &Type::Flags(vec![]), &[0]);
    let three = Type::Flags(names(&["a", "b", "c"]));
    both_ways(Value::Flags(names(&["a", "c"])), &three, &[0b101]);
    // The order in which they are given does not matter, nor do unknown ones.
    assert_eq!(
        encode(&Value::Flags(names(&["c", "z", "a", "c"])), &three),
        (Ok(()), vec![0b101])
    );
    assert_eq!(read(&[0b101], &three).0, Ok(Value::Flags(names(&["a", "c"]))));
    for (n, len) in [(8, 1), (9, 2), (17, 3), (64, 8), (65, 9), (128, 16), (129, 17), (200, 25)] {
        let all: Vec<String> = (0..n).map(|i| format!("f{i}")).collect();
        let last = vec![format!("f{}", n - 1)];
        let mut bytes = vec![0u8; len];
        bytes[(n - 1) / 8] = 1 << ((n - 1) % 8);
        both_ways(Value::Flags(last), &Type::Flags(all), &bytes);
    }
    // Bits past the last flag are not read.
    assert_eq!(read(&[0xff], &three).0, Ok(Value::Flags(names(&["a", "b", "c"]))));
}

#[test]
fn nested_flags_come_back_in_order() {
    let three = || Type::Flags(names(&["a", "b", "c"]));
    let given = || Value::Flags(names(&["c", "z", "a", "c"]));
    let put = || Value::Flags(names(&["a", "c"]));
    let comes_back = |v: Value, ty: Type, back: Value| {
        let (result, bytes) = encode(&v, &ty);
        assert_eq!(result, Ok(()));
        assert_eq!(encode(&back, &ty), (Ok(()), bytes.clone()));
        assert_eq!(read(&bytes, &ty), (Ok(back), vec![]));
    };
    comes_back(
        Value::List(vec![given(), put()]),
        Type::List(boxed(three())),
        Value::List(vec![put(), put()]),
    );
    comes_back(
        Value::Record(vec![(text("f"), given()), (text("n"), Value::U8(1))]),
        Type::Record(vec![(text("f"), three()), (text("n"), Type::U8)]),
        Value::Record(vec![(text("f"), put()), (text("n"), Value::U8(1))]),
    );
    comes_back(
        Value::Tuple(vec![given()]),
        Type::Tuple(vec![three()]),
        Value::Tuple(vec![put()]),
    );
    comes_back(
        Value::Variant(text("x"), some(given())),
        Type::Variant(vec![(text("y"), None), (text("x"), Some(three()))]),
        Value::Variant(text("x"), some(put())),
    );
    comes_back(
        Value::Option(some(given())),
        Type::Option(boxed(three())),
        Value::Option(some(put())),
    );
    comes_back(
        Value::Result(Err(some(Value::List(vec![given()])))),
        Type::Result(None, Some(boxed(Type::List(boxed(three()))))),
        Value::Result(Err(some(Value::List(vec![put()])))),
    );
}

#[test]
fn statuses_are_zero_or_one() {
    assert_eq!(read(&[2], &Type::Bool).0, Err(ReadError::InvalidBool(2)));
    assert_eq!(
        read(&[2, 0], &Type::Option(boxed(Type::U8))).0,
        Err(ReadError::InvalidOptionStatus(2))
    );
    assert_eq!(
        read(&[0xff, 0], &Type::Result(None, None)).0,
        Err(ReadError::InvalidResultStatus(0xff))
    );
}

#[test]
fn encoding_errors_name_the_path() {
    let bad = || Box::new(EncodeError::Mismatch);
    assert_eq!(encode(&Value::U8(1), &Type::Bool), (Err(EncodeError::Mismatch), vec![]));
    assert_eq!(
        encode(&Value::List(vec![Value::U8(1), Value::Bool(true)]), &Type::List(boxed(Type::U8))),
        (Err(EncodeError::ListElement(bad())), vec![2, 1])
    );
    assert_eq!(
        encode(
            &Value::Record(vec![(text("a"), Value::Bool(true))]),
            &Type::Record(vec![(text("a"), Type::U8)])
        ),
        (Err(EncodeError::Field(text("a"), bad())), vec![])
    );
    assert_eq!(
        encode(&Value::Tuple(vec![Value::Bool(true)]), &Type::Tuple(vec![Type::U8])),
        (Err(EncodeError::TupleElement(bad())), vec![])
    );
    assert_eq!(
        encode(&Value::Option(some(Value::U8(1))), &Type::Option(boxed(Type::Bool))),
        (Err(EncodeError::OptionValue(bad())), vec![1])
    );

    let variant = Type::Variant(vec![(text("a"), None), (text("b"), Some(Type::U8))]);
    assert_eq!(
        encode(&Value::Variant(text("c"), None), &variant),
        (Err(EncodeError::UnknownVariant), vec![])
    );
    assert_eq!(
        encode(&Value::Variant(text("a"), some(Value::U8(1))), &variant),
        (Err(EncodeError::VariantTypeMissing), vec![0])
    );
    assert_eq!(
        encode(&Value::Variant(text("b"), some(Value::Bool(true))), &variant),
        (Err(EncodeError::VariantValue(bad())), vec![1])
    );
    // A payload that is missing is not noticed.
    assert_eq!(encode(&Value::Variant(text("b"), None), &variant), (Ok(()), vec![1]));
    assert_eq!(
        encode(&Value::Enum(text("z")), &Type::Enum(names(&["a"]))),
        (Err(EncodeError::UnknownEnum), vec![])
    );

    let ok = Type::Result(Some(boxed(Type::U8)), None);
    let err = Type::Result(None, Some(boxed(Type::U8)));
    assert_eq!(encode(&Value::Result(Ok(None)), &ok), (Err(EncodeError::OkMissing), vec![]));
    assert_eq!(
        encode(&Value::Result(Ok(some(Value::U8(1)))), &err),
        (Err(EncodeError::OkUnknownType), vec![])
    );
    assert_eq!(
        encode(&Value::Result(Ok(some(Value::Bool(true)))), &ok),
        (Err(EncodeError::OkValue(bad())), vec![0])
    );
    assert_eq!(encode(&Value::Result(Err(None)), &err), (Err(EncodeError::ErrMissing), vec![]));
    assert_eq!(
        encode(&Value::Result(Err(some(Value::U8(1)))), &ok),
        (Err(EncodeError::ErrUnknownType), vec![])
    );
    assert_eq!(
        encode(&Value::Result(Err(some(Value::Bool(true)))), &err),
        (Err(EncodeError::ErrValue(bad())), vec![1])
    );
}

#[test]
fn records_and_tuples_go_up_to_the_shorter() {
    assert_eq!(
        encode(&Value::Tuple(vec![Value::U8(1), Value::U8(2)]), &Type::Tuple(vec![Type::U8])),
        (Ok(()), vec![1])
    );
    assert_eq!(
        encode(&Value::Record(vec![]), &Type::Record(vec![(text("a"), Type::U8)])),
        (Ok(()), vec![])
    );
}

#[test]
fn unsupported_types_have_no_encoding() {
    let resource = ResourceType::host::<Thing>();
    for (ty, kind) in [
        (Type::Mapping(boxed(Type::U8), boxed(Type::U8)), Unsupported::Maps),
        (Type::Own(resource), Unsupported::Resources),
        (Type::Borrow(resource), Unsupported::Resources),
        (Type::Future(None), Unsupported::Futures),
        (Type::Stream(Some(boxed(Type::U8))), Unsupported::Streams),
        (Type::ErrorContext, Unsupported::ErrorContexts),
    ] {
        assert_eq!(
            encode(&Value::U8(1), &ty),
            (Err(EncodeError::Unsupported(kind)), vec![])
        );
        assert_eq!(read(&[1, 2], &ty), (Err(ReadError::Unsupported(kind)), vec![1, 2]));
    }
}

#[test]
fn a_failed_read_takes_what_it_has_read() {
    for (bytes, ty, left) in [
        // What tells which case there is goes, and so does what was read before.
        (&[7u8, 1][..], Type::Bool, &[1u8][..]),
        (&[2, 5], Type::Variant(vec![(text("a"), None)]), &[5]),
        (&[0x80, 1, 5], Type::Enum(names(&["a"])), &[5]),
        (&[9, 5], Type::Option(boxed(Type::U8)), &[5]),
        (&[9, 5], Type::Result(None, None), &[5]),
        (&[4, 1, 9, 5], Type::Tuple(vec![Type::U8, Type::Bool, Type::Bool]), &[5]),
        (&[2, 1, 9, 5], Type::List(boxed(Type::Bool)), &[5]),
        (&[1, 1, 9, 5], Type::Option(boxed(Type::Option(boxed(Type::Bool)))), &[5]),
        // So do the bytes of a text, and those of a surrogate or of a number past the last.
        (&[1, 0xff, 5], Type::String, &[5]),
        (&[0xed, 0xa0, 0x80, 5], Type::Char, &[5]),
        (&[0xf4, 0x90, 0x80, 0x80, 5], Type::Char, &[5]),
        // Bytes that are no character stay, and so does what ends too early.
        (&[0xff, 5], Type::Char, &[0xff, 5]),
        (&[0xe0, 0x80, 5], Type::Char, &[0xe0, 0x80, 5]),
        (&[3, b'a'], Type::String, b"a"),
        (&[1, 2, 3], Type::Float32, &[1, 2, 3]),
        (&[0x80], Type::U32, &[0x80]),
        (&[5, 0x80], Type::Tuple(vec![Type::U8, Type::U16]), &[0x80]),
        // Of what is not supported nothing is read.
        (&[5, 6], Type::Tuple(vec![Type::U8, Type::ErrorContext]), &[6]),
    ] {
        let (result, rest) = read(bytes, &ty);
        assert!(result.is_err(), "{bytes:?} is a {ty:?}");
        assert_eq!(rest, left, "of {bytes:?} as {ty:?}");
    }
}

#[test]
fn a_failed_read_leaves_the_value() {
    let mut bytes = BytesMut::from(&[1u8][..]);
    let mut v = Value::U8(42);
    let ty = Type::List(boxed(Type::U16));
    assert_eq!(read_value(&mut bytes, &mut v, &ty), Err(ReadError::UnexpectedEof));
    assert_eq!(v, Value::U8(42));
}

#[test]
fn encodings_do_not_begin_one_another() {
    let ty = Type::List(boxed(Type::Option(boxed(Type::U16))));
    let mut seen: Vec<Vec<u8>> = Vec::new();
    for items in [
        vec![],
        vec![Value::Option(None)],
        vec![Value::Option(None), Value::Option(None)],
        vec![Value::Option(some(Value::U16(0)))],
        vec![Value::Option(some(Value::U16(300)))],
    ] {
        let (result, bytes) = encode(&Value::List(items), &ty);
        assert_eq!(result, Ok(()));
        for other in &seen {
            assert!(!bytes.starts_with(other) && !other.starts_with(&bytes));
        }
        seen.push(bytes);
    }
}

#[test]
fn verdicts_do_not_depend_on_what_follows() {
    let ty = Type::Tuple(vec![Type::Bool, Type::Char]);
    for (bytes, verdict) in [
        (&[2u8][..], Err(ReadError::InvalidBool(2))),
        (&[1, 0xff], Err(ReadError::InvalidChar)),
        (&[1, b'x'], Ok(Value::Tuple(vec![Value::Bool(true), Value::Char('x')]))),
    ] {
        for rest in [&[][..], &[0], &[0xff, 0xff, 0xff]] {
            let all = [bytes, rest].concat();
            assert_eq!(read(&all, &ty).0, verdict);
        }
    }
}

#[test]
fn what_was_read_can_be_written() {
    // The longer form of a number comes back as the shorter.
    let ty = Type::Variant(vec![(text("a"), None), (text("b"), Some(Type::U32))]);
    let (v, rest) = read(&[0x81, 0x00, 0x85, 0x80, 0x00, 7], &ty);
    assert_eq!(rest, vec![7]);
    let v = v.expect("nothing was read");
    assert_eq!(v, Value::Variant(text("b"), some(Value::U32(5))));
    assert_eq!(encode(&v, &ty), (Ok(()), vec![1, 5]));
}
