//! The values that contracts exchange with the host.

use starstream_run::cause::Cause;
use starstream_run::val::Val;
use starstream_run::value::Value;

fn text(s: &str) -> String {
    s.to_string()
}

#[test]
fn values_convert_both_ways() {
    let pairs = vec![
        (Val::Bool(true), Value::Bool(true)),
        (Val::S8(-8), Value::S8(-8)),
        (Val::U8(8), Value::U8(8)),
        (Val::S16(-16), Value::S16(-16)),
        (Val::U16(16), Value::U16(16)),
        (Val::S32(-32), Value::S32(-32)),
        (Val::U32(32), Value::U32(32)),
        (Val::S64(-64), Value::S64(-64)),
        (Val::U64(64), Value::U64(64)),
        (Val::Char('c'), Value::Char('c')),
        (Val::String(text("s")), Value::String(text("s"))),
        (
            Val::Record(vec![(text("a"), Val::U8(1)), (text("b"), Val::Tuple(vec![]))]),
            Value::Record(vec![(text("a"), Value::U8(1)), (text("b"), Value::Tuple(vec![]))]),
        ),
        (
            Val::Tuple(vec![Val::U8(1), Val::Bool(false)]),
            Value::Tuple(vec![Value::U8(1), Value::Bool(false)]),
        ),
    ];
    for (val, value) in pairs {
        assert_eq!(val.to_value(), value);
        assert_eq!(Val::try_from_value(&value), Ok(val));
    }
}

#[test]
fn other_values_are_unexpected() {
    for value in [
        Value::Float32(0),
        Value::Float64(0),
        Value::List(vec![]),
        Value::Mapping(vec![]),
        Value::Variant(text("a"), None),
        Value::Enum(text("a")),
        Value::Option(None),
        Value::Result(Ok(None)),
        Value::Flags(vec![]),
        Value::Resource(1),
        Value::Future,
        Value::Stream,
        Value::ErrorContext,
        Value::Tuple(vec![Value::U8(1), Value::Option(None)]),
        Value::Record(vec![(text("a"), Value::List(vec![]))]),
    ] {
        assert_eq!(Val::try_from_value(&value), Err(Cause::UnexpectedValue));
    }
}
