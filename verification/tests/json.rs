//! Values as JSON.

use starstream_run::discovery::Catalog;
use starstream_run::json::{
    convert_args, describe, fields_to_json, func_json, handle_id, handle_to_json, json_to_record,
    json_to_val, kind_str, val_to_json, vals_to_json, Exact, Expected, Json, JsonError, JsonNumber,
    Rendered,
};
use starstream_run::types::{ComponentType, FuncType, Item, Type};
use starstream_run::value::Value;
use wasmtime::component::ResourceType;

struct Thing;

fn text(s: &str) -> String {
    s.to_string()
}

/// A number as a parser finds it.
fn number(n: f64) -> Json {
    let exact = if n.fract() != 0.0 {
        Exact::Fraction
    } else if n < 0.0 {
        Exact::Negative(n as i64)
    } else {
        Exact::Unsigned(n as u64)
    };
    Json::Number(JsonNumber {
        exact,
        double: n.to_bits(),
        single: (n as f32).to_bits(),
        signed: n as i64,
        unsigned: n as u64,
    })
}

fn unsigned(n: u64) -> Json {
    Json::Number(JsonNumber {
        exact: Exact::Unsigned(n),
        double: (n as f64).to_bits(),
        single: (n as f64 as f32).to_bits(),
        signed: n as f64 as i64,
        unsigned: n as f64 as u64,
    })
}

fn string(s: &str) -> Json {
    Json::String(text(s))
}

fn object(members: Vec<(&str, Json)>) -> Json {
    Json::Object(members.into_iter().map(|(name, v)| (text(name), v)).collect())
}

fn boxed(ty: Type) -> Box<Type> {
    Box::new(ty)
}

#[test]
fn numbers_are_cut_to_their_types() {
    for (ty, n, v) in [
        (Type::S8, 200.0, Value::S8(-56)),
        (Type::S8, -129.0, Value::S8(127)),
        (Type::U8, 300.0, Value::U8(44)),
        (Type::S16, 32_768.0, Value::S16(-32_768)),
        (Type::U16, 65_537.0, Value::U16(1)),
        (Type::S32, -2_147_483_649.0, Value::S32(2_147_483_647)),
        (Type::U32, 4_294_967_296.0, Value::U32(0)),
        (Type::S64, -5.0, Value::S64(-5)),
        (Type::U64, 5.0, Value::U64(5)),
        // A negative number has no unsigned form but that of its double, which is zero.
        (Type::U64, -5.0, Value::U64(0)),
        (Type::U8, -5.0, Value::U8(0)),
        (Type::S32, 2.9, Value::S32(2)),
        (Type::U32, 2.9, Value::U32(2)),
        (Type::S8, -2.9, Value::S8(-2)),
        (Type::Float32, 1.5, Value::Float32(1.5f32.to_bits())),
        (Type::Float64, -0.25, Value::Float64((-0.25f64).to_bits())),
    ] {
        assert_eq!(json_to_val(&ty, &number(n)), Ok(v));
    }
    assert_eq!(
        json_to_val(&Type::U64, &unsigned(u64::MAX)),
        Ok(Value::U64(u64::MAX))
    );
    // Too large for a signed integer: the double's nearest is taken.
    assert_eq!(
        json_to_val(&Type::S64, &unsigned(u64::MAX)),
        Ok(Value::S64(i64::MAX))
    );
}

#[test]
fn other_values_are_taken_by_their_kind() {
    assert_eq!(json_to_val(&Type::Bool, &Json::Bool(true)), Ok(Value::Bool(true)));
    assert_eq!(json_to_val(&Type::Char, &string("\u{416}")), Ok(Value::Char('\u{416}')));
    assert_eq!(json_to_val(&Type::String, &string("s")), Ok(Value::String(text("s"))));
    let list = Type::List(boxed(Type::U8));
    assert_eq!(
        json_to_val(&list, &Json::Array(vec![number(1.0), number(2.0)])),
        Ok(Value::List(vec![Value::U8(1), Value::U8(2)]))
    );
    let record = Type::Record(vec![(text("a"), Type::U8), (text("b"), Type::Bool)]);
    // Members may come in any order, and others are passed over.
    assert_eq!(
        json_to_val(
            &record,
            &object(vec![("c", Json::Null), ("b", Json::Bool(true)), ("a", number(3.0))])
        ),
        Ok(Value::Record(vec![(text("a"), Value::U8(3)), (text("b"), Value::Bool(true))]))
    );
    let tuple = Type::Tuple(vec![Type::U8, Type::String]);
    assert_eq!(
        json_to_val(&tuple, &Json::Array(vec![number(1.0), string("x")])),
        Ok(Value::Tuple(vec![Value::U8(1), Value::String(text("x"))]))
    );
    let option = Type::Option(boxed(Type::U8));
    assert_eq!(json_to_val(&option, &Json::Null), Ok(Value::Option(None)));
    assert_eq!(
        json_to_val(&option, &number(4.0)),
        Ok(Value::Option(Some(Box::new(Value::U8(4)))))
    );
}

#[test]
fn wrong_kinds_are_named() {
    for (ty, what) in [
        (Type::Bool, Expected::Boolean),
        (Type::S8, Expected::Integer),
        (Type::S16, Expected::Integer),
        (Type::S32, Expected::Integer),
        (Type::S64, Expected::Integer),
        (Type::U8, Expected::UnsignedInteger),
        (Type::U16, Expected::UnsignedInteger),
        (Type::U32, Expected::UnsignedInteger),
        (Type::U64, Expected::UnsignedInteger),
        (Type::Float32, Expected::Number),
        (Type::Float64, Expected::Number),
        (Type::Char, Expected::StringForChar),
        (Type::String, Expected::String),
        (Type::List(boxed(Type::U8)), Expected::ArrayForList),
        (Type::Record(vec![]), Expected::ObjectForRecord),
        (Type::Tuple(vec![]), Expected::ArrayForTuple),
        (Type::Option(boxed(Type::List(boxed(Type::U8)))), Expected::ArrayForList),
    ] {
        let wrong = if what == Expected::Boolean { number(0.0) } else { Json::Bool(false) };
        assert_eq!(json_to_val(&ty, &wrong), Err(JsonError::Expected(what, &wrong)));
    }
    let two = string("ab");
    assert_eq!(json_to_val(&Type::Char, &two), Err(JsonError::NotOneCharacter));
    assert_eq!(json_to_val(&Type::Char, &string("")), Err(JsonError::NotOneCharacter));
    assert_eq!(
        json_to_val(&Type::Record(vec![(text("a"), Type::U8)]), &object(vec![("b", Json::Null)])),
        Err(JsonError::MissingField(text("a")))
    );
    assert_eq!(
        json_to_val(&Type::Tuple(vec![Type::U8]), &Json::Array(vec![])),
        Err(JsonError::TupleSize { expected: 1, got: 0 })
    );
    for ty in [
        Type::Mapping(boxed(Type::U8), boxed(Type::U8)),
        Type::Variant(vec![]),
        Type::Enum(vec![]),
        Type::Result(None, None),
        Type::Flags(vec![]),
        Type::Own(ResourceType::host::<Thing>()),
        Type::Future(None),
        Type::Stream(None),
        Type::ErrorContext,
    ] {
        assert_eq!(json_to_val(&ty, &Json::Null), Err(JsonError::UnsupportedType));
    }
    // The first fault is the one that is told.
    let bad = Json::Array(vec![number(1.0), Json::Null, Json::Bool(true)]);
    assert_eq!(
        json_to_val(&Type::List(boxed(Type::U8)), &bad),
        Err(JsonError::Expected(Expected::UnsignedInteger, &Json::Null))
    );
}

#[test]
fn arguments_go_by_position() {
    let ty = FuncType {
        params: vec![(text("self"), Type::Bool), (text("a"), Type::U8), (text("b"), Type::U8)],
        results: vec![],
        is_async: false,
    };
    let args = vec![Json::Null, number(1.0), number(2.0)];
    assert_eq!(convert_args(&ty, 1, &args, 1), Ok(vec![Value::U8(1), Value::U8(2)]));
    assert_eq!(
        convert_args(&ty, 0, &args, 1),
        Err(JsonError::ArgumentCount { expected: 3, got: 2 })
    );
    assert_eq!(
        convert_args(&ty, 0, &args, 0),
        Err(JsonError::Expected(Expected::Boolean, &Json::Null))
    );
    assert_eq!(convert_args(&ty, 5, &args, 3), Ok(vec![]));
}

#[test]
fn records_are_taken_field_by_field() {
    let fields = vec![(text("chips"), Type::U64)];
    assert_eq!(
        json_to_record(&fields, &object(vec![("chips", number(9.0))])),
        Ok(vec![(text("chips"), Value::U64(9))])
    );
    assert_eq!(
        json_to_record(&fields, &Json::Null),
        Err(JsonError::Expected(Expected::ObjectForRecord, &Json::Null))
    );
}

#[test]
fn values_are_rendered() {
    let string = |s: &str| Rendered::String(text(s));
    for (v, r) in [
        (Value::Bool(true), Rendered::Bool(true)),
        (Value::S8(-1), Rendered::Int(-1)),
        (Value::U8(1), Rendered::Uint(1)),
        (Value::S16(-2), Rendered::Int(-2)),
        (Value::U16(2), Rendered::Uint(2)),
        (Value::S32(-3), Rendered::Int(-3)),
        (Value::U32(3), Rendered::Uint(3)),
        (Value::S64(i64::MIN), Rendered::Int(i64::MIN)),
        (Value::U64(u64::MAX), Rendered::Uint(u64::MAX)),
        (Value::Float32(7), Rendered::Single(7)),
        (Value::Float64(8), Rendered::Double(8)),
        (Value::Char('c'), string("c")),
        (Value::String(text("s")), string("s")),
        (Value::List(vec![Value::U8(1)]), Rendered::Array(vec![Rendered::Uint(1)])),
        (
            Value::Tuple(vec![Value::U8(1), Value::Option(None)]),
            Rendered::Array(vec![Rendered::Uint(1), Rendered::Null]),
        ),
        (
            Value::Record(vec![(text("a"), Value::U8(1))]),
            Rendered::Object(vec![(text("a"), Rendered::Uint(1))]),
        ),
        (Value::Option(Some(Box::new(Value::U8(1)))), Rendered::Uint(1)),
        (
            Value::Resource(4),
            Rendered::Object(vec![(text("$resource"), Rendered::Bool(true))]),
        ),
    ] {
        assert_eq!(val_to_json(&v), r);
    }
    let shown = Value::Enum(text("e"));
    assert_eq!(val_to_json(&shown), Rendered::Shown(&shown));
    assert_eq!(
        vals_to_json(&vec![Value::U8(1), Value::Bool(false)]),
        vec![Rendered::Uint(1), Rendered::Bool(false)]
    );
    assert_eq!(
        fields_to_json(&vec![(text("a"), Value::U8(1))]),
        vec![(text("a"), Rendered::Uint(1))]
    );
}

#[test]
fn handles_are_numbers_of_a_member() {
    let id = |v: Json| handle_id(Some(&object(vec![("$handle", v)])));
    assert_eq!(id(number(7.0)), Some(7));
    assert_eq!(id(unsigned(0x1_0000_0002)), Some(2));
    assert_eq!(id(number(-7.0)), None);
    assert_eq!(id(number(1.5)), None);
    assert_eq!(id(string("7")), None);
    assert_eq!(handle_id(Some(&object(vec![]))), None);
    assert_eq!(handle_id(Some(&Json::Array(vec![]))), None);
    assert_eq!(handle_id(None), None);
}

#[test]
fn kinds_are_scalars_or_json() {
    for (ty, kind) in [
        (Type::Bool, "bool"),
        (Type::S8, "s8"),
        (Type::U8, "u8"),
        (Type::S16, "s16"),
        (Type::U16, "u16"),
        (Type::S32, "s32"),
        (Type::U32, "u32"),
        (Type::S64, "s64"),
        (Type::U64, "u64"),
        (Type::Float32, "f32"),
        (Type::Float64, "f64"),
        (Type::Char, "char"),
        (Type::String, "string"),
        (Type::List(boxed(Type::U8)), "json"),
        (Type::Option(boxed(Type::U8)), "json"),
        (Type::ErrorContext, "json"),
    ] {
        assert_eq!(kind_str(&ty), kind);
    }
}

/// The description of a named type.
fn field(name: &str, kind: &str) -> Rendered<'static> {
    Rendered::Object(vec![
        (text("name"), Rendered::String(text(name))),
        (text("kind"), Rendered::String(text(kind))),
    ])
}

/// The description of a function.
fn function(export: &str, label: &str, params: Vec<Rendered<'static>>) -> Rendered<'static> {
    Rendered::Object(vec![
        (text("export"), Rendered::String(text(export))),
        (text("label"), Rendered::String(text(label))),
        (text("params"), Rendered::Array(params)),
    ])
}

#[test]
fn catalogs_are_described() {
    let utxo = ResourceType::host::<Thing>();
    let record = || Type::Record(vec![(text("chips"), Type::U64)]);
    let func = |params: Vec<(&str, Type)>, results: Vec<Type>| {
        let params = params.into_iter().map(|(name, ty)| (text(name), ty)).collect();
        Item::Func(FuncType { params, results, is_async: false })
    };
    let full = Item::Instance(vec![
        (text("utxo"), Item::Resource(utxo)),
        (text("storage"), Item::Type(record())),
        (text("get-storage"), func(vec![("self", Type::Borrow(utxo))], vec![record()])),
        (text("set-storage"), func(vec![("storage", record())], vec![Type::Own(utxo)])),
        (text("[static]utxo.new"), func(vec![("seed", Type::U8)], vec![Type::Own(utxo)])),
        (text("[static]utxo.bad"), func(vec![], vec![])),
        (
            text("[method]utxo.plus"),
            func(vec![("self", Type::Borrow(utxo)), ("n", Type::List(boxed(Type::U8)))], vec![]),
        ),
        (text("[method]utxo.bad"), func(vec![], vec![])),
    ]);
    let bare = Item::Instance(vec![(text("utxo"), Item::Resource(utxo))]);
    let exports =
        vec![(text("a"), full), (text("b"), Item::Instance(vec![])), (text("c"), bare)];
    let catalog = Catalog {
        own: ComponentType { imports: vec![], exports: exports.clone() },
        ty: ComponentType { imports: vec![], exports },
    };
    let instance = |name: &str, constructors, methods, storage| {
        Rendered::Object(vec![
            (text("name"), Rendered::String(text(name))),
            (text("resource"), Rendered::String(text("utxo"))),
            (text("constructors"), Rendered::Array(constructors)),
            (text("methods"), Rendered::Array(methods)),
            (text("storage"), storage),
        ])
    };
    assert_eq!(
        describe(&catalog),
        Rendered::Object(vec![(
            text("instances"),
            Rendered::Array(vec![
                instance(
                    "a",
                    vec![function("[static]utxo.new", "new", vec![field("seed", "u8")])],
                    vec![function("[method]utxo.plus", "plus", vec![field("n", "json")])],
                    Rendered::Array(vec![field("chips", "u64")]),
                ),
                instance("c", vec![], vec![], Rendered::Null),
            ])
        )])
    );
    let ty = FuncType { params: vec![(text("a"), Type::U8)], results: vec![], is_async: false };
    assert_eq!(func_json("f", &ty, 0), function("f", "f", vec![field("a", "u8")]));
    assert_eq!(func_json("x.y.f", &ty, 1), function("x.y.f", "f", vec![]));
}

/// What a parser finds in what was written.
fn parsed(v: &Rendered<'_>) -> Json {
    match v {
        Rendered::Null => Json::Null,
        Rendered::Bool(v) => Json::Bool(*v),
        Rendered::Int(n) => number(*n as f64),
        Rendered::Uint(n) => unsigned(*n),
        Rendered::Single(n) => number(f64::from(f32::from_bits(*n))),
        Rendered::Double(n) => number(f64::from_bits(*n)),
        Rendered::String(s) => Json::String(s.clone()),
        Rendered::Array(vs) => Json::Array(vs.iter().map(parsed).collect()),
        Rendered::Object(vs) => {
            Json::Object(vs.iter().map(|(name, v)| (name.clone(), parsed(v))).collect())
        }
        Rendered::Shown(_) => unreachable!(),
    }
}

#[test]
fn a_page_is_told_the_number_of_a_handle() {
    let told = handle_to_json(7);
    assert_eq!(
        told,
        Rendered::Array(vec![Rendered::Object(vec![(text("$handle"), Rendered::Uint(7))])])
    );
    let Json::Array(sent) = parsed(&told) else { panic!("not an array") };
    assert_eq!(handle_id(sent.first()), Some(7));
}

#[test]
fn what_was_rendered_reads_back() {
    for (ty, v) in [
        (Type::S8, Value::S8(-128)),
        (Type::U64, Value::U64(u64::MAX)),
        (Type::Float32, Value::Float32(0.1f32.to_bits())),
        (Type::Float64, Value::Float64((-2.5e300f64).to_bits())),
        (Type::Char, Value::Char('\u{10348}')),
        (
            Type::Record(vec![
                (text("a"), Type::List(boxed(Type::Option(boxed(Type::S32))))),
                (text("b"), Type::Tuple(vec![Type::Bool, Type::String])),
            ]),
            Value::Record(vec![
                (
                    text("a"),
                    Value::List(vec![
                        Value::Option(None),
                        Value::Option(Some(Box::new(Value::S32(-7)))),
                    ]),
                ),
                (text("b"), Value::Tuple(vec![Value::Bool(true), Value::String(text("s"))])),
            ]),
        ),
    ] {
        assert_eq!(json_to_val(&ty, &parsed(&val_to_json(&v))), Ok(v));
    }
}
