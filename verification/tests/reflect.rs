//! Types as the engine describes them.

use starstream_run::contract::Contract;
use starstream_run::host::Ctx;
use starstream_run::reflect::{find_func, find_instance, find_record, read_component, read_type};
use starstream_run::types::{same_type, FuncType, Item, Type};
use starstream_run::wave::{parse_params, parse_values, ParamError};
use starstream_run::wit::{declare, interface_of, served_name, wit_func, wit_type, write_interface};
use wasmtime::component::types::{ComponentFunc, ComponentItem};
use wasmtime::component::{Component, Val};
use wasmtime::{Config, Engine};

const KINDS: &str = r#"
(component
  (import "a:b/kinds" (instance
    (type $point (record (field "x" s8) (field "y" u16)))
    (export "point" (type $p (eq $point)))
    (type $shape (variant (case "none") (case "disc" u32)))
    (export "shape" (type $s (eq $shape)))
    (type $color (enum "red" "green"))
    (export "color" (type $c (eq $color)))
    (type $perms (flags "read" "write"))
    (export "perms" (type $f (eq $perms)))
    (export "each" (func
      (param "a" bool) (param "b" s16) (param "c" s32) (param "d" s64) (param "e" u8)
      (param "f" u64) (param "g" f32) (param "h" f64) (param "i" char) (param "j" string)
      (result (list u8))))
    (export "more" (func
      (param "a" $p) (param "b" $s) (param "c" $c) (param "d" $f)
      (param "e" (tuple u8 bool)) (param "f" (option string))
      (param "g" (result u8 (error string))) (param "h" (result))
      (result (list (tuple string $p))))))))
"#;

fn text(s: &str) -> String {
    s.to_string()
}

fn named(params: Vec<(&str, Type)>) -> Vec<(String, Type)> {
    params.into_iter().map(|(name, ty)| (text(name), ty)).collect()
}

fn point() -> Type {
    Type::Record(named(vec![("x", Type::S8), ("y", Type::U16)]))
}

fn shape() -> Type {
    Type::Variant(vec![(text("none"), None), (text("disc"), Some(Type::U32))])
}

fn color() -> Type {
    Type::Enum(vec![text("red"), text("green")])
}

fn perms() -> Type {
    Type::Flags(vec![text("read"), text("write")])
}

/// The engine's description of a function of the imported instance.
fn imported(name: &str) -> ComponentFunc {
    let engine = Engine::default();
    let wasm = wat::parse_str(KINDS).expect("malformed component");
    let component = Component::from_binary(&engine, &wasm).expect("failed to load the component");
    let ty = component.component_type();
    let Some(ComponentItem::ComponentInstance(instance)) =
        ty.get_import(&engine, "a:b/kinds").map(|item| item.ty)
    else {
        panic!("no instance")
    };
    find_func(&engine, &instance, name).expect("no function")
}

#[test]
fn a_contract_is_read_as_the_engine_describes_it() {
    let wasm = wat::parse_str(KINDS).expect("malformed component");
    let contract = Contract::<Ctx>::new(&wasm).expect("failed to load the contract");
    let read = read_component(contract.engine(), contract.ty());
    assert_eq!(format!("{read:?}"), format!("{:?}", contract.catalog().ty));
    assert_eq!(read.imports.len(), 1);
}

#[test]
fn every_kind_is_read() {
    let wasm = wat::parse_str(KINDS).expect("malformed component");
    let contract = Contract::<Ctx>::new(&wasm).expect("failed to load the contract");
    let imports = &contract.catalog().own.imports;
    assert_eq!(imports.len(), 1);
    assert_eq!(imports[0].0, "a:b/kinds");
    let Item::Instance(items) = &imports[0].1 else { panic!("not an instance") };
    let names: Vec<&str> = items.iter().map(|(name, _)| name.as_str()).collect();
    assert_eq!(names, ["point", "shape", "color", "perms", "each", "more"]);
    for (i, ty) in [point(), shape(), color(), perms()].into_iter().enumerate() {
        let Item::Type(read) = &items[i].1 else { panic!("not a type") };
        assert_eq!(*read, ty);
        assert!(same_type(read, &ty));
        assert!(!same_type(read, &Type::Bool));
    }
    let Item::Func(each) = &items[4].1 else { panic!("not a function") };
    assert_eq!(
        *each,
        FuncType {
            params: named(vec![
                ("a", Type::Bool),
                ("b", Type::S16),
                ("c", Type::S32),
                ("d", Type::S64),
                ("e", Type::U8),
                ("f", Type::U64),
                ("g", Type::Float32),
                ("h", Type::Float64),
                ("i", Type::Char),
                ("j", Type::String),
            ]),
            results: vec![Type::List(Box::new(Type::U8))],
            is_async: false,
        }
    );
    let Item::Func(more) = &items[5].1 else { panic!("not a function") };
    assert_eq!(
        *more,
        FuncType {
            params: named(vec![
                ("a", point()),
                ("b", shape()),
                ("c", color()),
                ("d", perms()),
                ("e", Type::Tuple(vec![Type::U8, Type::Bool])),
                ("f", Type::Option(Box::new(Type::String))),
                ("g", Type::Result(Some(Box::new(Type::U8)), Some(Box::new(Type::String)))),
                ("h", Type::Result(None, None)),
            ]),
            results: vec![Type::List(Box::new(Type::Tuple(vec![Type::String, point()])))],
            is_async: false,
        }
    );
}

#[test]
fn types_that_have_no_encoding_are_read() {
    let mut config = Config::new();
    config
        .wasm_component_model(true)
        .wasm_component_model_async(true)
        .wasm_component_model_map(true)
        .wasm_component_model_error_context(true);
    let engine = Engine::new(&config).expect("failed to create an engine");
    let wasm = wat::parse_str(
        r#"(component (import "i" (instance
             (export "f" (func
               (param "a" (future)) (param "b" (future u8)) (param "c" (stream string))
               (param "d" (map string u8)) (param "e" error-context))))))"#,
    )
    .expect("malformed component");
    let component = Component::from_binary(&engine, &wasm).expect("failed to load the component");
    let ty = read_component(&engine, &component.component_type());
    let Item::Instance(items) = &ty.imports[0].1 else { panic!("not an instance") };
    let Item::Func(f) = &items[0].1 else { panic!("not a function") };
    assert_eq!(
        f.params,
        named(vec![
            ("a", Type::Future(None)),
            ("b", Type::Future(Some(Box::new(Type::U8)))),
            ("c", Type::Stream(Some(Box::new(Type::String)))),
            ("d", Type::Mapping(Box::new(Type::String), Box::new(Type::U8))),
            ("e", Type::ErrorContext),
        ])
    );
}

#[test]
fn async_functions_are_told_apart() {
    let engine = Engine::default();
    let wasm = wat::parse_str(
        r#"(component (import "i" (instance
             (export "now" (func (result u8)))
             (export "later" (func async (result u8))))))"#,
    )
    .expect("malformed component");
    let component = Component::from_binary(&engine, &wasm).expect("failed to load the component");
    let ty = read_component(&engine, &component.component_type());
    let Item::Instance(items) = &ty.imports[0].1 else { panic!("not an instance") };
    for (item, name, is_async) in [(&items[0], "now", false), (&items[1], "later", true)] {
        let Item::Func(func) = &item.1 else { panic!("not a function") };
        assert_eq!(item.0, name);
        assert_eq!(*func, FuncType { params: vec![], results: vec![Type::U8], is_async });
    }
}

#[test]
fn exports_are_found_by_name() {
    let engine = Engine::default();
    let wasm = wat::parse_str(
        r#"(component
             (type $r (record (field "a" u8)))
             (type $o u8)
             (instance $i (export "storage" (type $r)) (export "other" (type $o)))
             (core module $m (func (export "f")))
             (core instance $c (instantiate $m))
             (func $f (canon lift (core func $c "f")))
             (instance $j (export "f" (func $f)))
             (export "i" (instance $i))
             (export "j" (instance $j))
             (export "f" (func $f))
             (export "m" (core module $m)))"#,
    )
    .expect("malformed component");
    let component = Component::from_binary(&engine, &wasm).expect("failed to load the component");
    let ty = component.component_type();
    let read = read_component(&engine, &ty);
    assert!(read.imports.is_empty());
    assert_eq!(read.exports.len(), 4);
    assert!(matches!(read.exports[2].1, Item::Func(_)));
    assert!(matches!(read.exports[3].1, Item::Module));
    assert!(find_instance(&engine, &ty, "f").is_none());
    assert!(find_instance(&engine, &ty, "z").is_none());
    let i = find_instance(&engine, &ty, "i").expect("no instance");
    let fields = find_record(&engine, &i, "storage").expect("no record");
    assert_eq!(fields.len(), 1);
    assert_eq!(fields[0].0, "a");
    assert_eq!(read_type(&fields[0].1), Type::U8);
    assert!(find_record(&engine, &i, "other").is_none());
    assert!(find_record(&engine, &i, "missing").is_none());
    assert!(find_func(&engine, &i, "storage").is_none());
    let j = find_instance(&engine, &ty, "j").expect("no instance");
    assert!(find_func(&engine, &j, "f").is_some());
}

#[test]
fn types_are_written_as_in_wit() {
    let more = imported("more");
    let types: Vec<String> = more.params().map(|(_, ty)| wit_type(&ty)).collect();
    assert_eq!(
        types,
        [
            "record { x: s8, y: u16 }",
            "variant { none, disc(u32) }",
            "enum { red, green }",
            "flags { read, write }",
            "tuple<u8, bool>",
            "option<string>",
            "result<u8, string>",
            "result",
        ]
    );
    // The first parameter is the receiver.
    assert_eq!(
        wit_func("[method]utxo.plus-chips", &imported("each")),
        "plus-chips: func(b: s16, c: s32, d: s64, e: u8, f: u64, g: f32, h: f64, i: char, \
         j: string) -> list<u8>;"
    );
}

#[test]
fn declarations_are_written_out() {
    let params = vec![(text("a"), text("u8")), (text("b"), text("string"))];
    assert_eq!(declare("f", &vec![], &vec![]), "f: func();");
    assert_eq!(declare("f", &params, &vec![text("u8")]), "f: func(a: u8, b: string) -> u8;");
    assert_eq!(
        declare("f", &vec![], &vec![text("u8"), text("bool")]),
        "f: func() -> (u8, bool);"
    );
    assert_eq!(
        write_interface("score", &vec![text("f: func();"), text("g: func();")]),
        "package starstream:utxo;\n\ninterface score {\n    f: func();\n    g: func();\n}\n"
    );
}

#[test]
fn interfaces_are_named_without_package_and_version() {
    assert_eq!(interface_of("root:component/score-progress"), "score-progress");
    assert_eq!(interface_of("root:component/score@1.2.3"), "score");
    assert_eq!(interface_of("plain"), "plain");
    assert_eq!(interface_of("a/b/c"), "b/c");
    assert_eq!(served_name("[method]utxo.plus-chips"), Some(text("plus-chips")));
    assert_eq!(served_name("[method]other.plus-chips"), None);
    assert_eq!(served_name("plus-chips"), None);
}

#[test]
fn values_are_parsed_by_their_types() {
    let texts = |v: &[&str]| v.iter().map(|s| s.to_string()).collect::<Vec<String>>();
    let more = imported("more");
    let written = texts(&[
        "{x: -1, y: 2}",
        "disc(5)",
        "green",
        "{write}",
        "(7, true)",
        "some(\"s\")",
        "err(\"e\")",
        "ok",
    ]);
    let Ok(values) = parse_params(&more, &written) else { panic!("not parsed") };
    assert_eq!(
        values,
        vec![
            Val::Record(vec![(text("x"), Val::S8(-1)), (text("y"), Val::U16(2))]),
            Val::Variant(text("disc"), Some(Box::new(Val::U32(5)))),
            Val::Enum(text("green")),
            Val::Flags(vec![text("write")]),
            Val::Tuple(vec![Val::U8(7), Val::Bool(true)]),
            Val::Option(Some(Box::new(Val::String(text("s"))))),
            Val::Result(Err(Some(Box::new(Val::String(text("e")))))),
            Val::Result(Ok(None)),
        ]
    );
    assert!(matches!(
        parse_params(&more, &texts(&["1"])),
        Err(ParamError::Count { expected: 8, got: 1 })
    ));
    let types: Vec<_> = more.params().take(2).map(|(name, ty)| (name.to_string(), ty)).collect();
    match parse_values(&types, &texts(&["{x: 1, y: 2}", "what"])) {
        Err(ParamError::Parse { name, text, .. }) => {
            assert_eq!(name, "b");
            assert_eq!(text, "what");
        }
        _ => panic!("parsed"),
    }
}
