//! Handles, and the requests of a page.

use starstream_run::cause::Cause;
use starstream_run::discovery::{Catalog, UtxoExport};
use starstream_run::json::{Exact, Expected, Json, JsonError, JsonNumber};
use starstream_run::session::{plan_load, CallPlan, Handle, RequestError, Session};
use starstream_run::types::{ComponentType, FuncType, Item, Type};
use starstream_run::value::Value;
use wasmtime::component::ResourceType;

struct Thing;

fn text(s: &str) -> String {
    s.to_string()
}

fn number(n: u64) -> Json {
    Json::Number(JsonNumber {
        exact: Exact::Unsigned(n),
        double: (n as f64).to_bits(),
        single: (n as f32).to_bits(),
        signed: n as i64,
        unsigned: n,
    })
}

fn handle(id: u64) -> Json {
    Json::Object(vec![(text("$handle"), number(id))])
}

fn chips(n: u64) -> Json {
    Json::Object(vec![(text("chips"), number(n))])
}

/// A contract with one `utxo` that has storage, and one that has none.
fn catalog() -> Catalog {
    let utxo = ResourceType::host::<Thing>();
    let record = || Type::Record(vec![(text("chips"), Type::U64)]);
    let func = |params: Vec<(&str, Type)>, results: Vec<Type>| {
        let params = params.into_iter().map(|(name, ty)| (text(name), ty)).collect();
        Item::Func(FuncType { params, results, is_async: false })
    };
    let full = Item::Instance(vec![
        (text("utxo"), Item::Resource(utxo)),
        (text("storage"), Item::Type(record())),
        (text("get-storage"), func(vec![("self", Type::Borrow(utxo))], vec![record()])),
        (text("set-storage"), func(vec![("storage", record())], vec![Type::Own(utxo)])),
        (text("[static]utxo.new"), func(vec![("seed", Type::U8)], vec![Type::Own(utxo)])),
        (
            text("[method]utxo.plus"),
            func(vec![("self", Type::Borrow(utxo)), ("n", Type::U8)], vec![]),
        ),
    ]);
    let bare = Item::Instance(vec![(text("utxo"), Item::Resource(utxo))]);
    let exports = vec![(text("full"), full), (text("bare"), bare)];
    Catalog {
        own: ComponentType { imports: vec![], exports: exports.clone() },
        ty: ComponentType { imports: vec![], exports },
    }
}

fn export(name: &str) -> UtxoExport {
    catalog().get_utxo(name).expect("no `utxo`")
}

#[test]
fn handles_get_numbers_of_their_own() {
    let mut session: Session<&str> = Session::new();
    assert!(session.has_room());
    let a = session.insert(Handle { export: export("full"), utxo: "a" });
    let b = session.insert(Handle { export: export("full"), utxo: "b" });
    assert_eq!((a, b), (0, 1));
    assert_eq!(session.get(a).map(|h| h.utxo), Some("a"));
    assert_eq!(session.get(b).map(|h| h.utxo), Some("b"));
    assert_eq!(session.remove(a).map(|h| h.utxo), Some("a"));
    assert!(session.get(a).is_none());
    assert!(session.remove(a).is_none());
    // A number is not given again.
    assert_eq!(session.insert(Handle { export: export("bare"), utxo: "c" }), 2);
}

#[test]
fn a_reloaded_utxo_keeps_its_handle() {
    let mut session: Session<&str> = Session::new();
    let id = session.insert(Handle { export: export("full"), utxo: "old" });
    assert_eq!(session.replace(id, "new"), Ok("old"));
    assert_eq!(session.get(id).map(|h| h.utxo), Some("new"));
    assert!(session.plan_storage_get(id).is_ok());
    assert_eq!(session.replace(9, "lost"), Err("lost"));
    assert!(session.get(9).is_none());
}

#[test]
fn what_was_not_minted_gets_no_number() {
    let mut session: Session<&str> = Session::new();
    assert_eq!(session.mint(export("full"), Err("trap")), Err("trap"));
    assert!(session.get(0).is_none());
    assert_eq!(session.mint::<()>(export("full"), Ok("a")), Ok(0));
    assert_eq!(session.mint(export("full"), Err("trap")), Err("trap"));
    assert_eq!(session.mint::<()>(export("full"), Ok("b")), Ok(1));
    assert_eq!(session.get(0).map(|h| h.utxo), Some("a"));
    assert_eq!(session.get(1).map(|h| h.utxo), Some("b"));
    // What is asked of one handle is nothing to the other.
    assert_eq!(session.replace(1, "c"), Ok("b"));
    assert_eq!(session.get(0).map(|h| h.utxo), Some("a"));
    assert!(session.remove(0).is_some());
    assert_eq!(session.get(1).map(|h| h.utxo), Some("c"));
    assert_eq!(session.mint::<()>(export("full"), Ok("d")), Ok(2));
    assert!(session.get(0).is_none());
}

#[test]
fn constructors_are_planned() {
    let session: Session<()> = Session::new();
    let catalog = catalog();
    let args = vec![number(3)];
    match session.plan_call(&catalog, "full", "[static]utxo.new", &args) {
        Ok(CallPlan::Construct { export, params, .. }) => {
            assert_eq!(export.name(), "[static]utxo.new");
            assert_eq!(export.instance(), "full");
            assert_eq!(params, vec![Value::U8(3)]);
        }
        other => panic!("{other:?}"),
    }
    assert_eq!(
        session.plan_call(&catalog, "full", "[static]utxo.new", &vec![]).err(),
        Some(RequestError::Json(JsonError::ArgumentCount { expected: 1, got: 0 }))
    );
    assert_eq!(
        session.plan_call(&catalog, "full", "[static]utxo.old", &args).err(),
        Some(RequestError::Refused(Cause::ExportNotFound))
    );
    assert_eq!(
        session.plan_call(&catalog, "none", "[static]utxo.new", &args).err(),
        Some(RequestError::Refused(Cause::ExportNotFound))
    );
}

#[test]
fn methods_are_planned() {
    let mut session: Session<()> = Session::new();
    let catalog = catalog();
    let id = session.insert(Handle { export: export("full"), utxo: () });
    match session.plan_call(&catalog, "full", "[method]utxo.plus", &vec![handle(0), number(5)]) {
        Ok(CallPlan::Method { id: planned, export, params }) => {
            assert_eq!(planned, id);
            assert_eq!(export.name(), "[method]utxo.plus");
            assert_eq!(params, vec![Value::U8(5)]);
        }
        other => panic!("{other:?}"),
    }
    let fault = |args: Vec<Json>| {
        let r = session.plan_call(&catalog, "full", "[method]utxo.plus", &args);
        r.err().map(|e| e.text("shown"))
    };
    assert_eq!(
        fault(vec![]),
        Some(text("a method call needs a `$handle` as its first argument"))
    );
    assert_eq!(fault(vec![number(0), number(5)]), fault(vec![]));
    assert_eq!(fault(vec![handle(7), number(5)]), Some(text("unknown handle")));
    assert_eq!(fault(vec![handle(0)]), Some(text("expected 1 argument(s), got 0")));
    assert_eq!(
        fault(vec![handle(0), Json::Null]),
        Some(text("expected an unsigned integer, got `shown`"))
    );
    // The arguments are looked at before the handle is.
    assert_eq!(fault(vec![handle(7)]), Some(text("expected 1 argument(s), got 0")));
    // A constructor without its prefix is no method.
    assert_eq!(
        session.plan_call(&catalog, "full", "set-storage", &vec![handle(0)]).err(),
        Some(RequestError::Refused(Cause::NoBorrow))
    );
}

#[test]
fn storage_is_planned() {
    let mut session: Session<()> = Session::new();
    let full = session.insert(Handle { export: export("full"), utxo: () });
    let bare = session.insert(Handle { export: export("bare"), utxo: () });
    let storage = session.plan_storage_get(full).expect("no storage");
    assert_eq!(storage.instance(), "full");
    assert_eq!(*storage.ty(), vec![(text("chips"), Type::U64)]);
    assert_eq!(session.plan_storage_get(bare).err(), Some(RequestError::NoStorage));
    assert_eq!(session.plan_storage_get(9).err(), Some(RequestError::UnknownHandle));

    let value = chips(12);
    assert_eq!(
        session.plan_storage_set(full, &value),
        Ok(vec![(text("chips"), Value::U64(12))])
    );
    assert_eq!(session.plan_storage_set(bare, &value), Err(RequestError::NoStorage));
    assert_eq!(session.plan_storage_set(9, &value), Err(RequestError::UnknownHandle));
    assert_eq!(
        session.plan_storage_set(full, &Json::Null),
        Err(RequestError::Json(JsonError::Expected(Expected::ObjectForRecord, &Json::Null)))
    );
}

#[test]
fn loading_is_planned() {
    let catalog = catalog();
    let value = chips(12);
    let (utxo, fields) = plan_load(&catalog, "full", &value).expect("refused");
    assert!(utxo.storage().is_some());
    assert_eq!(fields, vec![(text("chips"), Value::U64(12))]);
    assert_eq!(plan_load(&catalog, "bare", &value).err(), Some(RequestError::NoStorage));
    assert_eq!(
        plan_load(&catalog, "none", &value).err(),
        Some(RequestError::Refused(Cause::ExportNotFound))
    );
    assert_eq!(
        plan_load(&catalog, "full", &Json::Object(vec![])).err(),
        Some(RequestError::Json(JsonError::MissingField(text("chips"))))
    );
}
