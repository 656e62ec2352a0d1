//! Linking what a contract imports.

use starstream_run::cause::Cause;
use starstream_run::contract::Contract;
use starstream_run::error::{import_error_text, RunError, Step};
use starstream_run::host::{CardanoCtx, Ctx, MethodHash};
use starstream_run::link::{
    link_abi_event_function, link_builtins, link_dynamic_imports, link_instance, EventHandler,
};
use starstream_run::linker::ImportLinker;
use starstream_run::types::{ComponentType, FuncType, Item, Type};
use starstream_run::{builtin, cardano};
use wasmtime::component::{ResourceType, Val};
use wasmtime::Engine;

struct Thing;

/// Store data that reports a Cardano context of its own.
struct Clock;

impl builtin::Host for Clock {
    fn implements_method(&mut self, _hash: MethodHash) -> wasmtime::Result<()> {
        Ok(())
    }
}

impl cardano::Host for Clock {
    fn block_height(&mut self) -> i64 {
        -5
    }

    fn current_slot(&mut self) -> i64 {
        77
    }
}

impl EventHandler for Clock {
    fn emit_event(&mut self, _instance: &str, _name: &str, _params: &[Val]) {}
}

fn text(s: &str) -> String {
    s.to_string()
}

fn event() -> Item {
    let params = vec![(text("x"), Type::U64)];
    Item::Func(FuncType { params, results: vec![], is_async: false })
}

fn resource() -> ResourceType {
    ResourceType::host::<Thing>()
}

fn items(items: Vec<(&str, Item)>) -> Vec<(String, Item)> {
    items.into_iter().map(|(name, item)| (text(name), item)).collect()
}

/// Links the imports of a component.
fn link(imports: Vec<(&str, Item)>) -> Result<(), RunError> {
    let mut linker: ImportLinker<Ctx> = ImportLinker::new(&Engine::default());
    let ty = ComponentType { imports: items(imports), exports: vec![] };
    link_dynamic_imports(&mut linker, &ty)
}

/// Why imports are refused.
fn refused(imports: Vec<(&str, Item)>) -> Option<Cause> {
    match link(imports) {
        Err(RunError::Refused(cause)) => Some(cause),
        _ => None,
    }
}

/// Why an imported instance with this item is refused.
fn abi_refused(item: Item) -> Option<Cause> {
    refused(vec![("a:b/c", Item::Instance(items(vec![("e", event()), ("x", item)])))])
}

#[test]
fn events_and_types_are_linked() {
    assert!(link(vec![]).is_ok());
    assert!(link(vec![
        ("a:b/c", Item::Instance(items(vec![("e", event()), ("t", Item::Type(Type::U8))]))),
        ("t", Item::Type(Type::U8)),
        ("starstream:std/builtin", Item::Module),
    ])
    .is_ok());
}

#[test]
fn only_the_standard_package_is_built_in() {
    assert!(link(vec![("starstream:std/anything", event())]).is_ok());
    assert_eq!(refused(vec![("starstream:std", event())]), Some(Cause::RootFunc));
    assert_eq!(refused(vec![("starstream:std2/x", event())]), Some(Cause::RootFunc));
}

#[test]
fn other_root_imports_are_refused() {
    assert_eq!(refused(vec![("f", event())]), Some(Cause::RootFunc));
    assert_eq!(refused(vec![("f", Item::CoreFunc)]), Some(Cause::RootCoreFunc));
    assert_eq!(refused(vec![("m", Item::Module)]), Some(Cause::RootModule));
    assert_eq!(refused(vec![("c", Item::Component)]), Some(Cause::RootComponent));
    assert_eq!(refused(vec![("r", Item::Resource(resource()))]), Some(Cause::RootResource));
}

#[test]
fn other_items_of_an_instance_are_refused() {
    assert_eq!(abi_refused(Item::CoreFunc), Some(Cause::AbiCoreFunc));
    assert_eq!(abi_refused(Item::Module), Some(Cause::AbiModule));
    assert_eq!(abi_refused(Item::Component), Some(Cause::AbiComponent));
    assert_eq!(abi_refused(Item::Instance(vec![])), Some(Cause::AbiInstance));
    assert_eq!(abi_refused(Item::Resource(resource())), Some(Cause::AbiResource));
}

#[test]
fn instances_that_own_a_utxo_are_refused() {
    for item in [event(), Item::Resource(resource())] {
        assert_eq!(
            refused(vec![("a:b/c", Item::Instance(items(vec![("utxo", item)])))]),
            Some(Cause::CoordinationScript)
        );
    }
}

#[test]
fn the_linker_refuses_a_name_that_it_has() {
    let instance = || Item::Instance(items(vec![("e", event())]));
    assert!(matches!(
        link(vec![("a:b/c", instance()), ("a:b/c", instance())]),
        Err(RunError::Import(name, _)) if name == "a:b/c"
    ));
    assert_eq!(
        import_error_text("a:b/c"),
        "failed to instantiate `a:b/c` in the linker"
    );

    let mut linker: ImportLinker<Ctx> = ImportLinker::new(&Engine::default());
    let mut abi = linker.instance("a:b/c").expect("no instance");
    let ty = FuncType { params: vec![], results: vec![], is_async: false };
    assert!(link_abi_event_function(&mut abi, &ty, "a:b/c", "e").is_ok());
    assert!(matches!(
        link_abi_event_function(&mut abi, &ty, "a:b/c", "e"),
        Err(RunError::Engine(Step::LinkEvent, _))
    ));
    assert!(link_instance(&mut abi, &items(vec![("f", event())]), "a:b/c").is_ok());
    assert!(matches!(
        link_instance(&mut abi, &items(vec![("f", event())]), "a:b/c"),
        Err(RunError::Engine(Step::LinkEvent, _))
    ));
}

#[test]
fn a_linker_gains_what_is_linked_and_no_more() {
    let mut linker: ImportLinker<Ctx> = ImportLinker::new(&Engine::default());
    let ty = ComponentType {
        imports: items(vec![
            ("a:b/c@1.0.0", Item::Instance(items(vec![("e", event()), ("f", event())]))),
            ("t", Item::Type(Type::U8)),
            ("starstream:std/builtin", Item::Instance(items(vec![("g", event())]))),
        ]),
        exports: vec![],
    };
    assert!(link_dynamic_imports(&mut linker, &ty).is_ok());
    // The instance stands under its full name, and nothing stands under the others.
    assert!(matches!(linker.instance("a:b/c@1.0.0"), Err(RunError::Import(..))));
    assert!(linker.instance("a:b/c").is_ok());
    assert!(linker.instance("t").is_ok());
    assert!(linker.instance("starstream:std/builtin").is_ok());
}

#[test]
fn a_refused_import_leaves_what_was_linked_before_it() {
    let mut linker: ImportLinker<Ctx> = ImportLinker::new(&Engine::default());
    let ty = ComponentType {
        imports: items(vec![
            ("a:b/one", Item::Instance(items(vec![("e", event())]))),
            ("a:b/two", Item::Instance(items(vec![("e", event()), ("m", Item::Module)]))),
            ("a:b/three", Item::Instance(items(vec![("e", event())]))),
        ]),
        exports: vec![],
    };
    assert!(matches!(
        link_dynamic_imports(&mut linker, &ty),
        Err(RunError::Refused(Cause::AbiModule))
    ));
    assert!(linker.instance("a:b/one").is_err());
    assert!(linker.instance("a:b/two").is_err());
    assert!(linker.instance("a:b/three").is_ok());
}

#[test]
fn an_instance_that_owns_a_utxo_gets_no_functions() {
    let mut linker: ImportLinker<Ctx> = ImportLinker::new(&Engine::default());
    let mut abi = linker.instance("a:b/c").expect("no instance");
    let owner = items(vec![("e", event()), ("utxo", Item::Resource(resource()))]);
    assert!(matches!(
        link_instance(&mut abi, &owner, "a:b/c"),
        Err(RunError::Refused(Cause::CoordinationScript))
    ));
    // The name of the event is still free.
    assert!(link_instance(&mut abi, &items(vec![("e", event())]), "a:b/c").is_ok());

    // Elsewhere what comes before the item that is refused is linked.
    let mut abi = linker.instance("a:b/d").expect("no instance");
    let faulty = items(vec![("e", event()), ("m", Item::Module), ("f", event())]);
    assert!(matches!(
        link_instance(&mut abi, &faulty, "a:b/d"),
        Err(RunError::Refused(Cause::AbiModule))
    ));
    assert!(link_instance(&mut abi, &items(vec![("f", event())]), "a:b/d").is_ok());
    assert!(link_instance(&mut abi, &items(vec![("e", event())]), "a:b/d").is_err());
}

#[test]
fn one_event_function_has_one_name() {
    let twice = Item::Instance(items(vec![("e", event()), ("e", event())]));
    assert!(matches!(
        link(vec![("a:b/c", twice)]),
        Err(RunError::Engine(Step::LinkEvent, _))
    ));
    // A type and a function may share one: a type is not defined in the linker.
    let shared = Item::Instance(items(vec![("e", event()), ("e", Item::Type(Type::U8))]));
    assert!(link(vec![("a:b/c", shared)]).is_ok());
}

#[test]
fn builtins_are_linked_once() {
    let mut linker: ImportLinker<Ctx> = ImportLinker::new(&Engine::default());
    assert!(link_builtins(&mut linker).is_ok());
    assert!(matches!(
        link_builtins(&mut linker),
        Err(RunError::Engine(Step::LinkBuiltins, _))
    ));
}

/// A contract whose constructor takes the height and the slot, and fails where the
/// host reports others.
const CLOCK: &str = r#"
(component
  (import "starstream:std/cardano" (instance $cardano
    (export "block-height" (func (result s64)))
    (export "current-slot" (func (result s64)))))
  (type $utxo (resource (rep i32)))
  (core func $height (canon lower (func $cardano "block-height")))
  (core func $slot (canon lower (func $cardano "current-slot")))
  (core func $mint (canon resource.new $utxo))
  (core module $module
    (import "host" "height" (func $height (result i64)))
    (import "host" "slot" (func $slot (result i64)))
    (import "host" "mint" (func $mint (param i32) (result i32)))
    (func (export "new") (param i64 i64) (result i32)
      (if (i64.ne (call $height) (local.get 0)) (then unreachable))
      (if (i64.ne (call $slot) (local.get 1)) (then unreachable))
      (call $mint (i32.const 1))))
  (core instance $i (instantiate $module
    (with "host" (instance
      (export "height" (func $height))
      (export "slot" (func $slot))
      (export "mint" (func $mint))))))
  (func $new (param "height" s64) (param "slot" s64) (result (own $utxo))
    (canon lift (core func $i "new")))
  (component $shim
    (import "in-utxo" (type $utxo (sub resource)))
    (import "in-new" (func $new (param "height" s64) (param "slot" s64) (result (own $utxo))))
    (export $u "utxo" (type $utxo))
    (export "[static]utxo.new" (func $new)
      (func (param "height" s64) (param "slot" s64) (result (own $u)))))
  (instance $progress (instantiate $shim
    (with "in-utxo" (type $utxo))
    (with "in-new" (func $new))))
  (export "clock" (instance $progress)))
"#;

#[test]
fn guests_see_the_cardano_context() {
    let wasm = wat::parse_str(CLOCK).expect("malformed component");
    let contract = Contract::<Clock>::new(&wasm).expect("failed to load the contract");
    let utxo = contract.get_utxo("clock").expect("no `utxo`");
    let new = contract.get_utxo_constructor(&utxo, "[static]utxo.new").expect("no `new`");
    assert!(contract.create_utxo(Clock, &new, &[Val::S64(-5), Val::S64(77)]).is_ok());
    assert!(matches!(
        contract.create_utxo(Clock, &new, &[Val::S64(77), Val::S64(-5)]),
        Err(RunError::Engine(Step::CallConstructor, _))
    ));

    let contract = Contract::<Ctx>::new(&wasm).expect("failed to load the contract");
    let utxo = contract.get_utxo("clock").expect("no `utxo`");
    let new = contract.get_utxo_constructor(&utxo, "[static]utxo.new").expect("no `new`");
    let ctx = Ctx::new(CardanoCtx { block_height: 3, current_slot: 4 });
    assert!(contract.create_utxo(ctx, &new, &[Val::S64(3), Val::S64(4)]).is_ok());
    assert!(utxo.storage().is_none());
}

#[test]
fn contracts_with_other_imports_are_refused() {
    let wasm = wat::parse_str(r#"(component (import "f" (func)))"#).expect("malformed component");
    assert!(matches!(
        Contract::<Clock>::new(&wasm),
        Err(RunError::Refused(Cause::RootFunc))
    ));
}
