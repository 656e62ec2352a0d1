//! Drives the `score` contract through the typed API.

use std::collections::BTreeMap;

use bytes::BytesMut;
use starstream_run::builtin::Host as _;
use starstream_run::cause::Cause;
use starstream_run::codec::ValEncoder;
use starstream_run::contract::{Contract, Host};
use starstream_run::discovery::{Catalog, MethodExport};
use starstream_run::error::{RunError, Stage, Step};
use starstream_run::host::{method_hash, CardanoCtx, Ctx as CliCtx, MethodHash};
use starstream_run::link::EventHandler;
use starstream_run::types::{ComponentType, Item, Type};
use starstream_run::utxo::{sole_record, sole_resource, with_receiver, Utxo};
use starstream_run::value::Value;
use starstream_run::wave::{parse_fields, parse_params, ParamError};
use starstream_run::{builtin, cardano};
use wasmtime::component::Val;

/// The `score` contract: a `utxo` whose storage counts chips and a multiplier. Its
/// constructor declares the four methods by the SHA-256 of their source names.
const SCORE: &str = r#"
(component
  (import "starstream:std/builtin" (instance $builtin
    (export "implements-method" (func (param "hash" (tuple u64 u64 u64 u64))))))
  (import "root:component/score" (instance $score
    (export "finish" (func (param "x" u64)))))

  (type $utxo (resource (rep i32)))
  (type $storage (record (field "chips" u64) (field "mult" u64)))

  (core func $implements (canon lower (func $builtin "implements-method")))
  (core func $finish (canon lower (func $score "finish")))
  (core func $mint (canon resource.new $utxo))

  (core module $module
    (import "host" "implements" (func $implements (param i64 i64 i64 i64)))
    (import "host" "finish" (func $finish (param i64)))
    (import "host" "mint" (func $mint (param i32) (result i32)))
    (memory (export "memory") 1)
    (global $chips (mut i64) (i64.const 0))
    (global $mult (mut i64) (i64.const 0))
    (func (export "new") (result i32)
      (call $implements
        (i64.const 0x8a90ed3dc740417b) (i64.const 0x346b480440da66d0)
        (i64.const 0x9e68340ecc5e83be) (i64.const 0xf7c2b21fa85238fd))
      (call $implements
        (i64.const 0x8b37a82ac574bc25) (i64.const 0x5151ce4b429c2d24)
        (i64.const 0xcb1e5073bc009020) (i64.const 0xff5ac74a20f1d107))
      (call $implements
        (i64.const 0x9189311850607b4c) (i64.const 0xb56d074f69946aab)
        (i64.const 0xc81b34f23200938e) (i64.const 0xdb55d6fb32b59ade))
      (call $implements
        (i64.const 0x4aba6e61e343af42) (i64.const 0x6c8ea84055753a13)
        (i64.const 0x9ee4c666fe5d0861) (i64.const 0xdac0f0daf9eab86a))
      (call $mint (i32.const 1)))
    (func (export "get") (param i32) (result i32)
      (i64.store (i32.const 16) (global.get $chips))
      (i64.store (i32.const 24) (global.get $mult))
      (i32.const 16))
    (func (export "set") (param i64 i64) (result i32)
      (global.set $chips (local.get 0))
      (global.set $mult (local.get 1))
      (call $mint (i32.const 2)))
    (func (export "plus-chips") (param i32 i64)
      (global.set $chips (i64.add (global.get $chips) (local.get 1))))
    (func (export "plus-mult") (param i32 i64)
      (global.set $mult (i64.add (global.get $mult) (local.get 1))))
    (func (export "mult-mult") (param i32 i64)
      (global.set $mult
        (i64.div_u (i64.mul (global.get $mult) (local.get 1)) (i64.const 100))))
    (func (export "finish") (param i32)
      (call $finish (i64.mul (global.get $chips) (global.get $mult)))))

  (core instance $i (instantiate $module
    (with "host" (instance
      (export "implements" (func $implements))
      (export "finish" (func $finish))
      (export "mint" (func $mint))))))
  (alias core export $i "memory" (core memory $memory))

  (func $new (result (own $utxo)) (canon lift (core func $i "new")))
  (func $get (param "utxo" (borrow $utxo)) (result $storage)
    (canon lift (core func $i "get") (memory $memory)))
  (func $set (param "storage" $storage) (result (own $utxo))
    (canon lift (core func $i "set")))
  (func $plus-chips (param "self" (borrow $utxo)) (param "chips2" u64)
    (canon lift (core func $i "plus-chips")))
  (func $plus-mult (param "self" (borrow $utxo)) (param "mult2" u64)
    (canon lift (core func $i "plus-mult")))
  (func $mult-mult (param "self" (borrow $utxo)) (param "mult-pct" u64)
    (canon lift (core func $i "mult-mult")))
  (func $end (param "self" (borrow $utxo)) (canon lift (core func $i "finish")))

  (component $shim
    (import "in-utxo" (type $utxo (sub resource)))
    (type $record (record (field "chips" u64) (field "mult" u64)))
    (import "in-storage" (type $storage (eq $record)))
    (import "in-new" (func $new (result (own $utxo))))
    (import "in-get" (func $get (param "utxo" (borrow $utxo)) (result $storage)))
    (import "in-set" (func $set (param "storage" $storage) (result (own $utxo))))
    (import "in-plus-chips" (func $plus-chips
      (param "self" (borrow $utxo)) (param "chips2" u64)))
    (import "in-plus-mult" (func $plus-mult
      (param "self" (borrow $utxo)) (param "mult2" u64)))
    (import "in-mult-mult" (func $mult-mult
      (param "self" (borrow $utxo)) (param "mult-pct" u64)))
    (import "in-finish" (func $finish (param "self" (borrow $utxo))))
    (export $u "utxo" (type $utxo))
    (export $s "storage" (type $storage))
    (export "get-storage" (func $get) (func (param "utxo" (borrow $u)) (result $s)))
    (export "set-storage" (func $set) (func (param "storage" $s) (result (own $u))))
    (export "[static]utxo.new" (func $new) (func (result (own $u))))
    (export "[method]utxo.plus-chips" (func $plus-chips)
      (func (param "self" (borrow $u)) (param "chips2" u64)))
    (export "[method]utxo.plus-mult" (func $plus-mult)
      (func (param "self" (borrow $u)) (param "mult2" u64)))
    (export "[method]utxo.mult-mult" (func $mult-mult)
      (func (param "self" (borrow $u)) (param "mult-pct" u64)))
    (export "[method]utxo.finish" (func $finish) (func (param "self" (borrow $u)))))

  (instance $progress (instantiate $shim
    (with "in-utxo" (type $utxo))
    (with "in-storage" (type $storage))
    (with "in-new" (func $new))
    (with "in-get" (func $get))
    (with "in-set" (func $set))
    (with "in-plus-chips" (func $plus-chips))
    (with "in-plus-mult" (func $plus-mult))
    (with "in-mult-mult" (func $mult-mult))
    (with "in-finish" (func $end))))
  (export "root:component/score-progress" (instance $progress)))
"#;

/// The bytes of the `score` contract.
fn score() -> Vec<u8> {
    wat::parse_str(SCORE).expect("the `score` component is malformed")
}

/// How much address space is set aside for each memory of a guest: little, since one
/// page of 64 KiB is all that a guest here has.
const RESERVATION: u64 = 1 << 20;

/// The `score` contract, ready to be driven.
fn load<T: Host>() -> Contract<T> {
    Contract::with_reservation(&score(), RESERVATION).expect("failed to load the contract")
}

/// Store data that keeps nothing and reports a zeroed Cardano context.
#[derive(Clone, Debug, Default)]
struct Ctx;

impl builtin::Host for Ctx {
    fn implements_method(&mut self, _hash: MethodHash) -> wasmtime::Result<()> {
        Ok(())
    }
}

impl cardano::Host for Ctx {
    fn block_height(&mut self) -> i64 {
        0
    }

    fn current_slot(&mut self) -> i64 {
        0
    }
}

impl EventHandler for Ctx {
    fn emit_event(&mut self, _instance: &str, _name: &str, _params: &[Val]) {}
}

/// Store data that keeps what the guest tells the host.
#[derive(Default)]
struct Recorder {
    hashes: Vec<MethodHash>,
    events: Vec<(String, String, Vec<Val>)>,
}

impl builtin::Host for Recorder {
    fn implements_method(&mut self, hash: MethodHash) -> wasmtime::Result<()> {
        self.hashes.push(hash);
        Ok(())
    }
}

impl cardano::Host for Recorder {
    fn block_height(&mut self) -> i64 {
        -5
    }

    fn current_slot(&mut self) -> i64 {
        77
    }
}

impl EventHandler for Recorder {
    fn emit_event(&mut self, instance: &str, name: &str, params: &[Val]) {
        self.events.push((instance.to_string(), name.to_string(), params.to_vec()));
    }
}

/// Invoke the `[method]utxo.<name>` ABI method on a live handle, injecting the
/// resource as the borrowed `self` first parameter.
fn call_method<T>(
    handle: &mut Utxo<T>,
    methods: &BTreeMap<String, MethodExport>,
    name: &str,
    args: &[Val],
) {
    let export = methods
        .get(&format!("[method]utxo.{name}"))
        .unwrap_or_else(|| panic!("missing `{name}` method"));
    let params = with_receiver(handle.resource(), args.to_vec());
    handle
        .call(export, &params)
        .unwrap_or_else(|err| panic!("calling `{name}` failed: {err:?}"));
}

/// The methods of the first `utxo` of a contract.
fn methods_of<T: Host>(contract: &Contract<T>) -> BTreeMap<String, MethodExport> {
    let (_, utxo) = contract.utxos().remove(0);
    contract
        .utxo_methods(&utxo.expect("failed to describe the `utxo` resource"))
        .into_iter()
        .map(|(name, method)| (name, method.expect("failed to describe method")))
        .collect()
}

#[test]
fn drives_score_utxo_resource() {
    let contract = Contract::<Ctx>::with_reservation(&score(), RESERVATION)
        .expect("failed to instantiate score contract");

    // The exported `score-progress` instance owns a `utxo` resource with a
    // `new` constructor and the `Score` ABI methods.
    let (instance_name, utxo) = contract
        .utxos()
        .into_iter()
        .next()
        .expect("expected an instance exporting a `utxo` resource");
    let utxo = utxo.expect("failed to describe the `utxo` resource");

    // The by-name lookups resolve the same exports.
    let utxo_by_name = contract
        .get_utxo(&instance_name)
        .expect("failed to look up the `utxo` instance by name");
    contract
        .get_utxo_constructor(&utxo_by_name, "[static]utxo.new")
        .expect("failed to look up the `new` constructor by name");
    contract
        .get_utxo_method(&utxo_by_name, "[method]utxo.plus-chips")
        .expect("failed to look up the `plus-chips` method by name");

    // It exposes the `new` constructor ...
    let new = contract
        .utxo_constructors(&utxo)
        .into_iter()
        .find_map(|(name, ctor)| (name == "[static]utxo.new").then_some(ctor))
        .expect("expected a `[static]utxo.new` constructor")
        .expect("failed to describe the `new` constructor");

    // ... and the `Score` ABI methods.
    let methods: BTreeMap<String, MethodExport> = contract
        .utxo_methods(&utxo)
        .into_iter()
        .map(|(name, method)| (name, method.expect("failed to describe method")))
        .collect();
    for method in ["plus-chips", "plus-mult", "mult-mult", "finish"] {
        assert!(
            methods.contains_key(&format!("[method]utxo.{method}")),
            "expected a `{method}` method, got {:?}",
            methods.keys().collect::<Vec<_>>(),
        );
    }

    // The `utxo` resource owns a `storage` record read back via `get-storage`.
    let storage = utxo.storage().expect("expected the `utxo` resource to own `storage`");

    // Mint a handle with `new`, passing the store data for its fresh store.
    let mut handle = contract.create_utxo(Ctx, &new, &[]).expect("calling `new` failed");

    // Run the `Score` ABI: chips = 0 + 10; mult = 0 + 4; mult = 4 * 150 / 100 = 6.
    call_method(&mut handle, &methods, "plus-chips", &[Val::U64(10)]);
    call_method(&mut handle, &methods, "plus-mult", &[Val::U64(4)]);
    call_method(&mut handle, &methods, "mult-mult", &[Val::U64(150)]);

    // Read the accumulated score back through the typed storage accessor.
    let got = handle.storage(storage).get().expect("reading storage failed");
    assert_eq!(
        got,
        vec![("chips".to_string(), Val::U64(10)), ("mult".to_string(), Val::U64(6))],
        "storage did not match the expected score"
    );

    // `finish` emits the `Finish(chips * mult)` ABI event (host-side: a no-op).
    call_method(&mut handle, &methods, "finish", &[]);
}

#[test]
fn storage_can_be_loaded_and_read_back() {
    let contract = load::<Recorder>();
    let utxo = contract.get_utxo("root:component/score-progress").expect("no `utxo`");
    let storage = utxo.storage().expect("no storage");
    let fields = vec![("chips".to_string(), Val::U64(7)), ("mult".to_string(), Val::U64(9))];
    let mut handle = contract
        .load_utxo(Recorder::default(), storage, fields.clone())
        .expect("calling `set-storage` failed");
    assert_eq!(handle.storage(storage).get().expect("reading storage failed"), fields);

    let methods = methods_of(&contract);
    call_method(&mut handle, &methods, "finish", &[]);
    let data = handle.drop().expect("dropping failed");
    assert_eq!(
        data.events,
        vec![("root:component/score".to_string(), "finish".to_string(), vec![Val::U64(63)])]
    );
    assert!(data.hashes.is_empty());
}

#[test]
fn constructors_declare_methods() {
    let contract = load::<Recorder>();
    let utxo = contract.get_utxo("root:component/score-progress").expect("no `utxo`");
    let new = contract.get_utxo_constructor(&utxo, "[static]utxo.new").expect("no `new`");
    let handle = contract.create_utxo(Recorder::default(), &new, &[]).expect("`new` failed");
    let data = handle.drop().expect("dropping failed");
    assert_eq!(
        data.hashes,
        vec![
            method_hash("[method]utxo.plus-chips"),
            method_hash("[method]utxo.plus-mult"),
            method_hash("[method]utxo.mult-mult"),
            method_hash("[method]utxo.finish"),
        ]
    );
    assert!(data.events.is_empty());
}

#[test]
fn interface_lists_declared_methods() {
    let name = "root:component/score-progress";
    let contract = load::<CliCtx>();
    let utxo = contract.get_utxo(name).expect("no `utxo`");
    let new = contract.get_utxo_constructor(&utxo, "[static]utxo.new").expect("no `new`");
    let ctx = || CliCtx::new(CardanoCtx { block_height: 0, current_slot: 0 });

    let mut handle = contract.create_utxo(ctx(), &new, &[]).expect("`new` failed");
    let text = contract.interface(name, handle.store().data()).expect("no interface");
    assert_eq!(
        text,
        r#"package starstream:utxo;

interface score-progress {
    plus-chips: func(chips2: u64);
    plus-mult: func(mult2: u64);
    mult-mult: func(mult-pct: u64);
    finish: func();
}
"#
    );

    // Nothing is offered that the guest did not declare.
    let mut one = ctx();
    one.implements_method(method_hash("mult_mult")).expect("not taken");
    assert_eq!(
        contract.interface(name, &one).expect("no interface"),
        "package starstream:utxo;\n\ninterface score-progress {\n    mult-mult: func(mult-pct: \
         u64);\n}\n"
    );
    assert_eq!(
        contract.interface(name, &ctx()).expect("no interface"),
        "package starstream:utxo;\n\ninterface score-progress {\n}\n"
    );
    assert_eq!(contract.interface("nothing", &ctx()), Err(Cause::ExportNotFound));
}

#[test]
fn lookups_say_what_is_missing() {
    let contract = load::<Ctx>();
    let utxo = contract.get_utxo("root:component/score-progress").expect("no `utxo`");
    assert_eq!(contract.get_utxo("missing").map(|_| ()), Err(Cause::ExportNotFound));
    assert_eq!(
        contract.get_utxo_constructor(&utxo, "[static]utxo.old").map(|_| ()),
        Err(Cause::ExportNotFound)
    );
    assert_eq!(
        contract.get_utxo_constructor(&utxo, "utxo").map(|_| ()),
        Err(Cause::NotAFunction)
    );
    assert_eq!(
        contract.get_utxo_method(&utxo, "set-storage").map(|_| ()),
        Err(Cause::NoBorrow)
    );
    assert_eq!(
        contract.get_utxo_constructor(&utxo, "get-storage").map(|_| ()),
        Err(Cause::NoSingleResource)
    );
    let method = contract.get_utxo_method(&utxo, "[method]utxo.plus-chips").expect("no method");
    assert_eq!(method.instance(), "root:component/score-progress");
    assert_eq!(method.name(), "[method]utxo.plus-chips");
    assert_eq!(method.ty().params.len(), 2);
    assert_eq!(method.ty().params[1], ("chips2".to_string(), Type::U64));
    assert!(method.ty().results.is_empty());
    let storage = utxo.storage().expect("no storage");
    assert_eq!(storage.instance(), "root:component/score-progress");
    assert_eq!(
        *storage.ty(),
        vec![("chips".to_string(), Type::U64), ("mult".to_string(), Type::U64)]
    );
}

#[test]
fn a_clone_drives_the_same_contract() {
    let contract = load::<Ctx>().clone();
    let utxo = contract.get_utxo("root:component/score-progress").expect("no `utxo`");
    let new = contract.get_utxo_constructor(&utxo, "[static]utxo.new").expect("no `new`");
    let mut handle = contract.create_utxo(Ctx, &new, &[]).expect("`new` failed");
    call_method(&mut handle, &methods_of(&contract), "plus-chips", &[Val::U64(3)]);
    let storage = utxo.storage().expect("no storage");
    assert_eq!(
        handle.storage(storage).get().expect("reading storage failed"),
        vec![("chips".to_string(), Val::U64(3)), ("mult".to_string(), Val::U64(0))]
    );
}

#[test]
fn calls_with_wrong_arguments_fail() {
    let contract = load::<Ctx>();
    let utxo = contract.get_utxo("root:component/score-progress").expect("no `utxo`");
    let new = contract.get_utxo_constructor(&utxo, "[static]utxo.new").expect("no `new`");
    let plus = contract.get_utxo_method(&utxo, "[method]utxo.plus-chips").expect("no method");
    let mut handle = contract.create_utxo(Ctx, &new, &[]).expect("`new` failed");
    let resource = handle.resource();
    assert!(matches!(
        handle.call(&plus, &[Val::Resource(resource), Val::Bool(true)]),
        Err(RunError::Engine(Step::CallMethod, _))
    ));
    assert!(matches!(
        contract.create_utxo(Ctx, &new, &[Val::Bool(true)]),
        Err(RunError::Engine(Step::CallConstructor, _))
    ));
    // Nothing is found under the name of an instance that the contract does not have.
    let catalog = contract.catalog();
    let mut other = catalog.own.exports.clone();
    other[0].0 = "another:component/score".to_string();
    let other = Catalog {
        own: ComponentType { imports: vec![], exports: other.clone() },
        ty: ComponentType { imports: vec![], exports: other },
    };
    let utxo = other.get_utxo("another:component/score").expect("no `utxo`");
    let new = other.get_utxo_constructor(&utxo, "[static]utxo.new").expect("no `new`");
    let plus = other.get_utxo_method(&utxo, "[method]utxo.plus-chips").expect("no method");
    assert!(matches!(
        contract.create_utxo(Ctx, &new, &[]),
        Err(RunError::Refused(Cause::ConstructorNotFound))
    ));
    assert!(matches!(
        handle.call(&plus, &[Val::Resource(resource), Val::U64(1)]),
        Err(RunError::Refused(Cause::FunctionNotFound))
    ));
    let storage = utxo.storage().expect("no storage");
    assert!(matches!(
        handle.storage(storage).get(),
        Err(RunError::Refused(Cause::FunctionNotFound))
    ));
}

#[test]
fn exports_of_another_contract_are_not_found() {
    let instance = "root:component/score-progress";
    let (one, other) = (load::<Ctx>(), load::<Ctx>());
    let utxo = one.get_utxo(instance).expect("no `utxo`");
    let new = one.get_utxo_constructor(&utxo, "[static]utxo.new").expect("no `new`");
    let plus = one.get_utxo_method(&utxo, "[method]utxo.plus-chips").expect("no method");
    let storage = utxo.storage().expect("no storage");

    // What was found in one contract is not found from the other, though the names are.
    assert_eq!(
        other.get_utxo_constructor(&utxo, "[static]utxo.new").map(|_| ()),
        Err(Cause::ExportNotFound)
    );
    assert_eq!(
        other.get_utxo_method(&utxo, "[method]utxo.plus-chips").map(|_| ()),
        Err(Cause::ExportNotFound)
    );
    assert!(other.utxo_methods(&utxo).into_iter().all(|(_, m)| m.is_err()));
    assert!(other.utxo_constructors(&utxo).into_iter().all(|(_, c)| c.is_err()));
    assert!(matches!(
        other.create_utxo(Ctx, &new, &[]),
        Err(RunError::Refused(Cause::ConstructorNotFound))
    ));
    assert!(matches!(
        other.load_utxo(Ctx, storage, vec![]),
        Err(RunError::Refused(Cause::ConstructorNotFound))
    ));
    let theirs = other.get_utxo(instance).expect("no `utxo`");
    let mine = other.get_utxo_constructor(&theirs, "[static]utxo.new").expect("no `new`");
    let mut handle = other.create_utxo(Ctx, &mine, &[]).expect("`new` failed");
    let params = with_receiver(handle.resource(), vec![Val::U64(1)]);
    assert!(matches!(
        handle.call(&plus, &params),
        Err(RunError::Refused(Cause::FunctionNotFound))
    ));
    assert!(matches!(
        handle.storage(storage).get(),
        Err(RunError::Refused(Cause::FunctionNotFound))
    ));

    // A clone is the same contract, and what a listing gives is found as well.
    let (_, listed) = one.clone().utxos().remove(0);
    let listed = listed.expect("no `utxo`");
    let again = one.get_utxo_constructor(&listed, "[static]utxo.new").expect("no `new`");
    assert!(one.clone().create_utxo(Ctx, &again, &[]).is_ok());
    assert!(one.clone().create_utxo(Ctx, &new, &[]).is_ok());
}

#[test]
fn the_store_can_be_changed() {
    let contract = load::<CliCtx>();
    let utxo = contract.get_utxo("root:component/score-progress").expect("no `utxo`");
    let new = contract.get_utxo_constructor(&utxo, "[static]utxo.new").expect("no `new`");
    let ctx = CliCtx::new(CardanoCtx { block_height: 1, current_slot: 2 });
    let mut handle = contract.create_utxo(ctx, &new, &[]).expect("`new` failed");
    assert_eq!(cardano::Host::block_height(handle.store().data_mut()), 1);
    *handle.store().data_mut() = CliCtx::new(CardanoCtx { block_height: 3, current_slot: 4 });
    assert_eq!(cardano::Host::block_height(handle.store().data_mut()), 3);
    assert_eq!(cardano::Host::current_slot(handle.store().data_mut()), 4);
    // The guest goes on as it was, and the new data are what it leaves.
    let storage = utxo.storage().expect("no storage");
    let fields = handle.storage(storage).get().expect("no record");
    assert_eq!(fields[0], ("chips".to_string(), Val::U64(0)));
    let mut left = handle.drop().expect("`drop` failed");
    assert_eq!(cardano::Host::block_height(&mut left), 3);
}

/// A contract with functions that the guest may leave unfinished.
const LATER: &str = r#"
(component
  (type $utxo (resource (rep i32)))
  (core func $mint (canon resource.new $utxo))
  (core module $module
    (import "host" "mint" (func $mint (param i32) (result i32)))
    (func (export "new") (result i32) (call $mint (i32.const 1)))
    (func (export "wait") (param i32)))
  (core instance $i (instantiate $module
    (with "host" (instance (export "mint" (func $mint))))))
  (func $new (result (own $utxo)) (canon lift (core func $i "new")))
  (func $later async (result (own $utxo)) (canon lift (core func $i "new")))
  (func $step (param "self" (borrow $utxo)) (canon lift (core func $i "wait")))
  (func $wait async (param "self" (borrow $utxo)) (canon lift (core func $i "wait")))
  (component $shim
    (import "in-utxo" (type $utxo (sub resource)))
    (import "in-new" (func $new (result (own $utxo))))
    (import "in-later" (func $later async (result (own $utxo))))
    (import "in-step" (func $step (param "self" (borrow $utxo))))
    (import "in-wait" (func $wait async (param "self" (borrow $utxo))))
    (export $u "utxo" (type $utxo))
    (export "[static]utxo.new" (func $new) (func (result (own $u))))
    (export "[static]utxo.later" (func $later) (func async (result (own $u))))
    (export "[method]utxo.step" (func $step) (func (param "self" (borrow $u))))
    (export "[method]utxo.wait" (func $wait) (func async (param "self" (borrow $u)))))
  (instance $progress (instantiate $shim
    (with "in-utxo" (type $utxo))
    (with "in-new" (func $new))
    (with "in-later" (func $later))
    (with "in-step" (func $step))
    (with "in-wait" (func $wait))))
  (export "later" (instance $progress)))
"#;

#[test]
fn async_functions_are_refused() {
    let wasm = wat::parse_str(LATER).expect("malformed component");
    let contract = Contract::<Ctx>::new(&wasm).expect("failed to load the contract");
    let utxo = contract.get_utxo("later").expect("no `utxo`");
    let new = contract.get_utxo_constructor(&utxo, "[static]utxo.new").expect("no `new`");
    let later = contract.get_utxo_constructor(&utxo, "[static]utxo.later").expect("no `later`");
    let step = contract.get_utxo_method(&utxo, "[method]utxo.step").expect("no `step`");
    let wait = contract.get_utxo_method(&utxo, "[method]utxo.wait").expect("no `wait`");
    assert!(matches!(
        contract.create_utxo(Ctx, &later, &[]),
        Err(RunError::Refused(Cause::AsyncFunction))
    ));
    assert_eq!(Cause::AsyncFunction.text(), "async function cannot be called synchronously");

    let mut handle = contract.create_utxo(Ctx, &new, &[]).expect("`new` failed");
    let params = with_receiver(handle.resource(), vec![]);
    assert!(handle.call(&step, &params).expect("`step` failed").is_empty());
    assert!(matches!(
        handle.call(&wait, &params),
        Err(RunError::Refused(Cause::AsyncFunction))
    ));
    assert!(handle.call(&step, &params).is_ok());
    assert!(handle.drop().is_ok());
}

#[test]
fn results_are_taken_apart() {
    let record = vec![("a".to_string(), Val::U8(1))];
    assert_eq!(sole_record(vec![Val::Record(record.clone())]), Ok(record));
    assert_eq!(sole_record(vec![]), Err(Cause::InvalidReturn));
    assert_eq!(sole_record(vec![Val::U8(1)]), Err(Cause::InvalidReturn));
    assert_eq!(
        sole_record(vec![Val::Record(vec![]), Val::Record(vec![])]),
        Err(Cause::InvalidReturn)
    );
    assert!(matches!(sole_resource(&vec![]), Err(Cause::InvalidReturn)));
    assert!(matches!(sole_resource(&vec![Val::U8(1)]), Err(Cause::InvalidReturn)));
}

#[test]
fn arguments_are_parsed_by_their_types() {
    let contract = load::<Ctx>();
    let instance = "root:component/score-progress";
    let set = contract.storage_handle(instance).expect("no storage");
    let texts = |v: &[&str]| v.iter().map(|s| s.to_string()).collect::<Vec<String>>();
    assert_eq!(
        parse_fields(&set, &texts(&["10", "6"])).map_err(|_| ()),
        Ok(vec![("chips".to_string(), Val::U64(10)), ("mult".to_string(), Val::U64(6))])
    );
    assert!(matches!(parse_fields(&set, &texts(&["10"])), Err(ParamError::Count { .. })));
    assert!(matches!(parse_fields(&set, &texts(&["10", "x"])), Err(ParamError::Parse { .. })));
    let new = contract.func_handle(instance, "[static]utxo.new").expect("no `new`");
    assert_eq!(parse_params(&new, &texts(&[])).map_err(|_| ()), Ok(vec![]));
    assert!(matches!(parse_params(&new, &texts(&["1"])), Err(ParamError::Count { .. })));
    assert!(contract.func_handle(instance, "utxo").is_none());
    assert!(contract.func_handle("missing", "utxo").is_none());
    assert!(contract.storage_handle("missing").is_none());
}

#[test]
fn a_core_module_becomes_a_component() {
    let module = wat::parse_str("(module)").expect("malformed module");
    let contract = Contract::<Ctx>::new(&module).expect("failed to load the module");
    assert!(contract.utxos().is_empty());
    assert!(contract.catalog().own.exports.is_empty());

    // It loads as the component that is made of it.
    let made = wit_component::ComponentEncoder::default()
        .validate(true)
        .module(&module)
        .and_then(|mut encoder| encoder.encode())
        .expect("failed to make a component");
    assert_ne!(made, module);
    let contract = Contract::<Ctx>::new(&made).expect("failed to load the component");
    assert!(contract.utxos().is_empty());
    assert!(contract.catalog().own.exports.is_empty());
}

#[test]
fn a_component_is_told_from_a_core_module() {
    let module = wat::parse_str("(module)").expect("malformed module");
    assert!(Contract::<Ctx>::from_component(&module, None).is_none());
    let component = wat::parse_str("(component)").expect("malformed component");
    let contract = Contract::<Ctx>::from_component(&component, None)
        .expect("not a component")
        .expect("failed to load the component");
    assert!(contract.utxos().is_empty());
    let contract = Contract::<Ctx>::from_component(&score(), Some(RESERVATION))
        .expect("not a component")
        .expect("failed to load the contract");
    assert_eq!(contract.utxos().len(), 1);
    assert!(matches!(
        Contract::<Ctx>::from_component(b"nothing", None),
        Some(Err(RunError::Engine(Step::LoadComponent, _)))
    ));
}

#[test]
fn both_types_of_a_contract_export_the_same_names() {
    let contract = load::<Ctx>();
    let names = |items: &[(String, Item)]| -> Vec<String> {
        items.iter().map(|(name, _)| name.clone()).collect()
    };
    let catalog = contract.catalog();
    assert_eq!(names(&catalog.own.exports), names(&catalog.ty.exports));
    for (own, ty) in catalog.own.exports.iter().zip(&catalog.ty.exports) {
        let (Item::Instance(own), Item::Instance(ty)) = (&own.1, &ty.1) else {
            panic!("not an instance")
        };
        assert_eq!(names(own), names(ty));
        let mut once = names(own);
        once.sort();
        once.dedup();
        assert_eq!(once.len(), own.len());
    }
    // Each listed `utxo` is the one that is found by its name.
    for (name, listed) in contract.utxos() {
        let found = contract.get_utxo(&name);
        assert_eq!(listed.map(|_| ()), found.map(|_| ()));
    }
}

#[test]
fn lists_of_fixed_length_are_refused() {
    let wasm = wat::parse_str(
        r#"(component (import "a:b/c" (instance (export "f" (func (param "x" (list u8 4)))))))"#,
    )
    .expect("malformed component");
    assert!(matches!(
        Contract::<Ctx>::new(&wasm),
        Err(RunError::Engine(Step::LoadComponent, _))
    ));
}

#[test]
fn broken_bytes_are_refused() {
    let mut module = wat::parse_str("(module)").expect("malformed module");
    module.push(0xff);
    assert!(matches!(
        Contract::<Ctx>::new(&module),
        Err(RunError::Componentize(Stage::SetModule, _))
    ));
    assert!(matches!(
        Contract::<Ctx>::new(b"nothing"),
        Err(RunError::Engine(Step::LoadComponent, _))
    ));
}

#[test]
fn resources_match_within_a_contract() {
    let contract = load::<Ctx>();
    let (_, item) = &contract.catalog().ty.exports[0];
    let Item::Instance(items) = item else { panic!("not an instance") };
    let utxo = items
        .iter()
        .find_map(|(_, item)| match item {
            Item::Resource(ty) => Some(*ty),
            _ => None,
        })
        .expect("no resource");
    let get = items
        .iter()
        .find_map(|(name, item)| match item {
            Item::Func(ty) if name == "get-storage" => Some(ty),
            _ => None,
        })
        .expect("no `get-storage`");
    assert_eq!(get.params, vec![("utxo".to_string(), Type::Borrow(utxo))]);
    let mut bytes = BytesMut::new();
    assert!(ValEncoder::new(&Type::Own(utxo)).encode(&Value::Resource(1), &mut bytes).is_err());
    assert!(bytes.is_empty());
}
