//! Contracts, and the UTXOs that they mint.
//!
//! A [`Contract`] is a component that was compiled and linked. Each [`Utxo`] is an
//! instance of it with a store of its own and the `utxo` resource that was minted
//! there.

use vstd::prelude::*;
use wasmtime::component::types::{Component as TypesHandle, ComponentFunc};
use wasmtime::component::{
    Component, ComponentExportIndex, InstancePre, Type as WasmType, Val as WasmVal,
};
use wasmtime::{Config, Engine};

use crate::builtin;
use crate::cardano;
use crate::cause::Cause;
use crate::discovery::{
    at_home, found, function_list, function_named, instance_items, is_at_home, listed,
    listed_utxos_are_found, storage_can_be_moved, utxo_list, utxo_named, Catalog,
    ConstructorExport, FuncExportV, MethodExport, Role, UtxoExport, UtxoStorageExport, UtxoV,
};
use crate::error::{RunError, Stage, Step};
use crate::host::{hash_of, method_hash, Ctx, MethodHash};
use crate::link::{
    builtin_names_are_builtin, builtins, free_events, free_imports, import_plan, link_builtins,
    link_dynamic_imports, planned_instances, takes_instance, EventHandler,
};
use crate::linker::{
    has_instance, instantiate_pre, substituted_type, ImportLinker, InstanceV,
};
use crate::reflect::{
    component_of, describable, fields_describable, find_func, find_instance, find_record, func_of,
    instance_of, named_types_of, names_apart, read_component, Source,
};
use crate::types::{
    clone_items, distinct_names, first_named, lemma_lookup, lookup, texts, ComponentType,
    ComponentTypeV, ItemV, TypeV,
};
use crate::utxo::{
    construct, constructs, make_record, minted, offers_all, one_record, record_view, Utxo,
};
use crate::wit::{
    interface_name, interface_of, interface_text, method_text, wit_func, write_interface,
};

verus! {

/// `wasmtime::component::Component`: a compiled component.
#[verifier::external_type_specification]
#[verifier::external_body]
pub struct ExComponent(wasmtime::component::Component);

/// `wasmtime::component::InstancePre`: a component with its imports resolved.
#[verifier::external_type_specification]
#[verifier::external_body]
#[verifier::reject_recursive_types(T)]
pub struct ExInstancePre<T: 'static>(wasmtime::component::InstancePre<T>);

/// The host data of a contract's stores: what it imports as `starstream:std`, and
/// where its events go. Any type that has these has this.
pub trait Host: builtin::Host + cardano::Host + EventHandler + 'static {

}

impl<T> Host for T where T: builtin::Host + cardano::Host + EventHandler + 'static {

}

/// The component that `wit_component::ComponentEncoder` makes of a core module, with
/// the adapter of `wasi_preview1_component_adapter_provider`, or how far it came. `None`
/// where it does not come back: it trusts the metadata that is embedded in the module,
/// and panics on some that no tool has written.
pub uninterp spec fn component_encoding(wasm: Seq<u8>) -> Option<Result<Seq<u8>, Stage>>;

/// The binary that a component was compiled from.
pub uninterp spec fn binary_of(c: wasmtime::component::Component) -> Seq<u8>;

/// The type of a component as it was compiled.
pub uninterp spec fn compiled_type(c: wasmtime::component::Component) -> ComponentTypeV;

/// The place of the export `name` in a component.
pub uninterp spec fn place_at(c: wasmtime::component::Component, name: Seq<char>) -> Option<
    wasmtime::component::ComponentExportIndex,
>;

/// Whether the bytes begin as a core module does.
pub open spec fn is_core(wasm: Seq<u8>) -> bool {
    wasm.len() >= 8 && wasm.take(8) == seq![0u8, 0x61u8, 0x73u8, 0x6du8, 1u8, 0u8, 0u8, 0u8]
}

/// The component that a contract's bytes stand for: themselves, or what is made of
/// them where they are a core module.
pub open spec fn component_bytes(wasm: Seq<u8>) -> Result<Seq<u8>, Stage> {
    if is_core(wasm) {
        component_encoding(wasm)->0
    } else {
        Ok(wasm)
    }
}

/// Whether a contract's bytes can be told to stand for a component or not: they are no
/// core module, or one that the encoder comes back on.
pub open spec fn is_decidable(wasm: Seq<u8>) -> bool {
    is_core(wasm) ==> component_encoding(wasm) is Some
}

/// `wasmparser::Parser::is_core_wasm`: whether the bytes begin with the eight bytes
/// of a core module's header.
#[verifier::external_body]
fn is_core_wasm(wasm: &[u8]) -> (r: bool)
    ensures
        r == is_core(wasm@),
{
    wasmparser::Parser::is_core_wasm(wasm)
}

/// `wit_component::ComponentEncoder`: `module`, `adapter` and `encode`, with
/// validation on and the reactor adapter, on a module that it comes back on. The outcome
/// is a function of the module, and begins as a component does.
#[verifier::external_body]
fn encode_component(wasm: &[u8]) -> (r: Result<Vec<u8>, (Stage, anyhow::Error)>)
    requires
        component_encoding(wasm@) is Some,
    ensures
        match r {
            Ok(bytes) => component_encoding(wasm@) == Some(Ok::<Seq<u8>, Stage>(bytes@))
                && !is_core(bytes@),
            Err((stage, _)) => component_encoding(wasm@) == Some(Err::<Seq<u8>, Stage>(stage)),
        },
{
    wit_component::ComponentEncoder::default()
        .validate(true)
        .module(wasm)
        .map_err(|e| (Stage::SetModule, e))?
        .adapter(
            wasi_preview1_component_adapter_provider::WASI_SNAPSHOT_PREVIEW1_ADAPTER_NAME,
            wasi_preview1_component_adapter_provider::WASI_SNAPSHOT_PREVIEW1_REACTOR_ADAPTER,
        )
        .map_err(|e| (Stage::AddAdapter, e))?
        .encode()
        .map_err(|e| (Stage::Encode, e))
}

/// `wasmtime::Config::new`, told whether guests are debugged, whether there are
/// components, and whether these may have lists of fixed length.
#[verifier::external_body]
fn new_config(guest_debug: bool, component_model: bool, fixed_length_lists: bool) -> (r: Config)
    ensures
        !fixed_length_lists ==> describable(Source::Config(r)),
{
    let mut config = Config::new();
    config
        .guest_debug(guest_debug)
        .wasm_component_model(component_model)
        .wasm_component_model_fixed_length_lists(fixed_length_lists);
    config
}

/// `wasmtime::Config::memory_reservation`: how many bytes of address space are set
/// aside for each memory of a guest.
#[verifier::external_body]
fn reserve(mut config: Config, bytes: u64) -> (r: Config)
    ensures
        describable(Source::Config(config)) ==> describable(Source::Config(r)),
{
    config.memory_reservation(bytes);
    config
}

/// `wasmtime::Engine::new`: an engine of that configuration.
#[verifier::external_body]
fn new_engine(config: &Config) -> (r: Result<Engine, wasmtime::Error>)
    ensures
        r matches Ok(e) ==> (describable(Source::Config(*config)) ==> describable(
            Source::Engine(e),
        )),
{
    Engine::new(config)
}

/// `wasmtime::component::Component::from_binary`: compiles a component. Which bytes
/// are a component is left to the engine.
#[verifier::external_body]
fn from_binary(engine: &Engine, wasm: &[u8]) -> (r: Result<Component, wasmtime::Error>)
    ensures
        r matches Ok(c) ==> binary_of(c) == wasm@,
        r matches Ok(c) ==> (describable(Source::Engine(*engine)) ==> describable(
            Source::Compiled(c),
        )),
{
    Component::from_binary(engine, wasm)
}

/// `wasmtime::component::Component::component_type`: the type as it was compiled.
#[verifier::external_body]
fn component_type(c: &Component) -> (r: TypesHandle)
    requires
        describable(Source::Compiled(*c)),
    ensures
        component_of(r) == compiled_type(*c),
        describable(Source::Component(r)),
{
    c.component_type()
}

/// Whether two items are of one kind: two functions both async or both not, two instances
/// with exports of the same names and kinds, in the same order.
pub open spec fn alike(a: ItemV, b: ItemV) -> bool
    decreases a,
{
    match (a, b) {
        (ItemV::Func(f), ItemV::Func(g)) => f.is_async == g.is_async,
        (ItemV::CoreFunc, ItemV::CoreFunc) => true,
        (ItemV::Module, ItemV::Module) => true,
        (ItemV::Component, ItemV::Component) => true,
        (ItemV::Instance(x), ItemV::Instance(y)) => x.len() == y.len() && forall|i: int|
            0 <= i < x.len() ==> (#[trigger] x[i]).0 == y[i].0 && alike(x[i].1, y[i].1),
        (ItemV::Type(_), ItemV::Type(_)) => true,
        (ItemV::Resource(_), ItemV::Resource(_)) => true,
        _ => false,
    }
}

/// Whether an instance exports a function.
pub open spec fn exports_function(items: Seq<(Seq<char>, ItemV)>) -> bool {
    exists|i: int| 0 <= i < items.len() && (#[trigger] items[i]).1 is Func
}

/// Whether each import that is an instance with a function, and whose name has no
/// version, is among `instances`.
pub open spec fn satisfied(
    imports: Seq<(Seq<char>, ItemV)>,
    instances: Seq<InstanceV>,
) -> bool {
    forall|i: int|
        0 <= i < imports.len() && (#[trigger] imports[i]).1 is Instance && exports_function(
            imports[i].1->Instance_0,
        ) && !imports[i].0.contains('@') ==> has_instance(instances, imports[i].0)
}

/// Whether `config` may be what an engine is told that sets aside `reserved` bytes for
/// each memory, or as many as it does of itself: to debug guests, and to take components
/// without lists of fixed length.
pub closed spec fn configures(reserved: Option<u64>, config: Config) -> bool {
    match reserved {
        None => call_ensures(new_config, (true, true, false), config),
        Some(bytes) => exists|base: Config| #[trigger]
            call_ensures(new_config, (true, true, false), base) && call_ensures(
                reserve,
                (base, bytes),
                config,
            ),
    }
}

/// Whether making an engine of that configuration may come to `outcome`.
pub closed spec fn creates(config: Config, outcome: Result<Engine, wasmtime::Error>) -> bool {
    call_ensures(new_engine, (&config,), outcome)
}

/// Whether `engine` may compile `bytes` to `outcome`.
pub closed spec fn compiles(
    engine: Engine,
    bytes: Seq<u8>,
    outcome: Result<Component, wasmtime::Error>,
) -> bool {
    exists|wasm: &[u8]|
        wasm@ == bytes && #[trigger] call_ensures(from_binary, (&engine, wasm), outcome)
}

/// Whether putting the resources of `linker` into the type of `c` may come to `outcome`.
pub closed spec fn substitutes<T: 'static>(
    linker: ImportLinker<T>,
    c: Component,
    outcome: Result<TypesHandle, wasmtime::Error>,
) -> bool {
    call_ensures(substituted_type::<T>, (&linker, &c), outcome)
}

/// Whether resolving the imports of `c` in `linker` may come to `outcome`.
pub closed spec fn resolves<T: 'static>(
    linker: ImportLinker<T>,
    c: Component,
    outcome: Result<InstancePre<T>, wasmtime::Error>,
) -> bool {
    call_ensures(instantiate_pre::<T>, (&linker, &c), outcome)
}

/// Whether `pre` may be `c` with its imports resolved in `linker`.
pub open spec fn prepares<T: 'static>(
    linker: ImportLinker<T>,
    c: Component,
    pre: InstancePre<T>,
) -> bool {
    resolves(linker, c, Ok::<InstancePre<T>, wasmtime::Error>(pre))
}

/// Whether the exports of a component hold the function `name` of the instance `instance`.
pub open spec fn exported(
    exports: Seq<(Seq<char>, ItemV)>,
    instance: Seq<char>,
    name: Seq<char>,
) -> bool {
    lookup(instance_items(exports, instance), name) matches Some(ItemV::Func(_))
}

/// Whether a component exports the function `name` of the instance `instance`, as it was
/// found at `place`.
pub open spec fn exports_at(
    c: Component,
    place: Option<ComponentExportIndex>,
    instance: Seq<char>,
    name: Seq<char>,
) -> bool {
    at_home(place, place_at(c, instance)) && exported(compiled_type(c).exports, instance, name)
}

/// Whether a component exports the function `name` of the instance `instance`, as it was
/// found at `place`, and the function is not async.
pub open spec fn exports_sync(
    c: Component,
    place: Option<ComponentExportIndex>,
    instance: Seq<char>,
    name: Seq<char>,
) -> bool {
    exports_at(c, place, instance, name) && !lookup(
        instance_items(compiled_type(c).exports, instance),
        name,
    )->0->Func_0.is_async
}

/// `wasmtime::component::InstancePre::component` and `Component::get_export_index`: the
/// place of an export in the component that was prepared.
#[verifier::external_body]
fn find_place<T: 'static>(pre: &InstancePre<T>, name: &str) -> (r: Option<ComponentExportIndex>)
    ensures
        forall|linker: ImportLinker<T>, c: Component| #[trigger]
            prepares(linker, c, *pre) ==> r == place_at(c, name@),
{
    pre.component().get_export_index(None, name)
}

/// `wasmtime::component::InstancePre::clone`: another handle to the same.
#[verifier::external_body]
fn clone_pre<T: 'static>(pre: &InstancePre<T>) -> (r: InstancePre<T>)
    ensures
        r == *pre,
{
    pre.clone()
}

/// `wasmtime::Engine::clone`: another handle to the same.
#[verifier::external_body]
fn clone_engine(engine: &Engine) -> (r: Engine)
    ensures
        r == *engine,
{
    engine.clone()
}

/// `wasmtime::component::types::Component::clone`: another handle to the same.
#[verifier::external_body]
fn clone_handle(handle: &TypesHandle) -> (r: TypesHandle)
    ensures
        r == *handle,
{
    handle.clone()
}

/// Makes a component of a core module.
fn componentize(wasm: &[u8]) -> (r: Result<Vec<u8>, RunError>)
    requires
        component_encoding(wasm@) is Some,
    ensures
        match component_encoding(wasm@)->0 {
            Ok(bytes) => r matches Ok(v) && v@ == bytes && !is_core(bytes),
            Err(stage) => r matches Err(RunError::Componentize(s, _)) && s == stage,
        },
{
    match encode_component(wasm) {
        Ok(bytes) => Ok(bytes),
        Err((stage, e)) => Err(RunError::Componentize(stage, e)),
    }
}

/// What loading a contract comes to: the component that its bytes stand for, compiled.
/// Or the error of the engine, or how far the making of a component came.
pub open spec fn loads(engine: Engine, wasm: Seq<u8>, r: Result<Component, RunError>) -> bool {
    match component_bytes(wasm) {
        Ok(bytes) => exists|outcome: Result<Component, wasmtime::Error>| #[trigger]
            compiles(engine, bytes, outcome) && match outcome {
                Ok(c) => r == Ok::<Component, RunError>(c),
                Err(e) => r == Err::<Component, RunError>(RunError::Engine(Step::LoadComponent, e)),
            },
        Err(stage) => r matches Err(RunError::Componentize(s, _)) && s == stage,
    }
}

/// A core module loads as the component that is made of it.
pub proof fn core_modules_load_as_their_component(
    engine: Engine,
    wasm: Seq<u8>,
    made: Seq<u8>,
    r: Result<Component, RunError>,
)
    requires
        is_core(wasm),
        component_encoding(wasm) == Some(Ok::<Seq<u8>, Stage>(made)),
        !is_core(made),
    ensures
        loads(engine, wasm, r) <==> loads(engine, made, r),
{
}

/// Compiles a contract: a component, or a core module that a component is made of
/// first.
pub fn load_component(engine: &Engine, wasm: &[u8]) -> (r: Result<Component, RunError>)
    requires
        is_decidable(wasm@),
    ensures
        loads(*engine, wasm@, r),
        r matches Ok(c) ==> component_bytes(wasm@) == Ok::<Seq<u8>, Stage>(binary_of(c))
            && !is_core(binary_of(c)),
        r matches Ok(c) ==> (describable(Source::Engine(*engine)) ==> describable(
            Source::Compiled(c),
        )),
{
    let compiled = if is_core_wasm(wasm) {
        let made = componentize(wasm)?;
        let compiled = from_binary(engine, made.as_slice());
        assert(compiles(*engine, made@, compiled));
        compiled
    } else {
        let compiled = from_binary(engine, wasm);
        assert(compiles(*engine, wasm@, compiled));
        compiled
    };
    assert(component_bytes(wasm@) is Ok && compiles(
        *engine,
        component_bytes(wasm@)->Ok_0,
        compiled,
    ));
    match compiled {
        Ok(c) => Ok(c),
        Err(e) => Err(RunError::Engine(Step::LoadComponent, e)),
    }
}

/// A contract: a component that was compiled and linked, and what it exports.
#[verifier::reject_recursive_types(T)]
pub struct Contract<T: 'static> {
    pre: InstancePre<T>,
    engine: Engine,
    handle: TypesHandle,
    catalog: Catalog,
    component: Ghost<Component>,
}

/// Whether `pre` is `c` with its imports resolved in some linker.
spec fn is_prepared<T: 'static>(c: Component, pre: InstancePre<T>) -> bool {
    exists|linker: ImportLinker<T>| #[trigger] prepares(linker, c, pre)
}

impl<T: 'static> Contract<T> {
    /// The component, ready to be instantiated.
    pub closed spec fn prepared(&self) -> InstancePre<T> {
        self.pre
    }

    /// The component that was compiled.
    pub closed spec fn component(&self) -> Component {
        self.component@
    }

    /// The type of the component, as the engine describes it.
    pub closed spec fn described(&self) -> TypesHandle {
        self.handle
    }

    /// What the contract exports.
    pub closed spec fn exports(&self) -> Catalog {
        self.catalog
    }

    /// Whether the catalog tells what the engine tells.
    #[verifier::type_invariant]
    spec fn well_formed(self) -> bool {
        &&& self.catalog.ty@ == component_of(self.handle)
        &&& describable(Source::Component(self.handle))
        &&& names_apart(ItemV::Instance(self.catalog.ty@.exports))
        &&& self.catalog.own@ == compiled_type(self.component@)
        &&& is_prepared(self.component@, self.pre)
        &&& describable(Source::Compiled(self.component@))
    }

    /// The function `name` of the exported instance `instance`, as the engine
    /// describes it.
    pub fn func_handle(&self, instance: &str, name: &str) -> (r: Option<ComponentFunc>)
        ensures
            match r {
                Some(f) => describable(Source::Func(f)) && lookup(
                    instance_items(self.exports().ty@.exports, instance@),
                    name@,
                ) == Some(ItemV::Func(func_of(f))),
                None => !(lookup(
                    instance_items(self.exports().ty@.exports, instance@),
                    name@,
                ) matches Some(ItemV::Func(_))),
            },
    {
        proof {
            use_type_invariant(self);
        }
        match find_instance(&self.engine, &self.handle, instance) {
            Some(i) => find_func(&self.engine, &i, name),
            None => None,
        }
    }

    /// The fields of the `storage` record of the exported instance `instance`, as the
    /// engine describes them.
    pub fn storage_handle(&self, instance: &str) -> (r: Option<Vec<(String, WasmType)>>)
        ensures
            match r {
                Some(fields) => fields_describable(fields@) && lookup(
                    instance_items(self.exports().ty@.exports, instance@),
                    "storage"@,
                ) == Some(ItemV::Type(TypeV::Record(named_types_of(fields@)))),
                None => !(lookup(
                    instance_items(self.exports().ty@.exports, instance@),
                    "storage"@,
                ) matches Some(ItemV::Type(TypeV::Record(_)))),
            },
    {
        proof {
            use_type_invariant(self);
        }
        match find_instance(&self.engine, &self.handle, instance) {
            Some(i) => find_record(&self.engine, &i, "storage"),
            None => None,
        }
    }

    /// The type of the component, as the engine describes it.
    pub fn ty(&self) -> (r: &TypesHandle)
        ensures
            *r == self.described(),
            describable(Source::Component(*r)),
            component_of(*r) == self.exports().ty@,
    {
        proof {
            use_type_invariant(self);
        }
        &self.handle
    }

    /// The engine that compiled the component.
    pub closed spec fn compiler(&self) -> Engine {
        self.engine
    }

    /// The engine that compiled the component.
    pub fn engine(&self) -> (r: &Engine)
        ensures
            *r == self.compiler(),
    {
        &self.engine
    }

    /// The component, ready to be instantiated.
    pub fn pre(&self) -> (r: &InstancePre<T>)
        ensures
            *r == self.prepared(),
    {
        &self.pre
    }

    /// What the contract exports.
    pub fn catalog(&self) -> (r: &Catalog)
        ensures
            *r == self.exports(),
    {
        &self.catalog
    }
}

impl<T: 'static> Clone for Contract<T> {
    fn clone(&self) -> (r: Self)
        ensures
            r.exports().own@ == self.exports().own@,
            r.exports().ty@ == self.exports().ty@,
            r.prepared() == self.prepared(),
            r.described() == self.described(),
            r.component() == self.component(),
            r.compiler() == self.compiler(),
    {
        proof {
            use_type_invariant(self);
        }
        Contract {
            pre: clone_pre(&self.pre),
            engine: clone_engine(&self.engine),
            handle: clone_handle(&self.handle),
            catalog: Catalog {
                own: ComponentType {
                    imports: clone_items(&self.catalog.own.imports),
                    exports: clone_items(&self.catalog.own.exports),
                },
                ty: ComponentType {
                    imports: clone_items(&self.catalog.ty.imports),
                    exports: clone_items(&self.catalog.ty.exports),
                },
            },
            component: self.component,
        }
    }
}

/// What comes of linking a component that `engine` compiled: its built-in interfaces and
/// the events that it imports stand in a linker, the linker's resources are put into its
/// type, and its imports are resolved. Or the error of the engine at one of the last two.
pub open spec fn links<T: 'static>(
    engine: Engine,
    component: Component,
    plan: Seq<(Seq<char>, Seq<Seq<char>>)>,
    r: Result<Contract<T>, RunError>,
) -> bool {
    exists|linker: ImportLinker<T>, derived: Result<TypesHandle, wasmtime::Error>| #[trigger]
        substitutes(linker, component, derived) && linker.contents() == builtins()
            + planned_instances(plan) && match derived {
            Err(e) => r == Err::<Contract<T>, RunError>(RunError::Engine(Step::DeriveType, e)),
            Ok(handle) => exists|resolved: Result<InstancePre<T>, wasmtime::Error>| #[trigger]
                resolves(linker, component, resolved) && match resolved {
                    Err(e) => r == Err::<Contract<T>, RunError>(
                        RunError::Engine(Step::PreInstantiate, e),
                    ),
                    Ok(pre) => r matches Ok(c) && {
                        &&& c.prepared() == pre
                        &&& c.component() == component
                        &&& c.compiler() == engine
                        &&& c.described() == handle
                        &&& c.exports().own@ == compiled_type(component)
                        &&& c.exports().ty@ == component_of(handle)
                        &&& satisfied(c.exports().own@.imports, linker.contents())
                    },
                },
        }
}

/// What making a contract comes to: the component that its bytes stand for is compiled
/// and linked. Or it does not load, or imports what cannot be linked.
pub open spec fn builds<T: 'static>(
    engine: Engine,
    wasm: Seq<u8>,
    r: Result<Contract<T>, RunError>,
) -> bool {
    exists|loaded: Result<Component, RunError>| #[trigger]
        loads(engine, wasm, loaded) && match loaded {
            Err(e) => r == Err::<Contract<T>, RunError>(e),
            Ok(component) => {
                let imports = compiled_type(component).imports;
                &&& component_bytes(wasm) == Ok::<Seq<u8>, Stage>(binary_of(component))
                &&& !is_core(binary_of(component))
                &&& match import_plan(imports, imports.len()) {
                    Err(cause) => r == Err::<Contract<T>, RunError>(RunError::Refused(cause)),
                    Ok(plan) => links(engine, component, plan, r),
                }
            },
        }
}

/// What making a contract comes to, with an engine that sets aside `reserved` bytes for
/// each memory, or as many as it does of itself.
pub open spec fn makes<T: 'static>(
    reserved: Option<u64>,
    wasm: Seq<u8>,
    r: Result<Contract<T>, RunError>,
) -> bool {
    exists|config: Config, created: Result<Engine, wasmtime::Error>|
        configures(reserved, config) && #[trigger] creates(config, created) && match created {
            Err(e) => r == Err::<Contract<T>, RunError>(RunError::Engine(Step::CreateEngine, e)),
            Ok(engine) => builds(engine, wasm, r),
        }
}

/// Whether the exports of a contract have the names and kinds that the engine tells of,
/// and no two of them have one name.
pub open spec fn exports_agree(exports: Catalog) -> bool {
    &&& alike(ItemV::Instance(exports.own@.exports), ItemV::Instance(exports.ty@.exports))
    &&& names_apart(ItemV::Instance(exports.ty@.exports))
}

proof fn lemma_names_are_free(imports: Seq<(Seq<char>, ItemV)>)
    requires
        names_apart(ItemV::Instance(imports)),
    ensures
        free_imports(imports, builtins(), imports.len()),
{
    assert forall|i: int|
        0 <= i < imports.len() && takes_instance(#[trigger] imports[i]) implies !has_instance(
        builtins(),
        imports[i].0,
    ) && free_events(
        imports[i].1->Instance_0,
        Seq::empty(),
        imports[i].1->Instance_0.len(),
    ) by {
        if has_instance(builtins(), imports[i].0) {
            builtin_names_are_builtin(imports[i].0);
        }
        assert(names_apart(imports[i].1));
    }
}

/// Types that are alike export the same functions.
pub proof fn alike_types_export_the_same(
    a: Seq<(Seq<char>, ItemV)>,
    b: Seq<(Seq<char>, ItemV)>,
    instance: Seq<char>,
    name: Seq<char>,
)
    requires
        alike(ItemV::Instance(a), ItemV::Instance(b)),
    ensures
        exported(a, instance, name) <==> exported(b, instance, name),
{
    lemma_alike_lookup(a, b, instance);
    lemma_alike_lookup(instance_items(a, instance), instance_items(b, instance), name);
}

/// A constructor or a method that is found in a contract is a function that the contract
/// exports: a UTXO of the contract has it, and it is never answered that there is none.
pub proof fn found_functions_are_exported(
    role: Role,
    c: Component,
    exports: Seq<(Seq<char>, ItemV)>,
    instance: Seq<char>,
    name: Seq<char>,
)
    requires
        alike(ItemV::Instance(compiled_type(c).exports), ItemV::Instance(exports)),
        utxo_named(compiled_type(c).exports, exports, instance) is Ok,
        function_named(
            role,
            compiled_type(c).exports,
            utxo_named(compiled_type(c).exports, exports, instance)->Ok_0,
            name,
        ) is Ok,
    ensures
        function_named(
            role,
            compiled_type(c).exports,
            utxo_named(compiled_type(c).exports, exports, instance)->Ok_0,
            name,
        )->Ok_0.instance == instance,
        function_named(
            role,
            compiled_type(c).exports,
            utxo_named(compiled_type(c).exports, exports, instance)->Ok_0,
            name,
        )->Ok_0.name == name,
        exports_at(c, place_at(c, instance), instance, name),
{
    alike_types_export_the_same(compiled_type(c).exports, exports, instance, name);
}

/// Where a `utxo` that is found in a contract has storage, the contract exports the
/// functions that read and write it.
pub proof fn found_storage_is_exported(
    c: Component,
    exports: Seq<(Seq<char>, ItemV)>,
    instance: Seq<char>,
)
    requires
        utxo_named(compiled_type(c).exports, exports, instance) matches Ok(u) && u.storage is Some,
    ensures
        utxo_named(compiled_type(c).exports, exports, instance)->Ok_0.storage->0.instance
            == instance,
        exports_at(c, place_at(c, instance), instance, "get-storage"@),
        exports_at(c, place_at(c, instance), instance, "set-storage"@),
{
    storage_can_be_moved(compiled_type(c).exports, exports, instance);
}

proof fn lemma_alike_lookup(
    a: Seq<(Seq<char>, ItemV)>,
    b: Seq<(Seq<char>, ItemV)>,
    name: Seq<char>,
)
    requires
        alike(ItemV::Instance(a), ItemV::Instance(b)),
    ensures
        match (lookup(a, name), lookup(b, name)) {
            (Some(x), Some(y)) => alike(x, y),
            (None, None) => true,
            _ => false,
        },
        alike(ItemV::Instance(instance_items(a, name)), ItemV::Instance(instance_items(b, name))),
{
    if lookup(a, name) is Some {
        let i = choose|i: int| first_named(a, name, i);
        assert(first_named(a, name, i));
        lemma_lookup(a, name, i);
        assert(a[i].0 == b[i].0);
        assert forall|j: int| 0 <= j < i implies (#[trigger] b[j]).0 != name by {
            assert(a[j].0 == b[j].0);
        }
        assert(first_named(b, name, i));
        lemma_lookup(b, name, i);
        assert(alike(a[i].1, b[i].1));
        if a[i].1 is Instance {
            assert(a[i].1 == ItemV::Instance(instance_items(a, name)));
            assert(b[i].1 == ItemV::Instance(instance_items(b, name)));
        }
    } else if lookup(b, name) is Some {
        let i = choose|i: int| first_named(b, name, i);
        assert(first_named(b, name, i));
        assert(a[i].0 == b[i].0);
        assert forall|j: int| 0 <= j < i implies (#[trigger] a[j]).0 != name by {
            assert(a[j].0 == b[j].0);
        }
        assert(first_named(a, name, i));
    }
}

/// A catalog that lists nothing.
fn no_exports() -> (r: Catalog)
    ensures
        r.own@.exports == Seq::<(Seq<char>, ItemV)>::empty(),
        r.ty@.exports == Seq::<(Seq<char>, ItemV)>::empty(),
{
    let r = Catalog {
        own: ComponentType { imports: Vec::new(), exports: Vec::new() },
        ty: ComponentType { imports: Vec::new(), exports: Vec::new() },
    };
    assert(r.own@.exports =~= Seq::<(Seq<char>, ItemV)>::empty());
    assert(r.ty@.exports =~= Seq::<(Seq<char>, ItemV)>::empty());
    r
}

/// A listed `utxo` is that of the instance whose name it is listed under.
proof fn lemma_listed_instance(
    own: Seq<(Seq<char>, ItemV)>,
    exports: Seq<(Seq<char>, ItemV)>,
    n: nat,
    k: int,
)
    requires
        n <= exports.len(),
        0 <= k < utxo_list(own, exports, n).len(),
        utxo_list(own, exports, n)[k].1 is Ok,
    ensures
        utxo_list(own, exports, n)[k].1->Ok_0.instance == utxo_list(own, exports, n)[k].0,
    decreases n,
{
    let before = utxo_list(own, exports, (n - 1) as nat);
    if k < before.len() {
        lemma_listed_instance(own, exports, (n - 1) as nat, k);
    }
}

impl<T: 'static> Contract<T> {
    /// Whether `utxo` was found at the place that its instance has in this contract.
    pub open spec fn is_place_of(&self, utxo: UtxoExport) -> bool {
        &&& utxo.origin() == place_at(self.component(), utxo@.instance)
        &&& utxo@.storage is Some ==> utxo.storage_place() == utxo.origin()
    }

    /// The exports that the functions of `utxo` are looked for in: those of the contract,
    /// or none where `utxo` was found in another.
    pub open spec fn seen_from(&self, utxo: UtxoExport) -> Seq<(Seq<char>, ItemV)> {
        if at_home(utxo.origin(), place_at(self.component(), utxo@.instance)) {
            self.exports().own@.exports
        } else {
            Seq::empty()
        }
    }

    /// Whether `utxo` was found in this contract, or in a catalog alone.
    fn is_home_of(&self, utxo: &UtxoExport) -> (r: bool)
        ensures
            r == at_home(utxo.origin(), place_at(self.component(), utxo@.instance)),
    {
        proof {
            use_type_invariant(self);
        }
        is_at_home(utxo.place(), find_place(&self.pre, utxo.instance().as_str()))
    }
}

impl<T: Host> Contract<T> {
    /// Compiles and links a contract: a component, or a core module with a
    /// `component-type` section.
    pub fn new(wasm: &[u8]) -> (r: Result<Contract<T>, RunError>)
        requires
            is_decidable(wasm@),
        ensures
            makes(None, wasm@, r),
            r matches Ok(c) ==> exports_agree(c.exports()),
    {
        let config = new_config(true, true, false);
        assert(configures(None, config));
        let created = new_engine(&config);
        assert(creates(config, created));
        match created {
            Ok(engine) => Self::build(engine, wasm),
            Err(e) => Err(RunError::Engine(Step::CreateEngine, e)),
        }
    }

    /// Compiles and links a contract, setting aside `bytes` of address space for each
    /// memory of the guest.
    pub fn with_reservation(wasm: &[u8], bytes: u64) -> (r: Result<Contract<T>, RunError>)
        requires
            is_decidable(wasm@),
        ensures
            makes(Some(bytes), wasm@, r),
            r matches Ok(c) ==> exports_agree(c.exports()),
    {
        let base = new_config(true, true, false);
        let ghost told = base;
        let config = reserve(base, bytes);
        assert(call_ensures(new_config, (true, true, false), told));
        assert(configures(Some(bytes), config));
        let created = new_engine(&config);
        assert(creates(config, created));
        match created {
            Ok(engine) => Self::build(engine, wasm),
            Err(e) => Err(RunError::Engine(Step::CreateEngine, e)),
        }
    }

    /// Compiles and links a contract that is a component, setting aside `reserved` bytes of
    /// address space for each memory of the guest, or as many as the engine does of itself.
    /// A core module is not looked into.
    pub fn from_component(wasm: &[u8], reserved: Option<u64>) -> (r: Option<
        Result<Contract<T>, RunError>,
    >)
        ensures
            match r {
                Some(made) => !is_core(wasm@) && makes(reserved, wasm@, made) && (made matches Ok(c)
                    ==> exports_agree(c.exports())),
                None => is_core(wasm@),
            },
    {
        if is_core_wasm(wasm) {
            return None;
        }
        match reserved {
            None => Some(Self::new(wasm)),
            Some(bytes) => Some(Self::with_reservation(wasm, bytes)),
        }
    }

    /// Compiles and links a contract for an engine.
    fn build(engine: Engine, wasm: &[u8]) -> (r: Result<Contract<T>, RunError>)
        requires
            describable(Source::Engine(engine)),
            is_decidable(wasm@),
        ensures
            builds(engine, wasm@, r),
            r matches Ok(c) ==> exports_agree(c.exports()),
    {
        let loaded = load_component(&engine, wasm);
        let ghost result = loaded;
        let component = match loaded {
            Ok(component) => component,
            Err(e) => {
                assert(loads(engine, wasm@, result));
                return Err(e);
            },
        };
        let mut linker: ImportLinker<T> = ImportLinker::new(&engine);
        link_builtins(&mut linker)?;
        assert(linker.contents() =~= builtins());
        let own = read_component(&engine, &component_type(&component));
        proof {
            lemma_names_are_free(own@.imports);
        }
        let ghost plan = import_plan(own@.imports, own@.imports.len());
        match link_dynamic_imports(&mut linker, &own) {
            Ok(_) => {
                assert(linker.contents() == builtins() + planned_instances(plan->Ok_0));
            },
            Err(e) => {
                assert(loads(engine, wasm@, result));
                return Err(e);
            },
        }
        let derived = substituted_type(&linker, &component);
        let ghost found = derived;
        assert(substitutes(linker, component, found));
        let handle = match derived {
            Ok(handle) => handle,
            Err(e) => {
                assert(links(
                    engine,
                    component,
                    plan->Ok_0,
                    Err::<Contract<T>, RunError>(RunError::Engine(Step::DeriveType, e)),
                ));
                return Err(RunError::Engine(Step::DeriveType, e));
            },
        };
        let ty = read_component(&engine, &handle);
        let resolved = instantiate_pre(&linker, &component);
        assert(resolves(linker, component, resolved));
        match resolved {
            Ok(pre) => {
                assert(prepares(linker, component, pre));
                let c = Contract {
                    pre,
                    engine,
                    handle,
                    catalog: Catalog { own, ty },
                    component: Ghost(component),
                };
                assert(links(c.compiler(), component, plan->Ok_0, Ok::<Contract<T>, RunError>(c)));
                Ok(c)
            },
            Err(e) => {
                assert(links(
                    engine,
                    component,
                    plan->Ok_0,
                    Err::<Contract<T>, RunError>(RunError::Engine(Step::PreInstantiate, e)),
                ));
                Err(RunError::Engine(Step::PreInstantiate, e))
            },
        }
    }

    /// The `utxo` resource that is exported under `name`.
    pub fn get_utxo(&self, name: &str) -> (r: Result<UtxoExport, Cause>)
        ensures
            found(r) == utxo_named(self.exports().own@.exports, self.exports().ty@.exports, name@),
            r matches Ok(utxo) ==> distinct_names(utxo@.items) && self.is_place_of(utxo),
    {
        proof {
            use_type_invariant(self);
            let exports = self.exports().ty@.exports;
            if lookup(exports, name@) is Some {
                let i = choose|i: int| first_named(exports, name@, i);
                assert(first_named(exports, name@, i));
                lemma_lookup(exports, name@, i);
                assert(names_apart(exports[i].1));
            }
        }
        match self.catalog.get_utxo(name) {
            Ok(utxo) => Ok(utxo.found_at(find_place(&self.pre, name))),
            Err(c) => Err(c),
        }
    }

    /// Every exported instance, in order, and what it is as a `utxo`: what
    /// [`Contract::get_utxo`] gives for its name.
    pub fn utxos(&self) -> (r: Vec<(String, Result<UtxoExport, Cause>)>)
        ensures
            listed(r@) == utxo_list(
                self.exports().own@.exports,
                self.exports().ty@.exports,
                self.exports().ty@.exports.len(),
            ),
            forall|k: int|
                0 <= k < r@.len() ==> (#[trigger] listed(r@)[k]).1 == utxo_named(
                    self.exports().own@.exports,
                    self.exports().ty@.exports,
                    listed(r@)[k].0,
                ),
            forall|k: int|
                0 <= k < r@.len() ==> ((#[trigger] r@[k]).1 matches Ok(utxo) ==> self.is_place_of(
                    utxo,
                )),
    {
        let mut all = self.catalog.utxos();
        let ghost list = listed(all@);
        let mut r: Vec<(String, Result<UtxoExport, Cause>)> = Vec::new();
        proof {
            use_type_invariant(self);
        }
        assert(list.skip(0) =~= list);
        assert(listed(r@) =~= list.take(0));
        while all.len() > 0
            invariant
                r@.len() + all@.len() == list.len(),
                listed(all@) == list.skip(r@.len() as int),
                listed(r@) == list.take(r@.len() as int),
                is_prepared(self.component@, self.pre),
                self.catalog.own@ == compiled_type(self.component@),
                utxo_list(
                    self.exports().own@.exports,
                    self.exports().ty@.exports,
                    self.exports().ty@.exports.len(),
                ) == list,
                forall|k: int|
                    0 <= k < r@.len() ==> ((#[trigger] r@[k]).1 matches Ok(utxo)
                        ==> self.is_place_of(utxo)),
            decreases all@.len(),
        {
            let ghost before = r@;
            let ghost rest = all@;
            let (name, entry) = all.remove(0);
            assert(listed(rest)[0] == (name@, found(entry)));
            assert(listed(all@) =~= listed(rest).skip(1));
            assert(list.skip(before.len() as int).skip(1) =~= list.skip(before.len() as int + 1));
            assert(list[before.len() as int] == list.skip(before.len() as int)[0]);
            let found_here = match entry {
                Ok(utxo) => {
                    let place = find_place(&self.pre, name.as_str());
                    proof {
                        lemma_listed_instance(
                            self.exports().own@.exports,
                            self.exports().ty@.exports,
                            self.exports().ty@.exports.len(),
                            before.len() as int,
                        );
                    }
                    Ok(utxo.found_at(place))
                },
                Err(c) => Err(c),
            };
            let ghost was = found(found_here);
            r.push((name, found_here));
            assert(listed(r@) =~= listed(before).push((name@, was)));
            assert(list.take(before.len() as int + 1) =~= list.take(before.len() as int).push(
                list[before.len() as int],
            ));
        }
        assert(list.take(r@.len() as int) =~= list);
        proof {
            let own = self.exports().own@.exports;
            let exports = self.exports().ty@.exports;
            assert forall|k: int| 0 <= k < r@.len() implies (#[trigger] listed(r@)[k]).1
                == utxo_named(own, exports, listed(r@)[k].0) by {
                listed_utxos_are_found(own, exports, exports.len(), k);
            }
        }
        r
    }

    /// The constructor of `utxo` that is exported under `name`.
    pub fn get_utxo_constructor(&self, utxo: &UtxoExport, name: &str) -> (r: Result<
        ConstructorExport,
        Cause,
    >)
        ensures
            found(r) == function_named(Role::Constructor, self.seen_from(*utxo), utxo@, name@),
            r matches Ok(c) ==> c.origin() == utxo.origin(),
    {
        if self.is_home_of(utxo) {
            self.catalog.get_utxo_constructor(utxo, name)
        } else {
            no_exports().get_utxo_constructor(utxo, name)
        }
    }

    /// Every exported function of `utxo` that is named as a constructor, in order.
    pub fn utxo_constructors(&self, utxo: &UtxoExport) -> (r: Vec<
        (String, Result<ConstructorExport, Cause>),
    >)
        ensures
            listed(r@) == function_list(
                Role::Constructor,
                self.seen_from(*utxo),
                utxo@,
                utxo@.items.len(),
            ),
            forall|k: int|
                0 <= k < r@.len() ==> ((#[trigger] r@[k]).1 matches Ok(f) ==> f.origin()
                    == utxo.origin()),
    {
        if self.is_home_of(utxo) {
            self.catalog.utxo_constructors(utxo)
        } else {
            no_exports().utxo_constructors(utxo)
        }
    }

    /// The method of `utxo` that is exported under `name`.
    pub fn get_utxo_method(&self, utxo: &UtxoExport, name: &str) -> (r: Result<
        MethodExport,
        Cause,
    >)
        ensures
            found(r) == function_named(Role::Method, self.seen_from(*utxo), utxo@, name@),
            r matches Ok(m) ==> m.origin() == utxo.origin(),
    {
        if self.is_home_of(utxo) {
            self.catalog.get_utxo_method(utxo, name)
        } else {
            no_exports().get_utxo_method(utxo, name)
        }
    }

    /// Every exported function of `utxo` that is named as a method, in order.
    pub fn utxo_methods(&self, utxo: &UtxoExport) -> (r: Vec<
        (String, Result<MethodExport, Cause>),
    >)
        ensures
            listed(r@) == function_list(
                Role::Method,
                self.seen_from(*utxo),
                utxo@,
                utxo@.items.len(),
            ),
            forall|k: int|
                0 <= k < r@.len() ==> ((#[trigger] r@[k]).1 matches Ok(f) ==> f.origin()
                    == utxo.origin()),
    {
        if self.is_home_of(utxo) {
            self.catalog.utxo_methods(utxo)
        } else {
            no_exports().utxo_methods(utxo)
        }
    }

    /// Mints a UTXO: makes a fresh instance with `ctx` as its host data and calls the
    /// constructor there.
    pub fn create_utxo(&self, ctx: T, export: &ConstructorExport, params: &[WasmVal]) -> (r: Result<
        Utxo<T>,
        RunError,
    >)
        ensures
            constructs(
                self.prepared(),
                ctx,
                export.origin(),
                export@.instance,
                export@.name,
                params@,
                r,
            ),
            r matches Ok(u) ==> minted(u, export@.instance, export@.name) && u.calls()[0].args
                == params@ && offers_all(u.running().instance(), self.component()),
            r matches Err(RunError::Refused(Cause::ConstructorNotFound)) ==> !exports_at(
                self.component(),
                export.origin(),
                export@.instance,
                export@.name,
            ),
            r matches Err(RunError::Refused(Cause::AsyncFunction)) ==> !exports_sync(
                self.component(),
                export.origin(),
                export@.instance,
                export@.name,
            ),
    {
        proof {
            use_type_invariant(self);
        }
        construct(
            &self.pre,
            ctx,
            export.place(),
            export.instance().as_str(),
            export.name().as_str(),
            params,
        )
    }

    /// Mints a UTXO from a storage record: makes a fresh instance with `ctx` as its
    /// host data and calls `set-storage` there.
    pub fn load_utxo(
        &self,
        ctx: T,
        export: &UtxoStorageExport,
        fields: Vec<(String, WasmVal)>,
    ) -> (r: Result<Utxo<T>, RunError>)
        ensures
            exists|args: Seq<WasmVal>|
                one_record(args, record_view(fields@)) && #[trigger] constructs(
                    self.prepared(),
                    ctx,
                    export.origin(),
                    export@.instance,
                    "set-storage"@,
                    args,
                    r,
                ),
            r matches Ok(u) ==> minted(u, export@.instance, "set-storage"@) && one_record(
                u.calls()[0].args,
                record_view(fields@),
            ) && offers_all(u.running().instance(), self.component()),
            r matches Err(RunError::Refused(Cause::ConstructorNotFound)) ==> !exports_at(
                self.component(),
                export.origin(),
                export@.instance,
                "set-storage"@,
            ),
            r matches Err(RunError::Refused(Cause::AsyncFunction)) ==> !exports_sync(
                self.component(),
                export.origin(),
                export@.instance,
                "set-storage"@,
            ),
    {
        proof {
            use_type_invariant(self);
        }
        let mut params: Vec<WasmVal> = Vec::new();
        params.push(make_record(fields));
        let r = construct(
            &self.pre,
            ctx,
            export.place(),
            export.instance().as_str(),
            "set-storage",
            params.as_slice(),
        );
        assert(constructs(
            self.prepared(),
            ctx,
            export.origin(),
            export@.instance,
            "set-storage"@,
            params@,
            r,
        ));
        r
    }

    /// The text of the interface that the `utxo` of the instance `name` offers: those
    /// of its methods that the guest has declared.
    pub fn interface(&self, name: &str, ctx: &Ctx) -> (r: Result<String, Cause>)
        ensures
            match utxo_named(self.exports().own@.exports, self.exports().ty@.exports, name@) {
                Err(c) => r == Err::<String, Cause>(c),
                Ok(utxo) => match method_texts(
                    function_list(
                        Role::Method,
                        self.exports().own@.exports,
                        utxo,
                        utxo.items.len(),
                    ),
                    ctx.declared(),
                    function_list(
                        Role::Method,
                        self.exports().own@.exports,
                        utxo,
                        utxo.items.len(),
                    ).len(),
                ) {
                    Err(c) => r == Err::<String, Cause>(c),
                    Ok(declarations) => r matches Ok(text) && text@ == interface_text(
                        interface_name(name@),
                        declarations,
                    ),
                },
            },
    {
        let ghost own = self.exports().own@.exports;
        let ghost exports = self.exports().ty@.exports;
        let utxo = self.catalog.get_utxo(name)?;
        proof {
            use_type_invariant(self);
        }
        let instance = match find_instance(&self.engine, &self.handle, name) {
            Some(instance) => instance,
            None => {
                return Err(Cause::NotAnInstance);
            },
        };
        let methods = self.catalog.utxo_methods(&utxo);
        let ghost list = function_list(Role::Method, own, utxo@, utxo@.items.len());
        let mut declarations: Vec<String> = Vec::new();
        let mut i: usize = 0;
        assert(texts(declarations@) =~= Seq::<Seq<char>>::empty());
        while i < methods.len()
            invariant
                0 <= i <= methods@.len(),
                own == self.exports().own@.exports,
                exports == self.exports().ty@.exports,
                utxo_named(own, exports, name@) == Ok::<UtxoV, Cause>(utxo@),
                instance_of(instance) == utxo@.items,
                describable(Source::Instance(instance)),
                list == function_list(Role::Method, own, utxo@, utxo@.items.len()),
                list == listed(methods@),
                method_texts(list, ctx.declared(), i as nat) == Ok::<Seq<Seq<char>>, Cause>(
                    texts(declarations@),
                ),
            decreases methods@.len() - i,
        {
            let ghost before = declarations@;
            assert(list[i as int] == (methods@[i as int].0@, found(methods@[i as int].1)));
            let export = methods[i].0.as_str();
            match &methods[i].1 {
                Ok(method) => {
                    if ctx.implements(method_hash(export)) {
                        let handle = find_func(&self.engine, &instance, export);
                        proof {
                            lemma_listed_type(own, utxo@, utxo@.items.len(), i as int);
                            let k = choose|k: int|
                                0 <= k < utxo@.items.len() && #[trigger] utxo@.items[k] == (
                                    list[i as int].0,
                                    ItemV::Func(list[i as int].1->Ok_0.ty),
                                );
                            assert(first_named(utxo@.items, export@, k));
                            lemma_lookup(utxo@.items, export@, k);
                        }
                        match handle {
                            Some(f) => {
                                declarations.push(wit_func(export, &f));
                                assert(texts(declarations@) =~= texts(before).push(
                                    method_text(export@, func_of(f)),
                                ));
                            },
                            None => {
                                return Err(Cause::ExportNotFound);
                            },
                        }
                    }
                },
                Err(c) => {
                    proof {
                        lemma_texts_stop(list, ctx.declared(), (i + 1) as nat, list.len());
                    }
                    return Err(*c);
                },
            }
            i += 1;
        }
        Ok(write_interface(interface_of(name).as_str(), &declarations))
    }
}

/// The declarations of those of the first `n` methods whose hash is among `declared`,
/// or the first fault among them all.
pub open spec fn method_texts(
    methods: Seq<(Seq<char>, Result<FuncExportV, Cause>)>,
    declared: Set<MethodHash>,
    n: nat,
) -> Result<Seq<Seq<char>>, Cause>
    decreases n,
{
    if n == 0 {
        Ok(Seq::empty())
    } else {
        match method_texts(methods, declared, (n - 1) as nat) {
            Err(c) => Err(c),
            Ok(before) => match methods[n - 1].1 {
                Err(c) => Err(c),
                Ok(f) => if declared.contains(hash_of(methods[n - 1].0)) {
                    Ok(before.push(method_text(methods[n - 1].0, f.ty)))
                } else {
                    Ok(before)
                },
            },
        }
    }
}

/// The interface lists a method only where the guest declared its hash.
pub proof fn listed_methods_are_declared(
    methods: Seq<(Seq<char>, Result<FuncExportV, Cause>)>,
    declared: Set<MethodHash>,
    n: nat,
    i: int,
)
    requires
        n <= methods.len(),
        method_texts(methods, declared, n) is Ok,
        0 <= i < method_texts(methods, declared, n)->Ok_0.len(),
    ensures
        exists|k: int|
            0 <= k < n && declared.contains(hash_of((#[trigger] methods[k]).0)) && methods[k].1
                is Ok && method_text(methods[k].0, methods[k].1->Ok_0.ty) == method_texts(
                methods,
                declared,
                n,
            )->Ok_0[i],
    decreases n,
{
    let before = method_texts(methods, declared, (n - 1) as nat)->Ok_0;
    if i < before.len() {
        listed_methods_are_declared(methods, declared, (n - 1) as nat, i);
    } else {
        assert(declared.contains(hash_of(methods[n - 1].0)));
    }
}

/// The interface lists every method that the guest declared.
pub proof fn declared_methods_are_listed(
    methods: Seq<(Seq<char>, Result<FuncExportV, Cause>)>,
    declared: Set<MethodHash>,
    n: nat,
    k: int,
)
    requires
        n <= methods.len(),
        method_texts(methods, declared, n) is Ok,
        0 <= k < n,
        declared.contains(hash_of(methods[k].0)),
    ensures
        methods[k].1 is Ok,
        exists|i: int|
            0 <= i < method_texts(methods, declared, n)->Ok_0.len() && #[trigger] method_texts(
                methods,
                declared,
                n,
            )->Ok_0[i] == method_text(methods[k].0, methods[k].1->Ok_0.ty),
    decreases n,
{
    let before = method_texts(methods, declared, (n - 1) as nat)->Ok_0;
    let now = method_texts(methods, declared, n)->Ok_0;
    let text = method_text(methods[k].0, methods[k].1->Ok_0.ty);
    if k < n - 1 {
        declared_methods_are_listed(methods, declared, (n - 1) as nat, k);
        let i = choose|i: int| 0 <= i < before.len() && #[trigger] before[i] == text;
        assert(now[i] == before[i]);
    } else {
        assert(now[now.len() - 1] == text);
    }
}

proof fn lemma_texts_stop(
    methods: Seq<(Seq<char>, Result<FuncExportV, Cause>)>,
    declared: Set<MethodHash>,
    i: nat,
    n: nat,
)
    requires
        i <= n,
        method_texts(methods, declared, i) is Err,
    ensures
        method_texts(methods, declared, n) == method_texts(methods, declared, i),
    decreases n,
{
    if i < n {
        lemma_texts_stop(methods, declared, i, (n - 1) as nat);
    }
}

/// The type of a listed method is that of an export of its name.
proof fn lemma_listed_type(own: Seq<(Seq<char>, ItemV)>, utxo: UtxoV, n: nat, k: int)
    requires
        n <= utxo.items.len(),
        0 <= k < function_list(Role::Method, own, utxo, n).len(),
        function_list(Role::Method, own, utxo, n)[k].1 is Ok,
    ensures
        exists|i: int|
            0 <= i < n && #[trigger] utxo.items[i] == (
                function_list(Role::Method, own, utxo, n)[k].0,
                ItemV::Func(function_list(Role::Method, own, utxo, n)[k].1->Ok_0.ty),
            ),
    decreases n,
{
    let before = function_list(Role::Method, own, utxo, (n - 1) as nat);
    if k < before.len() {
        lemma_listed_type(own, utxo, (n - 1) as nat, k);
    } else {
        assert(utxo.items[n - 1] == (
            function_list(Role::Method, own, utxo, n)[k].0,
            ItemV::Func(function_list(Role::Method, own, utxo, n)[k].1->Ok_0.ty),
        ));
    }
}

proof fn lemma_method_texts_part(
    a: Seq<(Seq<char>, Result<FuncExportV, Cause>)>,
    b: Seq<(Seq<char>, Result<FuncExportV, Cause>)>,
    declared: Set<MethodHash>,
    n: nat,
)
    requires
        n <= a.len(),
        n <= b.len(),
        forall|i: int| 0 <= i < n ==> a[i] == b[i],
    ensures
        method_texts(a, declared, n) == method_texts(b, declared, n),
    decreases n,
{
    if n > 0 {
        lemma_method_texts_part(a, b, declared, (n - 1) as nat);
    }
}

/// The interface declares the methods in their order: each that the guest declared, and no
/// other. A method that is not as it should be is a fault, declared or not.
pub proof fn interfaces_declare_methods_in_order(
    methods: Seq<(Seq<char>, Result<FuncExportV, Cause>)>,
    declared: Set<MethodHash>,
    export: Seq<char>,
    method: Result<FuncExportV, Cause>,
)
    requires
        method_texts(methods, declared, methods.len()) is Ok,
    ensures
        method_texts(Seq::empty(), declared, 0) == Ok::<Seq<Seq<char>>, Cause>(Seq::empty()),
        ({
            let before = method_texts(methods, declared, methods.len())->Ok_0;
            let all = methods.push((export, method));
            let now = method_texts(all, declared, all.len());
            match method {
                Err(c) => now == Err::<Seq<Seq<char>>, Cause>(c),
                Ok(f) => now == Ok::<Seq<Seq<char>>, Cause>(
                    if declared.contains(hash_of(export)) {
                        before.push(method_text(export, f.ty))
                    } else {
                        before
                    },
                ),
            }
        }),
{
    lemma_method_texts_part(methods, methods.push((export, method)), declared, methods.len());
}

/// A UTXO is minted by one call: of the constructor of that name, with those arguments, and
/// the resource is all that the call returned.
pub proof fn utxos_are_minted_by_one_call<T: Host>(
    contract: &Contract<T>,
    ctx: T,
    export: &ConstructorExport,
    params: &[WasmVal],
    u: Utxo<T>,
)
    requires
        call_ensures(
            Contract::<T>::create_utxo,
            (contract, ctx, export, params),
            Ok::<Utxo<T>, RunError>(u),
        ),
    ensures
        u.calls().len() == 1,
        u.calls()[0].args == params@,
        crate::running::located(u.running().instance(), export@.instance, export@.name) == Some(
            u.calls()[0].func,
        ),
        u.calls()[0].results matches Some(results) && results.len() == 1
            && crate::running::resource_in(results[0]) == Some(u.handle()),
{
}

/// A UTXO is loaded by one call: of `set-storage`, with one argument, the record of those
/// fields in their order, and the resource is all that the call returned.
pub proof fn utxos_are_loaded_by_one_call<T: Host>(
    contract: &Contract<T>,
    ctx: T,
    export: &UtxoStorageExport,
    fields: Vec<(String, WasmVal)>,
    u: Utxo<T>,
    i: int,
)
    requires
        call_ensures(
            Contract::<T>::load_utxo,
            (contract, ctx, export, fields),
            Ok::<Utxo<T>, RunError>(u),
        ),
    ensures
        u.calls().len() == 1,
        crate::running::located(u.running().instance(), export@.instance, "set-storage"@) == Some(
            u.calls()[0].func,
        ),
        u.calls()[0].args.len() == 1,
        crate::utxo::record_in(u.calls()[0].args[0]) matches Some(record) && record.len()
            == fields@.len() && (0 <= i < record.len() ==> record[i] == (
            fields@[i].0@,
            fields@[i].1,
        )),
        u.calls()[0].results matches Some(results) && results.len() == 1
            && crate::running::resource_in(results[0]) == Some(u.handle()),
{
}

/// The interface that a contract shows for an instance is that of its `utxo`, under the name
/// behind the first slash of the instance's name and without its version; it declares the
/// methods that the guest declared.
pub proof fn interfaces_are_those_of_their_instances<T: Host>(
    contract: &Contract<T>,
    name: &str,
    ctx: &Ctx,
    text: String,
    package: Seq<char>,
    interface: Seq<char>,
    version: Seq<char>,
    shown: String,
)
    requires
        call_ensures(Contract::<T>::interface, (contract, name, ctx), Ok::<String, Cause>(text)),
        call_ensures(interface_of, (name,), shown),
        !package.contains('/'),
        !interface.contains('@'),
        name@ == package + seq!['/'] + interface || name@ == package + seq!['/'] + interface + seq![
            '@',
        ] + version,
    ensures
        ({
            let own = contract.exports().own@.exports;
            let utxo = utxo_named(own, contract.exports().ty@.exports, name@);
            let methods = function_list(Role::Method, own, utxo->Ok_0, utxo->Ok_0.items.len());
            let declarations = method_texts(methods, ctx.declared(), methods.len());
            &&& utxo is Ok
            &&& declarations is Ok
            &&& text@ == interface_text(interface, declarations->Ok_0)
        }),
{
    crate::wit::interfaces_have_no_package_and_no_version(
        name,
        shown,
        package,
        interface,
        version,
    );
}

/// A contract that is made of a component is that component: its exports are those that the
/// engine compiled, its imports are events or built in, and each of them is provided.
pub proof fn contracts_are_made_of_their_bytes<T: Host>(wasm: &[u8], c: Contract<T>)
    requires
        call_ensures(Contract::<T>::new, (wasm,), Ok::<Contract<T>, RunError>(c)),
    ensures
        !is_core(wasm@) ==> binary_of(c.component()) == wasm@,
        is_core(wasm@) ==> component_encoding(wasm@)->0 == Ok::<Seq<u8>, Stage>(
            binary_of(c.component()),
        ),
        !is_core(binary_of(c.component())),
        c.exports().own@ == compiled_type(c.component()),
        c.exports().ty@ == component_of(c.described()),
        import_plan(c.exports().own@.imports, c.exports().own@.imports.len()) is Ok,
        satisfied(
            c.exports().own@.imports,
            builtins() + planned_instances(
                import_plan(c.exports().own@.imports, c.exports().own@.imports.len())->Ok_0,
            ),
        ),
{
}

/// Where a contract is not made it is told where: there is no engine; the component was not
/// made of the core module, or was not compiled; an import is refused; or the engine failed
/// at its type or at its imports.
pub proof fn contracts_tell_where_they_failed<T: 'static>(
    reserved: Option<u64>,
    wasm: Seq<u8>,
    e: RunError,
)
    requires
        makes(reserved, wasm, Err::<Contract<T>, RunError>(e)),
    ensures
        exists|config: Config, created: Result<Engine, wasmtime::Error>|
            configures(reserved, config) && #[trigger] creates(config, created) && match created {
                Err(x) => e == RunError::Engine(Step::CreateEngine, x),
                Ok(engine) => {
                    ||| is_core(wasm) && (component_encoding(wasm)->0 matches Err(stage) && (
                    e matches RunError::Componentize(s, _) && s == stage))
                    ||| e matches RunError::Engine(step, _) && (step == Step::LoadComponent || step
                        == Step::DeriveType || step == Step::PreInstantiate)
                    ||| exists|component: Component|
                        #![trigger compiled_type(component)]
                        {
                            let imports = compiled_type(component).imports;
                            import_plan(imports, imports.len()) matches Err(c) && e
                                == RunError::Refused(c)
                        }
                },
            },
{
    let r = Err::<Contract<T>, RunError>(e);
    let (config, created) = choose|config: Config, created: Result<Engine, wasmtime::Error>|
        configures(reserved, config) && #[trigger] creates(config, created) && match created {
            Err(x) => r == Err::<Contract<T>, RunError>(RunError::Engine(Step::CreateEngine, x)),
            Ok(engine) => builds(engine, wasm, r),
        };
    if let Ok(engine) = created {
        let loaded = choose|loaded: Result<Component, RunError>| #[trigger]
            loads(engine, wasm, loaded) && match loaded {
                Err(x) => r == Err::<Contract<T>, RunError>(x),
                Ok(component) => {
                    let imports = compiled_type(component).imports;
                    &&& component_bytes(wasm) == Ok::<Seq<u8>, Stage>(binary_of(component))
                    &&& !is_core(binary_of(component))
                    &&& match import_plan(imports, imports.len()) {
                        Err(cause) => r == Err::<Contract<T>, RunError>(RunError::Refused(cause)),
                        Ok(plan) => links(engine, component, plan, r),
                    }
                },
            };
        if let Ok(component) = loaded {
            let imports = compiled_type(component).imports;
            if let Ok(plan) = import_plan(imports, imports.len()) {
                let (linker, derived) = choose|
                    linker: ImportLinker<T>,
                    derived: Result<TypesHandle, wasmtime::Error>,
                | #[trigger] substitutes(linker, component, derived) && linker.contents()
                    == builtins() + planned_instances(plan) && match derived {
                    Err(x) => r == Err::<Contract<T>, RunError>(
                        RunError::Engine(Step::DeriveType, x),
                    ),
                    Ok(handle) => exists|resolved: Result<InstancePre<T>, wasmtime::Error>|
                        #[trigger] resolves(linker, component, resolved) && match resolved {
                            Err(x) => r == Err::<Contract<T>, RunError>(
                                RunError::Engine(Step::PreInstantiate, x),
                            ),
                            Ok(pre) => false,
                        },
                };
            }
        }
    }
}

} // verus!
