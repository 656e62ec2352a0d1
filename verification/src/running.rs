//! Instances in their stores.
//!
//! A [`Running`] holds an instance and the store that it was made in. The two are never
//! parted: only this module can put them together, and it does so where the engine made
//! the one in the other. With them stays a record of the calls that were made into the
//! instance.

use vstd::prelude::*;
use wasmtime::component::{
    Component, ComponentExportIndex, Func, Instance, InstancePre, ResourceAny, Val as WasmVal,
};
use wasmtime::{Store, StoreContextMut};

use crate::contract::{compiled_type, place_at, prepares};
use crate::discovery::instance_items;
use crate::linker::ImportLinker;
use crate::reflect::{describable, Source};
use crate::types::{lookup, ItemV};

verus! {

/// `wasmtime::Store`: where instances live, and their host data.
#[verifier::external_type_specification]
#[verifier::external_body]
#[verifier::reject_recursive_types(T)]
pub struct ExStore<T: 'static>(wasmtime::Store<T>);

/// `wasmtime::StoreContextMut`: a store that is lent out.
#[verifier::external_type_specification]
#[verifier::external_body]
#[verifier::reject_recursive_types(T)]
pub struct ExStoreContextMut<'a, T: 'static>(wasmtime::StoreContextMut<'a, T>);

/// `wasmtime::component::Instance`: an instance of a component.
#[verifier::external_type_specification]
#[verifier::external_body]
pub struct ExInstance(wasmtime::component::Instance);

/// `wasmtime::component::Func`: a function of an instance.
#[verifier::external_type_specification]
#[verifier::external_body]
pub struct ExFunc(wasmtime::component::Func);

/// `wasmtime::component::ResourceAny`: a handle to a resource.
#[verifier::external_type_specification]
#[verifier::external_body]
pub struct ExResourceAny(wasmtime::component::ResourceAny);

/// The function of an instance that is found under the name `name` in its export
/// `instance`. A name with a version may find a function of another version.
pub uninterp spec fn located(
    i: wasmtime::component::Instance,
    instance: Seq<char>,
    name: Seq<char>,
) -> Option<wasmtime::component::Func>;

/// Whether a function is async.
pub uninterp spec fn is_async_func(f: wasmtime::component::Func) -> bool;

/// The place of the export `name` in the component that an instance is of.
pub uninterp spec fn place_in(i: wasmtime::component::Instance, name: Seq<char>) -> Option<
    wasmtime::component::ComponentExportIndex,
>;

/// The resource that a value is a handle to.
pub uninterp spec fn resource_in(v: wasmtime::component::Val) -> Option<ResourceAny>;

/// A call into an instance: the function, the arguments, and the results where it did not
/// fail.
pub struct CallV {
    pub func: Func,
    pub args: Seq<WasmVal>,
    pub results: Option<Seq<WasmVal>>,
}

/// Whether one of `calls` returned a handle to `resource`.
pub open spec fn returned(calls: Seq<CallV>, resource: ResourceAny) -> bool {
    exists|k: int, j: int|
        0 <= k < calls.len() && calls[k].results is Some && 0 <= j < calls[k].results->0.len()
            && resource_in(#[trigger] calls[k].results->0[j]) == Some(resource)
}

/// Whether `pre` was prepared from a component that the engine can describe.
pub open spec fn is_sound<T: 'static>(pre: InstancePre<T>) -> bool {
    exists|linker: ImportLinker<T>, c: Component| #[trigger]
        prepares(linker, c, pre) && describable(Source::Compiled(c))
}

/// `wasmtime::Store::new`: a fresh store with `ctx` as its data.
#[verifier::external_body]
fn new_store<T: 'static>(pre: &InstancePre<T>, ctx: T) -> Store<T> {
    Store::new(pre.engine(), ctx)
}

/// Whether `store` may be the store that is opened for `pre` with `ctx` as its data.
pub closed spec fn opens<T: 'static>(pre: InstancePre<T>, ctx: T, store: Store<T>) -> bool {
    call_ensures(new_store::<T>, (&pre, ctx), store)
}

/// `wasmtime::component::InstancePre::instantiate`: makes an instance in a store, and
/// hands the store back as the guest's start-up left it. The instance has the exports
/// of the component that was prepared, at their places: each exported function is found
/// in it, and is async where its type says so. Whether it comes up is the guest's affair.
#[verifier::external_body]
fn instantiate_in<T: 'static>(pre: &InstancePre<T>, mut store: Store<T>) -> (r: (
    Result<Instance, wasmtime::Error>,
    Store<T>,
))
    requires
        is_sound(*pre),
        exists|ctx: T| opens(*pre, ctx, store),
    ensures
        forall|linker: ImportLinker<T>, c: Component, instance: Seq<char>, name: Seq<char>|
            #![trigger
                prepares(linker, c, *pre),
                lookup(instance_items(compiled_type(c).exports, instance), name)
            ]
            prepares(linker, c, *pre) && r.0 is Ok ==> match lookup(
                instance_items(compiled_type(c).exports, instance),
                name,
            ) {
                Some(ItemV::Func(ty)) => located(r.0->Ok_0, instance, name) matches Some(f)
                    && is_async_func(f) == ty.is_async,
                _ => true,
            },
        forall|linker: ImportLinker<T>, c: Component, name: Seq<char>|
            #![trigger prepares(linker, c, *pre), place_at(c, name)]
            prepares(linker, c, *pre) && r.0 is Ok ==> place_in(r.0->Ok_0, name) == place_at(
                c,
                name,
            ),
{
    let outcome = pre.instantiate(&mut store);
    (outcome, store)
}

/// Whether making an instance of `pre` in the store `before` may come to `outcome` and
/// leave the store `after`.
pub closed spec fn comes_up<T: 'static>(
    pre: InstancePre<T>,
    before: Store<T>,
    outcome: Result<Instance, wasmtime::Error>,
    after: Store<T>,
) -> bool {
    call_ensures(instantiate_in::<T>, (&pre, before), (outcome, after))
}

/// An instance in the store that it was made in, and the calls that were made into it.
#[verifier::reject_recursive_types(T)]
pub struct Running<T: 'static> {
    store: Store<T>,
    instance: Instance,
    calls: Ghost<Seq<CallV>>,
    birth: Ghost<(InstancePre<T>, Store<T>, Store<T>)>,
}

impl<T: 'static> Running<T> {
    /// The instance.
    pub closed spec fn instance(&self) -> Instance {
        self.instance
    }

    /// The calls made into the instance by the functions of this library, in order.
    pub closed spec fn calls(&self) -> Seq<CallV> {
        self.calls@
    }

    /// Whether the instance came up in the store that it is held with: which component it
    /// was made of, and what store it was made in, stays known.
    #[verifier::type_invariant]
    pub closed spec fn is_whole(self) -> bool {
        &&& is_sound(self.birth@.0)
        &&& comes_up(
            self.birth@.0,
            self.birth@.1,
            Ok::<Instance, wasmtime::Error>(self.instance),
            self.birth@.2,
        )
    }
}

/// An instance of `pre` that no call was made into, in the store that it was made in.
pub closed spec fn fresh<T: 'static>(
    pre: InstancePre<T>,
    opened: Store<T>,
    instance: Instance,
    up: Store<T>,
) -> Running<T> {
    Running {
        store: up,
        instance,
        calls: Ghost(Seq::empty()),
        birth: Ghost((pre, opened, up)),
    }
}

/// What starting an instance comes to: a store is opened with `ctx` as its data, and the
/// instance comes up in it. Or the error of the engine.
pub open spec fn starts<T: 'static>(
    pre: InstancePre<T>,
    ctx: T,
    r: Result<Running<T>, wasmtime::Error>,
) -> bool {
    exists|opened: Store<T>, outcome: Result<Instance, wasmtime::Error>, up: Store<T>|
        opens(pre, ctx, opened) && #[trigger] comes_up(pre, opened, outcome, up) && match outcome {
            Ok(made) => r == Ok::<Running<T>, wasmtime::Error>(fresh(pre, opened, made, up)),
            Err(e) => r == Err::<Running<T>, wasmtime::Error>(e),
        }
}

/// Starts an instance in a store of its own.
pub(crate) fn start<T: 'static>(pre: &InstancePre<T>, ctx: T) -> (r: Result<
    Running<T>,
    wasmtime::Error,
>)
    requires
        is_sound(*pre),
    ensures
        starts(*pre, ctx, r),
        r matches Ok(run) ==> run.calls() == Seq::<CallV>::empty(),
        forall|linker: ImportLinker<T>, c: Component, instance: Seq<char>, name: Seq<char>|
            #![trigger
                prepares(linker, c, *pre),
                lookup(instance_items(compiled_type(c).exports, instance), name)
            ]
            prepares(linker, c, *pre) && r is Ok ==> match lookup(
                instance_items(compiled_type(c).exports, instance),
                name,
            ) {
                Some(ItemV::Func(ty)) => located(r->Ok_0.instance(), instance, name) matches Some(f)
                    && is_async_func(f) == ty.is_async,
                _ => true,
            },
        forall|linker: ImportLinker<T>, c: Component, name: Seq<char>|
            #![trigger prepares(linker, c, *pre), place_at(c, name)]
            prepares(linker, c, *pre) && r is Ok ==> place_in(r->Ok_0.instance(), name) == place_at(
                c,
                name,
            ),
{
    let opened = new_store(pre, ctx);
    let ghost before = opened;
    assert(opens(*pre, ctx, before));
    let (outcome, store) = instantiate_in(pre, opened);
    assert(comes_up(*pre, before, outcome, store));
    match outcome {
        Ok(instance) => {
            let run = Running {
                store,
                instance,
                calls: Ghost(Seq::empty()),
                birth: Ghost((*pre, before, store)),
            };
            assert(run == fresh(*pre, before, instance, store));
            Ok(run)
        },
        Err(e) => Err(e),
    }
}

/// `wasmtime::component::Instance::get_export_index`, for an instance and for an
/// export inside it, and `Instance::get_func` on the latter: the function, where
/// the export is there and is one.
#[verifier::external_body]
pub(crate) fn find_func<T: 'static>(run: &mut Running<T>, instance: &str, name: &str) -> (r: Option<
    Func,
>)
    requires
        old(run).is_whole(),
    ensures
        r == located(old(run).instance(), instance@, name@),
        *final(run) == *old(run),
{
    let outer = run.instance.get_export_index(&mut run.store, None, instance)?;
    let inner = run.instance.get_export_index(&mut run.store, Some(&outer), name)?;
    run.instance.get_func(&mut run.store, inner)
}

/// `wasmtime::component::Instance::get_export_index`: the place of an export in the
/// component that the instance is of.
#[verifier::external_body]
pub(crate) fn find_place<T: 'static>(run: &mut Running<T>, name: &str) -> (r: Option<
    ComponentExportIndex,
>)
    requires
        old(run).is_whole(),
    ensures
        r == place_in(old(run).instance(), name@),
        *final(run) == *old(run),
{
    run.instance.get_export_index(&mut run.store, None, name)
}

/// Whether a function is one of an instance.
pub open spec fn belongs(f: Func, i: Instance) -> bool {
    exists|instance: Seq<char>, name: Seq<char>| #[trigger]
        located(i, instance, name) == Some(f)
}

/// `wasmtime::component::Func::ty` and `ComponentFunc::async_`: whether a function of the
/// instance is async.
#[verifier::external_body]
pub(crate) fn tests_async<T: 'static>(run: &Running<T>, f: &Func) -> (r: bool)
    requires
        run.is_whole(),
        belongs(*f, run.instance()),
    ensures
        r == is_async_func(*f),
{
    f.ty(&run.store).async_()
}

/// The results of a call that did not fail.
pub open spec fn came_back<E>(r: Result<Vec<WasmVal>, E>) -> Option<Seq<WasmVal>> {
    match r {
        Ok(results) => Some(results@),
        Err(_) => None,
    }
}

/// `wasmtime::component::Func::call`: calls a function of the instance, and hands the
/// instance back as the guest left it. The call returns as many results as it was given
/// room for, or fails. What the guest does with the arguments is not stated.
#[verifier::external_body]
pub(crate) fn call_func<T: 'static>(
    mut run: Running<T>,
    f: &Func,
    params: &[WasmVal],
    n: usize,
) -> (r: (Result<Vec<WasmVal>, wasmtime::Error>, Running<T>))
    requires
        run.is_whole(),
        belongs(*f, run.instance()),
        !is_async_func(*f),
    ensures
        r.0 matches Ok(results) ==> results@.len() == n,
        r.1.is_whole(),
        r.1.instance() == run.instance(),
        r.1.calls() == run.calls().push(
            (CallV { func: *f, args: params@, results: came_back(r.0) }),
        ),
{
    let mut results = vec![WasmVal::Bool(false); n];
    let outcome = f.call(&mut run.store, params, &mut results);
    match outcome {
        Ok(()) => (Ok(results), run),
        Err(e) => (Err(e), run),
    }
}

/// Whether a call of `f` with `args` and room for `n` results, made into `before`, may
/// come to `outcome` and leave `after`.
pub closed spec fn answers<T: 'static>(
    before: Running<T>,
    f: Func,
    args: Seq<WasmVal>,
    n: nat,
    outcome: Result<Vec<WasmVal>, wasmtime::Error>,
    after: Running<T>,
) -> bool {
    exists|params: &[WasmVal], room: usize|
        params@ == args && room == n && #[trigger] call_ensures(
            call_func::<T>,
            (before, &f, params, room),
            (outcome, after),
        )
}

/// A call of `f`, as it was made.
pub(crate) proof fn lemma_answers<T: 'static>(
    before: Running<T>,
    f: Func,
    params: &[WasmVal],
    room: usize,
    outcome: Result<Vec<WasmVal>, wasmtime::Error>,
    after: Running<T>,
)
    requires
        call_ensures(call_func::<T>, (before, &f, params, room), (outcome, after)),
    ensures
        answers(before, f, params@, room as nat, outcome, after),
{
}

/// `wasmtime::AsContextMut::as_context_mut`, on the store of an instance: the store, to be
/// used while it is lent. It cannot be exchanged for another. What becomes of the store
/// and its data is the borrower's affair.
#[verifier::external_body]
pub(crate) fn lend<'a, T: 'static>(run: &'a mut Running<T>) -> (r: StoreContextMut<'a, T>)
    requires
        old(run).is_whole(),
    ensures
        final(run).is_whole(),
        final(run).instance() == old(run).instance(),
        final(run).calls() == old(run).calls(),
{
    wasmtime::AsContextMut::as_context_mut(&mut run.store)
}

/// Whether `context` may be the store of `run`, as it is lent.
pub closed spec fn lends<T: 'static>(run: Running<T>, context: StoreContextMut<T>) -> bool {
    exists|lender: &mut Running<T>|
        *lender == run && #[trigger] call_ensures(lend::<T>, (lender,), context)
}

/// Lends the store of an instance.
pub(crate) fn lend_store<'a, T: 'static>(run: &'a mut Running<T>) -> (r: StoreContextMut<'a, T>)
    requires
        old(run).is_whole(),
    ensures
        lends(*old(run), r),
        final(run).is_whole(),
        final(run).instance() == old(run).instance(),
        final(run).calls() == old(run).calls(),
{
    let r = lend(run);
    r
}

/// `wasmtime::component::ResourceAny::resource_drop`, on a resource that a call into the
/// instance returned: runs the guest's destructor, and hands the instance back as the
/// guest left it. Whether it fails, and what it does to the host data, is not stated.
#[verifier::external_body]
pub(crate) fn resource_drop<T: 'static>(resource: ResourceAny, mut run: Running<T>) -> (r: (
    Result<(), wasmtime::Error>,
    Running<T>,
))
    requires
        run.is_whole(),
        returned(run.calls(), resource),
    ensures
        r.1.is_whole(),
{
    let outcome = resource.resource_drop(&mut run.store);
    (outcome, run)
}

/// Whether dropping `resource` in `before` may come to `outcome` and leave `after`.
pub closed spec fn drops<T: 'static>(
    resource: ResourceAny,
    before: Running<T>,
    outcome: Result<(), wasmtime::Error>,
    after: Running<T>,
) -> bool {
    call_ensures(resource_drop::<T>, (resource, before), (outcome, after))
}

/// A drop, as it was made.
pub(crate) proof fn lemma_drops<T: 'static>(
    resource: ResourceAny,
    before: Running<T>,
    outcome: Result<(), wasmtime::Error>,
    after: Running<T>,
)
    requires
        call_ensures(resource_drop::<T>, (resource, before), (outcome, after)),
    ensures
        drops(resource, before, outcome, after),
{
}

/// `wasmtime::Store::into_data`: the host data of the store. Which data that is is not
/// stated.
#[verifier::external_body]
pub(crate) fn into_data<T: 'static>(run: Running<T>) -> T {
    run.store.into_data()
}

/// Whether `data` may be the host data that comes out of the store of `run`.
pub closed spec fn yields<T: 'static>(run: Running<T>, data: T) -> bool {
    call_ensures(into_data::<T>, (run,), data)
}

/// Host data, as it came out.
pub(crate) proof fn lemma_yields<T: 'static>(run: Running<T>, data: T)
    requires
        call_ensures(into_data::<T>, (run,), data),
    ensures
        yields(run, data),
{
}

} // verus!
