//! Driving one UTXO.
//!
//! A [`Utxo`] keeps a record of the calls that went into its instance: which function
//! each was of, with which arguments, and what came back. What a call does is the
//! guest's affair; which calls are made, with what, and what becomes of the results,
//! is this module's.

use vstd::prelude::*;
use wasmtime::component::{
    Component, ComponentExportIndex, Func, Instance, InstancePre, ResourceAny, Val as WasmVal,
};
use wasmtime::StoreContextMut;

use crate::cause::Cause;
use crate::contract::{compiled_type, exports_at, place_at, prepares};
use crate::discovery::{
    at_home, instance_items, is_at_home, MethodExport, UtxoStorageExport,
};
use crate::error::{RunError, Step};
use crate::linker::ImportLinker;
use crate::running::{
    answers, belongs, call_func, drops, find_func, find_place, into_data, is_async_func, is_sound,
    lemma_answers, lemma_drops, lemma_yields, lend_store, lends, located, place_in, resource_drop,
    resource_in, returned, start, starts, tests_async, yields, CallV, Running,
};
use crate::types::{lookup, ItemV};

verus! {

/// The fields of a value that is a record.
pub uninterp spec fn record_in(v: wasmtime::component::Val) -> Option<Seq<(Seq<char>, WasmVal)>>;

/// The view of a list of fields.
pub open spec fn record_view(fields: Seq<(String, WasmVal)>) -> Seq<(Seq<char>, WasmVal)> {
    Seq::new(fields.len(), |i: int| (fields[i].0@, fields[i].1))
}

/// Whether `values` is one value, a handle to `resource`.
pub open spec fn one_resource(values: Seq<WasmVal>, resource: ResourceAny) -> bool {
    values.len() == 1 && resource_in(values[0]) == Some(resource)
}

/// Whether `values` is one value, a record of `fields`.
pub open spec fn one_record(values: Seq<WasmVal>, fields: Seq<(Seq<char>, WasmVal)>) -> bool {
    values.len() == 1 && record_in(values[0]) == Some(fields)
}

/// The payload of a `wasmtime::component::Val::Resource`.
#[verifier::external_body]
fn as_resource(v: &WasmVal) -> (r: Option<ResourceAny>)
    ensures
        r == resource_in(*v),
{
    match v {
        WasmVal::Resource(r) => Some(*r),
        _ => None,
    }
}

/// A `wasmtime::component::Val::Resource`.
#[verifier::external_body]
pub(crate) fn make_resource(r: ResourceAny) -> (v: WasmVal)
    ensures
        resource_in(v) == Some(r),
{
    WasmVal::Resource(r)
}

/// The payload of a `wasmtime::component::Val::Record`.
#[verifier::external_body]
fn as_record(v: WasmVal) -> (r: Option<Vec<(String, WasmVal)>>)
    ensures
        match r {
            Some(fields) => record_in(v) == Some(record_view(fields@)),
            None => record_in(v) is None,
        },
{
    match v {
        WasmVal::Record(fields) => Some(fields),
        _ => None,
    }
}

/// A `wasmtime::component::Val::Record`.
#[verifier::external_body]
pub(crate) fn make_record(fields: Vec<(String, WasmVal)>) -> (v: WasmVal)
    ensures
        record_in(v) == Some(record_view(fields@)),
{
    WasmVal::Record(fields)
}

/// The function that an instance has under the name `name` in its export `instance`, as
/// it was found at `place`.
pub open spec fn func_at(
    i: Instance,
    place: Option<ComponentExportIndex>,
    instance: Seq<char>,
    name: Seq<char>,
) -> Option<Func> {
    if at_home(place, place_in(i, instance)) {
        located(i, instance, name)
    } else {
        None
    }
}

/// The function `name` of the export `instance`, as it was found at `place`.
fn find_func_at<T: 'static>(
    run: &mut Running<T>,
    place: Option<ComponentExportIndex>,
    instance: &str,
    name: &str,
) -> (r: Option<Func>)
    requires
        old(run).is_whole(),
    ensures
        r == func_at(old(run).instance(), place, instance@, name@),
        *final(run) == *old(run),
{
    if !is_at_home(place, find_place(run, instance)) {
        return None;
    }
    find_func(run, instance, name)
}

/// Whether `full` is `params` behind a handle to `resource`.
pub open spec fn received(
    resource: ResourceAny,
    params: Seq<WasmVal>,
    full: Seq<WasmVal>,
) -> bool {
    &&& full.len() == params.len() + 1
    &&& resource_in(full[0]) == Some(resource)
    &&& full.skip(1) == params
}

/// The arguments of a method: its receiver, and what it is called with.
pub fn with_receiver(resource: ResourceAny, params: Vec<WasmVal>) -> (r: Vec<WasmVal>)
    ensures
        received(resource, params@, r@),
{
    let mut rest = params;
    let mut r: Vec<WasmVal> = Vec::new();
    r.push(make_resource(resource));
    r.append(&mut rest);
    assert(r@.skip(1) =~= params@);
    r
}

/// The resource that a constructor returned: it must be all that it returned.
pub fn sole_resource(results: &Vec<WasmVal>) -> (r: Result<ResourceAny, Cause>)
    ensures
        match r {
            Ok(resource) => one_resource(results@, resource),
            Err(c) => c == Cause::InvalidReturn && forall|resource: ResourceAny|
                !one_resource(results@, resource),
        },
{
    if results.len() != 1 {
        return Err(Cause::InvalidReturn);
    }
    match as_resource(&results[0]) {
        Some(resource) => Ok(resource),
        None => Err(Cause::InvalidReturn),
    }
}

/// The record that a `get-storage` returned: it must be all that it returned.
pub fn sole_record(mut results: Vec<WasmVal>) -> (r: Result<Vec<(String, WasmVal)>, Cause>)
    ensures
        match r {
            Ok(fields) => one_record(results@, record_view(fields@)),
            Err(c) => c == Cause::InvalidReturn && forall|fields: Seq<(Seq<char>, WasmVal)>|
                !one_record(results@, fields),
        },
{
    if results.len() != 1 {
        return Err(Cause::InvalidReturn);
    }
    let v = match results.pop() {
        Some(v) => v,
        None => {
            return Err(Cause::InvalidReturn);
        },
    };
    match as_record(v) {
        Some(fields) => Ok(fields),
        None => Err(Cause::InvalidReturn),
    }
}

/// A minted UTXO: an instance, its store and the resource that was minted in it.
#[verifier::reject_recursive_types(T)]
pub struct Utxo<T: 'static> {
    run: Option<Running<T>>,
    resource: ResourceAny,
}

/// Whether a UTXO is fresh from one call of the function `name` of `instance`, which
/// returned its resource and nothing else.
pub open spec fn minted<T: 'static>(u: Utxo<T>, instance: Seq<char>, name: Seq<char>) -> bool {
    &&& u.at_rest()
    &&& u.calls().len() == 1
    &&& located(u.running().instance(), instance, name) == Some(u.calls()[0].func)
    &&& u.calls()[0].results is Some
    &&& one_resource(u.calls()[0].results->Some_0, u.handle())
}

/// What comes of an instance where its function `f` is called to mint a UTXO: the resource
/// that the call returned, in the instance as the call left it. Or that it returned
/// something else, or the error that it failed with. An async function is refused.
pub open spec fn mints<T: 'static>(
    run: Running<T>,
    f: Func,
    args: Seq<WasmVal>,
    r: Result<Utxo<T>, RunError>,
) -> bool {
    if is_async_func(f) {
        r == Err::<Utxo<T>, RunError>(RunError::Refused(Cause::AsyncFunction))
    } else {
        exists|outcome: Result<Vec<WasmVal>, wasmtime::Error>, after: Running<T>| #[trigger]
            answers(run, f, args, 1, outcome, after) && match outcome {
                Err(e) => r == Err::<Utxo<T>, RunError>(RunError::Engine(Step::CallConstructor, e)),
                Ok(results) => match r {
                    Ok(u) => u.running() == after && one_resource(results@, u.handle()),
                    Err(e) => e == RunError::Refused(Cause::InvalidReturn) && forall|
                        resource: ResourceAny,
                    |
                        !one_resource(results@, resource),
                },
            }
    }
}

/// What comes of minting a UTXO: an instance is started with `ctx` as its data, and its
/// function is called. Or the instance does not come up, or has no such function.
pub open spec fn constructs<T: 'static>(
    pre: InstancePre<T>,
    ctx: T,
    place: Option<ComponentExportIndex>,
    instance: Seq<char>,
    name: Seq<char>,
    args: Seq<WasmVal>,
    r: Result<Utxo<T>, RunError>,
) -> bool {
    exists|started: Result<Running<T>, wasmtime::Error>| #[trigger]
        starts(pre, ctx, started) && match started {
            Err(e) => r == Err::<Utxo<T>, RunError>(RunError::Engine(Step::Instantiate, e)),
            Ok(run) => match func_at(run.instance(), place, instance, name) {
                Some(f) => mints(run, f, args, r),
                None => r == Err::<Utxo<T>, RunError>(
                    RunError::Refused(Cause::ConstructorNotFound),
                ),
            },
        }
}

/// Whether an instance has each function that a component exports, async where its type
/// says so.
pub open spec fn offers_all(i: Instance, c: Component) -> bool {
    forall|place: Option<ComponentExportIndex>, instance: Seq<char>, name: Seq<char>| #[trigger]
        exports_at(c, place, instance, name) ==> (func_at(i, place, instance, name) matches Some(f)
            && is_async_func(f) == lookup(
            instance_items(compiled_type(c).exports, instance),
            name,
        )->0->Func_0.is_async)
}

proof fn lemma_returned_grows(calls: Seq<CallV>, call: CallV, resource: ResourceAny)
    requires
        returned(calls, resource),
    ensures
        returned(calls.push(call), resource),
{
    let (k, j) = choose|k: int, j: int|
        0 <= k < calls.len() && calls[k].results is Some && 0 <= j < calls[k].results->0.len()
            && resource_in(#[trigger] calls[k].results->0[j]) == Some(resource);
    let now = calls.push(call);
    assert(resource_in(now[k].results->0[j]) == Some(resource));
}

/// Makes a fresh instance and calls a function of it that returns the resource.
pub(crate) fn construct<T: 'static>(
    pre: &InstancePre<T>,
    ctx: T,
    place: Option<ComponentExportIndex>,
    instance: &str,
    name: &str,
    params: &[WasmVal],
) -> (r: Result<Utxo<T>, RunError>)
    requires
        is_sound(*pre),
    ensures
        constructs(*pre, ctx, place, instance@, name@, params@, r),
        r matches Ok(u) ==> minted(u, instance@, name@) && u.calls()[0].args == params@,
        forall|linker: ImportLinker<T>, c: Component| #[trigger]
            prepares(linker, c, *pre) ==> match r {
                Ok(u) => offers_all(u.running().instance(), c),
                Err(RunError::Refused(Cause::ConstructorNotFound)) => !exports_at(
                    c,
                    place,
                    instance@,
                    name@,
                ),
                Err(RunError::Refused(Cause::AsyncFunction)) => exports_at(
                    c,
                    place,
                    instance@,
                    name@,
                ) ==> lookup(
                    instance_items(compiled_type(c).exports, instance@),
                    name@,
                )->0->Func_0.is_async,
                _ => true,
            },
{
    let started = start(pre, ctx);
    let ghost result = started;
    assert(starts(*pre, ctx, result));
    let mut run = match started {
        Ok(run) => run,
        Err(e) => {
            return Err(RunError::Engine(Step::Instantiate, e));
        },
    };
    let ghost fresh = run;
    let ghost i = run.instance();
    proof {
        use_type_invariant(&run);
        assert forall|linker: ImportLinker<T>, c: Component| #[trigger]
            prepares(linker, c, *pre) implies offers_all(i, c) by {
            assert forall|p: Option<ComponentExportIndex>, o: Seq<char>, n: Seq<char>| #[trigger]
                exports_at(c, p, o, n) implies (func_at(i, p, o, n) matches Some(f)
                && is_async_func(f) == lookup(
                instance_items(compiled_type(c).exports, o),
                n,
            )->0->Func_0.is_async) by {
                assert(place_in(i, o) == place_at(c, o));
            }
        }
    }
    let f = match find_func_at(&mut run, place, instance, name) {
        Some(f) => f,
        None => {
            assert forall|linker: ImportLinker<T>, c: Component| #[trigger]
                prepares(linker, c, *pre) implies !exports_at(c, place, instance@, name@) by {
                assert(offers_all(i, c));
            }
            return Err(RunError::Refused(Cause::ConstructorNotFound));
        },
    };
    assert(belongs(f, run.instance())) by {
        assert(located(run.instance(), instance@, name@) == Some(f));
    }
    if tests_async(&run, &f) {
        assert(mints(
            fresh,
            f,
            params@,
            Err::<Utxo<T>, RunError>(RunError::Refused(Cause::AsyncFunction)),
        ));
        return Err(RunError::Refused(Cause::AsyncFunction));
    }
    let (outcome, run) = call_func(run, &f, params, 1);
    proof {
        lemma_answers(fresh, f, params, 1, outcome, run);
    }
    match outcome {
        Ok(results) => match sole_resource(&results) {
            Ok(resource) => {
                assert(returned(run.calls(), resource)) by {
                    assert(resource_in(run.calls()[0].results->0[0]) == Some(resource));
                }
                let u = Utxo { run: Some(run), resource };
                assert(mints(fresh, f, params@, Ok(u)));
                Ok(u)
            },
            Err(c) => {
                assert(mints(
                    fresh,
                    f,
                    params@,
                    Err::<Utxo<T>, RunError>(RunError::Refused(c)),
                ));
                Err(RunError::Refused(c))
            },
        },
        Err(e) => {
            assert(mints(
                fresh,
                f,
                params@,
                Err::<Utxo<T>, RunError>(RunError::Engine(Step::CallConstructor, e)),
            ));
            Err(RunError::Engine(Step::CallConstructor, e))
        },
    }
}

/// What a call of the function `name` of `instance` comes to, made into `before`: the
/// results, or the error that it failed with at `step`, and the instance as the call
/// left it. Or that there is no such function, or that it is async, and the instance
/// unchanged.
pub open spec fn calls<T: 'static>(
    before: Running<T>,
    place: Option<ComponentExportIndex>,
    instance: Seq<char>,
    name: Seq<char>,
    args: Seq<WasmVal>,
    n: nat,
    step: Step,
    r: Result<Vec<WasmVal>, RunError>,
    after: Running<T>,
) -> bool {
    match func_at(before.instance(), place, instance, name) {
        None => r == Err::<Vec<WasmVal>, RunError>(RunError::Refused(Cause::FunctionNotFound))
            && after == before,
        Some(f) => if is_async_func(f) {
            r == Err::<Vec<WasmVal>, RunError>(RunError::Refused(Cause::AsyncFunction)) && after
                == before
        } else {
            exists|outcome: Result<Vec<WasmVal>, wasmtime::Error>| #[trigger]
                answers(before, f, args, n, outcome, after) && match outcome {
                    Ok(results) => r == Ok::<Vec<WasmVal>, RunError>(results),
                    Err(e) => r == Err::<Vec<WasmVal>, RunError>(RunError::Engine(step, e)),
                }
        },
    }
}

/// Calls a function of the instance in `slot`.
fn call_export<T: 'static>(
    slot: &mut Option<Running<T>>,
    place: Option<ComponentExportIndex>,
    instance: &str,
    name: &str,
    params: &[WasmVal],
    n: usize,
    step: Step,
) -> (r: Result<Vec<WasmVal>, RunError>)
    requires
        *old(slot) is Some,
    ensures
        *final(slot) is Some,
        calls(
            old(slot)->Some_0,
            place,
            instance@,
            name@,
            params@,
            n as nat,
            step,
            r,
            final(slot)->Some_0,
        ),
        final(slot)->Some_0.instance() == old(slot)->Some_0.instance(),
        r matches Ok(results) ==> results@.len() == n,
        match r {
            Err(RunError::Refused(c)) => (c == Cause::FunctionNotFound || c == Cause::AsyncFunction)
                && *final(slot) == *old(slot),
            Err(RunError::Engine(s, _)) => s == step && (func_at(
                old(slot)->Some_0.instance(),
                place,
                instance@,
                name@,
            ) matches Some(f) && final(slot)->Some_0.calls() == old(slot)->Some_0.calls().push(
                (CallV { func: f, args: params@, results: None }),
            )),
            Err(_) => false,
            Ok(results) => func_at(
                old(slot)->Some_0.instance(),
                place,
                instance@,
                name@,
            ) matches Some(f) && final(slot)->Some_0.calls() == old(slot)->Some_0.calls().push(
                (CallV { func: f, args: params@, results: Some(results@) }),
            ),
        },
{
    let mut taken: Option<Running<T>> = None;
    std::mem::swap(slot, &mut taken);
    match taken {
        Some(run) => {
            let ghost before = run;
            let mut run = run;
            proof {
                use_type_invariant(&run);
            }
            let f = match find_func_at(&mut run, place, instance, name) {
                Some(f) => f,
                None => {
                    *slot = Some(run);
                    return Err(RunError::Refused(Cause::FunctionNotFound));
                },
            };
            assert(belongs(f, run.instance())) by {
                assert(located(run.instance(), instance@, name@) == Some(f));
            }
            if tests_async(&run, &f) {
                *slot = Some(run);
                return Err(RunError::Refused(Cause::AsyncFunction));
            }
            let (outcome, run) = call_func(run, &f, params, n);
            proof {
                lemma_answers(before, f, params, n, outcome, run);
            }
            *slot = Some(run);
            match outcome {
                Ok(results) => Ok(results),
                Err(e) => Err(RunError::Engine(step, e)),
            }
        },
        None => {
            assert(false);
            Err(RunError::Refused(Cause::FunctionNotFound))
        },
    }
}

impl<T: 'static> Utxo<T> {
    /// The instance, in its store.
    pub closed spec fn running(&self) -> Running<T> {
        self.run->Some_0
    }

    /// The calls made into the instance by the functions of this library, in order.
    pub open spec fn calls(&self) -> Seq<CallV> {
        self.running().calls()
    }

    /// The minted resource.
    pub closed spec fn handle(&self) -> ResourceAny {
        self.resource
    }

    /// Whether no call is under way in the instance, and one returned the resource. Every
    /// UTXO is at rest, but for one whose host panicked in the middle of a call.
    pub closed spec fn at_rest(&self) -> bool {
        self.run is Some && returned(self.run->Some_0.calls(), self.resource)
    }

    /// The store that the instance lives in, to be used while it is lent.
    pub fn store(&mut self) -> (r: StoreContextMut<'_, T>)
        requires
            old(self).at_rest(),
        ensures
            lends(old(self).running(), r),
            final(self).at_rest(),
            final(self).handle() == old(self).handle(),
            final(self).running().instance() == old(self).running().instance(),
            final(self).calls() == old(self).calls(),
    {
        match &mut self.run {
            Some(run) => {
                proof {
                    use_type_invariant(&*run);
                }
                lend_store(run)
            },
            None => {
                assert(false);
                vstd::pervasive::unreached()
            },
        }
    }

    /// The minted resource.
    #[must_use]
    pub fn resource(&self) -> (r: ResourceAny)
        ensures
            r == self.handle(),
    {
        self.resource
    }

    /// Calls a method. The resource is not put in front of `params`.
    pub fn call(&mut self, export: &MethodExport, params: &[WasmVal]) -> (r: Result<
        Vec<WasmVal>,
        RunError,
    >)
        requires
            old(self).at_rest(),
        ensures
            final(self).at_rest(),
            final(self).handle() == old(self).handle(),
            final(self).running().instance() == old(self).running().instance(),
            calls(
                old(self).running(),
                export.origin(),
                export@.instance,
                export@.name,
                params@,
                export@.ty.results.len(),
                Step::CallMethod,
                r,
                final(self).running(),
            ),
            r matches Ok(results) ==> results@.len() == export@.ty.results.len(),
            match r {
                Err(RunError::Refused(c)) => *final(self) == *old(self) && if c
                    == Cause::AsyncFunction {
                    old(self).func(export.origin(), export@.instance, export@.name) matches Some(f)
                        && is_async_func(f)
                } else {
                    c == Cause::FunctionNotFound && old(self).func(
                        export.origin(),
                        export@.instance,
                        export@.name,
                    ) is None
                },
                Err(RunError::Engine(step, _)) => step == Step::CallMethod && (old(self).func(
                    export.origin(),
                    export@.instance,
                    export@.name,
                ) matches Some(f) && final(self).calls() == old(self).calls().push(
                    (CallV { func: f, args: params@, results: None }),
                )),
                Err(_) => false,
                Ok(results) => old(self).func(
                    export.origin(),
                    export@.instance,
                    export@.name,
                ) matches Some(f) && final(self).calls() == old(self).calls().push(
                    (CallV { func: f, args: params@, results: Some(results@) }),
                ),
            },
    {
        let ghost before = self.calls();
        let r = call_export(
            &mut self.run,
            export.place(),
            export.instance().as_str(),
            export.name().as_str(),
            params,
            export.ty().results.len(),
            Step::CallMethod,
        );
        proof {
            if !(r matches Err(RunError::Refused(_))) {
                lemma_returned_grows(before, self.calls().last(), self.resource);
                assert(self.calls() =~= before.push(self.calls().last()));
            }
        }
        r
    }

    /// The function that the instance has under the name `name` in its export `instance`,
    /// as it was found at `place`.
    pub open spec fn func(
        &self,
        place: Option<ComponentExportIndex>,
        instance: Seq<char>,
        name: Seq<char>,
    ) -> Option<Func> {
        func_at(self.running().instance(), place, instance, name)
    }

    /// The storage of the UTXO.
    pub fn storage(&mut self, export: &UtxoStorageExport) -> (r: UtxoStorage<'_, T>)
        ensures
            *r.utxo == *old(self),
            *final(r.utxo) == *final(self),
            r.instance@ == export@.instance,
            r.place == export.origin(),
    {
        UtxoStorage { instance: export.instance().clone(), place: export.place(), utxo: self }
    }

    /// Runs the guest's destructor on the resource and gives the host data back.
    pub fn drop(self) -> (r: Result<T, RunError>)
        requires
            self.at_rest(),
        ensures
            exists|outcome: Result<(), wasmtime::Error>, after: Running<T>| #[trigger]
                drops(self.handle(), self.running(), outcome, after) && match outcome {
                    Ok(_) => r matches Ok(data) && yields(after, data),
                    Err(e) => r == Err::<T, RunError>(RunError::Engine(Step::DropResource, e)),
                },
    {
        let run = match self.run {
            Some(run) => run,
            None => {
                assert(false);
                vstd::pervasive::unreached()
            },
        };
        proof {
            use_type_invariant(&run);
        }
        let (outcome, after) = resource_drop(self.resource, run);
        proof {
            lemma_drops(self.resource, run, outcome, after);
            assert(drops(self.handle(), self.running(), outcome, after));
        }
        match outcome {
            Ok(_) => {
                let data = into_data(after);
                proof {
                    lemma_yields(after, data);
                }
                Ok(data)
            },
            Err(e) => Err(RunError::Engine(Step::DropResource, e)),
        }
    }
}

/// The storage of a UTXO.
#[verifier::reject_recursive_types(T)]
pub struct UtxoStorage<'a, T: 'static> {
    pub utxo: &'a mut Utxo<T>,
    pub instance: String,
    pub place: Option<ComponentExportIndex>,
}

impl<'a, T: 'static> UtxoStorage<'a, T> {
    /// The function that reads the storage.
    pub open spec fn reader(&self) -> Option<Func> {
        self.utxo.func(self.place, self.instance@, "get-storage"@)
    }

    /// Reads the storage record.
    pub fn get(&mut self) -> (r: Result<Vec<(String, WasmVal)>, RunError>)
        requires
            old(self).utxo.at_rest(),
        ensures
            final(self).utxo.at_rest(),
            final(self).utxo.handle() == old(self).utxo.handle(),
            final(self).utxo.running().instance() == old(self).utxo.running().instance(),
            exists|args: Seq<WasmVal>, called: Result<Vec<WasmVal>, RunError>|
                one_resource(args, old(self).utxo.handle()) && #[trigger] calls(
                    old(self).utxo.running(),
                    old(self).place,
                    old(self).instance@,
                    "get-storage"@,
                    args,
                    1,
                    Step::CallFunction,
                    called,
                    final(self).utxo.running(),
                ) && match called {
                    Ok(results) => match r {
                        Ok(fields) => one_record(results@, record_view(fields@)),
                        Err(e) => e == RunError::Refused(Cause::InvalidReturn) && forall|
                            fields: Seq<(Seq<char>, WasmVal)>,
                        |
                            !one_record(results@, fields),
                    },
                    Err(e) => r == Err::<Vec<(String, WasmVal)>, RunError>(e),
                },
            match r {
                Err(RunError::Refused(Cause::FunctionNotFound)) => old(self).reader() is None
                    && *final(self).utxo == *old(self).utxo,
                Err(RunError::Refused(Cause::AsyncFunction)) => (old(self).reader() matches Some(f)
                    && is_async_func(f)) && *final(self).utxo == *old(self).utxo,
                Err(RunError::Import(..)) => false,
                Err(RunError::Componentize(..)) => false,
                _ => {
                    let calls = final(self).utxo.calls();
                    &&& old(self).reader() == Some(calls.last().func)
                    &&& calls.len() == old(self).utxo.calls().len() + 1
                    &&& calls.drop_last() == old(self).utxo.calls()
                    &&& one_resource(calls.last().args, old(self).utxo.handle())
                    &&& match r {
                        Ok(fields) => calls.last().results is Some && one_record(
                            calls.last().results->Some_0,
                            record_view(fields@),
                        ),
                        Err(RunError::Refused(c)) => c == Cause::InvalidReturn
                            && calls.last().results is Some && forall|
                            fields: Seq<(Seq<char>, WasmVal)>,
                        |
                            !one_record(calls.last().results->Some_0, fields),
                        Err(RunError::Engine(step, _)) => step == Step::CallFunction
                            && calls.last().results is None,
                        Err(_) => false,
                    }
                },
            },
    {
        let mut params: Vec<WasmVal> = Vec::new();
        params.push(make_resource(self.utxo.resource()));
        let ghost before = self.utxo.calls();
        let called = call_export(
            &mut self.utxo.run,
            self.place,
            self.instance.as_str(),
            "get-storage",
            params.as_slice(),
            1,
            Step::CallFunction,
        );
        proof {
            assert(calls(
                old(self).utxo.running(),
                old(self).place,
                old(self).instance@,
                "get-storage"@,
                params@,
                1,
                Step::CallFunction,
                called,
                self.utxo.running(),
            ));
            if !(called matches Err(RunError::Refused(_))) {
                lemma_returned_grows(before, self.utxo.calls().last(), self.utxo.resource);
                assert(self.utxo.calls() =~= before.push(self.utxo.calls().last()));
                assert(self.utxo.calls().drop_last() =~= before);
            }
        }
        let results = match called {
            Ok(results) => results,
            Err(e) => {
                return Err(e);
            },
        };
        match sole_record(results) {
            Ok(fields) => Ok(fields),
            Err(c) => Err(RunError::Refused(c)),
        }
    }
}

/// Loading a UTXO and reading its storage restores the record, where the guest's
/// `get-storage` gives back the value that its `set-storage` was given.
pub proof fn loading_restores_the_record(
    set: CallV,
    fields: Seq<(Seq<char>, WasmVal)>,
    get: CallV,
    read: Seq<(Seq<char>, WasmVal)>,
)
    requires
        one_record(set.args, fields),
        get.results is Some,
        get.results->Some_0 == set.args,
        one_record(get.results->Some_0, read),
    ensures
        read == fields,
{
}

/// A method is called with its receiver in front of its arguments, which follow in order.
pub proof fn receivers_stand_in_front(
    resource: ResourceAny,
    params: Vec<WasmVal>,
    r: Vec<WasmVal>,
    i: int,
)
    requires
        call_ensures(with_receiver, (resource, params), r),
    ensures
        r@.len() == params@.len() + 1,
        resource_in(r@[0]) == Some(resource),
        0 <= i < params@.len() ==> r@[i + 1] == params@[i],
{
    assert(r@.skip(1) == params@);
    if 0 <= i < params@.len() {
        assert(r@.skip(1)[i] == r@[i + 1]);
    }
}

/// What a constructor returned is taken as a UTXO where it is one resource, and what a
/// `get-storage` returned as a record where it is one; anything else is refused.
pub proof fn results_are_one_value(
    results: &Vec<WasmVal>,
    resource: Result<ResourceAny, Cause>,
    record: Result<Vec<(String, WasmVal)>, Cause>,
    same: Vec<WasmVal>,
)
    requires
        call_ensures(sole_resource, (results,), resource),
        same@ == results@,
        call_ensures(sole_record, (same,), record),
    ensures
        resource is Ok <==> results@.len() == 1 && resource_in(results@[0]) is Some,
        resource matches Ok(x) ==> resource_in(results@[0]) == Some(x),
        resource matches Err(c) ==> c == Cause::InvalidReturn,
        record is Ok <==> results@.len() == 1 && record_in(results@[0]) is Some,
        record matches Ok(fields) ==> (record_in(results@[0]) matches Some(all) && all.len()
            == fields@.len() && forall|i: int|
            0 <= i < all.len() ==> #[trigger] all[i] == (fields@[i].0@, fields@[i].1)),
        record matches Err(c) ==> c == Cause::InvalidReturn,
{
    if results@.len() == 1 {
        if let Some(x) = resource_in(results@[0]) {
            assert(one_resource(results@, x));
        }
        if let Some(all) = record_in(results@[0]) {
            assert(one_record(results@, all));
        }
    }
}

/// Where minting fails it is told where: the instance did not come up, has no such function,
/// or an async one; or the call failed, or returned something other than one resource.
pub proof fn minting_tells_where_it_failed<T: 'static>(
    pre: InstancePre<T>,
    ctx: T,
    place: Option<ComponentExportIndex>,
    instance: Seq<char>,
    name: Seq<char>,
    args: Seq<WasmVal>,
    e: RunError,
)
    requires
        constructs(pre, ctx, place, instance, name, args, Err::<Utxo<T>, RunError>(e)),
    ensures
        exists|started: Result<Running<T>, wasmtime::Error>| #[trigger]
            starts(pre, ctx, started) && match started {
                Err(x) => e == RunError::Engine(Step::Instantiate, x),
                Ok(run) => match located(run.instance(), instance, name) {
                    None => e == RunError::Refused(Cause::ConstructorNotFound),
                    Some(f) => {
                        ||| e == RunError::Refused(Cause::ConstructorNotFound) && place is Some
                            && place != place_in(run.instance(), instance)
                        ||| e == RunError::Refused(Cause::AsyncFunction) && is_async_func(f)
                        ||| !is_async_func(f) && exists|
                            outcome: Result<Vec<WasmVal>, wasmtime::Error>,
                            after: Running<T>,
                        | #[trigger] answers(run, f, args, 1, outcome, after) && match outcome {
                            Err(x) => e == RunError::Engine(Step::CallConstructor, x),
                            Ok(results) => e == RunError::Refused(Cause::InvalidReturn) && !(
                            results@.len() == 1 && resource_in(results@[0]) is Some),
                        }
                    },
                },
            },
{
    let started = choose|started: Result<Running<T>, wasmtime::Error>| #[trigger]
        starts(pre, ctx, started) && match started {
            Err(x) => Err::<Utxo<T>, RunError>(e) == Err::<Utxo<T>, RunError>(
                RunError::Engine(Step::Instantiate, x),
            ),
            Ok(run) => match func_at(run.instance(), place, instance, name) {
                Some(f) => mints(run, f, args, Err::<Utxo<T>, RunError>(e)),
                None => Err::<Utxo<T>, RunError>(e) == Err::<Utxo<T>, RunError>(
                    RunError::Refused(Cause::ConstructorNotFound),
                ),
            },
        };
    if let Ok(run) = started {
        if let Some(f) = func_at(run.instance(), place, instance, name) {
            if !is_async_func(f) {
                let (outcome, after) = choose|
                    outcome: Result<Vec<WasmVal>, wasmtime::Error>,
                    after: Running<T>,
                | #[trigger] answers(run, f, args, 1, outcome, after) && match outcome {
                    Err(x) => e == RunError::Engine(Step::CallConstructor, x),
                    Ok(results) => e == RunError::Refused(Cause::InvalidReturn) && forall|
                        resource: ResourceAny,
                    |
                        !one_resource(results@, resource),
                };
                if let Ok(results) = outcome {
                    if results@.len() == 1 {
                        if let Some(x) = resource_in(results@[0]) {
                            assert(one_resource(results@, x));
                        }
                    }
                }
            }
        }
    }
}

} // verus!
