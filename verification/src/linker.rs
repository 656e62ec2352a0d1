//! Linkers, with a record of what was defined in them.
//!
//! The engine's linkers cannot be looked into. An [`ImportLinker`] keeps a record of its
//! instances and of the functions in each, and an [`AbiLinker`] writes to that record as
//! it defines functions in the instance that it stands for. Nothing outside this module
//! can write to the record.

use vstd::prelude::*;
use wasmtime::component::types::Component as TypesHandle;
use wasmtime::component::{Component, InstancePre, Linker, LinkerInstance, Val as WasmVal};
use wasmtime::{Engine, StoreContextMut};

use crate::builtin;
use crate::cardano;
use crate::contract::{alike, compiled_type, satisfied};
use crate::link::EventHandler;
use crate::reflect::{component_of, describable, Source};
use crate::types::ItemV;

verus! {

/// `wasmtime::component::Val`: a value as the engine passes it.
#[verifier::external_type_specification]
#[verifier::external_body]
pub struct ExWasmVal(WasmVal);

/// `wasmtime::component::Linker`: where imports are provided.
#[verifier::external_type_specification]
#[verifier::external_body]
#[verifier::reject_recursive_types(T)]
pub struct ExLinker<T: 'static>(wasmtime::component::Linker<T>);

/// `wasmtime::component::LinkerInstance`: one instance within a linker.
#[verifier::external_type_specification]
#[verifier::external_body]
#[verifier::reject_recursive_types(T)]
pub struct ExLinkerInstance<'a, T: 'static>(wasmtime::component::LinkerInstance<'a, T>);

/// What a call of a function in a linker does.
pub enum Shim {
    /// Calls [`builtin::Host::implements_method`] on the store's data.
    ImplementsMethod,
    /// Calls [`cardano::Host::block_height`] on the store's data.
    BlockHeight,
    /// Calls [`cardano::Host::current_slot`] on the store's data.
    CurrentSlot,
    /// Hands an event of an interface to the store's [`EventHandler`].
    Event { interface: Seq<char>, event: Seq<char> },
}

/// An instance in a linker: its name, and its functions in the order in which they were
/// defined.
#[verifier::ext_equal]
pub struct InstanceV {
    pub name: Seq<char>,
    pub functions: Seq<(Seq<char>, Shim)>,
}

/// The record of what was defined in a linker: its instances, in order.
pub struct Contents {
    instances: Ghost<Seq<InstanceV>>,
    owner: Ghost<int>,
}

impl View for Contents {
    type V = Seq<InstanceV>;

    closed spec fn view(&self) -> Seq<InstanceV> {
        self.instances@
    }
}

impl Contents {
    /// The linker that the record is of.
    pub closed spec fn owner(&self) -> int {
        self.owner@
    }
}

/// Whether one of `instances` has that name.
pub open spec fn has_instance(instances: Seq<InstanceV>, name: Seq<char>) -> bool {
    exists|i: int| 0 <= i < instances.len() && (#[trigger] instances[i]).name == name
}

/// Whether one of `functions` has that name.
pub open spec fn has_function(functions: Seq<(Seq<char>, Shim)>, name: Seq<char>) -> bool {
    exists|i: int| 0 <= i < functions.len() && (#[trigger] functions[i]).0 == name
}

/// The instances, of which the last has one more function.
pub open spec fn with_function(instances: Seq<InstanceV>, name: Seq<char>, shim: Shim) -> Seq<
    InstanceV,
> {
    instances.drop_last().push(
        InstanceV {
            name: instances.last().name,
            functions: instances.last().functions.push((name, shim)),
        },
    )
}

/// A linker, with a record of what was defined in it.
#[verifier::reject_recursive_types(T)]
pub struct ImportLinker<T: 'static> {
    inner: Linker<T>,
    contents: Contents,
}

/// An instance of a linker, while functions are defined in it.
#[verifier::reject_recursive_types(T)]
pub struct OpenInstance<'a, T: 'static> {
    inner: LinkerInstance<'a, T>,
    owner: Ghost<int>,
}

/// The last instance of a linker, while functions are defined in it. What is defined goes
/// into the linker's record, which is lent to it.
#[verifier::reject_recursive_types(T)]
pub struct AbiLinker<'a, T: 'static> {
    pub instance: OpenInstance<'a, T>,
    pub contents: &'a mut Contents,
}

impl<T: 'static> ImportLinker<T> {
    /// What was defined in the linker.
    pub closed spec fn contents(&self) -> Seq<InstanceV> {
        self.contents@
    }
}

impl<'a, T: 'static> OpenInstance<'a, T> {
    /// The linker that the instance is in.
    pub closed spec fn owner(&self) -> int {
        self.owner@
    }
}

impl<'a, T: 'static> AbiLinker<'a, T> {
    /// Whether the record that is lent is that of the instance's own linker.
    pub open spec fn keeps_record(&self) -> bool {
        (*self.contents).owner() == self.instance.owner() && (*self.contents)@.len() > 0
    }

    /// The functions that were defined in the instance.
    pub open spec fn functions(&self) -> Seq<(Seq<char>, Shim)> {
        (*self.contents)@.last().functions
    }
}

/// `wasmtime::component::Linker::new`: a linker in which nothing is defined.
#[verifier::external_body]
pub(crate) fn new_linker<T: 'static>(engine: &Engine) -> (r: ImportLinker<T>)
    ensures
        r.contents() == Seq::<InstanceV>::empty(),
{
    ImportLinker {
        inner: Linker::new(engine),
        contents: Contents { instances: Ghost(Seq::empty()), owner: Ghost(0) },
    }
}

/// `wasmtime::component::Linker::instance`: a new instance of that name within the
/// linker, in which nothing is defined. The linker refuses a name that it has; it
/// refuses no other while there is memory. What is then defined in the instance stands
/// in the linker.
#[verifier::external_body]
pub(crate) fn linker_instance<'a, T: 'static>(linker: &'a mut ImportLinker<T>, name: &str) -> (r:
    Result<AbiLinker<'a, T>, wasmtime::Error>)
    ensures
        r is Ok <==> !has_instance(old(linker).contents(), name@),
        r matches Ok(i) ==> {
            &&& i.keeps_record()
            &&& (*i.contents)@ == old(linker).contents().push(
                (InstanceV { name: name@, functions: Seq::empty() }),
            )
            &&& (*final(i.contents)).owner() == (*i.contents).owner() ==> final(linker).contents()
                == (*final(i.contents))@
        },
        r is Err ==> final(linker).contents() == old(linker).contents(),
{
    let inner = linker.inner.instance(name)?;
    let instance = OpenInstance { inner, owner: Ghost(0) };
    Ok(AbiLinker { instance, contents: &mut linker.contents })
}

/// `LinkerInstance::func_new`: defines a function that hands its arguments to the
/// store's event handler, with the names of the interface and of the event. The
/// linker refuses a name that the instance has; it refuses no other while there is
/// memory.
#[verifier::external_body]
pub(crate) fn define_event<T: EventHandler + 'static>(
    linker: &mut AbiLinker<T>,
    instance: &str,
    name: &str,
) -> (r: Result<(), wasmtime::Error>)
    requires
        old(linker).keeps_record(),
    ensures
        r is Ok <==> !has_function(old(linker).functions(), name@),
        final(linker).keeps_record(),
        (*final(linker).contents).owner() == (*old(linker).contents).owner(),
        *final(final(linker).contents) == *final(old(linker).contents),
        (*final(linker).contents)@ == if r is Ok {
            with_function(
                (*old(linker).contents)@,
                name@,
                Shim::Event { interface: instance@, event: name@ },
            )
        } else {
            (*old(linker).contents)@
        },
{
    let interface = instance.to_string();
    let event = name.to_string();
    linker.instance.inner.func_new(
        name,
        move |mut store, _ty, params, _results| {
            store.data_mut().emit_event(&interface, &event, params);
            Ok(())
        },
    )
}

/// `LinkerInstance::func_wrap`: defines a function that calls
/// [`builtin::Host::implements_method`] on the store's data. The linker refuses a name
/// that the instance has; it refuses no other while there is memory.
#[verifier::external_body]
pub(crate) fn define_implements_method<T: builtin::Host + 'static>(
    linker: &mut AbiLinker<T>,
    name: &str,
) -> (r: Result<(), wasmtime::Error>)
    requires
        old(linker).keeps_record(),
    ensures
        r is Ok <==> !has_function(old(linker).functions(), name@),
        final(linker).keeps_record(),
        (*final(linker).contents).owner() == (*old(linker).contents).owner(),
        *final(final(linker).contents) == *final(old(linker).contents),
        (*final(linker).contents)@ == if r is Ok {
            with_function((*old(linker).contents)@, name@, Shim::ImplementsMethod)
        } else {
            (*old(linker).contents)@
        },
{
    linker.instance.inner.func_wrap(
        name,
        |mut store: StoreContextMut<T>, (hash,): ((u64, u64, u64, u64),)| {
            store.data_mut().implements_method(hash)
        },
    )
}

/// `LinkerInstance::func_wrap`: defines a function that calls
/// [`cardano::Host::block_height`] on the store's data. The linker refuses a name
/// that the instance has; it refuses no other while there is memory.
#[verifier::external_body]
pub(crate) fn define_block_height<T: cardano::Host + 'static>(
    linker: &mut AbiLinker<T>,
    name: &str,
) -> (r: Result<(), wasmtime::Error>)
    requires
        old(linker).keeps_record(),
    ensures
        r is Ok <==> !has_function(old(linker).functions(), name@),
        final(linker).keeps_record(),
        (*final(linker).contents).owner() == (*old(linker).contents).owner(),
        *final(final(linker).contents) == *final(old(linker).contents),
        (*final(linker).contents)@ == if r is Ok {
            with_function((*old(linker).contents)@, name@, Shim::BlockHeight)
        } else {
            (*old(linker).contents)@
        },
{
    linker.instance.inner.func_wrap(
        name,
        |mut store: StoreContextMut<T>, (): ()| Ok((store.data_mut().block_height(),)),
    )
}

/// `LinkerInstance::func_wrap`: defines a function that calls
/// [`cardano::Host::current_slot`] on the store's data. The linker refuses a name
/// that the instance has; it refuses no other while there is memory.
#[verifier::external_body]
pub(crate) fn define_current_slot<T: cardano::Host + 'static>(
    linker: &mut AbiLinker<T>,
    name: &str,
) -> (r: Result<(), wasmtime::Error>)
    requires
        old(linker).keeps_record(),
    ensures
        r is Ok <==> !has_function(old(linker).functions(), name@),
        final(linker).keeps_record(),
        (*final(linker).contents).owner() == (*old(linker).contents).owner(),
        *final(final(linker).contents) == *final(old(linker).contents),
        (*final(linker).contents)@ == if r is Ok {
            with_function((*old(linker).contents)@, name@, Shim::CurrentSlot)
        } else {
            (*old(linker).contents)@
        },
{
    linker.instance.inner.func_wrap(
        name,
        |mut store: StoreContextMut<T>, (): ()| Ok((store.data_mut().current_slot(),)),
    )
}

/// `wasmtime::component::Linker::substituted_component_type`: the type with imported
/// resources replaced by those of the linker. Names, kinds and order stay; what the
/// resources become is left to the linker.
#[verifier::external_body]
pub(crate) fn substituted_type<T: 'static>(linker: &ImportLinker<T>, c: &Component) -> (r: Result<
    TypesHandle,
    wasmtime::Error,
>)
    requires
        describable(Source::Compiled(*c)),
    ensures
        r matches Ok(t) ==> {
            &&& describable(Source::Component(t))
            &&& alike(
                ItemV::Instance(compiled_type(*c).imports),
                ItemV::Instance(component_of(t).imports),
            )
            &&& alike(
                ItemV::Instance(compiled_type(*c).exports),
                ItemV::Instance(component_of(t).exports),
            )
        },
{
    linker.inner.substituted_component_type(c)
}

/// `wasmtime::component::Linker::instantiate_pre`: resolves a component's imports, each
/// of which must have a definition in the linker. A name with a version may be resolved
/// by a definition of another version. Whether the definitions fit the imports is left
/// to the engine.
#[verifier::external_body]
pub(crate) fn instantiate_pre<T: 'static>(linker: &ImportLinker<T>, c: &Component) -> (r: Result<
    InstancePre<T>,
    wasmtime::Error,
>)
    requires
        describable(Source::Compiled(*c)),
    ensures
        r is Ok ==> satisfied(compiled_type(*c).imports, linker.contents()),
{
    linker.inner.instantiate_pre(c)
}

} // verus!
