//! Types as the engine describes them, read into the plain types of this library.
//!
//! The engine hands out handles whose parts are asked for one level at a time.
//! [`type_of`], [`func_of`], [`item_of`], [`instance_of`] and [`component_of`] name
//! the tree that stands behind a handle; each wrapper says how one question relates
//! the tree to its parts, and the functions below read the whole tree.

use vstd::prelude::*;
use wasmtime::component::types::{Component, ComponentFunc, ComponentInstance, ComponentItem};
use wasmtime::component::{ResourceType, Type as WasmType};
use wasmtime::Engine;

use crate::text::same_text;
use crate::types::{
    distinct_names, first_named, item_view, items_view, lemma_lookup, lookup, texts, type_view,
    ComponentType, ComponentTypeV, FuncType, FuncTypeV, Item, ItemV, Type, TypeV,
};

verus! {

/// `wasmtime::Engine`: what compiles and runs components.
#[verifier::external_type_specification]
#[verifier::external_body]
pub struct ExEngine(wasmtime::Engine);

/// `wasmtime::Config`: what an engine is told.
#[verifier::external_type_specification]
#[verifier::external_body]
pub struct ExConfig(wasmtime::Config);

/// `wasmtime::component::Type`: an interface type.
#[verifier::external_type_specification]
#[verifier::external_body]
pub struct ExWasmType(WasmType);

/// `wasmtime::component::types::ComponentFunc`: the type of a function.
#[verifier::external_type_specification]
#[verifier::external_body]
pub struct ExComponentFunc(wasmtime::component::types::ComponentFunc);

/// `wasmtime::component::types::ComponentInstance`: the type of an instance.
#[verifier::external_type_specification]
#[verifier::external_body]
pub struct ExComponentInstance(wasmtime::component::types::ComponentInstance);

/// `wasmtime::component::types::ComponentItem`: what an import or export is.
#[verifier::external_type_specification]
#[verifier::external_body]
pub struct ExComponentItem(wasmtime::component::types::ComponentItem);

/// `wasmtime::component::types::Component`: the type of a component.
#[verifier::external_type_specification]
#[verifier::external_body]
pub struct ExComponentTypes(wasmtime::component::types::Component);

/// The interface type behind a handle.
pub uninterp spec fn type_of(t: wasmtime::component::Type) -> TypeV;

/// The function type behind a handle.
pub uninterp spec fn func_of(f: wasmtime::component::types::ComponentFunc) -> FuncTypeV;

/// The import or export behind a handle.
pub uninterp spec fn item_of(i: wasmtime::component::types::ComponentItem) -> ItemV;

/// The exports of the instance behind a handle.
pub uninterp spec fn instance_of(i: wasmtime::component::types::ComponentInstance) -> Seq<
    (Seq<char>, ItemV),
>;

/// The component type behind a handle.
pub uninterp spec fn component_of(c: wasmtime::component::types::Component) -> ComponentTypeV;

/// Something of the engine's that types can be reached from.
pub enum Source {
    Config(wasmtime::Config),
    Engine(wasmtime::Engine),
    Compiled(wasmtime::component::Component),
    Component(wasmtime::component::types::Component),
    Instance(wasmtime::component::types::ComponentInstance),
    Item(wasmtime::component::types::ComponentItem),
    Func(wasmtime::component::types::ComponentFunc),
    Type(wasmtime::component::Type),
}

/// Whether the engine can describe every type that is reached from `source`, or from
/// what is compiled with it. It has no description of a list of fixed length, and
/// compiles components with one only where its configuration says so.
pub uninterp spec fn describable(source: Source) -> bool;

/// The types behind a sequence of handles.
pub open spec fn types_of(v: Seq<WasmType>) -> Seq<TypeV> {
    Seq::new(v.len(), |i: int| type_of(v[i]))
}

/// Whether the engine can describe each of the types.
pub open spec fn types_describable(v: Seq<WasmType>) -> bool {
    forall|i: int| 0 <= i < v.len() ==> describable(Source::Type(#[trigger] v[i]))
}

/// Whether the engine can describe each of the named types.
pub open spec fn fields_describable(v: Seq<(String, WasmType)>) -> bool {
    forall|i: int| 0 <= i < v.len() ==> describable(Source::Type((#[trigger] v[i]).1))
}

/// Whether the engine can describe a payload.
pub open spec fn payload_describable(p: Option<WasmType>) -> bool {
    p matches Some(t) ==> describable(Source::Type(t))
}

/// Whether the engine can describe each of the cases.
pub open spec fn cases_describable(v: Seq<(String, Option<WasmType>)>) -> bool {
    forall|i: int| 0 <= i < v.len() ==> payload_describable((#[trigger] v[i]).1)
}

/// Whether the engine can describe each of the named items.
pub open spec fn items_describable(v: Seq<(String, ComponentItem)>) -> bool {
    forall|i: int| 0 <= i < v.len() ==> describable(Source::Item((#[trigger] v[i]).1))
}

/// The named types behind a sequence of names and handles.
pub open spec fn named_types_of(v: Seq<(String, WasmType)>) -> Seq<
    (Seq<char>, TypeV),
> {
    Seq::new(v.len(), |i: int| (v[i].0@, type_of(v[i].1)))
}

/// The named items behind a sequence of names and handles.
pub open spec fn named_items_of(v: Seq<(String, ComponentItem)>) -> Seq<(Seq<char>, ItemV)> {
    Seq::new(v.len(), |i: int| (v[i].0@, item_of(v[i].1)))
}

pub open spec fn payload_of(p: Option<WasmType>) -> Option<TypeV> {
    match p {
        Some(t) => Some(type_of(t)),
        None => None,
    }
}

pub open spec fn boxed(p: Option<TypeV>) -> Option<Box<TypeV>> {
    match p {
        Some(t) => Some(Box::new(t)),
        None => None,
    }
}

/// The cases behind a sequence of names and handles.
pub open spec fn cases_of(v: Seq<(String, Option<WasmType>)>) -> Seq<
    (Seq<char>, Option<TypeV>),
> {
    Seq::new(v.len(), |i: int| (v[i].0@, payload_of(v[i].1)))
}

/// Whether a type has no parts.
pub open spec fn has_no_parts(t: TypeV) -> bool {
    match t {
        TypeV::List(_) => false,
        TypeV::Mapping(..) => false,
        TypeV::Record(_) => false,
        TypeV::Tuple(_) => false,
        TypeV::Variant(_) => false,
        TypeV::Enum(_) => false,
        TypeV::Option(_) => false,
        TypeV::Result(..) => false,
        TypeV::Flags(_) => false,
        TypeV::Own(_) => false,
        TypeV::Borrow(_) => false,
        TypeV::Future(_) => false,
        TypeV::Stream(_) => false,
        _ => true,
    }
}

/// The variants of `wasmtime::component::Type` that have no payload.
#[verifier::external_body]
fn as_plain(t: &WasmType) -> (r: Option<Type>)
    ensures
        r matches Some(p) ==> p@ == type_of(*t) && has_no_parts(p@),
        r is None ==> !has_no_parts(type_of(*t)),
{
    match t {
        WasmType::Bool => Some(Type::Bool), WasmType::S8 => Some(Type::S8),
        WasmType::U8 => Some(Type::U8), WasmType::S16 => Some(Type::S16),
        WasmType::U16 => Some(Type::U16), WasmType::S32 => Some(Type::S32),
        WasmType::U32 => Some(Type::U32), WasmType::S64 => Some(Type::S64),
        WasmType::U64 => Some(Type::U64), WasmType::Float32 => Some(Type::Float32),
        WasmType::Float64 => Some(Type::Float64), WasmType::Char => Some(Type::Char),
        WasmType::String => Some(Type::String),
        WasmType::ErrorContext => Some(Type::ErrorContext),
        _ => None,
    }
}

/// `wasmtime::component::types::List::ty`: the element type of a list.
#[verifier::external_body]
fn as_list(t: &WasmType) -> (r: Option<WasmType>)
    requires
        describable(Source::Type(*t)),
    ensures
        r matches Some(p) ==> type_of(*t) == TypeV::List(Box::new(type_of(p))),
        r is None ==> !(type_of(*t) is List),
        r matches Some(p) ==> describable(Source::Type(p)),
{
    match t {
        WasmType::List(x) => Some(x.ty()),
        _ => None,
    }
}

/// `wasmtime::component::types::Map::key` and `value`: the two types of a map.
#[verifier::external_body]
fn as_map(t: &WasmType) -> (r: Option<(WasmType, WasmType)>)
    requires
        describable(Source::Type(*t)),
    ensures
        r matches Some(p) ==> type_of(*t) == TypeV::Mapping(
            Box::new(type_of(p.0)),
            Box::new(type_of(p.1)),
        ),
        r is None ==> !(type_of(*t) is Mapping),
        r matches Some(p) ==> describable(Source::Type(p.0)) && describable(Source::Type(p.1)),
{
    match t {
        WasmType::Map(x) => Some((x.key(), x.value())),
        _ => None,
    }
}

/// `wasmtime::component::types::Record::fields`: the fields of a record, in order.
#[verifier::external_body]
fn as_record(t: &WasmType) -> (r: Option<Vec<(String, WasmType)>>)
    requires
        describable(Source::Type(*t)),
    ensures
        r matches Some(p) ==> type_of(*t) == TypeV::Record(named_types_of(p@)),
        r is None ==> !(type_of(*t) is Record),
        r matches Some(p) ==> fields_describable(p@),
{
    match t {
        WasmType::Record(x) => Some(x.fields().map(|f| (f.name.to_string(), f.ty)).collect()),
        _ => None,
    }
}

/// `wasmtime::component::types::Tuple::types`: the elements of a tuple, in order.
#[verifier::external_body]
fn as_tuple(t: &WasmType) -> (r: Option<Vec<WasmType>>)
    requires
        describable(Source::Type(*t)),
    ensures
        r matches Some(p) ==> type_of(*t) == TypeV::Tuple(types_of(p@)),
        r is None ==> !(type_of(*t) is Tuple),
        r matches Some(p) ==> types_describable(p@),
{
    match t {
        WasmType::Tuple(x) => Some(x.types().collect()),
        _ => None,
    }
}

/// `wasmtime::component::types::Variant::cases`: the cases of a variant, in order.
#[verifier::external_body]
fn as_variant(t: &WasmType) -> (r: Option<Vec<(String, Option<WasmType>)>>)
    requires
        describable(Source::Type(*t)),
    ensures
        r matches Some(p) ==> type_of(*t) == TypeV::Variant(cases_of(p@)),
        r is None ==> !(type_of(*t) is Variant),
        r matches Some(p) ==> cases_describable(p@),
{
    match t {
        WasmType::Variant(x) => Some(x.cases().map(|c| (c.name.to_string(), c.ty)).collect()),
        _ => None,
    }
}

/// `wasmtime::component::types::Enum::names`: the names of an enum, in order.
#[verifier::external_body]
fn as_enum(t: &WasmType) -> (r: Option<Vec<String>>)
    ensures
        r matches Some(p) ==> type_of(*t) == TypeV::Enum(texts(p@)),
        r is None ==> !(type_of(*t) is Enum),
{
    match t {
        WasmType::Enum(x) => Some(x.names().map(|n| n.to_string()).collect()),
        _ => None,
    }
}

/// `wasmtime::component::types::OptionType::ty`: the payload type of an option.
#[verifier::external_body]
fn as_option(t: &WasmType) -> (r: Option<WasmType>)
    requires
        describable(Source::Type(*t)),
    ensures
        r matches Some(p) ==> type_of(*t) == TypeV::Option(Box::new(type_of(p))),
        r is None ==> !(type_of(*t) is Option),
        r matches Some(p) ==> describable(Source::Type(p)),
{
    match t {
        WasmType::Option(x) => Some(x.ty()),
        _ => None,
    }
}

/// `wasmtime::component::types::ResultType::ok` and `err`: the payload types of a
/// result.
#[verifier::external_body]
fn as_result(t: &WasmType) -> (r: Option<(Option<WasmType>, Option<WasmType>)>)
    requires
        describable(Source::Type(*t)),
    ensures
        r matches Some(p) ==> type_of(*t) == TypeV::Result(
            boxed(payload_of(p.0)),
            boxed(payload_of(p.1)),
        ),
        r is None ==> !(type_of(*t) is Result),
        r matches Some(p) ==> payload_describable(p.0) && payload_describable(p.1),
{
    match t {
        WasmType::Result(x) => Some((x.ok(), x.err())),
        _ => None,
    }
}

/// `wasmtime::component::types::Flags::names`: the names of flags, in order.
#[verifier::external_body]
fn as_flags(t: &WasmType) -> (r: Option<Vec<String>>)
    ensures
        r matches Some(p) ==> type_of(*t) == TypeV::Flags(texts(p@)),
        r is None ==> !(type_of(*t) is Flags),
{
    match t {
        WasmType::Flags(x) => Some(x.names().map(|n| n.to_string()).collect()),
        _ => None,
    }
}

/// The resource type of a `wasmtime::component::Type::Own`.
#[verifier::external_body]
pub(crate) fn as_own(t: &WasmType) -> (r: Option<ResourceType>)
    ensures
        r matches Some(p) ==> type_of(*t) == TypeV::Own(p),
        r is None ==> !(type_of(*t) is Own),
{
    match t {
        WasmType::Own(x) => Some(*x),
        _ => None,
    }
}

/// The resource type of a `wasmtime::component::Type::Borrow`.
#[verifier::external_body]
pub(crate) fn as_borrow(t: &WasmType) -> (r: Option<ResourceType>)
    ensures
        r matches Some(p) ==> type_of(*t) == TypeV::Borrow(p),
        r is None ==> !(type_of(*t) is Borrow),
{
    match t {
        WasmType::Borrow(x) => Some(*x),
        _ => None,
    }
}

/// `wasmtime::component::types::FutureType::ty`: the payload type of a future.
#[verifier::external_body]
fn as_future(t: &WasmType) -> (r: Option<Option<WasmType>>)
    requires
        describable(Source::Type(*t)),
    ensures
        r matches Some(p) ==> type_of(*t) == TypeV::Future(boxed(payload_of(p))),
        r is None ==> !(type_of(*t) is Future),
        r matches Some(p) ==> payload_describable(p),
{
    match t {
        WasmType::Future(x) => Some(x.ty()),
        _ => None,
    }
}

/// `wasmtime::component::types::StreamType::ty`: the payload type of a stream.
#[verifier::external_body]
fn as_stream(t: &WasmType) -> (r: Option<Option<WasmType>>)
    requires
        describable(Source::Type(*t)),
    ensures
        r matches Some(p) ==> type_of(*t) == TypeV::Stream(boxed(payload_of(p))),
        r is None ==> !(type_of(*t) is Stream),
        r matches Some(p) ==> payload_describable(p),
{
    match t {
        WasmType::Stream(x) => Some(x.ty()),
        _ => None,
    }
}

/// `wasmtime::component::types::ComponentFunc::async_`: whether the function is async.
#[verifier::external_body]
fn func_is_async(f: &ComponentFunc) -> (r: bool)
    ensures
        r == func_of(*f).is_async,
{
    f.async_()
}

/// `wasmtime::component::types::ComponentFunc::params`: the parameters, in order.
#[verifier::external_body]
pub(crate) fn func_params(f: &ComponentFunc) -> (r: Vec<(String, WasmType)>)
    requires
        describable(Source::Func(*f)),
    ensures
        named_types_of(r@) == func_of(*f).params,
        fields_describable(r@),
{
    f.params().map(|(name, ty)| (name.to_string(), ty)).collect()
}

/// `wasmtime::component::types::ComponentFunc::results`: the results, in order.
#[verifier::external_body]
pub(crate) fn func_results(f: &ComponentFunc) -> (r: Vec<WasmType>)
    requires
        describable(Source::Func(*f)),
    ensures
        types_of(r@) == func_of(*f).results,
        types_describable(r@),
{
    f.results().collect()
}

/// The payload of a `ComponentItem`, as far as it is looked into.
enum Parts {
    Func(ComponentFunc),
    CoreFunc,
    Module,
    Component,
    Instance(ComponentInstance),
    Type(WasmType),
    Resource(ResourceType),
}

/// The variants of `wasmtime::component::types::ComponentItem`.
#[verifier::external_body]
fn item_parts(i: &ComponentItem) -> (r: Parts)
    requires
        describable(Source::Item(*i)),
    ensures
        item_of(*i) == match r {
            Parts::Func(f) => ItemV::Func(func_of(f)),
            Parts::CoreFunc => ItemV::CoreFunc,
            Parts::Module => ItemV::Module,
            Parts::Component => ItemV::Component,
            Parts::Instance(i) => ItemV::Instance(instance_of(i)),
            Parts::Type(t) => ItemV::Type(type_of(t)),
            Parts::Resource(r) => ItemV::Resource(r),
        },
        match r {
            Parts::Func(f) => describable(Source::Func(f)),
            Parts::Instance(i) => describable(Source::Instance(i)),
            Parts::Type(t) => describable(Source::Type(t)),
            _ => true,
        },
{
    match i {
        ComponentItem::ComponentFunc(f) => Parts::Func(f.clone()),
        ComponentItem::CoreFunc(_) => Parts::CoreFunc,
        ComponentItem::Module(_) => Parts::Module,
        ComponentItem::Component(_) => Parts::Component,
        ComponentItem::ComponentInstance(i) => Parts::Instance(i.clone()),
        ComponentItem::Type(t) => Parts::Type(t.clone()),
        ComponentItem::Resource(r) => Parts::Resource(*r),
    }
}

/// `wasmtime::component::types::ComponentInstance::exports`: the exports, in order,
/// out of a map that is keyed by their names. The engine only serves to make handles.
#[verifier::external_body]
fn instance_exports(engine: &Engine, i: &ComponentInstance) -> (r: Vec<(String, ComponentItem)>)
    requires
        describable(Source::Instance(*i)),
    ensures
        named_items_of(r@) == instance_of(*i),
        distinct_names(named_items_of(r@)),
        items_describable(r@),
{
    i.exports(engine).map(|(name, x)| (name.to_string(), x.ty)).collect()
}

/// `wasmtime::component::types::Component::imports`: the imports, in order, out of a
/// map that is keyed by their names. The engine only serves to make handles.
#[verifier::external_body]
fn component_imports(engine: &Engine, c: &Component) -> (r: Vec<(String, ComponentItem)>)
    requires
        describable(Source::Component(*c)),
    ensures
        named_items_of(r@) == component_of(*c).imports,
        distinct_names(named_items_of(r@)),
        items_describable(r@),
{
    c.imports(engine).map(|(name, x)| (name.to_string(), x.ty)).collect()
}

/// `wasmtime::component::types::Component::exports`: the exports, in order, out of a
/// map that is keyed by their names. The engine only serves to make handles.
#[verifier::external_body]
fn component_exports(engine: &Engine, c: &Component) -> (r: Vec<(String, ComponentItem)>)
    requires
        describable(Source::Component(*c)),
    ensures
        named_items_of(r@) == component_of(*c).exports,
        distinct_names(named_items_of(r@)),
        items_describable(r@),
{
    c.exports(engine).map(|(name, x)| (name.to_string(), x.ty)).collect()
}

fn read_fields(v: Vec<(String, WasmType)>, parent: Ghost<TypeV>) -> (r: Vec<(String, Type)>)
    requires
        fields_describable(v@),
        forall|i: int|
            0 <= i < v@.len() ==> decreases_to!(parent@ => type_of((#[trigger] v@[i]).1)),
    ensures
        type_view(Type::Record(r)) == TypeV::Record(named_types_of(v@)),
    decreases parent@, 0nat,
{
    let mut r: Vec<(String, Type)> = Vec::new();
    let mut i: usize = 0;
    while i < v.len()
        invariant
            fields_describable(v@),
            0 <= i <= v@.len(),
            r@.len() == i,
            forall|i: int|
                0 <= i < v@.len() ==> decreases_to!(parent@ => type_of((#[trigger] v@[i]).1)),
            forall|j: int|
                0 <= j < i ==> (#[trigger] r@[j]).0@ == v@[j].0@ && r@[j].1@ == type_of(v@[j].1),
        decreases v@.len() - i,
    {
        let ty: Type = read_type(&v[i].1);
        r.push((v[i].0.clone(), ty));
        i += 1;
    }
    assert(type_view(Type::Record(r))->Record_0 =~= named_types_of(v@));
    r
}

fn read_types(v: Vec<WasmType>, parent: Ghost<TypeV>) -> (r: Vec<Type>)
    requires
        types_describable(v@),
        forall|i: int| 0 <= i < v@.len() ==> decreases_to!(parent@ => type_of(#[trigger] v@[i])),
    ensures
        type_view(Type::Tuple(r)) == TypeV::Tuple(types_of(v@)),
    decreases parent@, 0nat,
{
    let mut r: Vec<Type> = Vec::new();
    let mut i: usize = 0;
    while i < v.len()
        invariant
            types_describable(v@),
            0 <= i <= v@.len(),
            r@.len() == i,
            forall|i: int|
                0 <= i < v@.len() ==> decreases_to!(parent@ => type_of(#[trigger] v@[i])),
            forall|j: int| 0 <= j < i ==> (#[trigger] r@[j])@ == type_of(v@[j]),
        decreases v@.len() - i,
    {
        r.push(read_type(&v[i]));
        i += 1;
    }
    assert(type_view(Type::Tuple(r))->Tuple_0 =~= types_of(v@));
    r
}

fn read_cases(v: Vec<(String, Option<WasmType>)>, parent: Ghost<TypeV>) -> (r: Vec<
    (String, Option<Type>),
>)
    requires
        cases_describable(v@),
        forall|i: int|
            0 <= i < v@.len() && (#[trigger] v@[i]).1 is Some ==> decreases_to!(
                parent@ => type_of(v@[i].1->0)
            ),
    ensures
        type_view(Type::Variant(r)) == TypeV::Variant(cases_of(v@)),
    decreases parent@, 0nat,
{
    let mut r: Vec<(String, Option<Type>)> = Vec::new();
    let mut i: usize = 0;
    while i < v.len()
        invariant
            cases_describable(v@),
            0 <= i <= v@.len(),
            r@.len() == i,
            forall|i: int|
                0 <= i < v@.len() && (#[trigger] v@[i]).1 is Some ==> decreases_to!(
                    parent@ => type_of(v@[i].1->0)
                ),
            forall|j: int|
                0 <= j < i ==> (#[trigger] r@[j]).0@ == v@[j].0@ && match (r@[j].1, v@[j].1) {
                    (Some(a), Some(b)) => a@ == type_of(b),
                    (None, None) => true,
                    _ => false,
                },
        decreases v@.len() - i,
    {
        let payload: Option<Type> = match &v[i].1 {
            Some(t) => Some(read_type(t)),
            None => None,
        };
        r.push((v[i].0.clone(), payload));
        i += 1;
    }
    assert(type_view(Type::Variant(r))->Variant_0 =~= cases_of(v@));
    r
}

fn read_payload(p: Option<WasmType>, parent: Ghost<TypeV>) -> (r: Option<Box<Type>>)
    requires
        payload_describable(p),
        p matches Some(t) ==> decreases_to!(parent@ => type_of(t)),
    ensures
        match (r, p) {
            (Some(a), Some(b)) => a@ == type_of(b),
            (None, None) => true,
            _ => false,
        },
    decreases parent@, 0nat,
{
    match p {
        Some(t) => Some(Box::new(read_type(&t))),
        None => None,
    }
}

/// The whole of an interface type.
pub fn read_type(t: &WasmType) -> (r: Type)
    requires
        describable(Source::Type(*t)),
    ensures
        r@ == type_of(*t),
    decreases type_of(*t), 1nat,
{
    let ghost v = type_of(*t);
    if let Some(p) = as_plain(t) {
        return p;
    }
    if let Some(e) = as_list(t) {
        assert(decreases_to!(v => v->List_0));
        return Type::List(Box::new(read_type(&e)));
    }
    if let Some((k, e)) = as_map(t) {
        assert(decreases_to!(v => v->Mapping_0));
        assert(decreases_to!(v => v->Mapping_1));
        return Type::Mapping(Box::new(read_type(&k)), Box::new(read_type(&e)));
    }
    if let Some(fields) = as_record(t) {
        proof {
            assert forall|i: int| 0 <= i < fields@.len() implies decreases_to!(
                v => type_of((#[trigger] fields@[i]).1)
            ) by {
                let fs = v->Record_0;
                assert(fs[i].1 == type_of(fields@[i].1));
                assert(decreases_to!(v => fs));
                assert(decreases_to!(fs => fs[i]));
                assert(decreases_to!(fs[i] => fs[i].1));
            }
        }
        return Type::Record(read_fields(fields, Ghost(v)));
    }
    if let Some(types) = as_tuple(t) {
        proof {
            assert forall|i: int| 0 <= i < types@.len() implies decreases_to!(
                v => type_of(#[trigger] types@[i])
            ) by {
                let ts = v->Tuple_0;
                assert(ts[i] == type_of(types@[i]));
                assert(decreases_to!(v => ts));
                assert(decreases_to!(ts => ts[i]));
            }
        }
        return Type::Tuple(read_types(types, Ghost(v)));
    }
    if let Some(cases) = as_variant(t) {
        proof {
            assert forall|i: int|
                0 <= i < cases@.len() && (#[trigger] cases@[i]).1 is Some implies decreases_to!(
                v => type_of(cases@[i].1->0)
            ) by {
                let cs = v->Variant_0;
                assert(cs[i].1 == Some(type_of(cases@[i].1->0)));
                assert(decreases_to!(v => cs));
                assert(decreases_to!(cs => cs[i]));
                assert(decreases_to!(cs[i] => cs[i].1));
                assert(decreases_to!(cs[i].1 => cs[i].1->0));
            }
        }
        return Type::Variant(read_cases(cases, Ghost(v)));
    }
    if let Some(names) = as_enum(t) {
        return Type::Enum(names);
    }
    if let Some(e) = as_option(t) {
        assert(decreases_to!(v => v->Option_0));
        return Type::Option(Box::new(read_type(&e)));
    }
    if let Some((ok, err)) = as_result(t) {
        proof {
            if ok is Some {
                assert(decreases_to!(v => v->Result_0));
                assert(decreases_to!(v->Result_0 => v->Result_0->0));
            }
            if err is Some {
                assert(decreases_to!(v => v->Result_1));
                assert(decreases_to!(v->Result_1 => v->Result_1->0));
            }
        }
        return Type::Result(read_payload(ok, Ghost(v)), read_payload(err, Ghost(v)));
    }
    if let Some(names) = as_flags(t) {
        return Type::Flags(names);
    }
    if let Some(r) = as_own(t) {
        return Type::Own(r);
    }
    if let Some(r) = as_borrow(t) {
        return Type::Borrow(r);
    }
    if let Some(p) = as_future(t) {
        proof {
            if p is Some {
                assert(decreases_to!(v => v->Future_0));
                assert(decreases_to!(v->Future_0 => v->Future_0->0));
            }
        }
        return Type::Future(read_payload(p, Ghost(v)));
    }
    if let Some(p) = as_stream(t) {
        proof {
            if p is Some {
                assert(decreases_to!(v => v->Stream_0));
                assert(decreases_to!(v->Stream_0 => v->Stream_0->0));
            }
        }
        return Type::Stream(read_payload(p, Ghost(v)));
    }
    Type::ErrorContext
}

/// The whole of a function type.
pub fn read_func(f: &ComponentFunc) -> (r: FuncType)
    requires
        describable(Source::Func(*f)),
    ensures
        r@ == func_of(*f),
{
    let params = func_params(f);
    let results = func_results(f);
    let ghost tuple = TypeV::Tuple(func_of(*f).results);
    let ghost record = TypeV::Record(func_of(*f).params);
    proof {
        assert forall|i: int| 0 <= i < params@.len() implies decreases_to!(
            record => type_of((#[trigger] params@[i]).1)
        ) by {
            let fs = record->Record_0;
            assert(fs[i].1 == type_of(params@[i].1));
            assert(decreases_to!(record => fs));
            assert(decreases_to!(fs => fs[i]));
            assert(decreases_to!(fs[i] => fs[i].1));
        }
        assert forall|i: int| 0 <= i < results@.len() implies decreases_to!(
            tuple => type_of(#[trigger] results@[i])
        ) by {
            let ts = tuple->Tuple_0;
            assert(ts[i] == type_of(results@[i]));
            assert(decreases_to!(tuple => ts));
            assert(decreases_to!(ts => ts[i]));
        }
    }
    let r = FuncType {
        params: read_fields(params, Ghost(record)),
        results: read_types(results, Ghost(tuple)),
        is_async: func_is_async(f),
    };
    assert(r@.params =~= type_view(Type::Record(r.params))->Record_0);
    assert(r@.results =~= type_view(Type::Tuple(r.results))->Tuple_0);
    r
}

fn read_items(engine: &Engine, v: Vec<(String, ComponentItem)>, parent: Ghost<ItemV>) -> (r: Vec<
    (String, Item),
>)
    requires
        items_describable(v@),
        forall|i: int|
            0 <= i < v@.len() ==> decreases_to!(parent@ => item_of((#[trigger] v@[i]).1)),
    ensures
        items_view(r@) == named_items_of(v@),
        forall|i: int| 0 <= i < v@.len() ==> names_apart((#[trigger] items_view(r@)[i]).1),
    decreases parent@, 0nat,
{
    let mut r: Vec<(String, Item)> = Vec::new();
    let mut i: usize = 0;
    while i < v.len()
        invariant
            items_describable(v@),
            0 <= i <= v@.len(),
            r@.len() == i,
            forall|i: int|
                0 <= i < v@.len() ==> decreases_to!(parent@ => item_of((#[trigger] v@[i]).1)),
            forall|j: int|
                0 <= j < i ==> (#[trigger] r@[j]).0@ == v@[j].0@ && r@[j].1@ == item_of(v@[j].1)
                    && names_apart(r@[j].1@),
        decreases v@.len() - i,
    {
        let item: Item = read_item(engine, &v[i].1);
        r.push((v[i].0.clone(), item));
        i += 1;
    }
    assert(items_view(r@) =~= named_items_of(v@));
    r
}

proof fn lemma_items_decrease(v: Seq<(String, ComponentItem)>, parent: ItemV)
    requires
        parent == ItemV::Instance(named_items_of(v)),
    ensures
        forall|i: int| 0 <= i < v.len() ==> decreases_to!(parent => item_of((#[trigger] v[i]).1)),
{
    assert forall|i: int| 0 <= i < v.len() implies decreases_to!(
        parent => item_of((#[trigger] v[i]).1)
    ) by {
        let items = parent->Instance_0;
        assert(items[i].1 == item_of(v[i].1));
        assert(decreases_to!(parent => items));
        assert(decreases_to!(items => items[i]));
        assert(decreases_to!(items[i] => items[i].1));
    }
}

/// Whether an instance, and each instance inside it, has no two exports of one name.
pub open spec fn names_apart(item: ItemV) -> bool
    decreases item,
{
    match item {
        ItemV::Instance(items) => distinct_names(items) && forall|i: int|
            0 <= i < items.len() ==> names_apart((#[trigger] items[i]).1),
        _ => true,
    }
}

/// The whole of an import or export.
pub fn read_item(engine: &Engine, i: &ComponentItem) -> (r: Item)
    requires
        describable(Source::Item(*i)),
    ensures
        r@ == item_of(*i),
        names_apart(r@),
    decreases item_of(*i), 1nat,
{
    match item_parts(i) {
        Parts::Func(f) => Item::Func(read_func(&f)),
        Parts::CoreFunc => Item::CoreFunc,
        Parts::Module => Item::Module,
        Parts::Component => Item::Component,
        Parts::Instance(inner) => {
            let exports = instance_exports(engine, &inner);
            proof {
                lemma_items_decrease(exports@, item_of(*i));
            }
            let items = read_items(engine, exports, Ghost(item_of(*i)));
            assert(item_view(Item::Instance(items))->Instance_0 =~= items_view(items@));
            Item::Instance(items)
        },
        Parts::Type(t) => Item::Type(read_type(&t)),
        Parts::Resource(r) => Item::Resource(r),
    }
}

/// The whole of a component's type.
pub fn read_component(engine: &Engine, c: &Component) -> (r: ComponentType)
    requires
        describable(Source::Component(*c)),
    ensures
        r@ == component_of(*c),
        names_apart(ItemV::Instance(r@.imports)),
        names_apart(ItemV::Instance(r@.exports)),
{
    let imports = component_imports(engine, c);
    let exports = component_exports(engine, c);
    let ghost above_imports = ItemV::Instance(named_items_of(imports@));
    let ghost above_exports = ItemV::Instance(named_items_of(exports@));
    proof {
        lemma_items_decrease(imports@, above_imports);
        lemma_items_decrease(exports@, above_exports);
    }
    ComponentType {
        imports: read_items(engine, imports, Ghost(above_imports)),
        exports: read_items(engine, exports, Ghost(above_exports)),
    }
}

/// The item of that name.
fn find_handle<'a>(v: &'a Vec<(String, ComponentItem)>, name: &str) -> (r: Option<
    &'a ComponentItem,
>)
    requires
        items_describable(v@),
    ensures
        match r {
            Some(i) => lookup(named_items_of(v@), name@) == Some(item_of(*i)) && describable(
                Source::Item(*i),
            ),
            None => lookup(named_items_of(v@), name@) is None,
        },
{
    let ghost all = named_items_of(v@);
    let mut i: usize = 0;
    while i < v.len()
        invariant
            items_describable(v@),
            0 <= i <= v@.len(),
            all == named_items_of(v@),
            forall|j: int| 0 <= j < i ==> (#[trigger] all[j]).0 != name@,
        decreases v@.len() - i,
    {
        if same_text(v[i].0.as_str(), name) {
            proof {
                lemma_lookup(all, name@, i as int);
            }
            return Some(&v[i].1);
        }
        i += 1;
    }
    assert(!exists|i: int| first_named(all, name@, i));
    None
}

/// The exported instance of that name.
pub fn find_instance(engine: &Engine, c: &Component, name: &str) -> (r: Option<ComponentInstance>)
    requires
        describable(Source::Component(*c)),
    ensures
        match r {
            Some(i) => describable(Source::Instance(i)) && lookup(component_of(*c).exports, name@)
                == Some(ItemV::Instance(instance_of(i))),
            None => !(lookup(component_of(*c).exports, name@) matches Some(ItemV::Instance(_))),
        },
{
    let exports = component_exports(engine, c);
    match find_handle(&exports, name) {
        Some(item) => match item_parts(item) {
            Parts::Instance(i) => Some(i),
            _ => None,
        },
        None => None,
    }
}

/// The function of that name in an instance.
pub fn find_func(engine: &Engine, i: &ComponentInstance, name: &str) -> (r: Option<ComponentFunc>)
    requires
        describable(Source::Instance(*i)),
    ensures
        match r {
            Some(f) => describable(Source::Func(f)) && lookup(instance_of(*i), name@) == Some(
                ItemV::Func(func_of(f)),
            ),
            None => !(lookup(instance_of(*i), name@) matches Some(ItemV::Func(_))),
        },
        distinct_names(instance_of(*i)),
{
    let exports = instance_exports(engine, i);
    match find_handle(&exports, name) {
        Some(item) => match item_parts(item) {
            Parts::Func(f) => Some(f),
            _ => None,
        },
        None => None,
    }
}

/// The fields of the record type of that name in an instance.
pub fn find_record(engine: &Engine, i: &ComponentInstance, name: &str) -> (r: Option<
    Vec<(String, WasmType)>,
>)
    requires
        describable(Source::Instance(*i)),
    ensures
        match r {
            Some(fields) => fields_describable(fields@) && lookup(instance_of(*i), name@) == Some(
                ItemV::Type(TypeV::Record(named_types_of(fields@))),
            ),
            None => !(lookup(instance_of(*i), name@) matches Some(ItemV::Type(TypeV::Record(_)))),
        },
{
    let exports = instance_exports(engine, i);
    match find_handle(&exports, name) {
        Some(item) => match item_parts(item) {
            Parts::Type(t) => as_record(&t),
            _ => None,
        },
        None => None,
    }
}

/// What stands behind handles is seen in the order of the handles, under their names.
pub proof fn handles_are_seen_in_order(
    types: Seq<WasmType>,
    fields: Seq<(String, WasmType)>,
    items: Seq<(String, ComponentItem)>,
    i: int,
)
    ensures
        types_of(types).len() == types.len(),
        0 <= i < types.len() ==> types_of(types)[i] == type_of(types[i]),
        named_types_of(fields).len() == fields.len(),
        0 <= i < fields.len() ==> named_types_of(fields)[i] == (fields[i].0@, type_of(fields[i].1)),
        named_items_of(items).len() == items.len(),
        0 <= i < items.len() ==> named_items_of(items)[i] == (items[i].0@, item_of(items[i].1)),
{
}

} // verus!
