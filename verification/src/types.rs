//! Component types as plain data: what a component imports and exports, and the
//! interface types of the values that cross its boundary.
//!
//! A [`Type`] is a tree. Its view, [`TypeV`], is the same tree over mathematical
//! sequences, so two types are the same type exactly if their views are equal.

use vstd::prelude::*;
use wasmtime::component::ResourceType;

use crate::text::same_text;

verus! {

/// `wasmtime::component::ResourceType`: what tells resource types apart.
#[verifier::external_type_specification]
#[verifier::external_body]
pub struct ExResourceType(wasmtime::component::ResourceType);

/// An interface type.
#[derive(Debug, PartialEq, Eq)]
pub enum Type {
    Bool,
    S8,
    U8,
    S16,
    U16,
    S32,
    U32,
    S64,
    U64,
    Float32,
    Float64,
    Char,
    String,
    List(Box<Type>),
    Mapping(Box<Type>, Box<Type>),
    Record(Vec<(String, Type)>),
    Tuple(Vec<Type>),
    Variant(Vec<(String, Option<Type>)>),
    Enum(Vec<String>),
    Option(Box<Type>),
    Result(Option<Box<Type>>, Option<Box<Type>>),
    Flags(Vec<String>),
    Own(ResourceType),
    Borrow(ResourceType),
    Future(Option<Box<Type>>),
    Stream(Option<Box<Type>>),
    ErrorContext,
}

/// The view of a [`Type`].
pub enum TypeV {
    Bool,
    S8,
    U8,
    S16,
    U16,
    S32,
    U32,
    S64,
    U64,
    Float32,
    Float64,
    Char,
    String,
    List(Box<TypeV>),
    Mapping(Box<TypeV>, Box<TypeV>),
    Record(Seq<(Seq<char>, TypeV)>),
    Tuple(Seq<TypeV>),
    Variant(Seq<(Seq<char>, Option<TypeV>)>),
    Enum(Seq<Seq<char>>),
    Option(Box<TypeV>),
    Result(Option<Box<TypeV>>, Option<Box<TypeV>>),
    Flags(Seq<Seq<char>>),
    Own(ResourceType),
    Borrow(ResourceType),
    Future(Option<Box<TypeV>>),
    Stream(Option<Box<TypeV>>),
    ErrorContext,
}

/// The texts of a sequence of strings.
pub open spec fn texts(v: Seq<String>) -> Seq<Seq<char>> {
    Seq::new(v.len(), |i: int| v[i]@)
}

pub open spec fn type_view(t: Type) -> TypeV
    decreases t,
{
    match t {
        Type::Bool => TypeV::Bool,
        Type::S8 => TypeV::S8,
        Type::U8 => TypeV::U8,
        Type::S16 => TypeV::S16,
        Type::U16 => TypeV::U16,
        Type::S32 => TypeV::S32,
        Type::U32 => TypeV::U32,
        Type::S64 => TypeV::S64,
        Type::U64 => TypeV::U64,
        Type::Float32 => TypeV::Float32,
        Type::Float64 => TypeV::Float64,
        Type::Char => TypeV::Char,
        Type::String => TypeV::String,
        Type::List(e) => TypeV::List(Box::new(type_view(*e))),
        Type::Mapping(k, v) => TypeV::Mapping(Box::new(type_view(*k)), Box::new(type_view(*v))),
        Type::Record(fields) => TypeV::Record(
            Seq::new(
                fields@.len(),
                |i: int|
                    if 0 <= i < fields@.len() {
                        (fields@[i].0@, type_view(fields@[i].1))
                    } else {
                        arbitrary()
                    },
            ),
        ),
        Type::Tuple(types) => TypeV::Tuple(
            Seq::new(
                types@.len(),
                |i: int|
                    if 0 <= i < types@.len() {
                        type_view(types@[i])
                    } else {
                        arbitrary()
                    },
            ),
        ),
        Type::Variant(cases) => TypeV::Variant(
            Seq::new(
                cases@.len(),
                |i: int|
                    if 0 <= i < cases@.len() {
                        (
                            cases@[i].0@,
                            match cases@[i].1 {
                                Some(payload) => Some(type_view(payload)),
                                None => None,
                            },
                        )
                    } else {
                        arbitrary()
                    },
            ),
        ),
        Type::Enum(names) => TypeV::Enum(texts(names@)),
        Type::Option(e) => TypeV::Option(Box::new(type_view(*e))),
        Type::Result(ok, err) => TypeV::Result(
            match ok {
                Some(e) => Some(Box::new(type_view(*e))),
                None => None,
            },
            match err {
                Some(e) => Some(Box::new(type_view(*e))),
                None => None,
            },
        ),
        Type::Flags(names) => TypeV::Flags(texts(names@)),
        Type::Own(id) => TypeV::Own(id),
        Type::Borrow(id) => TypeV::Borrow(id),
        Type::Future(payload) => TypeV::Future(
            match payload {
                Some(e) => Some(Box::new(type_view(*e))),
                None => None,
            },
        ),
        Type::Stream(payload) => TypeV::Stream(
            match payload {
                Some(e) => Some(Box::new(type_view(*e))),
                None => None,
            },
        ),
        Type::ErrorContext => TypeV::ErrorContext,
    }
}

impl View for Type {
    type V = TypeV;

    open spec fn view(&self) -> TypeV {
        type_view(*self)
    }
}

/// A field's type is smaller than the record's list of fields.
pub(crate) proof fn lemma_field_decreases(fields: Vec<(String, Type)>, i: int)
    requires
        0 <= i < fields@.len(),
    ensures
        decreases_to!(fields => fields@[i].1),
{
    assert(decreases_to!(fields => fields@));
    assert(decreases_to!(fields@ => fields@[i]));
    assert(decreases_to!(fields@[i] => fields@[i].1));
}

/// A tuple element's type is smaller than the list of them.
pub(crate) proof fn lemma_element_decreases(types: Vec<Type>, i: int)
    requires
        0 <= i < types@.len(),
    ensures
        decreases_to!(types => types@[i]),
{
    assert(decreases_to!(types => types@));
    assert(decreases_to!(types@ => types@[i]));
}

/// A case's payload type is smaller than the variant's list of cases.
pub(crate) proof fn lemma_case_decreases(cases: Vec<(String, Option<Type>)>, i: int)
    requires
        0 <= i < cases@.len(),
        cases@[i].1 is Some,
    ensures
        decreases_to!(cases => cases@[i].1->0),
{
    assert(decreases_to!(cases => cases@));
    assert(decreases_to!(cases@ => cases@[i]));
    assert(decreases_to!(cases@[i] => cases@[i].1));
    assert(decreases_to!(cases@[i].1 => cases@[i].1->0));
}

/// The type of a function.
#[derive(Debug, PartialEq, Eq)]
pub struct FuncType {
    pub params: Vec<(String, Type)>,
    pub results: Vec<Type>,
    pub is_async: bool,
}

/// The view of a [`FuncType`].
pub struct FuncTypeV {
    pub params: Seq<(Seq<char>, TypeV)>,
    pub results: Seq<TypeV>,
    pub is_async: bool,
}

impl View for FuncType {
    type V = FuncTypeV;

    open spec fn view(&self) -> FuncTypeV {
        FuncTypeV {
            params: Seq::new(self.params@.len(), |i: int| (self.params@[i].0@, self.params@[i].1@)),
            results: Seq::new(self.results@.len(), |i: int| self.results@[i]@),
            is_async: self.is_async,
        }
    }
}

/// What a name stands for where it is imported or exported.
#[derive(Debug)]
pub enum Item {
    Func(FuncType),
    CoreFunc,
    Module,
    Component,
    Instance(Vec<(String, Item)>),
    Type(Type),
    Resource(ResourceType),
}

/// The view of an [`Item`].
pub enum ItemV {
    Func(FuncTypeV),
    CoreFunc,
    Module,
    Component,
    Instance(Seq<(Seq<char>, ItemV)>),
    Type(TypeV),
    Resource(ResourceType),
}

pub open spec fn item_view(t: Item) -> ItemV
    decreases t,
{
    match t {
        Item::Func(f) => ItemV::Func(f@),
        Item::CoreFunc => ItemV::CoreFunc,
        Item::Module => ItemV::Module,
        Item::Component => ItemV::Component,
        Item::Instance(items) => ItemV::Instance(
            Seq::new(
                items@.len(),
                |i: int|
                    if 0 <= i < items@.len() {
                        (items@[i].0@, item_view(items@[i].1))
                    } else {
                        arbitrary()
                    },
            ),
        ),
        Item::Type(t) => ItemV::Type(t@),
        Item::Resource(r) => ItemV::Resource(r),
    }
}

impl View for Item {
    type V = ItemV;

    open spec fn view(&self) -> ItemV {
        item_view(*self)
    }
}

/// The views of a sequence of named items.
pub open spec fn items_view(items: Seq<(String, Item)>) -> Seq<(Seq<char>, ItemV)> {
    Seq::new(items.len(), |i: int| (items[i].0@, items[i].1@))
}

/// The type of a component: what it imports and what it exports.
#[derive(Debug)]
pub struct ComponentType {
    pub imports: Vec<(String, Item)>,
    pub exports: Vec<(String, Item)>,
}

/// The view of a [`ComponentType`].
pub struct ComponentTypeV {
    pub imports: Seq<(Seq<char>, ItemV)>,
    pub exports: Seq<(Seq<char>, ItemV)>,
}

impl View for ComponentType {
    type V = ComponentTypeV;

    open spec fn view(&self) -> ComponentTypeV {
        ComponentTypeV { imports: items_view(self.imports@), exports: items_view(self.exports@) }
    }
}

/// The place at which `name` first stands among `items`.
pub open spec fn first_named(items: Seq<(Seq<char>, ItemV)>, name: Seq<char>, i: int) -> bool {
    &&& 0 <= i < items.len()
    &&& items[i].0 == name
    &&& forall|j: int| 0 <= j < i ==> (#[trigger] items[j]).0 != name
}

/// What `name` stands for among `items`.
pub open spec fn lookup(items: Seq<(Seq<char>, ItemV)>, name: Seq<char>) -> Option<ItemV> {
    if exists|i: int| first_named(items, name, i) {
        Some(items[choose|i: int| first_named(items, name, i)].1)
    } else {
        None
    }
}

/// Whether no name stands for two items. The exports of a component, and those of
/// an instance, are so.
pub open spec fn distinct_names(items: Seq<(Seq<char>, ItemV)>) -> bool {
    forall|i: int, j: int|
        0 <= i < j < items.len() ==> (#[trigger] items[i]).0 != (#[trigger] items[j]).0
}

pub(crate) proof fn lemma_lookup(items: Seq<(Seq<char>, ItemV)>, name: Seq<char>, i: int)
    requires
        first_named(items, name, i),
    ensures
        lookup(items, name) == Some(items[i].1),
{
    let k = choose|k: int| first_named(items, name, k);
    assert(first_named(items, name, k));
    assert(k == i);
}

/// What `name` stands for among `items`.
pub fn find_item<'a>(items: &'a Vec<(String, Item)>, name: &str) -> (r: Option<&'a Item>)
    ensures
        match r {
            Some(item) => lookup(items_view(items@), name@) == Some(item@),
            None => lookup(items_view(items@), name@) is None,
        },
{
    let ghost all = items_view(items@);
    let mut i: usize = 0;
    while i < items.len()
        invariant
            0 <= i <= items@.len(),
            all == items_view(items@),
            forall|j: int| 0 <= j < i ==> (#[trigger] all[j]).0 != name@,
        decreases items@.len() - i,
    {
        if same_text(items[i].0.as_str(), name) {
            proof {
                lemma_lookup(all, name@, i as int);
            }
            return Some(&items[i].1);
        }
        i += 1;
    }
    assert(!exists|i: int| first_named(all, name@, i));
    None
}

/// `ResourceType::eq`: whether two resource types are the same.
#[verifier::external_body]
pub(crate) fn same_resource(a: &ResourceType, b: &ResourceType) -> (r: bool)
    ensures
        r == (*a == *b),
{
    a == b
}

fn same_names(a: &Vec<String>, b: &Vec<String>) -> (r: bool)
    ensures
        r == (texts(a@) == texts(b@)),
{
    if a.len() != b.len() {
        assert(texts(a@).len() != texts(b@).len());
        return false;
    }
    let mut i: usize = 0;
    while i < a.len()
        invariant
            0 <= i <= a@.len() == b@.len(),
            forall|j: int| 0 <= j < i ==> texts(a@)[j] == texts(b@)[j],
        decreases a@.len() - i,
    {
        if !same_text(a[i].as_str(), b[i].as_str()) {
            assert(texts(a@)[i as int] != texts(b@)[i as int]);
            return false;
        }
        i += 1;
    }
    assert(texts(a@) =~= texts(b@));
    true
}

fn same_fields(a: &Vec<(String, Type)>, b: &Vec<(String, Type)>) -> (r: bool)
    ensures
        r == (type_view(Type::Record(*a)) == type_view(Type::Record(*b))),
    decreases a, 1nat,
{
    let ghost va = type_view(Type::Record(*a))->Record_0;
    let ghost vb = type_view(Type::Record(*b))->Record_0;
    if a.len() != b.len() {
        assert(va.len() != vb.len());
        return false;
    }
    let mut i: usize = 0;
    while i < a.len()
        invariant
            0 <= i <= a@.len() == b@.len(),
            va == type_view(Type::Record(*a))->Record_0,
            vb == type_view(Type::Record(*b))->Record_0,
            forall|j: int| 0 <= j < i ==> va[j] == vb[j],
        decreases a@.len() - i,
    {
        proof {
            lemma_field_decreases(*a, i as int);
        }
        if !same_text(a[i].0.as_str(), b[i].0.as_str()) || !same_type(&a[i].1, &b[i].1) {
            assert(va[i as int] != vb[i as int]);
            return false;
        }
        i += 1;
    }
    assert(va =~= vb);
    true
}

fn same_elements(a: &Vec<Type>, b: &Vec<Type>) -> (r: bool)
    ensures
        r == (type_view(Type::Tuple(*a)) == type_view(Type::Tuple(*b))),
    decreases a, 1nat,
{
    let ghost va = type_view(Type::Tuple(*a))->Tuple_0;
    let ghost vb = type_view(Type::Tuple(*b))->Tuple_0;
    if a.len() != b.len() {
        assert(va.len() != vb.len());
        return false;
    }
    let mut i: usize = 0;
    while i < a.len()
        invariant
            0 <= i <= a@.len() == b@.len(),
            va == type_view(Type::Tuple(*a))->Tuple_0,
            vb == type_view(Type::Tuple(*b))->Tuple_0,
            forall|j: int| 0 <= j < i ==> va[j] == vb[j],
        decreases a@.len() - i,
    {
        proof {
            lemma_element_decreases(*a, i as int);
        }
        if !same_type(&a[i], &b[i]) {
            assert(va[i as int] != vb[i as int]);
            return false;
        }
        i += 1;
    }
    assert(va =~= vb);
    true
}

fn same_cases(a: &Vec<(String, Option<Type>)>, b: &Vec<(String, Option<Type>)>) -> (r: bool)
    ensures
        r == (type_view(Type::Variant(*a)) == type_view(Type::Variant(*b))),
    decreases a, 1nat,
{
    let ghost va = type_view(Type::Variant(*a))->Variant_0;
    let ghost vb = type_view(Type::Variant(*b))->Variant_0;
    if a.len() != b.len() {
        assert(va.len() != vb.len());
        return false;
    }
    let mut i: usize = 0;
    while i < a.len()
        invariant
            0 <= i <= a@.len() == b@.len(),
            va == type_view(Type::Variant(*a))->Variant_0,
            vb == type_view(Type::Variant(*b))->Variant_0,
            forall|j: int| 0 <= j < i ==> va[j] == vb[j],
        decreases a@.len() - i,
    {
        let same: bool = match (&a[i].1, &b[i].1) {
            (Some(x), Some(y)) => {
                proof {
                    lemma_case_decreases(*a, i as int);
                }
                same_type(x, y)
            },
            (None, None) => true,
            _ => false,
        };
        if !same || !same_text(a[i].0.as_str(), b[i].0.as_str()) {
            assert(va[i as int] != vb[i as int]);
            return false;
        }
        i += 1;
    }
    assert(va =~= vb);
    true
}

fn same_payload(a: &Option<Box<Type>>, b: &Option<Box<Type>>) -> (r: bool)
    ensures
        r == match (*a, *b) {
            (Some(x), Some(y)) => x@ == y@,
            (None, None) => true,
            _ => false,
        },
    decreases a, 1nat,
{
    match (a, b) {
        (Some(x), Some(y)) => same_type(&**x, &**y),
        (None, None) => true,
        _ => false,
    }
}

/// Whether two types are the same type.
pub fn same_type(a: &Type, b: &Type) -> (r: bool)
    ensures
        r == (a@ == b@),
    decreases a, 0nat,
{
    match (a, b) {
        (Type::Bool, Type::Bool) => true,
        (Type::S8, Type::S8) => true,
        (Type::U8, Type::U8) => true,
        (Type::S16, Type::S16) => true,
        (Type::U16, Type::U16) => true,
        (Type::S32, Type::S32) => true,
        (Type::U32, Type::U32) => true,
        (Type::S64, Type::S64) => true,
        (Type::U64, Type::U64) => true,
        (Type::Float32, Type::Float32) => true,
        (Type::Float64, Type::Float64) => true,
        (Type::Char, Type::Char) => true,
        (Type::String, Type::String) => true,
        (Type::List(x), Type::List(y)) => same_type(&**x, &**y),
        (Type::Mapping(k, v), Type::Mapping(l, w)) => same_type(&**k, &**l) && same_type(
            &**v,
            &**w,
        ),
        (Type::Record(x), Type::Record(y)) => same_fields(x, y),
        (Type::Tuple(x), Type::Tuple(y)) => same_elements(x, y),
        (Type::Variant(x), Type::Variant(y)) => same_cases(x, y),
        (Type::Enum(x), Type::Enum(y)) => same_names(x, y),
        (Type::Option(x), Type::Option(y)) => same_type(&**x, &**y),
        (Type::Result(o, e), Type::Result(p, f)) => same_payload(o, p) && same_payload(e, f),
        (Type::Flags(x), Type::Flags(y)) => same_names(x, y),
        (Type::Own(x), Type::Own(y)) => same_resource(x, y),
        (Type::Borrow(x), Type::Borrow(y)) => same_resource(x, y),
        (Type::Future(x), Type::Future(y)) => same_payload(x, y),
        (Type::Stream(x), Type::Stream(y)) => same_payload(x, y),
        (Type::ErrorContext, Type::ErrorContext) => true,
        _ => false,
    }
}

fn clone_names(names: &Vec<String>) -> (r: Vec<String>)
    ensures
        texts(r@) == texts(names@),
{
    let mut r: Vec<String> = Vec::new();
    let mut i: usize = 0;
    while i < names.len()
        invariant
            0 <= i <= names@.len(),
            r@.len() == i,
            forall|j: int| 0 <= j < i ==> r@[j]@ == names@[j]@,
        decreases names@.len() - i,
    {
        r.push(names[i].clone());
        i += 1;
    }
    assert(texts(r@) =~= texts(names@));
    r
}

pub(crate) fn clone_fields(fields: &Vec<(String, Type)>) -> (r: Vec<(String, Type)>)
    ensures
        r@.len() == fields@.len(),
        forall|j: int|
            0 <= j < r@.len() ==> (#[trigger] r@[j]).0@ == fields@[j].0@ && r@[j].1@
                == fields@[j].1@,
    decreases fields, 1nat,
{
    let mut r: Vec<(String, Type)> = Vec::new();
    let mut i: usize = 0;
    while i < fields.len()
        invariant
            0 <= i <= fields@.len(),
            r@.len() == i,
            forall|j: int|
                0 <= j < i ==> (#[trigger] r@[j]).0@ == fields@[j].0@ && r@[j].1@
                    == fields@[j].1@,
        decreases fields@.len() - i,
    {
        proof {
            lemma_field_decreases(*fields, i as int);
        }
        r.push((fields[i].0.clone(), fields[i].1.clone()));
        i += 1;
    }
    r
}

fn clone_elements(types: &Vec<Type>) -> (r: Vec<Type>)
    ensures
        r@.len() == types@.len(),
        forall|j: int| 0 <= j < r@.len() ==> (#[trigger] r@[j])@ == types@[j]@,
    decreases types, 1nat,
{
    let mut r: Vec<Type> = Vec::new();
    let mut i: usize = 0;
    while i < types.len()
        invariant
            0 <= i <= types@.len(),
            r@.len() == i,
            forall|j: int| 0 <= j < i ==> (#[trigger] r@[j])@ == types@[j]@,
        decreases types@.len() - i,
    {
        proof {
            lemma_element_decreases(*types, i as int);
        }
        r.push(types[i].clone());
        i += 1;
    }
    r
}

fn clone_cases(cases: &Vec<(String, Option<Type>)>) -> (r: Vec<(String, Option<Type>)>)
    ensures
        type_view(Type::Variant(r)) == type_view(Type::Variant(*cases)),
    decreases cases, 1nat,
{
    let mut r: Vec<(String, Option<Type>)> = Vec::new();
    let mut i: usize = 0;
    let ghost all = type_view(Type::Variant(*cases))->Variant_0;
    while i < cases.len()
        invariant
            0 <= i <= cases@.len(),
            r@.len() == i,
            all == type_view(Type::Variant(*cases))->Variant_0,
            type_view(Type::Variant(r))->Variant_0 == all.take(i as int),
        decreases cases@.len() - i,
    {
        let ghost before = r;
        let payload: Option<Type> = match &cases[i].1 {
            Some(t) => {
                proof {
                    lemma_case_decreases(*cases, i as int);
                }
                Some(t.clone())
            },
            None => None,
        };
        r.push((cases[i].0.clone(), payload));
        proof {
            let now = type_view(Type::Variant(r))->Variant_0;
            assert(now.len() == i + 1);
            assert forall|j: int| 0 <= j < now.len() implies now[j] == all[j] by {
                if j < i {
                    assert(type_view(Type::Variant(before))->Variant_0[j] == all.take(i as int)[j]);
                }
            }
            assert(now =~= all.take(i + 1));
        }
        i += 1;
    }
    assert(all.take(i as int) =~= all);
    r
}

fn clone_payload(payload: &Option<Box<Type>>) -> (r: Option<Box<Type>>)
    ensures
        match (r, *payload) {
            (Some(x), Some(y)) => x@ == y@,
            (None, None) => true,
            _ => false,
        },
    decreases payload, 1nat,
{
    match payload {
        Some(t) => Some(Box::new((&**t).clone())),
        None => None,
    }
}

impl Clone for Type {
    fn clone(&self) -> (r: Self)
        ensures
            r@ == self@,
        decreases self, 0nat,
    {
        match self {
            Type::Bool => Type::Bool,
            Type::S8 => Type::S8,
            Type::U8 => Type::U8,
            Type::S16 => Type::S16,
            Type::U16 => Type::U16,
            Type::S32 => Type::S32,
            Type::U32 => Type::U32,
            Type::S64 => Type::S64,
            Type::U64 => Type::U64,
            Type::Float32 => Type::Float32,
            Type::Float64 => Type::Float64,
            Type::Char => Type::Char,
            Type::String => Type::String,
            Type::List(e) => Type::List(Box::new((&**e).clone())),
            Type::Mapping(k, v) => Type::Mapping(
                Box::new((&**k).clone()),
                Box::new((&**v).clone()),
            ),
            Type::Record(fields) => {
                let fields2 = clone_fields(fields);
                assert(type_view(Type::Record(fields2))->Record_0 =~= self@->Record_0);
                Type::Record(fields2)
            },
            Type::Tuple(types) => {
                let types2 = clone_elements(types);
                assert(type_view(Type::Tuple(types2))->Tuple_0 =~= self@->Tuple_0);
                Type::Tuple(types2)
            },
            Type::Variant(cases) => Type::Variant(clone_cases(cases)),
            Type::Enum(names) => Type::Enum(clone_names(names)),
            Type::Option(e) => Type::Option(Box::new((&**e).clone())),
            Type::Result(ok, err) => Type::Result(clone_payload(ok), clone_payload(err)),
            Type::Flags(names) => Type::Flags(clone_names(names)),
            Type::Own(r) => Type::Own(*r),
            Type::Borrow(r) => Type::Borrow(*r),
            Type::Future(payload) => Type::Future(clone_payload(payload)),
            Type::Stream(payload) => Type::Stream(clone_payload(payload)),
            Type::ErrorContext => Type::ErrorContext,
        }
    }
}

impl Clone for FuncType {
    fn clone(&self) -> (r: Self)
        ensures
            r@ == self@,
    {
        let r = FuncType {
            params: clone_fields(&self.params),
            results: clone_elements(&self.results),
            is_async: self.is_async,
        };
        assert(r@.params =~= self@.params);
        assert(r@.results =~= self@.results);
        r
    }
}

/// A copy of a list of named items.
pub fn clone_items(items: &Vec<(String, Item)>) -> (r: Vec<(String, Item)>)
    ensures
        items_view(r@) == items_view(items@),
    decreases items, 1nat,
{
    let mut r: Vec<(String, Item)> = Vec::new();
    let mut i: usize = 0;
    while i < items.len()
        invariant
            0 <= i <= items@.len(),
            r@.len() == i,
            forall|j: int|
                0 <= j < i ==> (#[trigger] r@[j]).0@ == items@[j].0@ && r@[j].1@ == items@[j].1@,
        decreases items@.len() - i,
    {
        proof {
            assert(decreases_to!(items => items@));
            assert(decreases_to!(items@ => items@[i as int]));
            assert(decreases_to!(items@[i as int] => items@[i as int].1));
        }
        r.push((items[i].0.clone(), items[i].1.clone()));
        i += 1;
    }
    assert(items_view(r@) =~= items_view(items@));
    r
}

impl Clone for Item {
    fn clone(&self) -> (r: Self)
        ensures
            r@ == self@,
        decreases self, 0nat,
    {
        match self {
            Item::Func(f) => Item::Func(f.clone()),
            Item::CoreFunc => Item::CoreFunc,
            Item::Module => Item::Module,
            Item::Component => Item::Component,
            Item::Instance(items) => {
                let items2 = clone_items(items);
                assert(item_view(Item::Instance(items2))->Instance_0 =~= items_view(items2@));
                assert(self@->Instance_0 =~= items_view(items@));
                Item::Instance(items2)
            },
            Item::Type(t) => Item::Type(t.clone()),
            Item::Resource(r) => Item::Resource(*r),
        }
    }
}

/// A name finds the first item that has it, and nothing where none has.
pub proof fn names_find_their_first_item(items: Seq<(Seq<char>, ItemV)>, name: Seq<char>, i: int)
    requires
        0 <= i <= items.len(),
        forall|j: int| 0 <= j < i ==> (#[trigger] items[j]).0 != name,
        i < items.len() ==> items[i].0 == name,
    ensures
        lookup(items, name) == if i < items.len() {
            Some(items[i].1)
        } else {
            None
        },
{
    if i < items.len() {
        assert(first_named(items, name, i));
        lemma_lookup(items, name, i);
    }
}

/// A type is seen as it is: of its own kind, with its own parts in their order.
pub proof fn types_are_seen_as_they_are(t: Type, i: int)
    ensures
        match t {
            Type::Bool => t@ == TypeV::Bool,
            Type::S8 => t@ == TypeV::S8,
            Type::U8 => t@ == TypeV::U8,
            Type::S16 => t@ == TypeV::S16,
            Type::U16 => t@ == TypeV::U16,
            Type::S32 => t@ == TypeV::S32,
            Type::U32 => t@ == TypeV::U32,
            Type::S64 => t@ == TypeV::S64,
            Type::U64 => t@ == TypeV::U64,
            Type::Float32 => t@ == TypeV::Float32,
            Type::Float64 => t@ == TypeV::Float64,
            Type::Char => t@ == TypeV::Char,
            Type::String => t@ == TypeV::String,
            Type::ErrorContext => t@ == TypeV::ErrorContext,
            Type::List(e) => t@ == TypeV::List(Box::new(e@)),
            Type::Mapping(k, v) => t@ == TypeV::Mapping(Box::new(k@), Box::new(v@)),
            Type::Record(fields) => t@ matches TypeV::Record(all) && all.len() == fields@.len() && (
            0 <= i < all.len() ==> all[i] == (fields@[i].0@, fields@[i].1@)),
            Type::Tuple(types) => t@ matches TypeV::Tuple(all) && all.len() == types@.len() && (0
                <= i < all.len() ==> all[i] == types@[i]@),
            Type::Variant(cases) => t@ matches TypeV::Variant(all) && all.len() == cases@.len() && (
            0 <= i < all.len() ==> all[i].0 == cases@[i].0@ && match cases@[i].1 {
                Some(p) => all[i].1 == Some(p@),
                None => all[i].1 is None,
            }),
            Type::Enum(names) => t@ matches TypeV::Enum(all) && all.len() == names@.len() && (0 <= i
                < all.len() ==> all[i] == names@[i]@),
            Type::Option(e) => t@ == TypeV::Option(Box::new(e@)),
            Type::Result(ok, err) => t@ matches TypeV::Result(a, b) && (match ok {
                Some(e) => a == Some(Box::new(e@)),
                None => a is None,
            }) && (match err {
                Some(e) => b == Some(Box::new(e@)),
                None => b is None,
            }),
            Type::Flags(names) => t@ matches TypeV::Flags(all) && all.len() == names@.len() && (0
                <= i < all.len() ==> all[i] == names@[i]@),
            Type::Own(id) => t@ == TypeV::Own(id),
            Type::Borrow(id) => t@ == TypeV::Borrow(id),
            Type::Future(p) => t@ matches TypeV::Future(a) && match p {
                Some(e) => a == Some(Box::new(e@)),
                None => a is None,
            },
            Type::Stream(p) => t@ matches TypeV::Stream(a) && match p {
                Some(e) => a == Some(Box::new(e@)),
                None => a is None,
            },
        },
{
}

/// A function, an item and a component are seen as they are, with their parts in their
/// order.
pub proof fn items_are_seen_as_they_are(f: FuncType, item: Item, c: ComponentType, i: int)
    ensures
        f@.params.len() == f.params@.len(),
        0 <= i < f.params@.len() ==> f@.params[i] == (f.params@[i].0@, f.params@[i].1@),
        f@.results.len() == f.results@.len(),
        0 <= i < f.results@.len() ==> f@.results[i] == f.results@[i]@,
        f@.is_async == f.is_async,
        match item {
            Item::Func(f) => item@ == ItemV::Func(f@),
            Item::CoreFunc => item@ == ItemV::CoreFunc,
            Item::Module => item@ == ItemV::Module,
            Item::Component => item@ == ItemV::Component,
            Item::Instance(items) => item@ matches ItemV::Instance(all) && all.len() == items@.len()
                && (0 <= i < all.len() ==> all[i] == (items@[i].0@, items@[i].1@)),
            Item::Type(t) => item@ == ItemV::Type(t@),
            Item::Resource(r) => item@ == ItemV::Resource(r),
        },
        c@.imports.len() == c.imports@.len(),
        0 <= i < c.imports@.len() ==> c@.imports[i] == (c.imports@[i].0@, c.imports@[i].1@),
        c@.exports.len() == c.exports@.len(),
        0 <= i < c.exports@.len() ==> c@.exports[i] == (c.exports@[i].0@, c.exports@[i].1@),
{
}

} // verus!
