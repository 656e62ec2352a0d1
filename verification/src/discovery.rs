//! Finding the `utxo` resources that a contract exports, and the constructors,
//! methods and storage that belong to them.
//!
//! A contract's exports are looked at twice over: `own` is the component's type as
//! it was compiled, `ty` is that type with the imported resources filled in.

use vstd::prelude::*;
use wasmtime::component::{ComponentExportIndex, ResourceType};

use crate::cause::Cause;
use crate::text::{begins, starts_with};
use crate::types::{
    clone_fields, clone_items, distinct_names, find_item, first_named, item_view, items_view,
    lemma_lookup, lookup, same_resource, same_type, type_view, ComponentType, FuncType, FuncTypeV,
    Item, ItemV, Type, TypeV,
};

verus! {

/// `wasmtime::component::ComponentExportIndex`: the place of an export in one compiled
/// component.
#[verifier::external_type_specification]
#[verifier::external_body]
pub struct ExComponentExportIndex(wasmtime::component::ComponentExportIndex);

/// `==` on a `wasmtime::component::ComponentExportIndex`: whether two places are one.
#[verifier::external_body]
fn same_place(a: &ComponentExportIndex, b: &ComponentExportIndex) -> (r: bool)
    ensures
        r == (*a == *b),
{
    a == b
}

/// Whether what was found at `place` belongs where its instance stands at `here`. What
/// was found in a catalog alone has no place, and belongs wherever its name is found.
pub open spec fn at_home(
    place: Option<ComponentExportIndex>,
    here: Option<ComponentExportIndex>,
) -> bool {
    place is None || place == here
}

/// Whether what was found at `place` belongs where its instance stands at `here`.
pub fn is_at_home(place: Option<ComponentExportIndex>, here: Option<ComponentExportIndex>) -> (r:
    bool)
    ensures
        r == at_home(place, here),
{
    match (place, here) {
        (None, _) => true,
        (Some(a), Some(b)) => same_place(&a, &b),
        (Some(_), None) => false,
    }
}

/// The exports of a contract.
pub struct Catalog {
    pub own: ComponentType,
    pub ty: ComponentType,
}

/// The storage of a `utxo` resource: the fields of its record, and the instance
/// whose `get-storage` and `set-storage` move them.
#[derive(Debug)]
pub struct UtxoStorageExport {
    pub(crate) ty: Vec<(String, Type)>,
    pub(crate) instance: String,
    pub(crate) place: Option<ComponentExportIndex>,
}

/// The view of a [`UtxoStorageExport`].
pub struct StorageV {
    pub fields: Seq<(Seq<char>, TypeV)>,
    pub instance: Seq<char>,
}

/// An exported instance that owns a `utxo` resource.
#[derive(Debug)]
pub struct UtxoExport {
    pub(crate) resource_ty: ResourceType,
    pub(crate) instance_ty: Vec<(String, Item)>,
    pub(crate) instance: String,
    pub(crate) storage: Option<UtxoStorageExport>,
    pub(crate) place: Option<ComponentExportIndex>,
}

/// The view of a [`UtxoExport`].
pub struct UtxoV {
    pub resource: ResourceType,
    pub items: Seq<(Seq<char>, ItemV)>,
    pub instance: Seq<char>,
    pub storage: Option<StorageV>,
}

/// A function that mints a `utxo` resource.
#[derive(Debug)]
pub struct ConstructorExport {
    pub(crate) ty: FuncType,
    pub(crate) instance: String,
    pub(crate) name: String,
    pub(crate) place: Option<ComponentExportIndex>,
}

/// A function that takes a borrowed `utxo` resource.
#[derive(Debug)]
pub struct MethodExport {
    pub(crate) ty: FuncType,
    pub(crate) instance: String,
    pub(crate) name: String,
    pub(crate) place: Option<ComponentExportIndex>,
}

/// The view of a [`ConstructorExport`] or a [`MethodExport`]: a function's type,
/// the instance that it stands in and its name there.
pub struct FuncExportV {
    pub ty: FuncTypeV,
    pub instance: Seq<char>,
    pub name: Seq<char>,
}

impl View for UtxoStorageExport {
    type V = StorageV;

    closed spec fn view(&self) -> StorageV {
        StorageV {
            fields: type_view(Type::Record(self.ty))->Record_0,
            instance: self.instance@,
        }
    }
}

impl View for UtxoExport {
    type V = UtxoV;

    closed spec fn view(&self) -> UtxoV {
        UtxoV {
            resource: self.resource_ty,
            items: items_view(self.instance_ty@),
            instance: self.instance@,
            storage: match self.storage {
                Some(s) => Some(s@),
                None => None,
            },
        }
    }
}

impl View for ConstructorExport {
    type V = FuncExportV;

    closed spec fn view(&self) -> FuncExportV {
        FuncExportV { ty: self.ty@, instance: self.instance@, name: self.name@ }
    }
}

impl View for MethodExport {
    type V = FuncExportV;

    closed spec fn view(&self) -> FuncExportV {
        FuncExportV { ty: self.ty@, instance: self.instance@, name: self.name@ }
    }
}

impl Clone for UtxoStorageExport {
    fn clone(&self) -> (r: Self)
        ensures
            r@ == self@,
            r.origin() == self.origin(),
    {
        let r = UtxoStorageExport {
            ty: clone_fields(&self.ty),
            instance: self.instance.clone(),
            place: self.place,
        };
        assert(r@.fields =~= self@.fields);
        r
    }
}

impl Clone for UtxoExport {
    fn clone(&self) -> (r: Self)
        ensures
            r@ == self@,
            r.origin() == self.origin(),
            r.storage_place() == self.storage_place(),
    {
        UtxoExport {
            place: self.place,
            resource_ty: self.resource_ty,
            instance_ty: clone_items(&self.instance_ty),
            instance: self.instance.clone(),
            storage: match &self.storage {
                Some(s) => Some(s.clone()),
                None => None,
            },
        }
    }
}

impl Clone for ConstructorExport {
    fn clone(&self) -> (r: Self)
        ensures
            r@ == self@,
            r.origin() == self.origin(),
    {
        ConstructorExport {
            ty: self.ty.clone(),
            instance: self.instance.clone(),
            name: self.name.clone(),
            place: self.place,
        }
    }
}

impl Clone for MethodExport {
    fn clone(&self) -> (r: Self)
        ensures
            r@ == self@,
            r.origin() == self.origin(),
    {
        MethodExport {
            ty: self.ty.clone(),
            instance: self.instance.clone(),
            name: self.name.clone(),
            place: self.place,
        }
    }
}

impl UtxoStorageExport {
    /// The place of the instance in the component that this was found in.
    pub closed spec fn origin(&self) -> Option<ComponentExportIndex> {
        self.place
    }

    /// The place of the instance in the component that this was found in.
    #[must_use]
    pub fn place(&self) -> (r: Option<ComponentExportIndex>)
        ensures
            r == self.origin(),
    {
        self.place
    }

    /// The fields of the storage record.
    #[must_use]
    pub fn ty(&self) -> (r: &Vec<(String, Type)>)
        ensures
            type_view(Type::Record(*r)) == TypeV::Record(self@.fields),
    {
        &self.ty
    }

    /// The name of the instance that owns the storage.
    #[must_use]
    pub fn instance(&self) -> (r: &String)
        ensures
            r@ == self@.instance,
    {
        &self.instance
    }
}

impl UtxoExport {
    /// The place of the instance in the component that this was found in.
    pub closed spec fn origin(&self) -> Option<ComponentExportIndex> {
        self.place
    }

    /// The place of the instance in the component that this was found in.
    #[must_use]
    pub fn place(&self) -> (r: Option<ComponentExportIndex>)
        ensures
            r == self.origin(),
    {
        self.place
    }

    /// The name of the instance that owns the resource.
    pub(crate) fn instance(&self) -> (r: &String)
        ensures
            r@ == self@.instance,
    {
        &self.instance
    }

    /// The place that the storage of the resource was found at.
    pub closed spec fn storage_place(&self) -> Option<ComponentExportIndex> {
        match self.storage {
            Some(s) => s.place,
            None => None,
        }
    }

    /// The same export, found at `place`.
    pub(crate) fn found_at(self, place: Option<ComponentExportIndex>) -> (r: Self)
        ensures
            r@ == self@,
            r.origin() == place,
            self@.storage is Some ==> r.storage_place() == place,
    {
        UtxoExport {
            resource_ty: self.resource_ty,
            instance_ty: self.instance_ty,
            instance: self.instance,
            storage: match self.storage {
                Some(s) => Some(UtxoStorageExport { ty: s.ty, instance: s.instance, place }),
                None => None,
            },
            place,
        }
    }

    /// The storage of the resource, where it has any.
    #[must_use]
    pub fn storage(&self) -> (r: Option<&UtxoStorageExport>)
        ensures
            match r {
                Some(s) => self@.storage == Some(s@) && s.origin() == self.storage_place(),
                None => self@.storage is None,
            },
    {
        match &self.storage {
            Some(s) => Some(s),
            None => None,
        }
    }
}

impl ConstructorExport {
    /// The place of the instance in the component that this was found in.
    pub closed spec fn origin(&self) -> Option<ComponentExportIndex> {
        self.place
    }

    /// The place of the instance in the component that this was found in.
    #[must_use]
    pub fn place(&self) -> (r: Option<ComponentExportIndex>)
        ensures
            r == self.origin(),
    {
        self.place
    }

    /// The type of the function.
    #[must_use]
    pub fn ty(&self) -> (r: &FuncType)
        ensures
            r@ == self@.ty,
    {
        &self.ty
    }

    /// The name of the instance that the function stands in.
    #[must_use]
    pub fn instance(&self) -> (r: &String)
        ensures
            r@ == self@.instance,
    {
        &self.instance
    }

    /// The name of the function.
    #[must_use]
    pub fn name(&self) -> (r: &String)
        ensures
            r@ == self@.name,
    {
        &self.name
    }
}

impl MethodExport {
    /// The place of the instance in the component that this was found in.
    pub closed spec fn origin(&self) -> Option<ComponentExportIndex> {
        self.place
    }

    /// The place of the instance in the component that this was found in.
    #[must_use]
    pub fn place(&self) -> (r: Option<ComponentExportIndex>)
        ensures
            r == self.origin(),
    {
        self.place
    }

    /// The type of the function.
    #[must_use]
    pub fn ty(&self) -> (r: &FuncType)
        ensures
            r@ == self@.ty,
    {
        &self.ty
    }

    /// The name of the instance that the function stands in.
    #[must_use]
    pub fn instance(&self) -> (r: &String)
        ensures
            r@ == self@.instance,
    {
        &self.instance
    }

    /// The name of the function.
    #[must_use]
    pub fn name(&self) -> (r: &String)
        ensures
            r@ == self@.name,
    {
        &self.name
    }
}

/// What is wrong with a `get-storage`: it must take the borrowed resource and
/// nothing else, and return the storage record and nothing else.
pub open spec fn get_fault(
    get: Option<ItemV>,
    resource: ResourceType,
    fields: Seq<(Seq<char>, TypeV)>,
) -> Option<Cause> {
    match get {
        None => Some(Cause::GetNotFound),
        Some(ItemV::Func(f)) => if !(f.params.len() == 1 && f.params[0].1 is Borrow) {
            Some(Cause::GetParams)
        } else if f.params[0].1 != TypeV::Borrow(resource) {
            Some(Cause::GetResource)
        } else if !(f.results.len() == 1 && f.results[0] is Record) {
            Some(Cause::GetResults)
        } else if f.results[0] != TypeV::Record(fields) {
            Some(Cause::GetRecord)
        } else {
            None
        },
        Some(_) => Some(Cause::GetNotAFunction),
    }
}

/// What is wrong with a `set-storage`: it must take the storage record and nothing
/// else, and return the owned resource and nothing else.
pub open spec fn set_fault(
    set: Option<ItemV>,
    resource: ResourceType,
    fields: Seq<(Seq<char>, TypeV)>,
) -> Option<Cause> {
    match set {
        None => Some(Cause::SetNotFound),
        Some(ItemV::Func(f)) => if !(f.params.len() == 1 && f.params[0].1 is Record) {
            Some(Cause::SetParams)
        } else if f.params[0].1 != TypeV::Record(fields) {
            Some(Cause::SetRecord)
        } else if !(f.results.len() == 1 && f.results[0] is Own) {
            Some(Cause::SetResults)
        } else if f.results[0] != TypeV::Own(resource) {
            Some(Cause::SetResource)
        } else {
            None
        },
        Some(_) => Some(Cause::SetNotAFunction),
    }
}

/// The exports of the instance `name` among `own`.
pub open spec fn instance_items(own: Seq<(Seq<char>, ItemV)>, name: Seq<char>) -> Seq<
    (Seq<char>, ItemV),
> {
    match lookup(own, name) {
        Some(ItemV::Instance(items)) => items,
        _ => Seq::empty(),
    }
}

/// The `utxo` resource that the instance `name` owns, whose exports are `items`.
pub open spec fn utxo_of(
    own: Seq<(Seq<char>, ItemV)>,
    name: Seq<char>,
    items: Seq<(Seq<char>, ItemV)>,
) -> Result<UtxoV, Cause> {
    if lookup(own, name) is None {
        Err(Cause::ExportNotFound)
    } else {
        match lookup(items, "utxo"@) {
            Some(ItemV::Resource(resource)) => match lookup(items, "storage"@) {
                None => Ok(UtxoV { resource, items, instance: name, storage: None }),
                Some(ItemV::Type(TypeV::Record(fields))) => {
                    let inside = instance_items(own, name);
                    if let Some(c) = get_fault(lookup(inside, "get-storage"@), resource, fields) {
                        Err(c)
                    } else if let Some(c) = set_fault(
                        lookup(inside, "set-storage"@),
                        resource,
                        fields,
                    ) {
                        Err(c)
                    } else {
                        Ok(
                            UtxoV {
                                resource,
                                items,
                                instance: name,
                                storage: Some(StorageV { fields, instance: name }),
                            },
                        )
                    }
                },
                Some(_) => Err(Cause::StorageNotARecord),
            },
            _ => Err(Cause::NoUtxoResource),
        }
    }
}

/// The `utxo` resource that is exported under `name`.
pub open spec fn utxo_named(
    own: Seq<(Seq<char>, ItemV)>,
    exports: Seq<(Seq<char>, ItemV)>,
    name: Seq<char>,
) -> Result<UtxoV, Cause> {
    match lookup(exports, name) {
        None => Err(Cause::ExportNotFound),
        Some(ItemV::Instance(items)) => utxo_of(own, name, items),
        Some(_) => Err(Cause::NotAnInstance),
    }
}

/// Each of the first `n` exports that is an instance, and what it is as a `utxo`.
pub open spec fn utxo_list(
    own: Seq<(Seq<char>, ItemV)>,
    exports: Seq<(Seq<char>, ItemV)>,
    n: nat,
) -> Seq<(Seq<char>, Result<UtxoV, Cause>)>
    decreases n,
{
    if n == 0 {
        Seq::empty()
    } else {
        let before = utxo_list(own, exports, (n - 1) as nat);
        match exports[n - 1].1 {
            ItemV::Instance(items) => before.push(
                (exports[n - 1].0, utxo_of(own, exports[n - 1].0, items)),
            ),
            _ => before,
        }
    }
}

/// A function of `utxo` as a constructor: it must return the owned resource and
/// nothing else.
pub open spec fn constructor_of(
    own: Seq<(Seq<char>, ItemV)>,
    utxo: UtxoV,
    name: Seq<char>,
    f: FuncTypeV,
) -> Result<FuncExportV, Cause> {
    if lookup(instance_items(own, utxo.instance), name) is None {
        Err(Cause::ExportNotFound)
    } else if !(f.results.len() == 1 && f.results[0] is Own) {
        Err(Cause::NoSingleResource)
    } else if f.results[0] != TypeV::Own(utxo.resource) {
        Err(Cause::ReturnMismatch)
    } else {
        Ok(FuncExportV { ty: f, instance: utxo.instance, name })
    }
}

/// A function of `utxo` as a method: its first parameter must be the borrowed
/// resource.
pub open spec fn method_of(
    own: Seq<(Seq<char>, ItemV)>,
    utxo: UtxoV,
    name: Seq<char>,
    f: FuncTypeV,
) -> Result<FuncExportV, Cause> {
    if lookup(instance_items(own, utxo.instance), name) is None {
        Err(Cause::ExportNotFound)
    } else if !(f.params.len() > 0 && f.params[0].1 is Borrow) {
        Err(Cause::NoBorrow)
    } else if f.params[0].1 != TypeV::Borrow(utxo.resource) {
        Err(Cause::ResourceMismatch)
    } else {
        Ok(FuncExportV { ty: f, instance: utxo.instance, name })
    }
}

/// Which of the two a function of a `utxo` is taken for.
pub enum Role {
    Constructor,
    Method,
}

/// The function of `utxo` that plays `role`.
pub open spec fn function_of(
    role: Role,
    own: Seq<(Seq<char>, ItemV)>,
    utxo: UtxoV,
    name: Seq<char>,
    f: FuncTypeV,
) -> Result<FuncExportV, Cause> {
    match role {
        Role::Constructor => constructor_of(own, utxo, name, f),
        Role::Method => method_of(own, utxo, name, f),
    }
}

/// What the names of functions that play `role` begin with.
pub open spec fn role_prefix(role: Role) -> Seq<char> {
    match role {
        Role::Constructor => "[static]"@,
        Role::Method => "[method]"@,
    }
}

/// The function of `utxo` that is exported under `name`.
pub open spec fn function_named(
    role: Role,
    own: Seq<(Seq<char>, ItemV)>,
    utxo: UtxoV,
    name: Seq<char>,
) -> Result<FuncExportV, Cause> {
    match lookup(utxo.items, name) {
        None => Err(Cause::ExportNotFound),
        Some(ItemV::Func(f)) => function_of(role, own, utxo, name, f),
        Some(_) => Err(Cause::NotAFunction),
    }
}

/// Each of the first `n` exports of `utxo` that is a function with the prefix of
/// `role`, and what it is in that role.
pub open spec fn function_list(
    role: Role,
    own: Seq<(Seq<char>, ItemV)>,
    utxo: UtxoV,
    n: nat,
) -> Seq<(Seq<char>, Result<FuncExportV, Cause>)>
    decreases n,
{
    if n == 0 {
        Seq::empty()
    } else {
        let before = function_list(role, own, utxo, (n - 1) as nat);
        let name = utxo.items[n - 1].0;
        match utxo.items[n - 1].1 {
            ItemV::Func(f) => if begins(name, role_prefix(role)) {
                before.push((name, function_of(role, own, utxo, name, f)))
            } else {
                before
            },
            _ => before,
        }
    }
}

/// The view of what a lookup returns.
pub open spec fn found<T: View>(r: Result<T, Cause>) -> Result<T::V, Cause> {
    match r {
        Ok(x) => Ok(x@),
        Err(c) => Err(c),
    }
}

/// The view of what a listing returns.
pub open spec fn listed<T: View>(r: Seq<(String, Result<T, Cause>)>) -> Seq<
    (Seq<char>, Result<T::V, Cause>),
> {
    Seq::new(r.len(), |i: int| (r[i].0@, found(r[i].1)))
}

fn check_get(get: Option<&Item>, resource: &ResourceType, fields: &Type) -> (r: Option<Cause>)
    requires
        fields is Record,
    ensures
        r == get_fault(
            match get {
                Some(i) => Some(i@),
                None => None,
            },
            *resource,
            fields@->Record_0,
        ),
{
    match get {
        None => Some(Cause::GetNotFound),
        Some(Item::Func(f)) => {
            if f.params.len() != 1 {
                return Some(Cause::GetParams);
            }
            assert(f@.params[0].1 == f.params@[0].1@);
            match &f.params[0].1 {
                Type::Borrow(r) => {
                    if !same_resource(r, resource) {
                        return Some(Cause::GetResource);
                    }
                },
                _ => {
                    return Some(Cause::GetParams);
                },
            }
            if f.results.len() != 1 {
                return Some(Cause::GetResults);
            }
            assert(f@.results[0] == f.results@[0]@);
            match &f.results[0] {
                Type::Record(_) => {},
                _ => {
                    return Some(Cause::GetResults);
                },
            }
            if !same_type(&f.results[0], fields) {
                return Some(Cause::GetRecord);
            }
            None
        },
        Some(_) => Some(Cause::GetNotAFunction),
    }
}

fn check_set(set: Option<&Item>, resource: &ResourceType, fields: &Type) -> (r: Option<Cause>)
    requires
        fields is Record,
    ensures
        r == set_fault(
            match set {
                Some(i) => Some(i@),
                None => None,
            },
            *resource,
            fields@->Record_0,
        ),
{
    match set {
        None => Some(Cause::SetNotFound),
        Some(Item::Func(f)) => {
            if f.params.len() != 1 {
                return Some(Cause::SetParams);
            }
            assert(f@.params[0].1 == f.params@[0].1@);
            match &f.params[0].1 {
                Type::Record(_) => {},
                _ => {
                    return Some(Cause::SetParams);
                },
            }
            if !same_type(&f.params[0].1, fields) {
                return Some(Cause::SetRecord);
            }
            if f.results.len() != 1 {
                return Some(Cause::SetResults);
            }
            assert(f@.results[0] == f.results@[0]@);
            match &f.results[0] {
                Type::Own(r) => {
                    if !same_resource(r, resource) {
                        return Some(Cause::SetResource);
                    }
                },
                _ => {
                    return Some(Cause::SetResults);
                },
            }
            None
        },
        Some(_) => Some(Cause::SetNotAFunction),
    }
}

proof fn lemma_instance_view(items: Vec<(String, Item)>)
    ensures
        item_view(Item::Instance(items)) == ItemV::Instance(items_view(items@)),
{
    assert(item_view(Item::Instance(items))->Instance_0 =~= items_view(items@));
}

impl Catalog {
    /// An export inside the instance `instance`.
    fn find_inside(&self, instance: &str, name: &str) -> (r: Option<&Item>)
        ensures
            match r {
                Some(item) => lookup(instance_items(self.own@.exports, instance@), name@) == Some(
                    item@,
                ),
                None => lookup(instance_items(self.own@.exports, instance@), name@) is None,
            },
    {
        match find_item(&self.own.exports, instance) {
            Some(Item::Instance(items)) => {
                proof {
                    lemma_instance_view(*items);
                }
                find_item(items, name)
            },
            _ => None,
        }
    }

    /// The `utxo` resource of the instance `name`, whose exports are `instance_ty`.
    fn get_utxo_typed(&self, name: &str, instance_ty: &Vec<(String, Item)>) -> (r: Result<
        UtxoExport,
        Cause,
    >)
        ensures
            found(r) == utxo_of(self.own@.exports, name@, items_view(instance_ty@)),
    {
        if find_item(&self.own.exports, name).is_none() {
            return Err(Cause::ExportNotFound);
        }
        let resource: ResourceType = match find_item(instance_ty, "utxo") {
            Some(Item::Resource(r)) => *r,
            _ => {
                return Err(Cause::NoUtxoResource);
            },
        };
        let storage = match find_item(instance_ty, "storage") {
            None => None,
            Some(Item::Type(fields)) => {
                let record: Type = fields.clone();
                if !is_record(&record) {
                    return Err(Cause::StorageNotARecord);
                }
                let get = self.find_inside(name, "get-storage");
                if let Some(c) = check_get(get, &resource, &record) {
                    return Err(c);
                }
                let set = self.find_inside(name, "set-storage");
                if let Some(c) = check_set(set, &resource, &record) {
                    return Err(c);
                }
                match record {
                    Type::Record(ty) => Some(
                        UtxoStorageExport { ty, instance: name.to_owned(), place: None },
                    ),
                    _ => None,
                }
            },
            Some(_) => {
                return Err(Cause::StorageNotARecord);
            },
        };
        Ok(
            UtxoExport {
                resource_ty: resource,
                instance_ty: clone_items(instance_ty),
                instance: name.to_owned(),
                storage,
                place: None,
            },
        )
    }

    /// The `utxo` resource that is exported under `name`.
    pub fn get_utxo(&self, name: &str) -> (r: Result<UtxoExport, Cause>)
        ensures
            found(r) == utxo_named(self.own@.exports, self.ty@.exports, name@),
    {
        match find_item(&self.ty.exports, name) {
            None => Err(Cause::ExportNotFound),
            Some(Item::Instance(items)) => {
                proof {
                    lemma_instance_view(*items);
                }
                self.get_utxo_typed(name, items)
            },
            Some(_) => Err(Cause::NotAnInstance),
        }
    }

    /// Every exported instance, in order, and what it is as a `utxo`.
    pub fn utxos(&self) -> (r: Vec<(String, Result<UtxoExport, Cause>)>)
        ensures
            listed(r@) == utxo_list(
                self.own@.exports,
                self.ty@.exports,
                self.ty@.exports.len(),
            ),
    {
        let ghost own = self.own@.exports;
        let ghost all = self.ty@.exports;
        let mut r: Vec<(String, Result<UtxoExport, Cause>)> = Vec::new();
        let mut i: usize = 0;
        assert(listed(r@) =~= utxo_list(own, all, 0));
        while i < self.ty.exports.len()
            invariant
                0 <= i <= self.ty.exports@.len(),
                own == self.own@.exports,
                all == self.ty@.exports,
                listed(r@) == utxo_list(own, all, i as nat),
            decreases self.ty.exports@.len() - i,
        {
            let ghost before = r@;
            assert(all[i as int] == (self.ty.exports@[i as int].0@, self.ty.exports@[i as int].1@));
            if let Item::Instance(items) = &self.ty.exports[i].1 {
                proof {
                    lemma_instance_view(*items);
                }
                let utxo = self.get_utxo_typed(self.ty.exports[i].0.as_str(), items);
                let ghost entry = found(utxo);
                r.push((self.ty.exports[i].0.clone(), utxo));
                assert(listed(r@) =~= listed(before).push((all[i as int].0, entry)));
            }
            i += 1;
        }
        r
    }

    /// A function of `utxo` as a constructor.
    fn get_utxo_constructor_typed(&self, utxo: &UtxoExport, name: &str, ty: &FuncType) -> (r:
        Result<ConstructorExport, Cause>)
        ensures
            found(r) == constructor_of(self.own@.exports, utxo@, name@, ty@),
            r matches Ok(c) ==> c.origin() == utxo.origin(),
    {
        if self.find_inside(utxo.instance.as_str(), name).is_none() {
            return Err(Cause::ExportNotFound);
        }
        if ty.results.len() != 1 {
            return Err(Cause::NoSingleResource);
        }
        assert(ty@.results[0] == ty.results@[0]@);
        match &ty.results[0] {
            Type::Own(r) => {
                if !same_resource(r, &utxo.resource_ty) {
                    return Err(Cause::ReturnMismatch);
                }
            },
            _ => {
                return Err(Cause::NoSingleResource);
            },
        }
        Ok(
            ConstructorExport {
                ty: ty.clone(),
                instance: utxo.instance.clone(),
                name: name.to_owned(),
                place: utxo.place,
            },
        )
    }

    /// The constructor of `utxo` that is exported under `name`.
    pub fn get_utxo_constructor(&self, utxo: &UtxoExport, name: &str) -> (r: Result<
        ConstructorExport,
        Cause,
    >)
        ensures
            found(r) == function_named(Role::Constructor, self.own@.exports, utxo@, name@),
            r matches Ok(c) ==> c.origin() == utxo.origin(),
    {
        match find_item(&utxo.instance_ty, name) {
            None => Err(Cause::ExportNotFound),
            Some(Item::Func(f)) => self.get_utxo_constructor_typed(utxo, name, f),
            Some(_) => Err(Cause::NotAFunction),
        }
    }

    /// Every exported function of `utxo` that is named as a constructor, in order.
    pub fn utxo_constructors(&self, utxo: &UtxoExport) -> (r: Vec<
        (String, Result<ConstructorExport, Cause>),
    >)
        ensures
            listed(r@) == function_list(
                Role::Constructor,
                self.own@.exports,
                utxo@,
                utxo@.items.len(),
            ),
            forall|k: int|
                0 <= k < r@.len() ==> ((#[trigger] r@[k]).1 matches Ok(f) ==> f.origin()
                    == utxo.origin()),
    {
        let ghost own = self.own@.exports;
        let ghost all = utxo@.items;
        let mut r: Vec<(String, Result<ConstructorExport, Cause>)> = Vec::new();
        let mut i: usize = 0;
        assert(listed(r@) =~= function_list(Role::Constructor, own, utxo@, 0));
        while i < utxo.instance_ty.len()
            invariant
                0 <= i <= utxo.instance_ty@.len(),
                own == self.own@.exports,
                all == utxo@.items,
                all == items_view(utxo.instance_ty@),
                listed(r@) == function_list(Role::Constructor, own, utxo@, i as nat),
                forall|k: int|
                    0 <= k < r@.len() ==> ((#[trigger] r@[k]).1 matches Ok(f) ==> f.origin()
                        == utxo.origin()),
            decreases utxo.instance_ty@.len() - i,
        {
            let ghost before = r@;
            let name: &str = utxo.instance_ty[i].0.as_str();
            assert(all[i as int].1 == utxo.instance_ty@[i as int].1@);
            if let Item::Func(f) = &utxo.instance_ty[i].1 {
                if starts_with(name, "[static]") {
                    let ctor = self.get_utxo_constructor_typed(utxo, name, f);
                    let ghost entry = found(ctor);
                    r.push((utxo.instance_ty[i].0.clone(), ctor));
                    assert(listed(r@) =~= listed(before).push((all[i as int].0, entry)));
                }
            }
            i += 1;
        }
        r
    }

    /// A function of `utxo` as a method.
    fn get_utxo_method_typed(&self, utxo: &UtxoExport, name: &str, ty: &FuncType) -> (r: Result<
        MethodExport,
        Cause,
    >)
        ensures
            found(r) == method_of(self.own@.exports, utxo@, name@, ty@),
            r matches Ok(m) ==> m.origin() == utxo.origin(),
    {
        if self.find_inside(utxo.instance.as_str(), name).is_none() {
            return Err(Cause::ExportNotFound);
        }
        if ty.params.len() == 0 {
            return Err(Cause::NoBorrow);
        }
        assert(ty@.params[0].1 == ty.params@[0].1@);
        match &ty.params[0].1 {
            Type::Borrow(r) => {
                if !same_resource(r, &utxo.resource_ty) {
                    return Err(Cause::ResourceMismatch);
                }
            },
            _ => {
                return Err(Cause::NoBorrow);
            },
        }
        Ok(
            MethodExport {
                ty: ty.clone(),
                instance: utxo.instance.clone(),
                name: name.to_owned(),
                place: utxo.place,
            },
        )
    }

    /// The method of `utxo` that is exported under `name`.
    pub fn get_utxo_method(&self, utxo: &UtxoExport, name: &str) -> (r: Result<
        MethodExport,
        Cause,
    >)
        ensures
            found(r) == function_named(Role::Method, self.own@.exports, utxo@, name@),
            r matches Ok(m) ==> m.origin() == utxo.origin(),
    {
        match find_item(&utxo.instance_ty, name) {
            None => Err(Cause::ExportNotFound),
            Some(Item::Func(f)) => self.get_utxo_method_typed(utxo, name, f),
            Some(_) => Err(Cause::NotAFunction),
        }
    }

    /// Every exported function of `utxo` that is named as a method, in order.
    pub fn utxo_methods(&self, utxo: &UtxoExport) -> (r: Vec<
        (String, Result<MethodExport, Cause>),
    >)
        ensures
            listed(r@) == function_list(Role::Method, self.own@.exports, utxo@, utxo@.items.len()),
            forall|k: int|
                0 <= k < r@.len() ==> ((#[trigger] r@[k]).1 matches Ok(f) ==> f.origin()
                    == utxo.origin()),
    {
        let ghost own = self.own@.exports;
        let ghost all = utxo@.items;
        let mut r: Vec<(String, Result<MethodExport, Cause>)> = Vec::new();
        let mut i: usize = 0;
        assert(listed(r@) =~= function_list(Role::Method, own, utxo@, 0));
        while i < utxo.instance_ty.len()
            invariant
                0 <= i <= utxo.instance_ty@.len(),
                own == self.own@.exports,
                all == utxo@.items,
                all == items_view(utxo.instance_ty@),
                listed(r@) == function_list(Role::Method, own, utxo@, i as nat),
                forall|k: int|
                    0 <= k < r@.len() ==> ((#[trigger] r@[k]).1 matches Ok(f) ==> f.origin()
                        == utxo.origin()),
            decreases utxo.instance_ty@.len() - i,
        {
            let ghost before = r@;
            let name: &str = utxo.instance_ty[i].0.as_str();
            assert(all[i as int].1 == utxo.instance_ty@[i as int].1@);
            if let Item::Func(f) = &utxo.instance_ty[i].1 {
                if starts_with(name, "[method]") {
                    let method = self.get_utxo_method_typed(utxo, name, f);
                    let ghost entry = found(method);
                    r.push((utxo.instance_ty[i].0.clone(), method));
                    assert(listed(r@) =~= listed(before).push((all[i as int].0, entry)));
                }
            }
            i += 1;
        }
        r
    }
}

fn is_record(t: &Type) -> (r: bool)
    ensures
        r == (t is Record),
{
    match t {
        Type::Record(_) => true,
        _ => false,
    }
}

/// What is listed is what is found by name: each entry of [`Catalog::utxos`] is
/// what [`Catalog::get_utxo`] gives for its name.
pub proof fn listed_utxos_are_found(
    own: Seq<(Seq<char>, ItemV)>,
    exports: Seq<(Seq<char>, ItemV)>,
    n: nat,
    k: int,
)
    requires
        distinct_names(exports),
        n <= exports.len(),
        0 <= k < utxo_list(own, exports, n).len(),
    ensures
        utxo_named(own, exports, utxo_list(own, exports, n)[k].0) == utxo_list(own, exports, n)[k].1,
    decreases n,
{
    let before = utxo_list(own, exports, (n - 1) as nat);
    if k < before.len() {
        listed_utxos_are_found(own, exports, (n - 1) as nat, k);
    } else {
        assert(first_named(exports, exports[n - 1].0, n - 1));
        lemma_lookup(exports, exports[n - 1].0, n - 1);
    }
}

/// What is found by name is listed: each name for which [`Catalog::get_utxo`] finds
/// a resource is the name of an entry of [`Catalog::utxos`].
pub proof fn found_utxos_are_listed(
    own: Seq<(Seq<char>, ItemV)>,
    exports: Seq<(Seq<char>, ItemV)>,
    name: Seq<char>,
)
    requires
        utxo_named(own, exports, name) is Ok,
    ensures
        utxo_list(own, exports, exports.len()).contains((name, utxo_named(own, exports, name))),
{
    let i = choose|i: int| first_named(exports, name, i);
    assert(first_named(exports, name, i));
    let upto = utxo_list(own, exports, (i + 1) as nat);
    assert(upto[upto.len() - 1] == (name, utxo_named(own, exports, name)));
    lemma_utxo_list_grows(own, exports, (i + 1) as nat, exports.len());
    assert(utxo_list(own, exports, exports.len())[upto.len() - 1] == upto[upto.len() - 1]);
}

proof fn lemma_utxo_list_grows(
    own: Seq<(Seq<char>, ItemV)>,
    exports: Seq<(Seq<char>, ItemV)>,
    m: nat,
    n: nat,
)
    requires
        m <= n,
    ensures
        utxo_list(own, exports, m).len() <= utxo_list(own, exports, n).len(),
        forall|k: int|
            0 <= k < utxo_list(own, exports, m).len() ==> utxo_list(own, exports, n)[k]
                == #[trigger] utxo_list(own, exports, m)[k],
    decreases n,
{
    if m < n {
        lemma_utxo_list_grows(own, exports, m, (n - 1) as nat);
    }
}

/// What is listed is what is found by name, for the constructors and the methods of
/// a resource, and each name that is listed has the prefix of its role.
pub proof fn listed_functions_are_found(
    role: Role,
    own: Seq<(Seq<char>, ItemV)>,
    utxo: UtxoV,
    n: nat,
    k: int,
)
    requires
        distinct_names(utxo.items),
        n <= utxo.items.len(),
        0 <= k < function_list(role, own, utxo, n).len(),
    ensures
        begins(function_list(role, own, utxo, n)[k].0, role_prefix(role)),
        function_named(role, own, utxo, function_list(role, own, utxo, n)[k].0) == function_list(
            role,
            own,
            utxo,
            n,
        )[k].1,
    decreases n,
{
    let before = function_list(role, own, utxo, (n - 1) as nat);
    if k < before.len() {
        listed_functions_are_found(role, own, utxo, (n - 1) as nat, k);
    } else {
        assert(first_named(utxo.items, utxo.items[n - 1].0, n - 1));
        lemma_lookup(utxo.items, utxo.items[n - 1].0, n - 1);
    }
}

/// A resource that has storage can be saved and restored: its instance reads the
/// storage record from the borrowed resource and makes the owned resource of it.
pub proof fn storage_can_be_moved(
    own: Seq<(Seq<char>, ItemV)>,
    exports: Seq<(Seq<char>, ItemV)>,
    name: Seq<char>,
)
    requires
        utxo_named(own, exports, name) matches Ok(u) && u.storage is Some,
    ensures
        ({
            let u = utxo_named(own, exports, name)->Ok_0;
            let record = TypeV::Record(u.storage->0.fields);
            let inside = instance_items(own, name);
            &&& u.instance == name
            &&& lookup(inside, "get-storage"@) matches Some(ItemV::Func(f)) && f.params.len() == 1
                && f.params[0].1 == TypeV::Borrow(u.resource) && f.results == seq![record]
            &&& lookup(inside, "set-storage"@) matches Some(ItemV::Func(f)) && f.params.len() == 1
                && f.params[0].1 == record && f.results == seq![TypeV::Own(u.resource)]
        }),
{
    let u = utxo_named(own, exports, name)->Ok_0;
    let record = TypeV::Record(u.storage->0.fields);
    let inside = instance_items(own, name);
    let get = lookup(inside, "get-storage"@)->0->Func_0;
    let set = lookup(inside, "set-storage"@)->0->Func_0;
    assert(get.results =~= seq![record]);
    assert(set.results =~= seq![TypeV::Own(u.resource)]);
}

/// The `utxo` that is found under a name is the resource of that name in the instance that
/// is exported under it, with all that the instance exports. It has storage where the
/// instance has an item of that name, which has to be a record.
pub proof fn utxos_are_found_by_their_resource(
    catalog: &Catalog,
    name: &str,
    r: Result<UtxoExport, Cause>,
)
    requires
        call_ensures(Catalog::get_utxo, (catalog, name), r),
    ensures
        ({
            let item = lookup(catalog.ty@.exports, name@);
            let items = item->0->Instance_0;
            let resource = lookup(items, "utxo"@);
            let storage = lookup(items, "storage"@);
            match r {
                Ok(u) => {
                    &&& item is Some && item->0 is Instance
                    &&& lookup(catalog.own@.exports, name@) is Some
                    &&& resource == Some(ItemV::Resource(u@.resource))
                    &&& u@.items == items
                    &&& u@.instance == name@
                    &&& storage is None <==> u@.storage is None
                    &&& u@.storage matches Some(s) ==> s.instance == name@ && storage == Some(
                        ItemV::Type(TypeV::Record(s.fields)),
                    )
                },
                Err(c) => {
                    &&& item is None ==> c == Cause::ExportNotFound
                    &&& item is Some && !(item->0 is Instance) ==> c == Cause::NotAnInstance
                    &&& item is Some && item->0 is Instance ==> {
                        let inside = lookup(catalog.own@.exports, name@);
                        let found = inside->0->Instance_0;
                        if inside is None {
                            c == Cause::ExportNotFound
                        } else if !(resource matches Some(ItemV::Resource(_))) {
                            c == Cause::NoUtxoResource
                        } else if !(storage matches Some(ItemV::Type(TypeV::Record(_)))) {
                            storage is Some && c == Cause::StorageNotARecord
                        } else {
                            let fields = storage->0->Type_0->Record_0;
                            let id = resource->0->Resource_0;
                            let get = if inside->0 is Instance {
                                lookup(found, "get-storage"@)
                            } else {
                                None
                            };
                            let set = if inside->0 is Instance {
                                lookup(found, "set-storage"@)
                            } else {
                                None
                            };
                            match get_fault(get, id, fields) {
                                Some(fault) => c == fault,
                                None => set_fault(set, id, fields) == Some(c),
                            }
                        }
                    }
                },
            }
        }),
{
    let item = lookup(catalog.ty@.exports, name@);
    let items = item->0->Instance_0;
    let inside = lookup(catalog.own@.exports, name@);
    if r is Err && item is Some && item->0 is Instance && inside is Some {
        let get = lookup(instance_items(catalog.own@.exports, name@), "get-storage"@);
        let set = lookup(instance_items(catalog.own@.exports, name@), "set-storage"@);
        if !(inside->0 is Instance) {
            assert(instance_items(catalog.own@.exports, name@).len() == 0);
            assert(get is None && set is None);
        }
    }
}

/// Whether an item reads storage: it is a function of the borrowed resource alone, and
/// returns the record alone.
pub open spec fn reads_storage(
    get: Option<ItemV>,
    resource: ResourceType,
    fields: Seq<(Seq<char>, TypeV)>,
) -> bool {
    get matches Some(ItemV::Func(f)) && f.params.len() == 1 && f.params[0].1 == TypeV::Borrow(
        resource,
    ) && f.results.len() == 1 && f.results[0] == TypeV::Record(fields)
}

/// Whether an item makes a resource of storage: it is a function of the record alone, and
/// returns the owned resource alone.
pub open spec fn writes_storage(
    set: Option<ItemV>,
    resource: ResourceType,
    fields: Seq<(Seq<char>, TypeV)>,
) -> bool {
    set matches Some(ItemV::Func(f)) && f.params.len() == 1 && f.params[0].1 == TypeV::Record(
        fields,
    ) && f.results.len() == 1 && f.results[0] == TypeV::Own(resource)
}

/// What is wrong with the functions of a storage: they are missing, are no functions, or
/// their parameters or results are not of the resource and the record; what is told is the
/// first of these.
pub proof fn storage_functions_are_checked_in_order(
    item: Option<ItemV>,
    resource: ResourceType,
    fields: Seq<(Seq<char>, TypeV)>,
)
    ensures
        get_fault(item, resource, fields) is None <==> reads_storage(item, resource, fields),
        set_fault(item, resource, fields) is None <==> writes_storage(item, resource, fields),
        item is None ==> get_fault(item, resource, fields) == Some(Cause::GetNotFound)
            && set_fault(item, resource, fields) == Some(Cause::SetNotFound),
        item is Some && !(item->0 is Func) ==> get_fault(item, resource, fields) == Some(
            Cause::GetNotAFunction,
        ) && set_fault(item, resource, fields) == Some(Cause::SetNotAFunction),
        item matches Some(ItemV::Func(f)) ==> {
            let borrows = f.params.len() == 1 && f.params[0].1 is Borrow;
            let takes = f.params.len() == 1 && f.params[0].1 is Record;
            let gives = f.results.len() == 1 && f.results[0] is Record;
            let owns = f.results.len() == 1 && f.results[0] is Own;
            let get = get_fault(item, resource, fields);
            let set = set_fault(item, resource, fields);
            &&& get == Some(Cause::GetParams) <==> !borrows
            &&& get == Some(Cause::GetResource) <==> borrows && f.params[0].1->Borrow_0 != resource
            &&& get == Some(Cause::GetResults) <==> borrows && f.params[0].1->Borrow_0 == resource
                && !gives
            &&& get == Some(Cause::GetRecord) <==> borrows && f.params[0].1->Borrow_0 == resource
                && gives && f.results[0]->Record_0 != fields
            &&& set == Some(Cause::SetParams) <==> !takes
            &&& set == Some(Cause::SetRecord) <==> takes && f.params[0].1->Record_0 != fields
            &&& set == Some(Cause::SetResults) <==> takes && f.params[0].1->Record_0 == fields
                && !owns
            &&& set == Some(Cause::SetResource) <==> takes && f.params[0].1->Record_0 == fields
                && owns && f.results[0]->Own_0 != resource
        },
{
}

/// A constructor is a function of the `utxo`'s instance that returns the owned resource
/// alone, a method one whose first parameter is the borrowed resource. What is found is the
/// function of that name, with its type.
pub proof fn functions_are_found_by_their_shape(
    own: Seq<(Seq<char>, ItemV)>,
    utxo: UtxoV,
    name: Seq<char>,
)
    ensures
        ({
            let item = lookup(utxo.items, name);
            let f = item->0->Func_0;
            let inside = lookup(instance_items(own, utxo.instance), name) is Some;
            let export = FuncExportV { ty: f, instance: utxo.instance, name };
            let constructor = function_named(Role::Constructor, own, utxo, name);
            let method = function_named(Role::Method, own, utxo, name);
            &&& item is None ==> constructor == Err::<FuncExportV, Cause>(Cause::ExportNotFound)
                && method == Err::<FuncExportV, Cause>(Cause::ExportNotFound)
            &&& item is Some && !(item->0 is Func) ==> constructor == Err::<FuncExportV, Cause>(
                Cause::NotAFunction,
            ) && method == Err::<FuncExportV, Cause>(Cause::NotAFunction)
            &&& item is Some && item->0 is Func && !inside ==> constructor == Err::<
                FuncExportV,
                Cause,
            >(Cause::ExportNotFound) && method == Err::<FuncExportV, Cause>(Cause::ExportNotFound)
            &&& item is Some && item->0 is Func && inside ==> {
                &&& f.results.len() == 1 && f.results[0] == TypeV::Own(utxo.resource)
                    ==> constructor == Ok::<FuncExportV, Cause>(export)
                &&& f.results.len() == 1 && f.results[0] is Own && f.results[0] != TypeV::Own(
                    utxo.resource,
                ) ==> constructor == Err::<FuncExportV, Cause>(Cause::ReturnMismatch)
                &&& !(f.results.len() == 1 && f.results[0] is Own) ==> constructor == Err::<
                    FuncExportV,
                    Cause,
                >(Cause::NoSingleResource)
                &&& f.params.len() > 0 && f.params[0].1 == TypeV::Borrow(utxo.resource) ==> method
                    == Ok::<FuncExportV, Cause>(export)
                &&& f.params.len() > 0 && f.params[0].1 is Borrow && f.params[0].1
                    != TypeV::Borrow(utxo.resource) ==> method == Err::<FuncExportV, Cause>(
                    Cause::ResourceMismatch,
                )
                &&& !(f.params.len() > 0 && f.params[0].1 is Borrow) ==> method == Err::<
                    FuncExportV,
                    Cause,
                >(Cause::NoBorrow)
            }
        }),
{
}

/// Constructors are the functions whose names begin with `[static]`, methods those whose
/// names begin with `[method]`; they are listed in the order of the exports.
pub proof fn functions_are_listed_by_their_prefix(
    own: Seq<(Seq<char>, ItemV)>,
    utxo: UtxoV,
    n: nat,
)
    requires
        n < utxo.items.len(),
    ensures
        ({
            let name = utxo.items[n as int].0;
            let f = utxo.items[n as int].1->Func_0;
            let is_func = utxo.items[n as int].1 is Func;
            let is_static = name.len() >= 8 && name.take(8) == seq![
                '[',
                's',
                't',
                'a',
                't',
                'i',
                'c',
                ']',
            ];
            let is_method = name.len() >= 8 && name.take(8) == seq![
                '[',
                'm',
                'e',
                't',
                'h',
                'o',
                'd',
                ']',
            ];
            &&& function_list(Role::Constructor, own, utxo, 0).len() == 0
            &&& function_list(Role::Method, own, utxo, 0).len() == 0
            &&& function_list(Role::Constructor, own, utxo, n + 1) == if is_func && is_static {
                function_list(Role::Constructor, own, utxo, n).push(
                    (name, constructor_of(own, utxo, name, f)),
                )
            } else {
                function_list(Role::Constructor, own, utxo, n)
            }
            &&& function_list(Role::Method, own, utxo, n + 1) == if is_func && is_method {
                function_list(Role::Method, own, utxo, n).push(
                    (name, method_of(own, utxo, name, f)),
                )
            } else {
                function_list(Role::Method, own, utxo, n)
            }
        }),
{
    reveal_strlit("[static]");
    reveal_strlit("[method]");
    assert("[static]"@ =~= seq!['[', 's', 't', 'a', 't', 'i', 'c', ']']);
    assert("[method]"@ =~= seq!['[', 'm', 'e', 't', 'h', 'o', 'd', ']']);
}

/// The instances of a contract are listed in the order of its exports, each with what it is
/// as a `utxo`; other exports are passed over.
pub proof fn instances_are_listed_in_order(
    own: Seq<(Seq<char>, ItemV)>,
    exports: Seq<(Seq<char>, ItemV)>,
    n: nat,
)
    requires
        n < exports.len(),
    ensures
        utxo_list(own, exports, 0).len() == 0,
        utxo_list(own, exports, n + 1) == match exports[n as int].1 {
            ItemV::Instance(items) => utxo_list(own, exports, n).push(
                (exports[n as int].0, utxo_of(own, exports[n as int].0, items)),
            ),
            _ => utxo_list(own, exports, n),
        },
{
}

/// What was found somewhere belongs only there; what was found in a catalog alone belongs
/// wherever its name is found.
pub proof fn places_are_kept_apart(
    place: Option<ComponentExportIndex>,
    here: Option<ComponentExportIndex>,
    r: bool,
)
    requires
        call_ensures(is_at_home, (place, here), r),
    ensures
        place is None ==> r,
        place is Some ==> (r <==> here == place),
{
}

/// The items of an instance are those of the first export of its name, where that is one.
pub proof fn instances_are_found_by_their_names(own: Seq<(Seq<char>, ItemV)>, name: Seq<char>)
    ensures
        lookup(own, name) matches Some(ItemV::Instance(items)) ==> instance_items(own, name)
            == items,
        !(lookup(own, name) matches Some(ItemV::Instance(_))) ==> instance_items(own, name).len()
            == 0,
{
}

/// What is found as a constructor is the function of that name, which returns the resource;
/// what is found as a method is the function of that name, whose first parameter borrows it.
pub proof fn functions_are_found_under_their_names(
    catalog: &Catalog,
    utxo: &UtxoExport,
    name: &str,
    constructor: Result<ConstructorExport, Cause>,
    method: Result<MethodExport, Cause>,
)
    requires
        call_ensures(Catalog::get_utxo_constructor, (catalog, utxo, name), constructor),
        call_ensures(Catalog::get_utxo_method, (catalog, utxo, name), method),
    ensures
        constructor matches Ok(c) ==> {
            &&& c@.name == name@
            &&& c@.instance == utxo@.instance
            &&& lookup(utxo@.items, name@) == Some(ItemV::Func(c@.ty))
            &&& c@.ty.results.len() == 1
            &&& c@.ty.results[0] == TypeV::Own(utxo@.resource)
        },
        method matches Ok(m) ==> {
            &&& m@.name == name@
            &&& m@.instance == utxo@.instance
            &&& lookup(utxo@.items, name@) == Some(ItemV::Func(m@.ty))
            &&& m@.ty.params.len() > 0
            &&& m@.ty.params[0].1 == TypeV::Borrow(utxo@.resource)
        },
        found(constructor) == function_named(
            Role::Constructor,
            catalog.own@.exports,
            utxo@,
            name@,
        ),
        found(method) == function_named(Role::Method, catalog.own@.exports, utxo@, name@),
{
}

proof fn lemma_function_list_complete(
    role: Role,
    own: Seq<(Seq<char>, ItemV)>,
    utxo: UtxoV,
    n: nat,
    i: int,
)
    requires
        n <= utxo.items.len(),
        0 <= i < n,
        utxo.items[i].1 is Func,
        begins(utxo.items[i].0, role_prefix(role)),
    ensures
        exists|k: int|
            0 <= k < function_list(role, own, utxo, n).len() && (#[trigger] function_list(
                role,
                own,
                utxo,
                n,
            )[k]).0 == utxo.items[i].0,
    decreases n,
{
    let before = function_list(role, own, utxo, (n - 1) as nat);
    let now = function_list(role, own, utxo, n);
    if i < n - 1 {
        lemma_function_list_complete(role, own, utxo, (n - 1) as nat, i);
        let k = choose|k: int|
            0 <= k < before.len() && (#[trigger] before[k]).0 == utxo.items[i].0;
        assert(now[k] == before[k]);
    } else {
        assert(now[now.len() - 1].0 == utxo.items[i].0);
    }
}

/// The methods of a `utxo` are listed under names that begin with `[method]`, each as it is
/// found by its name, and every function of such a name is listed; so are its constructors,
/// whose names begin with `[static]`.
pub proof fn functions_are_listed_under_their_names(
    catalog: &Catalog,
    utxo: &UtxoExport,
    constructors: Vec<(String, Result<ConstructorExport, Cause>)>,
    methods: Vec<(String, Result<MethodExport, Cause>)>,
    k: int,
    i: int,
)
    requires
        distinct_names(utxo@.items),
        call_ensures(Catalog::utxo_constructors, (catalog, utxo), constructors),
        call_ensures(Catalog::utxo_methods, (catalog, utxo), methods),
    ensures
        0 <= k < constructors@.len() ==> {
            &&& constructors@[k].0@.len() >= 8 && constructors@[k].0@.take(8) == "[static]"@
            &&& found(constructors@[k].1) == function_named(
                Role::Constructor,
                catalog.own@.exports,
                utxo@,
                constructors@[k].0@,
            )
        },
        0 <= k < methods@.len() ==> {
            &&& methods@[k].0@.len() >= 8 && methods@[k].0@.take(8) == "[method]"@
            &&& found(methods@[k].1) == function_named(
                Role::Method,
                catalog.own@.exports,
                utxo@,
                methods@[k].0@,
            )
        },
        0 <= i < utxo@.items.len() && utxo@.items[i].1 is Func && utxo@.items[i].0.len() >= 8
            && utxo@.items[i].0.take(8) == "[static]"@ ==> exists|j: int|
            0 <= j < constructors@.len() && (#[trigger] constructors@[j]).0@ == utxo@.items[i].0,
        0 <= i < utxo@.items.len() && utxo@.items[i].1 is Func && utxo@.items[i].0.len() >= 8
            && utxo@.items[i].0.take(8) == "[method]"@ ==> exists|j: int|
            0 <= j < methods@.len() && (#[trigger] methods@[j]).0@ == utxo@.items[i].0,
{
    reveal_strlit("[static]");
    reveal_strlit("[method]");
    let own = catalog.own@.exports;
    let n = utxo@.items.len();
    let cs = function_list(Role::Constructor, own, utxo@, n);
    let ms = function_list(Role::Method, own, utxo@, n);
    assert(cs.len() == constructors@.len());
    assert(ms.len() == methods@.len());
    if 0 <= k < cs.len() {
        listed_functions_are_found(Role::Constructor, own, utxo@, n, k);
        assert(cs[k] == listed(constructors@)[k]);
    }
    if 0 <= k < ms.len() {
        listed_functions_are_found(Role::Method, own, utxo@, n, k);
        assert(ms[k] == listed(methods@)[k]);
    }
    if 0 <= i < n && utxo@.items[i].1 is Func && utxo@.items[i].0.len() >= 8 {
        let name = utxo@.items[i].0;
        if name.take(8) == "[static]"@ {
            lemma_function_list_complete(Role::Constructor, own, utxo@, n, i);
            let j = choose|j: int| 0 <= j < cs.len() && (#[trigger] cs[j]).0 == name;
            assert(listed(constructors@)[j].0 == constructors@[j].0@);
        }
        if name.take(8) == "[method]"@ {
            lemma_function_list_complete(Role::Method, own, utxo@, n, i);
            let j = choose|j: int| 0 <= j < ms.len() && (#[trigger] ms[j]).0 == name;
            assert(listed(methods@)[j].0 == methods@[j].0@);
        }
    }
}

} // verus!
