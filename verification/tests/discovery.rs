//! Finding `utxo` resources among what a component exports.

use starstream_run::cause::Cause;
use starstream_run::discovery::{Catalog, UtxoExport};
use starstream_run::serve::{select_utxo, SelectError};
use starstream_run::types::{ComponentType, FuncType, Item, Type};
use wasmtime::component::ResourceType;

struct Mine;
struct Other;

fn mine() -> ResourceType {
    ResourceType::host::<Mine>()
}

fn other() -> ResourceType {
    ResourceType::host::<Other>()
}

fn text(s: &str) -> String {
    s.to_string()
}

fn record() -> Type {
    Type::Record(vec![(text("chips"), Type::U64)])
}

fn func(params: Vec<Type>, results: Vec<Type>) -> Item {
    let params = params.into_iter().enumerate().map(|(i, ty)| (format!("p{i}"), ty)).collect();
    Item::Func(FuncType { params, results, is_async: false })
}

fn get() -> Item {
    func(vec![Type::Borrow(mine())], vec![record()])
}

fn set() -> Item {
    func(vec![record()], vec![Type::Own(mine())])
}

fn new() -> Item {
    func(vec![], vec![Type::Own(mine())])
}

fn plus() -> Item {
    func(vec![Type::Borrow(mine()), Type::U64], vec![])
}

fn items(items: Vec<(&str, Item)>) -> Vec<(String, Item)> {
    items.into_iter().map(|(name, item)| (text(name), item)).collect()
}

/// A catalog of a component that exports `exports`.
fn catalog(exports: Vec<(&str, Item)>) -> Catalog {
    let exports = items(exports);
    Catalog {
        own: ComponentType { imports: vec![], exports: exports.clone() },
        ty: ComponentType { imports: vec![], exports },
    }
}

/// What the instance `i` with these exports is as a `utxo`.
fn utxo(exports: Vec<(&str, Item)>) -> Result<UtxoExport, Cause> {
    catalog(vec![("i", Item::Instance(items(exports)))]).get_utxo("i")
}

/// What is wrong with an instance that has this `get-storage` and this `set-storage`.
fn storage_fault(get: Option<Item>, set: Option<Item>) -> Option<Cause> {
    let mut exports =
        vec![("utxo", Item::Resource(mine())), ("storage", Item::Type(record()))];
    if let Some(get) = get {
        exports.push(("get-storage", get));
    }
    if let Some(set) = set {
        exports.push(("set-storage", set));
    }
    utxo(exports).err()
}

/// An instance that exports a `utxo`, and nothing else.
fn bare() -> Item {
    Item::Instance(items(vec![("utxo", Item::Resource(mine()))]))
}

#[test]
fn utxos_are_found_by_name() {
    let c = catalog(vec![("i", bare()), ("f", new())]);
    assert!(c.get_utxo("i").is_ok());
    assert_eq!(c.get_utxo("j").err(), Some(Cause::ExportNotFound));
    assert_eq!(c.get_utxo("f").err(), Some(Cause::NotAnInstance));
    assert_eq!(utxo(vec![]).err(), Some(Cause::NoUtxoResource));
    assert_eq!(utxo(vec![("utxo", new())]).err(), Some(Cause::NoUtxoResource));

    // What the engine substitutes must also be exported by the component itself.
    let mut c = catalog(vec![("i", bare())]);
    c.own.exports.clear();
    assert_eq!(c.get_utxo("i").err(), Some(Cause::ExportNotFound));
}

#[test]
fn every_instance_is_listed() {
    let c = catalog(vec![
        ("f", new()),
        ("i", bare()),
        ("j", Item::Instance(vec![])),
        ("m", Item::Module),
    ]);
    let list: Vec<_> = c.utxos().into_iter().map(|(name, u)| (name, u.err())).collect();
    assert_eq!(list, vec![(text("i"), None), (text("j"), Some(Cause::NoUtxoResource))]);
    // What is listed is what is found by its name.
    for (name, listed) in c.utxos() {
        assert_eq!(c.get_utxo(&name).err(), listed.err());
    }
}

#[test]
fn storage_is_optional() {
    let u = utxo(vec![("utxo", Item::Resource(mine()))]).expect("no `utxo`");
    assert!(u.storage().is_none());
    let u = utxo(vec![
        ("utxo", Item::Resource(mine())),
        ("storage", Item::Type(record())),
        ("get-storage", get()),
        ("set-storage", set()),
    ])
    .expect("no `utxo`");
    let storage = u.storage().expect("no storage");
    assert_eq!(*storage.ty(), vec![(text("chips"), Type::U64)]);
    assert_eq!(storage.instance(), "i");
}

#[test]
fn storage_must_be_a_record() {
    for item in [Item::Type(Type::U8), new(), Item::Resource(mine())] {
        assert_eq!(
            utxo(vec![("utxo", Item::Resource(mine())), ("storage", item)]).err(),
            Some(Cause::StorageNotARecord)
        );
    }
}

#[test]
fn storage_can_be_read() {
    let with = |get: Item| storage_fault(Some(get), Some(set()));
    assert_eq!(storage_fault(None, Some(set())), Some(Cause::GetNotFound));
    assert_eq!(with(Item::Type(Type::U8)), Some(Cause::GetNotAFunction));
    assert_eq!(with(func(vec![], vec![record()])), Some(Cause::GetParams));
    assert_eq!(with(func(vec![Type::Own(mine())], vec![record()])), Some(Cause::GetParams));
    assert_eq!(
        with(func(vec![Type::Borrow(mine()), Type::U8], vec![record()])),
        Some(Cause::GetParams)
    );
    assert_eq!(with(func(vec![Type::Borrow(other())], vec![record()])), Some(Cause::GetResource));
    assert_eq!(with(func(vec![Type::Borrow(mine())], vec![])), Some(Cause::GetResults));
    assert_eq!(with(func(vec![Type::Borrow(mine())], vec![Type::U8])), Some(Cause::GetResults));
    assert_eq!(
        with(func(vec![Type::Borrow(mine())], vec![Type::Record(vec![])])),
        Some(Cause::GetRecord)
    );
    assert_eq!(with(get()), None);
}

#[test]
fn storage_can_be_written() {
    let with = |set: Item| storage_fault(Some(get()), Some(set));
    assert_eq!(storage_fault(Some(get()), None), Some(Cause::SetNotFound));
    assert_eq!(with(Item::Resource(mine())), Some(Cause::SetNotAFunction));
    assert_eq!(with(func(vec![Type::U8], vec![Type::Own(mine())])), Some(Cause::SetParams));
    assert_eq!(
        with(func(vec![record(), record()], vec![Type::Own(mine())])),
        Some(Cause::SetParams)
    );
    assert_eq!(
        with(func(vec![Type::Record(vec![])], vec![Type::Own(mine())])),
        Some(Cause::SetRecord)
    );
    assert_eq!(with(func(vec![record()], vec![])), Some(Cause::SetResults));
    assert_eq!(with(func(vec![record()], vec![Type::Borrow(mine())])), Some(Cause::SetResults));
    assert_eq!(with(func(vec![record()], vec![Type::Own(other())])), Some(Cause::SetResource));
    assert_eq!(with(set()), None);
}

#[test]
fn constructors_return_the_resource() {
    let c = catalog(vec![(
        "i",
        Item::Instance(items(vec![
            ("utxo", Item::Resource(mine())),
            ("[static]utxo.new", new()),
            ("[static]utxo.none", func(vec![], vec![])),
            ("[static]utxo.other", func(vec![Type::U8], vec![Type::Own(other())])),
            ("plain", new()),
            ("[method]utxo.plus", plus()),
        ])),
    )]);
    let u = c.get_utxo("i").expect("no `utxo`");
    let new = c.get_utxo_constructor(&u, "[static]utxo.new").expect("no constructor");
    assert_eq!(new.name(), "[static]utxo.new");
    assert_eq!(new.instance(), "i");
    assert_eq!(new.ty().results, vec![Type::Own(mine())]);
    assert!(c.get_utxo_constructor(&u, "plain").is_ok());
    assert_eq!(
        c.get_utxo_constructor(&u, "[static]utxo.none").err(),
        Some(Cause::NoSingleResource)
    );
    assert_eq!(
        c.get_utxo_constructor(&u, "[static]utxo.other").err(),
        Some(Cause::ReturnMismatch)
    );
    assert_eq!(c.get_utxo_constructor(&u, "utxo").err(), Some(Cause::NotAFunction));
    assert_eq!(c.get_utxo_constructor(&u, "old").err(), Some(Cause::ExportNotFound));
    let list: Vec<_> =
        c.utxo_constructors(&u).into_iter().map(|(name, f)| (name, f.err())).collect();
    assert_eq!(
        list,
        vec![
            (text("[static]utxo.new"), None),
            (text("[static]utxo.none"), Some(Cause::NoSingleResource)),
            (text("[static]utxo.other"), Some(Cause::ReturnMismatch)),
        ]
    );
}

#[test]
fn methods_borrow_the_resource() {
    let c = catalog(vec![(
        "i",
        Item::Instance(items(vec![
            ("utxo", Item::Resource(mine())),
            ("[method]utxo.plus", plus()),
            ("[method]utxo.free", func(vec![], vec![])),
            ("[method]utxo.taken", func(vec![Type::Own(mine())], vec![])),
            ("[method]utxo.other", func(vec![Type::Borrow(other())], vec![])),
            ("[static]utxo.new", new()),
        ])),
    )]);
    let u = c.get_utxo("i").expect("no `utxo`");
    let list: Vec<_> = c.utxo_methods(&u).into_iter().map(|(name, f)| (name, f.err())).collect();
    assert_eq!(
        list,
        vec![
            (text("[method]utxo.plus"), None),
            (text("[method]utxo.free"), Some(Cause::NoBorrow)),
            (text("[method]utxo.taken"), Some(Cause::NoBorrow)),
            (text("[method]utxo.other"), Some(Cause::ResourceMismatch)),
        ]
    );
    // What is listed is what is found by its name.
    for (name, listed) in c.utxo_methods(&u) {
        assert_eq!(c.get_utxo_method(&u, &name).err(), listed.err());
    }
    assert_eq!(c.get_utxo_method(&u, "utxo").err(), Some(Cause::NotAFunction));
    assert_eq!(c.get_utxo_method(&u, "missing").err(), Some(Cause::ExportNotFound));
}

#[test]
fn the_only_utxo_is_selected() {
    let selected = |c: &Catalog, asked: Option<&str>| {
        select_utxo(c, asked.map(|s| s.to_string())).map(|(name, _)| name)
    };
    let none = catalog(vec![("j", Item::Instance(vec![]))]);
    let one = catalog(vec![("i", bare()), ("j", Item::Instance(vec![]))]);
    let two = catalog(vec![("i", bare()), ("k", bare())]);
    // An instance that owns no `utxo` does not stand in the way.
    assert_eq!(selected(&one, None), Ok(text("i")));
    let broken = Item::Instance(items(vec![
        ("utxo", Item::Resource(mine())),
        ("storage", Item::Type(Type::U8)),
    ]));
    assert_eq!(
        selected(&catalog(vec![("i", broken)]), None),
        Err(SelectError::Refused(Cause::StorageNotARecord))
    );
    assert_eq!(selected(&two, Some("k")), Ok(text("k")));
    assert_eq!(selected(&none, None), Err(SelectError::NothingExported));
    assert_eq!(
        selected(&two, None),
        Err(SelectError::Ambiguous(vec![text("i"), text("k")]))
    );
    assert_eq!(
        selected(&one, Some("j")),
        Err(SelectError::Refused(Cause::NoUtxoResource))
    );
    assert_eq!(
        selected(&one, Some("z")),
        Err(SelectError::Refused(Cause::ExportNotFound))
    );
}
