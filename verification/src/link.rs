//! Linking what a contract imports.
//!
//! A contract may import the `starstream:std` interfaces, which the host provides,
//! and instances of ABI events, each of whose functions is linked to a shim that
//! hands the event to the store's [`EventHandler`]. Anything else is refused.

use vstd::prelude::*;
use wasmtime::component::Val as WasmVal;
use wasmtime::Engine;

use crate::builtin;
use crate::cardano;
use crate::cause::Cause;
use crate::error::{RunError, Step};
use crate::linker::{
    define_block_height, define_current_slot, define_event, define_implements_method,
    has_function, has_instance, linker_instance, new_linker, with_function,
    AbiLinker, ImportLinker, InstanceV, Shim,
};
use crate::text::{begins, starts_with};
use crate::types::{find_item, item_view, items_view, lookup, ComponentType, FuncType, Item, ItemV};

verus! {

/// Receives ABI events as the guest emits them: the interface and the name of the
/// event, and its positional arguments.
pub trait EventHandler {
    fn emit_event(&mut self, instance: &str, name: &str, params: &[WasmVal]);
}

/// Why an item of an ABI instance cannot be linked.
pub open spec fn abi_fault(item: ItemV) -> Option<Cause> {
    match item {
        ItemV::Func(_) => None,
        ItemV::Type(_) => None,
        ItemV::CoreFunc => Some(Cause::AbiCoreFunc),
        ItemV::Module => Some(Cause::AbiModule),
        ItemV::Component => Some(Cause::AbiComponent),
        ItemV::Instance(_) => Some(Cause::AbiInstance),
        ItemV::Resource(_) => Some(Cause::AbiResource),
    }
}

/// The events among the first `n` of `items`, or the first fault among them.
pub open spec fn events_among(items: Seq<(Seq<char>, ItemV)>, n: nat) -> Result<
    Seq<Seq<char>>,
    Cause,
>
    decreases n,
{
    if n == 0 {
        Ok(Seq::empty())
    } else {
        match events_among(items, (n - 1) as nat) {
            Err(c) => Err(c),
            Ok(before) => match abi_fault(items[n - 1].1) {
                Some(c) => Err(c),
                None => if items[n - 1].1 is Func {
                    Ok(before.push(items[n - 1].0))
                } else {
                    Ok(before)
                },
            },
        }
    }
}

/// The events of an imported instance. One that owns a `utxo` is another contract,
/// driven by a coordination script, and is refused.
pub open spec fn instance_events(items: Seq<(Seq<char>, ItemV)>) -> Result<Seq<Seq<char>>, Cause> {
    if lookup(items, "utxo"@) is Some {
        Err(Cause::CoordinationScript)
    } else {
        events_among(items, items.len())
    }
}

/// The events before the first fault among the first `n` of `items`.
pub open spec fn events_before_fault(items: Seq<(Seq<char>, ItemV)>, n: nat) -> Seq<Seq<char>>
    decreases n,
{
    match events_among(items, n) {
        Ok(events) => events,
        Err(_) => if n == 0 {
            Seq::empty()
        } else {
            events_before_fault(items, (n - 1) as nat)
        },
    }
}

/// The events of an imported instance that come before its first fault.
pub open spec fn linkable_events(items: Seq<(Seq<char>, ItemV)>) -> Seq<Seq<char>> {
    if lookup(items, "utxo"@) is Some {
        Seq::empty()
    } else {
        events_before_fault(items, items.len())
    }
}

/// Whether an import is one that the host provides itself.
pub open spec fn is_builtin(name: Seq<char>) -> bool {
    begins(name, "starstream:std/"@)
}

/// What to link for the first `n` of `imports`: each instance that is not built in,
/// and its events. Or the first fault among them.
pub open spec fn import_plan(imports: Seq<(Seq<char>, ItemV)>, n: nat) -> Result<
    Seq<(Seq<char>, Seq<Seq<char>>)>,
    Cause,
>
    decreases n,
{
    if n == 0 {
        Ok(Seq::empty())
    } else {
        let name = imports[n - 1].0;
        match import_plan(imports, (n - 1) as nat) {
            Err(c) => Err(c),
            Ok(before) => if is_builtin(name) {
                Ok(before)
            } else {
                match imports[n - 1].1 {
                    ItemV::Func(_) => Err(Cause::RootFunc),
                    ItemV::CoreFunc => Err(Cause::RootCoreFunc),
                    ItemV::Module => Err(Cause::RootModule),
                    ItemV::Component => Err(Cause::RootComponent),
                    ItemV::Instance(items) => match instance_events(items) {
                        Err(c) => Err(c),
                        Ok(events) => Ok(before.push((name, events))),
                    },
                    ItemV::Type(_) => Ok(before),
                    ItemV::Resource(_) => Err(Cause::RootResource),
                }
            },
        }
    }
}

/// What to link for those of the first `n` of `imports` that come before the first
/// fault among them.
pub open spec fn plan_before_fault(imports: Seq<(Seq<char>, ItemV)>, n: nat) -> Seq<
    (Seq<char>, Seq<Seq<char>>),
>
    decreases n,
{
    match import_plan(imports, n) {
        Ok(plan) => plan,
        Err(_) => if n == 0 {
            Seq::empty()
        } else {
            plan_before_fault(imports, (n - 1) as nat)
        },
    }
}

proof fn lemma_events_stop(items: Seq<(Seq<char>, ItemV)>, i: nat, n: nat)
    requires
        i <= n,
        events_among(items, i) is Err,
    ensures
        events_among(items, n) == events_among(items, i),
        events_before_fault(items, n) == events_before_fault(items, i),
    decreases n,
{
    if i < n {
        lemma_events_stop(items, i, (n - 1) as nat);
    }
}

proof fn lemma_plan_stops(imports: Seq<(Seq<char>, ItemV)>, i: nat, n: nat)
    requires
        i <= n,
        import_plan(imports, i) is Err,
    ensures
        import_plan(imports, n) == import_plan(imports, i),
        plan_before_fault(imports, n) == plan_before_fault(imports, i),
        unfinished(imports, n) == unfinished(imports, i),
    decreases n,
{
    if i < n {
        lemma_plan_stops(imports, i, (n - 1) as nat);
    }
}

/// Where imports can be linked, each of them is built in, is a type, or is an
/// instance of events: it holds functions and types alone, and no `utxo`.
pub proof fn planned_imports_are_events(imports: Seq<(Seq<char>, ItemV)>, n: nat, i: int)
    requires
        n <= imports.len(),
        import_plan(imports, n) is Ok,
        0 <= i < n,
    ensures
        is_builtin(imports[i].0) || imports[i].1 is Type || (imports[i].1 matches ItemV::Instance(
            items,
        ) && instance_events(items) is Ok),
    decreases n,
{
    if i < n - 1 {
        planned_imports_are_events(imports, (n - 1) as nat, i);
    }
}

/// An instance of events holds functions and types alone.
pub proof fn event_instances_are_plain(items: Seq<(Seq<char>, ItemV)>, n: nat, i: int)
    requires
        n <= items.len(),
        events_among(items, n) is Ok,
        0 <= i < n,
    ensures
        items[i].1 is Func || items[i].1 is Type,
    decreases n,
{
    if i < n - 1 {
        event_instances_are_plain(items, (n - 1) as nat, i);
    }
}

impl<T: 'static> ImportLinker<T> {
    /// A linker in which nothing is defined.
    pub fn new(engine: &Engine) -> (r: Self)
        ensures
            r.contents() == Seq::<InstanceV>::empty(),
    {
        new_linker(engine)
    }

    /// A new instance of that name in the linker, in which nothing is defined.
    pub fn instance<'a>(&'a mut self, name: &str) -> (r: Result<AbiLinker<'a, T>, RunError>)
        ensures
            r is Ok <==> !has_instance(old(self).contents(), name@),
            match r {
                Ok(i) => {
                    &&& i.keeps_record()
                    &&& (*i.contents)@ == old(self).contents().push(
                        (InstanceV { name: name@, functions: Seq::empty() }),
                    )
                    &&& (*final(i.contents)).owner() == (*i.contents).owner()
                        ==> final(self).contents() == (*final(i.contents))@
                },
                Err(e) => final(self).contents() == old(self).contents() && (e
                    matches RunError::Import(n, _) && n@ == name@),
            },
    {
        match linker_instance(self, name) {
            Ok(instance) => Ok(instance),
            Err(e) => Err(RunError::Import(name.to_owned(), e)),
        }
    }
}

/// Links one event function of an ABI instance: a call of it goes to the store's
/// [`EventHandler`].
pub fn link_abi_event_function<T: EventHandler + 'static>(
    linker: &mut AbiLinker<T>,
    _ty: &FuncType,
    instance: &str,
    name: &str,
) -> (r: Result<(), RunError>)
    requires
        old(linker).keeps_record(),
    ensures
        r is Ok <==> !has_function(old(linker).functions(), name@),
        final(linker).keeps_record(),
        (*final(linker).contents).owner() == (*old(linker).contents).owner(),
        *final(final(linker).contents) == *final(old(linker).contents),
        match r {
            Ok(_) => (*final(linker).contents)@ == with_function(
                (*old(linker).contents)@,
                name@,
                Shim::Event { interface: instance@, event: name@ },
            ),
            Err(e) => (*final(linker).contents)@ == (*old(linker).contents)@ && (e
                matches RunError::Engine(step, _) && step == Step::LinkEvent),
        },
{
    match define_event(linker, instance, name) {
        Ok(_) => Ok(()),
        Err(e) => Err(RunError::Engine(Step::LinkEvent, e)),
    }
}

/// The event functions of one interface.
pub open spec fn event_functions(interface: Seq<char>, events: Seq<Seq<char>>) -> Seq<
    (Seq<char>, Shim),
> {
    Seq::new(
        events.len(),
        |i: int| (events[i], Shim::Event { interface, event: events[i] }),
    )
}

/// The instance that holds the events of one interface, under its name.
pub open spec fn event_instance(interface: Seq<char>, events: Seq<Seq<char>>) -> InstanceV {
    InstanceV { name: interface, functions: event_functions(interface, events) }
}

/// The instances of a plan, and the event functions of each.
pub open spec fn planned_instances(plan: Seq<(Seq<char>, Seq<Seq<char>>)>) -> Seq<InstanceV> {
    Seq::new(plan.len(), |i: int| event_instance(plan[i].0, plan[i].1))
}

/// The interfaces that the host provides, and the functions of each.
pub open spec fn builtins() -> Seq<InstanceV> {
    seq![
        InstanceV {
            name: "starstream:std/builtin"@,
            functions: seq![("implements-method"@, Shim::ImplementsMethod)],
        },
        InstanceV {
            name: "starstream:std/cardano"@,
            functions: seq![
                ("block-height"@, Shim::BlockHeight),
                ("current-slot"@, Shim::CurrentSlot),
            ],
        },
    ]
}

proof fn lemma_builtin_names()
    ensures
        "starstream:std/builtin"@ != "starstream:std/cardano"@,
        "block-height"@ != "current-slot"@,
        is_builtin("starstream:std/builtin"@),
        is_builtin("starstream:std/cardano"@),
{
    reveal_strlit("starstream:std/builtin");
    reveal_strlit("starstream:std/cardano");
    reveal_strlit("block-height");
    reveal_strlit("current-slot");
    reveal_strlit("starstream:std/");
    assert("starstream:std/builtin"@[15] != "starstream:std/cardano"@[15]);
    assert("block-height"@[0] != "current-slot"@[0]);
    assert("starstream:std/builtin"@.take(15) =~= "starstream:std/"@);
    assert("starstream:std/cardano"@.take(15) =~= "starstream:std/"@);
}

/// The interfaces that the host provides have names of their own: no instance of events
/// is linked under one of them.
pub proof fn builtin_names_are_builtin(name: Seq<char>)
    requires
        has_instance(builtins(), name),
    ensures
        is_builtin(name),
{
    lemma_builtin_names();
    let i = choose|i: int| 0 <= i < builtins().len() && (#[trigger] builtins()[i]).name == name;
    assert(i == 0 || i == 1);
}

/// Links the `starstream:std` interfaces to the store's data.
pub fn link_builtins<T: builtin::Host + cardano::Host + 'static>(
    linker: &mut ImportLinker<T>,
) -> (r: Result<(), RunError>)
    ensures
        r is Ok <==> !has_instance(old(linker).contents(), "starstream:std/builtin"@)
            && !has_instance(old(linker).contents(), "starstream:std/cardano"@),
        match r {
            Ok(_) => final(linker).contents() == old(linker).contents() + builtins(),
            Err(e) => (e matches RunError::Engine(step, _) && step == Step::LinkBuiltins)
                && final(linker).contents() == if has_instance(
                old(linker).contents(),
                "starstream:std/builtin"@,
            ) {
                old(linker).contents()
            } else {
                old(linker).contents().push(builtins()[0])
            },
        },
{
    let ghost start = linker.contents();
    proof {
        lemma_builtin_names();
    }
    match linker_instance(linker, "starstream:std/builtin") {
        Ok(mut instance) => {
            if let Err(e) = define_implements_method(&mut instance, "implements-method") {
                return Err(RunError::Engine(Step::LinkBuiltins, e));
            }
            assert((*instance.contents)@ =~= start.push(builtins()[0])) by {
                assert(builtins()[0].functions =~= Seq::<(Seq<char>, Shim)>::empty().push(
                    ("implements-method"@, Shim::ImplementsMethod),
                ));
            }
        },
        Err(e) => {
            return Err(RunError::Engine(Step::LinkBuiltins, e));
        },
    }
    let ghost one = linker.contents();
    assert(one == start.push(builtins()[0]));
    assert(has_instance(one, "starstream:std/cardano"@) == has_instance(
        start,
        "starstream:std/cardano"@,
    )) by {
        if has_instance(start, "starstream:std/cardano"@) {
            let i = choose|i: int|
                0 <= i < start.len() && (#[trigger] start[i]).name == "starstream:std/cardano"@;
            assert(one[i] == start[i]);
        }
    }
    match linker_instance(linker, "starstream:std/cardano") {
        Ok(mut instance) => {
            if let Err(e) = define_block_height(&mut instance, "block-height") {
                return Err(RunError::Engine(Step::LinkBuiltins, e));
            }
            if let Err(e) = define_current_slot(&mut instance, "current-slot") {
                return Err(RunError::Engine(Step::LinkBuiltins, e));
            }
            assert((*instance.contents)@ =~= start + builtins()) by {
                assert(builtins()[1].functions =~= Seq::<(Seq<char>, Shim)>::empty().push(
                    ("block-height"@, Shim::BlockHeight),
                ).push(("current-slot"@, Shim::CurrentSlot)));
            }
        },
        Err(e) => {
            return Err(RunError::Engine(Step::LinkBuiltins, e));
        },
    }
    Ok(())
}

/// Whether one of the first `n` of `items` is a function of that name.
pub open spec fn names_event(items: Seq<(Seq<char>, ItemV)>, name: Seq<char>, n: nat) -> bool {
    exists|i: int| 0 <= i < n && (#[trigger] items[i]).1 is Func && items[i].0 == name
}

/// Whether none of the functions among the first `n` of `items` has a name that is among
/// `functions`, and no two of them have one name.
pub open spec fn free_events(
    items: Seq<(Seq<char>, ItemV)>,
    functions: Seq<(Seq<char>, Shim)>,
    n: nat,
) -> bool {
    &&& forall|i: int|
        0 <= i < n && (#[trigger] items[i]).1 is Func ==> !has_function(functions, items[i].0)
    &&& forall|i: int, j: int|
        0 <= i < j < n && (#[trigger] items[i]).1 is Func && (#[trigger] items[j]).1 is Func
            ==> items[i].0 != items[j].0
}

/// The instances, of which the last has more functions.
pub open spec fn with_functions(
    instances: Seq<InstanceV>,
    more: Seq<(Seq<char>, Shim)>,
) -> Seq<InstanceV> {
    instances.drop_last().push(
        InstanceV {
            name: instances.last().name,
            functions: instances.last().functions + more,
        },
    )
}

/// What an event among the first `n` of `items` is named, once it is among the functions.
proof fn lemma_functions_grow(
    items: Seq<(Seq<char>, ItemV)>,
    before: Seq<(Seq<char>, Shim)>,
    interface: Seq<char>,
    events: Seq<Seq<char>>,
    n: nat,
    name: Seq<char>,
)
    requires
        n <= items.len(),
        events_among(items, n) == Ok::<Seq<Seq<char>>, Cause>(events),
    ensures
        has_function(before + event_functions(interface, events), name) <==> has_function(
            before,
            name,
        ) || names_event(items, name, n),
    decreases n,
{
    let all = before + event_functions(interface, events);
    if n == 0 {
        assert(all =~= before);
    } else {
        let fewer = events_among(items, (n - 1) as nat)->Ok_0;
        let most = before + event_functions(interface, fewer);
        lemma_functions_grow(items, before, interface, fewer, (n - 1) as nat, name);
        let last = items[n - 1];
        if last.1 is Func {
            assert(all =~= most.push(
                (last.0, Shim::Event { interface, event: last.0 }),
            ));
            if has_function(most, name) {
                let i = choose|i: int| 0 <= i < most.len() && (#[trigger] most[i]).0 == name;
                assert(all[i] == most[i]);
            }
            if last.0 == name {
                assert(all[most.len() as int].0 == name);
            }
            if has_function(all, name) && last.0 != name {
                let i = choose|i: int| 0 <= i < all.len() && (#[trigger] all[i]).0 == name;
                assert(most[i] == all[i]);
            }
        }
    }
}

/// Links every event of an imported instance, in order, up to the first fault. Nothing is
/// linked of one that owns a `utxo`.
pub fn link_instance<T: EventHandler + 'static>(
    linker: &mut AbiLinker<T>,
    ty: &Vec<(String, Item)>,
    instance: &str,
) -> (r: Result<(), RunError>)
    requires
        old(linker).keeps_record(),
    ensures
        final(linker).keeps_record(),
        (*final(linker).contents).owner() == (*old(linker).contents).owner(),
        *final(final(linker).contents) == *final(old(linker).contents),
        lookup(items_view(ty@), "utxo"@) is Some ==> *final(linker) == *old(linker),
        r is Ok <==> instance_events(items_view(ty@)) is Ok && free_events(
            items_view(ty@),
            old(linker).functions(),
            ty@.len(),
        ),
        match r {
            Ok(_) => (*final(linker).contents)@ == with_functions(
                (*old(linker).contents)@,
                event_functions(instance@, instance_events(items_view(ty@))->Ok_0),
            ),
            Err(RunError::Refused(c)) => instance_events(items_view(ty@)) == Err::<
                Seq<Seq<char>>,
                Cause,
            >(c) && (*final(linker).contents)@ == with_functions(
                (*old(linker).contents)@,
                event_functions(instance@, linkable_events(items_view(ty@))),
            ),
            Err(RunError::Engine(step, _)) => step == Step::LinkEvent && lookup(
                items_view(ty@),
                "utxo"@,
            ) is None && !free_events(items_view(ty@), old(linker).functions(), ty@.len()) && (
            *final(linker).contents)@.drop_last() == (*old(linker).contents)@.drop_last(),
            Err(_) => false,
        },
{
    let ghost items = items_view(ty@);
    let ghost start = (*linker.contents)@;
    let ghost mut done = Seq::<Seq<char>>::empty();
    proof {
        assert(start.last().functions + event_functions(instance@, done)
            =~= start.last().functions);
        assert(with_functions(start, event_functions(instance@, done)) =~= start);
    }
    if find_item(ty, "utxo").is_some() {
        return Err(RunError::Refused(Cause::CoordinationScript));
    }
    let mut i: usize = 0;
    while i < ty.len()
        invariant
            0 <= i <= ty@.len(),
            items == items_view(ty@),
            lookup(items, "utxo"@) is None,
            events_among(items, i as nat) == Ok::<Seq<Seq<char>>, Cause>(done),
            start == (*old(linker).contents)@,
            start.len() > 0,
            linker.keeps_record(),
            (*linker.contents).owner() == (*old(linker).contents).owner(),
            *final(linker.contents) == *final(old(linker).contents),
            (*linker.contents)@ == with_functions(start, event_functions(instance@, done)),
            free_events(items, start.last().functions, i as nat),
        decreases ty@.len() - i,
    {
        assert(items[i as int] == (ty@[i as int].0@, ty@[i as int].1@));
        let fault: Option<Cause> = match &ty[i].1 {
            Item::Func(f) => {
                let ghost name = items[i as int].0;
                proof {
                    lemma_functions_grow(
                        items,
                        start.last().functions,
                        instance@,
                        done,
                        i as nat,
                        name,
                    );
                }
                if let Err(e) = link_abi_event_function(linker, f, instance, ty[i].0.as_str()) {
                    assert(!free_events(items, start.last().functions, items.len()));
                    return Err(e);
                }
                proof {
                    let now = done.push(name);
                    assert(event_functions(instance@, now) =~= event_functions(
                        instance@,
                        done,
                    ).push((name, Shim::Event { interface: instance@, event: name })));
                    assert((*linker.contents)@ =~= with_functions(
                        start,
                        event_functions(instance@, now),
                    )) by {
                        let before = start.last().functions;
                        assert((before + event_functions(instance@, done)).push(
                            (name, Shim::Event { interface: instance@, event: name }),
                        ) =~= before + event_functions(instance@, now));
                    }
                    done = now;
                }
                None
            },
            Item::CoreFunc => Some(Cause::AbiCoreFunc),
            Item::Module => Some(Cause::AbiModule),
            Item::Component => Some(Cause::AbiComponent),
            Item::Instance(_) => Some(Cause::AbiInstance),
            Item::Type(_) => None,
            Item::Resource(_) => Some(Cause::AbiResource),
        };
        if let Some(c) = fault {
            proof {
                lemma_events_stop(items, (i + 1) as nat, items.len());
                assert(events_before_fault(items, i as nat) == done);
            }
            return Err(RunError::Refused(c));
        }
        i += 1;
    }
    Ok(())
}

/// Whether an import is given an instance of its own in the linker.
pub open spec fn takes_instance(import: (Seq<char>, ItemV)) -> bool {
    !is_builtin(import.0) && import.1 is Instance
}

/// Whether one of the first `n` of `imports` is given an instance of that name.
pub open spec fn names_instance(
    imports: Seq<(Seq<char>, ItemV)>,
    name: Seq<char>,
    n: nat,
) -> bool {
    exists|i: int| 0 <= i < n && takes_instance(#[trigger] imports[i]) && imports[i].0 == name
}

/// Whether each instance that the first `n` of `imports` are given has a name that is not
/// among `instances`, no two of them have one name, and no two functions inside one have
/// one name.
pub open spec fn free_imports(
    imports: Seq<(Seq<char>, ItemV)>,
    instances: Seq<InstanceV>,
    n: nat,
) -> bool {
    &&& forall|i: int|
        0 <= i < n && takes_instance(#[trigger] imports[i]) ==> !has_instance(
            instances,
            imports[i].0,
        ) && free_events(
            imports[i].1->Instance_0,
            Seq::empty(),
            imports[i].1->Instance_0.len(),
        )
    &&& forall|i: int, j: int|
        0 <= i < j < n && takes_instance(#[trigger] imports[i]) && takes_instance(
            #[trigger] imports[j],
        ) ==> imports[i].0 != imports[j].0
}

/// Whether every import is provided by the host or is a type.
pub open spec fn needs_no_instance(imports: Seq<(Seq<char>, ItemV)>) -> bool {
    forall|i: int|
        0 <= i < imports.len() ==> is_builtin((#[trigger] imports[i]).0) || imports[i].1 is Type
}

/// The instance that is left unfinished by the first fault among the first `n` of
/// `imports`: where the fault lies inside an instance, that instance with the events that
/// come before it.
pub open spec fn unfinished(imports: Seq<(Seq<char>, ItemV)>, n: nat) -> Seq<InstanceV>
    decreases n,
{
    if n == 0 || import_plan(imports, n) is Ok {
        Seq::empty()
    } else if import_plan(imports, (n - 1) as nat) is Err {
        unfinished(imports, (n - 1) as nat)
    } else {
        match imports[n - 1].1 {
            ItemV::Instance(items) => seq![
                event_instance(imports[n - 1].0, linkable_events(items)),
            ],
            _ => Seq::empty(),
        }
    }
}

/// The instances of a plan have the names of the imports that are given one.
proof fn lemma_instances_grow(
    imports: Seq<(Seq<char>, ItemV)>,
    before: Seq<InstanceV>,
    plan: Seq<(Seq<char>, Seq<Seq<char>>)>,
    n: nat,
    name: Seq<char>,
)
    requires
        n <= imports.len(),
        import_plan(imports, n) == Ok::<Seq<(Seq<char>, Seq<Seq<char>>)>, Cause>(plan),
    ensures
        has_instance(before + planned_instances(plan), name) <==> has_instance(before, name)
            || names_instance(imports, name, n),
    decreases n,
{
    let all = before + planned_instances(plan);
    if n == 0 {
        assert(all =~= before);
    } else {
        let fewer = import_plan(imports, (n - 1) as nat)->Ok_0;
        let most = before + planned_instances(fewer);
        lemma_instances_grow(imports, before, fewer, (n - 1) as nat, name);
        let last = imports[n - 1];
        if takes_instance(last) {
            let events = instance_events(last.1->Instance_0)->Ok_0;
            assert(all =~= most.push(event_instance(last.0, events)));
            if has_instance(most, name) {
                let i = choose|i: int| 0 <= i < most.len() && (#[trigger] most[i]).name == name;
                assert(all[i] == most[i]);
            }
            if last.0 == name {
                assert(all[most.len() as int].name == name);
            }
            if has_instance(all, name) && last.0 != name {
                let i = choose|i: int| 0 <= i < all.len() && (#[trigger] all[i]).name == name;
                assert(most[i] == all[i]);
            }
        }
    }
}

/// Links every instance that a component imports, but for the built-in ones, in order,
/// up to the first fault.
pub fn link_dynamic_imports<T: EventHandler + 'static>(
    linker: &mut ImportLinker<T>,
    ty: &ComponentType,
) -> (r: Result<(), RunError>)
    ensures
        r is Ok <==> import_plan(ty@.imports, ty@.imports.len()) is Ok && free_imports(
            ty@.imports,
            old(linker).contents(),
            ty@.imports.len(),
        ),
        match r {
            Ok(_) => final(linker).contents() == old(linker).contents() + planned_instances(
                import_plan(ty@.imports, ty@.imports.len())->Ok_0,
            ),
            Err(RunError::Refused(c)) => import_plan(ty@.imports, ty@.imports.len()) == Err::<
                Seq<(Seq<char>, Seq<Seq<char>>)>,
                Cause,
            >(c) && final(linker).contents() == old(linker).contents() + planned_instances(
                plan_before_fault(ty@.imports, ty@.imports.len()),
            ) + unfinished(ty@.imports, ty@.imports.len()),
            Err(RunError::Engine(step, _)) => step == Step::LinkEvent && !free_imports(
                ty@.imports,
                old(linker).contents(),
                ty@.imports.len(),
            ) && old(linker).contents().is_prefix_of(final(linker).contents()),
            Err(RunError::Import(_, _)) => !free_imports(
                ty@.imports,
                old(linker).contents(),
                ty@.imports.len(),
            ) && old(linker).contents().is_prefix_of(final(linker).contents()),
            Err(RunError::Componentize(_, _)) => false,
        },
        needs_no_instance(ty@.imports) ==> r is Ok && *final(linker) == *old(linker),
{
    let ghost imports = ty@.imports;
    let ghost start = linker.contents();
    let mut i: usize = 0;
    let ghost mut done = Seq::<(Seq<char>, Seq<Seq<char>>)>::empty();
    assert(start + planned_instances(done) =~= start);
    while i < ty.imports.len()
        invariant
            0 <= i <= ty.imports@.len(),
            imports == ty@.imports,
            import_plan(imports, i as nat) == Ok::<Seq<(Seq<char>, Seq<Seq<char>>)>, Cause>(done),
            start == old(linker).contents(),
            linker.contents() == start + planned_instances(done),
            free_imports(imports, start, i as nat),
            needs_no_instance(imports) ==> *linker == *old(linker),
        decreases ty.imports@.len() - i,
    {
        let name: &str = ty.imports[i].0.as_str();
        assert(imports[i as int] == (ty.imports@[i as int].0@, ty.imports@[i as int].1@));
        if !starts_with(name, "starstream:std/") {
            let fault: Option<Cause> = match &ty.imports[i].1 {
                Item::Func(_) => Some(Cause::RootFunc),
                Item::CoreFunc => Some(Cause::RootCoreFunc),
                Item::Module => Some(Cause::RootModule),
                Item::Component => Some(Cause::RootComponent),
                Item::Instance(items) => {
                    let ghost here = linker.contents();
                    proof {
                        assert(item_view(Item::Instance(*items))->Instance_0 =~= items_view(
                            items@,
                        ));
                        assert(takes_instance(imports[i as int]));
                        lemma_instances_grow(imports, start, done, i as nat, name@);
                    }
                    let mut instance = match linker.instance(name) {
                        Ok(instance) => instance,
                        Err(e) => {
                            assert(!free_imports(imports, start, imports.len()));
                            return Err(e);
                        },
                    };
                    let ghost opened = (*instance.contents)@;
                    let linked = link_instance(&mut instance, items, name);
                    let ghost made = (*instance.contents)@;
                    proof {
                        assert(opened.drop_last() =~= here);
                        assert(opened.last().functions =~= Seq::<(Seq<char>, Shim)>::empty());
                        assert(start.is_prefix_of(here));
                    }
                    match linked {
                        Ok(_) => {
                            proof {
                                let events = instance_events(items_view(items@))->Ok_0;
                                let now = done.push((name@, events));
                                assert(Seq::<(Seq<char>, Shim)>::empty() + event_functions(
                                    name@,
                                    events,
                                ) =~= event_functions(name@, events));
                                assert(made =~= here.push(event_instance(name@, events)));
                                assert(start + planned_instances(now) =~= here.push(
                                    event_instance(name@, events),
                                ));
                                done = now;
                            }
                            None
                        },
                        Err(RunError::Refused(c)) => {
                            proof {
                                let events = linkable_events(items_view(items@));
                                assert(Seq::<(Seq<char>, Shim)>::empty() + event_functions(
                                    name@,
                                    events,
                                ) =~= event_functions(name@, events));
                                assert(made =~= here + seq![event_instance(name@, events)]);
                            }
                            Some(c)
                        },
                        Err(e) => {
                            assert(!free_imports(imports, start, imports.len()));
                            return Err(e);
                        },
                    }
                },
                Item::Type(_) => None,
                Item::Resource(_) => Some(Cause::RootResource),
            };
            if let Some(c) = fault {
                proof {
                    lemma_plan_stops(imports, (i + 1) as nat, imports.len());
                    assert(plan_before_fault(imports, i as nat) == done);
                    assert(start + planned_instances(done) + Seq::<InstanceV>::empty() =~= start
                        + planned_instances(done));
                }
                return Err(RunError::Refused(c));
            }
        }
        i += 1;
    }
    Ok(())
}

proof fn lemma_events_part(a: Seq<(Seq<char>, ItemV)>, b: Seq<(Seq<char>, ItemV)>, n: nat)
    requires
        n <= a.len(),
        n <= b.len(),
        forall|i: int| 0 <= i < n ==> a[i] == b[i],
    ensures
        events_among(a, n) == events_among(b, n),
        events_before_fault(a, n) == events_before_fault(b, n),
    decreases n,
{
    if n > 0 {
        lemma_events_part(a, b, (n - 1) as nat);
    }
}

/// The functions of an imported instance are its events, in order; types are passed over,
/// and anything else is refused. What comes before it is linked.
pub proof fn functions_are_events(
    items: Seq<(Seq<char>, ItemV)>,
    name: Seq<char>,
    item: ItemV,
)
    ensures
        events_among(Seq::empty(), 0) == Ok::<Seq<Seq<char>>, Cause>(Seq::empty()),
        ({
            let before = events_among(items, items.len());
            let now = events_among(items.push((name, item)), items.len() + 1);
            match before {
                Err(c) => now == Err::<Seq<Seq<char>>, Cause>(c),
                Ok(events) => {
                    &&& item is Func ==> now == Ok::<Seq<Seq<char>>, Cause>(events.push(name))
                    &&& item is Type ==> now == Ok::<Seq<Seq<char>>, Cause>(events)
                    &&& item is CoreFunc ==> now == Err::<Seq<Seq<char>>, Cause>(Cause::AbiCoreFunc)
                    &&& item is Module ==> now == Err::<Seq<Seq<char>>, Cause>(Cause::AbiModule)
                    &&& item is Component ==> now == Err::<Seq<Seq<char>>, Cause>(
                        Cause::AbiComponent,
                    )
                    &&& item is Instance ==> now == Err::<Seq<Seq<char>>, Cause>(Cause::AbiInstance)
                    &&& item is Resource ==> now == Err::<Seq<Seq<char>>, Cause>(Cause::AbiResource)
                    &&& now is Err ==> events_before_fault(
                        items.push((name, item)),
                        items.len() + 1,
                    ) == events
                },
            }
        }),
{
    lemma_events_part(items, items.push((name, item)), items.len());
}

proof fn lemma_plan_part(a: Seq<(Seq<char>, ItemV)>, b: Seq<(Seq<char>, ItemV)>, n: nat)
    requires
        n <= a.len(),
        n <= b.len(),
        forall|i: int| 0 <= i < n ==> a[i] == b[i],
    ensures
        import_plan(a, n) == import_plan(b, n),
        plan_before_fault(a, n) == plan_before_fault(b, n),
    decreases n,
{
    if n > 0 {
        lemma_plan_part(a, b, (n - 1) as nat);
    }
}

/// Imports whose names begin with `starstream:std/` are provided, types are passed over, and
/// instances are linked in order, each with its events. An instance with a `utxo` and any
/// other import are refused, and what comes before them is linked.
pub proof fn instances_are_linked_with_their_events(
    imports: Seq<(Seq<char>, ItemV)>,
    name: Seq<char>,
    item: ItemV,
)
    ensures
        import_plan(Seq::empty(), 0) == Ok::<Seq<(Seq<char>, Seq<Seq<char>>)>, Cause>(Seq::empty()),
        ({
            let before = import_plan(imports, imports.len());
            let all = imports.push((name, item));
            let now = import_plan(all, all.len());
            let provided = name.len() >= 15 && name.take(15) == "starstream:std/"@;
            match before {
                Err(c) => now == Err::<Seq<(Seq<char>, Seq<Seq<char>>)>, Cause>(c),
                Ok(plan) => if provided {
                    now == before
                } else {
                    match item {
                        ItemV::Type(_) => now == before,
                        ItemV::Instance(items) => if lookup(items, "utxo"@) is Some {
                            now == Err::<Seq<(Seq<char>, Seq<Seq<char>>)>, Cause>(
                                Cause::CoordinationScript,
                            )
                        } else {
                            match events_among(items, items.len()) {
                                Ok(events) => now == Ok::<Seq<(Seq<char>, Seq<Seq<char>>)>, Cause>(
                                    plan.push((name, events)),
                                ),
                                Err(c) => now == Err::<Seq<(Seq<char>, Seq<Seq<char>>)>, Cause>(c),
                            }
                        },
                        ItemV::Func(_) => now == Err::<Seq<(Seq<char>, Seq<Seq<char>>)>, Cause>(
                            Cause::RootFunc,
                        ),
                        ItemV::CoreFunc => now == Err::<Seq<(Seq<char>, Seq<Seq<char>>)>, Cause>(
                            Cause::RootCoreFunc,
                        ),
                        ItemV::Module => now == Err::<Seq<(Seq<char>, Seq<Seq<char>>)>, Cause>(
                            Cause::RootModule,
                        ),
                        ItemV::Component => now == Err::<Seq<(Seq<char>, Seq<Seq<char>>)>, Cause>(
                            Cause::RootComponent,
                        ),
                        ItemV::Resource(_) => now == Err::<Seq<(Seq<char>, Seq<Seq<char>>)>, Cause>(
                            Cause::RootResource,
                        ),
                    }
                },
            }
        }),
        import_plan(imports, imports.len()) is Ok && import_plan(
            imports.push((name, item)),
            imports.len() + 1,
        ) is Err ==> plan_before_fault(imports.push((name, item)), imports.len() + 1)
            == import_plan(imports, imports.len())->Ok_0,
{
    lemma_plan_part(imports, imports.push((name, item)), imports.len());
    reveal_strlit("starstream:std/");
}

/// A planned instance stands in the linker under its full name. Each of its functions hands
/// the event of its own name, and of that interface, to the store's data.
pub proof fn planned_instances_hand_on_their_events(
    plan: Seq<(Seq<char>, Seq<Seq<char>>)>,
    i: int,
    k: int,
)
    requires
        0 <= i < plan.len(),
        0 <= k < plan[i].1.len(),
    ensures
        planned_instances(plan).len() == plan.len(),
        planned_instances(plan)[i].name == plan[i].0,
        planned_instances(plan)[i].functions.len() == plan[i].1.len(),
        planned_instances(plan)[i].functions[k].0 == plan[i].1[k],
        planned_instances(plan)[i].functions[k].1 == (Shim::Event {
            interface: plan[i].0,
            event: plan[i].1[k],
        }),
{
}

/// What the host provides: a guest declares a method by `implements-method`, and asks for
/// the chain by `block-height` and `current-slot`.
pub proof fn hosts_provide_three_functions()
    ensures
        builtins().len() == 2,
        builtins()[0].name == "starstream:std/builtin"@,
        builtins()[0].functions.len() == 1,
        builtins()[0].functions[0] == ("implements-method"@, Shim::ImplementsMethod),
        builtins()[1].name == "starstream:std/cardano"@,
        builtins()[1].functions.len() == 2,
        builtins()[1].functions[0] == ("block-height"@, Shim::BlockHeight),
        builtins()[1].functions[1] == ("current-slot"@, Shim::CurrentSlot),
{
}

/// Where linking stops inside an instance, that instance stands in the linker with the
/// events that come before the fault; one that owns a `utxo` stands there without any.
pub proof fn unfinished_instances_have_the_events_before_the_fault(
    imports: Seq<(Seq<char>, ItemV)>,
    name: Seq<char>,
    item: ItemV,
)
    requires
        import_plan(imports, imports.len()) is Ok,
    ensures
        ({
            let all = imports.push((name, item));
            let left = unfinished(all, all.len());
            if import_plan(all, all.len()) is Ok {
                left.len() == 0
            } else {
                match item {
                    ItemV::Instance(items) => left.len() == 1 && left[0].name == name && (if lookup(
                        items,
                        "utxo"@,
                    ) is Some {
                        left[0].functions.len() == 0
                    } else {
                        let events = events_before_fault(items, items.len());
                        left[0].functions.len() == events.len() && forall|i: int|
                            0 <= i < events.len() ==> #[trigger] left[0].functions[i] == (
                                events[i],
                                Shim::Event { interface: name, event: events[i] },
                            )
                    }),
                    _ => left.len() == 0,
                }
            }
        }),
{
    lemma_plan_part(imports, imports.push((name, item)), imports.len());
}

/// What is linked for a component is what its imports ask for, behind what stood in the
/// linker before: first what the host provides, and the instances of its events.
pub proof fn linkers_gain_what_is_asked_for<
    T: EventHandler + builtin::Host + cardano::Host + 'static,
>(ty: &ComponentType)
    ensures
        forall|linker: &mut ImportLinker<T>| #[trigger]
            call_ensures(
                link_dynamic_imports::<T>,
                (linker, ty),
                Ok::<(), RunError>(()),
            ) ==> {
                &&& import_plan(ty@.imports, ty@.imports.len()) is Ok
                &&& (*final(linker)).contents() == (*linker).contents() + planned_instances(
                    import_plan(ty@.imports, ty@.imports.len())->Ok_0,
                )
            },
        forall|linker: &mut ImportLinker<T>| #[trigger]
            call_ensures(link_builtins::<T>, (linker,), Ok::<(), RunError>(()))
                ==> (*final(linker)).contents() == (*linker).contents() + builtins(),
{
}

} // verus!
