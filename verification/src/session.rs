//! The handles that a page holds, and what becomes of its requests.
//!
//! A [`Session`] gives each minted UTXO a number. What a request asks of the guest is
//! decided here; whoever drives the guest carries it out.

use std::collections::HashMap;

use vstd::prelude::*;

use crate::cause::Cause;
use crate::discovery::{
    function_named, utxo_named, Catalog, ConstructorExport, FuncExportV, MethodExport, Role,
    UtxoExport, UtxoStorageExport, UtxoV,
};
use crate::json::{
    arguments, arguments_go_to_their_parameters, convert_args,
    converted_values_have_the_kind_of_their_type, handle_id, handle_number, json_to_record,
    json_views, lowering, Json, JsonError, JsonErrorV, JsonV,
};
use crate::text::{begins, starts_with};
use crate::types::{ItemV, TypeV};
use crate::value::{value_view, views, Value, ValueV};

verus! {

broadcast use vstd::std_specs::hash::group_hash_axioms;

/// A minted UTXO and the export that it came from.
pub struct Handle<U> {
    pub export: UtxoExport,
    pub utxo: U,
}

/// The handles in use, by their numbers. Each number is below the next to be given.
#[verifier::reject_recursive_types(U)]
pub struct Session<U> {
    handles: HashMap<u32, Handle<U>>,
    next_id: u32,
}

/// Why a request was refused.
#[derive(Debug, PartialEq, Eq)]
pub enum RequestError<'a> {
    Refused(Cause),
    NoHandle,
    UnknownHandle,
    NoStorage,
    Json(JsonError<'a>),
}

/// The view of a [`RequestError`].
pub enum RequestErrorV {
    Refused(Cause),
    NoHandle,
    UnknownHandle,
    NoStorage,
    Json(JsonErrorV),
}

impl<'a> View for RequestError<'a> {
    type V = RequestErrorV;

    open spec fn view(&self) -> RequestErrorV {
        match self {
            RequestError::Refused(c) => RequestErrorV::Refused(*c),
            RequestError::NoHandle => RequestErrorV::NoHandle,
            RequestError::UnknownHandle => RequestErrorV::UnknownHandle,
            RequestError::NoStorage => RequestErrorV::NoStorage,
            RequestError::Json(e) => RequestErrorV::Json(e@),
        }
    }
}

/// What a call asks of the guest.
#[derive(Debug)]
pub enum CallPlan {
    /// To mint a UTXO with a constructor, and give it a handle.
    Construct { utxo: UtxoExport, export: ConstructorExport, params: Vec<Value> },
    /// To call a method of a handle, with its resource in front of these.
    Method { id: u32, export: MethodExport, params: Vec<Value> },
}

/// The view of a [`CallPlan`].
pub enum CallPlanV {
    Construct { utxo: UtxoV, export: FuncExportV, params: Seq<ValueV> },
    Method { id: u32, export: FuncExportV, params: Seq<ValueV> },
}

impl View for CallPlan {
    type V = CallPlanV;

    open spec fn view(&self) -> CallPlanV {
        match self {
            CallPlan::Construct { utxo, export, params } => CallPlanV::Construct {
                utxo: utxo@,
                export: export@,
                params: views(params@),
            },
            CallPlan::Method { id, export, params } => CallPlanV::Method {
                id: *id,
                export: export@,
                params: views(params@),
            },
        }
    }
}

/// The handles in use and the next number to be given.
#[verifier::ext_equal]
pub struct Table<U> {
    pub held: Map<u32, Handle<U>>,
    pub next: u32,
}

/// What is asked of the handles: to give a minted UTXO a number, to take a handle away,
/// or to put a loaded UTXO in the place of the one that a handle has.
pub enum Request<U> {
    Mint(Handle<U>),
    Drop(u32),
    Replace(u32, U),
}

/// Whether every handle's number was given before the next.
pub open spec fn numbered<U>(t: Table<U>) -> bool {
    forall|id: u32| #[trigger] t.held.contains_key(id) ==> id < t.next
}

/// What a request makes of the handles.
pub open spec fn step<U>(before: Table<U>, request: Request<U>, after: Table<U>) -> bool {
    match request {
        Request::Mint(handle) => before.next < u32::MAX && after.held == before.held.insert(
            before.next,
            handle,
        ) && after.next == before.next + 1,
        Request::Drop(id) => after.held == before.held.remove(id) && after.next == before.next,
        Request::Replace(id, utxo) => after.next == before.next && after.held
            == if before.held.contains_key(id) {
            before.held.insert(id, (Handle { export: before.held[id].export, utxo }))
        } else {
            before.held
        },
    }
}

/// Whether `tables` is what `requests` make of the handles, one after the other.
pub open spec fn history<U>(tables: Seq<Table<U>>, requests: Seq<Request<U>>) -> bool {
    &&& tables.len() == requests.len() + 1
    &&& forall|i: int|
        0 <= i < requests.len() ==> step(tables[i], #[trigger] requests[i], tables[i + 1])
}

proof fn lemma_next_grows<U>(
    tables: Seq<Table<U>>,
    requests: Seq<Request<U>>,
    i: int,
    j: int,
)
    requires
        history(tables, requests),
        0 <= i <= j <= requests.len(),
    ensures
        tables[i].next <= tables[j].next,
    decreases j - i,
{
    if i < j {
        lemma_next_grows(tables, requests, i, j - 1);
        assert(step(tables[j - 1], requests[j - 1], tables[j]));
    }
}

/// A number that was given is never given again, whatever is asked of the handles in
/// between: not even where the handle was dropped.
pub proof fn numbers_are_given_once<U>(
    tables: Seq<Table<U>>,
    requests: Seq<Request<U>>,
    i: int,
    j: int,
)
    requires
        history(tables, requests),
        0 <= i < j < requests.len(),
        requests[i] is Mint,
        requests[j] is Mint,
    ensures
        tables[i].next != tables[j].next,
{
    assert(step(tables[i], requests[i], tables[i + 1]));
    lemma_next_grows(tables, requests, i + 1, j);
}

/// A handle that was dropped stays unknown, whatever is asked of the handles afterwards.
pub proof fn dropped_handles_stay_unknown<U>(
    tables: Seq<Table<U>>,
    requests: Seq<Request<U>>,
    i: int,
    j: int,
    id: u32,
)
    requires
        history(tables, requests),
        0 <= i < j <= requests.len(),
        requests[i] == Request::<U>::Drop(id),
        id < tables[i].next,
    ensures
        !tables[j].held.contains_key(id),
    decreases j,
{
    assert(step(tables[j - 1], requests[j - 1], tables[j]));
    if i < j - 1 {
        dropped_handles_stay_unknown(tables, requests, i, j - 1, id);
        lemma_next_grows(tables, requests, i, j - 1);
    }
}

/// Each handle keeps its UTXO until something is asked of that very handle.
pub proof fn other_handles_are_kept<U>(
    before: Table<U>,
    request: Request<U>,
    after: Table<U>,
    id: u32,
)
    requires
        numbered(before),
        step(before, request, after),
        before.held.contains_key(id),
        request != Request::<U>::Drop(id),
        !(request matches Request::Replace(other, _) && other == id),
    ensures
        after.held.contains_key(id),
        after.held[id] == before.held[id],
{
}

/// What a call asks of the guest: a name with the prefix of a constructor mints a UTXO,
/// any other is a method of the handle that is the first argument.
pub open spec fn call_plan(
    own: Seq<(Seq<char>, ItemV)>,
    exports: Seq<(Seq<char>, ItemV)>,
    known: Set<u32>,
    instance: Seq<char>,
    func: Seq<char>,
    args: Seq<JsonV>,
) -> Result<CallPlanV, RequestErrorV> {
    match utxo_named(own, exports, instance) {
        Err(c) => Err(RequestErrorV::Refused(c)),
        Ok(utxo) => if begins(func, "[static]"@) {
            match function_named(Role::Constructor, own, utxo, func) {
                Err(c) => Err(RequestErrorV::Refused(c)),
                Ok(export) => match arguments(export.ty.params, 0, args) {
                    Err(e) => Err(RequestErrorV::Json(e)),
                    Ok(params) => Ok(CallPlanV::Construct { utxo, export, params }),
                },
            }
        } else {
            match function_named(Role::Method, own, utxo, func) {
                Err(c) => Err(RequestErrorV::Refused(c)),
                Ok(export) => match handle_number(
                    if args.len() > 0 {
                        Some(args[0])
                    } else {
                        None
                    },
                ) {
                    None => Err(RequestErrorV::NoHandle),
                    Some(id) => match arguments(export.ty.params, 1, args.skip(1)) {
                        Err(e) => Err(RequestErrorV::Json(e)),
                        Ok(params) => if known.contains(id) {
                            Ok(CallPlanV::Method { id, export, params })
                        } else {
                            Err(RequestErrorV::UnknownHandle)
                        },
                    },
                },
            }
        },
    }
}

/// The storage record that a resource is to be made from.
pub open spec fn storage_fields(utxo: UtxoV, value: JsonV) -> Result<
    Seq<(Seq<char>, ValueV)>,
    RequestErrorV,
> {
    match utxo.storage {
        None => Err(RequestErrorV::NoStorage),
        Some(storage) => match lowering(TypeV::Record(storage.fields), value) {
            Err(e) => Err(RequestErrorV::Json(e)),
            Ok(v) => Ok(v->Record_0),
        },
    }
}

/// The view of the fields of a record.
pub open spec fn fields_view(fields: Vec<(String, Value)>) -> Seq<(Seq<char>, ValueV)> {
    value_view(Value::Record(fields))->Record_0
}

/// The fields of a storage record for `utxo`.
fn fields_for<'a>(utxo: &UtxoExport, value: &'a Json) -> (r: Result<
    Vec<(String, Value)>,
    RequestError<'a>,
>)
    ensures
        match r {
            Ok(fields) => storage_fields(utxo@, value@) == Ok::<
                Seq<(Seq<char>, ValueV)>,
                RequestErrorV,
            >(fields_view(fields)),
            Err(e) => storage_fields(utxo@, value@) == Err::<
                Seq<(Seq<char>, ValueV)>,
                RequestErrorV,
            >(e@),
        },
{
    match utxo.storage() {
        None => Err(RequestError::NoStorage),
        Some(storage) => match json_to_record(storage.ty(), value) {
            Ok(fields) => Ok(fields),
            Err(e) => Err(RequestError::Json(e)),
        },
    }
}

/// What loading a storage record asks of the guest: the export whose `set-storage` is
/// called, and the fields that it is called with.
pub fn plan_load<'a>(catalog: &Catalog, instance: &str, value: &'a Json) -> (r: Result<
    (UtxoExport, Vec<(String, Value)>),
    RequestError<'a>,
>)
    ensures
        match utxo_named(catalog.own@.exports, catalog.ty@.exports, instance@) {
            Err(c) => r matches Err(e) && e@ == RequestErrorV::Refused(c),
            Ok(utxo) => match storage_fields(utxo, value@) {
                Err(f) => r matches Err(e) && e@ == f,
                Ok(fields) => r matches Ok((u, v)) && u@ == utxo && fields_view(v) == fields,
            },
        },
{
    match catalog.get_utxo(instance) {
        Err(c) => Err(RequestError::Refused(c)),
        Ok(utxo) => match fields_for(&utxo, value) {
            Ok(fields) => Ok((utxo, fields)),
            Err(e) => Err(e),
        },
    }
}

impl<U> Session<U> {
    /// The handles in use.
    pub closed spec fn held(&self) -> Map<u32, Handle<U>> {
        self.handles@
    }

    /// The next number to be given.
    pub closed spec fn next(&self) -> u32 {
        self.next_id
    }

    /// Whether every handle's number was given before the next.
    #[verifier::type_invariant]
    spec fn well_formed(self) -> bool {
        forall|id: u32| #[trigger] self.handles@.dom().contains(id) ==> id < self.next_id
    }

    /// The handles in use and the next number to be given.
    pub open spec fn table(&self) -> Table<U> {
        Table { held: self.held(), next: self.next() }
    }

    /// A session without handles.
    pub fn new() -> (r: Self)
        ensures
            r.held() == Map::<u32, Handle<U>>::empty(),
            r.next() == 0,
            numbered(r.table()),
    {
        Session { handles: HashMap::new(), next_id: 0 }
    }

    /// Whether another handle can be given.
    pub fn has_room(&self) -> (r: bool)
        ensures
            r == (self.next() < u32::MAX),
            numbered(self.table()),
    {
        proof {
            use_type_invariant(self);
        }
        self.next_id < 0xffff_ffff
    }

    /// Gives a minted UTXO a number that none had before.
    pub fn insert(&mut self, handle: Handle<U>) -> (id: u32)
        requires
            old(self).next() < u32::MAX,
        ensures
            id == old(self).next(),
            !old(self).held().contains_key(id),
            final(self).held() == old(self).held().insert(id, handle),
            final(self).next() == id + 1,
            numbered(final(self).table()),
            step(old(self).table(), Request::Mint(handle), final(self).table()),
    {
        proof {
            use_type_invariant(&*self);
        }
        let id: u32 = self.next_id;
        let ghost before = self.handles@;
        let mut handles: HashMap<u32, Handle<U>> = HashMap::new();
        std::mem::swap(&mut self.handles, &mut handles);
        self.next_id = id + 1;
        handles.insert(id, handle);
        assert(forall|k: u32| #[trigger] handles@.dom().contains(k) ==> k < id + 1);
        std::mem::swap(&mut self.handles, &mut handles);
        id
    }

    /// Gives a UTXO a number, where one was minted. Where none was, nothing changes, and
    /// the number is given to the next.
    pub fn mint<E>(&mut self, export: UtxoExport, minted: Result<U, E>) -> (r: Result<u32, E>)
        requires
            minted is Ok ==> old(self).next() < u32::MAX,
        ensures
            numbered(final(self).table()),
            match minted {
                Ok(utxo) => {
                    &&& r == Ok::<u32, E>(old(self).next())
                    &&& !old(self).held().contains_key(old(self).next())
                    &&& step(
                        old(self).table(),
                        Request::Mint((Handle { export, utxo })),
                        final(self).table(),
                    )
                },
                Err(e) => r == Err::<u32, E>(e) && *final(self) == *old(self),
            },
    {
        proof {
            use_type_invariant(&*self);
        }
        match minted {
            Ok(utxo) => Ok(self.insert(Handle { export, utxo })),
            Err(e) => Err(e),
        }
    }

    /// The handle of that number.
    pub fn get(&self, id: u32) -> (r: Option<&Handle<U>>)
        ensures
            match r {
                Some(h) => self.held().contains_key(id) && *h == self.held()[id],
                None => !self.held().contains_key(id),
            },
    {
        self.handles.get(&id)
    }

    /// Takes the handle of that number away.
    pub fn remove(&mut self, id: u32) -> (r: Option<Handle<U>>)
        ensures
            match r {
                Some(h) => old(self).held().contains_key(id) && h == old(self).held()[id],
                None => !old(self).held().contains_key(id),
            },
            final(self).held() == old(self).held().remove(id),
            final(self).next() == old(self).next(),
            numbered(final(self).table()),
            step(old(self).table(), Request::Drop(id), final(self).table()),
    {
        proof {
            use_type_invariant(&*self);
        }
        let mut handles: HashMap<u32, Handle<U>> = HashMap::new();
        std::mem::swap(&mut self.handles, &mut handles);
        let r = handles.remove(&id);
        std::mem::swap(&mut self.handles, &mut handles);
        assert(self.held() =~= old(self).held().remove(id));
        r
    }

    /// Puts a freshly loaded UTXO in the place of the one that a handle had. The handle
    /// keeps its number and its export.
    pub fn replace(&mut self, id: u32, utxo: U) -> (r: Result<U, U>)
        ensures
            final(self).next() == old(self).next(),
            match r {
                Ok(was) => {
                    &&& old(self).held().contains_key(id)
                    &&& was == old(self).held()[id].utxo
                    &&& final(self).held() == old(self).held().insert(
                        id,
                        (Handle { export: old(self).held()[id].export, utxo }),
                    )
                },
                Err(u) => {
                    &&& !old(self).held().contains_key(id)
                    &&& u == utxo
                    &&& final(self).held() == old(self).held()
                },
            },
            numbered(final(self).table()),
            step(old(self).table(), Request::Replace(id, utxo), final(self).table()),
    {
        proof {
            use_type_invariant(&*self);
        }
        let mut handles: HashMap<u32, Handle<U>> = HashMap::new();
        std::mem::swap(&mut self.handles, &mut handles);
        let r = match handles.remove(&id) {
            Some(handle) => {
                handles.insert(id, Handle { export: handle.export, utxo });
                Ok(handle.utxo)
            },
            None => Err(utxo),
        };
        std::mem::swap(&mut self.handles, &mut handles);
        assert(r is Ok ==> self.held() =~= old(self).held().insert(
            id,
            (Handle { export: old(self).held()[id].export, utxo }),
        ));
        assert(r is Err ==> self.held() =~= old(self).held());
        r
    }

    /// What a call asks of the guest.
    pub fn plan_call<'a>(
        &self,
        catalog: &Catalog,
        instance: &str,
        func: &str,
        args: &'a Vec<Json>,
    ) -> (r: Result<CallPlan, RequestError<'a>>)
        ensures
            match r {
                Ok(plan) => call_plan(
                    catalog.own@.exports,
                    catalog.ty@.exports,
                    self.held().dom(),
                    instance@,
                    func@,
                    json_views(args@),
                ) == Ok::<CallPlanV, RequestErrorV>(plan@),
                Err(e) => call_plan(
                    catalog.own@.exports,
                    catalog.ty@.exports,
                    self.held().dom(),
                    instance@,
                    func@,
                    json_views(args@),
                ) == Err::<CallPlanV, RequestErrorV>(e@),
            },
    {
        let utxo = match catalog.get_utxo(instance) {
            Ok(utxo) => utxo,
            Err(c) => {
                return Err(RequestError::Refused(c));
            },
        };
        if starts_with(func, "[static]") {
            let export = match catalog.get_utxo_constructor(&utxo, func) {
                Ok(export) => export,
                Err(c) => {
                    return Err(RequestError::Refused(c));
                },
            };
            assert(json_views(args@).skip(0) =~= json_views(args@));
            return match convert_args(export.ty(), 0, args, 0) {
                Ok(params) => Ok(CallPlan::Construct { utxo, export, params }),
                Err(e) => Err(RequestError::Json(e)),
            };
        }
        let export = match catalog.get_utxo_method(&utxo, func) {
            Ok(export) => export,
            Err(c) => {
                return Err(RequestError::Refused(c));
            },
        };
        let first: Option<&Json> = if args.len() > 0 {
            Some(&args[0])
        } else {
            None
        };
        let id: u32 = match handle_id(first) {
            Some(id) => id,
            None => {
                return Err(RequestError::NoHandle);
            },
        };
        match convert_args(export.ty(), 1, args, 1) {
            Ok(params) => if self.handles.contains_key(&id) {
                Ok(CallPlan::Method { id, export, params })
            } else {
                Err(RequestError::UnknownHandle)
            },
            Err(e) => Err(RequestError::Json(e)),
        }
    }

    /// The storage of a handle, to be read.
    pub fn plan_storage_get(&self, id: u32) -> (r: Result<&UtxoStorageExport, RequestError<'_>>)
        ensures
            if !self.held().contains_key(id) {
                r matches Err(e) && e@ == RequestErrorV::UnknownHandle
            } else {
                match self.held()[id].export@.storage {
                    Some(storage) => r matches Ok(s) && s@ == storage,
                    None => r matches Err(e) && e@ == RequestErrorV::NoStorage,
                }
            },
    {
        match self.handles.get(&id) {
            Some(handle) => match handle.export.storage() {
                Some(storage) => Ok(storage),
                None => Err(RequestError::NoStorage),
            },
            None => Err(RequestError::UnknownHandle),
        }
    }

    /// The fields that a handle's storage is to be set to: a fresh UTXO is loaded from
    /// them, and takes the place of the one that the handle has.
    pub fn plan_storage_set<'a>(&self, id: u32, value: &'a Json) -> (r: Result<
        Vec<(String, Value)>,
        RequestError<'a>,
    >)
        ensures
            if !self.held().contains_key(id) {
                r matches Err(e) && e@ == RequestErrorV::UnknownHandle
            } else {
                match storage_fields(self.held()[id].export@, value@) {
                    Ok(fields) => r matches Ok(v) && fields_view(v) == fields,
                    Err(f) => r matches Err(e) && e@ == f,
                }
            },
    {
        match self.handles.get(&id) {
            Some(handle) => fields_for(&handle.export, value),
            None => Err(RequestError::UnknownHandle),
        }
    }
}

/// A call of a constructor mints a UTXO, of the resource that its instance owns and with
/// every argument of the page by the parameter at its place. Any other call is of a method:
/// its first argument is the handle, and each of the others goes to the parameter at its
/// own place.
pub proof fn calls_are_planned_by_their_names<U>(
    session: &Session<U>,
    catalog: &Catalog,
    instance: &str,
    func: &str,
    args: &Vec<Json>,
    plan: CallPlan,
)
    requires
        call_ensures(
            Session::<U>::plan_call,
            (session, catalog, instance, func, args),
            Ok::<CallPlan, RequestError>(plan),
        ),
    ensures
        ({
            let own = catalog.own@.exports;
            let utxo = utxo_named(own, catalog.ty@.exports, instance@);
            let minting = func@.len() >= 8 && func@.take(8) == seq![
                '[',
                's',
                't',
                'a',
                't',
                'i',
                'c',
                ']',
            ];
            &&& utxo is Ok
            &&& match plan@ {
                CallPlanV::Construct { utxo: u, export, params } => {
                    &&& minting
                    &&& u == utxo->Ok_0
                    &&& function_named(Role::Constructor, own, u, func@) == Ok::<
                        FuncExportV,
                        Cause,
                    >(export)
                    &&& params.len() == export.ty.params.len() == args@.len()
                    &&& forall|i: int|
                        0 <= i < params.len() ==> lowering(export.ty.params[i].1, args@[i]@)
                            == Ok::<ValueV, JsonErrorV>(#[trigger] params[i])
                },
                CallPlanV::Method { id, export, params } => {
                    &&& !minting
                    &&& function_named(Role::Method, own, utxo->Ok_0, func@) == Ok::<
                        FuncExportV,
                        Cause,
                    >(export)
                    &&& args@.len() > 0 && handle_number(Some(args@[0]@)) == Some(id)
                    &&& session.held().contains_key(id)
                    &&& params.len() == args@.len() - 1
                    &&& params.len() == if export.ty.params.len() > 0 {
                        export.ty.params.len() - 1
                    } else {
                        0
                    }
                    &&& forall|i: int|
                        0 <= i < params.len() ==> lowering(
                            export.ty.params[i + 1].1,
                            args@[i + 1]@,
                        ) == Ok::<ValueV, JsonErrorV>(#[trigger] params[i])
                },
            }
        }),
{
    reveal_strlit("[static]");
    assert("[static]"@ =~= seq!['[', 's', 't', 'a', 't', 'i', 'c', ']']);
    let all = json_views(args@);
    match plan@ {
        CallPlanV::Construct { utxo, export, params } => {
            lemma_arguments(export.ty.params, 0, all);
            assert forall|i: int| 0 <= i < params.len() implies lowering(
                export.ty.params[i].1,
                args@[i]@,
            ) == Ok::<ValueV, JsonErrorV>(#[trigger] params[i]) by {
                assert(all[i] == args@[i]@);
            }
        },
        CallPlanV::Method { id, export, params } => {
            lemma_arguments(export.ty.params, 1, all.skip(1));
            assert forall|i: int| 0 <= i < params.len() implies lowering(
                export.ty.params[i + 1].1,
                args@[i + 1]@,
            ) == Ok::<ValueV, JsonErrorV>(#[trigger] params[i]) by {
                assert(all.skip(1)[i] == args@[i + 1]@);
            }
        },
    }
}

/// Why a call is refused: the first of these that holds. There is no such `utxo` or no such
/// function; a method is called without a handle; the arguments are not those of the
/// function; the handle is unknown.
pub proof fn calls_are_refused_in_order<U>(
    session: &Session<U>,
    catalog: &Catalog,
    instance: &str,
    func: &str,
    args: &Vec<Json>,
    r: Result<CallPlan, RequestError>,
)
    requires
        call_ensures(Session::<U>::plan_call, (session, catalog, instance, func, args), r),
    ensures
        ({
            let own = catalog.own@.exports;
            let utxo = utxo_named(own, catalog.ty@.exports, instance@);
            let minting = func@.len() >= 8 && func@.take(8) == "[static]"@;
            let role = if minting {
                Role::Constructor
            } else {
                Role::Method
            };
            let export = function_named(role, own, utxo->Ok_0, func@);
            let handle = if args@.len() > 0 {
                handle_number(Some(args@[0]@))
            } else {
                None
            };
            &&& utxo matches Err(c) ==> (r matches Err(e) && e@ == RequestErrorV::Refused(c))
            &&& utxo is Ok && export is Err ==> (r matches Err(e) && e@ == RequestErrorV::Refused(
                export->Err_0,
            ))
            &&& utxo is Ok && export is Ok && !minting && handle is None ==> (r matches Err(e)
                && e@ == RequestErrorV::NoHandle)
            &&& utxo is Ok && export is Ok && !minting && handle is Some ==> match arguments(
                export->Ok_0.ty.params,
                1,
                json_views(args@).skip(1),
            ) {
                Err(f) => r matches Err(e) && e@ == RequestErrorV::Json(f),
                Ok(_) => if session.held().contains_key(handle->0) {
                    r is Ok
                } else {
                    r matches Err(e) && e@ == RequestErrorV::UnknownHandle
                },
            }
            &&& utxo is Ok && export is Ok && minting ==> match arguments(
                export->Ok_0.ty.params,
                0,
                json_views(args@),
            ) {
                Err(f) => r matches Err(e) && e@ == RequestErrorV::Json(f),
                Ok(_) => r is Ok,
            }
        }),
{
    reveal_strlit("[static]");
}

proof fn lemma_arguments(params: Seq<(Seq<char>, TypeV)>, skip: nat, args: Seq<JsonV>)
    ensures
        arguments(params, skip, args) matches Ok(vs) ==> {
            &&& vs.len() == args.len()
            &&& args.len() == if skip <= params.len() {
                params.len() - skip
            } else {
                0
            }
            &&& forall|i: int|
                0 <= i < vs.len() ==> lowering(params[skip + i].1, args[i]) == Ok::<
                    ValueV,
                    JsonErrorV,
                >(#[trigger] vs[i])
        },
{
    arguments_go_to_their_parameters(params, skip, args);
}

/// What a storage record is set from: the fields of the record's type, converted by their
/// names, for the `utxo` of that instance.
pub proof fn storage_is_set_from_its_record(
    catalog: &Catalog,
    instance: &str,
    value: &Json,
    r: Result<(UtxoExport, Vec<(String, Value)>), RequestError>,
)
    requires
        call_ensures(plan_load, (catalog, instance, value), r),
    ensures
        ({
            let utxo = utxo_named(catalog.own@.exports, catalog.ty@.exports, instance@);
            match r {
                Ok((u, fields)) => {
                    &&& utxo == Ok::<UtxoV, Cause>(u@)
                    &&& u@.storage is Some
                    &&& lowering(TypeV::Record(u@.storage->0.fields), value@) == Ok::<
                        ValueV,
                        JsonErrorV,
                    >(value_view(Value::Record(fields)))
                },
                Err(e) => {
                    &&& utxo matches Err(c) ==> e@ == RequestErrorV::Refused(c)
                    &&& utxo matches Ok(u) ==> match u.storage {
                        None => e@ == RequestErrorV::NoStorage,
                        Some(s) => e@ matches RequestErrorV::Json(f) && lowering(
                            TypeV::Record(s.fields),
                            value@,
                        ) == Err::<ValueV, JsonErrorV>(f),
                    }
                },
            }
        }),
{
    if let Ok((u, fields)) = r {
        let record = TypeV::Record(u@.storage->0.fields);
        converted_values_have_the_kind_of_their_type(record, value@);
        assert(value_view(Value::Record(fields)) is Record);
    }
}

/// The storage of a handle is read from, and set for, the export that the handle was minted
/// of: its record is the one whose fields are converted by their names.
pub proof fn handles_have_the_storage_of_their_exports<U>(
    session: &Session<U>,
    id: u32,
    value: &Json,
    set: Result<Vec<(String, Value)>, RequestError>,
    get: Result<&UtxoStorageExport, RequestError>,
)
    requires
        call_ensures(Session::<U>::plan_storage_set, (session, id, value), set),
        call_ensures(Session::<U>::plan_storage_get, (session, id), get),
    ensures
        !session.held().contains_key(id) ==> (set matches Err(e) && e@
            == RequestErrorV::UnknownHandle) && (get matches Err(e) && e@
            == RequestErrorV::UnknownHandle),
        session.held().contains_key(id) ==> match session.held()[id].export@.storage {
            None => (set matches Err(e) && e@ == RequestErrorV::NoStorage) && (get matches Err(e)
                && e@ == RequestErrorV::NoStorage),
            Some(s) => (get matches Ok(x) && x@ == s) && match lowering(
                TypeV::Record(s.fields),
                value@,
            ) {
                Ok(v) => set matches Ok(fields) && value_view(Value::Record(fields)) == v,
                Err(f) => set matches Err(e) && e@ == RequestErrorV::Json(f),
            },
        },
{
    if session.held().contains_key(id) {
        if let Some(s) = session.held()[id].export@.storage {
            let record = TypeV::Record(s.fields);
            if lowering(record, value@) is Ok {
                converted_values_have_the_kind_of_their_type(record, value@);
                assert(value_view(Value::Record(set->Ok_0)) is Record);
            }
        }
    }
}

/// A UTXO that is given a number is found under it, and one that is taken away or replaced is
/// the one that was found there; no other handle changes. The first number is 0, and each
/// next one more.
pub proof fn handles_are_kept_under_their_numbers<U>(
    handle: Handle<U>,
    utxo: U,
    id: u32,
    other: u32,
    given: u32,
    taken: Option<Handle<U>>,
    replaced: Result<U, U>,
    empty: Session<U>,
)
    requires
        other != id,
        other != given,
        call_ensures(Session::<U>::new, (), empty),
    ensures
        empty.next() == 0,
        !empty.held().contains_key(id),
        forall|s: &mut Session<U>| #[trigger]
            call_ensures(Session::<U>::insert, (s, handle), given) ==> {
                &&& given == (*s).next()
                &&& (*final(s)).next() == given + 1
                &&& (*final(s)).held().contains_key(given)
                &&& (*final(s)).held()[given] == handle
                &&& (*final(s)).held().contains_key(other) <==> (*s).held().contains_key(other)
                &&& (*s).held().contains_key(other) ==> (*final(s)).held()[other]
                    == (*s).held()[other]
            },
        forall|s: &mut Session<U>| #[trigger]
            call_ensures(Session::<U>::remove, (s, id), taken) ==> {
                &&& taken is Some <==> (*s).held().contains_key(id)
                &&& taken is Some ==> taken->0 == (*s).held()[id]
                &&& !(*final(s)).held().contains_key(id)
                &&& (*final(s)).next() == (*s).next()
                &&& (*final(s)).held().contains_key(other) <==> (*s).held().contains_key(other)
                &&& (*s).held().contains_key(other) ==> (*final(s)).held()[other]
                    == (*s).held()[other]
            },
        forall|s: &mut Session<U>| #[trigger]
            call_ensures(Session::<U>::replace, (s, id, utxo), replaced) ==> {
                &&& replaced is Ok <==> (*s).held().contains_key(id)
                &&& replaced is Ok ==> replaced->Ok_0 == (*s).held()[id].utxo
                    && (*final(s)).held().contains_key(id) && (*final(s)).held()[id].utxo == utxo
                    && (*final(s)).held()[id].export == (*s).held()[id].export
                &&& replaced is Err ==> replaced->Err_0 == utxo
                &&& replaced is Err ==> !(*final(s)).held().contains_key(id)
                &&& (*final(s)).next() == (*s).next()
                &&& (*final(s)).held().contains_key(other) <==> (*s).held().contains_key(other)
                &&& (*s).held().contains_key(other) ==> (*final(s)).held()[other]
                    == (*s).held()[other]
            },
{
}

} // verus!
