//! Choosing the UTXO to run, and moving arguments and results of its methods over
//! the wire.

use vstd::prelude::*;

use crate::cause::Cause;
use crate::codec::{encoding, shorter, tuple_encoding, EncodeError, EncodeErrorV, ValEncoder};
use crate::decode::{read_value, reading_within, stopped, tuple_reading, tuple_stopped, ReadError};
use crate::discovery::{
    found, function_list, listed, utxo_list, utxo_named, Catalog, FuncExportV, MethodExport, Role,
    UtxoExport, UtxoV,
};
use crate::host::{hash_of, method_hash, Ctx, MethodHash};
use crate::roundtrip::{has_type, ordered, round_trip_in_order};
use crate::text::{behind_mark, join, joined, marks_are_found_first};
use crate::types::{texts, FuncType, TypeV};
use crate::value::{views, Value, ValueV};
use crate::wire::contents;
use crate::wit::served_name;

verus! {

/// Why no UTXO was chosen.
#[derive(Debug, PartialEq, Eq)]
pub enum SelectError {
    /// The contract exports no instance that owns a `utxo`.
    NothingExported,
    /// The contract exports more than one such instance, and none was asked for.
    Ambiguous(Vec<String>),
    Refused(Cause),
}

/// The view of a [`SelectError`].
pub enum SelectErrorV {
    NothingExported,
    Ambiguous(Seq<Seq<char>>),
    Refused(Cause),
}

impl View for SelectError {
    type V = SelectErrorV;

    open spec fn view(&self) -> SelectErrorV {
        match self {
            SelectError::NothingExported => SelectErrorV::NothingExported,
            SelectError::Ambiguous(names) => SelectErrorV::Ambiguous(texts(names@)),
            SelectError::Refused(c) => SelectErrorV::Refused(*c),
        }
    }
}

/// The sentence that says why.
pub open spec fn select_text(e: SelectErrorV) -> Seq<char> {
    match e {
        SelectErrorV::NothingExported =>
            "contract exports no instance owning a `utxo` resource"@,
        SelectErrorV::Ambiguous(names) =>
            "contract exports multiple instances owning a `utxo` resource (`"@ + joined(
            names,
            "`, `"@,
            names.len(),
        ) + "`); select one with `--utxo`"@,
        SelectErrorV::Refused(c) => crate::cause::cause_text(c),
    }
}

impl SelectError {
    /// The sentence that says why.
    pub fn text(&self) -> (r: String)
        ensures
            r@ == select_text(self@),
    {
        match self {
            SelectError::NothingExported =>
                "contract exports no instance owning a `utxo` resource".to_owned(),
            SelectError::Ambiguous(names) => {
                let mut r =
                    "contract exports multiple instances owning a `utxo` resource (`".to_owned();
                r.append(join(names, "`, `").as_str());
                r.append("`); select one with `--utxo`");
                r
            },
            SelectError::Refused(c) => c.text().to_owned(),
        }
    }
}

/// The names of a list of entries.
pub open spec fn entry_names(entries: Seq<(Seq<char>, Result<UtxoV, Cause>)>) -> Seq<Seq<char>> {
    Seq::new(entries.len(), |i: int| entries[i].0)
}

/// Whether an instance owns a `utxo`, sound or not.
pub open spec fn owns(entry: (Seq<char>, Result<UtxoV, Cause>)) -> bool {
    entry.1 != Err::<UtxoV, Cause>(Cause::NoUtxoResource)
}

/// Those of the first `n` entries that own a `utxo`.
pub open spec fn owners(entries: Seq<(Seq<char>, Result<UtxoV, Cause>)>, n: nat) -> Seq<
    (Seq<char>, Result<UtxoV, Cause>),
>
    decreases n,
{
    if n == 0 {
        Seq::empty()
    } else if owns(entries[n - 1]) {
        owners(entries, (n - 1) as nat).push(entries[n - 1])
    } else {
        owners(entries, (n - 1) as nat)
    }
}

/// The instances of a catalog that own a `utxo`.
pub open spec fn all_owners(catalog: Catalog) -> Seq<(Seq<char>, Result<UtxoV, Cause>)> {
    let entries = utxo_list(
        catalog.own@.exports,
        catalog.ty@.exports,
        catalog.ty@.exports.len(),
    );
    owners(entries, entries.len())
}

/// The UTXO that is asked for, or else the only one that there is.
pub open spec fn selected(catalog: Catalog, asked: Option<Seq<char>>) -> Result<
    (Seq<char>, UtxoV),
    SelectErrorV,
> {
    match asked {
        Some(name) => match utxo_named(catalog.own@.exports, catalog.ty@.exports, name) {
            Ok(utxo) => Ok((name, utxo)),
            Err(c) => Err(SelectErrorV::Refused(c)),
        },
        None => {
            let entries = all_owners(catalog);
            if entries.len() == 0 {
                Err(SelectErrorV::NothingExported)
            } else if entries.len() > 1 {
                Err(SelectErrorV::Ambiguous(entry_names(entries)))
            } else {
                match entries[0].1 {
                    Ok(utxo) => Ok((entries[0].0, utxo)),
                    Err(c) => Err(SelectErrorV::Refused(c)),
                }
            }
        },
    }
}

/// Chooses the UTXO that is asked for, or else the only one that there is.
pub fn select_utxo(catalog: &Catalog, asked: Option<String>) -> (r: Result<
    (String, UtxoExport),
    SelectError,
>)
    ensures
        match r {
            Ok((name, utxo)) => selected(
                *catalog,
                match asked {
                    Some(s) => Some(s@),
                    None => None,
                },
            ) == Ok::<(Seq<char>, UtxoV), SelectErrorV>((name@, utxo@)),
            Err(e) => selected(
                *catalog,
                match asked {
                    Some(s) => Some(s@),
                    None => None,
                },
            ) == Err::<(Seq<char>, UtxoV), SelectErrorV>(e@),
        },
{
    if let Some(name) = asked {
        return match catalog.get_utxo(name.as_str()) {
            Ok(utxo) => Ok((name, utxo)),
            Err(c) => Err(SelectError::Refused(c)),
        };
    }
    let mut entries = catalog.utxos();
    let ghost all = listed(entries@);
    let mut names: Vec<String> = Vec::new();
    let mut first: usize = 0;
    let mut i: usize = 0;
    assert(texts(names@) =~= entry_names(owners(all, 0)));
    while i < entries.len()
        invariant
            0 <= i <= entries@.len(),
            all == listed(entries@),
            texts(names@) == entry_names(owners(all, i as nat)),
            names@.len() > 0 ==> first < i && owners(all, i as nat)[0] == all[first as int],
        decreases entries@.len() - i,
    {
        assert(all[i as int] == (entries@[i as int].0@, found(entries@[i as int].1)));
        let owning = match &entries[i].1 {
            Err(Cause::NoUtxoResource) => false,
            _ => true,
        };
        if owning {
            let ghost before = names@;
            assert(texts(before).len() == entry_names(owners(all, i as nat)).len());
            if names.len() == 0 {
                first = i;
            }
            names.push(entries[i].0.clone());
            assert(texts(names@) =~= texts(before).push(all[i as int].0));
            assert(entry_names(owners(all, (i + 1) as nat)) =~= entry_names(
                owners(all, i as nat),
            ).push(all[i as int].0));
        }
        i += 1;
    }
    assert(texts(names@).len() == entry_names(owners(all, all.len())).len());
    if names.len() == 0 {
        return Err(SelectError::NothingExported);
    }
    if names.len() > 1 {
        return Err(SelectError::Ambiguous(names));
    }
    let ghost only = entries@[first as int];
    assert(all[first as int] == (only.0@, found(only.1)));
    let (name, utxo) = entries.remove(first);
    match utxo {
        Ok(utxo) => Ok((name, utxo)),
        Err(c) => Err(SelectError::Refused(c)),
    }
}

/// Why the methods of a UTXO cannot be served.
#[derive(Debug, PartialEq, Eq)]
pub enum ServeError {
    Refused(Cause),
    /// A method that the guest declared is not one of the `utxo` resource.
    UnexpectedName(String),
}

/// The view of a [`ServeError`].
pub enum ServeErrorV {
    Refused(Cause),
    UnexpectedName(Seq<char>),
}

impl View for ServeError {
    type V = ServeErrorV;

    open spec fn view(&self) -> ServeErrorV {
        match self {
            ServeError::Refused(c) => ServeErrorV::Refused(*c),
            ServeError::UnexpectedName(name) => ServeErrorV::UnexpectedName(name@),
        }
    }
}

/// The sentence that says why.
pub open spec fn serve_text(e: ServeErrorV) -> Seq<char> {
    match e {
        ServeErrorV::Refused(c) => crate::cause::cause_text(c),
        ServeErrorV::UnexpectedName(name) => "unexpected UTXO method name: "@ + name,
    }
}

impl ServeError {
    /// The sentence that says why.
    pub fn text(&self) -> (r: String)
        ensures
            r@ == serve_text(self@),
    {
        match self {
            ServeError::Refused(c) => c.text().to_owned(),
            ServeError::UnexpectedName(name) => {
                let mut r = "unexpected UTXO method name: ".to_owned();
                r.append(name.as_str());
                r
            },
        }
    }
}

/// Those of the first `n` methods whose hash is among `declared`, each with the name
/// that it is served under, or the first fault among them.
pub open spec fn served(
    methods: Seq<(Seq<char>, Result<FuncExportV, Cause>)>,
    declared: Set<MethodHash>,
    n: nat,
) -> Result<Seq<(Seq<char>, FuncExportV)>, ServeErrorV>
    decreases n,
{
    if n == 0 {
        Ok(Seq::empty())
    } else {
        let name = methods[n - 1].0;
        match served(methods, declared, (n - 1) as nat) {
            Err(e) => Err(e),
            Ok(before) => if !declared.contains(hash_of(name)) {
                Ok(before)
            } else {
                match methods[n - 1].1 {
                    Err(c) => Err(ServeErrorV::Refused(c)),
                    Ok(f) => match behind_mark(name, "[method]utxo."@) {
                        None => Err(ServeErrorV::UnexpectedName(name)),
                        Some(s) => Ok(before.push((s, f))),
                    },
                }
            },
        }
    }
}

proof fn lemma_served_stops(
    methods: Seq<(Seq<char>, Result<FuncExportV, Cause>)>,
    declared: Set<MethodHash>,
    i: nat,
    n: nat,
)
    requires
        i <= n,
        served(methods, declared, i) is Err,
    ensures
        served(methods, declared, n) == served(methods, declared, i),
    decreases n,
{
    if i < n {
        lemma_served_stops(methods, declared, i, (n - 1) as nat);
    }
}

/// A method is served only where the guest declared its hash.
pub proof fn served_methods_are_declared(
    methods: Seq<(Seq<char>, Result<FuncExportV, Cause>)>,
    declared: Set<MethodHash>,
    n: nat,
    i: int,
)
    requires
        n <= methods.len(),
        served(methods, declared, n) is Ok,
        0 <= i < served(methods, declared, n)->Ok_0.len(),
    ensures
        exists|k: int|
            0 <= k < n && declared.contains(hash_of((#[trigger] methods[k]).0)) && methods[k].1
                == Ok::<FuncExportV, Cause>(served(methods, declared, n)->Ok_0[i].1)
                && behind_mark(methods[k].0, "[method]utxo."@) == Some(
                served(methods, declared, n)->Ok_0[i].0,
            ),
    decreases n,
{
    let before = served(methods, declared, (n - 1) as nat)->Ok_0;
    if i < before.len() {
        served_methods_are_declared(methods, declared, (n - 1) as nat, i);
    } else {
        assert(declared.contains(hash_of(methods[n - 1].0)));
    }
}

/// Where the methods of a UTXO can be served, each of them that the guest declared is.
pub proof fn declared_methods_are_served(
    methods: Seq<(Seq<char>, Result<FuncExportV, Cause>)>,
    declared: Set<MethodHash>,
    n: nat,
    k: int,
)
    requires
        n <= methods.len(),
        served(methods, declared, n) is Ok,
        0 <= k < n,
        declared.contains(hash_of(methods[k].0)),
    ensures
        exists|i: int|
            0 <= i < served(methods, declared, n)->Ok_0.len() && methods[k].1 == Ok::<
                FuncExportV,
                Cause,
            >((#[trigger] served(methods, declared, n)->Ok_0[i]).1),
    decreases n,
{
    let before = served(methods, declared, (n - 1) as nat)->Ok_0;
    let now = served(methods, declared, n)->Ok_0;
    if k < n - 1 {
        declared_methods_are_served(methods, declared, (n - 1) as nat, k);
        let i = choose|i: int|
            0 <= i < before.len() && methods[k].1 == Ok::<FuncExportV, Cause>(
                (#[trigger] before[i]).1,
            );
        assert(now[i] == before[i]);
    } else {
        assert(now[now.len() - 1].1 == methods[k].1->Ok_0);
    }
}

/// The view of a list of methods and the names that they are served under.
pub open spec fn served_view(v: Seq<(String, MethodExport)>) -> Seq<(Seq<char>, FuncExportV)> {
    Seq::new(v.len(), |i: int| (v[i].0@, v[i].1@))
}

/// The methods of `utxo` that are served: those that the guest declared, in order, each
/// with the name that it is served under.
pub fn served_methods(catalog: &Catalog, utxo: &UtxoExport, ctx: &Ctx) -> (r: Result<
    Vec<(String, MethodExport)>,
    ServeError,
>)
    ensures
        ({
            let methods = function_list(
                Role::Method,
                catalog.own@.exports,
                utxo@,
                utxo@.items.len(),
            );
            match r {
                Ok(v) => served(methods, ctx.declared(), methods.len()) == Ok::<
                    Seq<(Seq<char>, FuncExportV)>,
                    ServeErrorV,
                >(served_view(v@)),
                Err(e) => served(methods, ctx.declared(), methods.len()) == Err::<
                    Seq<(Seq<char>, FuncExportV)>,
                    ServeErrorV,
                >(e@),
            }
        }),
{
    let methods = catalog.utxo_methods(utxo);
    let ghost list = listed(methods@);
    let mut kept: Vec<(String, MethodExport)> = Vec::new();
    let mut i: usize = 0;
    assert(served_view(kept@) =~= Seq::<(Seq<char>, FuncExportV)>::empty());
    while i < methods.len()
        invariant
            0 <= i <= methods@.len(),
            list == listed(methods@),
            list == function_list(
                Role::Method,
                catalog.own@.exports,
                utxo@,
                utxo@.items.len(),
            ),
            served(list, ctx.declared(), i as nat) == Ok::<
                Seq<(Seq<char>, FuncExportV)>,
                ServeErrorV,
            >(served_view(kept@)),
        decreases methods@.len() - i,
    {
        assert(list[i as int] == (methods@[i as int].0@, found(methods@[i as int].1)));
        let name = methods[i].0.as_str();
        if ctx.implements(method_hash(name)) {
            let ghost before = kept@;
            match &methods[i].1 {
                Err(c) => {
                    proof {
                        lemma_served_stops(list, ctx.declared(), (i + 1) as nat, list.len());
                    }
                    return Err(ServeError::Refused(*c));
                },
                Ok(method) => match served_name(name) {
                    None => {
                        proof {
                            lemma_served_stops(list, ctx.declared(), (i + 1) as nat, list.len());
                        }
                        return Err(ServeError::UnexpectedName(name.to_owned()));
                    },
                    Some(s) => {
                        kept.push((s, method.clone()));
                        assert(served_view(kept@) =~= served_view(before).push((s@, method@)));
                    },
                },
            }
        }
        i += 1;
    }
    Ok(kept)
}

/// The types of a method's parameters but for its receiver.
pub open spec fn argument_types(ty: FuncType) -> Seq<TypeV> {
    if ty@.params.len() == 0 {
        Seq::empty()
    } else {
        Seq::new((ty@.params.len() - 1) as nat, |i: int| ty@.params[i + 1].1)
    }
}

/// Why the arguments of a method could not be read: the parameter whose argument was at
/// fault, and what was wrong with it.
#[derive(Debug, PartialEq, Eq)]
pub struct ArgumentError {
    pub name: String,
    pub error: ReadError,
}

/// The sentence that says which argument could not be read.
pub open spec fn argument_text(name: Seq<char>) -> Seq<char> {
    "failed to decode parameter `"@ + name + "`"@
}

impl ArgumentError {
    /// The sentence that says which argument could not be read.
    pub fn text(&self) -> (r: String)
        ensures
            r@ == argument_text(self.name@),
    {
        let mut r = "failed to decode parameter `".to_owned();
        r.append(self.name.as_str());
        r.append("`");
        r
    }
}

/// The place of the first of the first `n` types whose value cannot be read.
pub open spec fn first_at_fault(s: Seq<u8>, types: Seq<TypeV>, n: nat) -> nat
    decreases n,
{
    if n == 0 {
        0
    } else if tuple_reading(s, types, (n - 1) as nat) is Err {
        first_at_fault(s, types, (n - 1) as nat)
    } else {
        (n - 1) as nat
    }
}

/// Takes the arguments of a method off the front of a buffer, one behind the other.
/// The receiver is not among them.
pub fn decode_params(r: &mut bytes::BytesMut, ty: &FuncType) -> (res: Result<
    Vec<Value>,
    ArgumentError,
>)
    ensures
        match tuple_reading(
            contents(*old(r)),
            argument_types(*ty),
            argument_types(*ty).len(),
        ) {
            Ok((vs, n)) => res matches Ok(v) && views(v@) == vs && contents(*final(r)) == contents(
                *old(r),
            ).skip(n as int),
            Err(e) => res matches Err(f) && f.error == e && f.name@ == ty@.params[first_at_fault(
                contents(*old(r)),
                argument_types(*ty),
                argument_types(*ty).len(),
            ) as int + 1].0 && contents(*final(r)) == contents(*old(r)).skip(
                tuple_stopped(
                    contents(*old(r)),
                    argument_types(*ty),
                    argument_types(*ty).len(),
                ) as int,
            ),
        },
{
    let ghost s = contents(*r);
    let ghost types = argument_types(*ty);
    let mut vs: Vec<Value> = Vec::new();
    let mut i: usize = 1;
    let ghost mut k: nat = 0;
    assert(views(vs@) =~= Seq::<ValueV>::empty());
    assert(s.skip(0) =~= s);
    while i < ty.params.len()
        invariant
            1 <= i,
            ty.params@.len() > 0 ==> i <= ty.params@.len(),
            ty.params@.len() == 0 ==> i == 1,
            types == argument_types(*ty),
            s == contents(*old(r)),
            k <= s.len(),
            tuple_reading(s, types, (i - 1) as nat) == Ok::<(Seq<ValueV>, nat), ReadError>(
                (views(vs@), k),
            ),
            contents(*r) == s.skip(k as int),
        decreases ty.params@.len() - i,
    {
        let ghost before = vs@;
        assert(types[i - 1] == ty.params@[i as int].1@);
        proof {
            reading_within(s.skip(k as int), types[i - 1]);
        }
        let mut v = Value::Bool(false);
        match read_value(r, &mut v, &ty.params[i].1) {
            Ok(_) => {
                vs.push(v);
                proof {
                    let m = crate::decode::reading(s.skip(k as int), types[i - 1])->Ok_0.1;
                    assert(s.skip(k as int).skip(m as int) =~= s.skip((k + m) as int));
                    assert(views(vs@) =~= views(before).push(v@));
                    k = k + m;
                }
            },
            Err(e) => {
                proof {
                    let m = stopped(s.skip(k as int), types[i - 1]);
                    assert(s.skip(k as int).skip(m as int) =~= s.skip((k + m) as int));
                    lemma_arguments_stop(s, types, i as nat, types.len(), e);
                }
                return Err(ArgumentError { name: ty.params[i].0.clone(), error: e });
            },
        }
        i += 1;
    }
    Ok(vs)
}

proof fn lemma_arguments_stop(s: Seq<u8>, types: Seq<TypeV>, i: nat, n: nat, e: ReadError)
    requires
        i <= n <= types.len(),
        tuple_reading(s, types, i) == Err::<(Seq<ValueV>, nat), ReadError>(e),
    ensures
        tuple_reading(s, types, n) == Err::<(Seq<ValueV>, nat), ReadError>(e),
        tuple_stopped(s, types, n) == tuple_stopped(s, types, i),
        first_at_fault(s, types, n) == first_at_fault(s, types, i),
    decreases n,
{
    if i < n {
        lemma_arguments_stop(s, types, i, (n - 1) as nat, e);
    }
}

/// The types of a function's results.
pub open spec fn result_types(ty: FuncType) -> Seq<TypeV> {
    ty@.results
}

/// Appends the results of a function to a buffer, one behind the other.
pub fn encode_results(results: &Vec<Value>, ty: &FuncType, dst: &mut bytes::BytesMut) -> (r: Result<
    (),
    EncodeError,
>)
    ensures
        contents(*final(dst)) == contents(*old(dst)) + tuple_encoding(
            views(results@),
            result_types(*ty),
            shorter(results@.len(), result_types(*ty).len()),
        ).bytes,
        match r {
            Ok(_) => tuple_encoding(
                views(results@),
                result_types(*ty),
                shorter(results@.len(), result_types(*ty).len()),
            ).error is None,
            Err(e) => tuple_encoding(
                views(results@),
                result_types(*ty),
                shorter(results@.len(), result_types(*ty).len()),
            ).error == Some(EncodeErrorV::TupleElement(Box::new(e@))),
        },
{
    let ghost vs = views(results@);
    let ghost types = result_types(*ty);
    let ghost n = shorter(vs.len(), types.len());
    let ghost start = contents(*dst);
    let mut i: usize = 0;
    assert(start + Seq::<u8>::empty() =~= start);
    while i < results.len() && i < ty.results.len()
        invariant
            0 <= i <= results@.len(),
            i <= ty.results@.len(),
            vs == views(results@),
            types == result_types(*ty),
            n == shorter(vs.len(), types.len()),
            start == contents(*old(dst)),
            tuple_encoding(vs, types, i as nat).error is None,
            contents(*dst) == start + tuple_encoding(vs, types, i as nat).bytes,
        decreases results@.len() - i,
    {
        let ghost before = tuple_encoding(vs, types, i as nat).bytes;
        let ghost last = encoding(vs[i as int], types[i as int]);
        assert((start + before) + last.bytes =~= start + (before + last.bytes));
        if let Err(e) = ValEncoder::new(&ty.results[i]).encode(&results[i], dst) {
            proof {
                lemma_results_stop(vs, types, (i + 1) as nat, n);
            }
            return Err(e);
        }
        i += 1;
    }
    Ok(())
}

proof fn lemma_results_stop(vs: Seq<ValueV>, types: Seq<TypeV>, i: nat, n: nat)
    requires
        i <= n <= vs.len(),
        tuple_encoding(vs, types, i).error is Some,
    ensures
        tuple_encoding(vs, types, n) == tuple_encoding(vs, types, i),
    decreases n,
{
    if i < n {
        lemma_results_stop(vs, types, i, (n - 1) as nat);
    }
}

/// What goes over the wire arrives: values of the right types, written one behind the
/// other as results are, are read back as arguments are, whatever follows. Each flag set
/// arrives in the order of its type.
pub proof fn values_arrive(vs: Seq<ValueV>, types: Seq<TypeV>, rest: Seq<u8>)
    requires
        vs.len() == types.len(),
        forall|i: int|
            0 <= i < vs.len() ==> has_type(ordered(#[trigger] vs[i], types[i]), types[i]),
    ensures
        tuple_encoding(vs, types, vs.len()).error is None,
        tuple_reading(tuple_encoding(vs, types, vs.len()).bytes + rest, types, types.len()) == Ok::<
            (Seq<ValueV>, nat),
            ReadError,
        >(
            (
                Seq::new(vs.len(), |i: int| ordered(vs[i], types[i])),
                tuple_encoding(vs, types, vs.len()).bytes.len(),
            ),
        ),
{
    let v = ValueV::Tuple(vs);
    let ty = TypeV::Tuple(types);
    let put = Seq::new(vs.len(), |i: int| ordered(vs[i], types[i]));
    assert(ordered(v, ty)->Tuple_0 =~= put);
    assert forall|i: int| 0 <= i < put.len() implies has_type(#[trigger] put[i], types[i]) by {
        assert(has_type(ordered(vs[i], types[i]), types[i]));
    }
    round_trip_in_order(v, ty, rest);
}

proof fn lemma_owners(entries: Seq<(Seq<char>, Result<UtxoV, Cause>)>, n: nat) -> (places: Seq<int>)
    requires
        n <= entries.len(),
    ensures
        places.len() == owners(entries, n).len(),
        forall|i: int|
            0 <= i < places.len() ==> 0 <= #[trigger] places[i] < n && owners(entries, n)[i]
                == entries[places[i]] && owns(entries[places[i]]),
        forall|i: int, j: int| 0 <= i < j < places.len() ==> places[i] < places[j],
        forall|k: int| 0 <= k < n && owns(#[trigger] entries[k]) ==> places.contains(k),
    decreases n,
{
    if n == 0 {
        Seq::empty()
    } else {
        let before = lemma_owners(entries, (n - 1) as nat);
        if owns(entries[n - 1]) {
            let now = before.push(n - 1);
            assert forall|k: int| 0 <= k < n && owns(#[trigger] entries[k]) implies now.contains(
                k,
            ) by {
                if k < n - 1 {
                    let i = choose|i: int| 0 <= i < before.len() && before[i] == k;
                    assert(now[i] == k);
                } else {
                    assert(now[before.len() as int] == k);
                }
            }
            now
        } else {
            before
        }
    }
}

/// Whether an entry of the instances of a contract has no `utxo`.
pub open spec fn owns_nothing(entry: (Seq<char>, Result<UtxoV, Cause>)) -> bool {
    entry.1 matches Err(c) && c == Cause::NoUtxoResource
}

/// The `utxo` that is chosen is the one that is asked for by its name, or else the only one
/// that the contract has; where there is none, or more than one, none is chosen, and in the
/// latter case all are named in order.
pub proof fn the_only_utxo_is_chosen(
    catalog: &Catalog,
    asked: Option<String>,
    entries: Vec<(String, Result<UtxoExport, Cause>)>,
    r: Result<(String, UtxoExport), SelectError>,
)
    requires
        call_ensures(select_utxo, (catalog, asked), r),
        call_ensures(Catalog::utxos, (catalog,), entries),
    ensures
        asked matches Some(name) ==> match r {
            Ok((n, u)) => n@ == name@ && utxo_named(
                catalog.own@.exports,
                catalog.ty@.exports,
                name@,
            ) == Ok::<UtxoV, Cause>(u@),
            Err(e) => e@ matches SelectErrorV::Refused(c) && utxo_named(
                catalog.own@.exports,
                catalog.ty@.exports,
                name@,
            ) == Err::<UtxoV, Cause>(c),
        },
        asked is None ==> {
            let all = listed(entries@);
            match r {
                Ok((n, u)) => exists|k: int| #![trigger all[k]]
                    0 <= k < all.len() && all[k] == (n@, Ok::<UtxoV, Cause>(u@)) && forall|j: int|
                        0 <= j < all.len() && j != k ==> owns_nothing(#[trigger] all[j]),
                Err(e) => match e@ {
                    SelectErrorV::NothingExported => forall|j: int|
                        0 <= j < all.len() ==> owns_nothing(#[trigger] all[j]),
                    SelectErrorV::Refused(c) => c != Cause::NoUtxoResource && exists|k: int|
                        #![trigger all[k]]
                        0 <= k < all.len() && all[k].1 == Err::<UtxoV, Cause>(c) && forall|j: int|
                            0 <= j < all.len() && j != k ==> owns_nothing(#[trigger] all[j]),
                    SelectErrorV::Ambiguous(names) => names.len() > 1 && exists|places: Seq<int>|
                        #[trigger] names_of(all, places, names),
                },
            }
        },
{
    if asked is None {
        let all = listed(entries@);
        let places = lemma_owners(all, all.len());
        let found = owners(all, all.len());
        assert forall|j: int| 0 <= j < all.len() && !places.contains(j) implies owns_nothing(
            #[trigger] all[j],
        ) by {}
        if places.len() == 1 {
            let k = places[0];
            assert(found[0] == all[k]);
            assert forall|j: int| 0 <= j < all.len() && j != k implies owns_nothing(
                #[trigger] all[j],
            ) by {
                if places.contains(j) {
                    let i = choose|i: int| 0 <= i < places.len() && places[i] == j;
                }
            }
        } else if places.len() > 1 {
            assert(names_of(all, places, entry_names(found)));
        }
    }
}

/// Whether `names` are those of the entries at `places`, which are all that have a `utxo`,
/// in their order.
pub open spec fn names_of(
    entries: Seq<(Seq<char>, Result<UtxoV, Cause>)>,
    places: Seq<int>,
    names: Seq<Seq<char>>,
) -> bool {
    &&& names.len() == places.len()
    &&& forall|i: int|
        0 <= i < places.len() ==> 0 <= #[trigger] places[i] < entries.len() && names[i]
            == entries[places[i]].0
    &&& forall|i: int, j: int| 0 <= i < j < places.len() ==> places[i] < places[j]
    &&& forall|k: int|
        0 <= k < entries.len() ==> (owns_nothing(#[trigger] entries[k]) <==> !places.contains(k))
}

proof fn lemma_served_part(
    a: Seq<(Seq<char>, Result<FuncExportV, Cause>)>,
    b: Seq<(Seq<char>, Result<FuncExportV, Cause>)>,
    declared: Set<MethodHash>,
    n: nat,
)
    requires
        n <= a.len(),
        n <= b.len(),
        forall|i: int| 0 <= i < n ==> a[i] == b[i],
    ensures
        served(a, declared, n) == served(b, declared, n),
    decreases n,
{
    if n > 0 {
        lemma_served_part(a, b, declared, (n - 1) as nat);
    }
}

/// Methods are served in their order, each that was declared under what stands behind
/// `[method]utxo.` in its export, and the others not at all.
pub proof fn methods_are_served_in_order(
    methods: Seq<(Seq<char>, Result<FuncExportV, Cause>)>,
    declared: Set<MethodHash>,
    export: Seq<char>,
    method: Result<FuncExportV, Cause>,
    name: Seq<char>,
)
    requires
        served(methods, declared, methods.len()) is Ok,
    ensures
        served(Seq::empty(), declared, 0) == Ok::<Seq<(Seq<char>, FuncExportV)>, ServeErrorV>(
            Seq::empty(),
        ),
        ({
            let before = served(methods, declared, methods.len())->Ok_0;
            let all = methods.push((export, method));
            let now = served(all, declared, all.len());
            &&& !declared.contains(hash_of(export)) ==> now == Ok::<
                Seq<(Seq<char>, FuncExportV)>,
                ServeErrorV,
            >(before)
            &&& declared.contains(hash_of(export)) && method is Err ==> now == Err::<
                Seq<(Seq<char>, FuncExportV)>,
                ServeErrorV,
            >(ServeErrorV::Refused(method->Err_0))
            &&& declared.contains(hash_of(export)) && method is Ok && export == "[method]utxo."@
                + name ==> now == Ok::<Seq<(Seq<char>, FuncExportV)>, ServeErrorV>(
                before.push((name, method->Ok_0)),
            )
            &&& declared.contains(hash_of(export)) && method is Ok && (forall|i: int|
                0 <= i <= export.len() - 13 ==> #[trigger] export.subrange(i, i + 13)
                    != "[method]utxo."@) ==> now == Err::<
                Seq<(Seq<char>, FuncExportV)>,
                ServeErrorV,
            >(ServeErrorV::UnexpectedName(export))
        }),
{
    reveal_strlit("[method]utxo.");
    let mark = "[method]utxo."@;
    lemma_served_part(methods, methods.push((export, method)), declared, methods.len());
    if export == mark + name {
        assert(export.subrange(0, 0 + mark.len() as int) =~= mark);
        marks_are_found_first(export, mark, 0);
        assert(export.skip(0 + mark.len() as int) =~= name);
    }
    if forall|i: int|
        0 <= i <= export.len() - 13 ==> #[trigger] export.subrange(i, i + 13) != mark {
        marks_are_found_first(export, mark, export.len() as int);
    }
}

/// The arguments of a method are read as a tuple of the types of its parameters, but for
/// the first, and its results are written as a tuple of their types.
pub proof fn arguments_are_read_behind_the_receiver(ty: &FuncType, i: int)
    ensures
        ty.params@.len() > 0 ==> argument_types(*ty).len() == ty.params@.len() - 1,
        ty.params@.len() == 0 ==> argument_types(*ty).len() == 0,
        0 <= i < argument_types(*ty).len() ==> argument_types(*ty)[i] == ty.params@[i + 1].1@,
        result_types(*ty).len() == ty.results@.len(),
        0 <= i < result_types(*ty).len() ==> result_types(*ty)[i] == ty.results@[i]@,
{
}

/// The argument that is told to be at fault is the first that cannot be read: those before
/// it can be.
pub proof fn the_first_argument_at_fault_is_told(s: Seq<u8>, types: Seq<TypeV>, n: nat)
    requires
        n <= types.len(),
        tuple_reading(s, types, n) is Err,
    ensures
        first_at_fault(s, types, n) < n,
        tuple_reading(s, types, first_at_fault(s, types, n)) is Ok,
        tuple_reading(s, types, first_at_fault(s, types, n) + 1) == tuple_reading(s, types, n),
        tuple_stopped(s, types, first_at_fault(s, types, n) + 1) == tuple_stopped(s, types, n),
    decreases n,
{
    if tuple_reading(s, types, (n - 1) as nat) is Err {
        the_first_argument_at_fault_is_told(s, types, (n - 1) as nat);
    }
}

/// Why no UTXO was chosen is told by a sentence of its own; where there are several, they
/// are named.
pub proof fn select_errors_have_their_sentences(
    e: &SelectError,
    r: String,
    sentence: &'static str,
)
    requires
        call_ensures(SelectError::text, (e,), r),
        e matches SelectError::Refused(c) ==> call_ensures(Cause::text, (*c,), sentence),
    ensures
        e is NothingExported ==> r@ == "contract exports no instance owning a `utxo` resource"@,
        e matches SelectError::Ambiguous(names) ==> r@
            == "contract exports multiple instances owning a `utxo` resource (`"@ + joined(
            texts(names@),
            "`, `"@,
            names@.len(),
        ) + "`); select one with `--utxo`"@,
        e is Refused ==> r@ == sentence@,
{
}

/// Why methods are not served, and which argument could not be read, is told with the name
/// that is at fault.
pub proof fn serve_errors_have_their_sentences(
    e: &ServeError,
    r: String,
    sentence: &'static str,
    argument: &ArgumentError,
    said: String,
)
    requires
        call_ensures(ServeError::text, (e,), r),
        e matches ServeError::Refused(c) ==> call_ensures(Cause::text, (*c,), sentence),
        call_ensures(ArgumentError::text, (argument,), said),
    ensures
        e matches ServeError::UnexpectedName(name) ==> r@ == "unexpected UTXO method name: "@
            + name@,
        e is Refused ==> r@ == sentence@,
        said@ == "failed to decode parameter `"@ + argument.name@ + "`"@,
{
}

/// Results are written one behind the other, each by the type at its place, and arguments
/// are read so: each from where the one before it ended. What comes before a fault stands.
pub proof fn values_go_one_behind_the_other(
    vs: Seq<ValueV>,
    types: Seq<TypeV>,
    s: Seq<u8>,
    n: nat,
)
    requires
        n < vs.len(),
        n < types.len(),
    ensures
        shorter(vs.len(), types.len()) <= vs.len(),
        shorter(vs.len(), types.len()) <= types.len(),
        shorter(vs.len(), types.len()) == vs.len() || shorter(vs.len(), types.len())
            == types.len(),
        tuple_encoding(vs, types, 0).bytes.len() == 0,
        tuple_encoding(vs, types, 0).error is None,
        tuple_encoding(vs, types, n).error is Some ==> tuple_encoding(vs, types, n + 1)
            == tuple_encoding(vs, types, n),
        tuple_encoding(vs, types, n).error is None ==> tuple_encoding(vs, types, n + 1).bytes
            == tuple_encoding(vs, types, n).bytes + encoding(vs[n as int], types[n as int]).bytes
            && tuple_encoding(vs, types, n + 1).error == match encoding(
            vs[n as int],
            types[n as int],
        ).error {
            Some(e) => Some(EncodeErrorV::TupleElement(Box::new(e))),
            None => None,
        },
        tuple_reading(s, types, 0) == Ok::<(Seq<ValueV>, nat), ReadError>((Seq::empty(), 0)),
        tuple_reading(s, types, n + 1) == match tuple_reading(s, types, n) {
            Ok((before, k)) => match crate::decode::reading(s.skip(k as int), types[n as int]) {
                Ok((v, m)) => Ok((before.push(v), k + m)),
                Err(e) => Err(e),
            },
            Err(e) => Err(e),
        },
        tuple_stopped(s, types, n + 1) == match tuple_reading(s, types, n) {
            Ok((_, k)) => k + stopped(s.skip(k as int), types[n as int]),
            Err(_) => tuple_stopped(s, types, n),
        },
{
}

/// What is taken off a buffer as the arguments of a method is what is read from it as a tuple
/// of the types of its parameters, but for the receiver's. The parameter that is named where
/// that fails is the first whose argument cannot be read.
pub proof fn arguments_are_taken_off_the_buffer(
    ty: &FuncType,
    types: Seq<TypeV>,
    r: Result<Vec<Value>, ArgumentError>,
)
    requires
        ty.params@.len() > 0,
        types.len() == ty.params@.len() - 1,
        forall|i: int| 0 <= i < types.len() ==> #[trigger] types[i] == ty.params@[i + 1].1@,
    ensures
        forall|buffer: &mut bytes::BytesMut| #[trigger]
            call_ensures(decode_params, (buffer, ty), r) ==> match crate::decode::reading(
                contents(*buffer),
                TypeV::Tuple(types),
            ) {
                Ok((v, n)) => {
                    &&& r is Ok
                    &&& v == ValueV::Tuple(views(r->Ok_0@))
                    &&& contents(*final(buffer)) == contents(*buffer).skip(n as int)
                },
                Err(e) => {
                    &&& r is Err
                    &&& r->Err_0.error == e
                    &&& exists|k: int|
                        0 <= k < types.len() && r->Err_0.name@ == (#[trigger] ty.params@[k + 1]).0@
                            && crate::decode::reading(
                            contents(*buffer),
                            TypeV::Tuple(types.take(k)),
                        ) is Ok && crate::decode::reading(
                            contents(*buffer),
                            TypeV::Tuple(types.take(k + 1)),
                        ) == Err::<(ValueV, nat), ReadError>(e)
                    &&& contents(*final(buffer)) == contents(*buffer).skip(
                        stopped(contents(*buffer), TypeV::Tuple(types)) as int,
                    )
                },
            },
{
    assert(argument_types(*ty) =~= types);
    assert forall|buffer: &mut bytes::BytesMut| #[trigger]
        call_ensures(decode_params, (buffer, ty), r) && tuple_reading(
            contents(*buffer),
            types,
            types.len(),
        ) is Err implies exists|k: int|
        0 <= k < types.len() && r->Err_0.name@ == (#[trigger] ty.params@[k + 1]).0@
            && crate::decode::reading(contents(*buffer), TypeV::Tuple(types.take(k))) is Ok
            && crate::decode::reading(contents(*buffer), TypeV::Tuple(types.take(k + 1))) == Err::<
            (ValueV, nat),
            ReadError,
        >(tuple_reading(contents(*buffer), types, types.len())->Err_0) by {
        let s = contents(*buffer);
        let k = first_at_fault(s, types, types.len());
        the_first_argument_at_fault_is_told(s, types, types.len());
        crate::roundtrip::lemma_tuple_read(s, types, types.take(k as int), k);
        crate::roundtrip::lemma_tuple_read(s, types, types.take(k as int + 1), k + 1);
        assert(r->Err_0.name@ == ty.params@[k as int + 1].0@);
    }
}

/// What is appended for the results of a function is what is written for a tuple of them and
/// of their types. A result that cannot be written is an error, and nothing else is.
pub proof fn results_are_appended(
    results: &Vec<Value>,
    ty: &FuncType,
    types: Seq<TypeV>,
    r: Result<(), EncodeError>,
)
    requires
        types.len() == ty.results@.len(),
        forall|i: int| 0 <= i < types.len() ==> #[trigger] types[i] == ty.results@[i]@,
    ensures
        forall|dst: &mut bytes::BytesMut| #[trigger]
            call_ensures(encode_results, (results, ty, dst), r) ==> {
                let e = encoding(ValueV::Tuple(views(results@)), TypeV::Tuple(types));
                &&& contents(*final(dst)) == contents(*dst) + e.bytes
                &&& r is Ok <==> e.error is None
                &&& r is Err ==> e.error == Some(
                    EncodeErrorV::TupleElement(Box::new(r->Err_0@)),
                )
            },
{
    assert(result_types(*ty) =~= types);
    crate::roundtrip::lemma_tuple_whole(views(results@), types);
}

/// What is served of a `utxo` are those of its methods that the guest declared.
pub proof fn served_methods_are_those_of_the_utxo(
    catalog: &Catalog,
    utxo: &UtxoExport,
    ctx: &Ctx,
    methods: Vec<(String, Result<MethodExport, Cause>)>,
    r: Result<Vec<(String, MethodExport)>, ServeError>,
    i: int,
)
    requires
        call_ensures(served_methods, (catalog, utxo, ctx), r),
        call_ensures(Catalog::utxo_methods, (catalog, utxo), methods),
    ensures
        match r {
            Ok(v) => {
                &&& served(listed(methods@), ctx.declared(), methods@.len()) is Ok
                &&& served(listed(methods@), ctx.declared(), methods@.len())->Ok_0.len()
                    == v@.len()
                &&& 0 <= i < v@.len() ==> served(
                    listed(methods@),
                    ctx.declared(),
                    methods@.len(),
                )->Ok_0[i] == (v@[i].0@, v@[i].1@)
            },
            Err(e) => served(listed(methods@), ctx.declared(), methods@.len()) == Err::<
                Seq<(Seq<char>, FuncExportV)>,
                ServeErrorV,
            >(e@),
        },
{
    assert(listed(methods@).len() == methods@.len());
}

} // verus!
