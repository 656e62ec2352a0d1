//! The text of the interface that a minted UTXO offers.
//!
//! The interface lists the methods of the `utxo` resource as plain functions: the
//! receiver is left out, since whoever serves the interface puts the resource there.

use vstd::prelude::*;
use wasmtime::component::types::ComponentFunc;
use wasmtime::component::Type as WasmType;

use crate::cause::Cause;
use crate::discovery::{function_named, instance_items, FuncExportV, Role, UtxoV};
use crate::host::{hash_ignores_prefix, last_segment, lemma_whole_segment, segment_of};
use crate::reflect::{
    as_borrow, as_own, describable, fields_describable, func_of, func_params, func_results,
    named_types_of, type_of, types_describable, types_of, Source,
};
use crate::text::{
    after_first, before_first, begins, behind_mark, cut_after, cut_before, cut_behind,
    cuts_are_at_the_first, join, joined, joined_texts_stand_in_order, marks_are_found_first,
};
use crate::types::{
    distinct_names, first_named, lemma_lookup, lookup, texts, FuncTypeV, ItemV, TypeV,
};

verus! {

/// What `wasm_wave` writes for a type.
pub uninterp spec fn wave_text(ty: TypeV) -> Seq<char>;

/// `wasm_wave::wasm::DisplayType`: a type in the notation of WIT.
#[verifier::external_body]
fn display_type(t: &WasmType) -> (r: String)
    requires
        describable(Source::Type(*t)),
    ensures
        r@ == wave_text(type_of(*t)),
{
    wasmtime::component::wasm_wave::wasm::DisplayType(t).to_string()
}

/// A type in the notation of WIT. The only resource in play is `utxo`.
pub open spec fn wit_text(ty: TypeV) -> Seq<char> {
    match ty {
        TypeV::Own(_) => "utxo"@,
        TypeV::Borrow(_) => "borrow<utxo>"@,
        _ => wave_text(ty),
    }
}

/// A type in the notation of WIT.
pub fn wit_type(ty: &WasmType) -> (r: String)
    requires
        describable(Source::Type(*ty)),
    ensures
        r@ == wit_text(type_of(*ty)),
{
    if as_own(ty).is_some() {
        return "utxo".to_owned();
    }
    if as_borrow(ty).is_some() {
        return "borrow<utxo>".to_owned();
    }
    display_type(ty)
}

/// The parameters of a function, each with its type.
pub open spec fn param_texts(params: Seq<(Seq<char>, Seq<char>)>) -> Seq<Seq<char>> {
    Seq::new(params.len(), |i: int| params[i].0 + ": "@ + params[i].1)
}

/// What a function returns: nothing, one type, or several in brackets.
pub open spec fn return_text(results: Seq<Seq<char>>) -> Seq<char> {
    if results.len() == 0 {
        Seq::empty()
    } else if results.len() == 1 {
        " -> "@ + results[0]
    } else {
        " -> ("@ + joined(results, ", "@, results.len()) + ")"@
    }
}

/// The declaration of a function.
pub open spec fn declaration(
    name: Seq<char>,
    params: Seq<(Seq<char>, Seq<char>)>,
    results: Seq<Seq<char>>,
) -> Seq<char> {
    name + ": func("@ + joined(param_texts(params), ", "@, params.len()) + ")"@ + return_text(
        results,
    ) + ";"@
}

/// The texts of named types.
pub open spec fn typed_names(params: Seq<(Seq<char>, TypeV)>) -> Seq<(Seq<char>, Seq<char>)> {
    Seq::new(params.len(), |i: int| (params[i].0, wit_text(params[i].1)))
}

/// The texts of types.
pub open spec fn wit_texts(types: Seq<TypeV>) -> Seq<Seq<char>> {
    Seq::new(types.len(), |i: int| wit_text(types[i]))
}

/// A sequence without its first element, where it has one.
pub open spec fn without_first<A>(s: Seq<A>) -> Seq<A> {
    if s.len() == 0 {
        s
    } else {
        s.skip(1)
    }
}

/// The declaration of an exported method: under the last segment of its name, and
/// without its first parameter.
pub open spec fn method_text(export: Seq<char>, ty: FuncTypeV) -> Seq<char> {
    declaration(
        last_segment(export),
        typed_names(without_first(ty.params)),
        wit_texts(ty.results),
    )
}

/// The views of a list of names and texts.
pub open spec fn pairs(v: Seq<(String, String)>) -> Seq<(Seq<char>, Seq<char>)> {
    Seq::new(v.len(), |i: int| (v[i].0@, v[i].1@))
}

/// The declaration of a function.
pub fn declare(name: &str, params: &Vec<(String, String)>, results: &Vec<String>) -> (r: String)
    ensures
        r@ == declaration(name@, pairs(params@), texts(results@)),
{
    let ghost ps = pairs(params@);
    let mut parts: Vec<String> = Vec::new();
    let mut i: usize = 0;
    while i < params.len()
        invariant
            0 <= i <= params@.len(),
            ps == pairs(params@),
            parts@.len() == i,
            forall|j: int| 0 <= j < i ==> (#[trigger] parts@[j])@ == param_texts(ps)[j],
        decreases params@.len() - i,
    {
        let mut part = params[i].0.clone();
        part.append(": ");
        part.append(params[i].1.as_str());
        parts.push(part);
        i += 1;
    }
    assert(texts(parts@) =~= param_texts(ps));
    let mut r = String::new();
    r.append(name);
    r.append(": func(");
    r.append(join(&parts, ", ").as_str());
    r.append(")");
    if results.len() == 1 {
        r.append(" -> ");
        r.append(results[0].as_str());
    } else if results.len() > 1 {
        r.append(" -> (");
        r.append(join(results, ", ").as_str());
        r.append(")");
    }
    r.append(";");
    proof {
        let head = name@ + ": func("@ + joined(param_texts(ps), ", "@, ps.len()) + ")"@;
        assert(r@ =~= head + return_text(texts(results@)) + ";"@);
    }
    r
}

/// The declaration of an exported method.
pub fn wit_func(export: &str, ty: &ComponentFunc) -> (r: String)
    requires
        describable(Source::Func(*ty)),
    ensures
        r@ == method_text(export@, func_of(*ty)),
{
    let name = segment_of(export);
    let all = func_params(ty);
    let out = func_results(ty);
    let ghost wanted = typed_names(without_first(func_of(*ty).params));
    let mut params: Vec<(String, String)> = Vec::new();
    let mut i: usize = 1;
    assert(pairs(params@) =~= wanted.take(0));
    while i < all.len()
        invariant
            fields_describable(all@),
            1 <= i,
            all@.len() >= 1 ==> i <= all@.len(),
            all@.len() == 0 ==> i == 1,
            named_types_of(all@) == func_of(*ty).params,
            wanted == typed_names(without_first(func_of(*ty).params)),
            pairs(params@) == wanted.take(i - 1),
        decreases all@.len() - i,
    {
        let ghost before = params@;
        let text = wit_type(&all[i].1);
        params.push((all[i].0.clone(), text));
        assert(func_of(*ty).params[i as int] == (all@[i as int].0@, type_of(all@[i as int].1)));
        assert(wanted[i - 1] == (all@[i as int].0@, text@));
        assert(pairs(params@) =~= pairs(before).push((all@[i as int].0@, text@)));
        assert(wanted.take(i as int) =~= wanted.take(i - 1).push(wanted[i - 1]));
        i += 1;
    }
    assert(named_types_of(all@).len() == all@.len());
    assert(wanted.take(i - 1) =~= wanted);
    let mut results: Vec<String> = Vec::new();
    let mut k: usize = 0;
    while k < out.len()
        invariant
            types_describable(out@),
            0 <= k <= out@.len(),
            types_of(out@) == func_of(*ty).results,
            results@.len() == k,
            forall|j: int|
                0 <= j < k ==> (#[trigger] results@[j])@ == wit_texts(func_of(*ty).results)[j],
        decreases out@.len() - k,
    {
        assert(func_of(*ty).results[k as int] == type_of(out@[k as int]));
        results.push(wit_type(&out[k]));
        k += 1;
    }
    assert(texts(results@) =~= wit_texts(func_of(*ty).results));
    declare(name.as_str(), &params, &results)
}

/// The name of the interface that an exported instance is served as: without its
/// package and its version.
pub open spec fn interface_name(export: Seq<char>) -> Seq<char> {
    before_first(after_first(export, '/'), '@')
}

/// The name of the interface that an exported instance is served as.
pub fn interface_of(export: &str) -> (r: String)
    ensures
        r@ == interface_name(export@),
{
    let name = cut_after(export, '/');
    cut_before(name.as_str(), '@')
}

/// The instance that an exported instance is served as.
pub open spec fn served_instance_name(export: Seq<char>) -> Seq<char> {
    "starstream:utxo/"@ + interface_name(export)
}

/// The instance that an exported instance is served as.
pub fn served_instance(export: &str) -> (r: String)
    ensures
        r@ == served_instance_name(export@),
{
    let mut r = "starstream:utxo/".to_owned();
    r.append(interface_of(export).as_str());
    r
}

/// The name that a constructor is exported under.
pub open spec fn constructor_name(name: Seq<char>) -> Seq<char> {
    "[static]utxo."@ + name
}

/// The name that a constructor is exported under.
pub fn constructor_export(name: &str) -> (r: String)
    ensures
        r@ == constructor_name(name@),
{
    let mut r = "[static]utxo.".to_owned();
    r.append(name);
    r
}

/// The name that a method is served under.
pub fn served_name(export: &str) -> (r: Option<String>)
    ensures
        match r {
            Some(name) => behind_mark(export@, "[method]utxo."@) == Some(name@),
            None => behind_mark(export@, "[method]utxo."@) is None,
        },
{
    cut_behind(export, "[method]utxo.")
}

/// The text of an interface with these declarations.
pub open spec fn interface_text(name: Seq<char>, declarations: Seq<Seq<char>>) -> Seq<char> {
    "package starstream:utxo;\n\ninterface "@ + name + " {\n"@ + lines(
        declarations,
        declarations.len(),
    ) + "}\n"@
}

/// The first `n` declarations, each on a line of its own.
pub open spec fn lines(declarations: Seq<Seq<char>>, n: nat) -> Seq<char>
    decreases n,
{
    if n == 0 {
        Seq::empty()
    } else {
        lines(declarations, (n - 1) as nat) + "    "@ + declarations[n - 1] + "\n"@
    }
}

/// The text of an interface with these declarations.
pub fn write_interface(name: &str, declarations: &Vec<String>) -> (r: String)
    ensures
        r@ == interface_text(name@, texts(declarations@)),
{
    let ghost all = texts(declarations@);
    let mut r = "package starstream:utxo;\n\ninterface ".to_owned();
    r.append(name);
    r.append(" {\n");
    let ghost head = r@;
    let mut i: usize = 0;
    assert(head + lines(all, 0) =~= head);
    while i < declarations.len()
        invariant
            0 <= i <= declarations@.len(),
            all == texts(declarations@),
            r@ == head + lines(all, i as nat),
        decreases declarations@.len() - i,
    {
        r.append("    ");
        r.append(declarations[i].as_str());
        r.append("\n");
        assert(r@ =~= head + lines(all, (i + 1) as nat));
        i += 1;
    }
    r.append("}\n");
    r
}

/// The export that is looked up for a constructor's name is `[static]utxo.` and the name:
/// where a `utxo` exports a function so, that function is found.
pub proof fn constructors_are_looked_up_by_their_names(
    name: &str,
    r: String,
    own: Seq<(Seq<char>, ItemV)>,
    utxo: UtxoV,
    i: int,
)
    requires
        call_ensures(constructor_export, (name,), r),
    ensures
        r@.len() == 13 + name@.len(),
        r@.take(13) == seq!['[', 's', 't', 'a', 't', 'i', 'c', ']', 'u', 't', 'x', 'o', '.'],
        r@.skip(13) == name@,
        ({
            let export = utxo.items[i].0;
            let inside = instance_items(own, utxo.instance);
            &&& 0 <= i < utxo.items.len()
            &&& distinct_names(utxo.items)
            &&& export.len() == 13 + name@.len()
            &&& export.take(13) == seq![
                '[',
                's',
                't',
                'a',
                't',
                'i',
                'c',
                ']',
                'u',
                't',
                'x',
                'o',
                '.',
            ]
            &&& export.skip(13) == name@
            &&& utxo.items[i].1 matches ItemV::Func(f) && f.results == seq![
                TypeV::Own(utxo.resource),
            ]
            &&& lookup(inside, export) is Some
        }) ==> function_named(Role::Constructor, own, utxo, r@) == Ok::<FuncExportV, Cause>(
            FuncExportV {
                ty: utxo.items[i].1->Func_0,
                instance: utxo.instance,
                name: utxo.items[i].0,
            },
        ),
{
    reveal_strlit("[static]utxo.");
    assert(r@.take(13) =~= seq![
        '[',
        's',
        't',
        'a',
        't',
        'i',
        'c',
        ']',
        'u',
        't',
        'x',
        'o',
        '.',
    ]);
    assert(r@.skip(13) =~= name@);
    if 0 <= i < utxo.items.len() && distinct_names(utxo.items) && utxo.items[i].0.len() == 13
        + name@.len() && utxo.items[i].0.take(13) == r@.take(13) && utxo.items[i].0.skip(13)
        == name@ {
        let export = utxo.items[i].0;
        assert(export =~= export.take(13) + export.skip(13));
        assert(r@ =~= r@.take(13) + r@.skip(13));
        assert(export == r@);
        assert(first_named(utxo.items, r@, i));
        lemma_lookup(utxo.items, r@, i);
    }
}

/// An exported instance is served as the package `starstream:utxo` and the name of the
/// interface: what stands behind the export's first slash, but for its version.
pub proof fn instances_are_served_by_their_interfaces(
    export: &str,
    r: String,
    package: Seq<char>,
    interface: Seq<char>,
    version: Seq<char>,
)
    requires
        call_ensures(served_instance, (export,), r),
        !package.contains('/'),
        !interface.contains('@'),
    ensures
        export@ == package + seq!['/'] + interface ==> r@ == "starstream:utxo/"@ + interface,
        export@ == package + seq!['/'] + interface + seq!['@'] + version ==> r@
            == "starstream:utxo/"@ + interface,
        export@ == interface && !interface.contains('/') ==> r@ == "starstream:utxo/"@ + interface,
{
    lemma_interface_name(package, interface, version);
}

/// The name of an interface is what stands behind the first slash of an export, but for
/// its version.
pub proof fn interfaces_have_no_package_and_no_version(
    export: &str,
    r: String,
    package: Seq<char>,
    interface: Seq<char>,
    version: Seq<char>,
)
    requires
        call_ensures(interface_of, (export,), r),
        !package.contains('/'),
        !interface.contains('@'),
    ensures
        export@ == package + seq!['/'] + interface ==> r@ == interface,
        export@ == package + seq!['/'] + interface + seq!['@'] + version ==> r@ == interface,
        export@ == interface && !interface.contains('/') ==> r@ == interface,
        export@ == interface + seq!['@'] + version && !interface.contains('/')
            && !version.contains('/') ==> r@ == interface,
{
    lemma_interface_name(package, interface, version);
    if !interface.contains('/') && !version.contains('/') {
        let whole = interface + seq!['@'] + version;
        assert(!whole.contains('/')) by {
            if whole.contains('/') {
                let i = choose|i: int| 0 <= i < whole.len() && whole[i] == '/';
                if i < interface.len() {
                    assert(interface[i] == '/');
                } else if i > interface.len() {
                    assert(version[i - interface.len() - 1] == '/');
                }
            }
        }
        cuts_are_at_the_first(whole, '/', Seq::empty());
        cuts_are_at_the_first(interface, '@', version);
        assert(whole =~= interface.push('@') + version);
    }
}

proof fn lemma_interface_name(package: Seq<char>, interface: Seq<char>, version: Seq<char>)
    requires
        !package.contains('/'),
        !interface.contains('@'),
    ensures
        interface_name(package + seq!['/'] + interface) == interface,
        interface_name(package + seq!['/'] + interface + seq!['@'] + version) == interface,
        !interface.contains('/') ==> interface_name(interface) == interface,
{
    let tail = interface.push('@') + version;
    cuts_are_at_the_first(package, '/', interface);
    cuts_are_at_the_first(package, '/', tail);
    cuts_are_at_the_first(interface, '@', version);
    assert(package + seq!['/'] + interface =~= package.push('/') + interface);
    assert(package + seq!['/'] + interface + seq!['@'] + version =~= package.push('/') + tail);
    if !interface.contains('/') {
        cuts_are_at_the_first(interface, '/', Seq::empty());
    }
}

/// The instance that is served and the text of its interface name one interface of one
/// package.
pub proof fn served_instances_are_the_interfaces_of_the_text(
    export: &str,
    served: String,
    interface: String,
    name: &str,
    declarations: &Vec<String>,
    text: String,
)
    requires
        call_ensures(served_instance, (export,), served),
        call_ensures(interface_of, (export,), interface),
        name@ == interface@,
        call_ensures(write_interface, (name, declarations), text),
    ensures
        exists|package: Seq<char>, interface: Seq<char>, rest: Seq<char>| #![auto]
            served@ == package + "/"@ + interface && text@ == "package "@ + package
                + ";\n\ninterface "@ + interface + " {\n"@ + rest,
{
    let package = "starstream:utxo"@;
    reveal_strlit("starstream:utxo/");
    reveal_strlit("starstream:utxo");
    reveal_strlit("/");
    reveal_strlit("package ");
    reveal_strlit(";\n\ninterface ");
    reveal_strlit("package starstream:utxo;\n\ninterface ");
    let all = texts(declarations@);
    let rest = lines(all, all.len()) + "}\n"@;
    assert(served@ =~= package + "/"@ + name@);
    assert(text@ =~= "package "@ + package + ";\n\ninterface "@ + name@ + " {\n"@ + rest);
}

/// The text of an interface has one line for each declaration, in order, between the line
/// that names the interface and the closing bracket.
pub proof fn interfaces_list_their_declarations(
    name: &str,
    declarations: &Vec<String>,
    more: &Vec<String>,
    text: String,
    longer: String,
)
    requires
        call_ensures(write_interface, (name, declarations), text),
        call_ensures(write_interface, (name, more), longer),
        more@.len() == declarations@.len() + 1,
        forall|i: int| 0 <= i < declarations@.len() ==> (#[trigger] more@[i])@
            == declarations@[i]@,
    ensures
        declarations@.len() == 0 ==> text@ == "package starstream:utxo;\n\ninterface "@ + name@
            + " {\n}\n"@,
        exists|shown: Seq<char>| #![auto]
            text@ == shown + "}\n"@ && longer@ == shown + "    "@
                + more@[declarations@.len() as int]@ + "\n}\n"@,
{
    let a = texts(declarations@);
    let b = texts(more@);
    let n = a.len();
    lemma_lines_part(a, b, n);
    let shown = "package starstream:utxo;\n\ninterface "@ + name@ + " {\n"@ + lines(a, n);
    reveal_strlit("}\n");
    reveal_strlit(" {\n");
    reveal_strlit(" {\n}\n");
    reveal_strlit("\n}\n");
    reveal_strlit("\n");
    assert(text@ =~= shown + "}\n"@);
    assert(longer@ =~= shown + "    "@ + more@[n as int]@ + "\n}\n"@);
    if n == 0 {
        assert(text@ =~= "package starstream:utxo;\n\ninterface "@ + name@ + " {\n}\n"@);
    }
}

proof fn lemma_lines_part(a: Seq<Seq<char>>, b: Seq<Seq<char>>, n: nat)
    requires
        n <= a.len(),
        n <= b.len(),
        forall|i: int| 0 <= i < n ==> a[i] == b[i],
    ensures
        lines(a, n) == lines(b, n),
    decreases n,
{
    if n > 0 {
        lemma_lines_part(a, b, (n - 1) as nat);
    }
}

/// A declaration lists the parameters of a function in order, each with its type.
pub proof fn declarations_list_their_parameters(
    name: &str,
    params: &Vec<(String, String)>,
    more: &Vec<(String, String)>,
    results: &Vec<String>,
    text: String,
    longer: String,
)
    requires
        call_ensures(declare, (name, params, results), text),
        call_ensures(declare, (name, more, results), longer),
        more@.len() == params@.len() + 1,
        forall|i: int|
            0 <= i < params@.len() ==> (#[trigger] more@[i]).0@ == params@[i].0@ && more@[i].1@
                == params@[i].1@,
    ensures
        exists|shown: Seq<char>, rest: Seq<char>| #![auto]
            text@ == name@ + ": func("@ + shown + ")"@ + rest && longer@ == name@ + ": func("@
                + shown + if params@.len() == 0 {
                ""@
            } else {
                ", "@
            } + more@[params@.len() as int].0@ + ": "@ + more@[params@.len() as int].1@ + ")"@
                + rest && (params@.len() == 0 ==> shown.len() == 0),
{
    let a = param_texts(pairs(params@));
    let b = param_texts(pairs(more@));
    let n = a.len();
    assert forall|i: int| 0 <= i < n implies a[i] == b[i] by {
        let _ = more@[i];
    }
    assert(b.drop_last() =~= a);
    assert(b =~= a.push(b[n as int]));
    joined_texts_stand_in_order(a, b[n as int], ", "@);
    let shown = joined(a, ", "@, n);
    let rest = return_text(texts(results@)) + ";"@;
    reveal_strlit("");
    assert(text@ =~= name@ + ": func("@ + shown + ")"@ + rest);
    assert(longer@ =~= name@ + ": func("@ + shown + if n == 0 {
        ""@
    } else {
        ", "@
    } + more@[n as int].0@ + ": "@ + more@[n as int].1@ + ")"@ + rest);
}

/// A declaration ends in what the function returns: nothing, one type, or several in
/// brackets with commas between them.
pub proof fn declarations_end_in_their_results(
    name: &str,
    params: &Vec<(String, String)>,
    results: &Vec<String>,
    more: &Vec<String>,
    text: String,
    longer: String,
)
    requires
        call_ensures(declare, (name, params, results), text),
        call_ensures(declare, (name, params, more), longer),
        more@.len() == results@.len() + 1,
        forall|i: int| 0 <= i < results@.len() ==> (#[trigger] more@[i])@ == results@[i]@,
    ensures
        results@.len() == 0 ==> exists|head: Seq<char>| #![auto]
            text@ == head + ");"@ && longer@ == head + ") -> "@ + more@[0]@ + ";"@,
        results@.len() == 1 ==> exists|head: Seq<char>| #![auto]
            text@ == head + ") -> "@ + results@[0]@ + ";"@ && longer@ == head + ") -> ("@
                + results@[0]@ + ", "@ + more@[1]@ + ");"@,
        results@.len() > 1 ==> exists|head: Seq<char>, shown: Seq<char>| #![auto]
            text@ == head + ") -> ("@ + shown + ");"@ && longer@ == head + ") -> ("@ + shown
                + ", "@ + more@[results@.len() as int]@ + ");"@,
{
    let a = texts(results@);
    let b = texts(more@);
    let n = a.len();
    assert(b =~= a.push(b[n as int]));
    joined_texts_stand_in_order(a, b[n as int], ", "@);
    let head = name@ + ": func("@ + joined(param_texts(pairs(params@)), ", "@, params@.len());
    let shown = joined(a, ", "@, n);
    reveal_strlit(");");
    reveal_strlit(")");
    reveal_strlit(";");
    reveal_strlit(") -> ");
    reveal_strlit(" -> ");
    reveal_strlit(") -> (");
    reveal_strlit(" -> (");
    if n == 0 {
        assert(text@ =~= head + ");"@);
        assert(longer@ =~= head + ") -> "@ + more@[0]@ + ";"@);
    } else if n == 1 {
        assert(text@ =~= head + ") -> "@ + results@[0]@ + ";"@);
        assert(longer@ =~= head + ") -> ("@ + results@[0]@ + ", "@ + more@[1]@ + ");"@);
    } else {
        assert(text@ =~= head + ") -> ("@ + shown + ");"@);
        assert(longer@ =~= head + ") -> ("@ + shown + ", "@ + more@[n as int]@ + ");"@);
    }
}

/// A function without parameters and results is declared by its name alone.
pub proof fn declarations_begin_with_their_names(
    name: &str,
    params: &Vec<(String, String)>,
    results: &Vec<String>,
    text: String,
)
    requires
        call_ensures(declare, (name, params, results), text),
    ensures
        exists|rest: Seq<char>| #![auto]
            text@ == name@ + ": func("@ + rest && (params@.len() == 0 && results@.len() == 0
                ==> rest == ");"@),
{
    let rest = joined(param_texts(pairs(params@)), ", "@, params@.len()) + ")"@ + return_text(
        texts(results@),
    ) + ";"@;
    reveal_strlit(");");
    reveal_strlit(")");
    reveal_strlit(";");
    assert(text@ =~= name@ + ": func("@ + rest);
    if params@.len() == 0 && results@.len() == 0 {
        assert(rest =~= ");"@);
    }
}

/// A method is declared under the name behind the last dot of its export, with every
/// parameter but the first and every result, in order. The resource is called `utxo`.
pub proof fn methods_are_declared_without_their_receivers(
    export: &str,
    ty: &ComponentFunc,
    text: String,
    prefix: Seq<char>,
    name: &str,
    params: &Vec<(String, String)>,
    results: &Vec<String>,
    plain: String,
)
    requires
        call_ensures(wit_func, (export, ty), text),
        call_ensures(declare, (name, params, results), plain),
        !name@.contains('.'),
        export@ == prefix + seq!['.'] + name@ || export@ == name@,
        func_of(*ty).params.len() == if params@.len() == 0 && func_of(*ty).params.len() == 0 {
            0
        } else {
            params@.len() + 1
        },
        forall|i: int|
            0 <= i < params@.len() ==> (#[trigger] params@[i]).0@ == func_of(*ty).params[i + 1].0
                && shown_type(func_of(*ty).params[i + 1].1, params@[i].1@),
        results@.len() == func_of(*ty).results.len(),
        forall|i: int|
            0 <= i < results@.len() ==> shown_type(
                func_of(*ty).results[i],
                (#[trigger] results@[i])@,
            ),
    ensures
        text@ == plain@,
{
    hash_ignores_prefix(prefix, name@);
    assert(prefix + seq!['.'] + name@ =~= prefix.push('.') + name@);
    lemma_whole_segment(name@);
    assert(pairs(params@) =~= typed_names(without_first(func_of(*ty).params))) by {
        assert forall|i: int| 0 <= i < params@.len() implies pairs(params@)[i] == typed_names(
            without_first(func_of(*ty).params),
        )[i] by {
            let _ = params@[i];
        }
    }
    assert(texts(results@) =~= wit_texts(func_of(*ty).results)) by {
        assert forall|i: int| 0 <= i < results@.len() implies texts(results@)[i] == wit_texts(
            func_of(*ty).results,
        )[i] by {
            let _ = results@[i];
        }
    }
}

/// Whether a type is written so: a resource as `utxo`, since there is no other.
pub open spec fn shown_type(ty: TypeV, text: Seq<char>) -> bool {
    (ty is Own ==> text == "utxo"@) && (ty is Borrow ==> text == "borrow<utxo>"@) && (!(ty is Own
        || ty is Borrow) ==> text == wave_text(ty))
}

/// A method is served under what stands behind `[method]utxo.` in its export, and an
/// export without that is not served.
pub proof fn methods_are_served_by_their_names(export: &str, r: Option<String>, name: Seq<char>)
    requires
        call_ensures(served_name, (export,), r),
    ensures
        export@ == "[method]utxo."@ + name ==> (r matches Some(s) && s@ == name),
        r matches Some(s) ==> exists|before: Seq<char>| #![auto]
            export@ == before + "[method]utxo."@ + s@,
        r is None ==> !exists|before: Seq<char>, behind: Seq<char>| #![auto]
            export@ == before + "[method]utxo."@ + behind,
{
    let mark = "[method]utxo."@;
    reveal_strlit("[method]utxo.");
    let s = export@;
    if s == mark + name {
        assert(s.subrange(0, 0 + mark.len() as int) =~= mark);
        marks_are_found_first(s, mark, 0);
        assert(s.skip(mark.len() as int) =~= name);
    }
    if let Some(t) = r {
        let before = lemma_behind_mark(s, mark, t@);
        assert(s == before + "[method]utxo."@ + t@);
    } else {
        assert forall|before: Seq<char>, behind: Seq<char>| #![auto] s != before
            + "[method]utxo."@ + behind by {
            if s == before + mark + behind {
                lemma_mark_is_found(s, mark, before, behind);
            }
        }
    }
}

proof fn lemma_behind_mark(s: Seq<char>, mark: Seq<char>, t: Seq<char>) -> (before: Seq<char>)
    requires
        behind_mark(s, mark) == Some(t),
    ensures
        s == before + mark + t,
    decreases s.len(),
{
    if begins(s, mark) {
        assert(s =~= Seq::<char>::empty() + mark + t);
        Seq::empty()
    } else {
        let rest = lemma_behind_mark(s.skip(1), mark, t);
        assert(s =~= seq![s[0]] + s.skip(1));
        assert(s =~= seq![s[0]] + rest + mark + t);
        seq![s[0]] + rest
    }
}

proof fn lemma_mark_is_found(s: Seq<char>, mark: Seq<char>, before: Seq<char>, behind: Seq<char>)
    requires
        s == before + mark + behind,
    ensures
        behind_mark(s, mark) is Some,
    decreases s.len(),
{
    if before.len() == 0 {
        assert(s.take(mark.len() as int) =~= mark);
    } else if !begins(s, mark) {
        assert(s.skip(1) =~= before.skip(1) + mark + behind);
        lemma_mark_is_found(s.skip(1), mark, before.skip(1), behind);
    }
}

/// What the text of an interface is: the line of its name, a line for each declaration, and
/// the closing bracket.
pub proof fn interface_texts_are_made_of_lines(
    name: Seq<char>,
    declarations: Seq<Seq<char>>,
    last: Seq<char>,
)
    ensures
        interface_text(name, Seq::empty()) == "package starstream:utxo;\n\ninterface "@ + name
            + " {\n}\n"@,
        exists|shown: Seq<char>| #![auto]
            interface_text(name, declarations) == shown + "}\n"@ && interface_text(
                name,
                declarations.push(last),
            ) == shown + "    "@ + last + "\n}\n"@,
{
    reveal_strlit("}\n");
    reveal_strlit(" {\n");
    reveal_strlit(" {\n}\n");
    reveal_strlit("\n}\n");
    reveal_strlit("\n");
    let n = declarations.len();
    let all = declarations.push(last);
    lemma_lines_part(declarations, all, n);
    let shown = "package starstream:utxo;\n\ninterface "@ + name + " {\n"@ + lines(
        declarations,
        n,
    );
    assert(interface_text(name, declarations) =~= shown + "}\n"@);
    assert(interface_text(name, all) =~= shown + "    "@ + last + "\n}\n"@);
    assert(lines(Seq::empty(), 0) == Seq::<char>::empty());
    assert(interface_text(name, Seq::empty()) =~= "package starstream:utxo;\n\ninterface "@ + name
        + " {\n}\n"@);
}

/// A type is written in the notation of WIT, and a resource, of which there is but one, by
/// its name.
pub proof fn resources_are_written_as_utxo(ty: &WasmType, r: String)
    requires
        describable(Source::Type(*ty)),
        call_ensures(wit_type, (ty,), r),
    ensures
        shown_type(type_of(*ty), r@),
{
}

} // verus!
