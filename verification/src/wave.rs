//! Values written as text, in the notation of WAVE.

use vstd::prelude::*;
use wasmtime::component::types::ComponentFunc;
use wasmtime::component::{Type as WasmType, Val as WasmVal};

use crate::reflect::{
    describable, fields_describable, func_of, func_params, named_types_of, type_of, Source,
};
use crate::types::{texts, TypeV};

verus! {

/// `wasm_wave::parser::ParserError`: why a text is not a value.
#[verifier::external_type_specification]
#[verifier::external_body]
pub struct ExParserError(wasmtime::component::wasm_wave::parser::ParserError);

/// The value of type `ty` that `wasm_wave` reads from a text.
pub uninterp spec fn wave_value(ty: TypeV, text: Seq<char>) -> Option<wasmtime::component::Val>;

/// Why texts are not the values that were asked for.
pub enum ParamError {
    /// There are more or fewer texts than values.
    Count { expected: usize, got: usize },
    /// The text for this name is not a value.
    Parse {
        name: String,
        text: String,
        error: wasmtime::component::wasm_wave::parser::ParserError,
    },
}

/// `wasm_wave::from_str`: reads a value of a type. Which texts are values is left to
/// the parser.
#[verifier::external_body]
fn from_wave(ty: &WasmType, text: &str) -> (r: Result<
    WasmVal,
    wasmtime::component::wasm_wave::parser::ParserError,
>)
    requires
        describable(Source::Type(*ty)),
    ensures
        match r {
            Ok(v) => wave_value(type_of(*ty), text@) == Some(v),
            Err(_) => wave_value(type_of(*ty), text@) is None,
        },
{
    wasmtime::component::wasm_wave::from_str(ty, text)
}

/// Whether `v` is what the texts say, one value for each type.
pub open spec fn all_parsed(
    types: Seq<(Seq<char>, TypeV)>,
    texts: Seq<Seq<char>>,
    v: Seq<WasmVal>,
) -> bool {
    &&& v.len() == types.len()
    &&& forall|i: int| 0 <= i < v.len() ==> wave_value(types[i].1, texts[i]) == Some(#[trigger] v[i])
}

/// Whether the text at `k` is the first that is not a value.
pub open spec fn first_unparsed(
    types: Seq<(Seq<char>, TypeV)>,
    texts: Seq<Seq<char>>,
    k: int,
) -> bool {
    &&& 0 <= k < types.len()
    &&& wave_value(types[k].1, texts[k]) is None
    &&& forall|i: int| 0 <= i < k ==> wave_value((#[trigger] types[i]).1, texts[i]) is Some
}

/// Reads one value for each name and type.
pub fn parse_values(types: &Vec<(String, WasmType)>, written: &Vec<String>) -> (r: Result<
    Vec<WasmVal>,
    ParamError,
>)
    requires
        fields_describable(types@),
    ensures
        match r {
            Ok(v) => types@.len() == written@.len() && all_parsed(
                named_types_of(types@),
                texts(written@),
                v@,
            ),
            Err(ParamError::Count { expected, got }) => expected != got && expected == types@.len()
                && got == written@.len(),
            Err(ParamError::Parse { name, text, error }) => types@.len() == written@.len()
                && exists|k: int|
                first_unparsed(named_types_of(types@), texts(written@), k) && name@
                    == named_types_of(types@)[k].0 && text@ == texts(written@)[k],
        },
{
    if types.len() != written.len() {
        return Err(ParamError::Count { expected: types.len(), got: written.len() });
    }
    let ghost ts = named_types_of(types@);
    let ghost ws = texts(written@);
    let mut r: Vec<WasmVal> = Vec::new();
    let mut i: usize = 0;
    while i < types.len()
        invariant
            fields_describable(types@),
            0 <= i <= types@.len() == written@.len(),
            ts == named_types_of(types@),
            ws == texts(written@),
            r@.len() == i,
            forall|j: int| 0 <= j < i ==> wave_value(ts[j].1, ws[j]) == Some(#[trigger] r@[j]),
        decreases types@.len() - i,
    {
        match from_wave(&types[i].1, written[i].as_str()) {
            Ok(v) => {
                r.push(v);
            },
            Err(error) => {
                proof {
                    assert forall|j: int| 0 <= j < i implies wave_value(
                        (#[trigger] ts[j]).1,
                        ws[j],
                    ) is Some by {
                        let _ = r@[j];
                    }
                    assert(first_unparsed(ts, ws, i as int));
                }
                return Err(
                    ParamError::Parse {
                        name: types[i].0.clone(),
                        text: written[i].clone(),
                        error,
                    },
                );
            },
        }
        i += 1;
    }
    Ok(r)
}

/// Reads the arguments of a function.
pub fn parse_params(f: &ComponentFunc, written: &Vec<String>) -> (r: Result<
    Vec<WasmVal>,
    ParamError,
>)
    requires
        describable(Source::Func(*f)),
    ensures
        match r {
            Ok(v) => func_of(*f).params.len() == written@.len() && all_parsed(
                func_of(*f).params,
                texts(written@),
                v@,
            ),
            Err(ParamError::Count { expected, got }) => expected != got && expected == func_of(
                *f,
            ).params.len() && got == written@.len(),
            Err(ParamError::Parse { name, text, error }) => func_of(*f).params.len()
                == written@.len() && exists|k: int|
                first_unparsed(func_of(*f).params, texts(written@), k) && name@ == func_of(
                    *f,
                ).params[k].0 && text@ == texts(written@)[k],
        },
{
    let types = func_params(f);
    assert(named_types_of(types@).len() == types@.len());
    parse_values(&types, written)
}

/// The values of a list of fields.
pub open spec fn field_values(fields: Seq<(String, WasmVal)>) -> Seq<WasmVal> {
    Seq::new(fields.len(), |i: int| fields[i].1)
}

/// Reads the fields of a record, one text for each.
pub fn parse_fields(fields: &Vec<(String, WasmType)>, written: &Vec<String>) -> (r: Result<
    Vec<(String, WasmVal)>,
    ParamError,
>)
    requires
        fields_describable(fields@),
    ensures
        match r {
            Ok(v) => {
                &&& fields@.len() == written@.len()
                &&& all_parsed(named_types_of(fields@), texts(written@), field_values(v@))
                &&& forall|i: int| 0 <= i < v@.len() ==> (#[trigger] v@[i]).0@ == fields@[i].0@
            },
            Err(ParamError::Count { expected, got }) => expected != got && expected == fields@.len()
                && got == written@.len(),
            Err(ParamError::Parse { name, text, error }) => fields@.len() == written@.len()
                && exists|k: int|
                first_unparsed(named_types_of(fields@), texts(written@), k) && name@
                    == named_types_of(fields@)[k].0 && text@ == texts(written@)[k],
        },
{
    let mut values = match parse_values(fields, written) {
        Ok(v) => v,
        Err(e) => {
            return Err(e);
        },
    };
    let ghost all = values@;
    let mut r: Vec<(String, WasmVal)> = Vec::new();
    let mut i: usize = 0;
    while i < fields.len()
        invariant
            0 <= i <= fields@.len() == all.len(),
            values@ == all.skip(i as int),
            r@.len() == i,
            forall|j: int| 0 <= j < i ==> (#[trigger] r@[j]).0@ == fields@[j].0@ && r@[j].1 == all[j],
        decreases fields@.len() - i,
    {
        let v = values.remove(0);
        r.push((fields[i].0.clone(), v));
        assert(values@ =~= all.skip(i + 1));
        i += 1;
    }
    assert(field_values(r@) =~= all);
    Ok(r)
}

/// Each text is read by the type at its place, and there are as many texts as types. Where
/// one is no value, the first that is not is told, with its name.
pub proof fn texts_are_read_by_their_types(
    types: &Vec<(String, WasmType)>,
    written: &Vec<String>,
    r: Result<Vec<WasmVal>, ParamError>,
)
    requires
        fields_describable(types@),
        call_ensures(parse_values, (types, written), r),
    ensures
        match r {
            Ok(v) => v@.len() == types@.len() == written@.len() && forall|i: int|
                0 <= i < v@.len() ==> wave_value(type_of(types@[i].1), written@[i]@) == Some(
                    #[trigger] v@[i],
                ),
            Err(ParamError::Count { expected, got }) => expected == types@.len() && got
                == written@.len() && expected != got,
            Err(ParamError::Parse { name, text, error }) => types@.len() == written@.len()
                && exists|k: int| #![trigger written@[k]]
                {
                    &&& 0 <= k < types@.len()
                    &&& name@ == types@[k].0@
                    &&& text@ == written@[k]@
                    &&& wave_value(type_of(types@[k].1), written@[k]@) is None
                    &&& forall|i: int|
                        0 <= i < k ==> wave_value(type_of(types@[i].1), (#[trigger] written@[i])@)
                            is Some
                },
        },
{
    let ts = named_types_of(types@);
    let ws = texts(written@);
    match r {
        Ok(v) => {
            assert forall|i: int| 0 <= i < v@.len() implies wave_value(
                type_of(types@[i].1),
                written@[i]@,
            ) == Some(#[trigger] v@[i]) by {
                assert(wave_value(ts[i].1, ws[i]) == Some(v@[i]));
            }
        },
        Err(ParamError::Parse { name, text, error }) => {
            let k = choose|k: int|
                first_unparsed(ts, ws, k) && name@ == ts[k].0 && text@ == ws[k];
            assert forall|i: int| 0 <= i < k implies wave_value(
                type_of(types@[i].1),
                (#[trigger] written@[i])@,
            ) is Some by {
                assert(wave_value(ts[i].1, ws[i]) is Some);
            }
            let _ = written@[k];
        },
        _ => {},
    }
}

/// The fields of a record are read in order, each under its name and by its type.
pub proof fn fields_are_read_by_their_types(
    fields: &Vec<(String, WasmType)>,
    written: &Vec<String>,
    v: Vec<(String, WasmVal)>,
    i: int,
)
    requires
        fields_describable(fields@),
        call_ensures(parse_fields, (fields, written), Ok::<Vec<(String, WasmVal)>, ParamError>(v)),
    ensures
        v@.len() == fields@.len() == written@.len(),
        0 <= i < v@.len() ==> v@[i].0@ == fields@[i].0@ && wave_value(
            type_of(fields@[i].1),
            written@[i]@,
        ) == Some(v@[i].1),
{
    let ts = named_types_of(fields@);
    let ws = texts(written@);
    assert(field_values(v@).len() == ts.len());
    if 0 <= i < v@.len() {
        assert(wave_value(ts[i].1, ws[i]) == Some(field_values(v@)[i]));
        let _ = v@[i].0;
    }
}

/// The arguments of a function are read by the types of its parameters, in their order.
pub proof fn arguments_are_read_by_their_parameters(
    f: &ComponentFunc,
    written: &Vec<String>,
    v: Vec<WasmVal>,
    i: int,
)
    requires
        describable(Source::Func(*f)),
        call_ensures(parse_params, (f, written), Ok::<Vec<WasmVal>, ParamError>(v)),
    ensures
        v@.len() == func_of(*f).params.len() == written@.len(),
        0 <= i < v@.len() ==> wave_value(func_of(*f).params[i].1, written@[i]@) == Some(v@[i]),
{
    let ws = texts(written@);
    if 0 <= i < v@.len() {
        assert(wave_value(func_of(*f).params[i].1, ws[i]) == Some(v@[i]));
    }
}

} // verus!
