//! What can go wrong between a contract's bytes and a call's results.

use vstd::prelude::*;

use crate::cause::Cause;

verus! {

/// `wasmtime::Error`: what the engine fails with.
#[verifier::external_type_specification]
#[verifier::external_body]
pub struct ExWasmError(wasmtime::Error);

/// `anyhow::Error`: what the component encoder fails with.
#[verifier::external_type_specification]
#[verifier::external_body]
pub struct ExAnyhowError(anyhow::Error);

/// What the engine was doing when it failed.
#[derive(Clone, Copy, Debug, PartialEq, Eq, Structural)]
pub enum Step {
    CreateEngine,
    LoadComponent,
    LinkBuiltins,
    LinkEvent,
    DeriveType,
    PreInstantiate,
    Instantiate,
    CallConstructor,
    CallMethod,
    CallFunction,
    DropResource,
}

/// How far the making of a component from a core module came.
#[derive(Clone, Copy, Debug, PartialEq, Eq, Structural)]
pub enum Stage {
    SetModule,
    AddAdapter,
    Encode,
}

/// Why a contract could not be loaded or run.
#[derive(Debug)]
pub enum RunError {
    Refused(Cause),
    Engine(Step, wasmtime::Error),
    Import(String, wasmtime::Error),
    Componentize(Stage, anyhow::Error),
}

/// The sentence that says what the engine was doing, where its own error does not
/// stand alone.
pub open spec fn step_text(step: Step) -> Option<Seq<char>> {
    match step {
        Step::CreateEngine => Some("failed to create engine"@),
        Step::LoadComponent => None,
        Step::LinkBuiltins => Some("failed to link builtins"@),
        Step::LinkEvent => None,
        Step::DeriveType => Some("failed to derive component type"@),
        Step::PreInstantiate => Some("failed to pre-instantiate component"@),
        Step::Instantiate => Some("failed to instantiate component"@),
        Step::CallConstructor => Some("failed to call constructor function"@),
        Step::CallMethod => Some("failed to call method"@),
        Step::CallFunction => Some("failed to call function"@),
        Step::DropResource => None,
    }
}

impl Step {
    /// The sentence that says what the engine was doing, where its own error does not
    /// stand alone.
    pub fn text(self) -> (r: Option<&'static str>)
        ensures
            match r {
                Some(text) => step_text(self) == Some(text@),
                None => step_text(self) is None,
            },
    {
        match self {
            Step::CreateEngine => Some("failed to create engine"),
            Step::LoadComponent => None,
            Step::LinkBuiltins => Some("failed to link builtins"),
            Step::LinkEvent => None,
            Step::DeriveType => Some("failed to derive component type"),
            Step::PreInstantiate => Some("failed to pre-instantiate component"),
            Step::Instantiate => Some("failed to instantiate component"),
            Step::CallConstructor => Some("failed to call constructor function"),
            Step::CallMethod => Some("failed to call method"),
            Step::CallFunction => Some("failed to call function"),
            Step::DropResource => None,
        }
    }
}

/// The sentence that says which import found no place in the linker.
pub open spec fn import_text(name: Seq<char>) -> Seq<char> {
    "failed to instantiate `"@ + name + "` in the linker"@
}

/// The sentence that says which import found no place in the linker.
pub fn import_error_text(name: &str) -> (r: String)
    ensures
        r@ == import_text(name@),
{
    let mut r = "failed to instantiate `".to_owned();
    r.append(name);
    r.append("` in the linker");
    r
}

/// The sentence that says what could not be done with a core module.
pub open spec fn stage_text(stage: Stage) -> Seq<char> {
    match stage {
        Stage::SetModule => "failed to set core component module"@,
        Stage::AddAdapter => "failed to add WASI adapter"@,
        Stage::Encode => "failed to encode a component"@,
    }
}

impl Stage {
    /// The sentence that says what could not be done with a core module.
    pub fn text(self) -> (r: &'static str)
        ensures
            r@ == stage_text(self),
    {
        match self {
            Stage::SetModule => "failed to set core component module",
            Stage::AddAdapter => "failed to add WASI adapter",
            Stage::Encode => "failed to encode a component",
        }
    }
}

/// What the engine was doing is told in front of its error, but where that stands alone.
pub proof fn steps_have_their_sentences(step: Step, r: Option<&'static str>)
    requires
        call_ensures(Step::text, (step,), r),
    ensures
        step == Step::CreateEngine ==> r is Some && r->0@ == "failed to create engine"@,
        step == Step::LoadComponent ==> r is None,
        step == Step::LinkBuiltins ==> r is Some && r->0@ == "failed to link builtins"@,
        step == Step::LinkEvent ==> r is None,
        step == Step::DeriveType ==> r is Some && r->0@ == "failed to derive component type"@,
        step == Step::PreInstantiate ==> r is Some && r->0@
            == "failed to pre-instantiate component"@,
        step == Step::Instantiate ==> r is Some && r->0@ == "failed to instantiate component"@,
        step == Step::CallConstructor ==> r is Some && r->0@
            == "failed to call constructor function"@,
        step == Step::CallMethod ==> r is Some && r->0@ == "failed to call method"@,
        step == Step::CallFunction ==> r is Some && r->0@ == "failed to call function"@,
        step == Step::DropResource ==> r is None,
{
}

/// How far the making of a component came is told by a sentence of its own.
pub proof fn stages_have_their_sentences(stage: Stage, r: &'static str)
    requires
        call_ensures(Stage::text, (stage,), r),
    ensures
        stage == Stage::SetModule ==> r@ == "failed to set core component module"@,
        stage == Stage::AddAdapter ==> r@ == "failed to add WASI adapter"@,
        stage == Stage::Encode ==> r@ == "failed to encode a component"@,
{
}

/// The import that found no place in the linker is named between the words around it.
pub proof fn imports_are_named(name: &str, r: String)
    requires
        call_ensures(import_error_text, (name,), r),
    ensures
        r@ == "failed to instantiate `"@ + name@ + "` in the linker"@,
{
}

} // verus!
