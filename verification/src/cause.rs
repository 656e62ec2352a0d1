//! Why a contract, or something asked of it, is refused.

use vstd::prelude::*;

verus! {

/// Why something was refused.
#[derive(Clone, Copy, Debug, PartialEq, Eq, Structural)]
pub enum Cause {
    CoordinationScript,
    AbiCoreFunc,
    AbiModule,
    AbiComponent,
    AbiInstance,
    AbiResource,
    RootFunc,
    RootCoreFunc,
    RootModule,
    RootComponent,
    RootResource,
    ExportNotFound,
    NotAnInstance,
    NotAFunction,
    NoUtxoResource,
    StorageNotARecord,
    GetNotFound,
    GetNotAFunction,
    GetParams,
    GetResource,
    GetResults,
    GetRecord,
    SetNotFound,
    SetNotAFunction,
    SetParams,
    SetRecord,
    SetResults,
    SetResource,
    NoSingleResource,
    ReturnMismatch,
    NoBorrow,
    ResourceMismatch,
    UnexpectedValue,
    ConstructorNotFound,
    FunctionNotFound,
    AsyncFunction,
    InvalidReturn,
}

/// The sentence that says so.
pub open spec fn cause_text(cause: Cause) -> Seq<char> {
    match cause {
        Cause::CoordinationScript => "coordination scripts not supported yet"@,
        Cause::AbiCoreFunc => "ABI instance core function imports unsupported"@,
        Cause::AbiModule => "ABI instance module imports unsupported"@,
        Cause::AbiComponent => "ABI instance component imports unsupported"@,
        Cause::AbiInstance => "ABI instance component instance imports unsupported"@,
        Cause::AbiResource => "ABI instance resource imports unsupported"@,
        Cause::RootFunc => "root instance function imports unsupported"@,
        Cause::RootCoreFunc => "core function imports unsupported"@,
        Cause::RootModule => "module imports unsupported"@,
        Cause::RootComponent => "component imports unsupported"@,
        Cause::RootResource => "root instance resource imports unsupported"@,
        Cause::ExportNotFound => "export not found"@,
        Cause::NotAnInstance => "export is not an instance"@,
        Cause::NotAFunction => "export is not a function"@,
        Cause::NoUtxoResource => "instance does not export `utxo` resource"@,
        Cause::StorageNotARecord => "`storage` export is not a record"@,
        Cause::GetNotFound => "`get-storage` export not found"@,
        Cause::GetNotAFunction => "`get-storage` export is not a function"@,
        Cause::GetParams => "`get-storage` does not take borrowed resource type as the only parameter"@,
        Cause::GetResource => "`get-storage` resource type does not match UTXO resource type"@,
        Cause::GetResults => "`get-storage` does not return a record as the only return value"@,
        Cause::GetRecord => "`get-storage` record type does not match storage type"@,
        Cause::SetNotFound => "`set-storage` export not found"@,
        Cause::SetNotAFunction => "`set-storage` export is not a function"@,
        Cause::SetParams => "`set-storage` does not take a storage record as the only parameter"@,
        Cause::SetRecord => "`set-storage` record type does not match storage type"@,
        Cause::SetResults => "`set-storage` does not return an owned resource as the only return value"@,
        Cause::SetResource => "`set-storage` resource type does not match UTXO resource type"@,
        Cause::NoSingleResource => "function does not return a single resource value"@,
        Cause::ReturnMismatch => "function return value does not match UTXO resource type"@,
        Cause::NoBorrow => "function does not take borrowed resource type as first parameter"@,
        Cause::ResourceMismatch => "resource type does not match UTXO resource type"@,
        Cause::UnexpectedValue => "unexpected value type"@,
        Cause::ConstructorNotFound => "failed to lookup constructor function export"@,
        Cause::FunctionNotFound => "function export not found"@,
        Cause::AsyncFunction => "async function cannot be called synchronously"@,
        Cause::InvalidReturn => "invalid return value"@,
    }
}

impl Cause {
    /// The sentence that says why.
    pub fn text(self) -> (r: &'static str)
        ensures
            r@ == cause_text(self),
    {
        match self {
            Cause::CoordinationScript => "coordination scripts not supported yet",
            Cause::AbiCoreFunc => "ABI instance core function imports unsupported",
            Cause::AbiModule => "ABI instance module imports unsupported",
            Cause::AbiComponent => "ABI instance component imports unsupported",
            Cause::AbiInstance => "ABI instance component instance imports unsupported",
            Cause::AbiResource => "ABI instance resource imports unsupported",
            Cause::RootFunc => "root instance function imports unsupported",
            Cause::RootCoreFunc => "core function imports unsupported",
            Cause::RootModule => "module imports unsupported",
            Cause::RootComponent => "component imports unsupported",
            Cause::RootResource => "root instance resource imports unsupported",
            Cause::ExportNotFound => "export not found",
            Cause::NotAnInstance => "export is not an instance",
            Cause::NotAFunction => "export is not a function",
            Cause::NoUtxoResource => "instance does not export `utxo` resource",
            Cause::StorageNotARecord => "`storage` export is not a record",
            Cause::GetNotFound => "`get-storage` export not found",
            Cause::GetNotAFunction => "`get-storage` export is not a function",
            Cause::GetParams => "`get-storage` does not take borrowed resource type as the only parameter",
            Cause::GetResource => "`get-storage` resource type does not match UTXO resource type",
            Cause::GetResults => "`get-storage` does not return a record as the only return value",
            Cause::GetRecord => "`get-storage` record type does not match storage type",
            Cause::SetNotFound => "`set-storage` export not found",
            Cause::SetNotAFunction => "`set-storage` export is not a function",
            Cause::SetParams => "`set-storage` does not take a storage record as the only parameter",
            Cause::SetRecord => "`set-storage` record type does not match storage type",
            Cause::SetResults => "`set-storage` does not return an owned resource as the only return value",
            Cause::SetResource => "`set-storage` resource type does not match UTXO resource type",
            Cause::NoSingleResource => "function does not return a single resource value",
            Cause::ReturnMismatch => "function return value does not match UTXO resource type",
            Cause::NoBorrow => "function does not take borrowed resource type as first parameter",
            Cause::ResourceMismatch => "resource type does not match UTXO resource type",
            Cause::UnexpectedValue => "unexpected value type",
            Cause::ConstructorNotFound => "failed to lookup constructor function export",
            Cause::FunctionNotFound => "function export not found",
            Cause::AsyncFunction => "async function cannot be called synchronously",
            Cause::InvalidReturn => "invalid return value",
        }
    }
}

/// Each cause is told by a sentence of its own.
pub proof fn causes_have_their_sentences(c: Cause, r: &'static str)
    requires
        call_ensures(Cause::text, (c,), r),
    ensures
        c == Cause::CoordinationScript ==> r@
            == "coordination scripts not supported yet"@,
        c == Cause::AbiCoreFunc ==> r@
            == "ABI instance core function imports unsupported"@,
        c == Cause::AbiModule ==> r@
            == "ABI instance module imports unsupported"@,
        c == Cause::AbiComponent ==> r@
            == "ABI instance component imports unsupported"@,
        c == Cause::AbiInstance ==> r@
            == "ABI instance component instance imports unsupported"@,
        c == Cause::AbiResource ==> r@
            == "ABI instance resource imports unsupported"@,
        c == Cause::RootFunc ==> r@
            == "root instance function imports unsupported"@,
        c == Cause::RootCoreFunc ==> r@
            == "core function imports unsupported"@,
        c == Cause::RootModule ==> r@
            == "module imports unsupported"@,
        c == Cause::RootComponent ==> r@
            == "component imports unsupported"@,
        c == Cause::RootResource ==> r@
            == "root instance resource imports unsupported"@,
        c == Cause::ExportNotFound ==> r@
            == "export not found"@,
        c == Cause::NotAnInstance ==> r@
            == "export is not an instance"@,
        c == Cause::NotAFunction ==> r@
            == "export is not a function"@,
        c == Cause::NoUtxoResource ==> r@
            == "instance does not export `utxo` resource"@,
        c == Cause::StorageNotARecord ==> r@
            == "`storage` export is not a record"@,
        c == Cause::GetNotFound ==> r@
            == "`get-storage` export not found"@,
        c == Cause::GetNotAFunction ==> r@
            == "`get-storage` export is not a function"@,
        c == Cause::GetParams ==> r@
            == "`get-storage` does not take borrowed resource type as the only parameter"@,
        c == Cause::GetResource ==> r@
            == "`get-storage` resource type does not match UTXO resource type"@,
        c == Cause::GetResults ==> r@
            == "`get-storage` does not return a record as the only return value"@,
        c == Cause::GetRecord ==> r@
            == "`get-storage` record type does not match storage type"@,
        c == Cause::SetNotFound ==> r@
            == "`set-storage` export not found"@,
        c == Cause::SetNotAFunction ==> r@
            == "`set-storage` export is not a function"@,
        c == Cause::SetParams ==> r@
            == "`set-storage` does not take a storage record as the only parameter"@,
        c == Cause::SetRecord ==> r@
            == "`set-storage` record type does not match storage type"@,
        c == Cause::SetResults ==> r@
            == "`set-storage` does not return an owned resource as the only return value"@,
        c == Cause::SetResource ==> r@
            == "`set-storage` resource type does not match UTXO resource type"@,
        c == Cause::NoSingleResource ==> r@
            == "function does not return a single resource value"@,
        c == Cause::ReturnMismatch ==> r@
            == "function return value does not match UTXO resource type"@,
        c == Cause::NoBorrow ==> r@
            == "function does not take borrowed resource type as first parameter"@,
        c == Cause::ResourceMismatch ==> r@
            == "resource type does not match UTXO resource type"@,
        c == Cause::UnexpectedValue ==> r@
            == "unexpected value type"@,
        c == Cause::ConstructorNotFound ==> r@
            == "failed to lookup constructor function export"@,
        c == Cause::FunctionNotFound ==> r@
            == "function export not found"@,
        c == Cause::AsyncFunction ==> r@
            == "async function cannot be called synchronously"@,
        c == Cause::InvalidReturn ==> r@
            == "invalid return value"@,
{
}

} // verus!
