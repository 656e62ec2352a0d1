//! What a contract imports as `starstream:std/builtin`.

use vstd::prelude::*;

verus! {

/// The host's side of `starstream:std/builtin`.
pub trait Host {
    /// The guest declares that it implements the method with this hash. An error
    /// traps the guest.
    fn implements_method(&mut self, hash: (u64, u64, u64, u64)) -> Result<(), wasmtime::Error>;
}

} // verus!
