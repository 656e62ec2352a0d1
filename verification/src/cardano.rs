//! What a contract imports as `starstream:std/cardano`.

use vstd::prelude::*;

verus! {

/// The host's side of `starstream:std/cardano`.
pub trait Host {
    fn block_height(&mut self) -> i64;

    fn current_slot(&mut self) -> i64;
}

} // verus!
