//! What the engine asks of a platform without virtual memory.
//!
//! There is no memory to map, so a mapping is an allocation of zeroed pages, and there
//! is one thread, so its local storage is a pair of words.

use vstd::prelude::*;

verus! {

/// The size of a page, that of WebAssembly.
pub const PAGE_SIZE: usize = 65536;

/// How a mapping is made.
#[derive(Clone, Copy, Debug, PartialEq, Eq, Structural)]
pub enum Mapping {
    /// Nothing is allocated: this address stands for it.
    Dangling(usize),
    /// Zeroed memory is allocated.
    Allocate { size: usize, align: usize },
}

/// Whether an allocation of `size` bytes in whole pages can be asked for.
pub open spec fn allocatable(size: usize) -> bool {
    size + PAGE_SIZE - 1 <= isize::MAX
}

/// How a mapping of `size` bytes is made, where it can be. An empty one is never
/// freed.
pub open spec fn mapping(size: usize) -> Option<Mapping> {
    if size == 0 {
        Some(Mapping::Dangling(PAGE_SIZE))
    } else if allocatable(size) {
        Some(Mapping::Allocate { size, align: PAGE_SIZE })
    } else {
        None
    }
}

/// How a mapping of `size` bytes is made, where it can be.
pub fn plan_map(size: usize) -> (r: Option<Mapping>)
    ensures
        r == mapping(size),
{
    if size == 0 {
        return Some(Mapping::Dangling(PAGE_SIZE));
    }
    if size <= isize::MAX as usize && isize::MAX as usize - size >= PAGE_SIZE - 1 {
        Some(Mapping::Allocate { size, align: PAGE_SIZE })
    } else {
        None
    }
}

/// The size and the alignment with which a mapping of `size` bytes is freed: those with
/// which it was allocated, where it was.
pub fn plan_unmap(size: usize) -> (r: Option<(usize, usize)>)
    ensures
        r == match mapping(size) {
            Some(Mapping::Allocate { size, align }) => Some((size, align)),
            _ => None,
        },
{
    match plan_map(size) {
        Some(Mapping::Allocate { size, align }) => Some((size, align)),
        _ => None,
    }
}

/// The thread-local words of the engine: its own and that of its async support.
#[derive(Clone, Copy, Debug)]
pub struct Tls {
    runtime: usize,
    concurrent: usize,
}

impl Tls {
    /// The words, by their slots.
    pub closed spec fn words(&self) -> Seq<usize> {
        seq![self.runtime, self.concurrent]
    }

    /// Words that are zero.
    pub fn new() -> (r: Tls)
        ensures
            r.words() == seq![0usize, 0usize],
    {
        Tls { runtime: 0, concurrent: 0 }
    }

    /// The word in a slot.
    pub fn get(&self, slot: usize) -> (r: usize)
        requires
            slot < 2,
        ensures
            r == self.words()[slot as int],
    {
        if slot == 0 {
            self.runtime
        } else {
            self.concurrent
        }
    }

    /// Stores a word in a slot.
    pub fn set(&mut self, slot: usize, word: usize)
        requires
            slot < 2,
        ensures
            final(self).words() == old(self).words().update(slot as int, word),
    {
        if slot == 0 {
            self.runtime = word;
        } else {
            self.concurrent = word;
        }
        assert(self.words() =~= old(self).words().update(slot as int, word));
    }
}

/// A mapping that was made is freed with the size and the alignment that it was allocated
/// with, whole pages at a page's alignment; an empty one takes no memory and frees none,
/// and one that is too large is not made.
pub proof fn mappings_are_freed_as_they_were_made(
    size: usize,
    made: Option<Mapping>,
    freed: Option<(usize, usize)>,
)
    requires
        call_ensures(plan_map, (size,), made),
        call_ensures(plan_unmap, (size,), freed),
    ensures
        size == 0 ==> made == Some(Mapping::Dangling(65536)) && freed is None,
        size > 0 && size + 65535 <= isize::MAX ==> made == Some(
            Mapping::Allocate { size, align: 65536 },
        ) && freed == Some((size, 65536usize)),
        size > 0 && size + 65535 > isize::MAX ==> made is None && freed is None,
{
}

} // verus!
