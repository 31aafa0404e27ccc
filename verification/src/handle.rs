//! Handles of the generational heap: identifiers, generations and the
//! states a colored handle entry moves through.

use vstd::prelude::*;

verus! {

#[derive(Clone, Copy, Debug, PartialEq, Eq, Structural, Hash)]
pub struct HandleId(pub u32);

impl HandleId {
    pub fn new(raw: u32) -> (r: HandleId)
        ensures
            r.0 == raw,
    {
        HandleId(raw)
    }

    pub fn raw(self) -> (r: u32)
        ensures
            r == self.0,
    {
        self.0
    }
}

#[derive(Clone, Copy, Debug, PartialEq, Eq, Structural, Hash)]
pub enum HandleGeneration {
    Young,
    Old,
}

#[derive(Clone, Copy, Debug, PartialEq, Eq, Structural, Hash)]
pub enum HandleState {
    Free,
    StableYoung,
    StableOld,
    PinnedOld,
    RelocatingYoung,
    RelocatingOld,
    Retired,
}

/// A resolved handle-table entry: where the object lives, its generation
/// and its relocation state.
#[derive(Clone, Copy, Debug, PartialEq, Eq, Structural)]
pub struct ColoredHandleEntry {
    pub address: u64,
    pub generation: HandleGeneration,
    pub state: HandleState,
}

impl ColoredHandleEntry {
    pub fn new(address: u64, generation: HandleGeneration, state: HandleState) -> (r: ColoredHandleEntry)
        ensures
            r == (ColoredHandleEntry { address, generation, state }),
    {
        ColoredHandleEntry { address, generation, state }
    }

    pub fn address(&self) -> (r: u64)
        ensures
            r == self.address,
    {
        self.address
    }

    pub fn generation(&self) -> (r: HandleGeneration)
        ensures
            r == self.generation,
    {
        self.generation
    }

    pub fn state(&self) -> (r: HandleState)
        ensures
            r == self.state,
    {
        self.state
    }
}

} // verus!
