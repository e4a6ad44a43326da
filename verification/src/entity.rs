//! Entity handles.

use vstd::prelude::*;

verus! {

/// An opaque handle to one row of the component store: the slot it lives in
/// and the generation of that slot at the time the handle was issued.
#[derive(Clone, Copy, Debug, PartialEq, Eq, Hash, Structural)]
pub struct Entity {
    pub index: usize,
    pub generation: u64,
}

impl Entity {
    /// Rebuilds a handle from its two parts.
    pub fn from_raw_parts(index: usize, generation: u64) -> (e: Entity)
        ensures
            e == (Entity { index, generation }),
    {
        Entity { index, generation }
    }

    /// The slot this handle points at.
    pub fn index(&self) -> (i: usize)
        ensures
            i == self.index,
    {
        self.index
    }

    /// The generation this handle was issued with.
    pub fn generation(&self) -> (g: u64)
        ensures
            g == self.generation,
    {
        self.generation
    }
}

} // verus!
