//! Slot handles.

use vstd::prelude::*;
use vstd::std_specs::convert::FromSpecImpl;

verus! {

/// A handle to one slot of a pool.
///
/// A handle is a plain value. Two handles are the same handle exactly when
/// they name the same slot, so handles can be compared, ordered, hashed and
/// stored without borrowing the pool they came from.
#[derive(Clone, Copy, Debug, PartialEq, Eq, Structural, PartialOrd, Ord, Hash)]
pub struct Ptr {
    pub index: usize,
}

impl Ptr {
    /// The handle of the slot at `index`.
    pub fn new(index: usize) -> (p: Ptr)
        ensures
            p.index == index,
    {
        Ptr { index }
    }

    /// The index of the slot that this handle names.
    pub fn get(self) -> (index: usize)
        ensures
            index == self.index,
    {
        self.index
    }
}

impl From<usize> for Ptr {
    fn from(index: usize) -> (p: Ptr) {
        Ptr::new(index)
    }
}

impl FromSpecImpl<usize> for Ptr {
    open spec fn obeys_from_spec() -> bool {
        true
    }

    open spec fn from_spec(index: usize) -> Ptr {
        Ptr { index }
    }
}

} // verus!
