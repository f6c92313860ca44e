//! Object pointers: lightweight references to heap-resident objects.

use vstd::prelude::*;

verus! {

/// A cheap-to-copy reference to an object: the address of the object's
/// cell inside the global block pool. Validity is conditional on the
/// object being reachable from some root set; a dangling pointer after a
/// collection is a defect, never a valid state.
#[derive(Clone, Copy, PartialEq, Eq, Structural, Debug)]
pub struct ObjectPointer {
    pub address: usize,
}

impl ObjectPointer {
    pub fn new(address: usize) -> (r: ObjectPointer)
        ensures
            r.address == address,
    {
        ObjectPointer { address }
    }
}

} // verus!
