//! Object metadata.
//!
//! The [`ObjectHeader`] struct stores metadata associated with an object,
//! such as the name, attributes, constants and methods. A header is only
//! allocated when actually needed, keeping header-less objects compact.

use vstd::prelude::*;
use crate::object_pointer::ObjectPointer;

verus! {

/// No two entries of an identifier mapping share a key.
pub open spec fn unique_keys(entries: Seq<(String, ObjectPointer)>) -> bool {
    forall|i: int, j: int|
        0 <= i < j < entries.len() ==> (#[trigger] entries[i]).0@ != (#[trigger] entries[j]).0@
}

/// The optional extended metadata of an object: a display name for
/// diagnostics, three mappings from string identifiers to object pointers
/// (keys unique, insertion order irrelevant), a pinned flag that exempts
/// the object from relocation and reclamation, and a truthy flag consulted
/// by conditional evaluation.
///
/// The header stores the pinned flag for the collector to honor; it
/// enforces no pinning logic itself.
pub struct ObjectHeader {
    /// The name of the object, used in error messages if present.
    pub name: Option<String>,
    pub attributes: Vec<(String, ObjectPointer)>,
    pub constants: Vec<(String, ObjectPointer)>,
    pub methods: Vec<(String, ObjectPointer)>,
    /// When set to true this object won't be reclaimed or moved.
    pub pinned: bool,
    /// Whether the object should be considered truthy (e.g. in conditionals).
    pub truthy: bool,
}

impl ObjectHeader {
    /// Each identifier mapping keeps its keys unique.
    pub open spec fn wf(self) -> bool {
        unique_keys(self.attributes@) && unique_keys(self.constants@) && unique_keys(self.methods@)
    }

    /// A fresh header: no name, all three identifier mappings empty, not
    /// pinned, truthy.
    pub fn new() -> (r: ObjectHeader)
        ensures
            r.wf(),
            r.name is None,
            r.attributes@ =~= Seq::<(String, ObjectPointer)>::empty(),
            r.constants@ =~= Seq::<(String, ObjectPointer)>::empty(),
            r.methods@ =~= Seq::<(String, ObjectPointer)>::empty(),
            r.pinned == false,
            r.truthy == true,
    {
        ObjectHeader {
            name: None,
            attributes: Vec::new(),
            constants: Vec::new(),
            methods: Vec::new(),
            pinned: false,
            truthy: true,
        }
    }

    /// Flips `truthy` to false and changes nothing else; idempotent.
    pub fn set_falsy(&mut self)
        ensures
            final(self).truthy == false,
            final(self).name == old(self).name,
            final(self).attributes == old(self).attributes,
            final(self).constants == old(self).constants,
            final(self).methods == old(self).methods,
            final(self).pinned == old(self).pinned,
    {
        self.truthy = false;
    }
}

} // verus!
