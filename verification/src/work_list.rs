//! Work lists: transport structures for collector root enumeration.

use vstd::prelude::*;
use std::collections::VecDeque;
use crate::object_pointer::ObjectPointer;

verus! {

/// An ordered, append/pop-front sequence of object pointers, used purely
/// to hand root sets to a tracing collector. It owns none of the objects
/// it refers to. Its view is the sequence of pointers, front first.
pub struct WorkList {
    items: VecDeque<ObjectPointer>,
}

impl View for WorkList {
    type V = Seq<ObjectPointer>;

    closed spec fn view(&self) -> Seq<ObjectPointer> {
        self.items@
    }
}

impl WorkList {
    /// An empty work list.
    pub fn new() -> (r: WorkList)
        ensures
            r@ == Seq::<ObjectPointer>::empty(),
    {
        WorkList { items: VecDeque::new() }
    }

    /// Appends a pointer at the back.
    pub fn push(&mut self, pointer: ObjectPointer)
        ensures
            final(self)@ == old(self)@.push(pointer),
    {
        self.items.push_back(pointer);
    }

    /// Removes and returns the front pointer, or nothing when empty.
    pub fn pop(&mut self) -> (r: Option<ObjectPointer>)
        ensures
            match r {
                Some(p) => old(self)@.len() > 0 && p == old(self)@[0] && final(self)@ == old(
                    self,
                )@.skip(1),
                None => old(self)@.len() == 0 && final(self)@ == old(self)@,
            },
    {
        self.items.pop_front()
    }

    /// The number of pointers held.
    pub fn len(&self) -> (r: usize)
        ensures
            r == self@.len(),
    {
        self.items.len()
    }
}

} // verus!
