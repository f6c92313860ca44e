//! The per-process mailbox.
//!
//! A mailbox is owned exclusively by one process and holds three queues of
//! object pointers: `external` (cross-process inbound, each a private copy
//! made by the mailbox's own allocator), `internal` (staging for drained
//! external messages) and `locals` (self-sent, no copy, ownership
//! transfer). A single write lock guards `external` only: it is held while
//! a sender appends a freshly copied pointer and while a receive bulk-moves
//! the whole queue into `internal`, and never while touching `locals` or
//! `internal` otherwise — the self-message fast path is lock-free.

use vstd::prelude::*;
use std::collections::VecDeque;
use crate::allocator::{AllocationError, GlobalAllocator, MailboxAllocator, copy_map_ok,
    free_capacity};
use crate::object_pointer::ObjectPointer;
use crate::sync::WriteLock;
use crate::work_list::WorkList;

verus! {

/// The mathematical state of a mailbox's three queues.
pub ghost struct QueueContents {
    pub locals: Seq<ObjectPointer>,
    pub internal: Seq<ObjectPointer>,
    pub external: Seq<ObjectPointer>,
}

impl QueueContents {
    /// True when no queue holds a message.
    pub open spec fn is_empty(self) -> bool {
        self.locals.len() == 0 && self.internal.len() == 0 && self.external.len() == 0
    }
}

/// The effect of a self-send: the pointer itself — not a copy — is
/// appended to `locals`.
pub open spec fn send_from_self_spec(q: QueueContents, pointer: ObjectPointer) -> QueueContents {
    QueueContents { locals: q.locals.push(pointer), ..q }
}

/// The effect of a cross-process send once the private copy `copy` has
/// been made: the copy is appended to `external`.
pub open spec fn send_from_external_spec(q: QueueContents, copy: ObjectPointer) -> QueueContents {
    QueueContents { external: q.external.push(copy), ..q }
}

/// The receive discipline: `locals` drains completely ahead of anything
/// else; then `internal` is popped; only when `internal` is empty is the
/// whole of `external` bulk-moved into `internal` — one lock acquisition
/// batching arbitrarily many later lock-free receives. Cross-queue order
/// is deliberately not globally FIFO: self-messages continue the owning
/// process's own control flow and take precedence over inbound mail.
pub open spec fn receive_spec(q: QueueContents) -> (QueueContents, Option<ObjectPointer>) {
    if q.locals.len() > 0 {
        (QueueContents { locals: q.locals.skip(1), ..q }, Some(q.locals[0]))
    } else if q.internal.len() > 0 {
        (QueueContents { internal: q.internal.skip(1), ..q }, Some(q.internal[0]))
    } else if q.external.len() > 0 {
        (
            QueueContents {
                internal: q.external.skip(1),
                external: Seq::empty(),
                ..q
            },
            Some(q.external[0]),
        )
    } else {
        (q, None)
    }
}

/// The per-process inbox: three message queues, the allocator that copies
/// inbound object graphs into the mailbox's own blocks, and the write lock
/// guarding `external`.
pub struct Mailbox {
    pub external: VecDeque<ObjectPointer>,
    pub internal: VecDeque<ObjectPointer>,
    pub locals: VecDeque<ObjectPointer>,
    pub allocator: MailboxAllocator,
    pub write_lock: WriteLock,
}

impl Mailbox {
    /// The queues of this mailbox as sequences.
    pub open spec fn queues(self) -> QueueContents {
        QueueContents { locals: self.locals@, internal: self.internal@, external: self.external@ }
    }

    /// A mailbox with empty queues whose allocator has not requested any
    /// block yet.
    pub fn new() -> (r: Mailbox)
        ensures
            r.queues().is_empty(),
            r.allocator.room() == 0,
            forall|g: GlobalAllocator| r.allocator.wf(g),
    {
        Mailbox {
            external: VecDeque::new(),
            internal: VecDeque::new(),
            locals: VecDeque::new(),
            allocator: MailboxAllocator::new(),
            write_lock: WriteLock::new(),
        }
    }

    /// Delivers a message from another process: under the write lock, a
    /// private copy of the object graph rooted at `original` is made inside
    /// this mailbox's own blocks and appended to `external`. The appended
    /// pointer is always fresh — never `original` itself — and the copy is
    /// structurally equal to the source ([`copy_map_ok`]). Fails only on
    /// pool exhaustion, leaving the queues unchanged.
    pub fn send_from_external(
        &mut self,
        global: &mut GlobalAllocator,
        original: ObjectPointer,
    ) -> (r: Result<(), AllocationError>)
        requires
            old(self).allocator.wf(*old(global)),
            old(global).wf(),
            old(global).allocated(original),
        ensures
            final(self).allocator.wf(*final(global)),
            final(global).wf(),
            final(global).block_size() == old(global).block_size(),
            old(global).preserved_by(*final(global)),
            final(self).locals@ == old(self).locals@,
            final(self).internal@ == old(self).internal@,
            free_capacity(old(self).allocator, *old(global)) >= old(global).size() ==> r is Ok,
            match r {
                Ok(_) => {
                    let copy = final(self).external@.last();
                    &&& final(self).queues() == send_from_external_spec(old(self).queues(), copy)
                    &&& !old(global).allocated(copy)
                    &&& copy != original
                    &&& final(global).allocated(copy)
                    &&& exists|m: Map<usize, usize>|
                        copy_map_ok(*old(global), *final(global), m, original, copy)
                },
                Err(_) => {
                    &&& final(self).external@ == old(self).external@
                    &&& final(global).blocks_remaining() == 0
                },
            },
    {
        let _guard = self.write_lock.lock();
        match self.allocator.copy_object(global, original) {
            Ok(copy) => {
                self.external.push_back(copy);
                Ok(())
            },
            Err(error) => Err(error),
        }
    }

    /// Appends a self-sent message: no lock, no copy — ownership of the
    /// pointer transfers from the sending context to the mailbox. Only the
    /// mailbox's own process may call this (single-writer discipline).
    pub fn send_from_self(&mut self, pointer: ObjectPointer)
        ensures
            final(self).queues() == send_from_self_spec(old(self).queues(), pointer),
            final(self).allocator == old(self).allocator,
    {
        self.locals.push_back(pointer);
    }

    /// Returns the next message per [`receive_spec`], or nothing when all
    /// queues are empty. The lock is taken only for the bulk drain of
    /// `external` into `internal`; while `internal` still holds drained
    /// messages, receives are lock-free.
    pub fn receive(&mut self) -> (r: Option<ObjectPointer>)
        ensures
            (final(self).queues(), r) == receive_spec(old(self).queues()),
            final(self).allocator == old(self).allocator,
    {
        if let Some(pointer) = self.locals.pop_front() {
            return Some(pointer);
        }
        if self.internal.len() == 0 {
            let _guard = self.write_lock.lock();
            self.internal.append(&mut self.external);
        }
        let r = self.internal.pop_front();
        proof {
            let q0 = old(self).queues();
            let q1 = self.queues();
            assert(q1.locals =~= receive_spec(q0).0.locals);
            assert(q1.internal =~= receive_spec(q0).0.internal);
            assert(q1.external =~= receive_spec(q0).0.external);
        }
        r
    }

    /// True iff `locals` is non-empty. Lock-free: only the owning process
    /// reads or writes `locals`.
    pub fn has_local_pointers(&self) -> (r: bool)
        ensures
            r == (self.locals@.len() > 0),
    {
        self.locals.len() > 0
    }

    /// A non-destructive snapshot of every pointer currently in `internal`
    /// and `external`, for the collector's root enumeration.
    pub fn mailbox_pointers(&self) -> (r: WorkList)
        ensures
            r@ == self.internal@ + self.external@,
    {
        let mut pointers = WorkList::new();
        let mut i: usize = 0;
        while i < self.internal.len()
            invariant
                i <= self.internal@.len(),
                pointers@ == self.internal@.take(i as int),
            decreases self.internal@.len() - i,
        {
            pointers.push(self.internal[i]);
            proof {
                assert(self.internal@.take(i as int).push(self.internal@[i as int])
                    =~= self.internal@.take(i as int + 1));
            }
            i = i + 1;
        }
        proof {
            assert(self.internal@.take(self.internal@.len() as int) =~= self.internal@);
        }
        let mut j: usize = 0;
        while j < self.external.len()
            invariant
                j <= self.external@.len(),
                pointers@ == self.internal@ + self.external@.take(j as int),
            decreases self.external@.len() - j,
        {
            pointers.push(self.external[j]);
            proof {
                assert((self.internal@ + self.external@.take(j as int)).push(
                    self.external@[j as int],
                ) =~= self.internal@ + self.external@.take(j as int + 1));
            }
            j = j + 1;
        }
        proof {
            assert(self.internal@ + self.external@.take(self.external@.len() as int)
                =~= self.internal@ + self.external@);
        }
        pointers
    }

    /// A non-destructive snapshot of every pointer currently in `locals`,
    /// for the collector's root enumeration.
    pub fn local_pointers(&self) -> (r: WorkList)
        ensures
            r@ == self.locals@,
    {
        let mut pointers = WorkList::new();
        let mut i: usize = 0;
        while i < self.locals.len()
            invariant
                i <= self.locals@.len(),
                pointers@ == self.locals@.take(i as int),
            decreases self.locals@.len() - i,
        {
            pointers.push(self.locals[i]);
            proof {
                assert(self.locals@.take(i as int).push(self.locals@[i as int])
                    =~= self.locals@.take(i as int + 1));
            }
            i = i + 1;
        }
        proof {
            assert(self.locals@.take(self.locals@.len() as int) =~= self.locals@);
        }
        pointers
    }

    /// True iff any of the three queues holds a message; checking
    /// `external` takes the lock. Accurate only while the owning process is
    /// suspended — if that process could concurrently enqueue, the result
    /// is a best-effort snapshot, not a guaranteed invariant.
    pub fn has_messages(&self) -> (r: bool)
        ensures
            r == !self.queues().is_empty(),
    {
        if self.locals.len() > 0 || self.internal.len() > 0 {
            return true;
        }
        let _guard = self.write_lock.lock();
        self.external.len() > 0
    }
}

} // verus!
