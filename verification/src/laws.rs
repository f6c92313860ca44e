//! The laws of the mailbox protocol, stated over the queue model and
//! proved once and for all.

use vstd::prelude::*;
use vstd::seq_lib::lemma_multiset_commutative;
use crate::mailbox::{QueueContents, receive_spec, send_from_self_spec};
use crate::object_pointer::ObjectPointer;

verus! {

/// Self-sent messages are received first-in first-out, and each received
/// pointer is the very pointer that was sent — no copy is made. For any
/// mailbox whose `locals` queue is empty, sending `a` then `b` from the
/// owning process and then receiving twice returns exactly `a` then `b`,
/// whatever the other two queues hold.
pub proof fn lemma_self_send_fifo(q: QueueContents, a: ObjectPointer, b: ObjectPointer)
    requires
        q.locals.len() == 0,
    ensures
        ({
            let q2 = send_from_self_spec(send_from_self_spec(q, a), b);
            let (q3, first) = receive_spec(q2);
            let (q4, second) = receive_spec(q3);
            &&& first == Some(a)
            &&& second == Some(b)
            &&& q4.locals == q.locals
            &&& q4.internal == q.internal
            &&& q4.external == q.external
        }),
{
    let q2 = send_from_self_spec(send_from_self_spec(q, a), b);
    let (q3, first) = receive_spec(q2);
    let (q4, second) = receive_spec(q3);
    assert(q2.locals == q.locals.push(a).push(b));
    assert(q2.locals[0] == a);
    assert(q3.locals =~= seq![b]);
    assert(q4.locals =~= q.locals);
}

/// Iterated receives: the queue state after `n` messages have been
/// received.
pub open spec fn receive_many(q: QueueContents, n: nat) -> QueueContents
    decreases n,
{
    if n == 0 {
        q
    } else {
        receive_many(receive_spec(q).0, (n - 1) as nat)
    }
}

/// Batched draining. On a mailbox with no local and no staged messages and
/// `n` external messages, the first receive performs the one bulk drain:
/// it empties `external` into `internal` in order and returns the oldest
/// message. Every one of the following `n - 1` receives finds `internal`
/// non-empty and `external` already empty, so it takes the lock-free path,
/// and the messages come out in the order the external sends arrived.
pub proof fn lemma_batched_drain(q: QueueContents, k: int)
    requires
        q.locals.len() == 0,
        q.internal.len() == 0,
        0 <= k < q.external.len(),
    ensures
        k > 0 ==> receive_many(q, k as nat) == (QueueContents {
            locals: q.locals,
            internal: q.external.skip(k),
            external: Seq::empty(),
        }),
        receive_spec(receive_many(q, k as nat)).1 == Some(q.external[k]),
    decreases k,
{
    if k == 0 {
        assert(receive_many(q, 0) == q);
    } else {
        lemma_batched_drain(q, k - 1);
        lemma_receive_many_unfold_last(q, (k - 1) as nat);
        let qk1 = receive_many(q, (k - 1) as nat);
        let qk = receive_spec(qk1).0;
        assert(receive_many(q, k as nat) == qk);
        if k == 1 {
            assert(receive_many(q, 0) == q);
            assert(qk.internal =~= q.external.skip(1));
        } else {
            assert(qk1.internal == q.external.skip(k - 1));
            assert(qk.internal =~= q.external.skip(k));
        }
        assert(qk.external =~= Seq::<ObjectPointer>::empty());
        assert(qk.locals =~= q.locals);
        assert(qk == (QueueContents {
            locals: q.locals,
            internal: q.external.skip(k),
            external: Seq::empty(),
        }));
        assert(q.external.skip(k)[0] == q.external[k]);
    }
}

/// Receiving `n` times and then once more is receiving `n + 1` times.
proof fn lemma_receive_many_unfold_last(q: QueueContents, n: nat)
    ensures
        receive_many(q, n + 1) == receive_spec(receive_many(q, n)).0,
    decreases n,
{
    if n == 0 {
        assert(receive_many(q, 0) == q);
        assert(receive_many(q, 1) == receive_many(receive_spec(q).0, 0));
        assert(receive_many(receive_spec(q).0, 0) == receive_spec(q).0);
    } else {
        lemma_receive_many_unfold_last(receive_spec(q).0, (n - 1) as nat);
        assert(receive_many(q, n + 1) == receive_many(receive_spec(q).0, n));
        assert(receive_many(q, n) == receive_many(receive_spec(q).0, (n - 1) as nat));
    }
}

/// Root enumeration is complete and exact: the pointers of the
/// mailbox-side snapshot (`internal` then `external`) together with those
/// of the local snapshot are, as a multiset, exactly the pointers enqueued
/// across all three queues — no omissions, no duplicates, however many
/// drains have happened.
pub proof fn lemma_root_enumeration_exact(q: QueueContents)
    ensures
        (q.internal + q.external).to_multiset().add(q.locals.to_multiset()) == (q.locals + (
        q.internal + q.external)).to_multiset(),
{
    lemma_multiset_commutative(q.locals, q.internal + q.external);
    assert((q.internal + q.external).to_multiset().add(q.locals.to_multiset()) =~= q.locals.to_multiset().add((q.internal + q.external).to_multiset()));
}

/// A cross-process message on an otherwise-empty mailbox is delivered by
/// the next receive: after the private copy `copy` is appended to
/// `external`, a receive returns exactly `copy` and leaves the mailbox
/// empty again. That the copy is structurally equal to, and never
/// pointer-identical with, the sent original is stated by
/// `Mailbox::send_from_external` itself.
pub proof fn lemma_external_delivery(q: QueueContents, copy: ObjectPointer)
    requires
        q.is_empty(),
    ensures
        ({
            let q1 = crate::mailbox::send_from_external_spec(q, copy);
            let (q2, received) = receive_spec(q1);
            &&& received == Some(copy)
            &&& q2.is_empty()
        }),
{
    let q1 = crate::mailbox::send_from_external_spec(q, copy);
    assert(q1.external[0] == copy);
    assert(receive_spec(q1).0.internal =~= Seq::<ObjectPointer>::empty());
}

} // verus!
