//! Scenario tests for the mailbox protocol and the object copier.

use inko::allocator::{AllocationError, GlobalAllocator, MailboxAllocator, Object};
use inko::mailbox::Mailbox;
use inko::object_pointer::ObjectPointer;

/// Allocates a leaf object (no references) and returns its pointer.
fn leaf(pool: &mut GlobalAllocator, region: &mut MailboxAllocator, value: u64) -> ObjectPointer {
    region
        .allocate(pool, Object { value, references: Vec::new() })
        .expect("pool exhausted")
}

#[test]
fn self_sends_are_fifo_and_uncopied() {
    let mut mailbox = Mailbox::new();
    let a = ObjectPointer::new(10);
    let b = ObjectPointer::new(20);
    mailbox.send_from_self(a);
    mailbox.send_from_self(b);
    let first = mailbox.receive().expect("first message");
    let second = mailbox.receive().expect("second message");
    // FIFO, and pointer-identical to what was sent: no copy was made.
    assert_eq!(first.address, a.address);
    assert_eq!(second.address, b.address);
    assert!(mailbox.receive().is_none());
}

#[test]
fn external_send_delivers_a_distinct_structurally_equal_copy() {
    let mut pool = GlobalAllocator::new(4, 16);
    let mut sender_heap = MailboxAllocator::new();
    let original = leaf(&mut pool, &mut sender_heap, 42);

    let mut mailbox = Mailbox::new();
    mailbox
        .send_from_external(&mut pool, original)
        .expect("copy failed");
    let received = mailbox.receive().expect("message");

    // A distinct copy: structurally equal, not pointer-identical.
    assert_ne!(received.address, original.address);
    assert_eq!(pool.get(received).value, 42);
    assert_eq!(pool.get(original).value, 42);
    assert!(pool.get(received).references.is_empty());
    assert!(mailbox.receive().is_none());
}

#[test]
fn first_receive_after_external_sends_drains_in_one_batch() {
    let mut pool = GlobalAllocator::new(4, 16);
    let mut sender_heap = MailboxAllocator::new();
    let mut mailbox = Mailbox::new();
    let n = 5u64;
    let mut sent = Vec::new();
    for value in 0..n {
        let p = leaf(&mut pool, &mut sender_heap, value);
        mailbox.send_from_external(&mut pool, p).expect("send");
        sent.push(p);
    }
    assert_eq!(mailbox.external.len(), n as usize);
    assert_eq!(mailbox.internal.len(), 0);

    // The first receive performs the single lock-guarded bulk drain ...
    let first = mailbox.receive().expect("message");
    assert_eq!(pool.get(first).value, 0);
    assert_eq!(mailbox.external.len(), 0);
    assert_eq!(mailbox.internal.len(), n as usize - 1);

    // ... and the next n - 1 receives proceed from `internal` alone,
    // never touching `external` again, in send order.
    for value in 1..n {
        let message = mailbox.receive().expect("message");
        assert_eq!(pool.get(message).value, value);
        assert_eq!(mailbox.external.len(), 0);
    }
    assert!(mailbox.receive().is_none());
}

#[test]
fn has_messages_iff_some_queue_is_non_empty() {
    let mut pool = GlobalAllocator::new(4, 16);
    let mut sender_heap = MailboxAllocator::new();
    let mut mailbox = Mailbox::new();
    assert!(!mailbox.has_messages());
    assert!(!mailbox.has_local_pointers());

    // locals only
    mailbox.send_from_self(ObjectPointer::new(5));
    assert!(mailbox.has_messages());
    assert!(mailbox.has_local_pointers());
    mailbox.receive().expect("local message");
    assert!(!mailbox.has_messages());

    // external only
    let p = leaf(&mut pool, &mut sender_heap, 1);
    let q = leaf(&mut pool, &mut sender_heap, 2);
    mailbox.send_from_external(&mut pool, p).expect("send");
    mailbox.send_from_external(&mut pool, q).expect("send");
    assert!(mailbox.has_messages());

    // internal only, after one receive drained both
    mailbox.receive().expect("first external message");
    assert_eq!(mailbox.internal.len(), 1);
    assert_eq!(mailbox.external.len(), 0);
    assert!(mailbox.has_messages());

    mailbox.receive().expect("second external message");
    assert!(!mailbox.has_messages());
}

#[test]
fn root_snapshots_cover_all_queues_exactly() {
    let mut pool = GlobalAllocator::new(4, 16);
    let mut sender_heap = MailboxAllocator::new();
    let mut mailbox = Mailbox::new();

    let a = leaf(&mut pool, &mut sender_heap, 1);
    let b = leaf(&mut pool, &mut sender_heap, 2);
    let c = leaf(&mut pool, &mut sender_heap, 3);
    mailbox.send_from_external(&mut pool, a).expect("send");
    mailbox.send_from_external(&mut pool, b).expect("send");
    // Drain both into internal, receive one, then stage one more in external.
    let received = mailbox.receive().expect("message");
    mailbox.send_from_external(&mut pool, c).expect("send");
    mailbox.send_from_self(ObjectPointer::new(77));

    // Queues now: locals = [77], internal = [copy of b], external = [copy of c].
    let mut roots = Vec::new();
    let mut mailbox_roots = mailbox.mailbox_pointers();
    while let Some(p) = mailbox_roots.pop() {
        roots.push(p.address);
    }
    let mut local_roots = mailbox.local_pointers();
    while let Some(p) = local_roots.pop() {
        roots.push(p.address);
    }
    roots.sort();

    let mut expected = Vec::new();
    for p in mailbox.internal.iter().chain(mailbox.external.iter()) {
        expected.push(p.address);
    }
    for p in mailbox.locals.iter() {
        expected.push(p.address);
    }
    expected.sort();

    assert_eq!(roots.len(), 3);
    assert_eq!(roots, expected);
    assert!(!roots.contains(&received.address));
}

#[test]
fn two_senders_both_delivered_exactly_once() {
    // Two simulated processes deliver distinct payloads to one mailbox;
    // both copies must appear exactly once, whatever their order.
    let mut pool = GlobalAllocator::new(4, 16);
    let mut process_one = MailboxAllocator::new();
    let mut process_two = MailboxAllocator::new();
    let mut mailbox = Mailbox::new();

    let from_one = leaf(&mut pool, &mut process_one, 111);
    let from_two = leaf(&mut pool, &mut process_two, 222);
    mailbox.send_from_external(&mut pool, from_one).expect("send");
    mailbox.send_from_external(&mut pool, from_two).expect("send");

    let mut values = Vec::new();
    while let Some(p) = mailbox.receive() {
        assert_ne!(p.address, from_one.address);
        assert_ne!(p.address, from_two.address);
        values.push(pool.get(p).value);
    }
    values.sort();
    assert_eq!(values, vec![111, 222]);
}

#[test]
fn copying_preserves_cycles_exactly_once() {
    let mut pool = GlobalAllocator::new(4, 16);
    let mut sender_heap = MailboxAllocator::new();
    // Build a two-object cycle: a <-> b.
    let a = leaf(&mut pool, &mut sender_heap, 1);
    let b = leaf(&mut pool, &mut sender_heap, 2);
    pool.set_references(a, vec![b]);
    pool.set_references(b, vec![a]);

    let mut mailbox = Mailbox::new();
    mailbox.send_from_external(&mut pool, a).expect("send");
    let copy_a = mailbox.receive().expect("message");

    assert_ne!(copy_a.address, a.address);
    assert_eq!(pool.get(copy_a).value, 1);
    assert_eq!(pool.get(copy_a).references.len(), 1);
    let copy_b = pool.get(copy_a).references[0];
    assert_ne!(copy_b.address, b.address);
    assert_ne!(copy_b.address, copy_a.address);
    assert_eq!(pool.get(copy_b).value, 2);
    // The cycle closes onto the copy itself: no duplication, no recursion
    // into the source graph.
    assert_eq!(pool.get(copy_b).references.len(), 1);
    assert_eq!(pool.get(copy_b).references[0].address, copy_a.address);
}

#[test]
fn shared_references_are_copied_once() {
    let mut pool = GlobalAllocator::new(4, 16);
    let mut sender_heap = MailboxAllocator::new();
    // A diamond: root -> x, root -> y, x -> shared, y -> shared.
    let shared = leaf(&mut pool, &mut sender_heap, 9);
    let x = leaf(&mut pool, &mut sender_heap, 1);
    let y = leaf(&mut pool, &mut sender_heap, 2);
    pool.set_references(x, vec![shared]);
    pool.set_references(y, vec![shared]);
    let root = leaf(&mut pool, &mut sender_heap, 0);
    pool.set_references(root, vec![x, y]);

    let mut mailbox = Mailbox::new();
    mailbox.send_from_external(&mut pool, root).expect("send");
    let copy_root = mailbox.receive().expect("message");

    let copy_x = pool.get(copy_root).references[0];
    let copy_y = pool.get(copy_root).references[1];
    assert_eq!(pool.get(copy_x).value, 1);
    assert_eq!(pool.get(copy_y).value, 2);
    let shared_via_x = pool.get(copy_x).references[0];
    let shared_via_y = pool.get(copy_y).references[0];
    // The shared object was copied exactly once.
    assert_eq!(shared_via_x.address, shared_via_y.address);
    assert_ne!(shared_via_x.address, shared.address);
    assert_eq!(pool.get(shared_via_x).value, 9);
}

#[test]
fn exhausted_pool_reports_no_space() {
    let mut pool = GlobalAllocator::new(2, 0);
    let mut region = MailboxAllocator::new();
    let r = region.allocate(&mut pool, Object { value: 1, references: Vec::new() });
    assert_eq!(r, Err(AllocationError::PoolExhausted));
}

#[test]
fn exhaustion_during_send_leaves_queues_unchanged() {
    // One block of two cells: enough for the original, not for its copy
    // plus the rest of the graph.
    let mut pool = GlobalAllocator::new(2, 1);
    let mut sender_heap = MailboxAllocator::new();
    let a = leaf(&mut pool, &mut sender_heap, 1);
    let b = leaf(&mut pool, &mut sender_heap, 2);
    pool.set_references(a, vec![b]);

    let mut mailbox = Mailbox::new();
    let r = mailbox.send_from_external(&mut pool, a);
    assert_eq!(r, Err(AllocationError::PoolExhausted));
    assert!(!mailbox.has_messages());
    assert!(mailbox.receive().is_none());
}

#[test]
fn blocks_are_requested_lazily_and_never_overlap() {
    let mut pool = GlobalAllocator::new(2, 4);
    let mut region_one = MailboxAllocator::new();
    let mut region_two = MailboxAllocator::new();
    // Interleave allocations from two regions: addresses never collide.
    let mut addresses = Vec::new();
    for value in 0..3u64 {
        addresses.push(leaf(&mut pool, &mut region_one, value).address);
        addresses.push(leaf(&mut pool, &mut region_two, value).address);
    }
    let mut deduped = addresses.clone();
    deduped.sort();
    deduped.dedup();
    assert_eq!(deduped.len(), addresses.len());
}
