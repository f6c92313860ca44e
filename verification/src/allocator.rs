//! The global block pool and the per-mailbox allocator / object copier.
//!
//! Memory is modelled as one global address space owned by the
//! [`GlobalAllocator`]: a sequence of cells, each either free or holding an
//! [`Object`]. The pool hands out [`Block`]s — disjoint ranges of fresh
//! cells — until its budget is exhausted. A [`MailboxAllocator`] owns the
//! blocks it has requested and fills them one cell at a time; its
//! `copy_object` operation materializes, inside the mailbox's own blocks, a
//! faithful copy of an object graph rooted at a foreign pointer, preserving
//! cycles exactly once by consulting a copy cache keyed by source address.
//!
//! In the running system the pool is a reference-counted handle shared by
//! every process; here that sharing is rendered as an explicit `&mut`
//! borrow of the one pool value, passed to each operation that allocates.

use vstd::prelude::*;
use vstd::pervasive::unreached;
use vstd::seq_lib::*;
use vstd::set_lib::*;
use crate::object_pointer::ObjectPointer;

verus! {

/// A heap-resident object: a payload value plus its outgoing references to
/// other objects.
pub struct Object {
    pub value: u64,
    pub references: Vec<ObjectPointer>,
}

/// A range of cells granted by the global allocator: addresses
/// `start .. start + size`.
#[derive(Clone, Copy, PartialEq, Eq, Structural, Debug)]
pub struct Block {
    pub start: usize,
    pub size: usize,
}

/// The only recoverable failure of this core: the global pool has no block
/// left to grant. The caller decides whether to collect garbage and retry
/// or to fail the process.
#[derive(Clone, Copy, PartialEq, Eq, Structural, Debug)]
pub enum AllocationError {
    PoolExhausted,
}

/// The shared pool of memory blocks. It owns every cell of the address
/// space; processes allocate by requesting blocks from it. `request_block`
/// reports exhaustion rather than silently retrying.
pub struct GlobalAllocator {
    cells: Vec<Option<Object>>,
    size_of_block: usize,
    pool: usize,
}

impl GlobalAllocator {
    /// The number of cells in each granted block.
    pub closed spec fn block_size(self) -> int {
        self.size_of_block as int
    }

    /// How many blocks the pool can still grant.
    pub closed spec fn blocks_remaining(self) -> int {
        self.pool as int
    }

    /// The extent of the address space: every address below it has been
    /// placed inside some granted block.
    pub closed spec fn size(self) -> int {
        self.cells@.len() as int
    }

    /// True when `pointer` refers to a cell that holds a live object.
    pub closed spec fn allocated(self, pointer: ObjectPointer) -> bool {
        pointer.address < self.cells@.len() && self.cells@[pointer.address as int] is Some
    }

    /// The object held at `pointer`; meaningful only when allocated.
    pub closed spec fn object_at(self, pointer: ObjectPointer) -> Object {
        self.cells@[pointer.address as int].unwrap()
    }

    /// Every reference of `object` points at a live object.
    pub open spec fn refs_allocated(self, object: Object) -> bool {
        forall|j: int|
            0 <= j < object.references@.len() ==> self.allocated(#[trigger] object.references@[j])
    }

    /// Every live object's references point at live objects: pointers never
    /// dangle inside the heap.
    pub closed spec fn heap_closed(self) -> bool {
        forall|a: int|
            0 <= a < self.cells@.len() && (#[trigger] self.cells@[a]) is Some ==> self.refs_allocated(
                self.cells@[a].unwrap(),
            )
    }

    /// Well-formedness: blocks are non-empty and the heap is closed.
    pub open spec fn wf(self) -> bool {
        self.block_size() >= 1 && self.heap_closed()
    }

    /// Every object live in `self` is still live and unchanged in `later`.
    pub open spec fn preserved_by(self, later: GlobalAllocator) -> bool {
        forall|p: ObjectPointer|
            #[trigger] self.allocated(p) ==> later.allocated(p) && later.object_at(p)
                == self.object_at(p)
    }

    /// A pool that will grant `blocks` blocks of `block_size` cells each,
    /// with nothing allocated yet.
    pub fn new(block_size: usize, blocks: usize) -> (r: GlobalAllocator)
        requires
            block_size >= 1,
        ensures
            r.wf(),
            r.block_size() == block_size,
            r.blocks_remaining() == blocks,
            r.size() == 0,
            forall|p: ObjectPointer| !r.allocated(p),
    {
        GlobalAllocator { cells: Vec::new(), size_of_block: block_size, pool: blocks }
    }

    /// Grants a fresh block of free cells, or reports exhaustion. Granted
    /// blocks never overlap: each starts at the previous end of the address
    /// space.
    pub fn request_block(&mut self) -> (r: Option<Block>)
        requires
            old(self).wf(),
        ensures
            final(self).wf(),
            final(self).block_size() == old(self).block_size(),
            old(self).preserved_by(*final(self)),
            match r {
                None => old(self).blocks_remaining() == 0 && *final(self) == *old(self),
                Some(b) => {
                    &&& old(self).blocks_remaining() >= 1
                    &&& final(self).blocks_remaining() == old(self).blocks_remaining() - 1
                    &&& b.start == old(self).size()
                    &&& b.size == old(self).block_size()
                    &&& final(self).size() == old(self).size() + old(self).block_size()
                    &&& forall|p: ObjectPointer|
                        final(self).allocated(p) <==> old(self).allocated(p)
                },
            },
    {
        if self.pool == 0 {
            return None;
        }
        let ghost g0 = *self;
        let start = self.cells.len();
        let size = self.size_of_block;
        let mut i: usize = 0;
        while i < size
            invariant
                i <= size,
                self.size_of_block == g0.size_of_block,
                self.pool == g0.pool,
                self.cells@.len() == start + i,
                self.cells@.subrange(0, start as int) == g0.cells@,
                start == g0.cells@.len(),
                forall|a: int| start <= a < start + i ==> (#[trigger] self.cells@[a]) is None,
            decreases size - i,
        {
            self.cells.push(None);
            proof {
                assert(self.cells@.subrange(0, start as int) =~= g0.cells@);
            }
            i = i + 1;
        }
        self.pool = self.pool - 1;
        proof {
            assert forall|p: ObjectPointer| self.allocated(p) <==> g0.allocated(p) by {
                if p.address < g0.cells@.len() {
                    assert(self.cells@[p.address as int] == g0.cells@[p.address as int]);
                }
            }
            assert forall|p: ObjectPointer| #[trigger] g0.allocated(p) implies self.allocated(p)
                && self.object_at(p) == g0.object_at(p) by {
                assert(self.cells@[p.address as int] == g0.cells@[p.address as int]);
            }
            assert(self.heap_closed()) by {
                assert forall|a: int|
                    0 <= a < self.cells@.len() && (#[trigger] self.cells@[a]) is Some implies self
                    .refs_allocated(self.cells@[a].unwrap()) by {
                    assert(a < g0.cells@.len());
                    assert(self.cells@[a] == g0.cells@[a]);
                    let o = g0.cells@[a].unwrap();
                    assert(g0.refs_allocated(o));
                    assert forall|j: int|
                        0 <= j < o.references@.len() implies self.allocated(
                        #[trigger] o.references@[j],
                    ) by {
                        assert(g0.allocated(o.references@[j]));
                    }
                }
            }
        }
        Some(Block { start, size })
    }

    /// A borrow of the object at `pointer`.
    pub fn get(&self, pointer: ObjectPointer) -> (r: &Object)
        requires
            self.allocated(pointer),
        ensures
            *r == self.object_at(pointer),
    {
        match &self.cells[pointer.address] {
            Some(object) => object,
            None => unreached(),
        }
    }

    /// Replaces the references of the object at `pointer`, keeping its
    /// value. This is how edges — cyclic ones included — are stored into a
    /// live object; the copier uses it to redirect a fresh copy's edges
    /// into the mailbox's own blocks.
    pub fn set_references(&mut self, pointer: ObjectPointer, references: Vec<ObjectPointer>)
        requires
            old(self).wf(),
            old(self).allocated(pointer),
            forall|j: int|
                0 <= j < references@.len() ==> old(self).allocated(#[trigger] references@[j]),
        ensures
            final(self).wf(),
            final(self).block_size() == old(self).block_size(),
            final(self).blocks_remaining() == old(self).blocks_remaining(),
            final(self).size() == old(self).size(),
            forall|q: ObjectPointer| final(self).allocated(q) <==> old(self).allocated(q),
            final(self).object_at(pointer).value == old(self).object_at(pointer).value,
            final(self).object_at(pointer).references == references,
            forall|q: ObjectPointer|
                #[trigger] old(self).allocated(q) && q.address != pointer.address
                    ==> final(self).object_at(q) == old(self).object_at(q),
    {
        let ghost g0 = *self;
        let value = self.get(pointer).value;
        self.cells[pointer.address] = Some(Object { value, references });
        proof {
            assert forall|q: ObjectPointer| self.allocated(q) <==> g0.allocated(q) by {
                if q.address != pointer.address && q.address < g0.cells@.len() {
                    assert(self.cells@[q.address as int] == g0.cells@[q.address as int]);
                }
            }
            assert(self.heap_closed()) by {
                assert forall|a: int|
                    0 <= a < self.cells@.len() && (#[trigger] self.cells@[a]) is Some implies self
                    .refs_allocated(self.cells@[a].unwrap()) by {
                    if a == pointer.address as int {
                        let o = self.cells@[a].unwrap();
                        assert forall|j: int|
                            0 <= j < o.references@.len() implies self.allocated(
                            #[trigger] o.references@[j],
                        ) by {
                            assert(g0.allocated(o.references@[j]));
                        }
                    } else {
                        assert(self.cells@[a] == g0.cells@[a]);
                        let o = g0.cells@[a].unwrap();
                        assert(g0.refs_allocated(o));
                        assert forall|j: int|
                            0 <= j < o.references@.len() implies self.allocated(
                            #[trigger] o.references@[j],
                        ) by {
                            assert(g0.allocated(o.references@[j]));
                        }
                    }
                }
            }
        }
    }
}

/// The free capacity reachable from one mailbox allocator: the room left in
/// its current block plus everything the pool can still grant.
pub open spec fn free_capacity(allocator: MailboxAllocator, global: GlobalAllocator) -> int {
    allocator.room() + global.blocks_remaining() * global.block_size()
}

/// One entry of a copy cache is faithful: the source object is live in the
/// pre-copy heap, its copy is live at a fresh address, carries the same
/// value, and each of its references is the cached copy of the matching
/// source reference.
pub open spec fn copy_entry_ok(
    g0: GlobalAllocator,
    g1: GlobalAllocator,
    m: Map<usize, usize>,
    s: usize,
) -> bool {
    let sp = ObjectPointer { address: s };
    let dp = ObjectPointer { address: m[s] };
    &&& g0.allocated(sp)
    &&& !g0.allocated(dp)
    &&& g1.allocated(dp)
    &&& g1.object_at(dp).value == g0.object_at(sp).value
    &&& g1.object_at(dp).references@.len() == g0.object_at(sp).references@.len()
    &&& forall|j: int|
        0 <= j < g0.object_at(sp).references@.len() ==> {
            &&& m.contains_key((#[trigger] g0.object_at(sp).references@[j]).address)
            &&& g1.object_at(dp).references@[j].address == m[g0.object_at(
                sp,
            ).references@[j].address]
        }
}

/// `m` witnesses that the graph rooted at `source` in the pre-copy heap
/// `g0` was copied into the post-copy heap `g1` with `result` as the copy
/// of the root: every cached source maps to a faithful fresh copy
/// ([`copy_entry_ok`]), and distinct sources map to distinct copies, so the
/// copy preserves the graph's topology — cycles included — exactly once.
pub open spec fn copy_map_ok(
    g0: GlobalAllocator,
    g1: GlobalAllocator,
    m: Map<usize, usize>,
    source: ObjectPointer,
    result: ObjectPointer,
) -> bool {
    &&& m.contains_key(source.address)
    &&& m[source.address] == result.address
    &&& forall|s: usize| #[trigger] m.contains_key(s) ==> copy_entry_ok(g0, g1, m, s)
    &&& forall|s1: usize, s2: usize|
        #![trigger m[s1], m[s2]]
        m.contains_key(s1) && m.contains_key(s2) && m[s1] == m[s2] ==> s1 == s2
}

/// Every reference of the source object cached under `s` leads to an
/// address that is itself cached or still waiting in `pending`.
spec fn edges_cached(g0: GlobalAllocator, m: Map<usize, usize>, s: usize, pending: Seq<usize>) -> bool {
    forall|j: int|
        0 <= j < g0.object_at(ObjectPointer { address: s }).references@.len() ==> {
            let t = (#[trigger] g0.object_at(ObjectPointer { address: s }).references@[j]).address;
            m.contains_key(t) || pending.contains(t)
        }
}

/// A cached copy that still carries the source's own references: the state
/// every copy is in after allocation and before its edges are redirected.
spec fn shell_ok(g0: GlobalAllocator, g1: GlobalAllocator, m: Map<usize, usize>, s: usize) -> bool {
    let sp = ObjectPointer { address: s };
    let dp = ObjectPointer { address: m[s] };
    &&& g0.allocated(sp)
    &&& !g0.allocated(dp)
    &&& g1.allocated(dp)
    &&& g1.object_at(dp).value == g0.object_at(sp).value
    &&& g1.object_at(dp).references@ == g0.object_at(sp).references@
}

/// The exec copy cache mirrors the ghost copy map: every entry is in the
/// map, every key of the map has an entry, and keys never repeat.
spec fn cache_matches(cache: Seq<(usize, usize)>, m: Map<usize, usize>) -> bool {
    &&& forall|i: int|
        0 <= i < cache.len() ==> m.contains_key((#[trigger] cache[i]).0) && m[cache[i].0]
            == cache[i].1
    &&& forall|s: usize|
        #[trigger] m.contains_key(s) ==> exists|i: int|
            0 <= i < cache.len() && cache[i] == (s, m[s])
    &&& forall|i: int, k: int|
        0 <= i < k < cache.len() ==> (#[trigger] cache[i]).0 != (#[trigger] cache[k]).0
}

/// The keys of a copy cache, as mathematical integers.
spec fn cache_keys(cache: Seq<(usize, usize)>) -> Seq<int> {
    Seq::new(cache.len(), |i: int| cache[i].0 as int)
}

/// A cache whose keys are distinct addresses below `n` has at most `n`
/// entries.
proof fn lemma_cache_len_bound(cache: Seq<(usize, usize)>, n: int)
    requires
        n >= 0,
        forall|i: int, k: int|
            0 <= i < k < cache.len() ==> (#[trigger] cache[i]).0 != (#[trigger] cache[k]).0,
        forall|i: int| 0 <= i < cache.len() ==> (#[trigger] cache[i]).0 < n,
    ensures
        cache.len() <= n,
{
    let keys = cache_keys(cache);
    assert(keys.no_duplicates()) by {
        assert forall|i: int, k: int|
            0 <= i < keys.len() && 0 <= k < keys.len() && i != k implies keys[i] != keys[k] by {
            if i < k {
                assert(cache[i].0 != cache[k].0);
            } else {
                assert(cache[k].0 != cache[i].0);
            }
        }
    }
    keys.unique_seq_to_set();
    assert(keys.to_set().subset_of(set_int_range(0, n))) by {
        assert forall|x: int| keys.to_set().contains(x) implies set_int_range(0, n).contains(
            x,
        ) by {
            let i = choose|i: int| 0 <= i < keys.len() && keys[i] == x;
            assert(0 <= cache[i].0 < n);
        }
    }
    lemma_int_range(0, n);
    lemma_len_subset(keys.to_set(), set_int_range(0, n));
}

/// Linear search of the copy cache for a source address.
fn cache_lookup(cache: &Vec<(usize, usize)>, key: usize) -> (r: Option<usize>)
    ensures
        match r {
            Some(d) => exists|i: int| 0 <= i < cache@.len() && cache@[i] == (key, d),
            None => forall|i: int| 0 <= i < cache@.len() ==> (#[trigger] cache@[i]).0 != key,
        },
{
    let mut i: usize = 0;
    while i < cache.len()
        invariant
            i <= cache@.len(),
            forall|k: int| 0 <= k < i ==> (#[trigger] cache@[k]).0 != key,
        decreases cache@.len() - i,
    {
        let entry = cache[i];
        if entry.0 == key {
            return Some(entry.1);
        }
        i = i + 1;
    }
    None
}

/// An element-wise copy of a pointer vector.
fn clone_pointers(pointers: &Vec<ObjectPointer>) -> (r: Vec<ObjectPointer>)
    ensures
        r@ == pointers@,
{
    let mut result: Vec<ObjectPointer> = Vec::new();
    let mut i: usize = 0;
    while i < pointers.len()
        invariant
            i <= pointers@.len(),
            result@ == pointers@.take(i as int),
        decreases pointers@.len() - i,
    {
        result.push(pointers[i]);
        proof {
            assert(pointers@.take(i as int).push(pointers@[i as int]) =~= pointers@.take(
                i as int + 1,
            ));
        }
        i = i + 1;
    }
    proof {
        assert(pointers@.take(pointers@.len() as int) =~= pointers@);
    }
    result
}

/// The per-mailbox allocator: it owns the blocks it has requested from the
/// pool and fills the current one cell by cell. Exhausting the current
/// block lazily requests the next.
pub struct MailboxAllocator {
    block: Option<Block>,
    used: usize,
}

impl MailboxAllocator {
    /// The free cells left in the current block.
    pub closed spec fn room(self) -> int {
        match self.block {
            Some(b) => b.size - self.used,
            None => 0,
        }
    }

    /// Well-formedness against the pool that granted the blocks: the
    /// current block lies inside the address space and its unfilled tail is
    /// still free.
    pub closed spec fn wf(self, global: GlobalAllocator) -> bool {
        match self.block {
            None => self.used == 0,
            Some(b) => {
                &&& self.used <= b.size
                &&& b.start + b.size <= global.size()
                &&& forall|p: ObjectPointer|
                    b.start + self.used <= p.address < b.start + b.size ==> !(
                    #[trigger] global.allocated(p))
            },
        }
    }

    /// An allocator that has not requested any block yet.
    pub fn new() -> (r: MailboxAllocator)
        ensures
            r.room() == 0,
            forall|g: GlobalAllocator| r.wf(g),
    {
        MailboxAllocator { block: None, used: 0 }
    }

    /// Places `object` in a fresh cell of the mailbox's own blocks,
    /// requesting a new block from the pool when the current one is full.
    /// Fails exactly when no room is left and the pool is exhausted.
    pub fn allocate(&mut self, global: &mut GlobalAllocator, object: Object) -> (r: Result<
        ObjectPointer,
        AllocationError,
    >)
        requires
            old(self).wf(*old(global)),
            old(global).wf(),
            old(global).refs_allocated(object),
        ensures
            final(self).wf(*final(global)),
            final(global).wf(),
            final(global).block_size() == old(global).block_size(),
            final(global).size() >= old(global).size(),
            old(global).preserved_by(*final(global)),
            r is Err <==> (old(self).room() == 0 && old(global).blocks_remaining() == 0),
            match r {
                Ok(p) => {
                    &&& !old(global).allocated(p)
                    &&& final(global).allocated(p)
                    &&& final(global).object_at(p) == object
                    &&& forall|q: ObjectPointer|
                        #[trigger] final(global).allocated(q) ==> old(global).allocated(q) || q
                            == p
                    &&& free_capacity(*final(self), *final(global)) == free_capacity(
                        *old(self),
                        *old(global),
                    ) - 1
                },
                Err(_) => {
                    &&& *final(self) == *old(self)
                    &&& *final(global) == *old(global)
                },
            },
    {
        let ghost a0 = *self;
        let ghost g0 = *global;
        let needs_block = match &self.block {
            None => true,
            Some(b) => self.used >= b.size,
        };
        if needs_block {
            match global.request_block() {
                None => {
                    return Err(AllocationError::PoolExhausted);
                },
                Some(block) => {
                    self.block = Some(block);
                    self.used = 0;
                    proof {
                        assert((g0.blocks_remaining() - 1) * g0.block_size() + g0.block_size()
                            == g0.blocks_remaining() * g0.block_size()) by (nonlinear_arith);
                    }
                },
            }
        }
        let ghost g1 = *global;
        let ghost a1 = *self;
        let block = match &self.block {
            Some(b) => *b,
            None => unreached(),
        };
        let heap_extent = global.cells.len();
        proof {
            assert(block.start + self.used < heap_extent);
        }
        let address = block.start + self.used;
        self.cells_write(global, address, object);
        self.used = self.used + 1;
        proof {
            assert(free_capacity(*self, *global) == free_capacity(a0, g0) - 1);
        }
        Ok(ObjectPointer { address })
    }

    /// Materializes, inside the mailbox's own blocks, a faithful copy of
    /// the object graph rooted at `original`: every object reachable from
    /// the root is copied exactly once — cycles and shared references are
    /// preserved through a copy cache — and the copy shares no cell with
    /// any pre-existing object ([`copy_map_ok`]). The result is always a
    /// fresh pointer, never the original. The only failure is pool
    /// exhaustion; when the free capacity covers the extent of the pre-copy
    /// address space the copy cannot fail.
    #[verifier::rlimit(100)]
    #[verifier::loop_isolation(false)]
    pub fn copy_object(&mut self, global: &mut GlobalAllocator, original: ObjectPointer) -> (r:
        Result<ObjectPointer, AllocationError>)
        requires
            old(self).wf(*old(global)),
            old(global).wf(),
            old(global).allocated(original),
        ensures
            final(self).wf(*final(global)),
            final(global).wf(),
            final(global).block_size() == old(global).block_size(),
            old(global).preserved_by(*final(global)),
            free_capacity(*old(self), *old(global)) >= old(global).size() ==> r is Ok,
            match r {
                Ok(p) => {
                    &&& !old(global).allocated(p)
                    &&& final(global).allocated(p)
                    &&& exists|m: Map<usize, usize>|
                        copy_map_ok(*old(global), *final(global), m, original, p)
                },
                Err(_) => final(global).blocks_remaining() == 0,
            },
    {
        let ghost g0 = *global;
        let ghost a0 = *self;
        let mut cache: Vec<(usize, usize)> = Vec::new();
        let ghost mut m = Map::<usize, usize>::empty();
        let mut pending: Vec<usize> = Vec::new();
        pending.push(original.address);
        proof {
            assert(pending@[0] == original.address);
            assert(pending@.contains(original.address));
        }

        // First pass: walk the graph, allocating one fresh shell per
        // distinct reachable object. A shell carries the source's value and
        // still the source's own references.
        while pending.len() > 0
            invariant
                self.wf(*global),
                global.wf(),
                g0.wf(),
                global.block_size() == g0.block_size(),
                g0.preserved_by(*global),
                g0.allocated(original),
                cache_matches(cache@, m),
                forall|s: usize| #[trigger] m.contains_key(s) ==> shell_ok(g0, *global, m, s),
                forall|s1: usize, s2: usize|
                    #![trigger m[s1], m[s2]]
                    m.contains_key(s1) && m.contains_key(s2) && m[s1] == m[s2] ==> s1 == s2,
                forall|p: ObjectPointer|
                    #[trigger] global.allocated(p) ==> g0.allocated(p) || exists|s: usize|
                        m.contains_key(s) && m[s] == p.address,
                forall|i: int|
                    0 <= i < pending@.len() ==> g0.allocated(
                        ObjectPointer { address: #[trigger] pending@[i] },
                    ),
                m.contains_key(original.address) || pending@.contains(original.address),
                forall|s: usize|
                    #[trigger] m.contains_key(s) ==> edges_cached(g0, m, s, pending@),
                cache@.len() <= g0.size(),
                free_capacity(*self, *global) == free_capacity(a0, g0) - cache@.len(),
            decreases g0.size() - cache@.len(), pending@.len(),
        {
            let ghost g_entry = *global;
            let ghost pending_popped = pending@;
            let next = match pending.pop() {
                Some(a) => a,
                None => unreached(),
            };
            proof {
                assert(next == pending_popped.last());
            }
            match cache_lookup(&cache, next) {
                Some(found) => {
                    proof {
                        let i0 = choose|i: int| 0 <= i < cache@.len() && cache@[i] == (next, found);
                        assert(m.contains_key(cache@[i0].0));
                        assert(m.contains_key(next));
                        assert forall|s: usize|
                            #[trigger] m.contains_key(s) implies edges_cached(
                            g0,
                            m,
                            s,
                            pending@,
                        ) by {
                            let so = ObjectPointer { address: s };
                            assert(edges_cached(g0, m, s, pending_popped));
                            assert forall|jj: int|
                                0 <= jj < g0.object_at(so).references@.len() implies {
                                let t = (#[trigger] g0.object_at(so).references@[jj]).address;
                                m.contains_key(t) || pending@.contains(t)
                            } by {
                                let t = g0.object_at(so).references@[jj].address;
                                if !m.contains_key(t) {
                                    assert(pending_popped.contains(t));
                                    let i = choose|i: int|
                                        0 <= i < pending_popped.len() && pending_popped[i] == t;
                                    assert(t != next);
                                    assert(i < pending_popped.len() - 1);
                                    assert(pending@[i] == t);
                                }
                            }
                        }
                        if !m.contains_key(original.address) {
                            assert(pending_popped.contains(original.address));
                            let i = choose|i: int|
                                0 <= i < pending_popped.len() && pending_popped[i]
                                    == original.address;
                            assert(original.address != next);
                            assert(i < pending_popped.len() - 1);
                            assert(pending@[i] == original.address);
                            assert(pending@.contains(original.address));
                        }
                    }
                },
                None => {
                    let source_pointer = ObjectPointer { address: next };
                    proof {
                        assert(g0.allocated(source_pointer));
                    }
                    let source = global.get(source_pointer);
                    let value = source.value;
                    let refs = clone_pointers(&source.references);
                    proof {
                        assert(global.object_at(source_pointer) == g0.object_at(source_pointer));
                        assert(g0.refs_allocated(g0.object_at(source_pointer)));
                    }
                    let ghost pending_base = pending@;
                    let mut j: usize = 0;
                    while j < refs.len()
                        invariant
                            j <= refs@.len(),
                            refs@ == g0.object_at(ObjectPointer { address: next }).references@,
                            g0.refs_allocated(g0.object_at(ObjectPointer { address: next })),
                            pending@.len() == pending_base.len() + j,
                            forall|i: int|
                                0 <= i < pending_base.len() ==> pending@[i] == pending_base[i],
                            forall|jj: int| 0 <= jj < j ==> pending@.contains(refs@[jj].address),
                            forall|i: int|
                                0 <= i < pending@.len() ==> g0.allocated(
                                    ObjectPointer { address: #[trigger] pending@[i] },
                                ),
                        decreases refs@.len() - j,
                    {
                        let ghost pending_old = pending@;
                        pending.push(refs[j].address);
                        proof {
                            assert(pending@[pending@.len() - 1] == refs@[j as int].address);
                            assert forall|jj: int|
                                0 <= jj < j + 1 implies pending@.contains(refs@[jj].address) by {
                                if jj < j {
                                    let i = choose|i: int|
                                        0 <= i < pending_old.len() && pending_old[i]
                                            == refs@[jj].address;
                                    assert(pending@[i] == refs@[jj].address);
                                } else {
                                    assert(pending@[pending@.len() - 1] == refs@[jj].address);
                                }
                            }
                        }
                        j = j + 1;
                    }
                    proof {
                        assert forall|t: usize|
                            pending_base.contains(t) implies pending@.contains(t) by {
                            let i = choose|i: int|
                                0 <= i < pending_base.len() && pending_base[i] == t;
                            assert(pending@[i] == t);
                        }
                    }
                    let ghost refs_view = refs@;
                    let shell = Object { value, references: refs };
                    let ghost shell_snap = shell;
                    proof {
                        assert forall|jj: int|
                            0 <= jj < shell.references@.len() implies global.allocated(
                            #[trigger] shell.references@[jj],
                        ) by {
                            assert(g0.allocated(shell.references@[jj]));
                        }
                    }
                    match self.allocate(global, shell) {
                        Err(error) => {
                            proof {
                                assert forall|i: int, k: int|
                                    0 <= i < k < cache@.push((next, 0)).len() implies (
                                #[trigger] cache@.push((next, 0))[i]).0 != (#[trigger] cache@.push(
                                    (next, 0),
                                )[k]).0 by {
                                    if k < cache@.len() {
                                        assert(cache@[i].0 != cache@[k].0);
                                    } else {
                                        assert(m.contains_key(cache@[i].0));
                                        assert(shell_ok(g0, *global, m, cache@[i].0));
                                    }
                                }
                                assert forall|i: int|
                                    0 <= i < cache@.push((next, 0)).len() implies (
                                #[trigger] cache@.push((next, 0))[i]).0 < g0.size() by {
                                    if i < cache@.len() {
                                        assert(m.contains_key(cache@[i].0));
                                        assert(shell_ok(g0, *global, m, cache@[i].0));
                                    } else {
                                        assert(g0.allocated(source_pointer));
                                    }
                                }
                                lemma_cache_len_bound(cache@.push((next, 0)), g0.size());
                                assert(free_capacity(*self, *global) == 0);
                                assert(free_capacity(a0, g0) == cache@.len());
                                assert(cache@.len() + 1 <= g0.size());
                            }
                            return Err(error);
                        },
                        Ok(copy_pointer) => {
                            let ghost g_pre = *global;
                            let ghost m_pre = m;
                            let ghost cache_pre = cache@;
                            cache.push((next, copy_pointer.address));
                            proof {
                                m = m.insert(next, copy_pointer.address);
                                assert(!g0.allocated(copy_pointer));
                                assert forall|s: usize|
                                    #[trigger] m.contains_key(s) implies shell_ok(
                                    g0,
                                    *global,
                                    m,
                                    s,
                                ) by {
                                    if s == next {
                                        assert(global.object_at(copy_pointer) == shell_snap);
                                        assert(shell_snap.references@ == refs_view);
                                    } else {
                                        assert(m_pre.contains_key(s));
                                        assert(shell_ok(g0, g_pre, m_pre, s));
                                        let dp = ObjectPointer { address: m_pre[s] };
                                        assert(g_pre.allocated(dp));
                                        assert(global.object_at(dp) == g_pre.object_at(dp));
                                    }
                                }
                                assert forall|s1: usize, s2: usize|
                                    #![trigger m[s1], m[s2]]
                                    m.contains_key(s1) && m.contains_key(s2) && m[s1]
                                    == m[s2] implies s1 == s2 by {
                                    if s1 != s2 {
                                        if s1 == next {
                                            assert(shell_ok(g0, g_pre, m_pre, s2));
                                            assert(g_pre.allocated(
                                                ObjectPointer { address: m_pre[s2] },
                                            ));
                                        } else if s2 == next {
                                            assert(shell_ok(g0, g_pre, m_pre, s1));
                                            assert(g_pre.allocated(
                                                ObjectPointer { address: m_pre[s1] },
                                            ));
                                        }
                                    }
                                }
                                assert forall|i: int|
                                    0 <= i < cache@.len() implies m.contains_key(
                                    (#[trigger] cache@[i]).0,
                                ) && m[cache@[i].0] == cache@[i].1 by {
                                    if i < cache@.len() - 1 {
                                        assert(m_pre.contains_key(cache@[i].0));
                                        assert(cache@[i].0 != next);
                                    }
                                }
                                assert forall|s: usize| #[trigger] m.contains_key(s) implies exists|
                                    i: int,
                                |
                                    0 <= i < cache@.len() && cache@[i] == (s, m[s]) by {
                                    if s == next {
                                        assert(cache@[cache@.len() - 1] == (s, m[s]));
                                    } else {
                                        let k = choose|k: int|
                                            0 <= k < cache_pre.len() && cache_pre[k] == (
                                                s,
                                                m_pre[s],
                                            );
                                        assert(cache@[k] == (s, m[s]));
                                    }
                                }
                                assert forall|s: usize|
                                    #[trigger] m.contains_key(s) implies edges_cached(
                                    g0,
                                    m,
                                    s,
                                    pending@,
                                ) by {
                                    let so = ObjectPointer { address: s };
                                    assert forall|jj: int|
                                        0 <= jj < g0.object_at(so).references@.len() implies {
                                        let t = (#[trigger] g0.object_at(
                                            so,
                                        ).references@[jj]).address;
                                        m.contains_key(t) || pending@.contains(t)
                                    } by {
                                        let t = g0.object_at(so).references@[jj].address;
                                        if s == next {
                                            assert(pending@.contains(refs_view[jj].address));
                                        } else {
                                            assert(m_pre.contains_key(s));
                                            assert(edges_cached(g0, m_pre, s, pending_popped));
                                            if !m_pre.contains_key(t) && t != next {
                                                assert(pending_popped.contains(t));
                                                let i = choose|i: int|
                                                    0 <= i < pending_popped.len()
                                                        && pending_popped[i] == t;
                                                assert(i < pending_popped.len() - 1);
                                                assert(pending_base[i] == t);
                                                assert(pending@[i] == t);
                                                assert(pending@.contains(t));
                                            }
                                        }
                                    }
                                }
                                assert forall|p: ObjectPointer|
                                    #[trigger] global.allocated(p) implies g0.allocated(p)
                                    || exists|s: usize|
                                    m.contains_key(s) && m[s] == p.address by {
                                    if !g0.allocated(p) {
                                        if p == copy_pointer {
                                            assert(m.contains_key(next) && m[next] == p.address);
                                        } else {
                                            assert(g_entry.allocated(p));
                                            let s = choose|s: usize|
                                                m_pre.contains_key(s) && m_pre[s] == p.address;
                                            assert(m.contains_key(s) && m[s] == p.address);
                                        }
                                    }
                                }
                                if !m.contains_key(original.address) {
                                    assert(pending_popped.contains(original.address));
                                    let i = choose|i: int|
                                        0 <= i < pending_popped.len() && pending_popped[i]
                                            == original.address;
                                    assert(original.address != next);
                                    assert(i < pending_popped.len() - 1);
                                    assert(pending_base[i] == original.address);
                                    assert(pending@[i] == original.address);
                                    assert(pending@.contains(original.address));
                                }
                                assert forall|i: int|
                                    0 <= i < cache@.len() implies (#[trigger] cache@[i]).0
                                    < g0.size() by {
                                    assert(m.contains_key(cache@[i].0));
                                    assert(shell_ok(g0, *global, m, cache@[i].0));
                                }
                                lemma_cache_len_bound(cache@, g0.size());
                            }
                        },
                    }
                },
            }
        }

        // Second pass: redirect each shell's references to the cached
        // copies, turning the set of shells into a faithful copy of the
        // source graph.
        let ghost g_mid = *global;
        let mut idx: usize = 0;
        while idx < cache.len()
            invariant
                self.wf(*global),
                global.wf(),
                g0.wf(),
                global.block_size() == g0.block_size(),
                g0.preserved_by(*global),
                cache_matches(cache@, m),
                forall|s1: usize, s2: usize|
                    #![trigger m[s1], m[s2]]
                    m.contains_key(s1) && m.contains_key(s2) && m[s1] == m[s2] ==> s1 == s2,
                m.contains_key(original.address),
                forall|s: usize|
                    #[trigger] m.contains_key(s) ==> edges_cached(g0, m, s, Seq::empty()),
                idx <= cache@.len(),
                forall|i: int|
                    0 <= i < idx ==> copy_entry_ok(g0, *global, m, (#[trigger] cache@[i]).0),
                forall|i: int|
                    idx <= i < cache@.len() ==> shell_ok(g0, *global, m, (#[trigger] cache@[i]).0),
            decreases cache@.len() - idx,
        {
            let pair = cache[idx];
            let source_address = pair.0;
            let copy_address = pair.1;
            proof {
                assert(m.contains_key(source_address) && m[source_address] == copy_address);
                assert(shell_ok(g0, *global, m, source_address));
            }
            let copy_pointer = ObjectPointer { address: copy_address };
            let source_refs_len = global.get(copy_pointer).references.len();
            let ghost sp = ObjectPointer { address: source_address };
            let mut new_refs: Vec<ObjectPointer> = Vec::new();
            let mut j: usize = 0;
            while j < source_refs_len
                invariant
                    j <= source_refs_len,
                    new_refs@.len() == j,
                    source_refs_len == g0.object_at(sp).references@.len(),
                    forall|jj: int|
                        0 <= jj < j ==> (#[trigger] new_refs@[jj]).address == m[g0.object_at(
                            sp,
                        ).references@[jj].address],
                    forall|jj: int| 0 <= jj < j ==> global.allocated(#[trigger] new_refs@[jj]),
                decreases source_refs_len - j,
            {
                let ref_address = global.get(copy_pointer).references[j].address;
                proof {
                    assert(ref_address == g0.object_at(sp).references@[j as int].address);
                    assert(edges_cached(g0, m, source_address, Seq::empty()));
                    assert(m.contains_key(ref_address));
                }
                let mapped = match cache_lookup(&cache, ref_address) {
                    Some(d) => d,
                    None => {
                        proof {
                            let i = choose|i: int|
                                0 <= i < cache@.len() && cache@[i] == (
                                    ref_address,
                                    m[ref_address],
                                );
                            assert(false);
                        }
                        unreached()
                    },
                };
                proof {
                    let i = choose|i: int|
                        0 <= i < cache@.len() && cache@[i] == (ref_address, mapped);
                    assert(m[ref_address] == mapped);
                    let k = choose|k: int|
                        0 <= k < cache@.len() && cache@[k] == (ref_address, m[ref_address]);
                    if k < idx {
                        assert(copy_entry_ok(g0, *global, m, cache@[k].0));
                    } else {
                        assert(shell_ok(g0, *global, m, cache@[k].0));
                    }
                    assert(global.allocated(ObjectPointer { address: mapped }));
                }
                new_refs.push(ObjectPointer { address: mapped });
                j = j + 1;
            }
            let ghost g_before = *global;
            global.set_references(copy_pointer, new_refs);
            proof {
                assert forall|i: int|
                    0 <= i < idx + 1 implies copy_entry_ok(
                    g0,
                    *global,
                    m,
                    (#[trigger] cache@[i]).0,
                ) by {
                    let s = cache@[i].0;
                    let dp = ObjectPointer { address: m[s] };
                    if i < idx {
                        assert(copy_entry_ok(g0, g_before, m, s));
                        assert(m[s] != m[source_address]);
                        assert(g_before.allocated(dp));
                        assert(global.object_at(dp) == g_before.object_at(dp));
                    } else {
                        assert(s == source_address);
                    }
                }
                assert forall|i: int|
                    idx + 1 <= i < cache@.len() implies shell_ok(
                    g0,
                    *global,
                    m,
                    (#[trigger] cache@[i]).0,
                ) by {
                    let s = cache@[i].0;
                    let dp = ObjectPointer { address: m[s] };
                    assert(shell_ok(g0, g_before, m, s));
                    assert(m[s] != m[source_address]);
                    assert(g_before.allocated(dp));
                    assert(global.object_at(dp) == g_before.object_at(dp));
                }
                assert forall|p: ObjectPointer|
                    #[trigger] g0.allocated(p) implies global.allocated(p) && global.object_at(p)
                    == g0.object_at(p) by {
                    assert(g_before.allocated(p));
                    assert(p.address != copy_address);
                }
                assert(self.wf(*global));
            }
            idx = idx + 1;
        }

        let result_address = match cache_lookup(&cache, original.address) {
            Some(d) => d,
            None => {
                proof {
                    let i = choose|i: int|
                        0 <= i < cache@.len() && cache@[i] == (
                            original.address,
                            m[original.address],
                        );
                    assert(false);
                }
                unreached()
            },
        };
        let result = ObjectPointer { address: result_address };
        proof {
            let i = choose|i: int|
                0 <= i < cache@.len() && cache@[i] == (original.address, result_address);
            assert(m[original.address] == result_address);
            assert forall|s: usize| #[trigger] m.contains_key(s) implies copy_entry_ok(
                g0,
                *global,
                m,
                s,
            ) by {
                let k = choose|k: int| 0 <= k < cache@.len() && cache@[k] == (s, m[s]);
                assert(copy_entry_ok(g0, *global, m, cache@[k].0));
            }
            assert(copy_entry_ok(g0, *global, m, original.address));
            assert(!g0.allocated(result));
            assert(global.allocated(result));
            assert(copy_map_ok(g0, *global, m, original, result));
            assert(exists|mm: Map<usize, usize>| copy_map_ok(g0, *global, mm, original, result));
            assert(g0 == *old(global));
            assert(self.wf(*global));
            assert(global.wf());
        }
        Ok(result)
    }

    /// Fills the cell at `address` — the next free cell of the current
    /// block — with `object`.
    fn cells_write(&self, global: &mut GlobalAllocator, address: usize, object: Object)
        requires
            self.wf(*old(global)),
            old(global).wf(),
            old(global).refs_allocated(object),
            self.block is Some,
            self.used < self.block.unwrap().size,
            address == self.block.unwrap().start + self.used,
        ensures
            final(global).wf(),
            final(global).block_size() == old(global).block_size(),
            final(global).blocks_remaining() == old(global).blocks_remaining(),
            final(global).size() == old(global).size(),
            old(global).preserved_by(*final(global)),
            !old(global).allocated(ObjectPointer { address }),
            final(global).allocated(ObjectPointer { address }),
            final(global).object_at(ObjectPointer { address }) == object,
            forall|q: ObjectPointer|
                #[trigger] final(global).allocated(q) ==> old(global).allocated(q) || q
                    == (ObjectPointer { address }),
    {
        let ghost g0 = *global;
        proof {
            assert(!g0.allocated(ObjectPointer { address }));
        }
        global.cells[address] = Some(object);
        proof {
            assert forall|q: ObjectPointer|
                #[trigger] g0.allocated(q) implies global.allocated(q) && global.object_at(q)
                == g0.object_at(q) by {
                assert(q.address != address);
                assert(global.cells@[q.address as int] == g0.cells@[q.address as int]);
            }
            assert(global.heap_closed()) by {
                assert forall|a: int|
                    0 <= a < global.cells@.len() && (#[trigger] global.cells@[a])
                        is Some implies global.refs_allocated(global.cells@[a].unwrap()) by {
                    if a == address as int {
                        let o = global.cells@[a].unwrap();
                        assert(o == object);
                        assert forall|j: int|
                            0 <= j < o.references@.len() implies global.allocated(
                            #[trigger] o.references@[j],
                        ) by {
                            assert(g0.allocated(o.references@[j]));
                        }
                    } else {
                        assert(global.cells@[a] == g0.cells@[a]);
                        let o = g0.cells@[a].unwrap();
                        assert(g0.refs_allocated(o));
                        assert forall|j: int|
                            0 <= j < o.references@.len() implies global.allocated(
                            #[trigger] o.references@[j],
                        ) by {
                            assert(g0.allocated(o.references@[j]));
                        }
                    }
                }
            }
        }
    }
}

} // verus!
