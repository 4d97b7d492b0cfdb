//! The bump allocator that a running program uses between collections.

use crate::compact::{lemma_layout_prefix, lemma_layout_push};
use crate::layout::{lemma_layout_is_walk, lemma_obj_bounds, lemma_walk_is_layout, size_at};
use crate::memory::Heap;
use vstd::prelude::*;

verus! {

/// The heap pointer after a vector of `len` payload words is allocated at `heap_ptr`.
pub open spec fn bumped(heap_ptr: int, len: int) -> int {
    heap_ptr + 8 * (len + 2)
}

/// The heap pointer after the first `k` of the vectors with payload lengths
/// `lens` are allocated one after the other, starting at `heap_ptr`.
pub open spec fn bumped_by(heap_ptr: int, lens: Seq<u64>, k: int) -> int
    decreases k,
{
    if k <= 0 {
        heap_ptr
    } else {
        bumped(bumped_by(heap_ptr, lens, k - 1), lens[k - 1] as int)
    }
}

/// Between collections the heap pointer never goes down: after more
/// allocations it is at least where it was after fewer.
pub proof fn law_heap_ptr_monotone(heap_ptr: int, lens: Seq<u64>, i: int, j: int)
    requires
        0 <= i <= j <= lens.len(),
    ensures
        bumped_by(heap_ptr, lens, i) <= bumped_by(heap_ptr, lens, j),
    decreases j,
{
    if i < j {
        law_heap_ptr_monotone(heap_ptr, lens, i, j - 1);
    }
}

/// In a heap of no words no vector fits: every allocation fails, and the heap
/// pointer, which is the start of the heap, has nothing allocated below it.
pub proof fn law_zero_heap_never_fits(h: Heap, heap_ptr: u64, len: u64)
    requires
        h.words@.len() == 0,
        h.has_ptr(heap_ptr),
    ensures
        heap_ptr == h.start,
        h.index(heap_ptr) == 0,
        bumped(heap_ptr as int, len as int) > h.end(),
{
}

/// The heap after a vector of `len` words, each `fill`, has been written at the
/// word index `used`.
pub open spec fn allocated(h0: Heap, h1: Heap, used: int, len: int, fill: u64) -> bool {
    &&& h1.start == h0.start
    &&& h1.words@.len() == h0.words@.len()
    &&& h1.words@[used] == 0
    &&& h1.words@[used + 1] == len
    &&& forall|p: int|
        0 <= p < h0.words@.len() ==> #[trigger] h1.words@[p] == if used + 2 <= p < used + 2 + len {
            fill
        } else if p == used {
            0
        } else if p == used + 1 {
            len as u64
        } else {
            h0.words@[p]
        }
}

/// A heap with one more vector at its end is in the between-collections
/// state if it was before and the fill word, if a reference, points to an object.
proof fn lemma_allocated_ready(h0: Heap, h1: Heap, used: int, len: int, fill: u64)
    requires
        0 <= used,
        0 <= len <= u64::MAX,
        h0.ready(used),
        used + 2 + len <= h0.words@.len(),
        allocated(h0, h1, used, len, fill),
        h0.is_ref(fill) ==> h0.valid_ref(used, fill),
    ensures
        h1.ready(used + 2 + len),
        h1.objs(used + 2 + len) == h0.objs(used).push(used),
{
    let s = h0.objs(used);
    let t = s.push(used);
    let new_used = used + 2 + len;
    lemma_walk_is_layout(h0.words@, 0, used);
    lemma_layout_prefix(h0.words@, h1.words@, used, s);
    assert(size_at(h1.words@, used) == 2 + len);
    lemma_layout_push(h1.words@, used, s);
    lemma_layout_is_walk(h1.words@, 0, new_used, t);
    assert forall|o: int| t.contains(o) implies o == used || s.contains(o) by {
        let i = choose|i: int| 0 <= i < t.len() && t[i] == o;
        if i < s.len() {
            assert(s[i] == o);
        }
    }
    assert forall|o: int| s.contains(o) implies t.contains(o) by {
        let i = choose|i: int| 0 <= i < s.len() && s[i] == o;
        assert(t[i] == o);
    }
    assert(t[s.len() as int] == used);
    assert forall|o: int| h1.is_obj(new_used, o) implies #[trigger] h1.words@[o] == 0 by {
        if o != used {
            lemma_obj_bounds(h0.words@, used, o);
            assert(h0.words@[o] == 0);
        }
    }
    assert forall|o: int, j: int|
        h1.is_obj(new_used, o) && 0 <= j < h1.len_of(o) && h1.is_ref(
            #[trigger] h1.payload(o, j),
        ) implies h1.valid_ref(new_used, h1.payload(o, j)) by {
        if o == used {
            assert(h1.payload(o, j) == fill);
            assert(h0.valid_ref(used, fill));
        } else {
            lemma_obj_bounds(h0.words@, used, o);
            assert(h1.len_of(o) == h0.len_of(o));
            assert(h1.payload(o, j) == h0.payload(o, j));
            assert(h0.valid_ref(used, h0.payload(o, j)));
        }
    }
}

impl Heap {
    /// A heap of `capacity` words, all 0, whose first word has address `start`.
    pub fn new(start: u64, capacity: usize) -> (heap: Heap)
        requires
            start >= 8,
            start % 8 == 0,
            start + 8 * capacity + 8 <= u64::MAX,
        ensures
            heap.start == start,
            heap.words@.len() == capacity,
            forall|p: int| 0 <= p < capacity ==> heap.words@[p] == 0,
            heap.wf(),
            heap.has_ptr(start),
            heap.ready(0),
    {
        let mut words: Vec<u64> = Vec::new();
        let mut i: usize = 0;
        while i < capacity
            invariant
                i <= capacity,
                words@.len() == i,
                forall|p: int| 0 <= p < i ==> words@[p] == 0,
            decreases capacity - i,
        {
            words.push(0);
            i += 1;
        }
        let heap = Heap { start, words };
        proof {
            assert(heap.objs(0) =~= Seq::empty());
        }
        heap
    }

    /// Byte address one past the last word of the region.
    pub fn end_addr(&self) -> (e: u64)
        requires
            self.wf(),
        ensures
            e == self.end(),
    {
        self.start + 8 * (self.words.len() as u64)
    }
}

/// Allocates at `heap_ptr` a vector of `len` payload words, each `fill`, with a
/// clear mark word. Returns the new heap pointer; the reference to the vector
/// is `heap_ptr + 1`. Returns `None`, and changes nothing, if the vector does
/// not fit below the end of the heap.
pub fn allocate(heap: &mut Heap, heap_ptr: u64, len: u64, fill: u64) -> (r: Option<u64>)
    requires
        old(heap).has_ptr(heap_ptr),
        old(heap).ready(old(heap).index(heap_ptr)),
        old(heap).is_ref(fill) ==> old(heap).valid_ref(old(heap).index(heap_ptr), fill),
    ensures
        r is None <==> bumped(heap_ptr as int, len as int) > old(heap).end(),
        r is None ==> *final(heap) == *old(heap),
        r matches Some(p) ==> {
            &&& p == bumped(heap_ptr as int, len as int)
            &&& p >= heap_ptr
            &&& final(heap).has_ptr(p)
            &&& allocated(*old(heap), *final(heap), old(heap).index(heap_ptr), len as int, fill)
            &&& final(heap).ready(final(heap).index(p))
            &&& final(heap).objs(final(heap).index(p)) == old(heap).objs(
                old(heap).index(heap_ptr),
            ).push(old(heap).index(heap_ptr))
        },
{
    let ghost h0 = *heap;
    let used: usize = heap.word_index(heap_ptr);
    let total: usize = heap.words.len();
    let free: usize = total - used;
    if free < 2 || len > (free - 2) as u64 {
        return None;
    }
    let n: usize = len as usize;
    heap.words[used] = 0;
    heap.words[used + 1] = len;
    let mut j: usize = 0;
    while j < n
        invariant
            j <= n,
            n == len,
            used + 2 + n <= total,
            total == h0.words@.len(),
            heap.start == h0.start,
            heap.words@.len() == h0.words@.len(),
            forall|p: int|
                0 <= p < h0.words@.len() ==> #[trigger] heap.words@[p] == if used + 2 <= p < used
                    + 2 + j {
                    fill
                } else if p == used {
                    0
                } else if p == used + 1 {
                    len
                } else {
                    h0.words@[p]
                },
        decreases n - j,
    {
        heap.words[used + 2 + j] = fill;
        j += 1;
    }
    proof {
        lemma_allocated_ready(h0, *heap, used as int, len as int, fill);
    }
    Some(heap_ptr + 8 * (len + 2))
}

} // verus!
