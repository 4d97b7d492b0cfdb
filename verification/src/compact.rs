//! The compactor: slide the live objects down over the garbage and clear their
//! mark words.

use crate::layout::{is_layout, lemma_next_start, lemma_walk_is_layout, next_start, size_at};
use crate::memory::Heap;
use crate::plan::{lemma_moved_bound, lemma_moved_frame, lemma_moved_order, moved};
use vstd::prelude::*;

verus! {

/// Where those of the first `k` objects of `s` that are in `live` start after
/// compaction, in address order.
pub open spec fn slid(words: Seq<u64>, s: Seq<int>, live: Set<int>, k: int) -> Seq<int>
    decreases k,
{
    if k <= 0 {
        Seq::empty()
    } else if live.contains(s[k - 1]) {
        slid(words, s, live, k - 1).push(moved(words, s, live, k - 1))
    } else {
        slid(words, s, live, k - 1)
    }
}

/// A layout does not depend on the words past its end.
pub proof fn lemma_layout_prefix(a: Seq<u64>, b: Seq<u64>, used: int, s: Seq<int>)
    requires
        is_layout(a, used, s),
        a.len() == b.len(),
        forall|p: int| 0 <= p < used ==> a[p] == #[trigger] b[p],
    ensures
        is_layout(b, used, s),
{
    assert forall|k: int| 0 <= k < s.len() implies size_at(a, #[trigger] s[k]) == size_at(
        b,
        s[k],
    ) by {}
}

/// A layout grows by an object that starts where it ends.
pub proof fn lemma_layout_push(words: Seq<u64>, used: int, s: Seq<int>)
    requires
        is_layout(words, used, s),
        used + size_at(words, used) <= words.len(),
    ensures
        is_layout(words, used + size_at(words, used), s.push(used)),
{
    let t = s.push(used);
    let end = used + size_at(words, used);
    assert forall|k: int| 0 <= k < t.len() implies 0 <= #[trigger] t[k] && t[k] + 2 <= end && t[k]
        + size_at(words, t[k]) <= end && (k == t.len() - 1 ==> t[k] + size_at(words, t[k])
        == end) by {
        if k < s.len() {
            assert(t[k] == s[k]);
        }
    }
    assert forall|i: int, j: int| 0 <= i < j < t.len() implies #[trigger] t[i] + size_at(
        words,
        t[i],
    ) <= #[trigger] t[j] && (j == i + 1 ==> t[i] + size_at(words, t[i]) == t[j]) by {
        assert(t[i] == s[i]);
        if j < s.len() {
            assert(t[j] == s[j]);
        }
    }
}

/// Where objects start after compaction depends on the length words and the
/// live set alone.
pub proof fn lemma_slid_frame(a: Seq<u64>, b: Seq<u64>, s: Seq<int>, live: Set<int>, k: int)
    requires
        0 <= k <= s.len(),
        forall|i: int| 0 <= i < s.len() ==> a[#[trigger] s[i] + 1] == b[s[i] + 1],
    ensures
        slid(a, s, live, k) == slid(b, s, live, k),
    decreases k,
{
    if k > 0 {
        lemma_slid_frame(a, b, s, live, k - 1);
        lemma_moved_frame(a, b, s, live, k - 1);
    }
}

/// Every kept object has its landing place among the starts after compaction.
pub proof fn lemma_slid_has(words: Seq<u64>, s: Seq<int>, live: Set<int>, n: int, k: int)
    requires
        0 <= k < n <= s.len(),
        live.contains(s[k]),
    ensures
        slid(words, s, live, n).contains(moved(words, s, live, k)),
    decreases n,
{
    let prev = slid(words, s, live, n - 1);
    if k < n - 1 {
        lemma_slid_has(words, s, live, n - 1, k);
        if live.contains(s[n - 1]) {
            let i = choose|i: int| 0 <= i < prev.len() && prev[i] == moved(words, s, live, k);
            assert(prev.push(moved(words, s, live, n - 1))[i] == moved(words, s, live, k));
        }
    } else {
        assert(prev.push(moved(words, s, live, k))[prev.len() as int] == moved(words, s, live, k));
    }
}

/// Every start after compaction is the landing place of a kept object.
pub proof fn lemma_slid_from(words: Seq<u64>, s: Seq<int>, live: Set<int>, n: int, d: int) -> (k: int)
    requires
        0 <= n <= s.len(),
        slid(words, s, live, n).contains(d),
    ensures
        0 <= k < n,
        live.contains(s[k]),
        d == moved(words, s, live, k),
    decreases n,
{
    assert(n > 0) by {
        if n <= 0 {
            assert(slid(words, s, live, n).len() == 0);
        }
    }
    let prev = slid(words, s, live, n - 1);
    if live.contains(s[n - 1]) && d == moved(words, s, live, n - 1) {
        n - 1
    } else {
        if live.contains(s[n - 1]) {
            let i = choose|i: int|
                0 <= i < slid(words, s, live, n).len() && slid(words, s, live, n)[i] == d;
            assert(prev[i] == d);
        }
        lemma_slid_from(words, s, live, n - 1, d)
    }
}

/// Copies `size` words from index `from` down to index `to`, lowest first.
fn slide(words: &mut Vec<u64>, from: usize, to: usize, size: usize)
    requires
        to <= from,
        from + size <= old(words)@.len(),
    ensures
        final(words)@.len() == old(words)@.len(),
        forall|p: int| 0 <= p < to ==> #[trigger] final(words)@[p] == old(words)@[p],
        forall|p: int|
            to <= p < to + size ==> #[trigger] final(words)@[p] == old(words)@[p + (from - to)],
        forall|p: int|
            to + size <= p < old(words)@.len() ==> #[trigger] final(words)@[p] == old(words)@[p],
{
    let ghost w0 = words@;
    let total: usize = words.len();
    let mut j: usize = 0;
    while j < size
        invariant
            to <= from,
            from + size <= w0.len(),
            total == w0.len(),
            words@.len() == w0.len(),
            j <= size,
            forall|p: int| 0 <= p < to ==> #[trigger] words@[p] == w0[p],
            forall|p: int| to <= p < to + j ==> #[trigger] words@[p] == w0[p + (from - to)],
            forall|p: int| to + j <= p < w0.len() ==> #[trigger] words@[p] == w0[p],
        decreases size - j,
    {
        let w: u64 = words[from + j];
        words[to + j] = w;
        j += 1;
    }
}

/// The heap `h` holds, at the place where it lands, a copy of the `k`-th
/// object of `h0` with its mark word cleared.
pub open spec fn landed(h0: Heap, h: Heap, used: int, k: int) -> bool {
    let o = h0.objs(used)[k];
    let d = h0.dest(used, k);
    &&& h.words@[d] == 0
    &&& forall|p: int|
        d + 1 <= p < d + size_at(h0.words@, o) ==> #[trigger] h.words@[p] == h0.words@[p + (o - d)]
}

/// The first `k` objects of `h0` have been dealt with: `h` holds a copy of each
/// kept one where it lands, and these copies form a gap-free run.
#[verifier::opaque]
pub open spec fn compacted(h0: Heap, h: Heap, used: int, k: int) -> bool {
    &&& forall|i: int|
        0 <= i < k && h0.words@[h0.objs(used)[i]] != 0 ==> #[trigger] landed(h0, h, used, i)
    &&& is_layout(h.words@, h0.dest(used, k), slid(h0.words@, h0.objs(used), h0.live(used), k))
}

/// Before compaction starts, nothing has been dealt with.
proof fn lemma_compacted_none(h0: Heap, used: int)
    requires
        0 <= used <= h0.words@.len(),
    ensures
        compacted(h0, h0, used, 0),
{
    reveal(compacted);
}

/// An object whose mark word is 0 is dealt with by passing over it.
proof fn lemma_drop(h0: Heap, h1: Heap, used: int, k: int)
    requires
        0 <= k < h0.objs(used).len(),
        h0.words@[h0.objs(used)[k]] == 0,
        compacted(h0, h1, used, k),
    ensures
        compacted(h0, h1, used, k + 1),
        h0.dest(used, k + 1) == h0.dest(used, k),
{
    reveal(compacted);
}

/// A copy is not disturbed by stores outside the words it takes.
proof fn lemma_landed_frame(h0: Heap, h1: Heap, h2: Heap, used: int, i: int)
    requires
        landed(h0, h1, used, i),
        forall|p: int|
            h0.dest(used, i) <= p < h0.dest(used, i) + size_at(h0.words@, h0.objs(used)[i])
                ==> #[trigger] h2.words@[p] == h1.words@[p],
    ensures
        landed(h0, h2, used, i),
{
}

/// After the words of the `k`-th object are copied down and the copy's mark
/// word is cleared, the copy is where the object lands.
proof fn lemma_keep_new(h0: Heap, h1: Heap, h2: Heap, used: int, k: int)
    requires
        is_layout(h0.words@, used, h0.objs(used)),
        0 <= k < h0.objs(used).len(),
        0 <= h0.dest(used, k) <= h0.objs(used)[k],
        forall|p: int|
            h0.objs(used)[k] <= p < h0.words@.len() ==> #[trigger] h1.words@[p] == h0.words@[p],
        h2.words@[h0.dest(used, k)] == 0,
        forall|p: int|
            h0.dest(used, k) + 1 <= p < h0.dest(used, k) + size_at(h0.words@, h0.objs(used)[k])
                ==> #[trigger] h2.words@[p] == h1.words@[p + (h0.objs(used)[k] - h0.dest(used, k))],
    ensures
        landed(h0, h2, used, k),
{
    let s = h0.objs(used);
    let to = h0.dest(used, k);
    lemma_next_start(h0.words@, 0, used, s, k);
    assert forall|p: int| to + 1 <= p < to + size_at(h0.words@, s[k]) implies #[trigger] h2.words@[p]
        == h0.words@[p + (s[k] - to)] by {
        assert(h2.words@[p] == h1.words@[p + (s[k] - to)]);
        assert(h1.words@[p + (s[k] - to)] == h0.words@[p + (s[k] - to)]);
    }
}

/// One step of compaction on a live object: after its words are copied down to
/// where it lands and the copy's mark word is cleared, the compacted part has
/// grown by that object.
proof fn lemma_keep(h0: Heap, h1: Heap, h2: Heap, used: int, k: int)
    requires
        is_layout(h0.words@, used, h0.objs(used)),
        0 <= k < h0.objs(used).len(),
        h0.words@[h0.objs(used)[k]] != 0,
        h1.words@.len() == h0.words@.len(),
        h2.words@.len() == h0.words@.len(),
        forall|p: int|
            h0.objs(used)[k] <= p < h0.words@.len() ==> #[trigger] h1.words@[p] == h0.words@[p],
        compacted(h0, h1, used, k),
        forall|p: int| 0 <= p < h0.dest(used, k) ==> #[trigger] h2.words@[p] == h1.words@[p],
        h2.words@[h0.dest(used, k)] == 0,
        forall|p: int|
            h0.dest(used, k) + 1 <= p < h0.dest(used, k) + size_at(h0.words@, h0.objs(used)[k])
                ==> #[trigger] h2.words@[p] == h1.words@[p + (h0.objs(used)[k] - h0.dest(used, k))],
    ensures
        compacted(h0, h2, used, k + 1),
        h0.dest(used, k + 1) == h0.dest(used, k) + size_at(h0.words@, h0.objs(used)[k]),
{
    let s = h0.objs(used);
    let live = h0.live(used);
    let to = h0.dest(used, k);
    assert(s.contains(s[k]));
    assert(live.contains(s[k]));
    lemma_moved_bound(h0.words@, used, s, live, k);
    lemma_moved_bound(h0.words@, used, s, live, k + 1);
    lemma_keep_new(h0, h1, h2, used, k);
    assert forall|i: int| 0 <= i < k && h0.words@[s[i]] != 0 implies #[trigger] landed(
        h0,
        h2,
        used,
        i,
    ) by {
        assert(landed(h0, h1, used, i)) by {
            reveal(compacted);
        }
        lemma_moved_order(h0.words@, used, s, live, i, k);
        assert(s.contains(s[i]));
        assert(live.contains(s[i]));
        lemma_moved_bound(h0.words@, used, s, live, i);
        lemma_landed_frame(h0, h1, h2, used, i);
    }
    let before = slid(h0.words@, s, live, k);
    assert(is_layout(h2.words@, to, before)) by {
        assert(is_layout(h1.words@, to, before)) by {
            reveal(compacted);
        }
        lemma_layout_prefix(h1.words@, h2.words@, to, before);
    }
    assert(h2.words@[to + 1] == h0.words@[s[k] + 1]) by {
        assert(landed(h0, h2, used, k));
        assert(s[k] + 2 <= used);
    }
    lemma_layout_push(h2.words@, to, before);
    assert(compacted(h0, h2, used, k + 1)) by {
        reveal(compacted);
    }
}

/// When every object has been dealt with, each kept object has its copy and
/// the copies are the whole layout.
proof fn lemma_compacted_all(h0: Heap, h: Heap, used: int)
    requires
        compacted(h0, h, used, h0.objs(used).len() as int),
    ensures
        forall|k: int|
            0 <= k < h0.objs(used).len() && h0.words@[h0.objs(used)[k]] != 0 ==> #[trigger] landed(
                h0,
                h,
                used,
                k,
            ),
        is_layout(
            h.words@,
            h0.dest(used, h0.objs(used).len() as int),
            slid(h0.words@, h0.objs(used), h0.live(used), h0.objs(used).len() as int),
        ),
{
    reveal(compacted);
}

/// Slides every object whose mark word is not 0 down over the objects whose
/// mark word is 0, keeping their order, and clears the mark word of each copy.
/// Returns the new heap pointer: the old one lowered by the garbage words.
pub fn compact(heap: &mut Heap, heap_ptr: u64) -> (new_heap_ptr: u64)
    requires
        old(heap).has_ptr(heap_ptr),
        old(heap).laid_out(old(heap).index(heap_ptr)),
    ensures
        final(heap).start == old(heap).start,
        final(heap).words@.len() == old(heap).words@.len(),
        final(heap).has_ptr(new_heap_ptr),
        new_heap_ptr <= heap_ptr,
        final(heap).index(new_heap_ptr) == old(heap).dest(
            old(heap).index(heap_ptr),
            old(heap).objs(old(heap).index(heap_ptr)).len() as int,
        ),
        forall|p: int|
            final(heap).index(new_heap_ptr) <= p < old(heap).words@.len()
                ==> #[trigger] final(heap).words@[p] == old(heap).words@[p],
        forall|k: int|
            0 <= k < old(heap).objs(old(heap).index(heap_ptr)).len() && old(heap).words@[old(
                heap,
            ).objs(old(heap).index(heap_ptr))[k]] != 0 ==> #[trigger] landed(
                *old(heap),
                *final(heap),
                old(heap).index(heap_ptr),
                k,
            ),
        is_layout(
            final(heap).words@,
            final(heap).index(new_heap_ptr),
            slid(
                old(heap).words@,
                old(heap).objs(old(heap).index(heap_ptr)),
                old(heap).live(old(heap).index(heap_ptr)),
                old(heap).objs(old(heap).index(heap_ptr)).len() as int,
            ),
        ),
{
    let ghost h0 = *heap;
    let ghost used = heap.index(heap_ptr);
    let ghost s = heap.objs(used);
    let ghost live = heap.live(used);
    let limit: usize = heap.word_index(heap_ptr);
    let total: usize = heap.words.len();
    let mut from: usize = 0;
    let mut shift: usize = 0;
    let ghost mut k: int = 0;
    proof {
        lemma_walk_is_layout(h0.words@, 0, used);
        lemma_compacted_none(h0, used);
    }
    while from < limit
        invariant
            h0.wf(),
            h0.has_ptr(heap_ptr),
            limit == used,
            used == h0.index(heap_ptr),
            total == h0.words@.len(),
            s == h0.objs(used),
            live == h0.live(used),
            is_layout(h0.words@, used, s),
            heap.start == h0.start,
            heap.words@.len() == h0.words@.len(),
            0 <= k <= s.len(),
            from == next_start(s, used, k - 1),
            from <= used,
            shift == from - h0.dest(used, k),
            0 <= shift <= from,
            forall|p: int|
                h0.dest(used, k) <= p < h0.words@.len() ==> #[trigger] heap.words@[p] == h0.words@[p],
            compacted(h0, *heap, used, k),
        decreases used - from,
    {
        let ghost h1 = *heap;
        proof {
            if k == 0 {
                assert(s.len() > 0);
            } else {
                lemma_next_start(h0.words@, 0, used, s, k - 1);
            }
            assert(s[k] == from);
            assert(s.contains(s[k]));
            lemma_moved_bound(h0.words@, used, s, live, k + 1);
            lemma_next_start(h0.words@, 0, used, s, k);
        }
        let size: usize = 2 + heap.words[from + 1] as usize;
        if heap.words[from] == 0 {
            shift = shift + size;
            proof {
                lemma_drop(h0, h1, used, k);
            }
        } else {
            let dst: usize = from - shift;
            slide(&mut heap.words, from, dst, size);
            heap.words[dst] = 0;
            proof {
                lemma_keep(h0, h1, *heap, used, k);
            }
        }
        from = from + size;
        proof {
            k = k + 1;
        }
    }
    assert(k == s.len());
    proof {
        lemma_compacted_all(h0, *heap, used);
    }
    heap_ptr - 8 * (shift as u64)
}

} // verus!
