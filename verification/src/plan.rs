//! The forwarding planner: give every marked object its address after
//! compaction and record it in the mark word.

use crate::graph::lemma_same_bodies_layout;
use crate::layout::{is_layout, lemma_inside_is_no_start, lemma_next_start, next_start, size_at};
use crate::memory::{same_bodies, Heap};
use vstd::prelude::*;

verus! {

/// Words taken by those of the first `k` objects of `s` that are in `live`:
/// the word index at which the `k`-th object lands once the others are gone.
pub open spec fn moved(words: Seq<u64>, s: Seq<int>, live: Set<int>, k: int) -> int
    decreases k,
{
    if k <= 0 {
        0
    } else {
        moved(words, s, live, k - 1) + if live.contains(s[k - 1]) {
            size_at(words, s[k - 1])
        } else {
            0
        }
    }
}

/// An object never lands above where it started.
pub proof fn lemma_moved_bound(words: Seq<u64>, used: int, s: Seq<int>, live: Set<int>, k: int)
    requires
        is_layout(words, used, s),
        0 <= k <= s.len(),
    ensures
        0 <= moved(words, s, live, k),
        k < s.len() ==> moved(words, s, live, k) <= s[k],
        k == s.len() ==> moved(words, s, live, k) <= used,
    decreases k,
{
    if k > 0 {
        lemma_moved_bound(words, used, s, live, k - 1);
        lemma_next_start(words, 0, used, s, k - 1);
    }
}

/// Later objects land at or above where earlier ones end.
pub proof fn lemma_moved_order(words: Seq<u64>, used: int, s: Seq<int>, live: Set<int>, i: int, k: int)
    requires
        is_layout(words, used, s),
        0 <= i < k <= s.len(),
    ensures
        moved(words, s, live, i + 1) <= moved(words, s, live, k),
    decreases k,
{
    if k > i + 1 {
        lemma_moved_order(words, used, s, live, i, k - 1);
        assert(s[k - 1] + 2 <= used);
    }
}

/// Where objects land depends on the length words and the live set alone.
pub proof fn lemma_moved_frame(a: Seq<u64>, b: Seq<u64>, s: Seq<int>, live: Set<int>, k: int)
    requires
        0 <= k <= s.len(),
        forall|i: int| 0 <= i < s.len() ==> a[#[trigger] s[i] + 1] == b[s[i] + 1],
    ensures
        moved(a, s, live, k) == moved(b, s, live, k),
    decreases k,
{
    if k > 0 {
        lemma_moved_frame(a, b, s, live, k - 1);
        assert(a[s[k - 1] + 1] == b[s[k - 1] + 1]);
    }
}

impl Heap {
    /// Word index at which the `k`-th object lands when the live ones are slid down.
    pub open spec fn dest(&self, used: int, k: int) -> int {
        moved(self.words@, self.objs(used), self.live(used), k)
    }

    /// The forwarding word of the `k`-th object: its address after compaction
    /// with the low bit set.
    pub open spec fn fwd_word(&self, used: int, k: int) -> int {
        self.addr(self.dest(used, k)) + 1
    }
}

/// Walks the objects in address order and overwrites the mark word of every
/// marked object with its forwarding word. Mark words that are 0 stay 0. Every
/// mark word must be 0 or 1 on entry.
pub fn fwd_headers(heap: &mut Heap, heap_ptr: u64)
    requires
        old(heap).has_ptr(heap_ptr),
        old(heap).laid_out(old(heap).index(heap_ptr)),
        old(heap).marks_binary(old(heap).index(heap_ptr)),
    ensures
        same_bodies(*old(heap), *final(heap), old(heap).index(heap_ptr)),
        forall|k: int|
            0 <= k < old(heap).objs(old(heap).index(heap_ptr)).len() ==> final(heap).words@[#[trigger] old(
                heap,
            ).objs(old(heap).index(heap_ptr))[k]] == if old(heap).words@[old(heap).objs(
                old(heap).index(heap_ptr),
            )[k]] == 1 {
                old(heap).fwd_word(old(heap).index(heap_ptr), k)
            } else {
                0
            },
{
    let ghost h0 = *heap;
    let ghost used = heap.index(heap_ptr);
    let ghost s = heap.objs(used);
    let ghost live = heap.live(used);
    let limit: usize = heap.word_index(heap_ptr);
    let total: usize = heap.words.len();
    let mut from: usize = 0;
    let mut to: usize = 0;
    let ghost mut k: int = 0;
    proof {
        lemma_same_bodies_layout(h0, h0, used);
    }
    while from < limit
        invariant
            h0.wf(),
            limit == used,
            total == h0.words@.len(),
            s == h0.objs(used),
            live == h0.live(used),
            is_layout(h0.words@, used, s),
            h0.marks_binary(used),
            same_bodies(h0, *heap, used),
            0 <= k <= s.len(),
            from == next_start(s, used, k - 1),
            to == moved(h0.words@, s, live, k),
            to <= from <= used,
            forall|i: int|
                0 <= i < k ==> heap.words@[#[trigger] s[i]] == if h0.words@[s[i]] == 1 {
                    h0.fwd_word(used, i)
                } else {
                    0
                },
            forall|i: int| k <= i < s.len() ==> heap.words@[#[trigger] s[i]] == h0.words@[s[i]],
        decreases used - from,
    {
        proof {
            if k == 0 {
                assert(s.len() > 0);
            } else {
                lemma_next_start(h0.words@, 0, used, s, k - 1);
            }
            assert(s[k] == from);
            assert(s.contains(s[k]));
            lemma_inside_is_no_start(h0.words@, used, s, k, from + 1);
            lemma_moved_bound(h0.words@, used, s, live, k + 1);
            lemma_next_start(h0.words@, 0, used, s, k);
        }
        let size: usize = 2 + heap.words[from + 1] as usize;
        if heap.words[from] == 1 {
            heap.words[from] = heap.start + 8 * (to as u64) + 1;
            to = to + size;
        }
        from = from + size;
        proof {
            k = k + 1;
        }
    }
}

} // verus!
