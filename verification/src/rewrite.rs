//! The reference rewriter: replace every reference held by a root slot or by a
//! live object with the reference to its referent's planned address.

use crate::graph::{
    closed, edge, lemma_closed_holds_reached, lemma_edge_to_obj, lemma_reach_self, lemma_reach_step,
    reach_in, reaches,
};
use crate::layout::{is_layout, lemma_layout_frame, lemma_obj_bounds, lemma_walk_is_layout, size_at};
use crate::mark::in_work;
use crate::memory::{is_heap_obj, Heap, Stack};
use crate::roots::{lemma_reached_from_next, reached_from};
use vstd::prelude::*;

verus! {

/// The state the planner leaves: every mark word is 0 or odd, and no object
/// with an odd mark word refers to one whose mark word is 0.
pub open spec fn planned(h: Heap, used: int) -> bool {
    &&& h.laid_out(used)
    &&& h.refs_ok(used)
    &&& 0 <= used
    &&& forall|o: int| h.is_obj(used, o) ==> #[trigger] h.words@[o] == 0 || h.words@[o] % 2 == 1
    &&& closed(h, used, h.live(used))
}

/// What the rewriter stores in place of the word `w`: the forwarding word of the
/// referent if `w` is a heap reference, else `w` itself.
pub open spec fn reloc(h0: Heap, w: u64) -> u64 {
    if h0.is_ref(w) {
        h0.words@[h0.target(w)]
    } else {
        w
    }
}

/// `h` is the planned heap `h0` in which the objects in `v` have been rewritten
/// in full (mark word lowered by one, each payload word relocated) and the
/// object at `o` has been rewritten in its first `upto` payload words.
#[verifier::opaque]
pub open spec fn partly(h0: Heap, h: Heap, used: int, v: Set<int>, o: int, upto: int) -> bool {
    &&& h.start == h0.start
    &&& h.words@.len() == h0.words@.len()
    &&& forall|p: int| used <= p < h0.words@.len() ==> #[trigger] h.words@[p] == h0.words@[p]
    &&& forall|a: int| h0.is_obj(used, a) ==> #[trigger] h.len_of(a) == h0.len_of(a)
    &&& forall|a: int|
        h0.is_obj(used, a) ==> #[trigger] h.words@[a] == if v.contains(a) || a == o {
            h0.words@[a] - 1
        } else {
            h0.words@[a] as int
        }
    &&& forall|a: int, i: int|
        h0.is_obj(used, a) && 0 <= i < h0.len_of(a) ==> #[trigger] h.payload(a, i) == if v.contains(
            a,
        ) || (a == o && i < upto) {
            reloc(h0, h0.payload(a, i))
        } else {
            h0.payload(a, i)
        }
}

/// `h` is the planned heap `h0` in which exactly the objects in `v` have been
/// rewritten.
pub open spec fn rewritten(h0: Heap, h: Heap, used: int, v: Set<int>) -> bool {
    partly(h0, h, used, v, -1, 0)
}

/// Rewriting leaves the layout as it was.
pub proof fn lemma_partly_layout(h0: Heap, h: Heap, used: int, v: Set<int>, o: int, upto: int)
    requires
        h0.laid_out(used),
        0 <= used,
        partly(h0, h, used, v, o, upto),
    ensures
        h.laid_out(used),
        h.objs(used) == h0.objs(used),
        is_layout(h0.words@, used, h0.objs(used)),
{
    reveal(partly);
    let s = h0.objs(used);
    lemma_walk_is_layout(h0.words@, 0, used);
    assert forall|k: int| 0 <= k < s.len() implies h0.words@[#[trigger] s[k] + 1] == h.words@[s[k]
        + 1] by {
        assert(h0.is_obj(used, s[k]));
        assert(h.len_of(s[k]) == h0.len_of(s[k]));
    }
    lemma_layout_frame(h0.words@, h.words@, used, s);
}

/// What a partly rewritten heap holds in the mark word and the length word of
/// the object at `a`.
pub proof fn lemma_partly_head(h0: Heap, h: Heap, used: int, v: Set<int>, o: int, upto: int, a: int)
    requires
        partly(h0, h, used, v, o, upto),
        h0.is_obj(used, a),
    ensures
        h.start == h0.start,
        h.words@.len() == h0.words@.len(),
        h.len_of(a) == h0.len_of(a),
        h.words@[a] == if v.contains(a) || a == o {
            h0.words@[a] - 1
        } else {
            h0.words@[a] as int
        },
{
    reveal(partly);
}

/// A partly rewritten heap spans the region of the planned heap.
pub proof fn lemma_partly_region(h0: Heap, h: Heap, used: int, v: Set<int>, o: int, upto: int)
    requires
        partly(h0, h, used, v, o, upto),
    ensures
        h.start == h0.start,
        h.words@.len() == h0.words@.len(),
{
    reveal(partly);
}

/// A partly rewritten heap is untouched past the first `used` words.
pub proof fn lemma_partly_rest(h0: Heap, h: Heap, used: int, v: Set<int>, o: int, upto: int, p: int)
    requires
        partly(h0, h, used, v, o, upto),
        used <= p < h0.words@.len(),
    ensures
        h.words@[p] == h0.words@[p],
{
    reveal(partly);
}

/// What a partly rewritten heap holds in the `i`-th payload word of the object at `a`.
pub proof fn lemma_partly_word(h0: Heap, h: Heap, used: int, v: Set<int>, o: int, upto: int, a: int, i: int)
    requires
        partly(h0, h, used, v, o, upto),
        h0.is_obj(used, a),
        0 <= i < h0.len_of(a),
    ensures
        h.payload(a, i) == if v.contains(a) || (a == o && i < upto) {
            reloc(h0, h0.payload(a, i))
        } else {
            h0.payload(a, i)
        },
{
    reveal(partly);
}

/// Rewriting a payload word that is no reference changes nothing.
proof fn lemma_partly_skip(h0: Heap, h: Heap, used: int, v: Set<int>, o: int, j: int)
    requires
        partly(h0, h, used, v, o, j),
        h0.is_obj(used, o),
        0 <= j < h0.len_of(o),
        !h0.is_ref(h0.payload(o, j)),
    ensures
        partly(h0, h, used, v, o, j + 1),
{
    reveal(partly);
}

/// An object rewritten in all its payload words is rewritten in full.
proof fn lemma_partly_done(h0: Heap, h: Heap, used: int, v: Set<int>, o: int)
    requires
        h0.laid_out(used),
        0 <= used,
        partly(h0, h, used, v, o, h0.len_of(o)),
        h0.is_obj(used, o),
    ensures
        partly(h0, h, used, v.insert(o), -1, 0),
{
    reveal(partly);
    assert forall|a: int| #[trigger] h0.is_obj(used, a) implies a >= 0 by {
        lemma_obj_bounds(h0.words@, used, a);
    }
}

/// Storing a word at a position inside the object at `o`, past its length word,
/// touches no mark word, no length word and no payload word of another object.
proof fn lemma_store_inside(words: Seq<u64>, used: int, s: Seq<int>, o: int, j: int, a: int)
    requires
        is_layout(words, used, s),
        s.contains(o),
        s.contains(a),
        0 <= j < words[o + 1],
    ensures
        a != o + 2 + j,
        a + 1 != o + 2 + j,
        a != o ==> a + size_at(words, a) <= o || o + size_at(words, o) <= a,
{
    let ko = choose|k: int| 0 <= k < s.len() && s[k] == o;
    let ka = choose|k: int| 0 <= k < s.len() && s[k] == a;
    if ka < ko {
        assert(s[ka] + size_at(words, s[ka]) <= s[ko]);
    } else if ko < ka {
        assert(s[ko] + size_at(words, s[ko]) <= s[ka]);
    }
}

/// Lowering the mark word of the object at `o` starts its rewriting.
proof fn lemma_partly_strip(h0: Heap, h: Heap, h2: Heap, used: int, v: Set<int>, o: int)
    requires
        h0.laid_out(used),
        0 <= used,
        partly(h0, h, used, v, -1, 0),
        h0.is_obj(used, o),
        !v.contains(o),
        h2.start == h.start,
        h2.words@ == h.words@.update(o, (h0.words@[o] - 1) as u64),
        h0.words@[o] >= 1,
    ensures
        partly(h0, h2, used, v, o, 0),
{
    reveal(partly);
    let s = h0.objs(used);
    lemma_walk_is_layout(h0.words@, 0, used);
    lemma_obj_bounds(h0.words@, used, o);
    assert forall|a: int| h0.is_obj(used, a) implies #[trigger] h2.len_of(a) == h0.len_of(a) by {
        let ka = choose|k: int| 0 <= k < s.len() && s[k] == a;
        let ko = choose|k: int| 0 <= k < s.len() && s[k] == o;
        if ka < ko {
            assert(s[ka] + size_at(h0.words@, s[ka]) <= s[ko]);
        } else if ko < ka {
            assert(s[ko] + size_at(h0.words@, s[ko]) <= s[ka]);
        }
        assert(h.len_of(a) == h0.len_of(a));
    }
    assert forall|a: int, i: int| h0.is_obj(used, a) && 0 <= i < h0.len_of(a) implies #[trigger] h2.payload(
        a,
        i,
    ) == if v.contains(a) || (a == o && i < 0) {
        reloc(h0, h0.payload(a, i))
    } else {
        h0.payload(a, i)
    } by {
        let ka = choose|k: int| 0 <= k < s.len() && s[k] == a;
        let ko = choose|k: int| 0 <= k < s.len() && s[k] == o;
        if ka < ko {
            assert(s[ka] + size_at(h0.words@, s[ka]) <= s[ko]);
        } else if ko < ka {
            assert(s[ko] + size_at(h0.words@, s[ko]) <= s[ka]);
        }
        assert(h2.payload(a, i) == h.payload(a, i));
    }
    assert forall|a: int| h0.is_obj(used, a) implies #[trigger] h2.words@[a] == if v.contains(a)
        || a == o {
        h0.words@[a] - 1
    } else {
        h0.words@[a] as int
    } by {
        lemma_obj_bounds(h0.words@, used, a);
        if a != o {
            assert(h2.words@[a] == h.words@[a]);
        }
    }
}

/// Storing the relocated `j`-th payload word of the object at `o` advances its
/// rewriting by one word.
proof fn lemma_partly_store(h0: Heap, h: Heap, h2: Heap, used: int, v: Set<int>, o: int, j: int)
    requires
        h0.laid_out(used),
        0 <= used,
        partly(h0, h, used, v, o, j),
        h0.is_obj(used, o),
        0 <= j < h0.len_of(o),
        h2.start == h.start,
        h2.words@ == h.words@.update(o + 2 + j, reloc(h0, h0.payload(o, j))),
    ensures
        partly(h0, h2, used, v, o, j + 1),
{
    reveal(partly);
    let s = h0.objs(used);
    lemma_walk_is_layout(h0.words@, 0, used);
    lemma_obj_bounds(h0.words@, used, o);
    assert forall|a: int| h0.is_obj(used, a) implies #[trigger] h2.len_of(a) == h0.len_of(a) by {
        lemma_store_inside(h0.words@, used, s, o, j, a);
        lemma_obj_bounds(h0.words@, used, a);
        assert(h.len_of(a) == h0.len_of(a));
    }
    assert forall|a: int| h0.is_obj(used, a) implies #[trigger] h2.words@[a] == if v.contains(a)
        || a == o {
        h0.words@[a] - 1
    } else {
        h0.words@[a] as int
    } by {
        lemma_store_inside(h0.words@, used, s, o, j, a);
        lemma_obj_bounds(h0.words@, used, a);
        assert(h2.words@[a] == h.words@[a]);
    }
    assert forall|a: int, i: int| h0.is_obj(used, a) && 0 <= i < h0.len_of(a) implies #[trigger] h2.payload(
        a,
        i,
    ) == if v.contains(a) || (a == o && i < j + 1) {
        reloc(h0, h0.payload(a, i))
    } else {
        h0.payload(a, i)
    } by {
        lemma_store_inside(h0.words@, used, s, o, j, a);
        lemma_obj_bounds(h0.words@, used, a);
        if a == o && i == j {
        } else {
            assert(h2.payload(a, i) == h.payload(a, i));
        }
    }
}

/// Rewrites the object at word index `o`: lowers its forwarding word by one and
/// stores, in place of each payload reference, the reference to the referent's
/// planned address. The referents are appended to `work`.
fn visit(
    heap: &mut Heap,
    Ghost(h0): Ghost<Heap>,
    Ghost(used): Ghost<int>,
    Ghost(v): Ghost<Set<int>>,
    o: usize,
    work: &mut Vec<usize>,
)
    requires
        planned(h0, used),
        h0.wf(),
        rewritten(h0, *old(heap), used, v),
        v.subset_of(h0.live(used)),
        h0.is_obj(used, o as int),
        h0.words@[o as int] % 2 == 1,
        !v.contains(o as int),
    ensures
        rewritten(h0, *final(heap), used, v.insert(o as int)),
        final(work)@.len() >= old(work)@.len(),
        forall|i: int| 0 <= i < old(work)@.len() ==> final(work)@[i] == old(work)@[i],
        forall|i: int|
            old(work)@.len() <= i < final(work)@.len() ==> edge(
                h0,
                o as int,
                (#[trigger] final(work)@[i]) as int,
            ),
        forall|b: int| edge(h0, o as int, b) ==> in_work(final(work)@, b),
{
    let ghost w0 = work@;
    let ghost h1 = *heap;
    proof {
        lemma_partly_layout(h0, h1, used, v, -1, 0);
        lemma_obj_bounds(h0.words@, used, o as int);
        lemma_partly_head(h0, h1, used, v, -1, 0, o as int);
    }
    let n: usize = heap.obj_len(Ghost(used), o);
    let hdr: u64 = heap.words[o];
    heap.words[o] = hdr - 1;
    proof {
        lemma_partly_strip(h0, h1, *heap, used, v, o as int);
    }
    let mut j: usize = 0;
    while j < n
        invariant
            planned(h0, used),
            h0.wf(),
            v.subset_of(h0.live(used)),
            h0.is_obj(used, o as int),
            h0.words@[o as int] % 2 == 1,
            !v.contains(o as int),
            partly(h0, *heap, used, v, o as int, j as int),
            j <= n,
            n == h0.len_of(o as int),
            o + 2 + n <= used <= h0.words@.len() <= usize::MAX,
            work@.len() >= w0.len(),
            forall|i: int| 0 <= i < w0.len() ==> work@[i] == w0[i],
            forall|i: int|
                w0.len() <= i < work@.len() ==> edge(h0, o as int, (#[trigger] work@[i]) as int),
            forall|j2: int|
                0 <= j2 < j && h0.is_ref(#[trigger] h0.payload(o as int, j2)) ==> in_work(
                    work@,
                    h0.target(h0.payload(o as int, j2)),
                ),
        decreases n - j,
    {
        let ghost h2 = *heap;
        let ghost before = work@;
        proof {
            lemma_partly_head(h0, h2, used, v, o as int, j as int, o as int);
            lemma_partly_word(h0, h2, used, v, o as int, j as int, o as int, j as int);
        }
        let w: u64 = heap.words[o + 2 + j];
        assert(w == heap.payload(o as int, j as int));
        assert(w == h0.payload(o as int, j as int));
        if is_heap_obj(heap, w) {
            let t: usize = heap.word_index(w - 1);
            proof {
                assert(edge(h0, o as int, t as int));
                lemma_edge_to_obj(h0, used, o as int, t as int);
                lemma_obj_bounds(h0.words@, used, t as int);
                assert(h0.live(used).contains(o as int));
                assert(h0.live(used).contains(t as int));
                lemma_partly_head(h0, h2, used, v, o as int, j as int, t as int);
                assert(v.contains(t as int) ==> h0.live(used).contains(t as int));
            }
            let mut f: u64 = heap.words[t];
            if f % 2 == 1 {
                f = f - 1;
            }
            assert(f == h0.words@[t as int] - 1);
            heap.words[o + 2 + j] = f + 1;
            work.push(t);
            proof {
                lemma_partly_store(h0, h2, *heap, used, v, o as int, j as int);
                assert(work@[before.len() as int] == t);
                assert(in_work(work@, t as int));
            }
        } else {
            proof {
                lemma_partly_skip(h0, h2, used, v, o as int, j as int);
            }
        }
        assert forall|j2: int|
            0 <= j2 < j + 1 && h0.is_ref(#[trigger] h0.payload(o as int, j2)) implies in_work(
            work@,
            h0.target(h0.payload(o as int, j2)),
        ) by {
            if j2 < j {
                let b = h0.target(h0.payload(o as int, j2));
                assert(in_work(before, b));
                let i = choose|i: int| 0 <= i < before.len() && (#[trigger] before[i]) as int == b;
                assert(work@[i] == before[i]);
            }
        }
        j += 1;
    }
    proof {
        lemma_partly_done(h0, *heap, used, v, o as int);
    }
    assert forall|b: int| edge(h0, o as int, b) implies in_work(work@, b) by {
        let j2 = choose|j2: int|
            0 <= j2 < h0.len_of(o as int) && h0.is_ref(#[trigger] h0.payload(o as int, j2))
                && h0.target(h0.payload(o as int, j2)) == b;
        assert(in_work(work@, h0.target(h0.payload(o as int, j2))));
    }
}

/// Rewrites the object at address `obj_addr` and every object it reaches that
/// is not rewritten yet. An object whose mark word is even has been rewritten
/// (or is not live) and is not entered again. `h0` is the heap as the planner
/// left it and `v` the set of objects rewritten so far.
pub fn fwd_heap(
    heap: &mut Heap,
    heap_ptr: u64,
    obj_addr: u64,
    Ghost(h0): Ghost<Heap>,
    Ghost(v): Ghost<Set<int>>,
)
    requires
        h0.has_ptr(heap_ptr),
        planned(h0, h0.index(heap_ptr)),
        rewritten(h0, *old(heap), h0.index(heap_ptr), v),
        v.subset_of(h0.live(h0.index(heap_ptr))),
        closed(h0, h0.index(heap_ptr), v),
        h0.has_ptr(obj_addr),
        h0.live(h0.index(heap_ptr)).contains(h0.index(obj_addr)),
    ensures
        rewritten(
            h0,
            *final(heap),
            h0.index(heap_ptr),
            v.union(Set::new(|o: int| reaches(h0, h0.index(heap_ptr), h0.index(obj_addr), o))),
        ),
        v.union(Set::new(|o: int| reaches(h0, h0.index(heap_ptr), h0.index(obj_addr), o))).subset_of(
            h0.live(h0.index(heap_ptr)),
        ),
        closed(
            h0,
            h0.index(heap_ptr),
            v.union(Set::new(|o: int| reaches(h0, h0.index(heap_ptr), h0.index(obj_addr), o))),
        ),
{
    let ghost used = h0.index(heap_ptr);
    let ghost s = h0.objs(used);
    let ghost src = h0.index(obj_addr);
    let ghost live = h0.live(used);
    let ghost goal = v.union(Set::new(|o: int| reaches(h0, used, src, o)));
    proof {
        lemma_partly_head(h0, *heap, used, v, -1, 0, src);
    }
    let obj: usize = heap.word_index(obj_addr);
    let mut work: Vec<usize> = Vec::new();
    work.push(obj);
    let ghost mut cur: Set<int> = v;
    let ghost mut pending: Set<int> = Set::new(|o: int| live.contains(o) && !v.contains(o));
    proof {
        lemma_reach_self(h0, used, src);
        assert(pending.subset_of(s.to_set()));
        vstd::seq_lib::seq_to_set_is_finite(s);
        vstd::set_lib::lemma_len_subset(pending, s.to_set());
        assert(work@[0] == obj);
        assert(in_work(work@, src));
    }
    while work.len() > 0
        invariant
            h0.has_ptr(heap_ptr),
            used == h0.index(heap_ptr),
            planned(h0, used),
            live == h0.live(used),
            rewritten(h0, *heap, used, cur),
            v.subset_of(cur),
            cur.subset_of(live),
            forall|o: int| cur.contains(o) ==> v.contains(o) || reaches(h0, used, src, o),
            forall|i: int|
                0 <= i < work@.len() ==> live.contains((#[trigger] work@[i]) as int) && reaches(
                    h0,
                    used,
                    src,
                    work@[i] as int,
                ),
            forall|a: int, b: int|
                cur.contains(a) && h0.is_obj(used, a) && #[trigger] edge(h0, a, b) ==> cur.contains(b)
                    || in_work(work@, b),
            cur.contains(src) || in_work(work@, src),
            pending.finite(),
            forall|o: int| pending.contains(o) <==> live.contains(o) && !cur.contains(o),
        decreases pending.len(), work@.len(),
    {
        let ghost before = work@;
        let o: usize = work.pop().unwrap();
        proof {
            assert(before[before.len() - 1] == o);
            assert(live.contains(o as int));
            lemma_obj_bounds(h0.words@, used, o as int);
            lemma_partly_head(h0, *heap, used, cur, -1, 0, o as int);
            assert forall|b: int| in_work(before, b) && b != o implies in_work(work@, b) by {
                let i = choose|i: int| 0 <= i < before.len() && (#[trigger] before[i]) as int == b;
                assert(work@[i] == before[i]);
            }
        }
        if heap.words[o] % 2 == 1 {
            let ghost popped = work@;
            visit(heap, Ghost(h0), Ghost(used), Ghost(cur), o, &mut work);
            proof {
                let old_cur = cur;
                cur = cur.insert(o as int);
                pending = pending.remove(o as int);
                assert forall|b: int| in_work(popped, b) implies in_work(work@, b) by {
                    let i = choose|i: int|
                        0 <= i < popped.len() && (#[trigger] popped[i]) as int == b;
                    assert(work@[i] == popped[i]);
                }
                assert forall|i: int| 0 <= i < work@.len() implies live.contains(
                    (#[trigger] work@[i]) as int,
                ) && reaches(h0, used, src, work@[i] as int) by {
                    if i >= popped.len() {
                        let b = work@[i] as int;
                        lemma_edge_to_obj(h0, used, o as int, b);
                        lemma_reach_step(h0, used, src, o as int, b);
                    } else {
                        assert(work@[i] == before[i]);
                    }
                }
                assert forall|a: int, b: int|
                    cur.contains(a) && h0.is_obj(used, a) && #[trigger] edge(
                        h0,
                        a,
                        b,
                    ) implies cur.contains(b) || in_work(work@, b) by {
                    if a != o {
                        if !old_cur.contains(b) {
                            assert(in_work(before, b));
                        }
                    }
                }
            }
        }
    }
    proof {
        assert forall|a: int, b: int|
            cur.contains(a) && h0.is_obj(used, a) && #[trigger] edge(h0, a, b) implies cur.contains(
            b,
        ) by {}
        assert forall|o: int| reaches(h0, used, src, o) implies cur.contains(o) by {
            let n = choose|n: nat| reach_in(h0, used, src, o, n);
            lemma_closed_holds_reached(h0, used, cur, src, o, n);
        }
        assert(cur =~= goal);
    }
}

/// Rewrites, in a heap as the planner left it, the object at `obj_addr` and
/// every object that it reaches, and no other.
pub fn fwd_object(heap: &mut Heap, heap_ptr: u64, obj_addr: u64)
    requires
        old(heap).has_ptr(heap_ptr),
        planned(*old(heap), old(heap).index(heap_ptr)),
        old(heap).has_ptr(obj_addr),
        old(heap).live(old(heap).index(heap_ptr)).contains(old(heap).index(obj_addr)),
    ensures
        rewritten(
            *old(heap),
            *final(heap),
            old(heap).index(heap_ptr),
            Set::new(
                |o: int| reaches(*old(heap), old(heap).index(heap_ptr), old(heap).index(obj_addr), o),
            ),
        ),
{
    let ghost h0 = *heap;
    let ghost used = heap.index(heap_ptr);
    let ghost none = Set::<int>::empty();
    let ghost reached = Set::new(|o: int| reaches(h0, used, h0.index(obj_addr), o));
    proof {
        lemma_rewritten_none(h0, used);
    }
    fwd_heap(heap, heap_ptr, obj_addr, Ghost(h0), Ghost(none));
    proof {
        assert(none.union(reached) =~= reached);
    }
}

/// The reference to the address that the mark word `m` holds: `m` with its
/// low bit cleared, plus one.
pub open spec fn forwarded_ref(m: u64) -> u64 {
    (m - m % 2 + 1) as u64
}

/// Replaces the reference in the stack slot at `stack_ref` by the reference to
/// its referent's planned address: the referent's mark word holds that
/// address, with or without the low bit, and the slot gets the address plus one.
pub fn update_stack(stack: &mut Stack, heap: &Heap, stack_ref: u64)
    requires
        heap.wf(),
        old(stack).has_slot(stack_ref),
        heap.is_ref(old(stack).at(stack_ref)),
        heap.target(old(stack).at(stack_ref)) < heap.words@.len(),
    ensures
        final(stack).base == old(stack).base,
        final(stack).words@ == old(stack).words@.update(
            old(stack).slot(stack_ref),
            forwarded_ref(heap.words@[heap.target(old(stack).at(stack_ref))]),
        ),
{
    let w: u64 = stack.read(stack_ref);
    let t: usize = heap.word_index(w - 1);
    let heap_val: u64 = heap.words[t];
    let new_addr: u64 = heap_val - heap_val % 2;
    stack.write(stack_ref, new_addr + 1);
}

/// The slots listed in `roots` hold in `st` the relocated words of `st0`, and
/// every other word of `st` is as in `st0`.
pub open spec fn roots_rewritten(h0: Heap, st0: Stack, st: Stack, roots: Seq<u64>) -> bool {
    &&& st.base == st0.base
    &&& st.words@.len() == st0.words@.len()
    &&& forall|a: u64|
        st0.has_slot(a) ==> #[trigger] st.at(a) == if roots.contains(a) {
            reloc(h0, st0.at(a))
        } else {
            st0.at(a)
        }
}

/// The objects reached from the slots listed in `roots`.
pub open spec fn reached_set(h: Heap, st: Stack, used: int, roots: Seq<u64>) -> Set<int> {
    Set::new(|o: int| reached_from(h, st, used, roots, o))
}

/// A planned heap is one in which no object has been rewritten yet.
pub proof fn lemma_rewritten_none(h0: Heap, used: int)
    requires
        h0.laid_out(used),
        0 <= used,
    ensures
        rewritten(h0, h0, used, Set::empty()),
{
    reveal(partly);
    assert forall|a: int| #[trigger] h0.is_obj(used, a) implies a >= 0 by {
        lemma_obj_bounds(h0.words@, used, a);
    }
}

/// A root slot that has not had its turn still holds its word.
proof fn lemma_root_untouched(h0: Heap, st0: Stack, st: Stack, roots: Seq<u64>, i: int)
    requires
        0 <= i < roots.len(),
        forall|i: int, j: int| 0 <= i < j < roots.len() ==> #[trigger] roots[i] != #[trigger] roots[j],
        st0.has_slot(roots[i]),
        roots_rewritten(h0, st0, st, roots.subrange(0, i)),
    ensures
        st.has_slot(roots[i]),
        st.at(roots[i]) == st0.at(roots[i]),
{
    let r = roots[i];
    let done = roots.subrange(0, i);
    if done.contains(r) {
        let k = choose|k: int| 0 <= k < i && done[k] == r;
        assert(roots[k] == r);
    }
}

/// Storing the relocated word in the next root slot extends the rewritten slots by it.
proof fn lemma_root_stored(h0: Heap, st0: Stack, st1: Stack, st2: Stack, roots: Seq<u64>, i: int)
    requires
        0 <= i < roots.len(),
        st0.has_slot(roots[i]),
        roots_rewritten(h0, st0, st1, roots.subrange(0, i)),
        st2.base == st1.base,
        st2.words@ == st1.words@.update(st1.slot(roots[i]), reloc(h0, st0.at(roots[i]))),
    ensures
        roots_rewritten(h0, st0, st2, roots.subrange(0, i + 1)),
{
    let r = roots[i];
    let done = roots.subrange(0, i);
    let upto = roots.subrange(0, i + 1);
    assert forall|a: u64| st0.has_slot(a) implies #[trigger] st2.at(a) == if upto.contains(a) {
        reloc(h0, st0.at(a))
    } else {
        st0.at(a)
    } by {
        assert(st1.at(a) == if done.contains(a) {
            reloc(h0, st0.at(a))
        } else {
            st0.at(a)
        });
        if a == r {
            assert(upto[i] == r);
        } else {
            assert(st0.slot(a) != st0.slot(r));
            if upto.contains(a) {
                let k = choose|k: int| 0 <= k < upto.len() && upto[k] == a;
                assert(done[k] == a);
            }
            if done.contains(a) {
                let k = choose|k: int| 0 <= k < done.len() && done[k] == a;
                assert(upto[k] == a);
            }
        }
    }
}

/// What the first `i + 1` roots reach is what the first `i` reach together
/// with what the next one reaches.
proof fn lemma_reached_set_next(h0: Heap, st0: Stack, used: int, roots: Seq<u64>, i: int)
    requires
        0 <= i < roots.len(),
    ensures
        reached_set(h0, st0, used, roots.subrange(0, i + 1)) == reached_set(
            h0,
            st0,
            used,
            roots.subrange(0, i),
        ).union(Set::new(|o: int| reaches(h0, used, h0.target(st0.at(roots[i])), o))),
{
    let a = reached_set(h0, st0, used, roots.subrange(0, i + 1));
    let b = reached_set(h0, st0, used, roots.subrange(0, i)).union(
        Set::new(|o: int| reaches(h0, used, h0.target(st0.at(roots[i])), o)),
    );
    assert forall|o: int| a.contains(o) <==> b.contains(o) by {
        lemma_reached_from_next(h0, st0, used, roots, i, o);
    }
    assert(a =~= b);
}

/// Rewrites every object reached from the slots listed in `roots`, and the slots
/// themselves. On entry the heap is as the planner left it; `roots` lists
/// distinct slots, each holding a reference to an object with an odd mark word.
pub fn fwd_internal(heap: &mut Heap, stack: &mut Stack, heap_ptr: u64, roots: &Vec<u64>)
    requires
        old(heap).has_ptr(heap_ptr),
        planned(*old(heap), old(heap).index(heap_ptr)),
        forall|i: int, j: int| 0 <= i < j < roots@.len() ==> #[trigger] roots@[i] != #[trigger] roots@[j],
        forall|i: int|
            0 <= i < roots@.len() ==> old(stack).has_slot(#[trigger] roots@[i]) && old(heap).is_ref(
                old(stack).at(roots@[i]),
            ) && old(heap).valid_ref(old(heap).index(heap_ptr), old(stack).at(roots@[i])) && old(
                heap,
            ).live(old(heap).index(heap_ptr)).contains(old(heap).target(old(stack).at(roots@[i]))),
    ensures
        rewritten(
            *old(heap),
            *final(heap),
            old(heap).index(heap_ptr),
            reached_set(*old(heap), *old(stack), old(heap).index(heap_ptr), roots@),
        ),
        reached_set(*old(heap), *old(stack), old(heap).index(heap_ptr), roots@).subset_of(
            old(heap).live(old(heap).index(heap_ptr)),
        ),
        roots_rewritten(*old(heap), *old(stack), *final(stack), roots@),
{
    let ghost h0 = *heap;
    let ghost st0 = *stack;
    let ghost used = heap.index(heap_ptr);
    let ghost mut v: Set<int> = Set::empty();
    proof {
        lemma_rewritten_none(h0, used);
        assert(reached_set(h0, st0, used, roots@.subrange(0, 0)) =~= v);
    }
    let mut i: usize = 0;
    while i < roots.len()
        invariant
            i <= roots@.len(),
            h0.has_ptr(heap_ptr),
            used == h0.index(heap_ptr),
            planned(h0, used),
            forall|i: int, j: int|
                0 <= i < j < roots@.len() ==> #[trigger] roots@[i] != #[trigger] roots@[j],
            forall|i: int|
                0 <= i < roots@.len() ==> st0.has_slot(#[trigger] roots@[i]) && h0.is_ref(
                    st0.at(roots@[i]),
                ) && h0.valid_ref(used, st0.at(roots@[i])) && h0.live(used).contains(
                    h0.target(st0.at(roots@[i])),
                ),
            rewritten(h0, *heap, used, v),
            v == reached_set(h0, st0, used, roots@.subrange(0, i as int)),
            v.subset_of(h0.live(used)),
            closed(h0, used, v),
            roots_rewritten(h0, st0, *stack, roots@.subrange(0, i as int)),
        decreases roots@.len() - i,
    {
        let r: u64 = roots[i];
        let ghost st1 = *stack;
        proof {
            lemma_root_untouched(h0, st0, st1, roots@, i as int);
        }
        let w: u64 = stack.read(r);
        let ghost t = h0.target(w);
        proof {
            lemma_obj_bounds(h0.words@, used, t);
        }
        fwd_heap(heap, heap_ptr, w - 1, Ghost(h0), Ghost(v));
        proof {
            let next = v.union(Set::new(|o: int| reaches(h0, used, t, o)));
            lemma_reach_self(h0, used, t);
            assert(next.contains(t));
            lemma_partly_head(h0, *heap, used, next, -1, 0, t);
            lemma_reached_set_next(h0, st0, used, roots@, i as int);
            v = next;
        }
        update_stack(stack, heap, r);
        proof {
            lemma_root_stored(h0, st0, st1, *stack, roots@, i as int);
        }
        i += 1;
    }
    proof {
        assert(roots@.subrange(0, i as int) =~= roots@);
    }
}

} // verus!
