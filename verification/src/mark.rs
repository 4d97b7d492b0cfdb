//! The mark phase: set the mark word of every object that a root reaches.

use crate::graph::{
    closed, edge, lemma_closed_holds_reached, lemma_edge_to_obj, lemma_reach_self, lemma_reach_step,
    lemma_same_bodies_edge, lemma_same_bodies_layout, lemma_same_bodies_reaches,
    lemma_same_bodies_refs, reach_in, reaches,
};
use crate::layout::lemma_obj_bounds;
use crate::memory::{is_heap_obj, same_bodies, Heap, Stack};
use crate::roots::{lemma_reached_from_next, reached_from};
use vstd::prelude::*;

verus! {

/// The object index `b` is one of the entries of the work list.
pub open spec fn in_work(work: Seq<usize>, b: int) -> bool {
    exists|i: int| 0 <= i < work.len() && (#[trigger] work[i]) as int == b
}

/// Appends to `work` the referent of every payload word of the object at `o`
/// that is a heap reference.
fn push_children(heap: &Heap, Ghost(used): Ghost<int>, o: usize, work: &mut Vec<usize>)
    requires
        heap.laid_out(used),
        0 <= used,
        heap.is_obj(used, o as int),
    ensures
        final(work)@.len() >= old(work)@.len(),
        forall|i: int| 0 <= i < old(work)@.len() ==> final(work)@[i] == old(work)@[i],
        forall|i: int|
            old(work)@.len() <= i < final(work)@.len() ==> edge(
                *heap,
                o as int,
                (#[trigger] final(work)@[i]) as int,
            ),
        forall|b: int| edge(*heap, o as int, b) ==> in_work(final(work)@, b),
{
    let ghost w0 = work@;
    let n: usize = heap.obj_len(Ghost(used), o);
    let mut j: usize = 0;
    while j < n
        invariant
            heap.wf(),
            j <= n,
            n == heap.len_of(o as int),
            o + 2 + n <= heap.words@.len() <= usize::MAX,
            work@.len() >= w0.len(),
            forall|i: int| 0 <= i < w0.len() ==> work@[i] == w0[i],
            forall|i: int|
                w0.len() <= i < work@.len() ==> edge(*heap, o as int, (#[trigger] work@[i]) as int),
            forall|j2: int|
                0 <= j2 < j && heap.is_ref(#[trigger] heap.payload(o as int, j2)) ==> in_work(
                    work@,
                    heap.target(heap.payload(o as int, j2)),
                ),
        decreases n - j,
    {
        let w: u64 = heap.words[o + 2 + j];
        assert(w == heap.payload(o as int, j as int));
        let ghost before = work@;
        if is_heap_obj(heap, w) {
            let t: usize = heap.word_index(w - 1);
            work.push(t);
            assert(work@[before.len() as int] == t);
            assert(in_work(work@, t as int));
            assert(edge(*heap, o as int, t as int));
        }
        assert forall|j2: int|
            0 <= j2 < j + 1 && heap.is_ref(#[trigger] heap.payload(o as int, j2)) implies in_work(
            work@,
            heap.target(heap.payload(o as int, j2)),
        ) by {
            if j2 < j {
                let b = heap.target(heap.payload(o as int, j2));
                assert(in_work(before, b));
                let i = choose|i: int| 0 <= i < before.len() && (#[trigger] before[i]) as int == b;
                assert(work@[i] == before[i]);
            }
        }
        j += 1;
    }
    assert forall|b: int| edge(*heap, o as int, b) implies in_work(work@, b) by {
        let j2 = choose|j2: int|
            0 <= j2 < heap.len_of(o as int) && heap.is_ref(#[trigger] heap.payload(o as int, j2))
                && heap.target(heap.payload(o as int, j2)) == b;
        assert(in_work(work@, heap.target(heap.payload(o as int, j2))));
    }
}

/// Marks the object at address `obj_addr` and every object it reaches. An object
/// whose mark word is already 1 is not entered again, so cycles end the walk.
/// The walk keeps its pending objects in a work list of its own.
pub fn heap_mark(heap: &mut Heap, heap_ptr: u64, obj_addr: u64)
    requires
        old(heap).has_ptr(heap_ptr),
        old(heap).marking(old(heap).index(heap_ptr)),
        old(heap).has_ptr(obj_addr),
        old(heap).is_obj(old(heap).index(heap_ptr), old(heap).index(obj_addr)),
        closed(*old(heap), old(heap).index(heap_ptr), old(heap).live(old(heap).index(heap_ptr))),
    ensures
        final(heap).marking(old(heap).index(heap_ptr)),
        same_bodies(*old(heap), *final(heap), old(heap).index(heap_ptr)),
        closed(*final(heap), old(heap).index(heap_ptr), final(heap).live(old(heap).index(heap_ptr))),
        forall|o: int|
            old(heap).is_obj(old(heap).index(heap_ptr), o) ==> (#[trigger] final(heap).words@[o] == 1
                <==> old(heap).words@[o] == 1 || reaches(
                *old(heap),
                old(heap).index(heap_ptr),
                old(heap).index(obj_addr),
                o,
            )),
{
    let ghost h0 = *heap;
    let ghost used = heap.index(heap_ptr);
    let ghost s = heap.objs(used);
    let ghost src = heap.index(obj_addr);
    let obj: usize = heap.word_index(obj_addr);
    let mut work: Vec<usize> = Vec::new();
    work.push(obj);
    let ghost mut pending: Set<int> = Set::new(|o: int| s.contains(o) && h0.words@[o] == 0);
    proof {
        lemma_same_bodies_layout(h0, h0, used);
        lemma_reach_self(h0, used, src);
        assert(pending.subset_of(s.to_set()));
        vstd::seq_lib::seq_to_set_is_finite(s);
        vstd::set_lib::lemma_len_subset(pending, s.to_set());
        assert(work@[0] == obj);
        assert(in_work(work@, src));
        assert forall|a: int, b: int|
            s.contains(a) && heap.words@[a] == 1 && #[trigger] edge(h0, a, b) implies heap.words@[b]
            == 1 || in_work(work@, b) by {
            assert(h0.live(used).contains(a));
            assert(h0.live(used).contains(b));
        }
    }
    while work.len() > 0
        invariant
            h0.laid_out(used),
            h0.refs_ok(used),
            0 <= used,
            s == h0.objs(used),
            h0.is_obj(used, src),
            same_bodies(h0, *heap, used),
            forall|o: int| s.contains(o) ==> (#[trigger] heap.words@[o] == 0 || heap.words@[o] == 1),
            forall|o: int| s.contains(o) && h0.words@[o] == 1 ==> #[trigger] heap.words@[o] == 1,
            forall|o: int|
                s.contains(o) && #[trigger] heap.words@[o] == 1 ==> h0.words@[o] == 1 || reaches(
                    h0,
                    used,
                    src,
                    o,
                ),
            forall|i: int|
                0 <= i < work@.len() ==> s.contains((#[trigger] work@[i]) as int) && reaches(
                    h0,
                    used,
                    src,
                    work@[i] as int,
                ),
            forall|a: int, b: int|
                s.contains(a) && heap.words@[a] == 1 && #[trigger] edge(h0, a, b) ==> heap.words@[b]
                    == 1 || in_work(work@, b),
            heap.words@[src] == 1 || in_work(work@, src),
            pending.finite(),
            forall|o: int| pending.contains(o) <==> s.contains(o) && heap.words@[o] == 0,
        decreases pending.len(), work@.len(),
    {
        let ghost before = work@;
        let ghost h1 = *heap;
        let o: usize = work.pop().unwrap();
        proof {
            lemma_obj_bounds(h0.words@, used, o as int);
            assert(before[before.len() - 1] == o);
            assert forall|b: int| in_work(before, b) && b != o implies in_work(work@, b) by {
                let i = choose|i: int| 0 <= i < before.len() && (#[trigger] before[i]) as int == b;
                assert(work@[i] == before[i]);
            }
        }
        if heap.words[o] == 0 {
            heap.words[o] = 1;
            proof {
                lemma_same_bodies_layout(h0, *heap, used);
            }
            let ghost popped = work@;
            push_children(heap, Ghost(used), o, &mut work);
            proof {
                pending = pending.remove(o as int);
                assert forall|b: int| in_work(popped, b) implies in_work(work@, b) by {
                    let i = choose|i: int|
                        0 <= i < popped.len() && (#[trigger] popped[i]) as int == b;
                    assert(work@[i] == popped[i]);
                }
                assert forall|i: int| 0 <= i < work@.len() implies s.contains(
                    (#[trigger] work@[i]) as int,
                ) && reaches(h0, used, src, work@[i] as int) by {
                    if i >= popped.len() {
                        let b = work@[i] as int;
                        lemma_same_bodies_edge(h0, *heap, used, o as int, b);
                        lemma_edge_to_obj(h0, used, o as int, b);
                        lemma_reach_step(h0, used, src, o as int, b);
                    } else {
                        assert(work@[i] == before[i]);
                    }
                }
                assert forall|a: int, b: int|
                    s.contains(a) && heap.words@[a] == 1 && #[trigger] edge(
                        h0,
                        a,
                        b,
                    ) implies heap.words@[b] == 1 || in_work(work@, b) by {
                    if a == o {
                        lemma_same_bodies_edge(h0, *heap, used, o as int, b);
                    } else {
                        assert(h1.words@[a] == 1);
                        if h1.words@[b] != 1 {
                            assert(in_work(before, b));
                        }
                    }
                }
            }
        }
    }
    proof {
        lemma_same_bodies_layout(h0, *heap, used);
        lemma_same_bodies_refs(h0, *heap, used);
        let m = Set::new(|o: int| s.contains(o) && heap.words@[o] == 1);
        assert(m =~= heap.live(used));
        assert forall|a: int, b: int|
            m.contains(a) && h0.is_obj(used, a) && #[trigger] edge(h0, a, b) implies m.contains(
            b,
        ) by {
            lemma_edge_to_obj(h0, used, a, b);
        }
        assert forall|a: int, b: int|
            m.contains(a) && heap.is_obj(used, a) && #[trigger] edge(*heap, a, b) implies m.contains(
            b,
        ) by {
            lemma_same_bodies_edge(h0, *heap, used, a, b);
        }
        assert forall|o: int| h0.is_obj(used, o) implies (#[trigger] heap.words@[o] == 1
            <==> h0.words@[o] == 1 || reaches(h0, used, src, o)) by {
            if reaches(h0, used, src, o) {
                let n = choose|n: nat| reach_in(h0, used, src, o, n);
                lemma_closed_holds_reached(h0, used, m, src, o, n);
            }
        }
    }
}

/// Marking from one more root extends what the marks record by what that root reaches.
proof fn lemma_mark_next_root(h0: Heap, h1: Heap, h2: Heap, st: Stack, used: int, roots: Seq<u64>, i: int)
    requires
        0 <= used,
        0 <= i < roots.len(),
        h0.laid_out(used),
        same_bodies(h0, h1, used),
        same_bodies(h1, h2, used),
        forall|o: int|
            h0.is_obj(used, o) ==> (#[trigger] h1.words@[o] == 1 <==> reached_from(
                h0,
                st,
                used,
                roots.subrange(0, i),
                o,
            )),
        forall|o: int|
            h0.is_obj(used, o) ==> (#[trigger] h2.words@[o] == 1 <==> h1.words@[o] == 1 || reaches(
                h1,
                used,
                h0.target(st.at(roots[i])),
                o,
            )),
    ensures
        same_bodies(h0, h2, used),
        forall|o: int|
            h0.is_obj(used, o) ==> (#[trigger] h2.words@[o] == 1 <==> reached_from(
                h0,
                st,
                used,
                roots.subrange(0, i + 1),
                o,
            )),
{
    let t = h0.target(st.at(roots[i]));
    assert(h1.objs(used) == h0.objs(used)) by {
        lemma_same_bodies_layout(h0, h1, used);
    }
    assert forall|p: int|
        0 <= p < h0.words@.len() && !h0.is_obj(used, p) implies #[trigger] h0.words@[p]
        == h2.words@[p] by {
        assert(h1.words@[p] == h2.words@[p]);
    }
    assert forall|o: int| h0.is_obj(used, o) implies (#[trigger] h2.words@[o] == 1 <==> reached_from(
        h0,
        st,
        used,
        roots.subrange(0, i + 1),
        o,
    )) by {
        lemma_same_bodies_reaches(h0, h1, used, t, o);
        lemma_reached_from_next(h0, st, used, roots, i, o);
        assert(h1.words@[o] == 1 <==> reached_from(h0, st, used, roots.subrange(0, i), o));
    }
}

/// Marks every object reached from a reference held in one of the stack slots
/// whose addresses `roots` lists.
pub fn mark(heap: &mut Heap, stack: &Stack, heap_ptr: u64, roots: &Vec<u64>)
    requires
        old(heap).has_ptr(heap_ptr),
        old(heap).ready(old(heap).index(heap_ptr)),
        forall|i: int|
            0 <= i < roots@.len() ==> stack.has_slot(#[trigger] roots@[i]) && old(heap).is_ref(
                stack.at(roots@[i]),
            ) && old(heap).valid_ref(old(heap).index(heap_ptr), stack.at(roots@[i])),
    ensures
        final(heap).marking(old(heap).index(heap_ptr)),
        same_bodies(*old(heap), *final(heap), old(heap).index(heap_ptr)),
        forall|o: int|
            old(heap).is_obj(old(heap).index(heap_ptr), o) ==> (#[trigger] final(heap).words@[o] == 1
                <==> reached_from(*old(heap), *stack, old(heap).index(heap_ptr), roots@, o)),
{
    let ghost h0 = *heap;
    let ghost used = heap.index(heap_ptr);
    proof {
        assert(heap.live(used) =~= Set::empty());
    }
    let mut i: usize = 0;
    while i < roots.len()
        invariant
            i <= roots@.len(),
            h0.has_ptr(heap_ptr),
            h0.laid_out(used),
            used == h0.index(heap_ptr),
            0 <= used,
            forall|i: int|
                0 <= i < roots@.len() ==> stack.has_slot(#[trigger] roots@[i]) && h0.is_ref(
                    stack.at(roots@[i]),
                ) && h0.valid_ref(used, stack.at(roots@[i])),
            heap.marking(used),
            same_bodies(h0, *heap, used),
            closed(*heap, used, heap.live(used)),
            forall|o: int|
                h0.is_obj(used, o) ==> (#[trigger] heap.words@[o] == 1 <==> reached_from(
                    h0,
                    *stack,
                    used,
                    roots@.subrange(0, i as int),
                    o,
                )),
        decreases roots@.len() - i,
    {
        let ghost h1 = *heap;
        let w: u64 = stack.read(roots[i]);
        assert(h1.objs(used) == h0.objs(used)) by {
            lemma_same_bodies_layout(h0, h1, used);
        }
        heap_mark(heap, heap_ptr, w - 1);
        proof {
            lemma_mark_next_root(h0, h1, *heap, *stack, used, roots@, i as int);
        }
        i += 1;
    }
    proof {
        assert(roots@.subrange(0, i as int) =~= roots@);
    }
}

} // verus!
