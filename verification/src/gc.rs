//! A whole collection: scan, mark, plan, rewrite, compact; and what it
//! guarantees about the heap and the stack it leaves.

use crate::compact::{compact, landed, lemma_slid_frame, lemma_slid_from, lemma_slid_has, slid};
use crate::error::ErrCode;
use crate::graph::{
    closed, edge, lemma_edge_to_obj, lemma_reach_self, lemma_reach_step, lemma_same_bodies_edge,
    lemma_same_bodies_layout, lemma_same_bodies_reaches, lemma_same_bodies_refs, reaches,
};
use crate::layout::{
    is_layout, lemma_inside_is_no_start, lemma_layout_is_walk, lemma_obj_bounds,
    lemma_walk_is_layout, size_at, tiled,
};
use crate::mark::mark;
use crate::memory::{same_bodies, Heap, Stack};
use crate::plan::{fwd_headers, lemma_moved_bound, lemma_moved_frame, moved};
use crate::rewrite::{
    fwd_internal, lemma_partly_head, lemma_partly_layout, lemma_partly_region, lemma_partly_rest,
    lemma_partly_word, planned, reached_set, reloc, rewritten, roots_rewritten,
};
use crate::roots::{find_stack_roots, is_root_list, reached_from, rooted};
use vstd::prelude::*;

verus! {

/// Every stack word between `stack_base` and `curr_rsp` that passes the
/// reference test points to an object.
pub open spec fn roots_ok(h: Heap, st: Stack, used: int, stack_base: u64, curr_rsp: u64) -> bool {
    forall|a: u64|
        #[trigger] st.scanned(stack_base, curr_rsp, a) && h.is_ref(st.at(a)) ==> h.valid_ref(
            used,
            st.at(a),
        )
}

/// What a collection asks of the memory it is given: the heap is in its
/// between-collections state up to `heap_ptr`, the scanned stretch of the stack
/// is in memory, and its references point to objects.
pub open spec fn gc_ready(h: Heap, st: Stack, heap_ptr: u64, stack_base: u64, curr_rsp: u64) -> bool {
    &&& h.has_ptr(heap_ptr)
    &&& h.ready(h.index(heap_ptr))
    &&& st.wf()
    &&& st.spans(stack_base, curr_rsp)
    &&& roots_ok(h, st, h.index(heap_ptr), stack_base, curr_rsp)
}

/// The objects that a collection keeps: those reached from a scanned stack word.
pub open spec fn survivors(h: Heap, st: Stack, used: int, stack_base: u64, curr_rsp: u64) -> Set<int> {
    Set::new(|o: int| h.is_obj(used, o) && rooted(h, st, used, stack_base, curr_rsp, o))
}

/// Word index at which the object at `o` starts once the objects in `live` have
/// been slid down.
pub open spec fn landing(h: Heap, used: int, live: Set<int>, o: int) -> int {
    moved(h.words@, h.objs(used), live, h.objs(used).index_of(o))
}

/// The word that takes the place of `w` in a collection: the reference to the
/// place where the referent lands if `w` is a heap reference, else `w`.
pub open spec fn relocated(h: Heap, used: int, live: Set<int>, w: u64) -> u64 {
    if h.is_ref(w) {
        h.ref_to(landing(h, used, live, h.target(w))) as u64
    } else {
        w
    }
}

/// `h1` holds, where it lands, the `k`-th object of `h0`: mark word 0, the same
/// length, and each payload word relocated.
pub open spec fn copied(h0: Heap, h1: Heap, used: int, live: Set<int>, k: int) -> bool {
    let o = h0.objs(used)[k];
    let d = moved(h0.words@, h0.objs(used), live, k);
    &&& h1.words@[d] == 0
    &&& h1.len_of(d) == h0.len_of(o)
    &&& forall|j: int|
        0 <= j < h0.len_of(o) ==> #[trigger] h1.payload(d, j) == relocated(
            h0,
            used,
            live,
            h0.payload(o, j),
        )
}

/// The word at offset `q` from the word index `o`.
pub open spec fn at_offset(h: Heap, o: int, q: int) -> u64 {
    h.words@[o + q]
}

/// What a collection leaves in the word at offset `q` of the `k`-th object of
/// `h0` if no survivor lands on that word: the word of a survivor as the
/// rewriter left it (its planned address in the mark word, its length, its
/// payload relocated), and the word of any other object as it was.
pub open spec fn left_behind(h0: Heap, used: int, live: Set<int>, k: int, q: int) -> u64 {
    let o = h0.objs(used)[k];
    if !live.contains(o) || q == 1 {
        h0.words@[o + q]
    } else if q == 0 {
        h0.addr(moved(h0.words@, h0.objs(used), live, k)) as u64
    } else {
        relocated(h0, used, live, h0.words@[o + q])
    }
}

/// Between the new heap pointer and the old one, `h1` holds what the
/// collection left behind.
pub open spec fn free_words_left(h0: Heap, used: int, live: Set<int>, h1: Heap, new_used: int) -> bool {
    forall|k: int, q: int|
        0 <= k < h0.objs(used).len() && 0 <= q < size_at(h0.words@, h0.objs(used)[k]) && new_used
            <= h0.objs(used)[k] + q ==> #[trigger] at_offset(h1, h0.objs(used)[k], q)
            == left_behind(h0, used, live, k, q)
}

/// `h1` is what compaction makes of `h0` when exactly the objects in `live`
/// are kept, and `new_used` is the number of words they take.
pub open spec fn heap_collected(h0: Heap, used: int, live: Set<int>, h1: Heap, new_used: int) -> bool {
    &&& h1.start == h0.start
    &&& h1.words@.len() == h0.words@.len()
    &&& new_used == moved(h0.words@, h0.objs(used), live, h0.objs(used).len() as int)
    &&& forall|p: int| used <= p < h0.words@.len() ==> #[trigger] h1.words@[p] == h0.words@[p]
    &&& forall|k: int|
        0 <= k < h0.objs(used).len() && live.contains(h0.objs(used)[k]) ==> #[trigger] copied(
            h0,
            h1,
            used,
            live,
            k,
        )
    &&& h1.objs(new_used) == slid(h0.words@, h0.objs(used), live, h0.objs(used).len() as int)
    &&& h1.ready(new_used)
    &&& free_words_left(h0, used, live, h1, new_used)
}

/// `st1` is `st0` with every scanned word that is a heap reference relocated.
pub open spec fn stack_collected(
    h0: Heap,
    st0: Stack,
    used: int,
    live: Set<int>,
    stack_base: u64,
    curr_rsp: u64,
    st1: Stack,
) -> bool {
    &&& st1.base == st0.base
    &&& st1.words@.len() == st0.words@.len()
    &&& forall|a: u64|
        st0.has_slot(a) ==> #[trigger] st1.at(a) == if st0.scanned(stack_base, curr_rsp, a)
            && h0.is_ref(st0.at(a)) {
            relocated(h0, used, live, st0.at(a))
        } else {
            st0.at(a)
        }
}

/// What the roots in a root list reach is what the scanned stack words reach.
pub proof fn lemma_root_list_reach(
    h: Heap,
    st: Stack,
    used: int,
    stack_base: u64,
    curr_rsp: u64,
    roots: Seq<u64>,
    o: int,
)
    requires
        is_root_list(h, st, stack_base, curr_rsp, roots),
    ensures
        reached_from(h, st, used, roots, o) == rooted(h, st, used, stack_base, curr_rsp, o),
{
    if reached_from(h, st, used, roots, o) {
        let i = choose|i: int|
            0 <= i < roots.len() && reaches(h, used, h.target(st.at(#[trigger] roots[i])), o);
        assert(roots.contains(roots[i]));
        assert(st.scanned(stack_base, curr_rsp, roots[i]));
    }
    if rooted(h, st, used, stack_base, curr_rsp, o) {
        let a = choose|a: u64|
            #[trigger] st.scanned(stack_base, curr_rsp, a) && h.is_ref(st.at(a)) && reaches(
                h,
                used,
                h.target(st.at(a)),
                o,
            );
        assert(roots.contains(a));
        let i = choose|i: int| 0 <= i < roots.len() && roots[i] == a;
        assert(reaches(h, used, h.target(st.at(roots[i])), o));
    }
}

/// A scanned address is the address of a word of the stretch.
pub proof fn lemma_scanned_has_slot(st: Stack, stack_base: u64, curr_rsp: u64, a: u64)
    requires
        st.spans(stack_base, curr_rsp),
        st.scanned(stack_base, curr_rsp, a),
    ensures
        st.has_slot(a),
{
}

/// No survivor refers to an object that does not survive.
pub proof fn lemma_survivors_closed(h: Heap, st: Stack, used: int, stack_base: u64, curr_rsp: u64)
    requires
        h.refs_ok(used),
    ensures
        closed(h, used, survivors(h, st, used, stack_base, curr_rsp)),
{
    let live = survivors(h, st, used, stack_base, curr_rsp);
    assert forall|a: int, b: int|
        live.contains(a) && h.is_obj(used, a) && #[trigger] edge(h, a, b) implies live.contains(
        b,
    ) by {
        let r = choose|r: u64|
            #[trigger] st.scanned(stack_base, curr_rsp, r) && h.is_ref(st.at(r)) && reaches(
                h,
                used,
                h.target(st.at(r)),
                a,
            );
        lemma_reach_step(h, used, h.target(st.at(r)), a, b);
        lemma_edge_to_obj(h, used, a, b);
    }
}

/// `h2` is `h0` with the forwarding word of each object in `live` in its mark
/// word and 0 in every other mark word.
pub open spec fn forwarded(h0: Heap, h2: Heap, used: int, live: Set<int>) -> bool {
    &&& same_bodies(h0, h2, used)
    &&& forall|k: int|
        0 <= k < h0.objs(used).len() ==> h2.words@[#[trigger] h0.objs(used)[k]] == if live.contains(
            h0.objs(used)[k],
        ) {
            h0.ref_to(moved(h0.words@, h0.objs(used), live, k))
        } else {
            0
        }
}

/// Marking what is in `live` and then planning leaves every object in `live`
/// with its forwarding word.
proof fn lemma_forwarded(h0: Heap, h1: Heap, h2: Heap, used: int, live: Set<int>)
    requires
        0 <= used,
        h0.laid_out(used),
        forall|o: int| live.contains(o) ==> h0.is_obj(used, o),
        same_bodies(h0, h1, used),
        forall|o: int|
            h0.is_obj(used, o) ==> (#[trigger] h1.words@[o] == 1 <==> live.contains(o)) && (
            h1.words@[o] == 0 || h1.words@[o] == 1),
        same_bodies(h1, h2, used),
        forall|k: int|
            0 <= k < h1.objs(used).len() ==> h2.words@[#[trigger] h1.objs(used)[k]] == if h1.words@[h1.objs(
                used,
            )[k]] == 1 {
                h1.fwd_word(used, k)
            } else {
                0
            },
    ensures
        forwarded(h0, h2, used, live),
{
    let s = h0.objs(used);
    assert(h1.objs(used) == s && is_layout(h0.words@, used, s)) by {
        lemma_same_bodies_layout(h0, h1, used);
    }
    assert(h1.live(used) =~= live);
    assert forall|p: int|
        0 <= p < h0.words@.len() && !h0.is_obj(used, p) implies #[trigger] h0.words@[p]
        == h2.words@[p] by {
        assert(h1.words@[p] == h2.words@[p]);
    }
    assert forall|i: int| 0 <= i < s.len() implies h0.words@[#[trigger] s[i] + 1] == h1.words@[s[i]
        + 1] by {
        lemma_inside_is_no_start(h0.words@, used, s, i, s[i] + 1);
    }
    assert forall|k: int| 0 <= k < s.len() implies h2.words@[#[trigger] s[k]] == if live.contains(
        s[k],
    ) {
        h0.ref_to(moved(h0.words@, s, live, k))
    } else {
        0
    } by {
        lemma_moved_frame(h0.words@, h1.words@, s, live, k);
        assert(h0.is_obj(used, s[k]));
        assert(h1.words@[s[k]] == 1 <==> live.contains(s[k]));
    }
}

/// A heap in which exactly a closed set of objects carry their forwarding words
/// is fit for the rewriter.
proof fn lemma_planned(h0: Heap, h2: Heap, used: int, live: Set<int>)
    requires
        0 <= used,
        h0.ready(used),
        closed(h0, used, live),
        forall|o: int| live.contains(o) ==> h0.is_obj(used, o),
        forwarded(h0, h2, used, live),
    ensures
        planned(h2, used),
        h2.live(used) == live,
        h2.objs(used) == h0.objs(used),
{
    let s = h0.objs(used);
    assert(h2.objs(used) == s && is_layout(h0.words@, used, s) && h2.laid_out(used)) by {
        lemma_same_bodies_layout(h0, h2, used);
    }
    assert(h2.refs_ok(used)) by {
        lemma_same_bodies_refs(h0, h2, used);
    }
    assert forall|k: int| 0 <= k < s.len() implies 0 <= #[trigger] moved(h0.words@, s, live, k) by {
        lemma_moved_bound(h0.words@, used, s, live, k);
    }
    assert forall|o: int| h2.is_obj(used, o) implies #[trigger] h2.words@[o] == 0 || h2.words@[o]
        % 2 == 1 by {
        let k = choose|k: int| 0 <= k < s.len() && s[k] == o;
        assert(0 <= moved(h0.words@, s, live, k));
    }
    assert forall|o: int| h2.live(used).contains(o) <==> live.contains(o) by {
        if h0.is_obj(used, o) {
            let k = choose|k: int| 0 <= k < s.len() && s[k] == o;
            assert(0 <= moved(h0.words@, s, live, k));
        }
    }
    assert(h2.live(used) =~= live);
    assert forall|a: int, b: int|
        live.contains(a) && h2.is_obj(used, a) && #[trigger] edge(h2, a, b) implies live.contains(
        b,
    ) by {
        lemma_same_bodies_edge(h0, h2, used, a, b);
    }
}

/// The forwarding word of a kept object is the relocated form of any reference to it.
proof fn lemma_forward_is_relocated(h0: Heap, h2: Heap, used: int, live: Set<int>, w: u64)
    requires
        0 <= used,
        h0.laid_out(used),
        forwarded(h0, h2, used, live),
        h0.is_ref(w),
        h0.valid_ref(used, w),
        live.contains(h0.target(w)),
    ensures
        reloc(h2, w) == relocated(h0, used, live, w),
        h0.ref_to(landing(h0, used, live, h0.target(w))) <= u64::MAX,
        0 <= landing(h0, used, live, h0.target(w)) < used,
{
    let s = h0.objs(used);
    let t = h0.target(w);
    lemma_walk_is_layout(h0.words@, 0, used);
    let kt = s.index_of(t);
    assert(s[kt] == t);
    lemma_moved_bound(h0.words@, used, s, live, kt);
    assert(h2.words@[s[kt]] == h0.ref_to(moved(h0.words@, s, live, kt)));
    assert(h2.is_ref(w));
}

/// What the rewriter leaves, said of the heap before marking.
proof fn lemma_rewritten_heap(h0: Heap, h2: Heap, h3: Heap, used: int, live: Set<int>)
    requires
        0 <= used,
        h0.ready(used),
        closed(h0, used, live),
        forall|o: int| live.contains(o) ==> h0.is_obj(used, o),
        forwarded(h0, h2, used, live),
        planned(h2, used),
        h2.objs(used) == h0.objs(used),
        rewritten(h2, h3, used, live),
    ensures
        h3.start == h0.start,
        h3.words@.len() == h0.words@.len(),
        h3.laid_out(used),
        h3.objs(used) == h0.objs(used),
        h3.live(used) == live,
        forall|p: int| used <= p < h0.words@.len() ==> #[trigger] h3.words@[p] == h0.words@[p],
        forall|k: int|
            0 <= k < h0.objs(used).len() ==> h3.len_of(#[trigger] h0.objs(used)[k]) == h0.len_of(
                h0.objs(used)[k],
            ),
        forall|k: int, j: int|
            0 <= k < h0.objs(used).len() && live.contains(h0.objs(used)[k]) && 0 <= j < h0.len_of(
                h0.objs(used)[k],
            ) ==> #[trigger] h3.payload(h0.objs(used)[k], j) == relocated(
                h0,
                used,
                live,
                h0.payload(h0.objs(used)[k], j),
            ),
{
    let s = h0.objs(used);
    lemma_walk_is_layout(h0.words@, 0, used);
    lemma_partly_layout(h2, h3, used, live, -1, 0);
    lemma_partly_region(h2, h3, used, live, -1, 0);
    assert forall|p: int| used <= p < h0.words@.len() implies #[trigger] h3.words@[p]
        == h0.words@[p] by {
        lemma_partly_rest(h2, h3, used, live, -1, 0, p);
        if h0.is_obj(used, p) {
            lemma_obj_bounds(h0.words@, used, p);
        }
    }
    assert forall|k: int| 0 <= k < s.len() implies h3.len_of(#[trigger] s[k]) == h0.len_of(
        s[k],
    ) by {
        assert(h0.is_obj(used, s[k]));
        lemma_partly_head(h2, h3, used, live, -1, 0, s[k]);
        lemma_inside_is_no_start(h0.words@, used, s, k, s[k] + 1);
    }
    assert forall|o: int| h3.live(used).contains(o) <==> live.contains(o) by {
        if h0.is_obj(used, o) {
            let k = choose|k: int| 0 <= k < s.len() && s[k] == o;
            lemma_partly_head(h2, h3, used, live, -1, 0, o);
            lemma_moved_bound(h0.words@, used, s, live, k);
            assert(h2.words@[s[k]] == if live.contains(s[k]) {
                h0.ref_to(moved(h0.words@, s, live, k))
            } else {
                0
            });
        }
    }
    assert(h3.live(used) =~= live);
    assert forall|k: int, j: int|
        0 <= k < s.len() && live.contains(s[k]) && 0 <= j < h0.len_of(s[k]) implies #[trigger] h3.payload(
        s[k],
        j,
    ) == relocated(h0, used, live, h0.payload(s[k], j)) by {
        let o = s[k];
        let w = h0.payload(o, j);
        assert(h0.is_obj(used, o));
        lemma_inside_is_no_start(h0.words@, used, s, k, o + 1);
        lemma_inside_is_no_start(h0.words@, used, s, k, o + 2 + j);
        lemma_obj_bounds(h0.words@, used, o);
        assert(h2.payload(o, j) == w);
        lemma_partly_word(h2, h3, used, live, -1, 0, o, j);
        if h0.is_ref(w) {
            assert(edge(h0, o, h0.target(w)));
            lemma_forward_is_relocated(h0, h2, used, live, w);
        }
    }
}

/// What the compactor makes of the rewritten heap, said of the heap before marking.
proof fn lemma_heap_collected(h0: Heap, h3: Heap, h4: Heap, used: int, live: Set<int>, new_used: int)
    requires
        0 <= used,
        h0.laid_out(used),
        forall|o: int| live.contains(o) ==> h0.is_obj(used, o),
        h3.start == h0.start,
        h3.words@.len() == h0.words@.len(),
        h3.objs(used) == h0.objs(used),
        h3.live(used) == live,
        forall|p: int| used <= p < h0.words@.len() ==> #[trigger] h3.words@[p] == h0.words@[p],
        forall|k: int|
            0 <= k < h0.objs(used).len() ==> h3.len_of(#[trigger] h0.objs(used)[k]) == h0.len_of(
                h0.objs(used)[k],
            ),
        forall|k: int, j: int|
            0 <= k < h0.objs(used).len() && live.contains(h0.objs(used)[k]) && 0 <= j < h0.len_of(
                h0.objs(used)[k],
            ) ==> #[trigger] h3.payload(h0.objs(used)[k], j) == relocated(
                h0,
                used,
                live,
                h0.payload(h0.objs(used)[k], j),
            ),
        h4.start == h3.start,
        h4.words@.len() == h3.words@.len(),
        new_used == h3.dest(used, h3.objs(used).len() as int),
        forall|p: int| used <= p < h3.words@.len() ==> #[trigger] h4.words@[p] == h3.words@[p],
        forall|k: int|
            0 <= k < h3.objs(used).len() && h3.words@[h3.objs(used)[k]] != 0 ==> #[trigger] landed(
                h3,
                h4,
                used,
                k,
            ),
        is_layout(
            h4.words@,
            new_used,
            slid(h3.words@, h3.objs(used), h3.live(used), h3.objs(used).len() as int),
        ),
    ensures
        h4.start == h0.start,
        h4.words@.len() == h0.words@.len(),
        new_used == moved(h0.words@, h0.objs(used), live, h0.objs(used).len() as int),
        forall|p: int| used <= p < h0.words@.len() ==> #[trigger] h4.words@[p] == h0.words@[p],
        forall|k: int|
            0 <= k < h0.objs(used).len() && live.contains(h0.objs(used)[k]) ==> #[trigger] copied(
                h0,
                h4,
                used,
                live,
                k,
            ),
        h4.objs(new_used) == slid(h0.words@, h0.objs(used), live, h0.objs(used).len() as int),
        tiled(h4.words@, new_used),
{
    let s = h0.objs(used);
    let n = s.len() as int;
    lemma_walk_is_layout(h0.words@, 0, used);
    assert forall|i: int| 0 <= i < s.len() implies h3.words@[#[trigger] s[i] + 1] == h0.words@[s[i]
        + 1] by {
        assert(h3.len_of(s[i]) == h0.len_of(s[i]));
    }
    lemma_moved_frame(h3.words@, h0.words@, s, live, n);
    lemma_slid_frame(h3.words@, h0.words@, s, live, n);
    lemma_layout_is_walk(h4.words@, 0, new_used, slid(h0.words@, s, live, n));
    assert forall|k: int| 0 <= k < s.len() && live.contains(s[k]) implies #[trigger] copied(
        h0,
        h4,
        used,
        live,
        k,
    ) by {
        let o = s[k];
        let d = moved(h0.words@, s, live, k);
        lemma_moved_frame(h3.words@, h0.words@, s, live, k);
        lemma_moved_bound(h0.words@, used, s, live, k);
        assert(h3.dest(used, k) == d);
        assert(h3.live(used).contains(o));
        assert(landed(h3, h4, used, k));
        assert(h3.len_of(o) == h0.len_of(o));
        assert(size_at(h3.words@, o) == size_at(h0.words@, o));
        assert(h4.words@[d + 1] == h3.words@[d + 1 + (o - d)]);
        assert forall|j: int| 0 <= j < h0.len_of(o) implies #[trigger] h4.payload(d, j)
            == relocated(h0, used, live, h0.payload(o, j)) by {
            assert(h4.words@[d + 2 + j] == h3.words@[d + 2 + j + (o - d)]);
            assert(h3.payload(o, j) == relocated(h0, used, live, h0.payload(o, j)));
        }
    }
}

/// The words that compaction does not write are as the rewriter left them.
proof fn lemma_left_behind(
    h0: Heap,
    h2: Heap,
    h3: Heap,
    h4: Heap,
    used: int,
    live: Set<int>,
    new_used: int,
)
    requires
        0 <= used,
        0 <= new_used,
        h0.ready(used),
        closed(h0, used, live),
        forall|o: int| live.contains(o) ==> h0.is_obj(used, o),
        forwarded(h0, h2, used, live),
        planned(h2, used),
        h2.objs(used) == h0.objs(used),
        rewritten(h2, h3, used, live),
        h4.words@.len() == h0.words@.len(),
        forall|p: int| new_used <= p < h0.words@.len() ==> #[trigger] h4.words@[p] == h3.words@[p],
    ensures
        free_words_left(h0, used, live, h4, new_used),
{
    let s = h0.objs(used);
    lemma_walk_is_layout(h0.words@, 0, used);
    assert forall|k: int, q: int|
        0 <= k < s.len() && 0 <= q < size_at(h0.words@, s[k]) && new_used <= s[k]
            + q implies #[trigger] at_offset(h4, s[k], q) == left_behind(h0, used, live, k, q) by {
        let o = s[k];
        assert(h0.is_obj(used, o));
        lemma_obj_bounds(h0.words@, used, o);
        assert(h4.words@[o + q] == h3.words@[o + q]);
        lemma_partly_head(h2, h3, used, live, -1, 0, o);
        lemma_inside_is_no_start(h0.words@, used, s, k, o + 1);
        if q == 0 {
            lemma_moved_bound(h0.words@, used, s, live, k);
            assert(h2.words@[s[k]] == if live.contains(s[k]) {
                h0.ref_to(moved(h0.words@, s, live, k))
            } else {
                0
            });
            assert(h0.words@[o] == 0);
        } else if q >= 2 {
            let j = q - 2;
            let w = h0.payload(o, j);
            lemma_inside_is_no_start(h0.words@, used, s, k, o + 2 + j);
            assert(h2.payload(o, j) == w);
            lemma_partly_word(h2, h3, used, live, -1, 0, o, j);
            assert(h3.payload(o, j) == h3.words@[o + q]);
            if live.contains(o) && h0.is_ref(w) {
                assert(edge(h0, o, h0.target(w)));
                lemma_forward_is_relocated(h0, h2, used, live, w);
            }
        }
    }
}

/// A reference to a kept object relocates to a valid reference into the
/// compacted heap, to the place where that object lands.
pub proof fn lemma_relocated_ref(h0: Heap, used: int, live: Set<int>, w: u64)
    requires
        0 <= used,
        h0.laid_out(used),
        h0.is_ref(w),
        h0.valid_ref(used, w),
        live.contains(h0.target(w)),
    ensures
        h0.is_ref(relocated(h0, used, live, w)),
        relocated(h0, used, live, w) == h0.ref_to(landing(h0, used, live, h0.target(w))),
        h0.target(relocated(h0, used, live, w)) == landing(h0, used, live, h0.target(w)),
        (relocated(h0, used, live, w) - 1 - h0.start) % 8 == 0,
        slid(h0.words@, h0.objs(used), live, h0.objs(used).len() as int).contains(
            landing(h0, used, live, h0.target(w)),
        ),
{
    let s = h0.objs(used);
    let t = h0.target(w);
    lemma_walk_is_layout(h0.words@, 0, used);
    let kt = s.index_of(t);
    assert(s[kt] == t);
    lemma_moved_bound(h0.words@, used, s, live, kt);
    lemma_slid_has(h0.words@, s, live, s.len() as int, kt);
}

/// The heap a collection leaves is in the between-collections state.
proof fn lemma_collected_ready(h0: Heap, h4: Heap, used: int, live: Set<int>, new_used: int)
    requires
        0 <= used,
        h0.ready(used),
        closed(h0, used, live),
        forall|o: int| live.contains(o) ==> h0.is_obj(used, o),
        h4.start == h0.start,
        h4.words@.len() == h0.words@.len(),
        forall|k: int|
            0 <= k < h0.objs(used).len() && live.contains(h0.objs(used)[k]) ==> #[trigger] copied(
                h0,
                h4,
                used,
                live,
                k,
            ),
        h4.objs(new_used) == slid(h0.words@, h0.objs(used), live, h0.objs(used).len() as int),
        tiled(h4.words@, new_used),
    ensures
        h4.ready(new_used),
{
    let s = h0.objs(used);
    let n = s.len() as int;
    lemma_walk_is_layout(h0.words@, 0, used);
    assert forall|d: int| h4.is_obj(new_used, d) implies #[trigger] h4.words@[d] == 0 by {
        let k = lemma_slid_from(h0.words@, s, live, n, d);
        assert(copied(h0, h4, used, live, k));
    }
    assert forall|d: int, j: int|
        h4.is_obj(new_used, d) && 0 <= j < h4.len_of(d) && h4.is_ref(
            #[trigger] h4.payload(d, j),
        ) implies h4.valid_ref(new_used, h4.payload(d, j)) by {
        let k = lemma_slid_from(h0.words@, s, live, n, d);
        assert(copied(h0, h4, used, live, k));
        let o = s[k];
        let w = h0.payload(o, j);
        assert(h0.is_obj(used, o));
        assert(h4.payload(d, j) == relocated(h0, used, live, w));
        if h0.is_ref(w) {
            assert(edge(h0, o, h0.target(w)));
            lemma_relocated_ref(h0, used, live, w);
        }
    }
}

/// What the rewriter leaves in the stack, said of the heap before marking.
proof fn lemma_stack_collected(
    h0: Heap,
    h2: Heap,
    st0: Stack,
    st1: Stack,
    used: int,
    stack_base: u64,
    curr_rsp: u64,
    roots: Seq<u64>,
)
    requires
        0 <= used,
        h0.laid_out(used),
        roots_ok(h0, st0, used, stack_base, curr_rsp),
        is_root_list(h0, st0, stack_base, curr_rsp, roots),
        forwarded(h0, h2, used, survivors(h0, st0, used, stack_base, curr_rsp)),
        roots_rewritten(h2, st0, st1, roots),
    ensures
        stack_collected(
            h0,
            st0,
            used,
            survivors(h0, st0, used, stack_base, curr_rsp),
            stack_base,
            curr_rsp,
            st1,
        ),
{
    let live = survivors(h0, st0, used, stack_base, curr_rsp);
    assert forall|a: u64| st0.has_slot(a) implies #[trigger] st1.at(a) == if st0.scanned(
        stack_base,
        curr_rsp,
        a,
    ) && h0.is_ref(st0.at(a)) {
        relocated(h0, used, live, st0.at(a))
    } else {
        st0.at(a)
    } by {
        let w = st0.at(a);
        if st0.scanned(stack_base, curr_rsp, a) && h0.is_ref(w) {
            assert(roots.contains(a));
            lemma_reach_self(h0, used, h0.target(w));
            assert(rooted(h0, st0, used, stack_base, curr_rsp, h0.target(w)));
            lemma_forward_is_relocated(h0, h2, used, live, w);
        } else {
            assert(!roots.contains(a));
        }
    }
}

/// `h1`, `st1` and `new_used` are what a collection makes of the heap `h0` with
/// `used` words allocated and the stack `st0` scanned from `stack_base` down to
/// `curr_rsp`: the survivors are slid down in order, with clear mark words and
/// relocated payloads; the scanned references are relocated; and nothing else
/// in the stack or past the old heap pointer changes.
pub open spec fn collected(
    h0: Heap,
    st0: Stack,
    used: int,
    stack_base: u64,
    curr_rsp: u64,
    h1: Heap,
    st1: Stack,
    new_used: int,
) -> bool {
    &&& heap_collected(h0, used, survivors(h0, st0, used, stack_base, curr_rsp), h1, new_used)
    &&& stack_collected(
        h0,
        st0,
        used,
        survivors(h0, st0, used, stack_base, curr_rsp),
        stack_base,
        curr_rsp,
        st1,
    )
}

/// Runs a whole collection: finds the roots on the stack, marks what they
/// reach, plans the new addresses, rewrites the references in the roots and the
/// live objects, and slides the live objects down. Returns the new heap pointer.
/// It changes the heap and the stack and nothing else: it has no output to
/// write to, so a collection adds nothing to what a program prints.
pub fn snek_gc(
    heap: &mut Heap,
    stack: &mut Stack,
    heap_ptr: u64,
    stack_base: u64,
    curr_rbp: u64,
    curr_rsp: u64,
) -> (new_heap_ptr: u64)
    requires
        gc_ready(*old(heap), *old(stack), heap_ptr, stack_base, curr_rsp),
    ensures
        final(heap).has_ptr(new_heap_ptr),
        new_heap_ptr <= heap_ptr,
        collected(
            *old(heap),
            *old(stack),
            old(heap).index(heap_ptr),
            stack_base,
            curr_rsp,
            *final(heap),
            *final(stack),
            final(heap).index(new_heap_ptr),
        ),
{
    let ghost h0 = *heap;
    let ghost st0 = *stack;
    let ghost used = heap.index(heap_ptr);
    let ghost live = survivors(h0, st0, used, stack_base, curr_rsp);
    let roots = find_stack_roots(heap, stack, stack_base, curr_rbp, curr_rsp);
    proof {
        assert forall|i: int| 0 <= i < roots@.len() implies st0.has_slot(#[trigger] roots@[i])
            && h0.is_ref(st0.at(roots@[i])) && h0.valid_ref(used, st0.at(roots@[i])) by {
            assert(roots@.contains(roots@[i]));
            assert(st0.scanned(stack_base, curr_rsp, roots@[i]));
            lemma_scanned_has_slot(st0, stack_base, curr_rsp, roots@[i]);
        }
        lemma_survivors_closed(h0, st0, used, stack_base, curr_rsp);
    }
    mark(heap, stack, heap_ptr, &roots);
    let ghost h1 = *heap;
    proof {
        assert forall|o: int| h0.is_obj(used, o) implies (#[trigger] h1.words@[o] == 1
            <==> live.contains(o)) && (h1.words@[o] == 0 || h1.words@[o] == 1) by {
            lemma_root_list_reach(h0, st0, used, stack_base, curr_rsp, roots@, o);
            assert(h1.objs(used) == h0.objs(used)) by {
                lemma_same_bodies_layout(h0, h1, used);
            }
        }
    }
    fwd_headers(heap, heap_ptr);
    let ghost h2 = *heap;
    proof {
        lemma_forwarded(h0, h1, h2, used, live);
        lemma_planned(h0, h2, used, live);
        assert forall|i: int| 0 <= i < roots@.len() implies h2.is_ref(st0.at(#[trigger] roots@[i]))
            && h2.valid_ref(used, st0.at(roots@[i])) && h2.live(used).contains(
            h2.target(st0.at(roots@[i])),
        ) by {
            let w = st0.at(roots@[i]);
            assert(roots@.contains(roots@[i]));
            assert(st0.scanned(stack_base, curr_rsp, roots@[i]));
            lemma_reach_self(h0, used, h0.target(w));
            assert(rooted(h0, st0, used, stack_base, curr_rsp, h0.target(w)));
        }
    }
    fwd_internal(heap, stack, heap_ptr, &roots);
    let ghost h3 = *heap;
    proof {
        let reached = reached_set(h2, st0, used, roots@);
        assert forall|o: int| reached.contains(o) <==> live.contains(o) by {
            if reached.contains(o) {
                let i = choose|i: int|
                    0 <= i < roots@.len() && reaches(
                        h2,
                        used,
                        h2.target(st0.at(#[trigger] roots@[i])),
                        o,
                    );
                lemma_same_bodies_reaches(h0, h2, used, h0.target(st0.at(roots@[i])), o);
                assert(reached_from(h0, st0, used, roots@, o));
                lemma_root_list_reach(h0, st0, used, stack_base, curr_rsp, roots@, o);
            }
            if live.contains(o) {
                lemma_root_list_reach(h0, st0, used, stack_base, curr_rsp, roots@, o);
                let i = choose|i: int|
                    0 <= i < roots@.len() && reaches(
                        h0,
                        used,
                        h0.target(st0.at(#[trigger] roots@[i])),
                        o,
                    );
                lemma_same_bodies_reaches(h0, h2, used, h0.target(st0.at(roots@[i])), o);
                assert(reached_from(h2, st0, used, roots@, o));
            }
        }
        assert(reached =~= live);
        lemma_rewritten_heap(h0, h2, h3, used, live);
        lemma_stack_collected(h0, h2, st0, *stack, used, stack_base, curr_rsp, roots@);
    }
    let new_heap_ptr = compact(heap, heap_ptr);
    proof {
        let new_used = heap.index(new_heap_ptr);
        lemma_heap_collected(h0, h3, *heap, used, live, new_used);
        lemma_collected_ready(h0, *heap, used, live, new_used);
        lemma_left_behind(h0, h2, h3, *heap, used, live, new_used);
    }
    new_heap_ptr
}

/// Whether `count` more words fit between `ptr` and the end of the heap.
pub fn has_room(heap: &Heap, ptr: u64, count: isize) -> (b: bool)
    requires
        heap.wf(),
        heap.has_ptr(ptr),
    ensures
        b == (ptr + 8 * count <= heap.end()),
{
    let end: u64 = heap.start + 8 * (heap.words.len() as u64);
    let room: u64 = (end - ptr) / 8;
    assert(ptr + 8 * room == end);
    count <= 0 || count as u64 <= room
}

/// The allocation-failure handler. Runs a collection; if `count` more words
/// then fit below the end of the heap, returns the new heap pointer, else the
/// out-of-memory error. The heap and the stack are left as the collection
/// leaves them in either case.
pub fn snek_try_gc(
    heap: &mut Heap,
    stack: &mut Stack,
    count: isize,
    heap_ptr: u64,
    stack_base: u64,
    curr_rbp: u64,
    curr_rsp: u64,
) -> (r: Result<u64, ErrCode>)
    requires
        gc_ready(*old(heap), *old(stack), heap_ptr, stack_base, curr_rsp),
    ensures
        exists|p: u64|
            {
                &&& #[trigger] final(heap).has_ptr(p)
                &&& p <= heap_ptr
                &&& collected(
                    *old(heap),
                    *old(stack),
                    old(heap).index(heap_ptr),
                    stack_base,
                    curr_rsp,
                    *final(heap),
                    *final(stack),
                    final(heap).index(p),
                )
                &&& r == if p + 8 * count > final(heap).end() {
                    Err::<u64, ErrCode>(ErrCode::OutOfMemory)
                } else {
                    Ok::<u64, ErrCode>(p)
                }
            },
{
    let new_heap_ptr: u64 = snek_gc(heap, stack, heap_ptr, stack_base, curr_rbp, curr_rsp);
    if has_room(heap, new_heap_ptr, count) {
        Ok(new_heap_ptr)
    } else {
        Err(ErrCode::OutOfMemory)
    }
}

} // verus!
