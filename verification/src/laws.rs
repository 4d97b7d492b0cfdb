//! What holds of every collection, stated over the relation `collected`.

use crate::compact::{lemma_slid_from, lemma_slid_has};
use crate::gc::{
    collected, copied, gc_ready, heap_collected, landing, lemma_relocated_ref,
    lemma_scanned_has_slot, lemma_survivors_closed, relocated, roots_ok, survivors,
};
use crate::graph::{closed, edge, lemma_edge_to_obj, lemma_reach_self, reach_in, reaches};
use crate::layout::{
    is_layout, lemma_index_of_start, lemma_next_start, lemma_walk_is_layout, next_start, size_at,
};
use crate::memory::{Heap, Stack};
use crate::plan::{lemma_moved_order, moved};
use crate::print::{is_value, lemma_unseen_insert, show, show_elems, tagged, unseen};
use crate::roots::rooted;
use vstd::prelude::*;

verus! {

/// Every object that a scanned stack word reaches is found again after the
/// collection, at the place where it lands: with a clear mark word, the same
/// length, and each payload word relocated.
pub proof fn law_survivor_kept(
    h0: Heap,
    st0: Stack,
    heap_ptr: u64,
    stack_base: u64,
    curr_rsp: u64,
    h1: Heap,
    st1: Stack,
    new_used: int,
    o: int,
)
    requires
        gc_ready(h0, st0, heap_ptr, stack_base, curr_rsp),
        collected(h0, st0, h0.index(heap_ptr), stack_base, curr_rsp, h1, st1, new_used),
        h0.is_obj(h0.index(heap_ptr), o),
        rooted(h0, st0, h0.index(heap_ptr), stack_base, curr_rsp, o),
    ensures
        h1.is_obj(
            new_used,
            landing(
                h0,
                h0.index(heap_ptr),
                survivors(h0, st0, h0.index(heap_ptr), stack_base, curr_rsp),
                o,
            ),
        ),
        h1.words@[landing(
            h0,
            h0.index(heap_ptr),
            survivors(h0, st0, h0.index(heap_ptr), stack_base, curr_rsp),
            o,
        )] == 0,
        h1.len_of(
            landing(
                h0,
                h0.index(heap_ptr),
                survivors(h0, st0, h0.index(heap_ptr), stack_base, curr_rsp),
                o,
            ),
        ) == h0.len_of(o),
        forall|j: int|
            0 <= j < h0.len_of(o) ==> #[trigger] h1.payload(
                landing(
                    h0,
                    h0.index(heap_ptr),
                    survivors(h0, st0, h0.index(heap_ptr), stack_base, curr_rsp),
                    o,
                ),
                j,
            ) == relocated(
                h0,
                h0.index(heap_ptr),
                survivors(h0, st0, h0.index(heap_ptr), stack_base, curr_rsp),
                h0.payload(o, j),
            ),
{
    let used = h0.index(heap_ptr);
    let live = survivors(h0, st0, used, stack_base, curr_rsp);
    let s = h0.objs(used);
    let k = s.index_of(o);
    assert(s[k] == o);
    assert(live.contains(s[k]));
    assert(copied(h0, h1, used, live, k));
    lemma_slid_has(h0.words@, s, live, s.len() as int, k);
}

/// Every object found after the collection is the copy of an object that a
/// scanned stack word reached before it.
pub proof fn law_only_survivors_kept(
    h0: Heap,
    st0: Stack,
    heap_ptr: u64,
    stack_base: u64,
    curr_rsp: u64,
    h1: Heap,
    st1: Stack,
    new_used: int,
    d: int,
) -> (o: int)
    requires
        gc_ready(h0, st0, heap_ptr, stack_base, curr_rsp),
        collected(h0, st0, h0.index(heap_ptr), stack_base, curr_rsp, h1, st1, new_used),
        h1.is_obj(new_used, d),
    ensures
        h0.is_obj(h0.index(heap_ptr), o),
        rooted(h0, st0, h0.index(heap_ptr), stack_base, curr_rsp, o),
        d == landing(
            h0,
            h0.index(heap_ptr),
            survivors(h0, st0, h0.index(heap_ptr), stack_base, curr_rsp),
            o,
        ),
{
    let used = h0.index(heap_ptr);
    let live = survivors(h0, st0, used, stack_base, curr_rsp);
    let s = h0.objs(used);
    lemma_walk_is_layout(h0.words@, 0, used);
    let k = lemma_slid_from(h0.words@, s, live, s.len() as int, d);
    lemma_index_of_start(h0.words@, used, s, k);
    s[k]
}

/// The object at `d` holds the length and the payload words that the object at
/// `u` held in `h0`.
pub open spec fn same_contents(h0: Heap, u: int, h1: Heap, d: int) -> bool {
    &&& h1.len_of(d) == h0.len_of(u)
    &&& forall|j: int| 0 <= j < h0.len_of(u) ==> #[trigger] h1.payload(d, j) == h0.payload(u, j)
}

/// The object at `o`, once relocated, holds the length and the payload words
/// that the object at `u` holds.
pub open spec fn relocates_to_contents(h0: Heap, used: int, live: Set<int>, o: int, u: int) -> bool {
    &&& h0.len_of(o) == h0.len_of(u)
    &&& forall|j: int|
        0 <= j < h0.len_of(u) ==> #[trigger] relocated(h0, used, live, h0.payload(o, j))
            == h0.payload(u, j)
}

/// An object that no scanned stack word reaches leaves no copy: unless some
/// survivor relocates to the very contents of the object at `u`, no object
/// after the collection holds those contents.
pub proof fn law_garbage_gone(
    h0: Heap,
    st0: Stack,
    heap_ptr: u64,
    stack_base: u64,
    curr_rsp: u64,
    h1: Heap,
    st1: Stack,
    new_used: int,
    u: int,
    d: int,
)
    requires
        gc_ready(h0, st0, heap_ptr, stack_base, curr_rsp),
        collected(h0, st0, h0.index(heap_ptr), stack_base, curr_rsp, h1, st1, new_used),
        h0.is_obj(h0.index(heap_ptr), u),
        !rooted(h0, st0, h0.index(heap_ptr), stack_base, curr_rsp, u),
        forall|o: int|
            h0.is_obj(h0.index(heap_ptr), o) && rooted(
                h0,
                st0,
                h0.index(heap_ptr),
                stack_base,
                curr_rsp,
                o,
            ) ==> !#[trigger] relocates_to_contents(
                h0,
                h0.index(heap_ptr),
                survivors(h0, st0, h0.index(heap_ptr), stack_base, curr_rsp),
                o,
                u,
            ),
        h1.is_obj(new_used, d),
    ensures
        !same_contents(h0, u, h1, d),
{
    let used = h0.index(heap_ptr);
    let live = survivors(h0, st0, used, stack_base, curr_rsp);
    let o = law_only_survivors_kept(h0, st0, heap_ptr, stack_base, curr_rsp, h1, st1, new_used, d);
    law_survivor_kept(h0, st0, heap_ptr, stack_base, curr_rsp, h1, st1, new_used, o);
    if same_contents(h0, u, h1, d) {
        assert forall|j: int| 0 <= j < h0.len_of(u) implies #[trigger] relocated(
            h0,
            used,
            live,
            h0.payload(o, j),
        ) == h0.payload(u, j) by {
            assert(h1.payload(d, j) == h0.payload(u, j));
            assert(h1.payload(d, j) == relocated(h0, used, live, h0.payload(o, j)));
        }
        assert(relocates_to_contents(h0, used, live, o, u));
    }
}

/// Every scanned stack word that held a heap reference holds, after the
/// collection, a valid reference to the place where its referent landed.
pub proof fn law_roots_preserved(
    h0: Heap,
    st0: Stack,
    heap_ptr: u64,
    stack_base: u64,
    curr_rsp: u64,
    h1: Heap,
    st1: Stack,
    new_used: int,
    a: u64,
)
    requires
        gc_ready(h0, st0, heap_ptr, stack_base, curr_rsp),
        collected(h0, st0, h0.index(heap_ptr), stack_base, curr_rsp, h1, st1, new_used),
        st0.scanned(stack_base, curr_rsp, a),
        h0.is_ref(st0.at(a)),
    ensures
        h1.is_ref(st1.at(a)),
        h1.valid_ref(new_used, st1.at(a)),
        h1.target(st1.at(a)) == landing(
            h0,
            h0.index(heap_ptr),
            survivors(h0, st0, h0.index(heap_ptr), stack_base, curr_rsp),
            h0.target(st0.at(a)),
        ),
{
    let used = h0.index(heap_ptr);
    let live = survivors(h0, st0, used, stack_base, curr_rsp);
    let w = st0.at(a);
    lemma_scanned_has_slot(st0, stack_base, curr_rsp, a);
    lemma_reach_self(h0, used, h0.target(w));
    assert(rooted(h0, st0, used, stack_base, curr_rsp, h0.target(w)));
    lemma_relocated_ref(h0, used, live, w);
    assert(st1.at(a) == relocated(h0, used, live, w));
}

/// A collection of an empty heap changes nothing and leaves the heap empty.
pub proof fn law_empty_heap(
    h0: Heap,
    st0: Stack,
    heap_ptr: u64,
    stack_base: u64,
    curr_rsp: u64,
    h1: Heap,
    st1: Stack,
    new_used: int,
)
    requires
        gc_ready(h0, st0, heap_ptr, stack_base, curr_rsp),
        heap_ptr == h0.start,
        collected(h0, st0, 0, stack_base, curr_rsp, h1, st1, new_used),
    ensures
        new_used == 0,
        h1.start == h0.start,
        h1.words@ == h0.words@,
        st1.base == st0.base,
        st1.words@ == st0.words@,
{
    let live = survivors(h0, st0, 0, stack_base, curr_rsp);
    assert(h0.objs(0).len() == 0);
    assert(h1.words@ =~= h0.words@);
    assert forall|i: int| 0 <= i < st0.words@.len() implies st1.words@[i] == st0.words@[i] by {
        let a = (st0.base - 8 * i) as u64;
        assert(st0.has_slot(a));
        assert(st0.slot(a) == i);
        assert(st1.at(a) == st1.words@[i]);
        if st0.scanned(stack_base, curr_rsp, a) && h0.is_ref(st0.at(a)) {
            assert(h0.valid_ref(0, st0.at(a)));
        }
    }
    assert(st1.words@ =~= st0.words@);
}

/// After a collection the memory is again fit for a collection.
pub proof fn law_collected_is_ready(
    h0: Heap,
    st0: Stack,
    heap_ptr: u64,
    stack_base: u64,
    curr_rsp: u64,
    h1: Heap,
    st1: Stack,
    new_heap_ptr: u64,
)
    requires
        gc_ready(h0, st0, heap_ptr, stack_base, curr_rsp),
        h1.has_ptr(new_heap_ptr),
        collected(
            h0,
            st0,
            h0.index(heap_ptr),
            stack_base,
            curr_rsp,
            h1,
            st1,
            h1.index(new_heap_ptr),
        ),
    ensures
        gc_ready(h1, st1, new_heap_ptr, stack_base, curr_rsp),
{
    let new_used = h1.index(new_heap_ptr);
    assert forall|a: u64|
        #[trigger] st1.scanned(stack_base, curr_rsp, a) && h1.is_ref(st1.at(a)) implies h1.valid_ref(
        new_used,
        st1.at(a),
    ) by {
        assert(st0.scanned(stack_base, curr_rsp, a));
        lemma_scanned_has_slot(st0, stack_base, curr_rsp, a);
        if h0.is_ref(st0.at(a)) {
            law_roots_preserved(h0, st0, heap_ptr, stack_base, curr_rsp, h1, st1, new_used, a);
        } else {
            assert(st1.at(a) == st0.at(a));
        }
    }
}

/// A path between survivors is found again, step for step, between the places
/// where they land.
proof fn lemma_reach_moves(
    h0: Heap,
    st0: Stack,
    used: int,
    stack_base: u64,
    curr_rsp: u64,
    h1: Heap,
    new_used: int,
    a: int,
    o: int,
    n: nat,
)
    requires
        0 <= used,
        h0.ready(used),
        heap_collected(h0, used, survivors(h0, st0, used, stack_base, curr_rsp), h1, new_used),
        survivors(h0, st0, used, stack_base, curr_rsp).contains(a),
        reach_in(h0, used, a, o, n),
    ensures
        survivors(h0, st0, used, stack_base, curr_rsp).contains(o),
        reach_in(
            h1,
            new_used,
            landing(h0, used, survivors(h0, st0, used, stack_base, curr_rsp), a),
            landing(h0, used, survivors(h0, st0, used, stack_base, curr_rsp), o),
            n,
        ),
    decreases n,
{
    let live = survivors(h0, st0, used, stack_base, curr_rsp);
    let s = h0.objs(used);
    if n > 0 {
        let m = choose|m: int|
            h0.is_obj(used, m) && reach_in(h0, used, a, m, (n - 1) as nat) && #[trigger] edge(
                h0,
                m,
                o,
            );
        lemma_reach_moves(h0, st0, used, stack_base, curr_rsp, h1, new_used, a, m, (n - 1) as nat);
        lemma_survivors_closed(h0, st0, used, stack_base, curr_rsp);
        lemma_edge_to_obj(h0, used, m, o);
        assert(live.contains(o));
        let j = choose|j: int|
            0 <= j < h0.len_of(m) && h0.is_ref(#[trigger] h0.payload(m, j)) && h0.target(
                h0.payload(m, j),
            ) == o;
        let w = h0.payload(m, j);
        let km = s.index_of(m);
        assert(s[km] == m);
        assert(copied(h0, h1, used, live, km));
        let dm = landing(h0, used, live, m);
        assert(h0.valid_ref(used, w));
        lemma_relocated_ref(h0, used, live, w);
        assert(h1.payload(dm, j) == relocated(h0, used, live, w));
        assert(h1.is_ref(h1.payload(dm, j)));
        assert(edge(h1, dm, landing(h0, used, live, o)));
        lemma_slid_has(h0.words@, s, live, s.len() as int, km);
        assert(h1.is_obj(new_used, dm));
    }
}

/// After a collection every object is reached from a scanned stack word.
proof fn lemma_all_survive(
    h0: Heap,
    st0: Stack,
    heap_ptr: u64,
    stack_base: u64,
    curr_rsp: u64,
    h1: Heap,
    st1: Stack,
    new_used: int,
    d: int,
)
    requires
        gc_ready(h0, st0, heap_ptr, stack_base, curr_rsp),
        collected(h0, st0, h0.index(heap_ptr), stack_base, curr_rsp, h1, st1, new_used),
        h1.is_obj(new_used, d),
    ensures
        rooted(h1, st1, new_used, stack_base, curr_rsp, d),
{
    let used = h0.index(heap_ptr);
    let live = survivors(h0, st0, used, stack_base, curr_rsp);
    let o = law_only_survivors_kept(h0, st0, heap_ptr, stack_base, curr_rsp, h1, st1, new_used, d);
    let a = choose|a: u64|
        #[trigger] st0.scanned(stack_base, curr_rsp, a) && h0.is_ref(st0.at(a)) && reaches(
            h0,
            used,
            h0.target(st0.at(a)),
            o,
        );
    let t = h0.target(st0.at(a));
    let n = choose|n: nat| reach_in(h0, used, t, o, n);
    lemma_reach_self(h0, used, t);
    assert(h0.valid_ref(used, st0.at(a)));
    assert(rooted(h0, st0, used, stack_base, curr_rsp, t));
    assert(live.contains(t));
    lemma_reach_moves(h0, st0, used, stack_base, curr_rsp, h1, new_used, t, o, n);
    law_roots_preserved(h0, st0, heap_ptr, stack_base, curr_rsp, h1, st1, new_used, a);
    assert(st1.scanned(stack_base, curr_rsp, a));
    assert(reaches(h1, new_used, h1.target(st1.at(a)), d));
}

/// Where every object is kept, every object lands where it is.
proof fn lemma_moved_all(words: Seq<u64>, used: int, s: Seq<int>, live: Set<int>, k: int)
    requires
        is_layout(words, used, s),
        0 <= k <= s.len(),
        forall|i: int| 0 <= i < s.len() ==> live.contains(#[trigger] s[i]),
    ensures
        moved(words, s, live, k) == next_start(s, used, k - 1),
    decreases k,
{
    if k > 0 {
        lemma_moved_all(words, used, s, live, k - 1);
        lemma_next_start(words, 0, used, s, k - 1);
        if k - 1 > 0 {
            lemma_next_start(words, 0, used, s, k - 2);
        }
    }
}

/// Every allocated word lies in an object, at or after index `k`'s start if it
/// is not below it.
proof fn lemma_cover_from(words: Seq<u64>, used: int, s: Seq<int>, p: int, k: int) -> (r: int)
    requires
        is_layout(words, used, s),
        0 <= k < s.len(),
        s[k] <= p < used,
    ensures
        0 <= r < s.len(),
        s[r] <= p < s[r] + size_at(words, s[r]),
    decreases s.len() - k,
{
    lemma_next_start(words, 0, used, s, k);
    if p < s[k] + size_at(words, s[k]) {
        k
    } else {
        lemma_cover_from(words, used, s, p, k + 1)
    }
}

/// Where every object is kept, a valid reference relocates to itself.
proof fn lemma_relocated_same(h: Heap, used: int, live: Set<int>, w: u64)
    requires
        0 <= used,
        h.laid_out(used),
        forall|o: int| h.is_obj(used, o) ==> live.contains(o),
        h.is_ref(w) ==> h.valid_ref(used, w),
    ensures
        relocated(h, used, live, w) == w,
{
    if h.is_ref(w) {
        let s = h.objs(used);
        let t = h.target(w);
        lemma_walk_is_layout(h.words@, 0, used);
        let kt = s.index_of(t);
        assert(s[kt] == t);
        assert forall|i: int| 0 <= i < s.len() implies live.contains(#[trigger] s[i]) by {
            assert(h.is_obj(used, s[i]));
        }
        lemma_moved_all(h.words@, used, s, live, kt);
        if kt > 0 {
            lemma_next_start(h.words@, 0, used, s, kt - 1);
        }
        assert(moved(h.words@, s, live, kt) == t);
    }
}

/// Where every object is kept, compaction leaves each allocated word as it is.
proof fn lemma_second_word(h1: Heap, used: int, live: Set<int>, h2: Heap, new_used: int, p: int)
    requires
        0 <= used,
        h1.ready(used),
        forall|o: int| h1.is_obj(used, o) ==> live.contains(o),
        heap_collected(h1, used, live, h2, new_used),
        0 <= p < used,
    ensures
        h2.words@[p] == h1.words@[p],
{
    let s = h1.objs(used);
    lemma_walk_is_layout(h1.words@, 0, used);
    assert forall|i: int| 0 <= i < s.len() implies live.contains(#[trigger] s[i]) by {
        assert(h1.is_obj(used, s[i]));
    }
    let k = lemma_cover_from(h1.words@, used, s, p, 0);
    let o = s[k];
    lemma_moved_all(h1.words@, used, s, live, k);
    if k > 0 {
        lemma_next_start(h1.words@, 0, used, s, k - 1);
    }
    assert(moved(h1.words@, s, live, k) == o);
    assert(copied(h1, h2, used, live, k));
    assert(h1.is_obj(used, o));
    if p >= o + 2 {
        let j = p - o - 2;
        assert(h2.payload(o, j) == relocated(h1, used, live, h1.payload(o, j)));
        lemma_relocated_same(h1, used, live, h1.payload(o, j));
    }
}

/// Where every object is kept, compaction changes nothing in the heap.
proof fn lemma_second_heap(h1: Heap, used: int, live: Set<int>, h2: Heap, new_used: int)
    requires
        0 <= used,
        h1.ready(used),
        forall|o: int| h1.is_obj(used, o) ==> live.contains(o),
        heap_collected(h1, used, live, h2, new_used),
    ensures
        new_used == used,
        h2.start == h1.start,
        h2.words@ == h1.words@,
{
    let s = h1.objs(used);
    lemma_walk_is_layout(h1.words@, 0, used);
    assert forall|i: int| 0 <= i < s.len() implies live.contains(#[trigger] s[i]) by {
        assert(h1.is_obj(used, s[i]));
    }
    lemma_moved_all(h1.words@, used, s, live, s.len() as int);
    if s.len() > 0 {
        lemma_next_start(h1.words@, 0, used, s, s.len() - 1);
    }
    assert forall|p: int| 0 <= p < h1.words@.len() implies h2.words@[p] == h1.words@[p] by {
        if p < used {
            lemma_second_word(h1, used, live, h2, new_used, p);
        }
    }
    assert(h2.words@ =~= h1.words@);
}

/// Where every object is kept, relocation changes nothing in the stack.
proof fn lemma_second_stack(
    h1: Heap,
    st1: Stack,
    used: int,
    live: Set<int>,
    stack_base: u64,
    curr_rsp: u64,
    st2: Stack,
)
    requires
        0 <= used,
        h1.laid_out(used),
        st1.wf(),
        roots_ok(h1, st1, used, stack_base, curr_rsp),
        forall|o: int| h1.is_obj(used, o) ==> live.contains(o),
        crate::gc::stack_collected(h1, st1, used, live, stack_base, curr_rsp, st2),
    ensures
        st2.base == st1.base,
        st2.words@ == st1.words@,
{
    assert forall|i: int| 0 <= i < st1.words@.len() implies st2.words@[i] == st1.words@[i] by {
        let a = (st1.base - 8 * i) as u64;
        assert(st1.has_slot(a));
        assert(st1.slot(a) == i);
        assert(st2.at(a) == st2.words@[i]);
        if st1.scanned(stack_base, curr_rsp, a) && h1.is_ref(st1.at(a)) {
            lemma_relocated_same(h1, used, live, st1.at(a));
        }
    }
    assert(st2.words@ =~= st1.words@);
}

/// A second collection right after a first, with nothing changed in between,
/// returns the same heap pointer and leaves every word of the heap and of the
/// stack as the first left it.
pub proof fn law_second_collection_changes_nothing(
    h0: Heap,
    st0: Stack,
    heap_ptr: u64,
    stack_base: u64,
    curr_rsp: u64,
    h1: Heap,
    st1: Stack,
    new_heap_ptr: u64,
    h2: Heap,
    st2: Stack,
    new_used2: int,
)
    requires
        gc_ready(h0, st0, heap_ptr, stack_base, curr_rsp),
        h1.has_ptr(new_heap_ptr),
        collected(
            h0,
            st0,
            h0.index(heap_ptr),
            stack_base,
            curr_rsp,
            h1,
            st1,
            h1.index(new_heap_ptr),
        ),
        collected(h1, st1, h1.index(new_heap_ptr), stack_base, curr_rsp, h2, st2, new_used2),
    ensures
        new_used2 == h1.index(new_heap_ptr),
        h2.start == h1.start,
        h2.words@ == h1.words@,
        st2.base == st1.base,
        st2.words@ == st1.words@,
{
    let used1 = h1.index(new_heap_ptr);
    let live1 = survivors(h1, st1, used1, stack_base, curr_rsp);
    assert(gc_ready(h1, st1, new_heap_ptr, stack_base, curr_rsp)) by {
        law_collected_is_ready(h0, st0, heap_ptr, stack_base, curr_rsp, h1, st1, new_heap_ptr);
    }
    assert forall|o: int| h1.is_obj(used1, o) implies live1.contains(o) by {
        lemma_all_survive(h0, st0, heap_ptr, stack_base, curr_rsp, h1, st1, used1, o);
    }
    assert(new_used2 == used1 && h2.start == h1.start && h2.words@ == h1.words@) by {
        lemma_second_heap(h1, used1, live1, h2, new_used2);
    }
    assert(st2.base == st1.base && st2.words@ == st1.words@) by {
        lemma_second_stack(h1, st1, used1, live1, stack_base, curr_rsp, st2);
    }
}

/// The references in `seen`, each relocated.
pub open spec fn relocated_set(h0: Heap, used: int, live: Set<int>, seen: Set<u64>) -> Set<u64> {
    Set::new(
        |w1: u64|
            exists|w0: u64| seen.contains(w0) && #[trigger] relocated(h0, used, live, w0) == w1,
    )
}

/// The word `w` is a value, and if it is a reference, its referent is in `live`.
pub open spec fn kept_value(h0: Heap, used: int, live: Set<int>, w: u64) -> bool {
    &&& is_value(h0, used, w)
    &&& (h0.is_ref(w) ==> live.contains(h0.target(w)))
}

/// Every word in `seen` is a reference to an object in `live`.
pub open spec fn kept_refs(h0: Heap, used: int, live: Set<int>, seen: Set<u64>) -> bool {
    forall|w: u64|
        seen.contains(w) ==> h0.is_ref(w) && h0.valid_ref(used, w) && live.contains(
            h0.target(w),
        )
}

/// `h1` is what a collection that keeps the closed set `live` makes of the
/// tagged heap `h0`.
pub open spec fn kept_heap(h0: Heap, used: int, live: Set<int>, h1: Heap, new_used: int) -> bool {
    &&& 0 <= used
    &&& h0.ready(used)
    &&& tagged(h0, used)
    &&& closed(h0, used, live)
    &&& forall|o: int| live.contains(o) ==> h0.is_obj(used, o)
    &&& heap_collected(h0, used, live, h1, new_used)
}

/// Two kept objects do not land at the same place.
proof fn lemma_landing_differs(h0: Heap, used: int, live: Set<int>, a: int, b: int)
    requires
        0 <= used,
        h0.laid_out(used),
        h0.is_obj(used, a),
        h0.is_obj(used, b),
        live.contains(a),
        live.contains(b),
        landing(h0, used, live, a) == landing(h0, used, live, b),
    ensures
        a == b,
{
    let s = h0.objs(used);
    lemma_walk_is_layout(h0.words@, 0, used);
    let ka = s.index_of(a);
    let kb = s.index_of(b);
    assert(s[ka] == a && s[kb] == b);
    if ka < kb {
        lemma_moved_order(h0.words@, used, s, live, ka, kb);
        assert(s[ka] + 2 <= used);
    } else if kb < ka {
        lemma_moved_order(h0.words@, used, s, live, kb, ka);
        assert(s[kb] + 2 <= used);
    }
}

/// Two references to kept objects that relocate to the same word are the same.
proof fn lemma_relocated_differs(h0: Heap, used: int, live: Set<int>, v: u64, w: u64)
    requires
        0 <= used,
        h0.laid_out(used),
        h0.is_ref(v) && h0.valid_ref(used, v) && live.contains(h0.target(v)),
        h0.is_ref(w) && h0.valid_ref(used, w) && live.contains(h0.target(w)),
        relocated(h0, used, live, v) == relocated(h0, used, live, w),
    ensures
        v == w,
{
    lemma_relocated_ref(h0, used, live, v);
    lemma_relocated_ref(h0, used, live, w);
    lemma_landing_differs(h0, used, live, h0.target(v), h0.target(w));
}

/// A value that is kept has, after the collection, the text that it had
/// before, whatever vectors are being printed.
proof fn lemma_show_kept(
    h0: Heap,
    used: int,
    live: Set<int>,
    h1: Heap,
    new_used: int,
    val: u64,
    seen: Set<u64>,
)
    requires
        kept_heap(h0, used, live, h1, new_used),
        kept_value(h0, used, live, val),
        kept_refs(h0, used, live, seen),
    ensures
        show(h1, new_used, relocated(h0, used, live, val), relocated_set(h0, used, live, seen))
            == show(h0, used, val, seen),
    decreases unseen(h0, used, seen), 0int,
{
    let val1 = relocated(h0, used, live, val);
    let seen1 = relocated_set(h0, used, live, seen);
    if h0.is_ref(val) {
        let t = h0.target(val);
        lemma_relocated_ref(h0, used, live, val);
        assert(h1.is_ref(val1));
        assert(h1.valid_ref(new_used, val1));
        if seen.contains(val) {
            assert(seen1.contains(val1));
        }
        if seen1.contains(val1) {
            let w0 = choose|w0: u64|
                seen.contains(w0) && #[trigger] relocated(h0, used, live, w0) == val1;
            lemma_relocated_differs(h0, used, live, w0, val);
        }
        if !seen.contains(val) {
            let more = seen.insert(val);
            lemma_unseen_insert(h0, used, seen, val);
            assert forall|w1: u64| relocated_set(h0, used, live, more).contains(w1)
                <==> seen1.insert(val1).contains(w1) by {
                if relocated_set(h0, used, live, more).contains(w1) {
                    let w0 = choose|w0: u64|
                        more.contains(w0) && #[trigger] relocated(h0, used, live, w0) == w1;
                    if w0 != val {
                        assert(seen.contains(w0));
                    }
                }
                if seen1.contains(w1) {
                    let w0 = choose|w0: u64|
                        seen.contains(w0) && #[trigger] relocated(h0, used, live, w0) == w1;
                    assert(more.contains(w0));
                }
                if w1 == val1 {
                    assert(more.contains(val));
                }
            }
            assert(relocated_set(h0, used, live, more) =~= seen1.insert(val1));
            lemma_show_elems_kept(h0, used, live, h1, new_used, t, 0, more);
        }
    }
}

/// The payload words of a kept object have, after the collection, the text
/// that they had before.
proof fn lemma_show_elems_kept(
    h0: Heap,
    used: int,
    live: Set<int>,
    h1: Heap,
    new_used: int,
    o: int,
    j: int,
    seen: Set<u64>,
)
    requires
        kept_heap(h0, used, live, h1, new_used),
        live.contains(o),
        0 <= j,
        kept_refs(h0, used, live, seen),
    ensures
        show_elems(
            h1,
            new_used,
            landing(h0, used, live, o),
            j,
            relocated_set(h0, used, live, seen),
        ) == show_elems(h0, used, o, j, seen),
    decreases unseen(h0, used, seen), 1 + h0.len_of(o) - j,
{
    let s = h0.objs(used);
    let k = s.index_of(o);
    assert(h0.is_obj(used, o));
    assert(s[k] == o);
    assert(copied(h0, h1, used, live, k));
    let d = landing(h0, used, live, o);
    assert(h1.len_of(d) == h0.len_of(o));
    if j < h0.len_of(o) {
        let w = h0.payload(o, j);
        assert(is_value(h0, used, w));
        assert(h1.payload(d, j) == relocated(h0, used, live, w));
        if h0.is_ref(w) {
            assert(edge(h0, o, h0.target(w)));
        }
        lemma_show_kept(h0, used, live, h1, new_used, w, seen);
        lemma_show_elems_kept(h0, used, live, h1, new_used, o, j + 1, seen);
    }
}

/// A collection does not change what a program prints: a value whose referent,
/// if it has one, is reached from a scanned stack word has the same text
/// after the collection, once relocated, as before it.
pub proof fn law_collection_keeps_the_text(
    h0: Heap,
    st0: Stack,
    heap_ptr: u64,
    stack_base: u64,
    curr_rsp: u64,
    h1: Heap,
    st1: Stack,
    new_used: int,
    val: u64,
)
    requires
        gc_ready(h0, st0, heap_ptr, stack_base, curr_rsp),
        tagged(h0, h0.index(heap_ptr)),
        collected(h0, st0, h0.index(heap_ptr), stack_base, curr_rsp, h1, st1, new_used),
        is_value(h0, h0.index(heap_ptr), val),
        h0.is_ref(val) ==> rooted(
            h0,
            st0,
            h0.index(heap_ptr),
            stack_base,
            curr_rsp,
            h0.target(val),
        ),
    ensures
        show(
            h1,
            new_used,
            relocated(
                h0,
                h0.index(heap_ptr),
                survivors(h0, st0, h0.index(heap_ptr), stack_base, curr_rsp),
                val,
            ),
            Set::empty(),
        ) == show(h0, h0.index(heap_ptr), val, Set::empty()),
{
    let used = h0.index(heap_ptr);
    let live = survivors(h0, st0, used, stack_base, curr_rsp);
    let none = Set::<u64>::empty();
    lemma_survivors_closed(h0, st0, used, stack_base, curr_rsp);
    assert(relocated_set(h0, used, live, none) =~= none);
    lemma_show_kept(h0, used, live, h1, new_used, val, none);
}

/// After a collection the heap may be printed from: every payload word is a
/// value, and so is the relocated form of a value whose referent was reached.
pub proof fn law_collected_is_printable(
    h0: Heap,
    st0: Stack,
    heap_ptr: u64,
    stack_base: u64,
    curr_rsp: u64,
    h1: Heap,
    st1: Stack,
    new_used: int,
    val: u64,
)
    requires
        gc_ready(h0, st0, heap_ptr, stack_base, curr_rsp),
        tagged(h0, h0.index(heap_ptr)),
        collected(h0, st0, h0.index(heap_ptr), stack_base, curr_rsp, h1, st1, new_used),
        is_value(h0, h0.index(heap_ptr), val),
        h0.is_ref(val) ==> rooted(
            h0,
            st0,
            h0.index(heap_ptr),
            stack_base,
            curr_rsp,
            h0.target(val),
        ),
    ensures
        h1.laid_out(new_used),
        tagged(h1, new_used),
        is_value(
            h1,
            new_used,
            relocated(
                h0,
                h0.index(heap_ptr),
                survivors(h0, st0, h0.index(heap_ptr), stack_base, curr_rsp),
                val,
            ),
        ),
{
    let used = h0.index(heap_ptr);
    let live = survivors(h0, st0, used, stack_base, curr_rsp);
    let s = h0.objs(used);
    lemma_survivors_closed(h0, st0, used, stack_base, curr_rsp);
    lemma_walk_is_layout(h0.words@, 0, used);
    if h0.is_ref(val) {
        lemma_relocated_ref(h0, used, live, val);
    }
    assert forall|d: int, j: int| h1.is_obj(new_used, d) && 0 <= j < h1.len_of(d) implies is_value(
        h1,
        new_used,
        #[trigger] h1.payload(d, j),
    ) by {
        let k = lemma_slid_from(h0.words@, s, live, s.len() as int, d);
        assert(copied(h0, h1, used, live, k));
        let o = s[k];
        let w = h0.payload(o, j);
        assert(h0.is_obj(used, o));
        assert(is_value(h0, used, w));
        assert(h1.payload(d, j) == relocated(h0, used, live, w));
        if h0.is_ref(w) {
            assert(edge(h0, o, h0.target(w)));
            lemma_relocated_ref(h0, used, live, w);
        }
    }
}

} // verus!
