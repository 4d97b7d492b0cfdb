//! The object graph: which object refers to which, and what a root reaches.

use crate::layout::{is_layout, lemma_inside_is_no_start, lemma_layout_frame, lemma_walk_is_layout};
use crate::memory::{same_bodies, Heap};
use vstd::prelude::*;

verus! {

/// Some payload word of the object at `a` is a reference to the object at `b`.
pub open spec fn edge(h: Heap, a: int, b: int) -> bool {
    exists|j: int|
        0 <= j < h.len_of(a) && h.is_ref(#[trigger] h.payload(a, j)) && h.target(h.payload(a, j))
            == b
}

/// `o` is reached from `a` by following exactly `n` references between objects.
pub open spec fn reach_in(h: Heap, used: int, a: int, o: int, n: nat) -> bool
    decreases n,
{
    if n == 0 {
        o == a
    } else {
        exists|m: int|
            h.is_obj(used, m) && reach_in(h, used, a, m, (n - 1) as nat) && #[trigger] edge(h, m, o)
    }
}

/// `o` is `a` itself or is reached from `a` by following references.
pub open spec fn reaches(h: Heap, used: int, a: int, o: int) -> bool {
    exists|n: nat| reach_in(h, used, a, o, n)
}

/// No object in `m` refers to an object outside `m`.
pub open spec fn closed(h: Heap, used: int, m: Set<int>) -> bool {
    forall|a: int, b: int| m.contains(a) && h.is_obj(used, a) && #[trigger] edge(h, a, b) ==> m.contains(b)
}

/// Following one more reference from a reached object reaches its referent.
pub proof fn lemma_reach_step(h: Heap, used: int, a: int, m: int, o: int)
    requires
        reaches(h, used, a, m),
        h.is_obj(used, m),
        edge(h, m, o),
    ensures
        reaches(h, used, a, o),
{
    let n = choose|n: nat| reach_in(h, used, a, m, n);
    assert(reach_in(h, used, a, o, n + 1));
}

/// Every object reaches itself.
pub proof fn lemma_reach_self(h: Heap, used: int, a: int)
    ensures
        reaches(h, used, a, a),
{
    assert(reach_in(h, used, a, a, 0));
}

/// A closed set that holds `a` holds all that `a` reaches.
pub proof fn lemma_closed_holds_reached(h: Heap, used: int, m: Set<int>, a: int, o: int, n: nat)
    requires
        closed(h, used, m),
        m.contains(a),
        reach_in(h, used, a, o, n),
    ensures
        m.contains(o),
    decreases n,
{
    if n > 0 {
        let p = choose|p: int|
            h.is_obj(used, p) && reach_in(h, used, a, p, (n - 1) as nat) && #[trigger] edge(h, p, o);
        lemma_closed_holds_reached(h, used, m, a, p, (n - 1) as nat);
    }
}

/// In a heap whose references are valid, an object refers only to objects.
pub proof fn lemma_edge_to_obj(h: Heap, used: int, a: int, b: int)
    requires
        h.refs_ok(used),
        h.is_obj(used, a),
        edge(h, a, b),
    ensures
        h.is_obj(used, b),
{
    let j = choose|j: int|
        0 <= j < h.len_of(a) && h.is_ref(#[trigger] h.payload(a, j)) && h.target(h.payload(a, j))
            == b;
    assert(h.valid_ref(used, h.payload(a, j)));
}

/// Heaps that differ only in mark words have the same objects.
pub proof fn lemma_same_bodies_layout(a: Heap, b: Heap, used: int)
    requires
        a.laid_out(used),
        0 <= used,
        same_bodies(a, b, used),
    ensures
        b.laid_out(used),
        b.objs(used) == a.objs(used),
        is_layout(a.words@, used, a.objs(used)),
        is_layout(b.words@, used, a.objs(used)),
{
    let s = a.objs(used);
    lemma_walk_is_layout(a.words@, 0, used);
    assert forall|k: int| 0 <= k < s.len() implies a.words@[#[trigger] s[k] + 1] == b.words@[s[k]
        + 1] by {
        lemma_inside_is_no_start(a.words@, used, s, k, s[k] + 1);
    }
    lemma_layout_frame(a.words@, b.words@, used, s);
}

/// Heaps that differ only in mark words have the same references out of each object.
pub proof fn lemma_same_bodies_edge(a: Heap, b: Heap, used: int, m: int, o: int)
    requires
        a.laid_out(used),
        0 <= used,
        same_bodies(a, b, used),
        a.is_obj(used, m),
    ensures
        edge(a, m, o) == edge(b, m, o),
{
    let s = a.objs(used);
    lemma_walk_is_layout(a.words@, 0, used);
    let k = choose|k: int| 0 <= k < s.len() && s[k] == m;
    lemma_inside_is_no_start(a.words@, used, s, k, m + 1);
    assert(a.len_of(m) == b.len_of(m));
    assert forall|j: int| 0 <= j < a.len_of(m) implies a.payload(m, j) == b.payload(m, j) by {
        lemma_inside_is_no_start(a.words@, used, s, k, m + 2 + j);
    }
    if edge(a, m, o) {
        let j = choose|j: int|
            0 <= j < a.len_of(m) && a.is_ref(#[trigger] a.payload(m, j)) && a.target(a.payload(m, j))
                == o;
        assert(b.is_ref(b.payload(m, j)));
    }
    if edge(b, m, o) {
        let j = choose|j: int|
            0 <= j < b.len_of(m) && b.is_ref(#[trigger] b.payload(m, j)) && b.target(b.payload(m, j))
                == o;
        assert(a.payload(m, j) == b.payload(m, j));
        assert(a.is_ref(a.payload(m, j)));
    }
}

/// Heaps that differ only in mark words have the same reachability.
pub proof fn lemma_same_bodies_reach(a: Heap, b: Heap, used: int, x: int, o: int, n: nat)
    requires
        a.laid_out(used),
        0 <= used,
        same_bodies(a, b, used),
    ensures
        reach_in(a, used, x, o, n) == reach_in(b, used, x, o, n),
    decreases n,
{
    assert(b.objs(used) == a.objs(used)) by {
        lemma_same_bodies_layout(a, b, used);
    }
    if n > 0 {
        if reach_in(a, used, x, o, n) {
            let m = choose|m: int|
                a.is_obj(used, m) && reach_in(a, used, x, m, (n - 1) as nat) && #[trigger] edge(
                    a,
                    m,
                    o,
                );
            lemma_same_bodies_reach(a, b, used, x, m, (n - 1) as nat);
            lemma_same_bodies_edge(a, b, used, m, o);
            assert(b.is_obj(used, m) && reach_in(b, used, x, m, (n - 1) as nat) && edge(b, m, o));
        }
        if reach_in(b, used, x, o, n) {
            let m = choose|m: int|
                b.is_obj(used, m) && reach_in(b, used, x, m, (n - 1) as nat) && #[trigger] edge(
                    b,
                    m,
                    o,
                );
            lemma_same_bodies_reach(a, b, used, x, m, (n - 1) as nat);
            lemma_same_bodies_edge(a, b, used, m, o);
            assert(a.is_obj(used, m) && reach_in(a, used, x, m, (n - 1) as nat) && edge(a, m, o));
        }
    }
}

/// Heaps that differ only in mark words have the same `reaches` relation.
pub proof fn lemma_same_bodies_reaches(a: Heap, b: Heap, used: int, x: int, o: int)
    requires
        a.laid_out(used),
        0 <= used,
        same_bodies(a, b, used),
    ensures
        reaches(a, used, x, o) == reaches(b, used, x, o),
{
    if reaches(a, used, x, o) {
        let n = choose|n: nat| reach_in(a, used, x, o, n);
        lemma_same_bodies_reach(a, b, used, x, o, n);
    }
    if reaches(b, used, x, o) {
        let n = choose|n: nat| reach_in(b, used, x, o, n);
        lemma_same_bodies_reach(a, b, used, x, o, n);
    }
}

/// Heaps that differ only in mark words are alike in the validity of their references.
pub proof fn lemma_same_bodies_refs(a: Heap, b: Heap, used: int)
    requires
        a.laid_out(used),
        a.refs_ok(used),
        0 <= used,
        same_bodies(a, b, used),
    ensures
        b.refs_ok(used),
{
    let s = a.objs(used);
    lemma_same_bodies_layout(a, b, used);
    assert forall|o: int, j: int|
        b.is_obj(used, o) && 0 <= j < b.len_of(o) && b.is_ref(
            #[trigger] b.payload(o, j),
        ) implies b.valid_ref(used, b.payload(o, j)) by {
        let k = choose|k: int| 0 <= k < s.len() && s[k] == o;
        lemma_inside_is_no_start(a.words@, used, s, k, o + 1);
        lemma_inside_is_no_start(a.words@, used, s, k, o + 2 + j);
        assert(a.payload(o, j) == b.payload(o, j));
        assert(a.valid_ref(used, a.payload(o, j)));
    }
}

} // verus!
