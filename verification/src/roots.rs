//! The root scanner: which stack slots hold heap references.

use crate::graph::reaches;
use crate::memory::{is_heap_obj, Heap, Stack};
use vstd::prelude::*;

verus! {

/// `o` is reached from a reference held in one of the slots listed in `roots`.
pub open spec fn reached_from(h: Heap, st: Stack, used: int, roots: Seq<u64>, o: int) -> bool {
    exists|i: int|
        0 <= i < roots.len() && reaches(h, used, h.target(st.at(#[trigger] roots[i])), o)
}

/// `o` is reached from a reference held in a stack word between `stack_base`
/// and `curr_rsp`.
pub open spec fn rooted(h: Heap, st: Stack, used: int, stack_base: u64, curr_rsp: u64, o: int) -> bool {
    exists|a: u64|
        #[trigger] st.scanned(stack_base, curr_rsp, a) && h.is_ref(st.at(a)) && reaches(
            h,
            used,
            h.target(st.at(a)),
            o,
        )
}

/// What the first `i + 1` roots reach is what the first `i` reach and what the
/// next one reaches.
pub proof fn lemma_reached_from_next(h: Heap, st: Stack, used: int, roots: Seq<u64>, i: int, o: int)
    requires
        0 <= i < roots.len(),
    ensures
        reached_from(h, st, used, roots.subrange(0, i + 1), o) <==> reached_from(
            h,
            st,
            used,
            roots.subrange(0, i),
            o,
        ) || reaches(h, used, h.target(st.at(roots[i])), o),
{
    let done = roots.subrange(0, i);
    let next = roots.subrange(0, i + 1);
    if reached_from(h, st, used, done, o) {
        let k = choose|k: int|
            0 <= k < done.len() && reaches(h, used, h.target(st.at(#[trigger] done[k])), o);
        assert(next[k] == done[k]);
    }
    if reaches(h, used, h.target(st.at(roots[i])), o) {
        assert(next[i] == roots[i]);
    }
    if reached_from(h, st, used, next, o) {
        let k = choose|k: int|
            0 <= k < next.len() && reaches(h, used, h.target(st.at(#[trigger] next[k])), o);
        if k < i {
            assert(done[k] == next[k]);
        }
    }
}

/// `roots` lists, from the highest address down, exactly the addresses of the
/// words between `stack_base` and `curr_rsp` that hold a heap reference.
pub open spec fn is_root_list(h: Heap, st: Stack, stack_base: u64, curr_rsp: u64, roots: Seq<u64>) -> bool {
    &&& forall|a: u64|
        roots.contains(a) <==> #[trigger] st.scanned(stack_base, curr_rsp, a) && h.is_ref(st.at(a))
    &&& forall|i: int, j: int| 0 <= i < j < roots.len() ==> #[trigger] roots[i] > #[trigger] roots[j]
}

/// Walks the stack from `stack_base` down to `curr_rsp`, both included, and
/// returns the addresses of the words that hold a heap reference. The frame
/// pointer `curr_rbp` is accepted and not consulted.
pub fn find_stack_roots(
    heap: &Heap,
    stack: &Stack,
    stack_base: u64,
    curr_rbp: u64,
    curr_rsp: u64,
) -> (roots: Vec<u64>)
    requires
        heap.wf(),
        stack.spans(stack_base, curr_rsp),
    ensures
        is_root_list(*heap, *stack, stack_base, curr_rsp, roots@),
{
    let mut roots: Vec<u64> = Vec::new();
    if curr_rsp > stack_base {
        return roots;
    }
    let count: u64 = (stack_base - curr_rsp) / 8 + 1;
    let mut i: u64 = 0;
    while i < count
        invariant
            heap.wf(),
            curr_rsp <= stack_base,
            stack.has_slot(stack_base),
            stack.has_slot(curr_rsp),
            count == (stack_base - curr_rsp) / 8 + 1,
            i <= count,
            forall|a: u64|
                roots@.contains(a) <==> #[trigger] stack.scanned(stack_base, curr_rsp, a) && a
                    > stack_base - 8 * i && heap.is_ref(stack.at(a)),
            forall|k: int, j: int|
                0 <= k < j < roots@.len() ==> #[trigger] roots@[k] > #[trigger] roots@[j],
        decreases count - i,
    {
        let addr: u64 = stack_base - 8 * i;
        let ghost before = roots@;
        let val: u64 = stack.read(addr);
        if is_heap_obj(heap, val) {
            assert forall|k: int| 0 <= k < before.len() implies #[trigger] before[k] > addr by {
                assert(before.contains(before[k]));
                assert(stack.scanned(stack_base, curr_rsp, before[k]));
            }
            roots.push(addr);
            assert(roots@.last() == addr);
            assert forall|a: u64| roots@.contains(a) <==> before.contains(a) || a == addr by {
                if before.contains(a) {
                    let k = choose|k: int| 0 <= k < before.len() && before[k] == a;
                    assert(roots@[k] == a);
                }
            }
        }
        assert forall|a: u64| stack.scanned(stack_base, curr_rsp, a) implies (a > stack_base - 8 * (i
            + 1) <==> a > stack_base - 8 * i || a == addr) by {}
        i += 1;
    }
    assert forall|a: u64| stack.scanned(stack_base, curr_rsp, a) implies a > stack_base - 8
        * count by {}
    roots
}

} // verus!
