//! Deciding whether a heap and a stack are fit for a collection.

use crate::compact::lemma_layout_push;
use crate::gc::{gc_ready, roots_ok};
use crate::layout::{
    fits, is_layout, lemma_layout_is_walk, lemma_next_start, lemma_obj_bounds, lemma_walk_is_layout,
    next_start, tiled, tiled_from,
};
use crate::memory::{is_heap_obj, Heap, Stack, FALSE, NIL, TRUE};
use crate::print::{is_value, tagged};
use vstd::prelude::*;

verus! {

/// `starts` tells of each of the first `used` word indices whether an object
/// starts there.
pub open spec fn marks_starts(h: Heap, used: int, starts: Seq<bool>) -> bool {
    &&& starts.len() == used
    &&& forall|i: int| 0 <= i < used ==> #[trigger] starts[i] == h.is_obj(used, i)
}

/// Whether the region is word aligned, does not start below address 8, and ends
/// at least one word below the highest address.
pub fn heap_is_wf(heap: &Heap) -> (b: bool)
    ensures
        b == heap.wf(),
{
    let n: usize = heap.words.len();
    if heap.start < 8 || heap.start % 8 != 0 || heap.start > u64::MAX - 8 {
        return false;
    }
    let room: u64 = (u64::MAX - 8 - heap.start) / 8;
    n as u64 <= room
}

/// Whether the region is addressable and `ptr` is the address of one of its
/// words or of its end.
pub fn ptr_in_heap(heap: &Heap, ptr: u64) -> (b: bool)
    ensures
        b == (heap.wf() && heap.has_ptr(ptr)),
{
    if !heap_is_wf(heap) {
        return false;
    }
    let end: u64 = heap.end_addr();
    ptr >= heap.start && ptr <= end && (ptr - heap.start) % 8 == 0
}

/// Walks the first `limit` words as a run of objects. Returns, if they are
/// one, for each word index whether an object starts there.
pub fn find_starts(heap: &Heap, limit: usize) -> (r: Option<Vec<bool>>)
    requires
        limit <= heap.words@.len(),
    ensures
        r is Some <==> tiled(heap.words@, limit as int),
        r matches Some(starts) ==> marks_starts(*heap, limit as int, starts@),
{
    let ghost words = heap.words@;
    let ghost used = limit as int;
    let mut starts: Vec<bool> = Vec::new();
    let mut i: usize = 0;
    while i < limit
        invariant
            i <= limit,
            starts@.len() == i,
            forall|p: int| 0 <= p < i ==> !starts@[p],
        decreases limit - i,
    {
        starts.push(false);
        i += 1;
    }
    let mut at: usize = 0;
    let ghost mut seen: Seq<int> = Seq::empty();
    while at < limit
        invariant
            words == heap.words@,
            used == limit,
            limit <= words.len(),
            at <= limit,
            starts@.len() == limit,
            is_layout(words, at as int, seen),
            tiled_from(words, 0, used) == tiled_from(words, at as int, used),
            forall|p: int| 0 <= p < limit ==> #[trigger] starts@[p] == seen.contains(p),
        decreases limit - at,
    {
        if limit - at < 2 {
            return None;
        }
        let len: u64 = heap.words[at + 1];
        if len > (limit - at - 2) as u64 {
            return None;
        }
        let size: usize = 2 + len as usize;
        proof {
            assert(fits(words, at as int, used));
            lemma_layout_push(words, at as int, seen);
            let grown = seen.push(at as int);
            assert forall|p: int| grown.contains(p) <==> seen.contains(p) || p == at by {
                if seen.contains(p) {
                    let k = choose|k: int| 0 <= k < seen.len() && seen[k] == p;
                    assert(grown[k] == p);
                }
                assert(grown[seen.len() as int] == at);
                if grown.contains(p) {
                    let k = choose|k: int| 0 <= k < grown.len() && grown[k] == p;
                    if k < seen.len() {
                        assert(seen[k] == p);
                    }
                }
            }
            seen = grown;
        }
        starts[at] = true;
        at = at + size;
    }
    proof {
        lemma_layout_is_walk(words, 0, used, seen);
    }
    Some(starts)
}

/// Whether the heap reference `w` is word aligned and points to the start of
/// an object.
pub fn ref_is_valid(heap: &Heap, limit: usize, starts: &Vec<bool>, w: u64) -> (b: bool)
    requires
        heap.laid_out(limit as int),
        heap.is_ref(w),
        marks_starts(*heap, limit as int, starts@),
    ensures
        b == heap.valid_ref(limit as int, w),
{
    if (w - 1 - heap.start) % 8 != 0 {
        return false;
    }
    let t: usize = heap.word_index(w - 1);
    proof {
        if heap.is_obj(limit as int, t as int) {
            lemma_obj_bounds(heap.words@, limit as int, t as int);
        }
    }
    t < limit && starts[t]
}

/// Whether every mark word is 0 and every payload word that passes the
/// reference test points to an object.
pub fn objects_sound(heap: &Heap, limit: usize, starts: &Vec<bool>) -> (b: bool)
    requires
        heap.laid_out(limit as int),
        marks_starts(*heap, limit as int, starts@),
    ensures
        b == (heap.marks_clear(limit as int) && heap.refs_ok(limit as int)),
{
    let ghost used = limit as int;
    let ghost s = heap.objs(used);
    proof {
        lemma_walk_is_layout(heap.words@, 0, used);
    }
    let mut at: usize = 0;
    let ghost mut k: int = 0;
    while at < limit
        invariant
            heap.laid_out(used),
            used == limit,
            marks_starts(*heap, used, starts@),
            s == heap.objs(used),
            is_layout(heap.words@, used, s),
            0 <= k <= s.len(),
            at == next_start(s, used, k - 1),
            at <= limit,
            forall|i: int| 0 <= i < k ==> heap.words@[#[trigger] s[i]] == 0,
            forall|i: int, j: int|
                0 <= i < k && 0 <= j < heap.len_of(s[i]) && heap.is_ref(
                    #[trigger] heap.payload(s[i], j),
                ) ==> heap.valid_ref(used, heap.payload(s[i], j)),
        decreases limit - at,
    {
        proof {
            if k == 0 {
                assert(s.len() > 0);
            } else {
                lemma_next_start(heap.words@, 0, used, s, k - 1);
            }
            assert(s[k] == at);
            assert(heap.is_obj(used, at as int));
            lemma_next_start(heap.words@, 0, used, s, k);
        }
        if heap.words[at] != 0 {
            return false;
        }
        let n: usize = heap.obj_len(Ghost(used), at);
        let mut j: usize = 0;
        while j < n
            invariant
                heap.laid_out(used),
                used == limit,
                marks_starts(*heap, used, starts@),
                heap.is_obj(used, at as int),
                j <= n,
                n == heap.len_of(at as int),
                at + 2 + n <= used <= heap.words@.len() <= usize::MAX,
                forall|j2: int|
                    0 <= j2 < j && heap.is_ref(#[trigger] heap.payload(at as int, j2))
                        ==> heap.valid_ref(used, heap.payload(at as int, j2)),
            decreases n - j,
        {
            let w: u64 = heap.words[at + 2 + j];
            assert(w == heap.payload(at as int, j as int));
            if is_heap_obj(heap, w) {
                if !ref_is_valid(heap, limit, starts, w) {
                    return false;
                }
            }
            j += 1;
        }
        at = at + 2 + n;
        proof {
            k = k + 1;
        }
    }
    proof {
        assert(k == s.len());
        assert forall|o: int| heap.is_obj(used, o) implies #[trigger] heap.words@[o] == 0 by {
            let i = choose|i: int| 0 <= i < s.len() && s[i] == o;
        }
        assert forall|o: int, j: int|
            heap.is_obj(used, o) && 0 <= j < heap.len_of(o) && heap.is_ref(
                #[trigger] heap.payload(o, j),
            ) implies heap.valid_ref(used, heap.payload(o, j)) by {
            let i = choose|i: int| 0 <= i < s.len() && s[i] == o;
            assert(heap.payload(s[i], j) == heap.payload(o, j));
        }
    }
    true
}

/// Whether the stretch from `stack_base` down to `curr_rsp` lies in the stack
/// and no slot of the stack lies below address 0.
pub fn stack_spans(stack: &Stack, stack_base: u64, curr_rsp: u64) -> (b: bool)
    ensures
        b == (stack.wf() && stack.spans(stack_base, curr_rsp)),
{
    let n: usize = stack.words.len();
    if n as u64 > stack.base / 8 + 1 {
        return false;
    }
    if curr_rsp > stack_base {
        return true;
    }
    if stack_base > stack.base || (stack.base - stack_base) % 8 != 0 {
        return false;
    }
    if (stack.base - curr_rsp) % 8 != 0 {
        return false;
    }
    (stack.base - curr_rsp) / 8 < n as u64
}

/// Whether every word from `stack_base` down to `curr_rsp` that passes the
/// reference test points to an object.
pub fn roots_sound(
    heap: &Heap,
    stack: &Stack,
    limit: usize,
    starts: &Vec<bool>,
    stack_base: u64,
    curr_rsp: u64,
) -> (b: bool)
    requires
        heap.laid_out(limit as int),
        marks_starts(*heap, limit as int, starts@),
        stack.spans(stack_base, curr_rsp),
    ensures
        b == roots_ok(*heap, *stack, limit as int, stack_base, curr_rsp),
{
    if curr_rsp > stack_base {
        return true;
    }
    let count: u64 = (stack_base - curr_rsp) / 8 + 1;
    let mut i: u64 = 0;
    while i < count
        invariant
            heap.laid_out(limit as int),
            marks_starts(*heap, limit as int, starts@),
            curr_rsp <= stack_base,
            stack.has_slot(stack_base),
            stack.has_slot(curr_rsp),
            count == (stack_base - curr_rsp) / 8 + 1,
            i <= count,
            forall|a: u64|
                #[trigger] stack.scanned(stack_base, curr_rsp, a) && a > stack_base - 8 * i
                    && heap.is_ref(stack.at(a)) ==> heap.valid_ref(limit as int, stack.at(a)),
        decreases count - i,
    {
        let addr: u64 = stack_base - 8 * i;
        assert(stack.scanned(stack_base, curr_rsp, addr));
        let val: u64 = stack.read(addr);
        if is_heap_obj(heap, val) {
            if !ref_is_valid(heap, limit, starts, val) {
                return false;
            }
        }
        assert forall|a: u64| stack.scanned(stack_base, curr_rsp, a) implies (a > stack_base - 8
            * (i + 1) <==> a > stack_base - 8 * i || a == addr) by {}
        i += 1;
    }
    assert forall|a: u64| stack.scanned(stack_base, curr_rsp, a) implies a > stack_base - 8
        * count by {}
    true
}

/// Whether a collection may be run on this heap and stack: whether they meet
/// what `snek_gc` requires.
pub fn check_ready(heap: &Heap, stack: &Stack, heap_ptr: u64, stack_base: u64, curr_rsp: u64) -> (b:
    bool)
    ensures
        b == gc_ready(*heap, *stack, heap_ptr, stack_base, curr_rsp),
{
    if !ptr_in_heap(heap, heap_ptr) {
        return false;
    }
    let limit: usize = heap.word_index(heap_ptr);
    match find_starts(heap, limit) {
        None => false,
        Some(starts) => {
            objects_sound(heap, limit, &starts) && stack_spans(stack, stack_base, curr_rsp)
                && roots_sound(heap, stack, limit, &starts, stack_base, curr_rsp)
        },
    }
}

/// Whether the word `w` encodes a value: an integer, a constant, or a
/// reference to an object.
pub fn word_is_value(heap: &Heap, limit: usize, starts: &Vec<bool>, w: u64) -> (b: bool)
    requires
        heap.laid_out(limit as int),
        marks_starts(*heap, limit as int, starts@),
    ensures
        b == is_value(*heap, limit as int, w),
{
    if w % 2 == 0 || w == TRUE || w == FALSE || w == NIL {
        return true;
    }
    is_heap_obj(heap, w) && ref_is_valid(heap, limit, starts, w)
}

/// Whether every payload word encodes a value.
pub fn payloads_tagged(heap: &Heap, limit: usize, starts: &Vec<bool>) -> (b: bool)
    requires
        heap.laid_out(limit as int),
        marks_starts(*heap, limit as int, starts@),
    ensures
        b == tagged(*heap, limit as int),
{
    let ghost used = limit as int;
    let ghost s = heap.objs(used);
    proof {
        lemma_walk_is_layout(heap.words@, 0, used);
    }
    let mut at: usize = 0;
    let ghost mut k: int = 0;
    while at < limit
        invariant
            heap.laid_out(used),
            used == limit,
            marks_starts(*heap, used, starts@),
            s == heap.objs(used),
            is_layout(heap.words@, used, s),
            0 <= k <= s.len(),
            at == next_start(s, used, k - 1),
            at <= limit,
            forall|i: int, j: int|
                0 <= i < k && 0 <= j < heap.len_of(s[i]) ==> is_value(
                    *heap,
                    used,
                    #[trigger] heap.payload(s[i], j),
                ),
        decreases limit - at,
    {
        proof {
            if k == 0 {
                assert(s.len() > 0);
            } else {
                lemma_next_start(heap.words@, 0, used, s, k - 1);
            }
            assert(s[k] == at);
            assert(heap.is_obj(used, at as int));
            lemma_next_start(heap.words@, 0, used, s, k);
        }
        let n: usize = heap.obj_len(Ghost(used), at);
        let mut j: usize = 0;
        while j < n
            invariant
                heap.laid_out(used),
                used == limit,
                marks_starts(*heap, used, starts@),
                heap.is_obj(used, at as int),
                j <= n,
                n == heap.len_of(at as int),
                at + 2 + n <= used <= heap.words@.len() <= usize::MAX,
                forall|j2: int|
                    0 <= j2 < j ==> is_value(*heap, used, #[trigger] heap.payload(at as int, j2)),
            decreases n - j,
        {
            let w: u64 = heap.words[at + 2 + j];
            assert(w == heap.payload(at as int, j as int));
            if !word_is_value(heap, limit, starts, w) {
                return false;
            }
            j += 1;
        }
        at = at + 2 + n;
        proof {
            k = k + 1;
        }
    }
    proof {
        assert(k == s.len());
        assert forall|o: int, j: int|
            heap.is_obj(used, o) && 0 <= j < heap.len_of(o) implies is_value(
            *heap,
            used,
            #[trigger] heap.payload(o, j),
        ) by {
            let i = choose|i: int| 0 <= i < s.len() && s[i] == o;
            assert(heap.payload(s[i], j) == heap.payload(o, j));
        }
    }
    true
}

/// Whether the value `val` may be printed from this heap: whether they meet
/// what `snek_print` requires.
pub fn check_printable(heap: &Heap, heap_ptr: u64, val: u64) -> (b: bool)
    ensures
        b == (heap.has_ptr(heap_ptr) && heap.laid_out(heap.index(heap_ptr)) && tagged(
            *heap,
            heap.index(heap_ptr),
        ) && is_value(*heap, heap.index(heap_ptr), val)),
{
    if !ptr_in_heap(heap, heap_ptr) {
        return false;
    }
    let limit: usize = heap.word_index(heap_ptr);
    match find_starts(heap, limit) {
        None => false,
        Some(starts) => {
            payloads_tagged(heap, limit, &starts) && word_is_value(heap, limit, &starts, val)
        },
    }
}

} // verus!
