//! The text of a value: `true`, `false`, `nil`, a decimal integer, or a
//! bracketed list of elements, with `[...]` where a vector contains itself.

use crate::layout::lemma_obj_bounds;
use crate::memory::{Heap, FALSE, NIL, TRUE};
use crate::text::{decimal, numeral, push_numeral};
use std::collections::HashSet;
use vstd::prelude::*;
use vstd::string::StringExecFns;

verus! {

/// The integer that the even word `w` encodes: the word as a signed number,
/// halved.
pub open spec fn int_value(w: u64) -> int {
    if w < 0x8000_0000_0000_0000 {
        (w / 2) as int
    } else {
        (w - 0x1_0000_0000_0000_0000) / 2
    }
}

/// The word `w` encodes a value of the heap `h`: an integer, a constant, or a
/// reference to an object.
pub open spec fn is_value(h: Heap, used: int, w: u64) -> bool {
    ||| w % 2 == 0
    ||| w == TRUE
    ||| w == FALSE
    ||| w == NIL
    ||| (h.is_ref(w) && h.valid_ref(used, w))
}

/// Every payload word of the heap encodes a value.
pub open spec fn tagged(h: Heap, used: int) -> bool {
    forall|o: int, j: int|
        h.is_obj(used, o) && 0 <= j < h.len_of(o) ==> is_value(h, used, #[trigger] h.payload(o, j))
}

/// The objects whose reference is not in `seen`.
pub open spec fn unseen_set(h: Heap, used: int, seen: Set<u64>) -> Set<int> {
    Set::new(|o: int| h.is_obj(used, o) && !seen.contains(h.ref_to(o) as u64))
}

/// The number of objects whose reference is not in `seen`.
pub open spec fn unseen(h: Heap, used: int, seen: Set<u64>) -> nat {
    unseen_set(h, used, seen).len()
}

/// Entering a vector that is not being printed leaves fewer vectors to enter.
pub proof fn lemma_unseen_insert(h: Heap, used: int, seen: Set<u64>, val: u64)
    requires
        0 <= used,
        h.laid_out(used),
        h.is_ref(val),
        h.valid_ref(used, val),
        !seen.contains(val),
    ensures
        unseen(h, used, seen.insert(val)) < unseen(h, used, seen),
{
    let a = unseen_set(h, used, seen);
    let b = unseen_set(h, used, seen.insert(val));
    let o = h.target(val);
    let s = h.objs(used);
    assert(h.ref_to(o) == val);
    assert(a.contains(o));
    assert forall|x: int| b.contains(x) <==> a.remove(o).contains(x) by {
        if h.is_obj(used, x) {
            lemma_obj_bounds(h.words@, used, x);
        }
    }
    assert(b =~= a.remove(o));
    assert(a.subset_of(s.to_set()));
    vstd::seq_lib::seq_to_set_is_finite(s);
    vstd::set_lib::lemma_len_subset(a, s.to_set());
}

/// The text of the value `val` while the vectors whose references are in
/// `seen` are being printed: such a vector is shown as `[...]`.
pub open spec fn show(h: Heap, used: int, val: u64, seen: Set<u64>) -> Seq<char>
    decreases unseen(h, used, seen), 0int,
{
    if val == TRUE {
        "true"@
    } else if val == FALSE {
        "false"@
    } else if val % 2 == 0 {
        decimal(int_value(val))
    } else if val == NIL {
        "nil"@
    } else if seen.contains(val) {
        "[...]"@
    } else if 0 <= used && h.laid_out(used) && h.is_ref(val) && h.valid_ref(used, val) {
        proof {
            lemma_unseen_insert(h, used, seen, val);
        }
        "["@ + show_elems(h, used, h.target(val), 0, seen.insert(val)) + "]"@
    } else {
        "unknown value: "@ + numeral(val as nat, 10)
    }
}

/// The texts of the payload words of the object at `o` from the `j`-th on,
/// with `, ` between them.
pub open spec fn show_elems(h: Heap, used: int, o: int, j: int, seen: Set<u64>) -> Seq<char>
    decreases unseen(h, used, seen), 1 + h.len_of(o) - j,
{
    if 0 <= j < h.len_of(o) {
        show(h, used, h.payload(o, j), seen) + (if j < h.len_of(o) - 1 {
            ", "@
        } else {
            Seq::<char>::empty()
        }) + show_elems(h, used, o, j + 1, seen)
    } else {
        Seq::<char>::empty()
    }
}

/// The integer that an even word with the top bit set encodes is negative, and
/// its magnitude is half the distance from the word to two to the 64th.
proof fn lemma_int_value_negative(w: u64)
    requires
        w % 2 == 0,
        w >= 0x8000_0000_0000_0000,
    ensures
        int_value(w) < 0,
        -int_value(w) == (u64::MAX - w + 1) / 2,
{
    let d: int = 0x1_0000_0000_0000_0000 - w;
    assert(d % 2 == 0);
    assert(d > 0);
    assert((-d) / 2 == -(d / 2));
}

/// Appends to `out` the decimal text of the integer that the even word `w` encodes.
pub fn push_int_value(out: &mut String, w: u64)
    requires
        w % 2 == 0,
    ensures
        final(out)@ == old(out)@ + decimal(int_value(w)),
{
    if w < 0x8000_0000_0000_0000 {
        push_numeral(out, w / 2, 10);
    } else {
        proof {
            reveal_strlit("-");
        }
        out.append("-");
        let m: u64 = (u64::MAX - w + 1) / 2;
        push_numeral(out, m, 10);
        proof {
            lemma_int_value_negative(w);
            assert(decimal(int_value(w)) == seq!['-'] + numeral(m as nat, 10));
            assert(out@ =~= old(out)@ + decimal(int_value(w)));
        }
    }
}

/// The text of the value `val`. `seen` holds the references of the vectors
/// that are being printed; it is the same after the call as before.
pub fn snek_str(heap: &Heap, heap_ptr: u64, val: u64, seen: &mut HashSet<u64>) -> (r: String)
    requires
        heap.has_ptr(heap_ptr),
        heap.laid_out(heap.index(heap_ptr)),
        tagged(*heap, heap.index(heap_ptr)),
        is_value(*heap, heap.index(heap_ptr), val),
    ensures
        r@ == show(*heap, heap.index(heap_ptr), val, old(seen)@),
        final(seen)@ == old(seen)@,
    decreases unseen(*heap, heap.index(heap_ptr), old(seen)@),
{
    broadcast use vstd::std_specs::hash::group_hash_axioms;

    let ghost used = heap.index(heap_ptr);
    let ghost seen0 = seen@;
    if val == TRUE {
        String::from_str("true")
    } else if val == FALSE {
        String::from_str("false")
    } else if val % 2 == 0 {
        let mut res = String::new();
        push_int_value(&mut res, val);
        assert(res@ =~= decimal(int_value(val)));
        res
    } else if val == NIL {
        String::from_str("nil")
    } else {
        if !seen.insert(val) {
            assert(seen@ =~= seen0);
            return String::from_str("[...]");
        }
        proof {
            lemma_unseen_insert(*heap, used, seen0, val);
        }
        let ghost seen1 = seen@;
        let o: usize = heap.word_index(val - 1);
        let n: usize = heap.obj_len(Ghost(used), o);
        let mut res = String::from_str("[");
        let mut i: usize = 0;
        while i < n
            invariant
                heap.has_ptr(heap_ptr),
                used == heap.index(heap_ptr),
                heap.laid_out(used),
                tagged(*heap, used),
                heap.is_obj(used, o as int),
                n == heap.len_of(o as int),
                o + 2 + n <= used <= heap.words@.len() <= usize::MAX,
                i <= n,
                seen@ == seen1,
                seen0 == old(seen)@,
                seen1 == seen0.insert(val),
                unseen(*heap, used, seen1) < unseen(*heap, used, seen0),
                res@ + show_elems(*heap, used, o as int, i as int, seen1) == "["@ + show_elems(
                    *heap,
                    used,
                    o as int,
                    0,
                    seen1,
                ),
            decreases n - i,
        {
            let ghost before = res@;
            let elem: u64 = heap.words[o + 2 + i];
            assert(elem == heap.payload(o as int, i as int));
            let part = snek_str(heap, heap_ptr, elem, seen);
            res.append(part.as_str());
            if i < n - 1 {
                res.append(", ");
            }
            proof {
                let rest = show_elems(*heap, used, o as int, i + 1, seen1);
                let sep = if i < n - 1 {
                    ", "@
                } else {
                    Seq::<char>::empty()
                };
                assert(res@ =~= before + part@ + sep);
                assert(show_elems(*heap, used, o as int, i as int, seen1) == part@ + sep + rest);
                assert(res@ + rest =~= before + (part@ + sep + rest));
            }
            i += 1;
        }
        seen.remove(&val);
        assert(seen@ =~= seen0);
        res.append("]");
        proof {
            let inner = show_elems(*heap, used, o as int, 0, seen1);
            assert(show_elems(*heap, used, o as int, n as int, seen1) =~= Seq::<char>::empty());
            assert(res@ =~= "["@ + inner + "]"@);
        }
        res
    }
}

/// Appends to `out` the text of the value `val` and a line end, and returns `val`.
pub fn snek_print(heap: &Heap, heap_ptr: u64, val: u64, out: &mut String) -> (r: u64)
    requires
        heap.has_ptr(heap_ptr),
        heap.laid_out(heap.index(heap_ptr)),
        tagged(*heap, heap.index(heap_ptr)),
        is_value(*heap, heap.index(heap_ptr), val),
    ensures
        r == val,
        final(out)@ == old(out)@ + show(*heap, heap.index(heap_ptr), val, Set::empty()) + "\n"@,
{
    broadcast use vstd::std_specs::hash::group_hash_axioms;

    let mut seen: HashSet<u64> = HashSet::new();
    let text = snek_str(heap, heap_ptr, val, &mut seen);
    out.append(text.as_str());
    out.append("\n");
    val
}

} // verus!
