//! The entry points around the collector: the error reporter, the dumps of the
//! stack and the heap, and the reading of the program's arguments.

use crate::memory::{Heap, Stack, FALSE, TRUE};
use crate::text::{decimal, hex, push_decimal, push_hex};
use vstd::prelude::*;
use vstd::string::StringExecFns;

verus! {

/// The diagnostic for the error code `errcode`.
pub open spec fn error_text(errcode: i64) -> Seq<char> {
    if errcode == 1 {
        "invalid argument"@
    } else if errcode == 2 {
        "overflow"@
    } else if errcode == 3 {
        "index out of bounds"@
    } else if errcode == 4 {
        "vector size must be non-negative"@
    } else if errcode == 5 {
        "out of memory"@
    } else {
        "an error ocurred "@ + decimal(errcode as int)
    }
}

/// The error reporter: the one-line diagnostic for `errcode`, and the exit
/// status to end the program with, which is the code itself.
pub fn snek_error(errcode: i64) -> (r: (String, i32))
    ensures
        r.0@ == error_text(errcode),
        r.1 == errcode as i32,
{
    let status: i32 = #[verifier::truncate] (errcode as i32);
    let message = if errcode == 1 {
        String::from_str("invalid argument")
    } else if errcode == 2 {
        String::from_str("overflow")
    } else if errcode == 3 {
        String::from_str("index out of bounds")
    } else if errcode == 4 {
        String::from_str("vector size must be non-negative")
    } else if errcode == 5 {
        String::from_str("out of memory")
    } else {
        let mut s = String::from_str("an error ocurred ");
        push_decimal(&mut s, errcode);
        s
    };
    (message, status)
}

/// One line of a dump: the address and the word, both in base sixteen.
pub open spec fn word_line(addr: int, w: u64) -> Seq<char> {
    hex(addr as nat) + ": "@ + hex(w as nat) + "\n"@
}

/// The lines for the first `k` stack words from `stack_base` down.
pub open spec fn stack_lines(st: Stack, stack_base: u64, k: int) -> Seq<char>
    decreases k,
{
    if k <= 0 {
        Seq::<char>::empty()
    } else {
        stack_lines(st, stack_base, k - 1) + word_line(
            stack_base - 8 * (k - 1),
            st.words@[st.slot(stack_base) + (k - 1)],
        )
    }
}

/// The number of words from `stack_base` down to `curr_rsp`, both included.
pub open spec fn scan_count(stack_base: u64, curr_rsp: u64) -> int {
    if curr_rsp > stack_base {
        0
    } else {
        (stack_base - curr_rsp) / 8 + 1
    }
}

/// Appends to `out` a dump of the stack from `stack_base` down to `curr_rsp`:
/// a rule, one line for each word, and a rule.
pub fn snek_print_stack(stack: &Stack, stack_base: u64, curr_rbp: u64, curr_rsp: u64, out: &mut String)
    requires
        stack.wf(),
        stack.spans(stack_base, curr_rsp),
    ensures
        final(out)@ == old(out)@ + "-----------------------------------------\n"@ + stack_lines(
            *stack,
            stack_base,
            scan_count(stack_base, curr_rsp),
        ) + "-----------------------------------------\n"@,
{
    let ghost out0 = out@;
    let ghost rule = "-----------------------------------------\n"@;
    out.append("-----------------------------------------\n");
    if curr_rsp <= stack_base {
        let count: u64 = (stack_base - curr_rsp) / 8 + 1;
        let mut i: u64 = 0;
        while i < count
            invariant
                stack.wf(),
                curr_rsp <= stack_base,
                stack.has_slot(stack_base),
                stack.has_slot(curr_rsp),
                count == (stack_base - curr_rsp) / 8 + 1,
                i <= count,
                out@ == out0 + rule + stack_lines(*stack, stack_base, i as int),
            decreases count - i,
        {
            let ghost before = out@;
            let addr: u64 = stack_base - 8 * i;
            let val: u64 = stack.read(addr);
            push_hex(out, addr);
            out.append(": ");
            push_hex(out, val);
            out.append("\n");
            proof {
                assert(stack.slot(addr) == stack.slot(stack_base) + i);
                assert(out@ =~= before + word_line(addr as int, val));
                assert(out@ =~= out0 + rule + stack_lines(*stack, stack_base, i + 1));
            }
            i += 1;
        }
    } else {
        assert(out@ =~= out0 + rule + stack_lines(*stack, stack_base, 0));
    }
    out.append("-----------------------------------------\n");
}

/// The lines for the first `k` words of the heap.
pub open spec fn heap_lines(h: Heap, k: int) -> Seq<char>
    decreases k,
{
    if k <= 0 {
        Seq::<char>::empty()
    } else {
        heap_lines(h, k - 1) + word_line(h.addr(k - 1), h.words@[k - 1])
    }
}

/// Appends to `out` a dump of the heap below `heap_ptr`: a rule, one line for
/// each word, and a rule.
pub fn print_heap(heap: &Heap, heap_ptr: u64, out: &mut String)
    requires
        heap.wf(),
        heap.has_ptr(heap_ptr),
    ensures
        final(out)@ == old(out)@ + "************************\n"@ + heap_lines(
            *heap,
            heap.index(heap_ptr),
        ) + "************************\n"@,
{
    let ghost out0 = out@;
    let ghost rule = "************************\n"@;
    out.append("************************\n");
    let limit: usize = heap.word_index(heap_ptr);
    let mut i: usize = 0;
    assert(out@ =~= out0 + rule + heap_lines(*heap, 0));
    while i < limit
        invariant
            heap.wf(),
            limit <= heap.words@.len(),
            i <= limit,
            out@ == out0 + rule + heap_lines(*heap, i as int),
        decreases limit - i,
    {
        let ghost before = out@;
        let addr: u64 = heap.word_addr(i);
        let val: u64 = heap.words[i];
        push_hex(out, addr);
        out.append(": ");
        push_hex(out, val);
        out.append("\n");
        proof {
            assert(out@ =~= before + word_line(addr as int, val));
            assert(out@ =~= out0 + rule + heap_lines(*heap, i + 1));
        }
        i += 1;
    }
    out.append("************************\n");
}

/// The word that encodes the integer `n`: twice `n`, as an unsigned 64-bit
/// number. An `n` outside the 63-bit range loses its top bit.
pub open spec fn int_word(n: i64) -> u64 {
    if n >= 0 {
        (2 * n) as u64
    } else {
        (0x1_0000_0000_0000_0000 + 2 * n) as u64
    }
}

/// The word that encodes the integer `n`.
pub fn encode_int(n: i64) -> (w: u64)
    ensures
        w == int_word(n),
        w % 2 == 0,
{
    if n >= 0 {
        2 * (n as u64)
    } else {
        let m: u64 = (-(n + 1)) as u64;
        u64::MAX - 1 - 2 * m
    }
}

/// What `str::parse::<i64>` makes of a text: the number it denotes, if it is
/// a decimal integer in range.
pub uninterp spec fn parsed_i64(s: Seq<char>) -> Option<i64>;

/// What `str::parse::<usize>` makes of a text: the number it denotes, if it is
/// a decimal integer in range and not negative.
pub uninterp spec fn parsed_usize(s: Seq<char>) -> Option<usize>;

/// Calls `str::parse::<i64>` of the standard library. Its result depends on the
/// characters of the text alone.
#[verifier::external_body]
fn parse_i64(s: &str) -> (r: Option<i64>)
    ensures
        r == parsed_i64(s@),
{
    match s.parse::<i64>() {
        Ok(n) => Some(n),
        Err(_) => None,
    }
}

/// Calls `str::parse::<usize>` of the standard library. Its result depends on
/// the characters of the text alone.
#[verifier::external_body]
fn parse_usize(s: &str) -> (r: Option<usize>)
    ensures
        r == parsed_usize(s@),
{
    match s.parse::<usize>() {
        Ok(n) => Some(n),
        Err(_) => None,
    }
}

/// The input word for a program argument that is `true`, `false`, or else
/// whatever number `parsed` found in it.
pub open spec fn input_word(is_true: bool, is_false: bool, parsed: Option<i64>) -> Option<u64> {
    if is_true {
        Some(TRUE)
    } else if is_false {
        Some(FALSE)
    } else {
        match parsed {
            Some(n) => Some(int_word(n)),
            None => None,
        }
    }
}

/// The input word for an argument known to be `true`, to be `false`, or to
/// have been parsed as `parsed`.
pub fn encode_input(is_true: bool, is_false: bool, parsed: Option<i64>) -> (r: Option<u64>)
    ensures
        r == input_word(is_true, is_false, parsed),
{
    if is_true {
        Some(TRUE)
    } else if is_false {
        Some(FALSE)
    } else {
        match parsed {
            Some(n) => Some(encode_int(n)),
            None => None,
        }
    }
}

/// Reads the program's input argument: `true`, `false`, or a signed decimal
/// integer. The text must be one of these.
pub fn parse_input(input: &str) -> (r: u64)
    requires
        input@ == "true"@ || input@ == "false"@ || parsed_i64(input@) is Some,
    ensures
        Some(r) == input_word(input@ == "true"@, input@ == "false"@, parsed_i64(input@)),
{
    let text = String::from_str(input);
    let is_true = text == String::from_str("true");
    let is_false = text == String::from_str("false");
    let parsed: Option<i64> = if is_true || is_false {
        None
    } else {
        parse_i64(input)
    };
    match encode_input(is_true, is_false, parsed) {
        Some(word) => word,
        None => vstd::pervasive::unreached(),
    }
}

/// Reads the program's input argument if it is `true`, `false`, or a signed
/// decimal integer, and returns `None` for any other text.
pub fn try_parse_input(input: &str) -> (r: Option<u64>)
    ensures
        r == input_word(input@ == "true"@, input@ == "false"@, parsed_i64(input@)),
{
    let text = String::from_str(input);
    let is_true = text == String::from_str("true");
    let is_false = text == String::from_str("false");
    if is_true || is_false || parse_i64(input).is_some() {
        Some(parse_input(input))
    } else {
        None
    }
}

/// Reads the heap-size argument: a decimal number of words, not negative. The
/// text must be such a number.
pub fn parse_heap_size(input: &str) -> (r: usize)
    requires
        parsed_usize(input@) is Some,
    ensures
        Some(r) == parsed_usize(input@),
{
    match parse_usize(input) {
        Some(size) => size,
        None => vstd::pervasive::unreached(),
    }
}

/// Reads the heap-size argument if it is a decimal number of words, not
/// negative, and returns `None` for any other text.
pub fn try_parse_heap_size(input: &str) -> (r: Option<usize>)
    ensures
        r == parsed_usize(input@),
{
    if parse_usize(input).is_some() {
        Some(parse_heap_size(input))
    } else {
        None
    }
}

} // verus!
