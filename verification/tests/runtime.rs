use snek::bump::allocate;
use snek::check::check_printable;
use snek::error::ErrCode;
use snek::gc::snek_gc;
use snek::memory::{Heap, Stack, FALSE, NIL, TRUE};
use snek::print::{push_int_value, snek_print, snek_str};
use snek::runtime::{
    encode_input, encode_int, parse_heap_size, parse_input, print_heap, snek_error,
    snek_print_stack, try_parse_heap_size, try_parse_input,
};
use snek::text::{push_decimal, push_hex, push_numeral};
use std::collections::HashSet;

const START: u64 = 0x1000;

fn show(heap: &Heap, ptr: u64, val: u64) -> String {
    let mut seen = HashSet::new();
    let text = snek_str(heap, ptr, val, &mut seen);
    assert!(seen.is_empty());
    text
}

#[test]
fn numerals_in_base_ten_and_sixteen() {
    let mut s = String::new();
    push_numeral(&mut s, 0, 10);
    s.push(' ');
    push_numeral(&mut s, 9075, 10);
    s.push(' ');
    push_numeral(&mut s, 255, 16);
    s.push(' ');
    push_numeral(&mut s, u64::MAX, 10);
    s.push(' ');
    push_numeral(&mut s, 5, 2);
    assert_eq!(s, "0 9075 ff 18446744073709551615 101");
}

#[test]
fn decimal_text_of_signed_numbers() {
    let mut s = String::from("x");
    push_decimal(&mut s, -42);
    s.push(' ');
    push_decimal(&mut s, 0);
    s.push(' ');
    push_decimal(&mut s, i64::MIN);
    s.push(' ');
    push_decimal(&mut s, i64::MAX);
    assert_eq!(s, "x-42 0 -9223372036854775808 9223372036854775807");
}

#[test]
fn hex_text_has_the_prefix() {
    let mut s = String::new();
    push_hex(&mut s, 0);
    s.push(' ');
    push_hex(&mut s, 0x7ffd_5c3b_1a40);
    assert_eq!(s, "0x0 0x7ffd5c3b1a40");
}

#[test]
fn integer_words_are_shown_halved() {
    let mut s = String::new();
    push_int_value(&mut s, 10);
    s.push(' ');
    push_int_value(&mut s, u64::MAX - 5);
    s.push(' ');
    push_int_value(&mut s, 0x8000_0000_0000_0000);
    s.push(' ');
    push_int_value(&mut s, 0x7fff_ffff_ffff_fffe);
    assert_eq!(s, "5 -3 -4611686018427387904 4611686018427387903");
}

#[test]
fn constants_and_integers_are_printed() {
    let heap = Heap::new(START, 4);
    assert_eq!(show(&heap, START, TRUE), "true");
    assert_eq!(show(&heap, START, FALSE), "false");
    assert_eq!(show(&heap, START, NIL), "nil");
    assert_eq!(show(&heap, START, 0), "0");
    assert_eq!(show(&heap, START, 84), "42");
    assert_eq!(show(&heap, START, encode_int(-7)), "-7");
}

#[test]
fn vectors_are_printed_with_their_elements() {
    let mut heap = Heap::new(START, 20);
    let p = allocate(&mut heap, START, 5, 0).unwrap();
    assert_eq!(show(&heap, p, START + 1), "[0, 0, 0, 0, 0]");
    let q = allocate(&mut heap, p, 0, 0).unwrap();
    assert_eq!(show(&heap, q, p + 1), "[]");
    let r = allocate(&mut heap, q, 3, 0).unwrap();
    heap.words[11] = 2;
    heap.words[12] = p + 1;
    heap.words[13] = START + 1;
    assert_eq!(show(&heap, r, q + 1), "[1, [], [0, 0, 0, 0, 0]]");
}

#[test]
fn vector_inside_itself_is_printed_as_dots() {
    let mut heap = Heap::new(START, 20);
    let p = allocate(&mut heap, START, 2, 0).unwrap();
    let q = allocate(&mut heap, p, 2, 0).unwrap();
    heap.words[2] = 2;
    heap.words[3] = START + 1;
    assert_eq!(show(&heap, q, START + 1), "[1, [...]]");
    heap.words[3] = p + 1;
    heap.words[6] = START + 1;
    heap.words[7] = p + 1;
    assert_eq!(show(&heap, q, START + 1), "[1, [[...], [...]]]");
    assert_eq!(show(&heap, q, p + 1), "[[1, [...]], [...]]");
}

#[test]
fn shared_vector_is_printed_each_time() {
    let mut heap = Heap::new(START, 20);
    let p = allocate(&mut heap, START, 1, TRUE).unwrap();
    let q = allocate(&mut heap, p, 2, START + 1).unwrap();
    assert_eq!(show(&heap, q, p + 1), "[[true], [true]]");
}

#[test]
fn collection_does_not_change_the_text_of_a_value() {
    let mut heap = Heap::new(START, 40);
    let p = allocate(&mut heap, START, 3, 0).unwrap();
    let q = allocate(&mut heap, p, 2, TRUE).unwrap();
    let r = allocate(&mut heap, q, 2, 8).unwrap();
    let s = allocate(&mut heap, r, 1, p + 1).unwrap();
    heap.words[8] = q + 1;
    heap.words[11] = p + 1;
    let mut stack = Stack { base: 0x8000, words: vec![q + 1, 6, r + 1] };
    let before = show(&heap, s, q + 1);
    assert_eq!(before, "[[true, [...]], 4]");
    let other = show(&heap, s, r + 1);
    assert_eq!(other, "[[true, [[...], 4]]]");
    let new_ptr = snek_gc(&mut heap, &mut stack, s, 0x8000, 0, 0x7ff0);
    assert_eq!(new_ptr, START + 8 * 11);
    assert_eq!(stack.words, vec![START + 8 * 4 + 1, 6, START + 8 * 8 + 1]);
    assert!(check_printable(&heap, new_ptr, stack.words[0]));
    assert_eq!(show(&heap, new_ptr, stack.words[0]), before);
    assert_eq!(show(&heap, new_ptr, stack.words[2]), other);
}

#[test]
fn print_appends_a_line_and_returns_the_value() {
    let mut heap = Heap::new(START, 20);
    let p = allocate(&mut heap, START, 2, FALSE).unwrap();
    let mut out = String::from(">");
    assert_eq!(snek_print(&heap, p, START + 1, &mut out), START + 1);
    assert_eq!(snek_print(&heap, p, 6, &mut out), 6);
    assert_eq!(out, ">[false, false]\n3\n");
}

#[test]
fn error_reporter_has_a_message_for_each_code() {
    assert_eq!(snek_error(1), ("invalid argument".to_string(), 1));
    assert_eq!(snek_error(2), ("overflow".to_string(), 2));
    assert_eq!(snek_error(3), ("index out of bounds".to_string(), 3));
    assert_eq!(snek_error(4), ("vector size must be non-negative".to_string(), 4));
    assert_eq!(snek_error(5), ("out of memory".to_string(), 5));
    assert_eq!(snek_error(9), ("an error ocurred 9".to_string(), 9));
    assert_eq!(snek_error(-1), ("an error ocurred -1".to_string(), -1));
    assert_eq!(snek_error(0x1_0000_0002).1, 2);
}

#[test]
fn error_kinds_have_the_codes_one_to_five() {
    assert_eq!(ErrCode::InvalidArgument.code(), 1);
    assert_eq!(ErrCode::Overflow.code(), 2);
    assert_eq!(ErrCode::IndexOutOfBounds.code(), 3);
    assert_eq!(ErrCode::InvalidVecSize.code(), 4);
    assert_eq!(ErrCode::OutOfMemory.code(), 5);
    assert_eq!(ErrCode::from_code(5), Some(ErrCode::OutOfMemory));
    assert_eq!(ErrCode::from_code(3), Some(ErrCode::IndexOutOfBounds));
    assert_eq!(ErrCode::from_code(0), None);
    assert_eq!(ErrCode::from_code(6), None);
    assert_eq!(snek_error(ErrCode::OutOfMemory.code()).0, "out of memory");
}

#[test]
fn integers_are_encoded_doubled() {
    assert_eq!(encode_int(0), 0);
    assert_eq!(encode_int(5), 10);
    assert_eq!(encode_int(-3), u64::MAX - 5);
    assert_eq!(encode_int(i64::MAX), u64::MAX - 1);
    assert_eq!(encode_int(i64::MIN), 0);
    assert_eq!(encode_int(0x4000_0000_0000_0000), 0x8000_0000_0000_0000);
}

#[test]
fn input_argument_is_read() {
    assert_eq!(parse_input("true"), TRUE);
    assert_eq!(parse_input("false"), FALSE);
    assert_eq!(parse_input("5"), 10);
    assert_eq!(parse_input("-3"), u64::MAX - 5);
    assert_eq!(parse_input("0"), 0);
    assert_eq!(parse_input("+17"), 34);
    assert_eq!(parse_input("9223372036854775807"), u64::MAX - 1);
}

#[test]
fn input_argument_is_tried() {
    assert_eq!(try_parse_input("true"), Some(TRUE));
    assert_eq!(try_parse_input("false"), Some(FALSE));
    assert_eq!(try_parse_input("5"), Some(10));
    assert_eq!(try_parse_input("-3"), Some(u64::MAX - 5));
    assert_eq!(try_parse_input("nil"), None);
    assert_eq!(try_parse_input(""), None);
    assert_eq!(try_parse_input("9223372036854775808"), None);
    assert_eq!(try_parse_input("1.5"), None);
}

#[test]
fn input_word_from_what_was_recognised() {
    assert_eq!(encode_input(true, false, None), Some(TRUE));
    assert_eq!(encode_input(false, true, Some(4)), Some(FALSE));
    assert_eq!(encode_input(false, false, Some(4)), Some(8));
    assert_eq!(encode_input(false, false, None), None);
}

#[test]
fn heap_size_argument_is_read() {
    assert_eq!(parse_heap_size("10000"), 10000);
    assert_eq!(parse_heap_size("200"), 200);
    assert_eq!(parse_heap_size("0"), 0);
}

#[test]
fn heap_size_argument_is_tried() {
    assert_eq!(try_parse_heap_size("10000"), Some(10000));
    assert_eq!(try_parse_heap_size("0"), Some(0));
    assert_eq!(try_parse_heap_size("-1"), None);
    assert_eq!(try_parse_heap_size("abc"), None);
    assert_eq!(try_parse_heap_size(""), None);
}

#[test]
fn stack_dump_lists_each_word_between_rules() {
    let stack = Stack { base: 0x8000, words: vec![7, 0x1001, 10] };
    let mut out = String::new();
    snek_print_stack(&stack, 0x8000, 0, 0x7ff0, &mut out);
    assert_eq!(
        out,
        "-----------------------------------------\n0x8000: 0x7\n0x7ff8: 0x1001\n0x7ff0: 0xa\n-----------------------------------------\n"
    );
    let mut part = String::new();
    snek_print_stack(&stack, 0x7ff8, 0, 0x7ff8, &mut part);
    assert_eq!(
        part,
        "-----------------------------------------\n0x7ff8: 0x1001\n-----------------------------------------\n"
    );
    let mut none = String::new();
    snek_print_stack(&stack, 0x7ff0, 0, 0x7ff8, &mut none);
    assert_eq!(
        none,
        "-----------------------------------------\n-----------------------------------------\n"
    );
}

#[test]
fn heap_dump_lists_the_allocated_words() {
    let mut heap = Heap::new(START, 6);
    let p = allocate(&mut heap, START, 1, 30).unwrap();
    let mut out = String::new();
    print_heap(&heap, p, &mut out);
    assert_eq!(
        out,
        "************************\n0x1000: 0x0\n0x1008: 0x1\n0x1010: 0x1e\n************************\n"
    );
}
