use snek::bump::allocate;
use snek::check::{check_ready, ptr_in_heap};
use snek::compact::compact;
use snek::error::ErrCode;
use snek::gc::{has_room, snek_gc, snek_try_gc};
use snek::mark::{heap_mark, mark};
use snek::memory::{is_heap_obj, Heap, Stack, FALSE, NIL, TRUE};
use snek::plan::fwd_headers;
use snek::rewrite::{fwd_internal, fwd_object, update_stack};
use snek::roots::find_stack_roots;

const START: u64 = 0x1000;
const BASE: u64 = 0x8000;

fn stack_of(words: Vec<u64>) -> Stack {
    Stack { base: BASE, words }
}

fn rsp_of(stack: &Stack) -> u64 {
    BASE - 8 * (stack.words.len() as u64 - 1)
}

fn addr(i: u64) -> u64 {
    START + 8 * i
}

fn reference(i: u64) -> u64 {
    START + 8 * i + 1
}

/// Three vectors: A (2 words) at 0, B (1 word) at 4, C (3 words) at 7.
/// A holds 10 and a reference to C; B holds 12; C holds 2, true, nil.
fn three_vectors() -> (Heap, u64) {
    let mut heap = Heap::new(START, 20);
    let p = allocate(&mut heap, START, 2, 0).unwrap();
    let p = allocate(&mut heap, p, 1, 12).unwrap();
    let p = allocate(&mut heap, p, 3, 0).unwrap();
    heap.words[2] = 10;
    heap.words[3] = reference(7);
    heap.words[9] = 2;
    heap.words[10] = TRUE;
    heap.words[11] = NIL;
    (heap, p)
}

#[test]
fn heap_reference_test_follows_the_encoding() {
    let heap = Heap::new(START, 4);
    assert!(!is_heap_obj(&heap, TRUE));
    assert!(!is_heap_obj(&heap, FALSE));
    assert!(!is_heap_obj(&heap, NIL));
    assert!(!is_heap_obj(&heap, 0));
    assert!(!is_heap_obj(&heap, START));
    assert!(!is_heap_obj(&heap, START + 8));
    assert!(is_heap_obj(&heap, START + 1));
    assert!(is_heap_obj(&heap, START + 9));
    assert!(is_heap_obj(&heap, START + 32 + 1));
    assert!(!is_heap_obj(&heap, START + 32 + 3));
    assert!(!is_heap_obj(&heap, START - 1));
    assert!(!is_heap_obj(&heap, 9));
}

#[test]
fn allocation_writes_header_and_payload() {
    let mut heap = Heap::new(START, 10);
    let p = allocate(&mut heap, START, 3, 8).unwrap();
    assert_eq!(p, START + 8 * 5);
    assert_eq!(heap.words, vec![0, 3, 8, 8, 8, 0, 0, 0, 0, 0]);
    let q = allocate(&mut heap, p, 3, 6).unwrap();
    assert_eq!(q, START + 8 * 10);
    assert_eq!(heap.words, vec![0, 3, 8, 8, 8, 0, 3, 6, 6, 6]);
    assert_eq!(allocate(&mut heap, q, 0, 0), None);
    assert_eq!(heap.words, vec![0, 3, 8, 8, 8, 0, 3, 6, 6, 6]);
}

#[test]
fn allocation_that_fits_exactly_succeeds_and_one_more_word_fails() {
    let mut heap = Heap::new(START, 7);
    assert_eq!(allocate(&mut heap, START, 6, 0), None);
    assert_eq!(allocate(&mut heap, START, 5, 0), Some(START + 56));
}

#[test]
fn heap_pointer_never_goes_down_between_collections() {
    let mut heap = Heap::new(START, 100);
    let mut ptr = START;
    for len in [0u64, 3, 1, 7, 0, 2] {
        let next = allocate(&mut heap, ptr, len, 0).unwrap();
        assert!(next >= ptr);
        assert_eq!(next, ptr + 8 * (len + 2));
        ptr = next;
    }
}

#[test]
fn scanner_lists_reference_slots_from_the_top_down() {
    let (heap, _) = three_vectors();
    let stack = stack_of(vec![reference(0), 4, TRUE, reference(7), NIL, reference(4), 9]);
    let rsp = rsp_of(&stack);
    let roots = find_stack_roots(&heap, &stack, BASE, 0, rsp);
    assert_eq!(roots, vec![BASE, BASE - 24, BASE - 40]);
    let part = find_stack_roots(&heap, &stack, BASE - 8, 0, BASE - 24);
    assert_eq!(part, vec![BASE - 24]);
    let none = find_stack_roots(&heap, &stack, BASE - 8, 0, BASE);
    assert_eq!(none, Vec::<u64>::new());
}

#[test]
fn marking_sets_the_mark_word_of_what_the_roots_reach() {
    let (mut heap, p) = three_vectors();
    let stack = stack_of(vec![reference(0)]);
    mark(&mut heap, &stack, p, &vec![BASE]);
    assert_eq!(heap.words[0], 1);
    assert_eq!(heap.words[4], 0);
    assert_eq!(heap.words[7], 1);
    assert_eq!(&heap.words[1..4], &[2, 10, reference(7)]);
    assert_eq!(&heap.words[5..7], &[1, 12]);
    assert_eq!(&heap.words[8..12], &[3, 2, TRUE, NIL]);
}

#[test]
fn marking_from_one_object_stops_at_marked_objects() {
    let (mut heap, p) = three_vectors();
    heap.words[9] = reference(0);
    heap_mark(&mut heap, p, addr(7));
    assert_eq!(heap.words[0], 1);
    assert_eq!(heap.words[4], 0);
    assert_eq!(heap.words[7], 1);
}

#[test]
fn planner_stores_forwarding_words_in_address_order() {
    let (mut heap, p) = three_vectors();
    heap.words[0] = 1;
    heap.words[7] = 1;
    fwd_headers(&mut heap, p);
    assert_eq!(heap.words[0], addr(0) + 1);
    assert_eq!(heap.words[4], 0);
    assert_eq!(heap.words[7], addr(4) + 1);
}

#[test]
fn rewriter_relocates_payloads_and_roots() {
    let (mut heap, p) = three_vectors();
    let mut stack = stack_of(vec![reference(7), 4, reference(0)]);
    heap.words[0] = addr(0) + 1;
    heap.words[7] = addr(4) + 1;
    fwd_internal(&mut heap, &mut stack, p, &vec![BASE, BASE - 16]);
    assert_eq!(heap.words[0], addr(0));
    assert_eq!(heap.words[7], addr(4));
    assert_eq!(heap.words[3], reference(4));
    assert_eq!(heap.words[2], 10);
    assert_eq!(&heap.words[4..7], &[0, 1, 12]);
    assert_eq!(stack.words, vec![reference(4), 4, reference(0)]);
}

#[test]
fn rewriting_from_one_object_reaches_what_it_refers_to() {
    let (mut heap, p) = three_vectors();
    heap.words[0] = addr(0) + 1;
    heap.words[7] = addr(4) + 1;
    fwd_object(&mut heap, p, addr(7));
    assert_eq!(heap.words[0], addr(0) + 1);
    assert_eq!(heap.words[3], reference(7));
    assert_eq!(heap.words[7], addr(4));
    assert_eq!(&heap.words[8..12], &[3, 2, TRUE, NIL]);
    let (mut heap, p) = three_vectors();
    heap.words[0] = addr(0) + 1;
    heap.words[7] = addr(4) + 1;
    heap.words[9] = reference(0);
    fwd_object(&mut heap, p, addr(0));
    assert_eq!(&heap.words[0..4], &[addr(0), 2, 10, reference(4)]);
    assert_eq!(&heap.words[4..7], &[0, 1, 12]);
    assert_eq!(&heap.words[7..12], &[addr(4), 3, reference(0), TRUE, NIL]);
}

#[test]
fn heap_pointer_must_be_a_word_of_the_heap_or_its_end() {
    let heap = Heap::new(START, 4);
    assert!(ptr_in_heap(&heap, START));
    assert!(ptr_in_heap(&heap, START + 32));
    assert!(!ptr_in_heap(&heap, START + 40));
    assert!(!ptr_in_heap(&heap, START + 4));
    assert!(!ptr_in_heap(&heap, START - 8));
    let null = Heap { start: 0, words: vec![0] };
    assert!(!ptr_in_heap(&null, 0));
}

#[test]
fn stack_slot_takes_the_word_above_the_forwarding_address() {
    let (mut heap, _) = three_vectors();
    heap.words[7] = addr(4);
    let mut stack = stack_of(vec![6, reference(7)]);
    update_stack(&mut stack, &heap, BASE - 8);
    assert_eq!(stack.words, vec![6, reference(4)]);
}

#[test]
fn stack_slot_takes_the_forwarding_word_when_its_low_bit_is_set() {
    let (mut heap, _) = three_vectors();
    heap.words[7] = addr(4) + 1;
    let mut stack = stack_of(vec![reference(7), 6]);
    update_stack(&mut stack, &heap, BASE);
    assert_eq!(stack.words, vec![reference(4), 6]);
    let small = Heap { start: 4096, words: vec![4097, 0] };
    let mut slot = stack_of(vec![4097]);
    update_stack(&mut slot, &small, BASE);
    assert_eq!(slot.words, vec![4097]);
    let top = Heap { start: 4096, words: vec![u64::MAX, 0] };
    let mut slot = stack_of(vec![4097]);
    update_stack(&mut slot, &top, BASE);
    assert_eq!(slot.words, vec![u64::MAX]);
}

#[test]
fn compactor_slides_live_objects_and_clears_marks() {
    let (mut heap, p) = three_vectors();
    heap.words[0] = addr(0);
    heap.words[7] = addr(4);
    heap.words[3] = reference(4);
    let new_ptr = compact(&mut heap, p);
    assert_eq!(new_ptr, addr(9));
    assert_eq!(&heap.words[0..9], &[0, 2, 10, reference(4), 0, 3, 2, TRUE, NIL]);
}

#[test]
fn collection_drops_garbage_and_relocates_references() {
    let (mut heap, p) = three_vectors();
    let mut stack = stack_of(vec![4, reference(0), FALSE]);
    let rsp = rsp_of(&stack);
    assert!(check_ready(&heap, &stack, p, BASE, rsp));
    let new_ptr = snek_gc(&mut heap, &mut stack, p, BASE, 0, rsp);
    assert_eq!(new_ptr, addr(9));
    assert_eq!(&heap.words[0..9], &[0, 2, 10, reference(4), 0, 3, 2, TRUE, NIL]);
    assert_eq!(stack.words, vec![4, reference(0), FALSE]);
    assert!(check_ready(&heap, &stack, new_ptr, BASE, rsp));
}

#[test]
fn collection_keeps_only_what_the_scanned_slots_reach() {
    let (mut heap, p) = three_vectors();
    let mut stack = stack_of(vec![reference(0), reference(4)]);
    let new_ptr = snek_gc(&mut heap, &mut stack, p, BASE - 8, 0, BASE - 8);
    assert_eq!(new_ptr, addr(3));
    assert_eq!(&heap.words[0..3], &[0, 1, 12]);
    assert_eq!(stack.words, vec![reference(0), reference(0)]);
}

#[test]
fn free_words_hold_what_the_collection_left_behind() {
    let (mut heap, p) = three_vectors();
    heap.words[6] = reference(4);
    let mut stack = stack_of(vec![reference(4)]);
    let new_ptr = snek_gc(&mut heap, &mut stack, p, BASE, 0, BASE);
    assert_eq!(new_ptr, addr(3));
    assert_eq!(&heap.words[0..3], &[0, 1, reference(0)]);
    assert_eq!(
        &heap.words[3..12],
        &[reference(7), START, 1, reference(0), 0, 3, 2, TRUE, NIL]
    );
}

#[test]
fn new_heap_pointer_is_the_sum_of_the_live_sizes() {
    let (mut heap, p) = three_vectors();
    let mut stack = stack_of(vec![reference(4), reference(7)]);
    let rsp = rsp_of(&stack);
    let new_ptr = snek_gc(&mut heap, &mut stack, p, BASE, 0, rsp);
    assert_eq!((new_ptr - START) / 8, (1 + 2) + (3 + 2));
    assert_eq!(stack.words, vec![reference(0), reference(3)]);
}

#[test]
fn mark_words_are_zero_after_a_collection() {
    let (mut heap, p) = three_vectors();
    let mut stack = stack_of(vec![reference(0), reference(4)]);
    let rsp = rsp_of(&stack);
    let new_ptr = snek_gc(&mut heap, &mut stack, p, BASE, 0, rsp);
    assert_eq!(new_ptr, p);
    assert_eq!(heap.words[0], 0);
    assert_eq!(heap.words[4], 0);
    assert_eq!(heap.words[7], 0);
}

#[test]
fn collection_of_an_empty_heap_changes_nothing() {
    let mut heap = Heap::new(START, 6);
    heap.words[3] = 77;
    let mut stack = stack_of(vec![4, TRUE, NIL, 22]);
    let rsp = rsp_of(&stack);
    let new_ptr = snek_gc(&mut heap, &mut stack, START, BASE, 0, rsp);
    assert_eq!(new_ptr, START);
    assert_eq!(heap.words, vec![0, 0, 0, 77, 0, 0]);
    assert_eq!(stack.words, vec![4, TRUE, NIL, 22]);
}

#[test]
fn heap_of_no_words_is_always_out_of_memory() {
    let mut heap = Heap::new(START, 0);
    let mut stack = stack_of(vec![4]);
    assert_eq!(allocate(&mut heap, START, 0, 0), None);
    assert_eq!(allocate(&mut heap, START, 5, 0), None);
    assert!(check_ready(&heap, &stack, START, BASE, BASE));
    let r = snek_try_gc(&mut heap, &mut stack, 2, START, BASE, 0, BASE);
    assert_eq!(r, Err(ErrCode::OutOfMemory));
    let r = snek_try_gc(&mut heap, &mut stack, 7, START, BASE, 0, BASE);
    assert_eq!(r, Err(ErrCode::OutOfMemory));
    let r = snek_try_gc(&mut heap, &mut stack, 0, START, BASE, 0, BASE);
    assert_eq!(r, Ok(START));
}

#[test]
fn cycle_survives_with_references_to_the_new_addresses() {
    let mut heap = Heap::new(START, 20);
    let p = allocate(&mut heap, START, 4, 0).unwrap();
    let p = allocate(&mut heap, p, 1, 0).unwrap();
    let p = allocate(&mut heap, p, 2, 0).unwrap();
    heap.words[8] = reference(9);
    heap.words[11] = reference(6);
    heap.words[12] = 14;
    let mut stack = stack_of(vec![reference(9)]);
    let new_ptr = snek_gc(&mut heap, &mut stack, p, BASE, 0, BASE);
    assert_eq!(new_ptr, addr(7));
    assert_eq!(&heap.words[0..7], &[0, 1, reference(3), 0, 2, reference(0), 14]);
    assert_eq!(stack.words, vec![reference(3)]);
}

#[test]
fn self_reference_is_rewritten_to_the_new_address() {
    let mut heap = Heap::new(START, 12);
    let p = allocate(&mut heap, START, 1, 0).unwrap();
    let p = allocate(&mut heap, p, 2, 0).unwrap();
    heap.words[5] = reference(3);
    heap.words[6] = reference(3);
    let mut stack = stack_of(vec![reference(3), reference(3)]);
    let rsp = rsp_of(&stack);
    let new_ptr = snek_gc(&mut heap, &mut stack, p, BASE, 0, rsp);
    assert_eq!(new_ptr, addr(4));
    assert_eq!(&heap.words[0..4], &[0, 2, reference(0), reference(0)]);
    assert_eq!(stack.words, vec![reference(0), reference(0)]);
}

#[test]
fn second_collection_changes_nothing() {
    let (mut heap, p) = three_vectors();
    heap.words[6] = reference(7);
    let mut stack = stack_of(vec![reference(4), 8, reference(7)]);
    let rsp = rsp_of(&stack);
    let first = snek_gc(&mut heap, &mut stack, p, BASE, 0, rsp);
    let heap_after = heap.words.clone();
    let stack_after = stack.words.clone();
    let second = snek_gc(&mut heap, &mut stack, first, BASE, 0, rsp);
    assert_eq!(first, addr(8));
    assert_eq!(second, first);
    assert_eq!(heap.words, heap_after);
    assert_eq!(stack.words, stack_after);
}

#[test]
fn every_root_points_to_the_same_object_afterwards() {
    let (mut heap, p) = three_vectors();
    let mut stack = stack_of(vec![reference(7), reference(7), 2, reference(4)]);
    let rsp = rsp_of(&stack);
    let new_ptr = snek_gc(&mut heap, &mut stack, p, BASE, 0, rsp);
    assert_eq!(new_ptr, addr(8));
    assert_eq!(stack.words, vec![reference(3), reference(3), 2, reference(0)]);
    assert_eq!(&heap.words[0..3], &[0, 1, 12]);
    assert_eq!(&heap.words[3..8], &[0, 3, 2, TRUE, NIL]);
}

#[test]
fn words_past_the_old_heap_pointer_are_untouched() {
    let (mut heap, p) = three_vectors();
    heap.words[12] = 555;
    heap.words[19] = 777;
    let mut stack = stack_of(vec![reference(7)]);
    let new_ptr = snek_gc(&mut heap, &mut stack, p, BASE, 0, BASE);
    assert_eq!(new_ptr, addr(5));
    assert_eq!(heap.words[12], 555);
    assert_eq!(heap.words[19], 777);
}

#[test]
fn room_is_counted_in_words_up_to_the_end() {
    let heap = Heap::new(START, 10);
    assert!(has_room(&heap, addr(3), 7));
    assert!(!has_room(&heap, addr(3), 8));
    assert!(has_room(&heap, addr(10), 0));
    assert!(!has_room(&heap, addr(10), 1));
    assert!(has_room(&heap, addr(10), -4));
}

#[test]
fn handler_returns_the_pointer_when_the_request_fits() {
    let (mut heap, p) = three_vectors();
    let mut stack = stack_of(vec![reference(4)]);
    let r = snek_try_gc(&mut heap, &mut stack, 17, p, BASE, 0, BASE);
    assert_eq!(r, Ok(addr(3)));
    let (mut heap, p) = three_vectors();
    let mut stack = stack_of(vec![reference(4)]);
    let r = snek_try_gc(&mut heap, &mut stack, 18, p, BASE, 0, BASE);
    assert_eq!(r, Err(ErrCode::OutOfMemory));
    assert_eq!(&heap.words[0..3], &[0, 1, 12]);
}

#[test]
fn readiness_is_refused_for_broken_memory() {
    let (heap, p) = three_vectors();
    let stack = stack_of(vec![reference(0)]);
    assert!(check_ready(&heap, &stack, p, BASE, BASE));
    assert!(!check_ready(&heap, &stack, p + 4, BASE, BASE));
    assert!(!check_ready(&heap, &stack, p + 8, BASE, BASE));
    assert!(!check_ready(&heap, &stack, p, BASE, BASE - 8));
    let dangling = stack_of(vec![reference(1)]);
    assert!(!check_ready(&heap, &dangling, p, BASE, BASE));
    let unaligned = stack_of(vec![reference(0) + 2]);
    assert!(!check_ready(&heap, &unaligned, p, BASE, BASE));
    let (mut marked, p) = three_vectors();
    marked.words[4] = 1;
    assert!(!check_ready(&marked, &stack, p, BASE, BASE));
    let (mut bad_ref, p) = three_vectors();
    bad_ref.words[6] = reference(8);
    assert!(!check_ready(&bad_ref, &stack, p, BASE, BASE));
    let (mut bad_len, p) = three_vectors();
    bad_len.words[8] = 30;
    assert!(!check_ready(&bad_len, &stack, p, BASE, BASE));
    let null = Heap { start: 0, words: vec![0, 0] };
    assert!(!check_ready(&null, &stack, 0, BASE, BASE));
}

#[test]
fn set_gc_set_reclaims_the_first_vector() {
    let mut heap = Heap::new(START, 5);
    let mut stack = stack_of(vec![NIL]);
    let p = allocate(&mut heap, START, 3, 2).unwrap();
    stack.words[0] = START + 1;
    assert_eq!(p, addr(5));
    stack.words[0] = NIL;
    assert_eq!(allocate(&mut heap, p, 3, 0), None);
    let p = snek_try_gc(&mut heap, &mut stack, 5, p, BASE, 0, BASE).unwrap();
    assert_eq!(p, START);
    let q = allocate(&mut heap, p, 3, 0).unwrap();
    assert_eq!(q, addr(5));
    heap.words[2] = 8;
    heap.words[3] = 10;
    heap.words[4] = 12;
    assert_eq!(heap.words, vec![0, 3, 8, 10, 12]);
}
