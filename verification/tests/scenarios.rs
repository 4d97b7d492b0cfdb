use snek::bump::allocate;
use snek::error::ErrCode;
use snek::gc::snek_try_gc;
use snek::memory::{Heap, Stack, FALSE, NIL};
use snek::print::snek_print;
use snek::runtime::{encode_int, parse_heap_size, parse_input, snek_error};

const START: u64 = 0x10000;
const BASE: u64 = 0x80000;
const SLOTS: usize = 8;

/// A running program: a heap, a heap pointer, a few stack slots that hold
/// every value it still needs, and what it has printed.
struct Machine {
    heap: Heap,
    heap_ptr: u64,
    stack: Stack,
    out: String,
    collections: usize,
}

fn machine(heap_size: &str) -> Machine {
    let size = parse_heap_size(heap_size);
    Machine {
        heap: Heap::new(START, size),
        heap_ptr: START,
        stack: Stack { base: BASE, words: vec![NIL; SLOTS] },
        out: String::new(),
        collections: 0,
    }
}

/// Allocates a vector as generated code does: bump, and on failure call the
/// allocation-failure handler and bump again.
fn make_vec(m: &mut Machine, len: u64, fill: u64) -> Result<u64, ErrCode> {
    if let Some(next) = allocate(&mut m.heap, m.heap_ptr, len, fill) {
        let r = m.heap_ptr + 1;
        m.heap_ptr = next;
        return Ok(r);
    }
    let rsp = BASE - 8 * (SLOTS as u64 - 1);
    let count = (len + 2) as isize;
    let ptr = snek_try_gc(&mut m.heap, &mut m.stack, count, m.heap_ptr, BASE, 0, rsp)?;
    m.collections += 1;
    m.heap_ptr = ptr;
    let next = allocate(&mut m.heap, m.heap_ptr, len, fill).unwrap();
    let r = m.heap_ptr + 1;
    m.heap_ptr = next;
    Ok(r)
}

fn word_index(r: u64, field: u64) -> usize {
    ((r - 1 - START) / 8 + 2 + field) as usize
}

fn get(m: &Machine, r: u64, field: u64) -> u64 {
    m.heap.words[word_index(r, field)]
}

fn set(m: &mut Machine, r: u64, field: u64, value: u64) {
    let i = word_index(r, field);
    m.heap.words[i] = value;
}

fn print(m: &mut Machine, value: u64) {
    snek_print(&m.heap, m.heap_ptr, value, &mut m.out);
}

/// What the hosting program does with a run: the output and the exit code.
fn finish(m: &mut Machine, result: Result<u64, ErrCode>) -> (String, i32) {
    match result {
        Ok(value) => {
            print(m, value);
            (m.out.clone(), 0)
        }
        Err(code) => {
            let (message, status) = snek_error(code.code());
            (format!("{}{}", m.out, message), status)
        }
    }
}

fn run_make_vec(input: &str, heap_size: &str) -> (String, i32) {
    let mut m = machine(heap_size);
    let n = parse_input(input);
    let result = make_vec(&mut m, n / 2, encode_int(0));
    finish(&mut m, result)
}

/// Inserts the keys 1 to `n` into a search tree, building a new path of nodes
/// `[key, left, right]` for each key. Slot 0 holds the tree, slot 1 the part
/// of the new path built so far.
fn bst_loop(m: &mut Machine, n: i64) -> Result<u64, ErrCode> {
    m.stack.words[0] = FALSE;
    for key in 1..=n {
        let leaf = make_vec(m, 3, FALSE)?;
        set(m, leaf, 0, encode_int(key));
        m.stack.words[1] = leaf;
        for above in (1..key).rev() {
            let node = make_vec(m, 3, FALSE)?;
            set(m, node, 0, encode_int(above));
            let child = m.stack.words[1];
            set(m, node, 2, child);
            m.stack.words[1] = node;
        }
        m.stack.words[0] = m.stack.words[1];
        m.stack.words[1] = NIL;
    }
    Ok(m.stack.words[0])
}

fn run_bst_loop(input: &str, heap_size: &str) -> (String, i32, usize) {
    let mut m = machine(heap_size);
    let n = (parse_input(input) as i64) / 2;
    let result = bst_loop(&mut m, n);
    let (out, status) = finish(&mut m, result);
    (out, status, m.collections)
}

#[test]
fn make_vec_succ() {
    assert_eq!(run_make_vec("5", "10000"), ("[0, 0, 0, 0, 0]\n".to_string(), 0));
}

#[test]
fn make_vec_oom() {
    let (out, status) = run_make_vec("5", "5");
    assert!(out.contains("out of memory"));
    assert_eq!(status, 5);
}

#[test]
fn linked_list_manipulations() {
    let mut m = machine("10000");
    m.stack.words[0] = NIL;
    for value in (1..=5).rev() {
        let node = make_vec(&mut m, 2, NIL).unwrap();
        set(&mut m, node, 0, encode_int(value));
        let rest = m.stack.words[0];
        set(&mut m, node, 1, rest);
        m.stack.words[0] = node;
    }
    let mut at = m.stack.words[0];
    while at != NIL {
        let value = get(&m, at, 0);
        print(&mut m, value);
        at = get(&m, at, 1);
    }
    let mut reversed = NIL;
    let mut at = m.stack.words[0];
    while at != NIL {
        let next = get(&m, at, 1);
        set(&mut m, at, 1, reversed);
        reversed = at;
        at = next;
    }
    m.stack.words[0] = reversed;
    let mut at = reversed;
    while at != NIL {
        let value = get(&m, at, 0);
        print(&mut m, value);
        at = get(&m, at, 1);
    }
    let (out, status) = finish(&mut m, Ok(NIL));
    assert_eq!(out, "1\n2\n3\n4\n5\n5\n4\n3\n2\n1\nnil\n");
    assert_eq!(status, 0);
}

#[test]
fn linked_list_survives_collections_in_a_small_heap() {
    let mut m = machine("12");
    m.stack.words[0] = NIL;
    for value in 1..=20 {
        let node = make_vec(&mut m, 2, NIL).unwrap();
        set(&mut m, node, 0, encode_int(value));
        if value % 10 == 0 {
            let rest = m.stack.words[0];
            set(&mut m, node, 1, rest);
            m.stack.words[0] = node;
        }
    }
    assert!(m.collections >= 5);
    let list = m.stack.words[0];
    let (out, status) = finish(&mut m, Ok(list));
    assert_eq!(out, "[20, [10, nil]]\n");
    assert_eq!(status, 0);
}

#[test]
fn bst_loop_3() {
    let (out, status, collections) = run_bst_loop("10", "200");
    assert_eq!(
        out,
        "[1, false, [2, false, [3, false, [4, false, [5, false, [6, false, [7, false, [8, false, [9, false, [10, false, false]]]]]]]]]]\n"
    );
    assert_eq!(status, 0);
    assert!(collections >= 1);
}

#[test]
fn bst_loop_2() {
    let (out, status, _) = run_bst_loop("10", "300");
    assert_eq!(
        out,
        "[1, false, [2, false, [3, false, [4, false, [5, false, [6, false, [7, false, [8, false, [9, false, [10, false, false]]]]]]]]]]\n"
    );
    assert_eq!(status, 0);
}

#[test]
fn bst_loop_4() {
    let (out, status, collections) = run_bst_loop("10", "50");
    assert!(out.contains("out of memory"));
    assert_eq!(status, 5);
    assert!(collections >= 1);
}

#[test]
fn set_gc_set() {
    let mut m = machine("5");
    let first = make_vec(&mut m, 3, encode_int(0)).unwrap();
    m.stack.words[0] = first;
    set(&mut m, first, 0, encode_int(1));
    m.stack.words[0] = NIL;
    let second = make_vec(&mut m, 3, encode_int(0)).unwrap();
    m.stack.words[0] = second;
    set(&mut m, second, 0, encode_int(4));
    set(&mut m, second, 1, encode_int(5));
    set(&mut m, second, 2, encode_int(6));
    assert_eq!(m.collections, 1);
    let (out, status) = finish(&mut m, Ok(second));
    assert_eq!(out, "[4, 5, 6]\n");
    assert_eq!(status, 0);
}

#[test]
fn no_heap_gc() {
    let mut m = machine("0");
    assert_eq!(make_vec(&mut m, 0, 0), Err(ErrCode::OutOfMemory));
    assert_eq!(m.heap_ptr, START);
    let (out, status) = finish(&mut m, Ok(encode_int(0)));
    assert_eq!(out, "0\n");
    assert_eq!(status, 0);
}
