//! The two memory regions the collector works on, and the tagged-word encoding.

use crate::layout::{lemma_obj_bounds, objects, tiled};
use vstd::prelude::*;

verus! {

/// The word that encodes boolean true.
pub const TRUE: u64 = 7;

/// The word that encodes boolean false.
pub const FALSE: u64 = 3;

/// The word that encodes nil.
pub const NIL: u64 = 1;

/// The reserved heap region. `words[i]` is the 64-bit word at byte address
/// `start + 8 * i`; the region ends at `start + 8 * words.len()`.
pub struct Heap {
    pub start: u64,
    pub words: Vec<u64>,
}

/// A stretch of the machine stack. `words[i]` is the word at byte address
/// `base - 8 * i`, so index 0 is the highest address.
pub struct Stack {
    pub base: u64,
    pub words: Vec<u64>,
}

impl Heap {
    /// The region is word aligned, does not start at address 0, and one word past
    /// its end is still a representable address.
    pub open spec fn wf(&self) -> bool {
        &&& self.start >= 8
        &&& self.start % 8 == 0
        &&& self.start + 8 * self.words@.len() + 8 <= u64::MAX
    }

    /// Byte address one past the last word of the region.
    pub open spec fn end(&self) -> int {
        self.start + 8 * self.words@.len()
    }

    /// Byte address of the word with index `i`.
    pub open spec fn addr(&self, i: int) -> int {
        self.start + 8 * i
    }

    /// `ptr` is a word boundary of the region (its end included).
    pub open spec fn has_ptr(&self, ptr: u64) -> bool {
        &&& self.start <= ptr <= self.end()
        &&& (ptr - self.start) % 8 == 0
    }

    /// Word index of the address `ptr`.
    pub open spec fn index(&self, ptr: u64) -> int {
        (ptr - self.start) / 8
    }

    /// The heap-reference test on a word: odd, none of the constants nil, false
    /// and true, and one above an address between the region's start and end.
    pub open spec fn is_ref(&self, w: u64) -> bool {
        &&& w % 2 == 1
        &&& w != NIL
        &&& w != FALSE
        &&& w != TRUE
        &&& self.start + 1 <= w <= self.end() + 1
    }

    /// Word index of the object that the reference `w` points to.
    pub open spec fn target(&self, w: u64) -> int {
        (w - 1 - self.start) / 8
    }

    /// The reference to the object at word index `i`.
    pub open spec fn ref_to(&self, i: int) -> int {
        self.start + 8 * i + 1
    }

    /// The `j`-th payload word of the object at word index `o`.
    pub open spec fn payload(&self, o: int, j: int) -> u64 {
        self.words@[o + 2 + j]
    }

    /// The length word of the object at word index `o`.
    pub open spec fn len_of(&self, o: int) -> int {
        self.words@[o + 1] as int
    }

    /// Start indices of the objects in the first `used` words, in address order.
    pub open spec fn objs(&self, used: int) -> Seq<int> {
        objects(self.words@, used)
    }

    /// An object starts at word index `o`.
    pub open spec fn is_obj(&self, used: int, o: int) -> bool {
        self.objs(used).contains(o)
    }

    /// The reference `w` is word aligned and points to the start of an object.
    pub open spec fn valid_ref(&self, used: int, w: u64) -> bool {
        &&& (w - 1 - self.start) % 8 == 0
        &&& self.is_obj(used, self.target(w))
    }

    /// The region is addressable and its first `used` words are a run of objects.
    pub open spec fn laid_out(&self, used: int) -> bool {
        &&& self.wf()
        &&& tiled(self.words@, used)
    }

    /// Every payload word that passes the reference test points to an object.
    pub open spec fn refs_ok(&self, used: int) -> bool {
        forall|o: int, j: int|
            self.is_obj(used, o) && 0 <= j < self.len_of(o) && self.is_ref(
                #[trigger] self.payload(o, j),
            ) ==> self.valid_ref(used, self.payload(o, j))
    }

    /// Every mark word is 0.
    pub open spec fn marks_clear(&self, used: int) -> bool {
        forall|o: int| self.is_obj(used, o) ==> #[trigger] self.words@[o] == 0
    }

    /// Every mark word is 0 or 1.
    pub open spec fn marks_binary(&self, used: int) -> bool {
        forall|o: int| self.is_obj(used, o) ==> #[trigger] self.words@[o] == 0 || self.words@[o] == 1
    }

    /// The objects whose mark word is not 0: those a collection in progress keeps.
    pub open spec fn live(&self, used: int) -> Set<int> {
        Set::new(|o: int| self.is_obj(used, o) && self.words@[o] != 0)
    }

    /// The state between collections: a run of objects with clear mark words whose
    /// references all point to objects.
    pub open spec fn ready(&self, used: int) -> bool {
        &&& self.laid_out(used)
        &&& self.refs_ok(used)
        &&& self.marks_clear(used)
    }

    /// The state while marking: as between collections, but mark words may be 1.
    pub open spec fn marking(&self, used: int) -> bool {
        &&& self.laid_out(used)
        &&& self.refs_ok(used)
        &&& self.marks_binary(used)
    }

    /// Word index of the address `addr`.
    pub fn word_index(&self, addr: u64) -> (i: usize)
        requires
            self.wf(),
            self.start <= addr <= self.end(),
        ensures
            i == self.index(addr),
    {
        let n: usize = self.words.len();
        let d: u64 = (addr - self.start) / 8;
        assert(d <= n);
        d as usize
    }

    /// Reads the length word of the object at word index `o`.
    pub(crate) fn obj_len(&self, Ghost(used): Ghost<int>, o: usize) -> (n: usize)
        requires
            tiled(self.words@, used),
            0 <= used,
            self.is_obj(used, o as int),
        ensures
            n == self.len_of(o as int),
            o + 2 + n <= used <= self.words@.len() <= usize::MAX,
    {
        proof {
            lemma_obj_bounds(self.words@, used, o as int);
        }
        let total: usize = self.words.len();
        let n: u64 = self.words[o + 1];
        assert(n <= total);
        n as usize
    }

    /// Byte address of the word with index `i`.
    pub fn word_addr(&self, i: usize) -> (a: u64)
        requires
            self.wf(),
            i <= self.words@.len(),
        ensures
            a == self.addr(i as int),
    {
        self.start + 8 * (i as u64)
    }
}

impl Stack {
    /// No slot of the stretch lies below address 0.
    pub open spec fn wf(&self) -> bool {
        8 * self.words@.len() <= self.base + 8
    }

    /// `addr` is the address of one of the words of the stretch.
    pub open spec fn has_slot(&self, addr: u64) -> bool {
        &&& addr <= self.base
        &&& (self.base - addr) % 8 == 0
        &&& (self.base - addr) / 8 < self.words@.len()
    }

    /// Index in `words` of the word at address `addr`.
    pub open spec fn slot(&self, addr: u64) -> int {
        (self.base - addr) / 8
    }

    /// The word at address `addr`.
    pub open spec fn at(&self, addr: u64) -> u64 {
        self.words@[self.slot(addr)]
    }

    /// The range from `stack_base` down to `curr_rsp`, if it is not empty, lies in
    /// the stretch.
    pub open spec fn spans(&self, stack_base: u64, curr_rsp: u64) -> bool {
        curr_rsp <= stack_base ==> self.has_slot(stack_base) && self.has_slot(curr_rsp)
    }

    /// `addr` is one of the word addresses from `stack_base` down to `curr_rsp`.
    pub open spec fn scanned(&self, stack_base: u64, curr_rsp: u64, addr: u64) -> bool {
        &&& curr_rsp <= addr <= stack_base
        &&& (stack_base - addr) % 8 == 0
    }

    /// Reads the word at address `addr`.
    pub fn read(&self, addr: u64) -> (w: u64)
        requires
            self.has_slot(addr),
        ensures
            w == self.at(addr),
    {
        let n: usize = self.words.len();
        let d: u64 = (self.base - addr) / 8;
        assert(d < n);
        self.words[d as usize]
    }

    /// Writes `w` to the word at address `addr`.
    pub fn write(&mut self, addr: u64, w: u64)
        requires
            old(self).has_slot(addr),
        ensures
            final(self).base == old(self).base,
            final(self).words@ == old(self).words@.update(old(self).slot(addr), w),
    {
        let n: usize = self.words.len();
        let d: u64 = (self.base - addr) / 8;
        assert(d < n);
        self.words[d as usize] = w;
    }
}

/// Whether the word `obj` is a heap reference: it is odd, is none of nil, false
/// and true, and `obj - 1` lies between the start and the end of the heap.
pub fn is_heap_obj(heap: &Heap, obj: u64) -> (b: bool)
    requires
        heap.wf(),
    ensures
        b == heap.is_ref(obj),
{
    if obj == TRUE || obj == FALSE || obj == NIL || obj % 2 == 0 {
        return false;
    }
    let end: u64 = heap.start + 8 * (heap.words.len() as u64);
    obj - 1 >= heap.start && obj - 1 <= end
}

/// Two heaps over the same region that differ at most in mark words.
pub open spec fn same_bodies(a: Heap, b: Heap, used: int) -> bool {
    &&& a.start == b.start
    &&& a.words@.len() == b.words@.len()
    &&& forall|p: int|
        0 <= p < a.words@.len() && !a.is_obj(used, p) ==> #[trigger] a.words@[p] == b.words@[p]
}

} // verus!
