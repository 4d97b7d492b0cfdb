//! The shape of the allocated part of a heap: a gap-free run of objects, each a
//! mark word, a length word and that many payload words.

use vstd::prelude::*;

verus! {

/// Number of words taken by the object that starts at word index `o`.
pub open spec fn size_at(words: Seq<u64>, o: int) -> int {
    2 + words[o + 1]
}

/// An object starting at `at` lies wholly inside the first `used` words.
pub open spec fn fits(words: Seq<u64>, at: int, used: int) -> bool {
    0 <= at && at + 2 <= used && used <= words.len() && at + size_at(words, at) <= used
}

/// The words `at..used` are exactly a run of objects, the last one ending at `used`.
pub open spec fn tiled_from(words: Seq<u64>, at: int, used: int) -> bool
    decreases used - at,
{
    if at == used {
        0 <= at <= words.len()
    } else if fits(words, at, used) {
        tiled_from(words, at + size_at(words, at), used)
    } else {
        false
    }
}

/// Start indices, in address order, of the objects found by walking from `at`.
pub open spec fn objects_from(words: Seq<u64>, at: int, used: int) -> Seq<int>
    decreases used - at,
{
    if at != used && fits(words, at, used) {
        seq![at] + objects_from(words, at + size_at(words, at), used)
    } else {
        Seq::empty()
    }
}

/// The first `used` words are a gap-free run of objects.
pub open spec fn tiled(words: Seq<u64>, used: int) -> bool {
    tiled_from(words, 0, used)
}

/// Start indices of all objects in the first `used` words, in address order.
pub open spec fn objects(words: Seq<u64>, used: int) -> Seq<int> {
    objects_from(words, 0, used)
}

/// Where the object after the `k`-th one starts (or `used` after the last).
pub open spec fn next_start(s: Seq<int>, used: int, k: int) -> int {
    if k + 1 < s.len() {
        s[k + 1]
    } else {
        used
    }
}

/// `s` lists the object starts of a gap-free run covering `at..used`.
pub open spec fn is_layout_from(words: Seq<u64>, at: int, used: int, s: Seq<int>) -> bool {
    &&& 0 <= at <= used <= words.len()
    &&& (s.len() == 0 ==> at == used)
    &&& (s.len() > 0 ==> s[0] == at)
    &&& forall|k: int|
        0 <= k < s.len() ==> at <= #[trigger] s[k] && s[k] + 2 <= used && s[k] + size_at(
            words,
            s[k],
        ) <= used && (k == s.len() - 1 ==> s[k] + size_at(words, s[k]) == used)
    &&& forall|i: int, j: int|
        0 <= i < j < s.len() ==> #[trigger] s[i] + size_at(words, s[i]) <= #[trigger] s[j] && (j
            == i + 1 ==> s[i] + size_at(words, s[i]) == s[j])
}

/// `s` lists the object starts of a gap-free run covering the first `used` words.
pub open spec fn is_layout(words: Seq<u64>, used: int, s: Seq<int>) -> bool {
    is_layout_from(words, 0, used, s)
}

/// In a layout each object ends where the next one starts, and the last one at `used`.
pub proof fn lemma_next_start(words: Seq<u64>, at: int, used: int, s: Seq<int>, k: int)
    requires
        is_layout_from(words, at, used, s),
        0 <= k < s.len(),
    ensures
        s[k] + size_at(words, s[k]) == next_start(s, used, k),
        s[k] + 2 <= used,
        at <= s[k],
{
    if k + 1 < s.len() {
        assert(s[k] + size_at(words, s[k]) == s[k + 1]);
    }
}

/// A tiled region is laid out as its walk lists it.
pub proof fn lemma_walk_is_layout(words: Seq<u64>, at: int, used: int)
    requires
        tiled_from(words, at, used),
        0 <= at <= used,
    ensures
        is_layout_from(words, at, used, objects_from(words, at, used)),
    decreases used - at,
{
    let s = objects_from(words, at, used);
    if at != used {
        let nx = at + size_at(words, at);
        lemma_walk_is_layout(words, nx, used);
        let rest = objects_from(words, nx, used);
        assert(s =~= seq![at] + rest);
        assert forall|k: int| 0 <= k < s.len() implies at <= #[trigger] s[k] && s[k] + 2 <= used
            && s[k] + size_at(words, s[k]) <= used && (k == s.len() - 1 ==> s[k] + size_at(
            words,
            s[k],
        ) == used) by {
            if k > 0 {
                assert(s[k] == rest[k - 1]);
            }
        }
        assert forall|i: int, j: int| 0 <= i < j < s.len() implies #[trigger] s[i] + size_at(
            words,
            s[i],
        ) <= #[trigger] s[j] && (j == i + 1 ==> s[i] + size_at(words, s[i]) == s[j]) by {
            assert(s[j] == rest[j - 1]);
            if i > 0 {
                assert(s[i] == rest[i - 1]);
            } else {
                assert(rest[0] == nx);
            }
        }
    }
}

/// A region laid out as `s` is tiled, and its walk lists exactly `s`.
pub proof fn lemma_layout_is_walk(words: Seq<u64>, at: int, used: int, s: Seq<int>)
    requires
        is_layout_from(words, at, used, s),
    ensures
        tiled_from(words, at, used),
        objects_from(words, at, used) == s,
    decreases s.len(),
{
    if s.len() == 0 {
        assert(objects_from(words, at, used) =~= s);
    } else {
        let nx = at + size_at(words, at);
        let rest = s.subrange(1, s.len() as int);
        assert(s[0] == at);
        lemma_next_start(words, at, used, s, 0);
        assert forall|k: int| 0 <= k < rest.len() implies nx <= #[trigger] rest[k] && rest[k] + 2
            <= used && rest[k] + size_at(words, rest[k]) <= used && (k == rest.len() - 1
            ==> rest[k] + size_at(words, rest[k]) == used) by {
            assert(rest[k] == s[k + 1]);
            assert(s[0] + size_at(words, s[0]) <= s[k + 1]);
        }
        assert forall|i: int, j: int| 0 <= i < j < rest.len() implies #[trigger] rest[i] + size_at(
            words,
            rest[i],
        ) <= #[trigger] rest[j] && (j == i + 1 ==> rest[i] + size_at(words, rest[i])
            == rest[j]) by {
            assert(rest[i] == s[i + 1]);
            assert(rest[j] == s[j + 1]);
        }
        if rest.len() > 0 {
            assert(rest[0] == s[1]);
        }
        lemma_layout_is_walk(words, nx, used, rest);
        assert(objects_from(words, at, used) =~= s);
    }
}

/// Two word sequences that agree on every length word of a layout share that layout.
pub proof fn lemma_layout_frame(a: Seq<u64>, b: Seq<u64>, used: int, s: Seq<int>)
    requires
        is_layout(a, used, s),
        a.len() == b.len(),
        forall|k: int| 0 <= k < s.len() ==> a[#[trigger] s[k] + 1] == b[s[k] + 1],
    ensures
        is_layout(b, used, s),
        tiled(b, used),
        objects(b, used) == s,
{
    assert forall|k: int| 0 <= k < s.len() implies size_at(a, #[trigger] s[k]) == size_at(
        b,
        s[k],
    ) by {}
    lemma_layout_is_walk(b, 0, used, s);
}

/// No object starts strictly inside another: a word index inside the `k`-th
/// object, past its mark word, is not in the list of starts.
pub proof fn lemma_inside_is_no_start(words: Seq<u64>, used: int, s: Seq<int>, k: int, p: int)
    requires
        is_layout(words, used, s),
        0 <= k < s.len(),
        s[k] < p < s[k] + size_at(words, s[k]),
    ensures
        !s.contains(p),
{
    if s.contains(p) {
        let m = choose|m: int| 0 <= m < s.len() && s[m] == p;
        if m < k {
            assert(s[m] + size_at(words, s[m]) <= s[k]);
        } else if m > k {
            assert(s[k] + size_at(words, s[k]) <= s[m]);
        }
    }
}

/// The starts of a layout are distinct: each is found at its own index.
pub proof fn lemma_index_of_start(words: Seq<u64>, used: int, s: Seq<int>, k: int)
    requires
        is_layout(words, used, s),
        0 <= k < s.len(),
    ensures
        s.index_of(s[k]) == k,
{
    let i = s.index_of(s[k]);
    assert(s.contains(s[k]));
    if i < k {
        assert(s[i] + size_at(words, s[i]) <= s[k]);
    } else if k < i {
        assert(s[k] + size_at(words, s[k]) <= s[i]);
    }
}

/// An object of a tiled region lies wholly inside it.
pub proof fn lemma_obj_bounds(words: Seq<u64>, used: int, o: int)
    requires
        tiled(words, used),
        0 <= used,
        objects(words, used).contains(o),
    ensures
        0 <= o,
        o + 2 <= used <= words.len(),
        o + size_at(words, o) <= used,
{
    let s = objects(words, used);
    lemma_walk_is_layout(words, 0, used);
    let k = choose|k: int| 0 <= k < s.len() && s[k] == o;
    assert(s[k] + size_at(words, s[k]) <= used);
}

} // verus!
