//! Finding the leftmost occurrence of a byte or of a run of bytes, and copying bytes.

use vstd::prelude::*;

verus! {

/// Whether `pattern` occurs in `bytes` at index `i`.
pub open spec fn occurs_at(bytes: Seq<u8>, pattern: Seq<u8>, i: int) -> bool {
    &&& 0 <= i
    &&& i + pattern.len() <= bytes.len()
    &&& bytes.subrange(i, i + pattern.len()) == pattern
}

/// Whether `i` is the leftmost index at which `pattern` occurs in `bytes`.
pub open spec fn first_at(bytes: Seq<u8>, pattern: Seq<u8>, i: int) -> bool {
    &&& occurs_at(bytes, pattern, i)
    &&& forall|j: int| 0 <= j < i ==> !occurs_at(bytes, pattern, j)
}

/// The leftmost index at which `pattern` occurs in `bytes`, if it occurs at all.
pub open spec fn first_occurrence(bytes: Seq<u8>, pattern: Seq<u8>) -> Option<int> {
    if exists|i: int| first_at(bytes, pattern, i) {
        Some(choose|i: int| first_at(bytes, pattern, i))
    } else {
        None
    }
}

/// The first `max` bytes of `bytes`, or all of them where there are fewer.
pub open spec fn window(bytes: Seq<u8>, max: nat) -> Seq<u8> {
    if max <= bytes.len() {
        bytes.take(max as int)
    } else {
        bytes
    }
}

/// There is at most one leftmost occurrence.
pub proof fn lemma_first_at_unique(bytes: Seq<u8>, pattern: Seq<u8>, i: int)
    requires
        first_at(bytes, pattern, i),
    ensures
        first_occurrence(bytes, pattern) == Some(i),
{
    let c = choose|c: int| first_at(bytes, pattern, c);
    assert(first_at(bytes, pattern, c));
    if c < i {
        assert(!occurs_at(bytes, pattern, c));
    } else if i < c {
        assert(!occurs_at(bytes, pattern, i));
    }
}

/// A pattern that occurs at or before `i` has a leftmost occurrence at or before `i`.
proof fn lemma_leftmost_exists(bytes: Seq<u8>, pattern: Seq<u8>, i: int)
    requires
        occurs_at(bytes, pattern, i),
    ensures
        exists|c: int| 0 <= c <= i && first_at(bytes, pattern, c),
    decreases i,
{
    if exists|j: int| 0 <= j < i && occurs_at(bytes, pattern, j) {
        let j = choose|j: int| 0 <= j < i && occurs_at(bytes, pattern, j);
        lemma_leftmost_exists(bytes, pattern, j);
        let c = choose|c: int| 0 <= c <= j && first_at(bytes, pattern, c);
        assert(0 <= c <= i && first_at(bytes, pattern, c));
    } else {
        assert(first_at(bytes, pattern, i));
    }
}

/// What `first_occurrence` finds is the leftmost occurrence, and where it finds none the
/// pattern does not occur.
pub proof fn lemma_first_occurrence(bytes: Seq<u8>, pattern: Seq<u8>)
    ensures
        match first_occurrence(bytes, pattern) {
            Some(i) => first_at(bytes, pattern, i),
            None => forall|j: int| !occurs_at(bytes, pattern, j),
        },
{
    if first_occurrence(bytes, pattern) is None {
        assert forall|j: int| !occurs_at(bytes, pattern, j) by {
            if occurs_at(bytes, pattern, j) {
                lemma_leftmost_exists(bytes, pattern, j);
            }
        }
    }
}

/// A pattern of one byte occurs where that byte stands.
pub proof fn lemma_occurs_at_byte(bytes: Seq<u8>, byte: u8, i: int)
    ensures
        occurs_at(bytes, seq![byte], i) <==> (0 <= i < bytes.len() && bytes[i] == byte),
{
    if 0 <= i < bytes.len() {
        if bytes[i] == byte {
            assert(bytes.subrange(i, i + 1) =~= seq![byte]);
        } else {
            assert(bytes.subrange(i, i + 1)[0] == bytes[i]);
        }
    }
}

/// Whether `pattern` occurs in `bytes` at index `i`.
fn matches_at(bytes: &[u8], pattern: &[u8], i: usize) -> (r: bool)
    requires
        i + pattern.len() <= bytes.len(),
    ensures
        r == occurs_at(bytes@, pattern@, i as int),
{
    let n: usize = pattern.len();
    let mut k: usize = 0;
    while k < n
        invariant
            k <= n,
            n == pattern.len(),
            i + n <= bytes.len(),
            forall|j: int| 0 <= j < k ==> bytes@[i + j] == pattern@[j],
        decreases n - k,
    {
        if bytes[i + k] != pattern[k] {
            assert(bytes@.subrange(i as int, i + n)[k as int] == bytes@[i + k]);
            return false;
        }
        k += 1;
    }
    assert(bytes@.subrange(i as int, i + n) =~= pattern@);
    true
}

/// The leftmost index at which `pattern` occurs in `bytes`.
pub(crate) fn find(bytes: &[u8], pattern: &[u8]) -> (r: Option<usize>)
    ensures
        match r {
            Some(i) => {
                &&& first_occurrence(bytes@, pattern@) == Some(i as int)
                &&& i + pattern.len() <= bytes.len()
            },
            None => first_occurrence(bytes@, pattern@) is None,
        },
{
    let n: usize = pattern.len();
    if bytes.len() < n {
        return None;
    }
    let last: usize = bytes.len() - n;
    let mut i: usize = 0;
    loop
        invariant
            i <= last,
            n == pattern@.len(),
            last + n == bytes@.len(),
            forall|j: int| 0 <= j < i ==> !occurs_at(bytes@, pattern@, j),
        decreases last - i,
    {
        if matches_at(bytes, pattern, i) {
            proof {
                lemma_first_at_unique(bytes@, pattern@, i as int);
            }
            return Some(i);
        }
        if i == last {
            return None;
        }
        i += 1;
    }
}

/// The leftmost index at which `byte` stands in `bytes`.
pub(crate) fn find_byte(bytes: &[u8], byte: u8) -> (r: Option<usize>)
    ensures
        match r {
            Some(i) => first_occurrence(bytes@, seq![byte]) == Some(i as int) && i < bytes.len(),
            None => first_occurrence(bytes@, seq![byte]) is None,
        },
{
    let mut i: usize = 0;
    while i < bytes.len()
        invariant
            i <= bytes.len(),
            forall|j: int| 0 <= j < i ==> !occurs_at(bytes@, seq![byte], j),
        decreases bytes.len() - i,
    {
        proof {
            lemma_occurs_at_byte(bytes@, byte, i as int);
        }
        if bytes[i] == byte {
            proof {
                lemma_first_at_unique(bytes@, seq![byte], i as int);
            }
            return Some(i);
        }
        i += 1;
    }
    None
}

/// Copies `src` over the head of `dst`.
pub(crate) fn copy_to_head(dst: &mut [u8], src: &[u8])
    requires
        src@.len() <= old(dst)@.len(),
    ensures
        final(dst)@ == src@ + old(dst)@.skip(src@.len() as int),
{
    let ghost before = dst@;
    let n: usize = src.len();
    let mut i: usize = 0;
    while i < n
        invariant
            i <= n,
            n == src@.len(),
            n <= dst@.len(),
            dst@.len() == before.len(),
            forall|j: int| 0 <= j < i ==> dst@[j] == src@[j],
            forall|j: int| i <= j < dst@.len() ==> dst@[j] == before[j],
        decreases n - i,
    {
        dst[i] = src[i];
        i += 1;
    }
    assert(dst@ =~= src@ + before.skip(n as int));
}

} // verus!
