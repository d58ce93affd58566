//! Byte-level primitives: content hashing, byte counting and substring search.

use vstd::prelude::*;

verus! {

/// FNV-1a 64-bit offset basis; the hash of empty input.
pub const FNV1A_OFFSET_BASIS: u64 = 0xcbf2_9ce4_8422_2325;

/// FNV-1a 64-bit prime.
pub const FNV1A_PRIME: u64 = 0x0000_0100_0000_01b3;

/// One FNV-1a round: xor in the byte, then multiply modulo 2^64.
pub open spec fn fnv1a_step(acc: u64, byte: u8) -> u64 {
    (acc ^ (byte as u64)).wrapping_mul(FNV1A_PRIME)
}

/// FNV-1a 64-bit hash of a byte sequence (a left fold of `fnv1a_step`).
pub open spec fn fnv1a_spec(data: Seq<u8>) -> u64
    decreases data.len(),
{
    if data.len() == 0 {
        FNV1A_OFFSET_BASIS
    } else {
        fnv1a_step(fnv1a_spec(data.drop_last()), data.last())
    }
}

/// Number of positions of `data` that hold `value`.
pub open spec fn count_spec(data: Seq<u8>, value: u8) -> nat
    decreases data.len(),
{
    if data.len() == 0 {
        0
    } else {
        count_spec(data.drop_last(), value) + if data.last() == value { 1nat } else { 0nat }
    }
}

/// `needle` occurs in `haystack` starting at offset `i`.
pub open spec fn occurs_at(haystack: Seq<u8>, needle: Seq<u8>, i: int) -> bool {
    &&& 0 <= i
    &&& i + needle.len() <= haystack.len()
    &&& haystack.subrange(i, i + needle.len()) == needle
}

/// Offset of the first occurrence of `needle` in `haystack`, if any.
pub open spec fn first_occurrence(haystack: Seq<u8>, needle: Seq<u8>) -> Option<int> {
    if exists|i: int| occurs_at(haystack, needle, i) {
        Some(choose|i: int| occurs_at(haystack, needle, i)
            && forall|j: int| 0 <= j < i ==> !occurs_at(haystack, needle, j))
    } else {
        None
    }
}

/// Non-cryptographic FNV-1a 64-bit hash of `data`.
pub fn fnv1a_hash(data: &[u8]) -> (h: u64)
    ensures
        h == fnv1a_spec(data@),
{
    let mut acc: u64 = FNV1A_OFFSET_BASIS;
    let mut i: usize = 0;
    while i < data.len()
        invariant
            i <= data@.len(),
            acc == fnv1a_spec(data@.subrange(0, i as int)),
        decreases data@.len() - i,
    {
        proof {
            assert(data@.subrange(0, i + 1).drop_last() =~= data@.subrange(0, i as int));
        }
        acc = (acc ^ (data[i] as u64)).wrapping_mul(FNV1A_PRIME);
        i = i + 1;
    }
    proof {
        assert(data@.subrange(0, data@.len() as int) =~= data@);
    }
    acc
}

/// Non-cryptographic FNV-1a 64-bit hash of `data`; the empty input hashes
/// to [`FNV1A_OFFSET_BASIS`].
pub fn hash_bytes(data: &[u8]) -> (h: u64)
    ensures
        h == fnv1a_spec(data@),
        data@.len() == 0 ==> h == FNV1A_OFFSET_BASIS,
{
    if data.len() == 0 {
        return FNV1A_OFFSET_BASIS;
    }
    fnv1a_hash(data)
}

/// Number of bytes in `data` equal to `value`.
pub fn count_byte(data: &[u8], value: u8) -> (n: usize)
    ensures
        n == count_spec(data@, value),
        n <= data@.len(),
{
    let mut n: usize = 0;
    let mut i: usize = 0;
    while i < data.len()
        invariant
            i <= data@.len(),
            n == count_spec(data@.subrange(0, i as int), value),
            n <= i,
        decreases data@.len() - i,
    {
        proof {
            assert(data@.subrange(0, i + 1).drop_last() =~= data@.subrange(0, i as int));
        }
        if data[i] == value {
            n = n + 1;
        }
        i = i + 1;
    }
    proof {
        assert(data@.subrange(0, data@.len() as int) =~= data@);
    }
    n
}

/// Whether `needle` occurs in `haystack` at offset `start`.
fn matches_at(haystack: &[u8], needle: &[u8], start: usize) -> (b: bool)
    requires
        start + needle@.len() <= haystack@.len(),
    ensures
        b == occurs_at(haystack@, needle@, start as int),
{
    let hlen = haystack.len();
    let mut k: usize = 0;
    while k < needle.len()
        invariant
            hlen == haystack@.len(),
            start + needle@.len() <= haystack@.len(),
            k <= needle@.len(),
            forall|m: int| 0 <= m < k ==> haystack@[start + m] == needle@[m],
        decreases needle@.len() - k,
    {
        if haystack[start + k] != needle[k] {
            proof {
                assert(haystack@.subrange(start as int, start + needle@.len())[k as int]
                    != needle@[k as int]);
            }
            return false;
        }
        k = k + 1;
    }
    proof {
        assert(haystack@.subrange(start as int, start + needle@.len()) =~= needle@);
    }
    true
}

/// Offset of the first occurrence of `needle` inside `haystack`.
///
/// An empty `needle` matches at offset `0`. Returns `None` when there is no
/// match (including when `needle` is longer than `haystack`).
pub fn find_bytes(haystack: &[u8], needle: &[u8]) -> (r: Option<usize>)
    ensures
        r matches Some(i) ==> occurs_at(haystack@, needle@, i as int)
            && forall|j: int| 0 <= j < i ==> !occurs_at(haystack@, needle@, j),
        r is None ==> forall|j: int| !occurs_at(haystack@, needle@, j),
        r == (match first_occurrence(haystack@, needle@) {
            Some(i) => Some(i as usize),
            None => None,
        }),
{
    if needle.len() == 0 {
        proof {
            assert(haystack@.subrange(0, 0) =~= needle@);
        }
        let r = Some(0usize);
        proof { lemma_first_occurrence(haystack@, needle@, 0); }
        return r;
    }
    if needle.len() > haystack.len() {
        return None;
    }
    let last = haystack.len() - needle.len();
    let mut i: usize = 0;
    while i <= last
        invariant
            last == haystack@.len() - needle@.len(),
            needle@.len() > 0,
            haystack@.len() <= usize::MAX,
            i <= last + 1,
            forall|j: int| 0 <= j < i ==> !occurs_at(haystack@, needle@, j),
        decreases last + 1 - i,
    {
        if matches_at(haystack, needle, i) {
            proof { lemma_first_occurrence(haystack@, needle@, i as int); }
            return Some(i);
        }
        i = i + 1;
    }
    None
}

/// An empty needle is found at offset 0, and a needle longer than the
/// haystack is never found.
pub proof fn lemma_find_edge_cases(haystack: Seq<u8>, needle: Seq<u8>)
    ensures
        needle.len() == 0 ==> first_occurrence(haystack, needle) == Some(0int),
        needle.len() > haystack.len() ==> first_occurrence(haystack, needle) is None,
{
    if needle.len() == 0 {
        assert(haystack.subrange(0, 0) =~= needle);
        lemma_first_occurrence(haystack, needle, 0);
    }
}

/// The least occurrence is what `first_occurrence` picks.
proof fn lemma_first_occurrence(haystack: Seq<u8>, needle: Seq<u8>, i: int)
    requires
        occurs_at(haystack, needle, i),
        forall|j: int| 0 <= j < i ==> !occurs_at(haystack, needle, j),
    ensures
        first_occurrence(haystack, needle) == Some(i),
{
    let k = choose|k: int| occurs_at(haystack, needle, k)
        && forall|j: int| 0 <= j < k ==> !occurs_at(haystack, needle, j);
    assert(occurs_at(haystack, needle, k));
    if k < i {
        assert(!occurs_at(haystack, needle, k));
    }
    if i < k {
        assert(!occurs_at(haystack, needle, i));
    }
}

} // verus!
