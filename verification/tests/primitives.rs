use sift::primitives::{count_byte, find_bytes, fnv1a_hash, hash_bytes, FNV1A_OFFSET_BASIS};

fn baseline_find(haystack: &[u8], needle: &[u8]) -> Option<usize> {
    if needle.is_empty() {
        return Some(0);
    }
    if needle.len() > haystack.len() {
        return None;
    }
    let last = haystack.len() - needle.len();
    (0..=last).find(|&i| &haystack[i..i + needle.len()] == needle)
}

fn baseline_hash(data: &[u8]) -> u64 {
    const BASIS: u64 = 0xcbf2_9ce4_8422_2325;
    const PRIME: u64 = 0x0000_0100_0000_01b3;
    data.iter().fold(BASIS, |acc, &byte| (acc ^ u64::from(byte)).wrapping_mul(PRIME))
}

fn baseline_count(data: &[u8], value: u8) -> usize {
    data.iter().filter(|&&b| b == value).count()
}

struct XorShift(u64);

impl XorShift {
    fn next(&mut self) -> u64 {
        let mut x = self.0;
        x ^= x >> 12;
        x ^= x << 25;
        x ^= x >> 27;
        self.0 = x;
        x.wrapping_mul(0x2545_F491_4F6C_DD1D)
    }

    fn below(&mut self, bound: usize) -> usize {
        (self.next() % bound as u64) as usize
    }
}

#[test]
fn find_handles_empty_inputs() {
    assert_eq!(find_bytes(b"", b""), Some(0));
    assert_eq!(find_bytes(b"", b"a"), None);
    assert_eq!(find_bytes(b"abc", b""), Some(0));
    assert_eq!(find_bytes(b"abc", b"abcd"), None);
}

#[test]
fn binary_data_with_nul_bytes_is_ordinary_input() {
    let data = [0x00, 0x01, b'a', 0x00, b'b'];
    assert_eq!(find_bytes(&data, &[b'a', 0x00]), Some(2));
    assert_eq!(count_byte(&data, 0x00), 2);
}

#[test]
fn fixed_cases_match_baseline() {
    let cases: &[(&[u8], &[u8])] = &[
        (b"", b""),
        (b"", b"a"),
        (b"abc", b""),
        (b"abc", b"c"),
        (b"abc", b"abcd"),
        (b"aaaa", b"aa"),
        (b"aaaab", b"aab"),
        (&[0u8; 16], &[0u8; 4]),
        (&[255u8; 8], &[255u8; 3]),
        (b"hello\0world", b"\0w"),
        (b"mississippi", b"issip"),
    ];

    for &(haystack, needle) in cases {
        assert_eq!(
            find_bytes(haystack, needle),
            baseline_find(haystack, needle),
            "find mismatch for {haystack:?} / {needle:?}"
        );
        assert_eq!(hash_bytes(haystack), baseline_hash(haystack), "hash mismatch");
        assert_eq!(count_byte(haystack, 0), baseline_count(haystack, 0), "count NUL");
        assert_eq!(count_byte(haystack, b'a'), baseline_count(haystack, b'a'), "count 'a'");
    }
}

#[test]
fn hash_is_consistent_and_discriminates() {
    let a = b"sift context optimizer";
    assert_eq!(hash_bytes(a), hash_bytes(a), "same input, same hash");
    assert_eq!(hash_bytes(b""), FNV1A_OFFSET_BASIS);
    assert_eq!(hash_bytes(b"a"), 0xaf63_dc4c_8601_ec8c);
}

#[test]
fn count_matches_baseline_on_binary_payload() {
    let payload: Vec<u8> = (0..=255u8).cycle().take(4096).collect();
    for value in [0u8, 1, 127, 128, 255] {
        assert_eq!(count_byte(&payload, value), baseline_count(&payload, value));
    }
}

#[test]
fn randomized_inputs_match_baseline() {
    let mut rng = XorShift(0x5EED_2026_0826_DEAD);
    const ALPHABET: &[u8] = b"abcxyz01 \n\t\0{}()";

    for _ in 0..1500 {
        let hay_len = rng.below(400);
        let haystack: Vec<u8> = (0..hay_len).map(|_| ALPHABET[rng.below(ALPHABET.len())]).collect();

        let needle: Vec<u8> = if !haystack.is_empty() && rng.below(2) == 0 {
            let start = rng.below(haystack.len());
            let max_end = (start + rng.below(24) + 1).min(haystack.len());
            haystack[start..max_end].to_vec()
        } else {
            let n_len = rng.below(12);
            (0..n_len).map(|_| ALPHABET[rng.below(ALPHABET.len())]).collect()
        };

        assert_eq!(
            find_bytes(&haystack, &needle),
            baseline_find(&haystack, &needle),
            "find mismatch: hay={haystack:?} needle={needle:?}"
        );
        assert_eq!(hash_bytes(&haystack), baseline_hash(&haystack));
        let value = ALPHABET[rng.below(ALPHABET.len())];
        assert_eq!(count_byte(&haystack, value), baseline_count(&haystack, value));
    }
}

#[test]
fn fnv1a_known_values_and_first_occurrence() {
    assert_eq!(fnv1a_hash(b""), 0xcbf2_9ce4_8422_2325);
    assert_eq!(fnv1a_hash(b"a"), 0xaf63_dc4c_8601_ec8c);
    assert_eq!(fnv1a_hash(b"foobar"), 0x8594_4171_f739_67e8);
    assert_eq!(find_bytes(b"abcabc", b"bc"), Some(1));
    assert_eq!(find_bytes(b"abcabc", b"cb"), None);
    assert_eq!(count_byte(b"", 7), 0);
}
