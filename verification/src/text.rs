//! Character-sequence utilities: substring search, lexicographic orders and
//! decimal rendering.

use vstd::prelude::*;

use crate::language::chars_of;

verus! {

/// `needle` occurs in `text` at offset `i`.
pub open spec fn chars_occur_at(text: Seq<char>, needle: Seq<char>, i: int) -> bool {
    &&& 0 <= i
    &&& i + needle.len() <= text.len()
    &&& text.subrange(i, i + needle.len()) == needle
}

/// `needle` is a substring of `text` (the empty needle is a substring of everything).
pub open spec fn contains_chars(text: Seq<char>, needle: Seq<char>) -> bool {
    exists|i: int| chars_occur_at(text, needle, i)
}

/// Whether `needle` occurs in `text` at offset `start`.
fn chars_match_at(text: &Vec<char>, needle: &Vec<char>, start: usize) -> (b: bool)
    requires
        start + needle@.len() <= text@.len(),
    ensures
        b == chars_occur_at(text@, needle@, start as int),
{
    let tlen = text.len();
    let mut k: usize = 0;
    while k < needle.len()
        invariant
            tlen == text@.len(),
            start + needle@.len() <= text@.len(),
            k <= needle@.len(),
            forall|m: int| 0 <= m < k ==> text@[start + m] == needle@[m],
        decreases needle@.len() - k,
    {
        if text[start + k] != needle[k] {
            proof {
                assert(text@.subrange(start as int, start + needle@.len())[k as int]
                    != needle@[k as int]);
            }
            return false;
        }
        k = k + 1;
    }
    proof {
        assert(text@.subrange(start as int, start + needle@.len()) =~= needle@);
    }
    true
}

/// Whether `needle` is a substring of `text`.
pub fn str_contains(text: &str, needle: &str) -> (b: bool)
    ensures
        b == contains_chars(text@, needle@),
{
    let t = chars_of(text);
    let n = chars_of(needle);
    let tlen = t.len();
    let nlen = n.len();
    if nlen > tlen {
        proof {
            assert forall|i: int| !chars_occur_at(text@, needle@, i) by {
                assert(needle@.len() > text@.len());
            }
        }
        return false;
    }
    let last = tlen - nlen;
    let mut i: usize = 0;
    loop
        invariant
            t@ == text@,
            n@ == needle@,
            tlen == t@.len(),
            last == t@.len() - n@.len(),
            i <= last,
            forall|j: int| 0 <= j < i ==> !chars_occur_at(text@, needle@, j),
        decreases last - i,
    {
        if chars_match_at(&t, &n, i) {
            return true;
        }
        if i == last {
            proof {
                assert forall|j: int| !chars_occur_at(text@, needle@, j) by {
                    if 0 <= j && j + needle@.len() <= text@.len() {
                        assert(j <= last);
                    }
                }
            }
            return false;
        }
        i = i + 1;
    }
}

/// Strict lexicographic order over characters by code point; a proper
/// prefix comes first.
pub open spec fn lex_less(a: Seq<char>, b: Seq<char>) -> bool
    decreases a.len(),
{
    if a.len() == 0 {
        b.len() > 0
    } else if b.len() == 0 {
        false
    } else if a[0] != b[0] {
        a[0] < b[0]
    } else {
        lex_less(a.drop_first(), b.drop_first())
    }
}

/// The order of `String` keys: lexicographic by code point.
pub open spec fn string_less(a: Seq<char>, b: Seq<char>) -> bool {
    lex_less(a, b)
}

/// `lex_less` is irreflexive.
pub proof fn lemma_lex_irreflexive(a: Seq<char>)
    ensures
        !lex_less(a, a),
    decreases a.len(),
{
    if a.len() > 0 {
        lemma_lex_irreflexive(a.drop_first());
    }
}

/// Distinct sequences are ordered one way or the other.
pub proof fn lemma_lex_total(a: Seq<char>, b: Seq<char>)
    requires
        a != b,
    ensures
        lex_less(a, b) || lex_less(b, a),
    decreases a.len(),
{
    if a.len() == 0 {
        if b.len() == 0 {
            assert(a =~= b);
        }
    } else if b.len() > 0 {
        if a[0] == b[0] {
            if a.drop_first() == b.drop_first() {
                assert(a =~= seq![a[0]] + a.drop_first());
                assert(b =~= seq![b[0]] + b.drop_first());
            } else {
                lemma_lex_total(a.drop_first(), b.drop_first());
            }
        }
    }
}

/// `lex_less` is asymmetric.
pub proof fn lemma_lex_asymmetric(a: Seq<char>, b: Seq<char>)
    ensures
        lex_less(a, b) ==> !lex_less(b, a),
    decreases a.len(),
{
    if a.len() > 0 && b.len() > 0 {
        lemma_lex_asymmetric(a.drop_first(), b.drop_first());
    }
}

/// `lex_less` is transitive.
pub proof fn lemma_lex_transitive(a: Seq<char>, b: Seq<char>, c: Seq<char>)
    ensures
        lex_less(a, b) && lex_less(b, c) ==> lex_less(a, c),
    decreases a.len(),
{
    if a.len() > 0 && b.len() > 0 && c.len() > 0 {
        lemma_lex_transitive(a.drop_first(), b.drop_first(), c.drop_first());
    }
}

/// Exec form of `lex_less` on string slices.
pub fn str_lex_less(a: &str, b: &str) -> (r: bool)
    ensures
        r == lex_less(a@, b@),
{
    let x = chars_of(a);
    let y = chars_of(b);
    let mut i: usize = 0;
    proof {
        assert(a@.skip(0) =~= a@);
        assert(b@.skip(0) =~= b@);
    }
    while i < x.len() && i < y.len()
        invariant
            x@ == a@,
            y@ == b@,
            i <= x@.len(),
            i <= y@.len(),
            lex_less(a@, b@) == lex_less(a@.skip(i as int), b@.skip(i as int)),
        decreases x@.len() - i,
    {
        let cx = x[i];
        let cy = y[i];

        proof {
            assert(a@.skip(i as int)[0] == cx);
            assert(b@.skip(i as int)[0] == cy);
            assert(a@.skip(i as int).drop_first() =~= a@.skip(i + 1));
            assert(b@.skip(i as int).drop_first() =~= b@.skip(i + 1));
        }
        if cx != cy {
            return cx < cy;
        }
        i = i + 1;
    }
    proof {
        assert(a@.skip(i as int).len() == 0 || b@.skip(i as int).len() == 0);
    }
    i == x.len() && i < y.len()
}

/// Decimal digits of a natural number, most significant first (`0` is `"0"`).
pub open spec fn decimal_digits(n: nat) -> Seq<char>
    decreases n,
{
    if n < 10 {
        seq![digit_char(n)]
    } else {
        decimal_digits(n / 10).push(digit_char(n % 10))
    }
}

/// The character of a decimal digit.
pub open spec fn digit_char(d: nat) -> char {
    (('0' as u32) + d) as char
}

/// The decimal rendering of `n`.
pub fn decimal_string(n: u64) -> (s: String)
    ensures
        s@ == decimal_digits(n as nat),
{
    let mut digits: Vec<char> = Vec::new();
    let mut m: u64 = n;
    // digits are collected least significant first
    while m >= 10
        invariant
            decimal_digits(n as nat) == decimal_digits(m as nat) + digits@.reverse(),
        decreases m,
    {
        let d: u8 = (m % 10) as u8;
        let c: char = (48u8 + d) as char;
        proof {
            assert(c == digit_char((m % 10) as nat));
            assert(decimal_digits(m as nat) == decimal_digits((m / 10) as nat).push(c));
            assert(digits@.push(c).reverse() =~= seq![c] + digits@.reverse());
            assert(decimal_digits((m / 10) as nat).push(c) =~= decimal_digits((m / 10) as nat)
                + seq![c]);
        }
        digits.push(c);
        m = m / 10;
    }
    let last: char = (48u8 + (m as u8)) as char;
    proof {
        assert(last == digit_char(m as nat));
    }
    let mut s = String::new();
    s.push(last);
    let mut i: usize = digits.len();
    while i > 0
        invariant
            i <= digits@.len(),
            s@ == seq![last] + digits@.subrange(i as int, digits@.len() as int).reverse(),
            decimal_digits(n as nat) == seq![last] + digits@.reverse(),
        decreases i,
    {
        i = i - 1;
        s.push(digits[i]);
        proof {
            assert(digits@.subrange(i as int, digits@.len() as int).reverse() =~= digits@.subrange(
                i + 1,
                digits@.len() as int,
            ).reverse().push(digits@[i as int]));
        }
    }
    proof {
        assert(digits@.subrange(0, digits@.len() as int) =~= digits@);
    }
    s
}

} // verus!
