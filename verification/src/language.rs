//! Source-language identification by file extension.

use vstd::prelude::*;

use crate::paths::{path_extension, path_extension_of};

verus! {

/// Languages supported by Sift.
#[derive(Debug, Clone, Copy, PartialEq, Eq, Structural, Hash, PartialOrd, Ord)]
pub enum Language {
    Rust,
    C,
    Cpp,
    Go,
    JavaScript,
    TypeScript,
    Python,
}

/// ASCII lower-casing of one character (other characters are unchanged).
pub open spec fn ascii_lower(c: char) -> char {
    if 'A' <= c && c <= 'Z' {
        ((c as u32) + 32) as char
    } else {
        c
    }
}

/// ASCII lower-casing of a character sequence.
pub open spec fn ascii_lower_seq(s: Seq<char>) -> Seq<char> {
    Seq::new(s.len(), |i: int| ascii_lower(s[i]))
}

/// The language that a file extension denotes, compared case-insensitively.
pub open spec fn language_for_extension(ext: Seq<char>) -> Option<Language> {
    let e = ascii_lower_seq(ext);
    if e == "rs"@ {
        Some(Language::Rust)
    } else if e == "c"@ || e == "h"@ {
        Some(Language::C)
    } else if e == "cc"@ || e == "cpp"@ || e == "cxx"@ || e == "c++"@ || e == "hpp"@
        || e == "hh"@ || e == "hxx"@ {
        Some(Language::Cpp)
    } else if e == "go"@ {
        Some(Language::Go)
    } else if e == "js"@ || e == "mjs"@ || e == "cjs"@ || e == "jsx"@ {
        Some(Language::JavaScript)
    } else if e == "ts"@ || e == "tsx"@ || e == "mts"@ || e == "cts"@ {
        Some(Language::TypeScript)
    } else if e == "py"@ || e == "pyi"@ {
        Some(Language::Python)
    } else {
        None
    }
}

/// Two sequences that differ only in the case of ASCII letters.
pub open spec fn equal_ignoring_ascii_case(a: Seq<char>, b: Seq<char>) -> bool {
    &&& a.len() == b.len()
    &&& forall|i: int| 0 <= i < a.len() ==> ascii_lower(#[trigger] a[i]) == ascii_lower(b[i])
}

/// Extension lookup is case-insensitive: extensions that differ only in
/// ASCII case denote the same language.
pub proof fn lemma_extension_case_insensitive(a: Seq<char>, b: Seq<char>)
    requires
        equal_ignoring_ascii_case(a, b),
    ensures
        language_for_extension(a) == language_for_extension(b),
{
    assert(ascii_lower_seq(a) =~= ascii_lower_seq(b));
}

/// Human-readable name of a language.
pub open spec fn language_name(lang: Language) -> Seq<char> {
    match lang {
        Language::Rust => "Rust"@,
        Language::C => "C"@,
        Language::Cpp => "C++"@,
        Language::Go => "Go"@,
        Language::JavaScript => "JavaScript"@,
        Language::TypeScript => "TypeScript"@,
        Language::Python => "Python"@,
    }
}

/// No language name is longer than ten characters.
pub proof fn lemma_language_name_len(lang: Language)
    ensures
        1 <= language_name(lang).len() <= 10,
{
    reveal_strlit("Rust");
    reveal_strlit("C");
    reveal_strlit("C++");
    reveal_strlit("Go");
    reveal_strlit("JavaScript");
    reveal_strlit("TypeScript");
    reveal_strlit("Python");
}

/// Position of a language in declaration order; the order used to break ties.
pub open spec fn language_rank(lang: Language) -> nat {
    match lang {
        Language::Rust => 0,
        Language::C => 1,
        Language::Cpp => 2,
        Language::Go => 3,
        Language::JavaScript => 4,
        Language::TypeScript => 5,
        Language::Python => 6,
    }
}

/// The characters of a string slice, in order.
pub fn chars_of(s: &str) -> (v: Vec<char>)
    ensures
        v@ == s@,
{
    let n = s.unicode_len();
    let mut v: Vec<char> = Vec::new();
    let mut i: usize = 0;
    while i < n
        invariant
            n == s@.len(),
            i <= n,
            v@ == s@.subrange(0, i as int),
        decreases n - i,
    {
        v.push(s.get_char(i));
        i = i + 1;
    }
    proof {
        assert(s@.subrange(0, n as int) =~= s@);
    }
    v
}

/// Whether a character sequence equals a string slice.
pub fn chars_eq_str(v: &Vec<char>, s: &str) -> (b: bool)
    ensures
        b == (v@ == s@),
{
    let n = s.unicode_len();
    if v.len() != n {
        return false;
    }
    let mut i: usize = 0;
    while i < n
        invariant
            n == s@.len(),
            n == v@.len(),
            i <= n,
            forall|k: int| 0 <= k < i ==> v@[k] == s@[k],
        decreases n - i,
    {
        if v[i] != s.get_char(i) {
            return false;
        }
        i = i + 1;
    }
    proof {
        assert(v@ =~= s@);
    }
    true
}

/// ASCII lower-casing of one character.
pub fn to_ascii_lower(c: char) -> (r: char)
    ensures
        r == ascii_lower(c),
{
    if 'A' <= c && c <= 'Z' {
        let u: u8 = (c as u8) + 32;
        u as char
    } else {
        c
    }
}

impl Language {
    /// Language for a file-extension string (case-insensitive).
    pub fn from_extension(ext: &str) -> (r: Option<Language>)
        ensures
            r == language_for_extension(ext@),
    {
        let chars = chars_of(ext);
        let mut e: Vec<char> = Vec::new();
        let mut i: usize = 0;
        while i < chars.len()
            invariant
                chars@ == ext@,
                i <= chars@.len(),
                e@ == ascii_lower_seq(chars@.subrange(0, i as int)),
            decreases chars@.len() - i,
        {
            e.push(to_ascii_lower(chars[i]));
            i = i + 1;
            proof {
                assert(e@ =~= ascii_lower_seq(chars@.subrange(0, i as int)));
            }
        }
        proof {
            assert(chars@.subrange(0, chars@.len() as int) =~= chars@);
        }
        if chars_eq_str(&e, "rs") {
            Some(Language::Rust)
        } else if chars_eq_str(&e, "c") || chars_eq_str(&e, "h") {
            Some(Language::C)
        } else if chars_eq_str(&e, "cc") || chars_eq_str(&e, "cpp") || chars_eq_str(&e, "cxx")
            || chars_eq_str(&e, "c++") || chars_eq_str(&e, "hpp") || chars_eq_str(&e, "hh")
            || chars_eq_str(&e, "hxx") {
            Some(Language::Cpp)
        } else if chars_eq_str(&e, "go") {
            Some(Language::Go)
        } else if chars_eq_str(&e, "js") || chars_eq_str(&e, "mjs") || chars_eq_str(&e, "cjs")
            || chars_eq_str(&e, "jsx") {
            Some(Language::JavaScript)
        } else if chars_eq_str(&e, "ts") || chars_eq_str(&e, "tsx") || chars_eq_str(&e, "mts")
            || chars_eq_str(&e, "cts") {
            Some(Language::TypeScript)
        } else if chars_eq_str(&e, "py") || chars_eq_str(&e, "pyi") {
            Some(Language::Python)
        } else {
            None
        }
    }

    /// Language detected from a path's extension.
    pub fn detect(path: &str) -> (r: Option<Language>)
        ensures
            r == match path_extension_of(path@) {
                Some(e) => language_for_extension(e),
                None => None,
            },
    {
        match path_extension(path) {
            Some(ext) => Language::from_extension(ext.as_str()),
            None => None,
        }
    }

    /// Human-readable name used in reports.
    pub fn name(self) -> (r: &'static str)
        ensures
            r@ == language_name(self),
    {
        match self {
            Language::Rust => "Rust",
            Language::C => "C",
            Language::Cpp => "C++",
            Language::Go => "Go",
            Language::JavaScript => "JavaScript",
            Language::TypeScript => "TypeScript",
            Language::Python => "Python",
        }
    }

    /// Position in declaration order (`Rust` first, `Python` last).
    pub fn rank(self) -> (r: u8)
        ensures
            r == language_rank(self),
    {
        match self {
            Language::Rust => 0,
            Language::C => 1,
            Language::Cpp => 2,
            Language::Go => 3,
            Language::JavaScript => 4,
            Language::TypeScript => 5,
            Language::Python => 6,
        }
    }
}

} // verus!
