//! Helpers shared by the language classifiers: the classifier result shape
//! and the C-family declarator rules.

use vstd::prelude::*;

use crate::model::SymbolKind;
use crate::syntax::{
    child_by_field, children_of, first_named, has_kind, node_text, SyntaxTree, TreeModel,
};

verus! {

/// The view of a classifier result: names as character sequences.
pub open spec fn pairs_view(v: Seq<(String, SymbolKind)>) -> Seq<(Seq<char>, SymbolKind)> {
    v.map_values(|p: (String, SymbolKind)| (p.0@, p.1))
}

/// One symbol of the given kind where a name was found, else none.
pub open spec fn one_spec(name: Option<Seq<char>>, kind: SymbolKind) -> Seq<(Seq<char>, SymbolKind)> {
    match name {
        Some(n) => seq![(n, kind)],
        None => seq![],
    }
}

/// Wraps an optional name into the shape classifiers return.
pub fn one(name: Option<String>, kind: SymbolKind) -> (r: Vec<(String, SymbolKind)>)
    ensures
        pairs_view(r@) == one_spec(
            match name {
                Some(n) => Some(n@),
                None => None,
            },
            kind,
        ),
{
    let mut r: Vec<(String, SymbolKind)> = Vec::new();
    match name {
        Some(n) => {
            r.push((n, kind));
            proof {
                assert(pairs_view(r@) =~= seq![(r@[0].0@, kind)]);
            }
        },
        None => {
            proof {
                assert(pairs_view(r@) =~= Seq::<(Seq<char>, SymbolKind)>::empty());
            }
        },
    }
    r
}

/// Removes every leading occurrence of `c`.
pub open spec fn trim_start_char(s: Seq<char>, c: char) -> Seq<char>
    decreases s.len(),
{
    if s.len() > 0 && s[0] == c {
        trim_start_char(s.drop_first(), c)
    } else {
        s
    }
}

/// Removes every trailing occurrence of `c`.
pub open spec fn trim_end_char(s: Seq<char>, c: char) -> Seq<char>
    decreases s.len(),
{
    if s.len() > 0 && s.last() == c {
        trim_end_char(s.drop_last(), c)
    } else {
        s
    }
}

/// Removes every leading and trailing occurrence of `c`.
pub open spec fn trim_char(s: Seq<char>, c: char) -> Seq<char> {
    trim_end_char(trim_start_char(s, c), c)
}

/// Exec form of `trim_start_char` and `trim_end_char` on one string.
pub fn trim_matching(s: &str, c: char, start: bool, end: bool) -> (r: String)
    ensures
        r@ == {
            let a = if start { trim_start_char(s@, c) } else { s@ };
            if end { trim_end_char(a, c) } else { a }
        },
{
    let chars = crate::language::chars_of(s);
    let n = chars.len();
    let mut lo: usize = 0;
    proof {
        assert(s@.subrange(0, n as int) =~= s@);
    }
    if start {
        while lo < n && chars[lo] == c
            invariant
                n == chars@.len(),
                chars@ == s@,
                lo <= n,
                trim_start_char(s@, c) == trim_start_char(s@.subrange(lo as int, n as int), c),
            decreases n - lo,
        {
            proof {
                assert(s@.subrange(lo as int, n as int).drop_first() =~= s@.subrange(lo + 1, n as int));
            }
            lo = lo + 1;
        }
        proof {
            assert(trim_start_char(s@.subrange(lo as int, n as int), c) == s@.subrange(lo as int, n as int));
        }
    }
    proof {
        assert(s@.subrange(0, n as int) =~= s@);
    }
    let ghost a = s@.subrange(lo as int, n as int);
    let mut hi: usize = n;
    if end {
        while hi > lo && chars[hi - 1] == c
            invariant
                n == chars@.len(),
                chars@ == s@,
                lo <= hi <= n,
                trim_end_char(a, c) == trim_end_char(s@.subrange(lo as int, hi as int), c),
            decreases hi,
        {
            proof {
                assert(s@.subrange(lo as int, hi as int).drop_last() =~= s@.subrange(lo as int, hi - 1));
            }
            hi = hi - 1;
        }
        proof {
            assert(trim_end_char(s@.subrange(lo as int, hi as int), c) == s@.subrange(lo as int, hi as int));
        }
    }
    let mut r = String::new();
    let mut k = lo;
    while k < hi
        invariant
            n == chars@.len(),
            chars@ == s@,
            lo <= k <= hi <= n,
            r@ == s@.subrange(lo as int, k as int),
        decreases hi - k,
    {
        r.push(chars[k]);
        k = k + 1;
        proof {
            assert(r@ =~= s@.subrange(lo as int, k as int));
        }
    }
    r
}

/// Declarator wrappers that a function declarator may sit inside.
pub open spec fn is_wrapping_declarator(t: TreeModel, i: int) -> bool {
    has_kind(t, i, "pointer_declarator"@) || has_kind(t, i, "reference_declarator"@)
        || has_kind(t, i, "parenthesized_declarator"@) || has_kind(t, i, "attributed_declarator"@)
        || has_kind(t, i, "init_declarator"@)
}

/// The declarator inside a wrapping declarator: its `declarator` field, else
/// its first named child.
pub open spec fn inner_declarator(t: TreeModel, i: int) -> Option<int> {
    match child_by_field(t, i, "declarator"@) {
        Some(c) => Some(c),
        None => first_named(t, children_of(t, i)),
    }
}

/// Whether a declarator node denotes a function (signature or definition),
/// looking through pointer, reference, parenthesized, attributed and
/// initialized declarators.
pub open spec fn is_function_declarator(t: TreeModel, i: int) -> bool
    decreases t.nodes.len() - i,
{
    if has_kind(t, i, "function_declarator"@) {
        true
    } else if is_wrapping_declarator(t, i) {
        match inner_declarator(t, i) {
            Some(c) => if i < c < t.nodes.len() { is_function_declarator(t, c) } else { false },
            None => false,
        }
    } else {
        false
    }
}

/// Declarator kinds that `declarator_name` descends through.
pub open spec fn is_named_through_declarator(t: TreeModel, i: int) -> bool {
    has_kind(t, i, "function_declarator"@) || has_kind(t, i, "array_declarator"@)
        || is_wrapping_declarator(t, i)
}

/// Name of a C/C++ declarator: the terminal identifier under the declarator
/// wrappers, with a destructor's `~` stripped and a qualified name reduced
/// to its last segment.
pub open spec fn declarator_name(t: TreeModel, i: int, source: Seq<u8>) -> Option<Seq<char>>
    decreases t.nodes.len() - i,
{
    if has_kind(t, i, "identifier"@) || has_kind(t, i, "field_identifier"@)
        || has_kind(t, i, "type_identifier"@) || has_kind(t, i, "property_identifier"@) {
        node_text(t, i, source)
    } else if has_kind(t, i, "destructor_name"@) {
        match node_text(t, i, source) {
            Some(s) => Some(trim_start_char(s, '~')),
            None => None,
        }
    } else if has_kind(t, i, "qualified_identifier"@) {
        let cs = children_of(t, i);
        if cs.len() > 0 && i < cs.last() < t.nodes.len() {
            declarator_name(t, cs.last(), source)
        } else {
            None
        }
    } else if is_named_through_declarator(t, i) {
        match inner_declarator(t, i) {
            Some(c) => if i < c < t.nodes.len() { declarator_name(t, c, source) } else { None },
            None => None,
        }
    } else {
        None
    }
}

/// Exec form of `is_wrapping_declarator`.
fn wrapping_declarator(t: &SyntaxTree, i: usize) -> (r: bool)
    ensures
        r == is_wrapping_declarator(t@, i as int),
{
    t.is_kind(i, "pointer_declarator") || t.is_kind(i, "reference_declarator")
        || t.is_kind(i, "parenthesized_declarator") || t.is_kind(i, "attributed_declarator")
        || t.is_kind(i, "init_declarator")
}

/// Exec form of `inner_declarator`.
fn inner_of(t: &SyntaxTree, i: usize) -> (r: Option<usize>)
    ensures
        match r {
            Some(c) => inner_declarator(t@, i as int) == Some(c as int),
            None => inner_declarator(t@, i as int) is None,
        },
{
    match t.child_by_field_name(i, "declarator") {
        Some(c) => Some(c),
        None => t.first_named_child(i),
    }
}

/// Whether a declarator node denotes a function.
pub fn function_declarator(t: &SyntaxTree, i: usize) -> (r: bool)
    ensures
        r == is_function_declarator(t@, i as int),
    decreases t.nodes@.len() - i,
{
    if t.is_kind(i, "function_declarator") {
        true
    } else if wrapping_declarator(t, i) {
        match inner_of(t, i) {
            Some(c) => if i < c && c < t.len() { function_declarator(t, c) } else { false },
            None => false,
        }
    } else {
        false
    }
}

/// Name of a C/C++ declarator (see `declarator_name`).
pub fn name_of_declarator(t: &SyntaxTree, i: usize, source: &[u8]) -> (r: Option<String>)
    ensures
        match r {
            Some(s) => declarator_name(t@, i as int, source@) == Some(s@),
            None => declarator_name(t@, i as int, source@) is None,
        },
    decreases t.nodes@.len() - i,
{
    if t.is_kind(i, "identifier") || t.is_kind(i, "field_identifier") || t.is_kind(i, "type_identifier")
        || t.is_kind(i, "property_identifier") {
        t.text(i, source)
    } else if t.is_kind(i, "destructor_name") {
        match t.text(i, source) {
            Some(s) => Some(trim_matching(s.as_str(), '~', true, false)),
            None => None,
        }
    } else if t.is_kind(i, "qualified_identifier") {
        let cs = t.children(i);
        if cs.len() > 0 {
            let last = cs[cs.len() - 1];
            proof {
                assert(children_of(t@, i as int).last() == last as int);
            }
            if i < last && last < t.len() {
                name_of_declarator(t, last, source)
            } else {
                None
            }
        } else {
            None
        }
    } else if t.is_kind(i, "function_declarator") || t.is_kind(i, "array_declarator")
        || wrapping_declarator(t, i) {
        match inner_of(t, i) {
            Some(c) => if i < c && c < t.len() { name_of_declarator(t, c, source) } else { None },
            None => None,
        }
    } else {
        None
    }
}

} // verus!
