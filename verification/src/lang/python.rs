//! Python declarations: classes, functions and methods, and module-level
//! bindings (constants by the SCREAMING_CASE convention, else variables).

use vstd::prelude::*;

use crate::lang::common::{one, one_spec, pairs_view};
use crate::model::SymbolKind;
use crate::syntax::{
    ancestor_has_kind, child_by_field, field_text, has_kind, node_text, nth_ancestor, parent_of, SyntaxTree, TreeModel,
};

verus! {

/// Whether a character is uppercase, as `char::is_uppercase` decides (the
/// Unicode `Uppercase` property).
pub uninterp spec fn is_uppercase_char(c: char) -> bool;

/// Whether a character is lowercase, as `char::is_lowercase` decides (the
/// Unicode `Lowercase` property).
pub uninterp spec fn is_lowercase_char(c: char) -> bool;

/// Calls `char::is_uppercase`; claims only that the result is
/// `is_uppercase_char` of the character.
#[verifier::external_body]
fn char_is_uppercase(c: char) -> (r: bool)
    ensures
        r == is_uppercase_char(c),
{
    c.is_uppercase()
}

/// Calls `char::is_lowercase`; claims only that the result is
/// `is_lowercase_char` of the character.
#[verifier::external_body]
fn char_is_lowercase(c: char) -> (r: bool)
    ensures
        r == is_lowercase_char(c),
{
    c.is_lowercase()
}

/// A name that has an uppercase character and no lowercase one.
pub open spec fn looks_constant_spec(name: Seq<char>) -> bool {
    (exists|k: int| 0 <= k < name.len() && is_uppercase_char(name[k]))
        && !(exists|k: int| 0 <= k < name.len() && is_lowercase_char(name[k]))
}

/// Convention heuristic: SCREAMING_CASE module bindings are constants.
pub fn looks_constant(name: &str) -> (r: bool)
    ensures
        r == looks_constant_spec(name@),
{
    let chars = crate::language::chars_of(name);
    let mut upper = false;
    let mut k: usize = 0;
    while k < chars.len()
        invariant
            chars@ == name@,
            k <= chars@.len(),
            upper == exists|m: int| 0 <= m < k && is_uppercase_char(name@[m]),
            forall|m: int| 0 <= m < k ==> !is_lowercase_char(name@[m]),
        decreases chars@.len() - k,
    {
        if char_is_lowercase(chars[k]) {
            return false;
        }
        if char_is_uppercase(chars[k]) {
            upper = true;
        }
        k = k + 1;
    }
    upper
}

/// Whether the nearest enclosing class-or-function scope of node `i` is a
/// class: a def directly inside a class body is a method even when the class
/// sits inside a function.
pub open spec fn in_class_scope(t: TreeModel, i: int) -> bool
    decreases i,
{
    match parent_of(t, i) {
        Some(p) => if has_kind(t, p, "class_definition"@) {
            true
        } else if has_kind(t, p, "function_definition"@) {
            false
        } else {
            in_class_scope(t, p)
        },
        None => false,
    }
}

/// The binding that a module-level assignment declares: its left side where
/// that is a plain identifier.
pub open spec fn module_assignment(t: TreeModel, i: int, source: Seq<u8>) -> Seq<(Seq<char>, SymbolKind)> {
    match child_by_field(t, i, "left"@) {
        Some(l) => if has_kind(t, l, "identifier"@) {
            match node_text(t, l, source) {
                Some(name) => seq![(name, if looks_constant_spec(name) { SymbolKind::Constant } else { SymbolKind::Variable })],
                None => seq![],
            }
        } else {
            seq![]
        },
        None => seq![],
    }
}

/// The symbols that a Python syntax node declares.
pub open spec fn classify_python(t: TreeModel, i: int, source: Seq<u8>) -> Seq<(Seq<char>, SymbolKind)> {
    if has_kind(t, i, "class_definition"@) {
        one_spec(field_text(t, i, source, "name"@), SymbolKind::Class)
    } else if has_kind(t, i, "function_definition"@) {
        one_spec(
            field_text(t, i, source, "name"@),
            if in_class_scope(t, i) { SymbolKind::Method } else { SymbolKind::Function },
        )
    } else if has_kind(t, i, "assignment"@)
        && !ancestor_has_kind(t, i, "function_definition"@, "class_definition"@) {
        module_assignment(t, i, source)
    } else {
        seq![]
    }
}

/// Node kinds that open a scope for a `def`: a class or a function.
pub open spec fn is_scope(t: TreeModel, q: int) -> bool {
    has_kind(t, q, "class_definition"@) || has_kind(t, q, "function_definition"@)
}

/// The `n`-th ancestor of `i` is its nearest scope: it is a class or a
/// function, and no ancestor before it is.
pub open spec fn nearest_scope_at(t: TreeModel, i: int, n: nat, s: int) -> bool {
    &&& n >= 1
    &&& nth_ancestor(t, i, n) == Some(s)
    &&& is_scope(t, s)
    &&& forall|m: nat| 1 <= m < n ==> match #[trigger] nth_ancestor(t, i, m) {
        Some(q) => !is_scope(t, q),
        None => false,
    }
}

/// A node is in class scope exactly when its nearest class-or-function
/// ancestor is a class, whatever lies between (decorators, blocks, `if`).
proof fn lemma_in_class_scope_nearest(t: TreeModel, i: int, n: nat, s: int)
    requires
        nearest_scope_at(t, i, n, s),
    ensures
        in_class_scope(t, i) == has_kind(t, s, "class_definition"@),
    decreases n,
{
    let p = parent_of(t, i)->0;
    assert(nth_ancestor(t, i, 1) == nth_ancestor(t, p, 0));
    if n == 1 {
        assert(p == s);
    } else {
        assert(nth_ancestor(t, i, 1) matches Some(q) && !is_scope(t, q));
        assert(parent_of(t, i) == Some(p));
        let n1 = (n - 1) as nat;
        assert(nth_ancestor(t, i, n) == nth_ancestor(t, p, n1));
        assert forall|m: nat| 1 <= m < n1 implies match #[trigger] nth_ancestor(t, p, m) {
            Some(q) => !is_scope(t, q),
            None => false,
        } by {
            assert(nth_ancestor(t, i, m + 1) == nth_ancestor(t, p, m));
            assert(1 <= m + 1 < n);
        }
        lemma_in_class_scope_nearest(t, p, n1, s);
    }
}

/// A named Python `def` is one symbol: a method when its nearest
/// class-or-function ancestor is a class, a function when it is a function.
pub proof fn lemma_python_methods_by_nearest_scope(t: TreeModel, i: int, n: nat, s: int, source: Seq<u8>)
    requires
        has_kind(t, i, "function_definition"@),
        field_text(t, i, source, "name"@) is Some,
        nearest_scope_at(t, i, n, s),
    ensures
        classify_python(t, i, source) == seq![(
            field_text(t, i, source, "name"@)->0,
            if has_kind(t, s, "class_definition"@) { SymbolKind::Method } else { SymbolKind::Function },
        )],
{
    reveal_strlit("function_definition");
    reveal_strlit("class_definition");
    assert("function_definition"@[0] != "class_definition"@[0]);
    lemma_in_class_scope_nearest(t, i, n, s);
}

/// A named Python class definition is one class symbol.
pub proof fn lemma_python_classes(t: TreeModel, i: int, source: Seq<u8>)
    requires
        has_kind(t, i, "class_definition"@),
        field_text(t, i, source, "name"@) is Some,
    ensures
        classify_python(t, i, source) == seq![(field_text(t, i, source, "name"@)->0, SymbolKind::Class)],
{
}

/// Exec form of `in_class_scope`.
fn class_scope(t: &SyntaxTree, i: usize) -> (r: bool)
    ensures
        r == in_class_scope(t@, i as int),
{
    let mut n = i;
    loop
        invariant
            in_class_scope(t@, i as int) == in_class_scope(t@, n as int),
        decreases n,
    {
        match t.parent(n) {
            Some(p) => {
                if t.is_kind(p, "class_definition") {
                    return true;
                } else if t.is_kind(p, "function_definition") {
                    return false;
                }
                n = p;
            },
            None => {
                return false;
            },
        }
    }
}

/// Classifies one Python syntax node.
pub fn classify(t: &SyntaxTree, i: usize, source: &[u8]) -> (r: Vec<(String, SymbolKind)>)
    ensures
        pairs_view(r@) == classify_python(t@, i as int, source@),
{
    let mut empty: Vec<(String, SymbolKind)> = Vec::new();
    proof {
        assert(pairs_view(empty@) =~= Seq::<(Seq<char>, SymbolKind)>::empty());
    }
    if t.is_kind(i, "class_definition") {
        one(t.field_text(i, source, "name"), SymbolKind::Class)
    } else if t.is_kind(i, "function_definition") {
        let kind = if class_scope(t, i) { SymbolKind::Method } else { SymbolKind::Function };
        one(t.field_text(i, source, "name"), kind)
    } else if t.is_kind(i, "assignment")
        && !t.ancestor_has_kind(i, "function_definition", "class_definition") {
        match t.child_by_field_name(i, "left") {
            Some(l) => {
                if t.is_kind(l, "identifier") {
                    match t.text(l, source) {
                        Some(name) => {
                            let kind = if looks_constant(name.as_str()) {
                                SymbolKind::Constant
                            } else {
                                SymbolKind::Variable
                            };
                            empty.push((name, kind));
                            proof {
                                assert(pairs_view(empty@) =~= seq![(empty@[0].0@, kind)]);
                            }
                            empty
                        },
                        None => empty,
                    }
                } else {
                    empty
                }
            },
            None => empty,
        }
    } else {
        empty
    }
}

} // verus!
