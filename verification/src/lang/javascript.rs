//! JavaScript declarations: functions, classes, methods and variable
//! declarations (`const` bindings are constants, the rest variables).

use vstd::prelude::*;

use crate::lang::common::{one, one_spec, pairs_view, trim_char, trim_matching};
use crate::model::SymbolKind;
use crate::syntax::{any_has_kind, child_by_field, children_of, field_text, has_child_kind, has_kind, node_text, SyntaxTree, TreeModel};

verus! {

/// The identifiers bound by the variable declarators among `cs`.
pub open spec fn declarator_bindings(t: TreeModel, cs: Seq<int>, source: Seq<u8>, kind: SymbolKind) -> Seq<(Seq<char>, SymbolKind)>
    decreases cs.len(),
{
    if cs.len() == 0 {
        seq![]
    } else {
        let rest = declarator_bindings(t, cs.drop_last(), source, kind);
        let c = cs.last();
        if has_kind(t, c, "variable_declarator"@) {
            match child_by_field(t, c, "name"@) {
                Some(n) => if has_kind(t, n, "identifier"@) && node_text(t, n, source) is Some {
                    rest.push((node_text(t, n, source)->0, kind))
                } else {
                    rest
                },
                None => rest,
            }
        } else {
            rest
        }
    }
}

/// `const LIMIT = 10;` / `var x = 1;`: one symbol per declared identifier,
/// constants for `const` bindings and variables otherwise.
pub open spec fn variable_declarators(t: TreeModel, i: int, source: Seq<u8>) -> Seq<(Seq<char>, SymbolKind)> {
    let kind = if has_child_kind(t, i, "const"@) { SymbolKind::Constant } else { SymbolKind::Variable };
    declarator_bindings(t, children_of(t, i), source, kind)
}

/// The symbols that a JavaScript syntax node declares.
pub open spec fn classify_javascript(t: TreeModel, i: int, source: Seq<u8>) -> Seq<(Seq<char>, SymbolKind)> {
    let name = field_text(t, i, source, "name"@);
    if has_kind(t, i, "function_declaration"@) || has_kind(t, i, "generator_function_declaration"@) {
        one_spec(name, SymbolKind::Function)
    } else if has_kind(t, i, "class_declaration"@) {
        one_spec(name, SymbolKind::Class)
    } else if has_kind(t, i, "method_definition"@) {
        one_spec(
            match name {
                Some(n) => Some(trim_char(trim_char(n, '"'), '\'')),
                None => None,
            },
            SymbolKind::Method,
        )
    } else if has_kind(t, i, "variable_declaration"@) || has_kind(t, i, "lexical_declaration"@) {
        variable_declarators(t, i, source)
    } else {
        seq![]
    }
}

/// Exec form of `variable_declarators`.
fn declarators(t: &SyntaxTree, i: usize, source: &[u8]) -> (r: Vec<(String, SymbolKind)>)
    ensures
        pairs_view(r@) == variable_declarators(t@, i as int, source@),
{
    let kind = if t.has_child_kind(i, "const") { SymbolKind::Constant } else { SymbolKind::Variable };
    let cs = t.children(i);
    let ghost all = cs@.map_values(|c: usize| c as int);
    let mut out: Vec<(String, SymbolKind)> = Vec::new();
    let mut k: usize = 0;
    proof {
        assert(pairs_view(out@) =~= declarator_bindings(t@, all.subrange(0, 0), source@, kind));
    }
    while k < cs.len()
        invariant
            k <= cs@.len(),
            all == cs@.map_values(|c: usize| c as int),
            pairs_view(out@) == declarator_bindings(t@, all.subrange(0, k as int), source@, kind),
        decreases cs@.len() - k,
    {
        let c = cs[k];
        let ghost before = out@;
        proof {
            assert(all.subrange(0, k + 1).drop_last() =~= all.subrange(0, k as int));
            assert(all.subrange(0, k + 1).last() == c as int);
        }
        if t.is_kind(c, "variable_declarator") {
            match t.child_by_field_name(c, "name") {
                Some(n) => {
                    if t.is_kind(n, "identifier") {
                        match t.text(n, source) {
                            Some(name) => {
                                out.push((name, kind));
                                proof {
                                    assert(pairs_view(out@) =~= pairs_view(before).push((out@.last().0@, kind)));
                                }
                            },
                            None => {},
                        }
                    }
                },
                None => {},
            }
        }
        k = k + 1;
    }
    proof {
        assert(all.subrange(0, k as int) =~= all);
    }
    out
}

/// Classifies one JavaScript syntax node.
pub fn classify(t: &SyntaxTree, i: usize, source: &[u8]) -> (r: Vec<(String, SymbolKind)>)
    ensures
        pairs_view(r@) == classify_javascript(t@, i as int, source@),
{
    if t.is_kind(i, "function_declaration") || t.is_kind(i, "generator_function_declaration") {
        one(t.field_text(i, source, "name"), SymbolKind::Function)
    } else if t.is_kind(i, "class_declaration") {
        one(t.field_text(i, source, "name"), SymbolKind::Class)
    } else if t.is_kind(i, "method_definition") {
        let name = match t.field_text(i, source, "name") {
            Some(n) => {
                let a = trim_matching(n.as_str(), '"', true, true);
                Some(trim_matching(a.as_str(), '\'', true, true))
            },
            None => None,
        };
        one(name, SymbolKind::Method)
    } else if t.is_kind(i, "variable_declaration") || t.is_kind(i, "lexical_declaration") {
        declarators(t, i, source)
    } else {
        let r: Vec<(String, SymbolKind)> = Vec::new();
        proof {
            assert(pairs_view(r@) =~= Seq::<(Seq<char>, SymbolKind)>::empty());
        }
        r
    }
}

} // verus!
