//! Go declarations: functions, methods, struct and interface types,
//! grouped constants and variables, and the package clause.

use vstd::prelude::*;

use crate::lang::common::{one, one_spec, pairs_view};
use crate::model::SymbolKind;
use crate::syntax::{children_of, field_text, has_child_kind, has_kind, node_text, SyntaxTree, TreeModel};

verus! {

/// Identifiers among `cs` that have a text, each as a symbol of `kind`.
pub open spec fn identifiers(t: TreeModel, cs: Seq<int>, source: Seq<u8>, kind: SymbolKind) -> Seq<(Seq<char>, SymbolKind)>
    decreases cs.len(),
{
    if cs.len() == 0 {
        seq![]
    } else {
        let rest = identifiers(t, cs.drop_last(), source, kind);
        let c = cs.last();
        if has_kind(t, c, "identifier"@) && node_text(t, c, source) is Some {
            rest.push((node_text(t, c, source)->0, kind))
        } else {
            rest
        }
    }
}

/// Go groups several specs under one declaration (`const A, B = 1, 2`):
/// every identifier of every spec among `cs` is its own symbol.
pub open spec fn grouped_specs(
    t: TreeModel,
    cs: Seq<int>,
    source: Seq<u8>,
    spec_kind: Seq<char>,
    kind: SymbolKind,
) -> Seq<(Seq<char>, SymbolKind)>
    decreases cs.len(),
{
    if cs.len() == 0 {
        seq![]
    } else {
        let rest = grouped_specs(t, cs.drop_last(), source, spec_kind, kind);
        let c = cs.last();
        if has_kind(t, c, spec_kind) {
            rest + identifiers(t, children_of(t, c), source, kind)
        } else {
            rest
        }
    }
}

/// The first of `cs` of the given kind.
pub open spec fn first_of_kind(t: TreeModel, cs: Seq<int>, kind: Seq<char>) -> Option<int>
    decreases cs.len(),
{
    if cs.len() == 0 {
        None
    } else if has_kind(t, cs[0], kind) {
        Some(cs[0])
    } else {
        first_of_kind(t, cs.drop_first(), kind)
    }
}

/// The symbols that a Go syntax node declares.
pub open spec fn classify_go(t: TreeModel, i: int, source: Seq<u8>) -> Seq<(Seq<char>, SymbolKind)> {
    let name = field_text(t, i, source, "name"@);
    if has_kind(t, i, "function_declaration"@) {
        one_spec(name, SymbolKind::Function)
    } else if has_kind(t, i, "method_declaration"@) {
        one_spec(name, SymbolKind::Method)
    } else if has_kind(t, i, "type_spec"@) {
        if name is None {
            seq![]
        } else if has_child_kind(t, i, "struct_type"@) {
            one_spec(name, SymbolKind::Struct)
        } else if has_child_kind(t, i, "interface_type"@) {
            one_spec(name, SymbolKind::Interface)
        } else {
            seq![]
        }
    } else if has_kind(t, i, "const_declaration"@) {
        grouped_specs(t, children_of(t, i), source, "const_spec"@, SymbolKind::Constant)
    } else if has_kind(t, i, "var_declaration"@) {
        grouped_specs(t, children_of(t, i), source, "var_spec"@, SymbolKind::Variable)
    } else if has_kind(t, i, "package_clause"@) {
        one_spec(
            match first_of_kind(t, children_of(t, i), "package_identifier"@) {
                Some(c) => node_text(t, c, source),
                None => None,
            },
            SymbolKind::Module,
        )
    } else {
        seq![]
    }
}

/// A named Go function declaration is one function symbol, and a named
/// method declaration (one with a receiver) is one method symbol.
pub proof fn lemma_go_functions_and_methods(t: TreeModel, i: int, source: Seq<u8>)
    requires
        field_text(t, i, source, "name"@) is Some,
    ensures
        has_kind(t, i, "function_declaration"@) ==> classify_go(t, i, source) == seq![(
            field_text(t, i, source, "name"@)->0,
            SymbolKind::Function,
        )],
        has_kind(t, i, "method_declaration"@) ==> classify_go(t, i, source) == seq![(
            field_text(t, i, source, "name"@)->0,
            SymbolKind::Method,
        )],
{
    reveal_strlit("function_declaration");
    reveal_strlit("method_declaration");
    assert("function_declaration"@[0] != "method_declaration"@[0]);
}

/// A named Go type spec over a struct type is one struct symbol; over an
/// interface type (and no struct type), one interface symbol.
pub proof fn lemma_go_types(t: TreeModel, i: int, source: Seq<u8>)
    requires
        has_kind(t, i, "type_spec"@),
        field_text(t, i, source, "name"@) is Some,
    ensures
        has_child_kind(t, i, "struct_type"@) ==> classify_go(t, i, source) == seq![(
            field_text(t, i, source, "name"@)->0,
            SymbolKind::Struct,
        )],
        !has_child_kind(t, i, "struct_type"@) && has_child_kind(t, i, "interface_type"@) ==> classify_go(t, i, source)
            == seq![(field_text(t, i, source, "name"@)->0, SymbolKind::Interface)],
{
    reveal_strlit("function_declaration");
    reveal_strlit("method_declaration");
    reveal_strlit("type_spec");
    assert("type_spec"@.len() != "function_declaration"@.len());
    assert("type_spec"@.len() != "method_declaration"@.len());
}

/// Identifiers among the children of node `i`, as symbols of `kind`.
fn spec_identifiers(t: &SyntaxTree, i: usize, source: &[u8], kind: SymbolKind, out: &mut Vec<(String, SymbolKind)>)
    ensures
        pairs_view(final(out)@) == pairs_view(old(out)@) + identifiers(t@, children_of(t@, i as int), source@, kind),
{
    let cs = t.children(i);
    let ghost all = cs@.map_values(|c: usize| c as int);
    let ghost start = pairs_view(out@);
    let mut k: usize = 0;
    proof {
        assert(start + identifiers(t@, all.subrange(0, 0), source@, kind) =~= start);
    }
    while k < cs.len()
        invariant
            k <= cs@.len(),
            all == cs@.map_values(|c: usize| c as int),
            pairs_view(out@) == start + identifiers(t@, all.subrange(0, k as int), source@, kind),
        decreases cs@.len() - k,
    {
        let c = cs[k];
        let ghost before = out@;
        proof {
            assert(all.subrange(0, k + 1).drop_last() =~= all.subrange(0, k as int));
            assert(all.subrange(0, k + 1).last() == c as int);
        }
        if t.is_kind(c, "identifier") {
            match t.text(c, source) {
                Some(name) => {
                    out.push((name, kind));
                    proof {
                        assert(pairs_view(out@) =~= pairs_view(before).push((out@.last().0@, kind)));
                    }
                },
                None => {},
            }
        }
        k = k + 1;
    }
    proof {
        assert(all.subrange(0, k as int) =~= all);
    }
}

/// Every identifier of every spec of the given kind among the children of
/// node `i`.
fn grouped(t: &SyntaxTree, i: usize, source: &[u8], spec_kind: &str, kind: SymbolKind) -> (r: Vec<(String, SymbolKind)>)
    ensures
        pairs_view(r@) == grouped_specs(t@, children_of(t@, i as int), source@, spec_kind@, kind),
{
    let cs = t.children(i);
    let ghost all = cs@.map_values(|c: usize| c as int);
    let mut out: Vec<(String, SymbolKind)> = Vec::new();
    let mut k: usize = 0;
    proof {
        assert(pairs_view(out@) =~= grouped_specs(t@, all.subrange(0, 0), source@, spec_kind@, kind));
    }
    while k < cs.len()
        invariant
            k <= cs@.len(),
            all == cs@.map_values(|c: usize| c as int),
            pairs_view(out@) == grouped_specs(t@, all.subrange(0, k as int), source@, spec_kind@, kind),
        decreases cs@.len() - k,
    {
        let c = cs[k];
        proof {
            assert(all.subrange(0, k + 1).drop_last() =~= all.subrange(0, k as int));
            assert(all.subrange(0, k + 1).last() == c as int);
        }
        if t.is_kind(c, spec_kind) {
            spec_identifiers(t, c, source, kind, &mut out);
        }
        k = k + 1;
    }
    proof {
        assert(all.subrange(0, k as int) =~= all);
    }
    out
}

/// The first child of node `i` of the given kind.
fn first_child_of_kind(t: &SyntaxTree, i: usize, kind: &str) -> (r: Option<usize>)
    ensures
        match r {
            Some(c) => first_of_kind(t@, children_of(t@, i as int), kind@) == Some(c as int),
            None => first_of_kind(t@, children_of(t@, i as int), kind@) is None,
        },
{
    let cs = t.children(i);
    let ghost all = cs@.map_values(|c: usize| c as int);
    let mut k: usize = 0;
    proof {
        assert(all.skip(0) =~= all);
    }
    while k < cs.len()
        invariant
            k <= cs@.len(),
            all == cs@.map_values(|c: usize| c as int),
            first_of_kind(t@, children_of(t@, i as int), kind@) == first_of_kind(t@, all.skip(k as int), kind@),
        decreases cs@.len() - k,
    {
        let c = cs[k];
        proof {
            assert(all.skip(k as int)[0] == c as int);
            assert(all.skip(k as int).drop_first() =~= all.skip(k + 1));
        }
        if t.is_kind(c, kind) {
            return Some(c);
        }
        k = k + 1;
    }
    proof {
        assert(all.skip(k as int).len() == 0);
    }
    None
}

/// Classifies one Go syntax node.
pub fn classify(t: &SyntaxTree, i: usize, source: &[u8]) -> (r: Vec<(String, SymbolKind)>)
    ensures
        pairs_view(r@) == classify_go(t@, i as int, source@),
{
    let empty: Vec<(String, SymbolKind)> = Vec::new();
    proof {
        assert(pairs_view(empty@) =~= Seq::<(Seq<char>, SymbolKind)>::empty());
    }
    if t.is_kind(i, "function_declaration") {
        one(t.field_text(i, source, "name"), SymbolKind::Function)
    } else if t.is_kind(i, "method_declaration") {
        one(t.field_text(i, source, "name"), SymbolKind::Method)
    } else if t.is_kind(i, "type_spec") {
        match t.field_text(i, source, "name") {
            None => empty,
            Some(name) => {
                if t.has_child_kind(i, "struct_type") {
                    one(Some(name), SymbolKind::Struct)
                } else if t.has_child_kind(i, "interface_type") {
                    one(Some(name), SymbolKind::Interface)
                } else {
                    empty
                }
            },
        }
    } else if t.is_kind(i, "const_declaration") {
        grouped(t, i, source, "const_spec", SymbolKind::Constant)
    } else if t.is_kind(i, "var_declaration") {
        grouped(t, i, source, "var_spec", SymbolKind::Variable)
    } else if t.is_kind(i, "package_clause") {
        let name = match first_child_of_kind(t, i, "package_identifier") {
            Some(c) => t.text(c, source),
            None => None,
        };
        one(name, SymbolKind::Module)
    } else {
        empty
    }
}

} // verus!
