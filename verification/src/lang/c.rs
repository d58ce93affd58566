//! C declarations: function definitions and prototypes, named struct and
//! enum definitions, macros, and top-level `const` declarations.

use vstd::prelude::*;

use crate::lang::common::{
    declarator_name, function_declarator, is_function_declarator, name_of_declarator, one, one_spec,
    pairs_view,
};
use crate::model::SymbolKind;
use crate::syntax::{
    child_by_field, children_of, field_text, has_kind, node_text, parent_of, str_equal, SyntaxTree, TreeModel,
};

verus! {

/// Functions declared by the declarators among `cs`, with the given kind.
pub open spec fn declared_functions(
    t: TreeModel,
    cs: Seq<int>,
    source: Seq<u8>,
    kind: SymbolKind,
) -> Seq<(Seq<char>, SymbolKind)>
    decreases cs.len(),
{
    if cs.len() == 0 {
        seq![]
    } else {
        let rest = declared_functions(t, cs.drop_last(), source, kind);
        let c = cs.last();
        if (has_kind(t, c, "function_declarator"@) || is_function_declarator(t, c))
            && declarator_name(t, c, source) is Some {
            rest.push((declarator_name(t, c, source)->0, kind))
        } else {
            rest
        }
    }
}

/// A struct or enum specifier with both a name and a body.
pub open spec fn named_with_body(t: TreeModel, i: int) -> bool {
    child_by_field(t, i, "name"@) is Some && child_by_field(t, i, "body"@) is Some
}

/// One of `cs` is the `const` type qualifier.
pub open spec fn has_const_qualifier(t: TreeModel, cs: Seq<int>, source: Seq<u8>) -> bool {
    exists|k: int| 0 <= k < cs.len() && has_kind(t, cs[k], "type_qualifier"@)
        && node_text(t, cs[k], source) == Some("const"@)
}

/// Names of the initialized declarators among `cs`, as constants.
pub open spec fn initialized_constants(t: TreeModel, cs: Seq<int>, source: Seq<u8>) -> Seq<(Seq<char>, SymbolKind)>
    decreases cs.len(),
{
    if cs.len() == 0 {
        seq![]
    } else {
        let rest = initialized_constants(t, cs.drop_last(), source);
        let c = cs.last();
        if has_kind(t, c, "init_declarator"@) && declarator_name(t, c, source) is Some {
            rest.push((declarator_name(t, c, source)->0, SymbolKind::Constant))
        } else {
            rest
        }
    }
}

/// Top-level `const` declarations (`const int limit = 5;`) declare constants.
pub open spec fn const_qualified_declarations(t: TreeModel, i: int, source: Seq<u8>) -> Seq<(Seq<char>, SymbolKind)> {
    let cs = children_of(t, i);
    if has_const_qualifier(t, cs, source) {
        initialized_constants(t, cs, source)
    } else {
        seq![]
    }
}

/// The symbols that a C syntax node declares.
pub open spec fn classify_c(t: TreeModel, i: int, source: Seq<u8>) -> Seq<(Seq<char>, SymbolKind)> {
    if has_kind(t, i, "function_definition"@) {
        one_spec(
            match child_by_field(t, i, "declarator"@) {
                Some(d) => declarator_name(t, d, source),
                None => None,
            },
            SymbolKind::Function,
        )
    } else if has_kind(t, i, "struct_specifier"@) && named_with_body(t, i) {
        one_spec(field_text(t, i, source, "name"@), SymbolKind::Struct)
    } else if has_kind(t, i, "enum_specifier"@) && named_with_body(t, i) {
        one_spec(field_text(t, i, source, "name"@), SymbolKind::Enum)
    } else if has_kind(t, i, "preproc_def"@) || has_kind(t, i, "preproc_function_def"@) {
        one_spec(field_text(t, i, source, "name"@), SymbolKind::Constant)
    } else if has_kind(t, i, "declaration"@) {
        let out = declared_functions(t, children_of(t, i), source, SymbolKind::Function);
        if out.len() > 0 {
            out
        } else if parent_of(t, i) matches Some(p) && has_kind(t, p, "translation_unit"@) {
            const_qualified_declarations(t, i, source)
        } else {
            seq![]
        }
    } else {
        seq![]
    }
}

/// The functions declared by the declarators among the children of node `i`.
pub fn functions_declared(t: &SyntaxTree, i: usize, source: &[u8], kind: SymbolKind) -> (r: Vec<(String, SymbolKind)>)
    ensures
        pairs_view(r@) == declared_functions(t@, children_of(t@, i as int), source@, kind),
{
    let cs = t.children(i);
    let ghost all = cs@.map_values(|c: usize| c as int);
    let mut out: Vec<(String, SymbolKind)> = Vec::new();
    let mut k: usize = 0;
    proof {
        assert(pairs_view(out@) =~= declared_functions(t@, all.subrange(0, 0), source@, kind));
    }
    while k < cs.len()
        invariant
            k <= cs@.len(),
            all == cs@.map_values(|c: usize| c as int),
            pairs_view(out@) == declared_functions(t@, all.subrange(0, k as int), source@, kind),
        decreases cs@.len() - k,
    {
        let c = cs[k];
        let ghost before = out@;
        proof {
            assert(all.subrange(0, k + 1).drop_last() =~= all.subrange(0, k as int));
            assert(all.subrange(0, k + 1).last() == c as int);
        }
        if t.is_kind(c, "function_declarator") || function_declarator(t, c) {
            match name_of_declarator(t, c, source) {
                Some(name) => {
                    out.push((name, kind));
                    proof {
                        assert(pairs_view(out@) =~= pairs_view(before).push((out@.last().0@, kind)));
                    }
                },
                None => {},
            }
        }
        k = k + 1;
    }
    proof {
        assert(all.subrange(0, k as int) =~= all);
    }
    out
}

/// Whether a specifier has both a name and a body.
fn with_name_and_body(t: &SyntaxTree, i: usize) -> (r: bool)
    ensures
        r == named_with_body(t@, i as int),
{
    t.child_by_field_name(i, "name").is_some() && t.child_by_field_name(i, "body").is_some()
}

/// Whether one of the nodes `cs` is the `const` type qualifier.
fn const_qualified(t: &SyntaxTree, cs: &Vec<usize>, Ghost(all): Ghost<Seq<int>>, source: &[u8]) -> (r: bool)
    requires
        all == cs@.map_values(|c: usize| c as int),
    ensures
        r == has_const_qualifier(t@, all, source@),
{
    let mut k: usize = 0;
    while k < cs.len()
        invariant
            k <= cs@.len(),
            all == cs@.map_values(|c: usize| c as int),
            forall|m: int| 0 <= m < k ==> !(has_kind(t@, all[m], "type_qualifier"@)
                && node_text(t@, all[m], source@) == Some("const"@)),
        decreases cs@.len() - k,
    {
        let c = cs[k];
        if t.is_kind(c, "type_qualifier") {
            match t.text(c, source) {
                Some(text) => {
                    if str_equal(text.as_str(), "const") {
                        proof {
                            assert(all[k as int] == c as int);
                        }
                        return true;
                    }
                },
                None => {},
            }
        }
        k = k + 1;
    }
    false
}

/// Top-level `const` declarations declare constants.
fn const_declarations(t: &SyntaxTree, i: usize, source: &[u8]) -> (r: Vec<(String, SymbolKind)>)
    ensures
        pairs_view(r@) == const_qualified_declarations(t@, i as int, source@),
{
    let cs = t.children(i);
    let ghost all = cs@.map_values(|c: usize| c as int);
    let is_const = const_qualified(t, &cs, Ghost(all), source);
    let mut out: Vec<(String, SymbolKind)> = Vec::new();
    if !is_const {
        proof {
            assert(pairs_view(out@) =~= Seq::<(Seq<char>, SymbolKind)>::empty());
        }
        return out;
    }
    let mut k: usize = 0;
    proof {
        assert(pairs_view(out@) =~= initialized_constants(t@, all.subrange(0, 0), source@));
    }
    while k < cs.len()
        invariant
            k <= cs@.len(),
            all == cs@.map_values(|c: usize| c as int),
            pairs_view(out@) == initialized_constants(t@, all.subrange(0, k as int), source@),
        decreases cs@.len() - k,
    {
        let c = cs[k];
        let ghost before = out@;
        proof {
            assert(all.subrange(0, k + 1).drop_last() =~= all.subrange(0, k as int));
            assert(all.subrange(0, k + 1).last() == c as int);
        }
        if t.is_kind(c, "init_declarator") {
            match name_of_declarator(t, c, source) {
                Some(name) => {
                    out.push((name, SymbolKind::Constant));
                    proof {
                        assert(pairs_view(out@) =~= pairs_view(before).push((out@.last().0@, SymbolKind::Constant)));
                    }
                },
                None => {},
            }
        }
        k = k + 1;
    }
    proof {
        assert(all.subrange(0, k as int) =~= all);
    }
    out
}

/// Classifies one C syntax node.
pub fn classify(t: &SyntaxTree, i: usize, source: &[u8]) -> (r: Vec<(String, SymbolKind)>)
    ensures
        pairs_view(r@) == classify_c(t@, i as int, source@),
{
    if t.is_kind(i, "function_definition") {
        let name = match t.child_by_field_name(i, "declarator") {
            Some(d) => name_of_declarator(t, d, source),
            None => None,
        };
        one(name, SymbolKind::Function)
    } else if t.is_kind(i, "struct_specifier") && with_name_and_body(t, i) {
        one(t.field_text(i, source, "name"), SymbolKind::Struct)
    } else if t.is_kind(i, "enum_specifier") && with_name_and_body(t, i) {
        one(t.field_text(i, source, "name"), SymbolKind::Enum)
    } else if t.is_kind(i, "preproc_def") || t.is_kind(i, "preproc_function_def") {
        one(t.field_text(i, source, "name"), SymbolKind::Constant)
    } else if t.is_kind(i, "declaration") {
        let out = functions_declared(t, i, source, SymbolKind::Function);
        if out.len() > 0 {
            out
        } else {
            let top_level = match t.parent(i) {
                Some(p) => t.is_kind(p, "translation_unit"),
                None => false,
            };
            if top_level {
                const_declarations(t, i, source)
            } else {
                let r: Vec<(String, SymbolKind)> = Vec::new();
                proof {
                    assert(pairs_view(r@) =~= Seq::<(Seq<char>, SymbolKind)>::empty());
                }
                r
            }
        }
    } else {
        let r: Vec<(String, SymbolKind)> = Vec::new();
        proof {
            assert(pairs_view(r@) =~= Seq::<(Seq<char>, SymbolKind)>::empty());
        }
        r
    }
}

} // verus!
