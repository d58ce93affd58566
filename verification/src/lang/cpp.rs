//! C++ declarations: the C rules extended with classes, namespaces and
//! methods.

use vstd::prelude::*;

use crate::lang::c::{classify_c, declared_functions, functions_declared, named_with_body};
use crate::lang::common::{declarator_name, name_of_declarator, one, one_spec, pairs_view};
use crate::model::SymbolKind;
use crate::syntax::{child_by_field, children_of, field_text, has_kind, parent_of, SyntaxTree, TreeModel};

verus! {

/// Whether the nearest enclosing class-or-namespace scope of node `i` is a
/// class body.
pub open spec fn inside_class_body(t: TreeModel, i: int) -> bool
    decreases i,
{
    match parent_of(t, i) {
        Some(p) => if has_kind(t, p, "class_specifier"@) {
            true
        } else if has_kind(t, p, "translation_unit"@) || has_kind(t, p, "namespace_definition"@) {
            false
        } else {
            inside_class_body(t, p)
        },
        None => false,
    }
}

/// Method inside a class body, function elsewhere.
pub open spec fn member_kind(t: TreeModel, i: int) -> SymbolKind {
    if inside_class_body(t, i) {
        SymbolKind::Method
    } else {
        SymbolKind::Function
    }
}

/// The symbols that a C++ syntax node declares.
pub open spec fn classify_cpp(t: TreeModel, i: int, source: Seq<u8>) -> Seq<(Seq<char>, SymbolKind)> {
    if has_kind(t, i, "class_specifier"@) && named_with_body(t, i) {
        one_spec(field_text(t, i, source, "name"@), SymbolKind::Class)
    } else if has_kind(t, i, "namespace_definition"@) {
        one_spec(field_text(t, i, source, "name"@), SymbolKind::Module)
    } else if has_kind(t, i, "function_definition"@) {
        one_spec(
            match child_by_field(t, i, "declarator"@) {
                Some(d) => declarator_name(t, d, source),
                None => None,
            },
            member_kind(t, i),
        )
    } else if has_kind(t, i, "declaration"@) || has_kind(t, i, "field_declaration"@) {
        let out = declared_functions(t, children_of(t, i), source, member_kind(t, i));
        if out.len() > 0 {
            out
        } else {
            classify_c(t, i, source)
        }
    } else {
        classify_c(t, i, source)
    }
}

/// Exec form of `inside_class_body`.
fn in_class_body(t: &SyntaxTree, i: usize) -> (r: bool)
    ensures
        r == inside_class_body(t@, i as int),
{
    let mut n = i;
    loop
        invariant
            inside_class_body(t@, i as int) == inside_class_body(t@, n as int),
        decreases n,
    {
        match t.parent(n) {
            Some(p) => {
                if t.is_kind(p, "class_specifier") {
                    return true;
                } else if t.is_kind(p, "translation_unit") || t.is_kind(p, "namespace_definition") {
                    return false;
                }
                n = p;
            },
            None => {
                return false;
            },
        }
    }
}

/// Classifies one C++ syntax node.
pub fn classify(t: &SyntaxTree, i: usize, source: &[u8]) -> (r: Vec<(String, SymbolKind)>)
    ensures
        pairs_view(r@) == classify_cpp(t@, i as int, source@),
{
    let named_body = t.is_kind(i, "class_specifier") && t.child_by_field_name(i, "name").is_some()
        && t.child_by_field_name(i, "body").is_some();
    if named_body {
        one(t.field_text(i, source, "name"), SymbolKind::Class)
    } else if t.is_kind(i, "namespace_definition") {
        one(t.field_text(i, source, "name"), SymbolKind::Module)
    } else if t.is_kind(i, "function_definition") {
        let name = match t.child_by_field_name(i, "declarator") {
            Some(d) => name_of_declarator(t, d, source),
            None => None,
        };
        let kind = if in_class_body(t, i) { SymbolKind::Method } else { SymbolKind::Function };
        one(name, kind)
    } else if t.is_kind(i, "declaration") || t.is_kind(i, "field_declaration") {
        let kind = if in_class_body(t, i) { SymbolKind::Method } else { SymbolKind::Function };
        let out = functions_declared(t, i, source, kind);
        if out.len() > 0 {
            out
        } else {
            crate::lang::c::classify(t, i, source)
        }
    } else {
        crate::lang::c::classify(t, i, source)
    }
}

} // verus!
