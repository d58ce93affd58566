//! TypeScript declarations: interfaces, enums and abstract classes, with
//! everything else classified by the JavaScript rules. `type` aliases are
//! skipped: the symbol model has no alias kind.

use vstd::prelude::*;

use crate::lang::common::{one, one_spec, pairs_view};
use crate::lang::javascript::classify_javascript;
use crate::model::SymbolKind;
use crate::syntax::{field_text, has_kind, SyntaxTree, TreeModel};

verus! {

/// The symbols that a TypeScript syntax node declares.
pub open spec fn classify_typescript(t: TreeModel, i: int, source: Seq<u8>) -> Seq<(Seq<char>, SymbolKind)> {
    let name = field_text(t, i, source, "name"@);
    if has_kind(t, i, "interface_declaration"@) {
        one_spec(name, SymbolKind::Interface)
    } else if has_kind(t, i, "enum_declaration"@) {
        one_spec(name, SymbolKind::Enum)
    } else if has_kind(t, i, "abstract_class_declaration"@) {
        one_spec(name, SymbolKind::Class)
    } else if has_kind(t, i, "type_alias_declaration"@) {
        seq![]
    } else {
        classify_javascript(t, i, source)
    }
}

/// Classifies one TypeScript syntax node.
pub fn classify(t: &SyntaxTree, i: usize, source: &[u8]) -> (r: Vec<(String, SymbolKind)>)
    ensures
        pairs_view(r@) == classify_typescript(t@, i as int, source@),
{
    if t.is_kind(i, "interface_declaration") {
        one(t.field_text(i, source, "name"), SymbolKind::Interface)
    } else if t.is_kind(i, "enum_declaration") {
        one(t.field_text(i, source, "name"), SymbolKind::Enum)
    } else if t.is_kind(i, "abstract_class_declaration") {
        one(t.field_text(i, source, "name"), SymbolKind::Class)
    } else if t.is_kind(i, "type_alias_declaration") {
        let r: Vec<(String, SymbolKind)> = Vec::new();
        proof {
            assert(pairs_view(r@) =~= Seq::<(Seq<char>, SymbolKind)>::empty());
        }
        r
    } else {
        crate::lang::javascript::classify(t, i, source)
    }
}

} // verus!
