//! Rust declarations: functions and methods, structs, enums, traits,
//! constants and statics, modules.

use vstd::prelude::*;

use crate::lang::common::{one, one_spec, pairs_view};
use crate::model::SymbolKind;
use crate::syntax::{
    ancestor_has_kind, field_text, has_ancestor_of_kind, has_kind, lemma_ancestor_has_kind, SyntaxTree, TreeModel,
};

verus! {

/// The symbols that a Rust syntax node declares.
pub open spec fn classify_rust(t: TreeModel, i: int, source: Seq<u8>) -> Seq<(Seq<char>, SymbolKind)> {
    let name = field_text(t, i, source, "name"@);
    if has_kind(t, i, "function_item"@) || has_kind(t, i, "function_signature_item"@) {
        one_spec(
            name,
            if ancestor_has_kind(t, i, "impl_item"@, "trait_item"@) {
                SymbolKind::Method
            } else {
                SymbolKind::Function
            },
        )
    } else if has_kind(t, i, "struct_item"@) {
        one_spec(name, SymbolKind::Struct)
    } else if has_kind(t, i, "enum_item"@) {
        one_spec(name, SymbolKind::Enum)
    } else if has_kind(t, i, "trait_item"@) {
        one_spec(name, SymbolKind::Trait)
    } else if has_kind(t, i, "const_item"@) || has_kind(t, i, "static_item"@) {
        one_spec(name, SymbolKind::Constant)
    } else if has_kind(t, i, "mod_item"@) {
        one_spec(name, SymbolKind::Module)
    } else {
        seq![]
    }
}

/// A Rust function item or signature with a name is one symbol: a method
/// exactly when some proper ancestor is a trait or an impl block (whichever
/// of the two item kinds it is), else a function.
pub proof fn lemma_rust_functions_and_methods(t: TreeModel, i: int, source: Seq<u8>)
    requires
        has_kind(t, i, "function_item"@) || has_kind(t, i, "function_signature_item"@),
        field_text(t, i, source, "name"@) is Some,
    ensures
        classify_rust(t, i, source) == seq![(
            field_text(t, i, source, "name"@)->0,
            if has_ancestor_of_kind(t, i, "trait_item"@) || has_ancestor_of_kind(t, i, "impl_item"@) {
                SymbolKind::Method
            } else {
                SymbolKind::Function
            },
        )],
{
    lemma_ancestor_has_kind(t, i, "impl_item"@, "trait_item"@);
}

/// A named Rust struct, enum, trait, constant or static, or module is one
/// symbol of the matching kind.
pub proof fn lemma_rust_items(t: TreeModel, i: int, source: Seq<u8>)
    requires
        field_text(t, i, source, "name"@) is Some,
    ensures
        ({
            let n = field_text(t, i, source, "name"@)->0;
            &&& has_kind(t, i, "struct_item"@) ==> classify_rust(t, i, source) == seq![(n, SymbolKind::Struct)]
            &&& has_kind(t, i, "enum_item"@) ==> classify_rust(t, i, source) == seq![(n, SymbolKind::Enum)]
            &&& has_kind(t, i, "trait_item"@) ==> classify_rust(t, i, source) == seq![(n, SymbolKind::Trait)]
            &&& has_kind(t, i, "const_item"@) ==> classify_rust(t, i, source) == seq![(n, SymbolKind::Constant)]
            &&& has_kind(t, i, "static_item"@) ==> classify_rust(t, i, source) == seq![(n, SymbolKind::Constant)]
            &&& has_kind(t, i, "mod_item"@) ==> classify_rust(t, i, source) == seq![(n, SymbolKind::Module)]
        }),
{
    reveal_strlit("function_item");
    reveal_strlit("function_signature_item");
    reveal_strlit("struct_item");
    reveal_strlit("enum_item");
    reveal_strlit("trait_item");
    reveal_strlit("const_item");
    reveal_strlit("static_item");
    reveal_strlit("mod_item");
    assert("function_signature_item"@.len() != "function_item"@.len());
    assert("struct_item"@.len() != "function_item"@.len());
    assert("struct_item"@.len() != "function_signature_item"@.len());
    assert("enum_item"@.len() != "function_item"@.len());
    assert("enum_item"@.len() != "function_signature_item"@.len());
    assert("enum_item"@.len() != "struct_item"@.len());
    assert("trait_item"@.len() != "function_item"@.len());
    assert("trait_item"@.len() != "function_signature_item"@.len());
    assert("trait_item"@.len() != "struct_item"@.len());
    assert("trait_item"@.len() != "enum_item"@.len());
    assert("const_item"@.len() != "function_item"@.len());
    assert("const_item"@.len() != "function_signature_item"@.len());
    assert("const_item"@.len() != "struct_item"@.len());
    assert("const_item"@.len() != "enum_item"@.len());
    assert("const_item"@[0] != "trait_item"@[0]);
    assert("static_item"@.len() != "function_item"@.len());
    assert("static_item"@.len() != "function_signature_item"@.len());
    assert("static_item"@[2] != "struct_item"@[2]);
    assert("static_item"@.len() != "enum_item"@.len());
    assert("static_item"@.len() != "trait_item"@.len());
    assert("static_item"@.len() != "const_item"@.len());
    assert("mod_item"@.len() != "function_item"@.len());
    assert("mod_item"@.len() != "function_signature_item"@.len());
    assert("mod_item"@.len() != "struct_item"@.len());
    assert("mod_item"@.len() != "enum_item"@.len());
    assert("mod_item"@.len() != "trait_item"@.len());
    assert("mod_item"@.len() != "const_item"@.len());
    assert("mod_item"@.len() != "static_item"@.len());
}

/// Classifies one Rust syntax node.
pub fn classify(t: &SyntaxTree, i: usize, source: &[u8]) -> (r: Vec<(String, SymbolKind)>)
    ensures
        pairs_view(r@) == classify_rust(t@, i as int, source@),
{
    let kind = if t.is_kind(i, "function_item") || t.is_kind(i, "function_signature_item") {
        if t.ancestor_has_kind(i, "impl_item", "trait_item") {
            SymbolKind::Method
        } else {
            SymbolKind::Function
        }
    } else if t.is_kind(i, "struct_item") {
        SymbolKind::Struct
    } else if t.is_kind(i, "enum_item") {
        SymbolKind::Enum
    } else if t.is_kind(i, "trait_item") {
        SymbolKind::Trait
    } else if t.is_kind(i, "const_item") || t.is_kind(i, "static_item") {
        SymbolKind::Constant
    } else if t.is_kind(i, "mod_item") {
        SymbolKind::Module
    } else {
        let r: Vec<(String, SymbolKind)> = Vec::new();
        proof {
            assert(pairs_view(r@) =~= Seq::<(Seq<char>, SymbolKind)>::empty());
        }
        return r;
    };
    one(t.field_text(i, source, "name"), kind)
}

} // verus!
