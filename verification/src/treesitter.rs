//! The tree-sitter calls behind symbol extraction: parsing with each
//! language's grammar, and reading a tree node by node in preorder.
//!
//! A parse with no timeout, no cancellation and no earlier tree depends on
//! the grammar and the source alone, so its nodes are named per grammar;
//! `tree_nodes` names the nodes that a tree holds.

use vstd::prelude::*;

verus! {

#[verifier::external_type_specification]
#[verifier::external_body]
pub struct ExTree(tree_sitter::Tree);

/// What the library reads of one parse node.
pub struct NodeFacts {
    pub kind: String,
    pub is_named: bool,
    pub field: Option<String>,
    pub start_byte: usize,
    pub end_byte: usize,
    pub start_row: usize,
    pub depth: usize,
}

/// The content of `NodeFacts`: the node's kind, whether it is named, the
/// field under which it hangs from its parent, its byte range, its 0-based
/// start row and its depth below the root.
pub struct FactsModel {
    pub kind: Seq<char>,
    pub is_named: bool,
    pub field: Option<Seq<char>>,
    pub start_byte: usize,
    pub end_byte: usize,
    pub start_row: usize,
    pub depth: usize,
}

impl View for NodeFacts {
    type V = FactsModel;

    open spec fn view(&self) -> FactsModel {
        FactsModel {
            kind: self.kind@,
            is_named: self.is_named,
            field: match self.field {
                Some(f) => Some(f@),
                None => None,
            },
            start_byte: self.start_byte,
            end_byte: self.end_byte,
            start_row: self.start_row,
            depth: self.depth,
        }
    }
}

/// The nodes of a tree-sitter tree in preorder (the order of
/// `TreeCursor::goto_descendant`'s index), each as a cursor moved to it from
/// the root reads it.
pub uninterp spec fn tree_nodes(tree: tree_sitter::Tree) -> Seq<FactsModel>;

/// The nodes of tree-sitter's parse of `source` with the Rust grammar of
/// `tree_sitter_rust`; `None` where the parser refuses the grammar or yields
/// no tree.
pub uninterp spec fn rust_parse(source: Seq<u8>) -> Option<Seq<FactsModel>>;

/// The nodes of tree-sitter's parse of `source` with the C grammar of
/// `tree_sitter_c`; `None` where the parser refuses the grammar or yields
/// no tree.
pub uninterp spec fn c_parse(source: Seq<u8>) -> Option<Seq<FactsModel>>;

/// The nodes of tree-sitter's parse of `source` with the C++ grammar of
/// `tree_sitter_cpp`; `None` where the parser refuses the grammar or yields
/// no tree.
pub uninterp spec fn cpp_parse(source: Seq<u8>) -> Option<Seq<FactsModel>>;

/// The nodes of tree-sitter's parse of `source` with the Go grammar of
/// `tree_sitter_go`; `None` where the parser refuses the grammar or yields
/// no tree.
pub uninterp spec fn go_parse(source: Seq<u8>) -> Option<Seq<FactsModel>>;

/// The nodes of tree-sitter's parse of `source` with the JavaScript grammar of
/// `tree_sitter_javascript`; `None` where the parser refuses the grammar or yields
/// no tree.
pub uninterp spec fn javascript_parse(source: Seq<u8>) -> Option<Seq<FactsModel>>;

/// The nodes of tree-sitter's parse of `source` with the TypeScript (not TSX) grammar of
/// `tree_sitter_typescript`; `None` where the parser refuses the grammar or yields
/// no tree.
pub uninterp spec fn typescript_parse(source: Seq<u8>) -> Option<Seq<FactsModel>>;

/// The nodes of tree-sitter's parse of `source` with the Python grammar of
/// `tree_sitter_python`; `None` where the parser refuses the grammar or yields
/// no tree.
pub uninterp spec fn python_parse(source: Seq<u8>) -> Option<Seq<FactsModel>>;

/// Makes a `tree_sitter::Parser`, sets the Rust grammar of
/// `tree_sitter_rust` (`Parser::set_language`) and parses the whole source
/// (`Parser::parse`, no earlier tree). Claims that the tree's nodes are
/// `rust_parse` of the source, and `None` exactly where that is `None`.
#[verifier::external_body]
pub(crate) fn parse_rust(source: &[u8]) -> (r: Option<tree_sitter::Tree>)
    ensures
        match r {
            Some(t) => rust_parse(source@) == Some(tree_nodes(t)),
            None => rust_parse(source@) is None,
        },
{
    let mut parser = tree_sitter::Parser::new();
    parser.set_language(&tree_sitter_rust::LANGUAGE.into()).ok()?;
    parser.parse(source, None)
}

/// Makes a `tree_sitter::Parser`, sets the C grammar of
/// `tree_sitter_c` (`Parser::set_language`) and parses the whole source
/// (`Parser::parse`, no earlier tree). Claims that the tree's nodes are
/// `c_parse` of the source, and `None` exactly where that is `None`.
#[verifier::external_body]
pub(crate) fn parse_c(source: &[u8]) -> (r: Option<tree_sitter::Tree>)
    ensures
        match r {
            Some(t) => c_parse(source@) == Some(tree_nodes(t)),
            None => c_parse(source@) is None,
        },
{
    let mut parser = tree_sitter::Parser::new();
    parser.set_language(&tree_sitter_c::LANGUAGE.into()).ok()?;
    parser.parse(source, None)
}

/// Makes a `tree_sitter::Parser`, sets the C++ grammar of
/// `tree_sitter_cpp` (`Parser::set_language`) and parses the whole source
/// (`Parser::parse`, no earlier tree). Claims that the tree's nodes are
/// `cpp_parse` of the source, and `None` exactly where that is `None`.
#[verifier::external_body]
pub(crate) fn parse_cpp(source: &[u8]) -> (r: Option<tree_sitter::Tree>)
    ensures
        match r {
            Some(t) => cpp_parse(source@) == Some(tree_nodes(t)),
            None => cpp_parse(source@) is None,
        },
{
    let mut parser = tree_sitter::Parser::new();
    parser.set_language(&tree_sitter_cpp::LANGUAGE.into()).ok()?;
    parser.parse(source, None)
}

/// Makes a `tree_sitter::Parser`, sets the Go grammar of
/// `tree_sitter_go` (`Parser::set_language`) and parses the whole source
/// (`Parser::parse`, no earlier tree). Claims that the tree's nodes are
/// `go_parse` of the source, and `None` exactly where that is `None`.
#[verifier::external_body]
pub(crate) fn parse_go(source: &[u8]) -> (r: Option<tree_sitter::Tree>)
    ensures
        match r {
            Some(t) => go_parse(source@) == Some(tree_nodes(t)),
            None => go_parse(source@) is None,
        },
{
    let mut parser = tree_sitter::Parser::new();
    parser.set_language(&tree_sitter_go::LANGUAGE.into()).ok()?;
    parser.parse(source, None)
}

/// Makes a `tree_sitter::Parser`, sets the JavaScript grammar of
/// `tree_sitter_javascript` (`Parser::set_language`) and parses the whole source
/// (`Parser::parse`, no earlier tree). Claims that the tree's nodes are
/// `javascript_parse` of the source, and `None` exactly where that is `None`.
#[verifier::external_body]
pub(crate) fn parse_javascript(source: &[u8]) -> (r: Option<tree_sitter::Tree>)
    ensures
        match r {
            Some(t) => javascript_parse(source@) == Some(tree_nodes(t)),
            None => javascript_parse(source@) is None,
        },
{
    let mut parser = tree_sitter::Parser::new();
    parser.set_language(&tree_sitter_javascript::LANGUAGE.into()).ok()?;
    parser.parse(source, None)
}

/// Makes a `tree_sitter::Parser`, sets the TypeScript (not TSX) grammar of
/// `tree_sitter_typescript` (`Parser::set_language`) and parses the whole source
/// (`Parser::parse`, no earlier tree). Claims that the tree's nodes are
/// `typescript_parse` of the source, and `None` exactly where that is `None`.
#[verifier::external_body]
pub(crate) fn parse_typescript(source: &[u8]) -> (r: Option<tree_sitter::Tree>)
    ensures
        match r {
            Some(t) => typescript_parse(source@) == Some(tree_nodes(t)),
            None => typescript_parse(source@) is None,
        },
{
    let mut parser = tree_sitter::Parser::new();
    parser.set_language(&tree_sitter_typescript::LANGUAGE_TYPESCRIPT.into()).ok()?;
    parser.parse(source, None)
}

/// Makes a `tree_sitter::Parser`, sets the Python grammar of
/// `tree_sitter_python` (`Parser::set_language`) and parses the whole source
/// (`Parser::parse`, no earlier tree). Claims that the tree's nodes are
/// `python_parse` of the source, and `None` exactly where that is `None`.
#[verifier::external_body]
pub(crate) fn parse_python(source: &[u8]) -> (r: Option<tree_sitter::Tree>)
    ensures
        match r {
            Some(t) => python_parse(source@) == Some(tree_nodes(t)),
            None => python_parse(source@) is None,
        },
{
    let mut parser = tree_sitter::Parser::new();
    parser.set_language(&tree_sitter_python::LANGUAGE.into()).ok()?;
    parser.parse(source, None)
}

/// Calls `tree_sitter::Node::descendant_count` on the root: the number of
/// nodes of the tree, counting the root.
#[verifier::external_body]
pub(crate) fn node_count(tree: &tree_sitter::Tree) -> (r: usize)
    ensures
        r == tree_nodes(*tree).len(),
{
    tree.root_node().descendant_count()
}

/// Reads node `index` of the tree in preorder: walks a fresh cursor
/// (`Tree::walk`) to it (`TreeCursor::goto_descendant`) and reads the node's
/// kind, namedness, byte range and start row (`TreeCursor::node`) with the
/// cursor's field name and depth.
#[verifier::external_body]
pub(crate) fn node_facts(tree: &tree_sitter::Tree, index: usize) -> (r: NodeFacts)
    requires
        index < tree_nodes(*tree).len(),
    ensures
        r@ == tree_nodes(*tree)[index as int],
{
    let mut cursor = tree.walk();
    cursor.goto_descendant(index);
    let n = cursor.node();
    NodeFacts {
        kind: n.kind().to_string(),
        is_named: n.is_named(),
        field: cursor.field_name().map(|f| f.to_string()),
        start_byte: n.start_byte(),
        end_byte: n.end_byte(),
        start_row: n.start_position().row,
        depth: cursor.depth() as usize,
    }
}

} // verus!
