//! Symbol extraction: parse with tree-sitter, convert the parse into the
//! library's syntax-tree model, and classify every node by the rules of its
//! language.

use vstd::prelude::*;

use crate::lang::c::classify_c;
use crate::lang::common::pairs_view;
use crate::lang::cpp::classify_cpp;
use crate::lang::go::classify_go;
use crate::lang::javascript::classify_javascript;
use crate::lang::python::classify_python;
use crate::lang::rust::classify_rust;
use crate::lang::typescript::classify_typescript;
use crate::language::Language;
use crate::model::{Symbol, SymbolKind};
use crate::syntax::{tree_wf, NodeModel, SyntaxNode, SyntaxTree, TreeModel};
use crate::treesitter::{
    c_parse, cpp_parse, go_parse, javascript_parse, node_count, node_facts, parse_c, parse_cpp,
    parse_go, parse_javascript, parse_python, parse_rust, parse_typescript, python_parse,
    rust_parse, tree_nodes, typescript_parse, FactsModel,
};

verus! {

/// Depth cap guarding against pathological nesting: deeper nodes (and so
/// their subtrees) are not classified.
pub const MAX_DEPTH: usize = 256;

/// Tree-sitter's parse of `source` with the grammar of `language`
/// (TypeScript through the plain TS grammar, `.tsx` included): its nodes in
/// preorder, or `None` where there is no tree.
pub open spec fn parsed_nodes(language: Language, source: Seq<u8>) -> Option<Seq<FactsModel>> {
    match language {
        Language::Rust => rust_parse(source),
        Language::C => c_parse(source),
        Language::Cpp => cpp_parse(source),
        Language::Go => go_parse(source),
        Language::JavaScript => javascript_parse(source),
        Language::TypeScript => typescript_parse(source),
        Language::Python => python_parse(source),
    }
}

/// Parses `source` with the grammar of `language`.
fn parse_in(language: Language, source: &[u8]) -> (r: Option<tree_sitter::Tree>)
    ensures
        match r {
            Some(t) => parsed_nodes(language, source@) == Some(tree_nodes(t)),
            None => parsed_nodes(language, source@) is None,
        },
{
    match language {
        Language::Rust => parse_rust(source),
        Language::C => parse_c(source),
        Language::Cpp => parse_cpp(source),
        Language::Go => parse_go(source),
        Language::JavaScript => parse_javascript(source),
        Language::TypeScript => parse_typescript(source),
        Language::Python => parse_python(source),
    }
}

impl SyntaxTree {
    /// The tree with no nodes.
    pub fn empty() -> (t: SyntaxTree)
        ensures
            tree_wf(t@),
            t@.nodes.len() == 0,
    {
        SyntaxTree { nodes: Vec::new(), ends: Vec::new() }
    }
}

/// The state of the preorder conversion: the nodes built so far, their
/// subtree ends (final for closed nodes), the positions of the open
/// ancestors of the next node by depth, and whether conversion stopped.
pub struct ConversionState {
    pub nodes: Seq<NodeModel>,
    pub ends: Seq<usize>,
    pub open: Seq<usize>,
    pub stopped: bool,
}

/// A node that cannot extend a preorder of `k` nodes with `open` open
/// ancestors: its depth skips a level, it is a second root or a non-root
/// first node, or its row leaves no room for a 1-based line number.
pub open spec fn fact_rejected(f: FactsModel, k: int, open: int) -> bool {
    f.start_row == usize::MAX || f.depth > open || (k > 0 && f.depth == 0) || (k == 0 && f.depth != 0)
}

/// Closes the open nodes at depth `d` and below it: each gets `k` (the next
/// node's position) as its subtree end.
pub open spec fn close_to(ends: Seq<usize>, open: Seq<usize>, d: int, k: usize) -> (Seq<usize>, Seq<usize>)
    decreases open.len(),
{
    if open.len() <= d || d < 0 || open.len() == 0 {
        (ends, open)
    } else {
        close_to(ends.update(open.last() as int, k), open.drop_last(), d, k)
    }
}

/// The model of the node built from parse facts, with its parent.
pub open spec fn node_of(f: FactsModel, parent: Option<usize>) -> NodeModel {
    NodeModel {
        kind: f.kind,
        is_named: f.is_named,
        field: f.field,
        start_byte: f.start_byte,
        end_byte: f.end_byte,
        start_row: f.start_row,
        depth: f.depth,
        parent,
    }
}

/// The conversion state after reading `facts` in order. Each accepted node
/// closes the open nodes at its depth and below, takes the open node one
/// level up as its parent, and is itself open; the first rejected node
/// stops the conversion.
pub open spec fn conversion(facts: Seq<FactsModel>) -> ConversionState
    decreases facts.len(),
{
    if facts.len() == 0 {
        ConversionState { nodes: seq![], ends: seq![], open: seq![], stopped: false }
    } else {
        let s = conversion(facts.drop_last());
        let f = facts.last();
        let k = s.nodes.len() as int;
        if s.stopped || fact_rejected(f, k, s.open.len() as int) {
            ConversionState { nodes: s.nodes, ends: s.ends, open: s.open, stopped: true }
        } else {
            let closed = close_to(s.ends, s.open, f.depth as int, k as usize);
            let parent = if f.depth == 0 { None } else { Some(closed.1[f.depth - 1]) };
            ConversionState {
                nodes: s.nodes.push(node_of(f, parent)),
                ends: closed.0.push((k + 1) as usize),
                open: closed.1.push(k as usize),
                stopped: false,
            }
        }
    }
}

/// The syntax tree converted from a preorder of parse nodes: the
/// conversion's nodes, with every node still open ending at the last node.
pub open spec fn tree_of_nodes(facts: Seq<FactsModel>) -> TreeModel {
    let s = conversion(facts);
    TreeModel { nodes: s.nodes, ends: close_to(s.ends, s.open, 0, s.nodes.len() as usize).0 }
}

/// Closing keeps the ends table's length and leaves the open positions up
/// to depth `d`.
proof fn lemma_close_to(ends: Seq<usize>, open: Seq<usize>, d: int, k: usize)
    requires
        0 <= d,
        forall|m: int| 0 <= m < open.len() ==> (#[trigger] open[m]) < ends.len(),
    ensures
        close_to(ends, open, d, k).0.len() == ends.len(),
        close_to(ends, open, d, k).1 == (if open.len() <= d { open } else { open.subrange(0, d) }),
    decreases open.len(),
{
    if open.len() > d && open.len() > 0 {
        let o2 = open.drop_last();
        assert forall|m: int| 0 <= m < o2.len() implies (#[trigger] o2[m]) < ends.update(open.last() as int, k).len() by {
            assert(o2[m] == open[m]);
        }
        lemma_close_to(ends.update(open.last() as int, k), o2, d, k);
        if o2.len() > d {
            assert(o2.subrange(0, d) =~= open.subrange(0, d));
        } else {
            assert(o2 =~= open.subrange(0, d));
        }
    }
}

/// The conversion keeps its tables aligned, its open positions in range
/// and its rows short of `usize::MAX`; until it stops it has one node per
/// fact read.
proof fn lemma_conversion(facts: Seq<FactsModel>)
    ensures
        conversion(facts).nodes.len() == conversion(facts).ends.len(),
        forall|m: int| 0 <= m < conversion(facts).open.len() ==> (#[trigger] conversion(facts).open[m]) < conversion(facts).nodes.len(),
        forall|i: int| 0 <= i < conversion(facts).nodes.len() ==> (#[trigger] conversion(facts).nodes[i]).start_row < usize::MAX,
        !conversion(facts).stopped ==> conversion(facts).nodes.len() == facts.len(),
        conversion(facts).nodes.len() <= facts.len(),
    decreases facts.len(),
{
    if facts.len() > 0 {
        lemma_conversion(facts.drop_last());
        let s = conversion(facts.drop_last());
        let f = facts.last();
        let k = s.nodes.len() as int;
        if !(s.stopped || fact_rejected(f, k, s.open.len() as int)) {
            lemma_close_to(s.ends, s.open, f.depth as int, k as usize);
        }
    }
}

/// A stopped conversion reads no further.
proof fn lemma_conversion_stopped(facts: Seq<FactsModel>, j: int)
    requires
        0 <= j <= facts.len(),
        conversion(facts.take(j)).stopped,
    ensures
        conversion(facts) == conversion(facts.take(j)),
    decreases facts.len() - j,
{
    if j < facts.len() {
        assert(facts.take(j + 1).drop_last() =~= facts.take(j));
        lemma_conversion_stopped(facts, j + 1);
    } else {
        assert(facts.take(j) =~= facts);
    }
}

/// A converted tree is well-formed.
pub proof fn lemma_tree_of_nodes_wf(facts: Seq<FactsModel>)
    ensures
        tree_wf(tree_of_nodes(facts)),
{
    lemma_conversion(facts);
    let s = conversion(facts);
    lemma_close_to(s.ends, s.open, 0, s.nodes.len() as usize);
}

/// Parses `source` and converts the parse into the syntax-tree model, node
/// by node in preorder (see `conversion`); `None` when there is no parse.
pub fn parse_syntax_tree(language: Language, source: &[u8]) -> (r: Option<SyntaxTree>)
    ensures
        match parsed_nodes(language, source@) {
            Some(facts) => r matches Some(t) && t@ == tree_of_nodes(facts),
            None => r is None,
        },
        r matches Some(t) ==> tree_wf(t@),
{
    let tree = match parse_in(language, source) {
        Some(t) => t,
        None => return None,
    };
    let ghost facts = tree_nodes(tree);
    let count = node_count(&tree);
    let mut nodes: Vec<SyntaxNode> = Vec::new();
    let mut ends: Vec<usize> = Vec::new();
    // positions of the open ancestors of the next node, by depth
    let mut open: Vec<usize> = Vec::new();
    let mut k: usize = 0;
    proof {
        assert(facts.take(0) =~= Seq::<FactsModel>::empty());
        assert(nodes@.map_values(|n: SyntaxNode| n@) =~= Seq::<NodeModel>::empty());
        assert(facts.take(facts.len() as int) =~= facts);
    }
    while k < count
        invariant
            count == facts.len(),
            facts.take(count as int) == facts,
            facts == tree_nodes(tree),
            k <= count,
            conversion(facts.take(k as int)) == (ConversionState {
                nodes: nodes@.map_values(|n: SyntaxNode| n@),
                ends: ends@,
                open: open@,
                stopped: false,
            }),
        ensures
            conversion(facts) == (ConversionState {
                nodes: nodes@.map_values(|n: SyntaxNode| n@),
                ends: ends@,
                open: open@,
                stopped: conversion(facts).stopped,
            }),
        decreases count - k,
    {
        let ghost pre = facts.take(k as int);
        proof {
            lemma_conversion(pre);
            assert(facts.take(k + 1).drop_last() =~= pre);
            assert(facts.take(k + 1).last() == facts[k as int]);
        }
        let f = node_facts(&tree, k);
        let d = f.depth;
        if f.start_row == usize::MAX || d > open.len() || (k > 0 && d == 0) || (k == 0 && d != 0) {
            proof {
                lemma_conversion_stopped(facts, k + 1);
            }
            break;
        }
        let ghost ends0 = ends@;
        let ghost open0 = open@;
        proof {
            lemma_close_to(ends0, open0, d as int, k);
        }
        while open.len() > d
            invariant
                ends@.len() == k,
                d <= open@.len(),
                forall|m: int| 0 <= m < open@.len() ==> (#[trigger] open@[m]) < k,
                close_to(ends@, open@, d as int, k) == close_to(ends0, open0, d as int, k),
            decreases open@.len(),
        {
            let p = open.pop().unwrap();
            ends.set(p, k);
        }
        let ghost closed = close_to(ends0, open0, d as int, k);
        proof {
            assert(close_to(ends@, open@, d as int, k) == (ends@, open@));
        }
        let parent = if d == 0 {
            None
        } else {
            Some(open[d - 1])
        };
        let ghost nodes0 = nodes@;
        nodes.push(
            SyntaxNode {
                kind: f.kind,
                is_named: f.is_named,
                field: f.field,
                start_byte: f.start_byte,
                end_byte: f.end_byte,
                start_row: f.start_row,
                depth: d,
                parent,
            },
        );
        ends.push(k + 1);
        open.push(k);
        proof {
            assert(nodes@.map_values(|n: SyntaxNode| n@) =~= nodes0.map_values(|n: SyntaxNode| n@).push(
                node_of(facts[k as int], parent),
            ));
        }
        k = k + 1;
    }
    let n = nodes.len();
    let ghost ends1 = ends@;
    let ghost open1 = open@;
    proof {
        lemma_conversion(facts);
        let c = conversion(facts);
        assert(c.nodes.len() == n);
        assert(c.open == open1 && c.ends == ends1);
        assert forall|m: int| 0 <= m < open1.len() implies (#[trigger] open1[m]) < n by {
            assert(c.open[m] == open1[m]);
        }
        lemma_close_to(ends1, open1, 0, n);
    }
    while open.len() > 0
        invariant
            ends@.len() == n,
            forall|m: int| 0 <= m < open@.len() ==> (#[trigger] open@[m]) < n,
            close_to(ends@, open@, 0, n) == close_to(ends1, open1, 0, n),
        decreases open@.len(),
    {
        let p = open.pop().unwrap();
        ends.set(p, n);
    }
    let t = SyntaxTree { nodes, ends };
    proof {
        assert(close_to(ends@, open@, 0, n) == (ends@, open@));
        assert(t@.nodes =~= tree_of_nodes(facts).nodes);
        assert(t@.ends =~= tree_of_nodes(facts).ends);
        lemma_tree_of_nodes_wf(facts);
    }
    Some(t)
}

/// The symbols that node `i` declares, by the rules of `language`.
pub open spec fn classify_node(language: Language, t: TreeModel, i: int, source: Seq<u8>) -> Seq<(Seq<char>, SymbolKind)> {
    match language {
        Language::Rust => classify_rust(t, i, source),
        Language::C => classify_c(t, i, source),
        Language::Cpp => classify_cpp(t, i, source),
        Language::Go => classify_go(t, i, source),
        Language::JavaScript => classify_javascript(t, i, source),
        Language::TypeScript => classify_typescript(t, i, source),
        Language::Python => classify_python(t, i, source),
    }
}

/// The view of extracted symbols: (name, kind, line).
pub open spec fn symbols_view(v: Seq<Symbol>) -> Seq<(Seq<char>, SymbolKind, int)> {
    v.map_values(|s: Symbol| (s.name@, s.kind, s.line as int))
}

/// The symbols declared by node `i`, located at its 1-based start line;
/// none for nodes deeper than `MAX_DEPTH`.
pub open spec fn node_symbols(language: Language, t: TreeModel, i: int, source: Seq<u8>) -> Seq<(Seq<char>, SymbolKind, int)> {
    if t.nodes[i].depth <= MAX_DEPTH {
        let line = t.nodes[i].start_row + 1;
        classify_node(language, t, i, source).map_values(|p: (Seq<char>, SymbolKind)| (p.0, p.1, line))
    } else {
        seq![]
    }
}

/// The symbols of the first `n` nodes, in preorder.
pub open spec fn collected_symbols(language: Language, t: TreeModel, n: int, source: Seq<u8>) -> Seq<(Seq<char>, SymbolKind, int)>
    decreases n,
{
    if n <= 0 {
        seq![]
    } else {
        collected_symbols(language, t, n - 1, source) + node_symbols(language, t, n - 1, source)
    }
}

/// All symbols of a tree, in preorder.
pub open spec fn tree_symbols(language: Language, t: TreeModel, source: Seq<u8>) -> Seq<(Seq<char>, SymbolKind, int)> {
    collected_symbols(language, t, t.nodes.len() as int, source)
}

/// Every collected symbol carries a 1-based line number.
proof fn lemma_collected_lines_positive(language: Language, t: TreeModel, n: int, source: Seq<u8>)
    ensures
        forall|k: int| 0 <= k < collected_symbols(language, t, n, source).len()
            ==> (#[trigger] collected_symbols(language, t, n, source)[k]).2 >= 1,
    decreases n,
{
    if n > 0 {
        lemma_collected_lines_positive(language, t, n - 1, source);
        let a = collected_symbols(language, t, n - 1, source);
        let b = node_symbols(language, t, n - 1, source);
        assert forall|k: int| 0 <= k < (a + b).len() implies (#[trigger] (a + b)[k]).2 >= 1 by {
            if k >= a.len() {
                assert((a + b)[k] == b[k - a.len()]);
            } else {
                assert((a + b)[k] == a[k]);
            }
        }
    }
}

/// Extracted line numbers are 1-based: every symbol of a tree has line at
/// least 1.
pub proof fn lemma_symbol_lines_positive(language: Language, t: TreeModel, source: Seq<u8>)
    ensures
        forall|k: int| 0 <= k < tree_symbols(language, t, source).len()
            ==> (#[trigger] tree_symbols(language, t, source)[k]).2 >= 1,
{
    lemma_collected_lines_positive(language, t, t.nodes.len() as int, source);
}

/// Classifies node `i` by the rules of `language`.
fn classify_with(language: Language, t: &SyntaxTree, i: usize, source: &[u8]) -> (r: Vec<(String, SymbolKind)>)
    ensures
        pairs_view(r@) == classify_node(language, t@, i as int, source@),
{
    match language {
        Language::Rust => crate::lang::rust::classify(t, i, source),
        Language::C => crate::lang::c::classify(t, i, source),
        Language::Cpp => crate::lang::cpp::classify(t, i, source),
        Language::Go => crate::lang::go::classify(t, i, source),
        Language::JavaScript => crate::lang::javascript::classify(t, i, source),
        Language::TypeScript => crate::lang::typescript::classify(t, i, source),
        Language::Python => crate::lang::python::classify(t, i, source),
    }
}

/// Collects the symbols of every node of a tree, in preorder.
pub fn symbols_from_tree(language: Language, t: &SyntaxTree, source: &[u8]) -> (r: Vec<Symbol>)
    requires
        tree_wf(t@),
    ensures
        symbols_view(r@) == tree_symbols(language, t@, source@),
        forall|k: int| 0 <= k < r@.len() ==> (#[trigger] r@[k]).line >= 1,
{
    let mut out: Vec<Symbol> = Vec::new();
    let mut i: usize = 0;
    proof {
        assert(symbols_view(out@) =~= Seq::<(Seq<char>, SymbolKind, int)>::empty());
    }
    while i < t.nodes.len()
        invariant
            tree_wf(t@),
            i <= t.nodes@.len(),
            symbols_view(out@) == collected_symbols(language, t@, i as int, source@),
        decreases t.nodes@.len() - i,
    {
        if t.nodes[i].depth <= MAX_DEPTH {
            let pairs = classify_with(language, t, i, source);
            let line = t.nodes[i].start_row + 1;
            let ghost base = symbols_view(out@);
            let ghost ps = pairs_view(pairs@);
            let mut j: usize = 0;
            while j < pairs.len()
                invariant
                    i < t.nodes@.len(),
                    j <= pairs@.len(),
                    ps == pairs_view(pairs@),
                    line == t.nodes@[i as int].start_row + 1,
                    symbols_view(out@) == base + ps.subrange(0, j as int).map_values(
                        |p: (Seq<char>, SymbolKind)| (p.0, p.1, line as int),
                    ),
                decreases pairs@.len() - j,
            {
                let name = pairs[j].0.clone();
                let kind = pairs[j].1;
                let ghost before = out@;
                proof {
                    assert(name@ == ps[j as int].0);
                    assert(kind == ps[j as int].1);
                }
                out.push(Symbol { name, kind, line });
                proof {
                    assert(symbols_view(out@) =~= symbols_view(before).push((ps[j as int].0, ps[j as int].1, line as int)));
                    assert(ps.subrange(0, j + 1) =~= ps.subrange(0, j as int).push(ps[j as int]));
                }
                j = j + 1;
                proof {
                    assert(symbols_view(out@) =~= base + ps.subrange(0, j as int).map_values(
                        |p: (Seq<char>, SymbolKind)| (p.0, p.1, line as int),
                    ));
                }
            }
            proof {
                assert(ps.subrange(0, j as int) =~= ps);
            }
        }
        i = i + 1;
    }
    proof {
        lemma_symbol_lines_positive(language, t@, source@);
        assert forall|k: int| 0 <= k < out@.len() implies (#[trigger] out@[k]).line >= 1 by {
            assert(symbols_view(out@)[k].2 == out@[k].line);
            assert(symbols_view(out@)[k] == tree_symbols(language, t@, source@)[k]);
        }
    }
    out
}

/// The symbols extracted from `source`: those of the tree converted from
/// tree-sitter's parse, none where there is no parse.
pub open spec fn extracted_symbols(language: Language, source: Seq<u8>) -> Seq<(Seq<char>, SymbolKind, int)> {
    match parsed_nodes(language, source) {
        Some(facts) => tree_symbols(language, tree_of_nodes(facts), source),
        None => seq![],
    }
}

/// Extracts the declarations of `source` in the given language, in
/// preorder. Parsing never fails hard: without a parse there are no
/// symbols, and malformed code yields whatever declarations are
/// recognizable.
pub fn extract_symbols(language: Language, source: &[u8]) -> (r: Vec<Symbol>)
    ensures
        symbols_view(r@) == extracted_symbols(language, source@),
        forall|k: int| 0 <= k < r@.len() ==> (#[trigger] r@[k]).line >= 1,
{
    match parse_syntax_tree(language, source) {
        Some(tree) => symbols_from_tree(language, &tree, source),
        None => {
            let r: Vec<Symbol> = Vec::new();
            proof {
                assert(symbols_view(r@) =~= Seq::<(Seq<char>, SymbolKind, int)>::empty());
            }
            r
        },
    }
}

} // verus!
