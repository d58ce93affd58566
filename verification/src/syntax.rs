//! The library's own syntax-tree model and its construction from a
//! tree-sitter parse.
//!
//! A tree is a preorder sequence of nodes. Each node records its kind, the
//! field under which it hangs from its parent, its byte range and start row,
//! its depth and parent, and (in `ends`) the position one past its subtree,
//! so that its children are found by stepping from subtree to subtree.

use vstd::prelude::*;
use vstd::utf8::{decode_utf8, valid_utf8};

use crate::language::Language;

verus! {

/// One node of a syntax tree.
#[derive(Debug)]
pub struct SyntaxNode {
    /// The grammar's name for the node (`function_item`, `identifier`, ...).
    pub kind: String,
    /// Whether the node is named (rather than anonymous punctuation).
    pub is_named: bool,
    /// The field under which the node hangs from its parent, if any.
    pub field: Option<String>,
    pub start_byte: usize,
    pub end_byte: usize,
    /// 0-based row at which the node starts.
    pub start_row: usize,
    /// Distance from the root.
    pub depth: usize,
    /// Position of the parent node; `None` for the root.
    pub parent: Option<usize>,
}

/// A syntax tree: nodes in preorder, with `ends[i]` one past the last node
/// of node `i`'s subtree.
#[derive(Debug)]
pub struct SyntaxTree {
    pub nodes: Vec<SyntaxNode>,
    pub ends: Vec<usize>,
}

/// The mathematical content of a node.
pub struct NodeModel {
    pub kind: Seq<char>,
    pub is_named: bool,
    pub field: Option<Seq<char>>,
    pub start_byte: usize,
    pub end_byte: usize,
    pub start_row: usize,
    pub depth: usize,
    pub parent: Option<usize>,
}

/// The mathematical content of a tree: its nodes in preorder and the
/// subtree ends.
pub struct TreeModel {
    pub nodes: Seq<NodeModel>,
    pub ends: Seq<usize>,
}

impl View for SyntaxNode {
    type V = NodeModel;

    open spec fn view(&self) -> NodeModel {
        NodeModel {
            kind: self.kind@,
            is_named: self.is_named,
            field: match self.field {
                Some(f) => Some(f@),
                None => None,
            },
            start_byte: self.start_byte,
            end_byte: self.end_byte,
            start_row: self.start_row,
            depth: self.depth,
            parent: self.parent,
        }
    }
}

impl View for SyntaxTree {
    type V = TreeModel;

    open spec fn view(&self) -> TreeModel {
        TreeModel { nodes: self.nodes@.map_values(|n: SyntaxNode| n@), ends: self.ends@ }
    }
}

/// A tree whose node and subtree-end tables agree in length and whose rows
/// leave room for 1-based line numbers.
pub open spec fn tree_wf(t: TreeModel) -> bool {
    &&& t.nodes.len() == t.ends.len()
    &&& forall|i: int| 0 <= i < t.nodes.len() ==> (#[trigger] t.nodes[i]).start_row < usize::MAX
}

/// Node `i` has the given kind.
pub open spec fn has_kind(t: TreeModel, i: int, kind: Seq<char>) -> bool {
    0 <= i < t.nodes.len() && t.nodes[i].kind == kind
}

/// Children of a node from position `c` up to `end`: each child's subtree
/// ends where the next child starts.
pub open spec fn children_from(t: TreeModel, c: int, end: int) -> Seq<int>
    decreases end - c,
{
    if c < 0 || c >= end || c >= t.ends.len() || t.ends[c] <= c {
        seq![]
    } else {
        let next = if t.ends[c] < end { t.ends[c] as int } else { end };
        seq![c] + children_from(t, next, end)
    }
}

/// The children of node `i`, in order.
pub open spec fn children_of(t: TreeModel, i: int) -> Seq<int> {
    if 0 <= i < t.ends.len() {
        children_from(t, i + 1, t.ends[i] as int)
    } else {
        seq![]
    }
}

/// The parent of node `i`, where it precedes `i` (as it does in preorder).
pub open spec fn parent_of(t: TreeModel, i: int) -> Option<int> {
    if 0 <= i < t.nodes.len() {
        match t.nodes[i].parent {
            Some(p) => if p < i { Some(p as int) } else { None },
            None => None,
        }
    } else {
        None
    }
}

/// The text of the byte range `[start, end)` of `source`, where it is in
/// range and valid UTF-8.
pub open spec fn text_of_range(source: Seq<u8>, start: int, end: int) -> Option<Seq<char>> {
    if 0 <= start <= end <= source.len() && valid_utf8(source.subrange(start, end)) {
        Some(decode_utf8(source.subrange(start, end)))
    } else {
        None
    }
}

/// The source text of node `i`.
pub open spec fn node_text(t: TreeModel, i: int, source: Seq<u8>) -> Option<Seq<char>> {
    if 0 <= i < t.nodes.len() {
        text_of_range(source, t.nodes[i].start_byte as int, t.nodes[i].end_byte as int)
    } else {
        None
    }
}

/// Whether the node hangs under the given field.
pub open spec fn has_field(n: NodeModel, field: Seq<char>) -> bool {
    match n.field {
        Some(f) => f == field,
        None => false,
    }
}

/// The first of `cs` that hangs under the given field.
pub open spec fn first_with_field(t: TreeModel, cs: Seq<int>, field: Seq<char>) -> Option<int>
    decreases cs.len(),
{
    if cs.len() == 0 {
        None
    } else if 0 <= cs[0] < t.nodes.len() && has_field(t.nodes[cs[0]], field) {
        Some(cs[0])
    } else {
        first_with_field(t, cs.drop_first(), field)
    }
}

/// The child of node `i` under the given field.
pub open spec fn child_by_field(t: TreeModel, i: int, field: Seq<char>) -> Option<int> {
    first_with_field(t, children_of(t, i), field)
}

/// The text of the child of node `i` under the given field.
pub open spec fn field_text(t: TreeModel, i: int, source: Seq<u8>, field: Seq<char>) -> Option<Seq<char>> {
    match child_by_field(t, i, field) {
        Some(c) => node_text(t, c, source),
        None => None,
    }
}

/// Whether one of `cs` has the given kind.
pub open spec fn any_has_kind(t: TreeModel, cs: Seq<int>, kind: Seq<char>) -> bool {
    exists|k: int| 0 <= k < cs.len() && has_kind(t, cs[k], kind)
}

/// Whether some child of node `i` has the given kind.
pub open spec fn has_child_kind(t: TreeModel, i: int, kind: Seq<char>) -> bool {
    any_has_kind(t, children_of(t, i), kind)
}

/// Whether some proper ancestor of node `i` has kind `k1` or `k2`.
pub open spec fn ancestor_has_kind(t: TreeModel, i: int, k1: Seq<char>, k2: Seq<char>) -> bool
    decreases i,
{
    match parent_of(t, i) {
        Some(p) => has_kind(t, p, k1) || has_kind(t, p, k2) || ancestor_has_kind(t, p, k1, k2),
        None => false,
    }
}

/// The `n`-th ancestor of node `i`, following parents (`i` itself for
/// `n == 0`).
pub open spec fn nth_ancestor(t: TreeModel, i: int, n: nat) -> Option<int>
    decreases n,
{
    if n == 0 {
        Some(i)
    } else {
        match parent_of(t, i) {
            Some(p) => nth_ancestor(t, p, (n - 1) as nat),
            None => None,
        }
    }
}

/// Whether some proper ancestor of node `i` has kind `k`.
pub open spec fn has_ancestor_of_kind(t: TreeModel, i: int, k: Seq<char>) -> bool {
    exists|n: nat| n >= 1 && match #[trigger] nth_ancestor(t, i, n) {
        Some(q) => has_kind(t, q, k),
        None => false,
    }
}

/// A proper ancestor of `i` is its parent or a proper ancestor of its parent.
proof fn lemma_has_ancestor_step(t: TreeModel, i: int, k: Seq<char>)
    ensures
        has_ancestor_of_kind(t, i, k) == match parent_of(t, i) {
            Some(p) => has_kind(t, p, k) || has_ancestor_of_kind(t, p, k),
            None => false,
        },
{
    match parent_of(t, i) {
        Some(p) => {
            assert(nth_ancestor(t, i, 1) == nth_ancestor(t, p, 0));
            if has_ancestor_of_kind(t, i, k) {
                let n = choose|n: nat| n >= 1 && match #[trigger] nth_ancestor(t, i, n) {
                    Some(q) => has_kind(t, q, k),
                    None => false,
                };
                if n > 1 {
                    let m = (n - 1) as nat;
                    assert(nth_ancestor(t, i, n) == nth_ancestor(t, p, m));
                }
            }
            if has_kind(t, p, k) {
                assert(nth_ancestor(t, i, 1) == Some(p));
            }
            if has_ancestor_of_kind(t, p, k) {
                let m = choose|m: nat| m >= 1 && match #[trigger] nth_ancestor(t, p, m) {
                    Some(q) => has_kind(t, q, k),
                    None => false,
                };
                assert(nth_ancestor(t, i, m + 1) == nth_ancestor(t, p, m));
            }
        },
        None => {
            if has_ancestor_of_kind(t, i, k) {
                let n = choose|n: nat| n >= 1 && match #[trigger] nth_ancestor(t, i, n) {
                    Some(q) => has_kind(t, q, k),
                    None => false,
                };
                assert(nth_ancestor(t, i, n) is None);
            }
        },
    }
}

/// `ancestor_has_kind` holds exactly when some proper ancestor has one of
/// the two kinds.
pub proof fn lemma_ancestor_has_kind(t: TreeModel, i: int, k1: Seq<char>, k2: Seq<char>)
    ensures
        ancestor_has_kind(t, i, k1, k2) == (has_ancestor_of_kind(t, i, k1) || has_ancestor_of_kind(t, i, k2)),
    decreases i,
{
    lemma_has_ancestor_step(t, i, k1);
    lemma_has_ancestor_step(t, i, k2);
    if let Some(p) = parent_of(t, i) {
        lemma_ancestor_has_kind(t, p, k1, k2);
    }
}

/// The first named node of `cs`.
pub open spec fn first_named(t: TreeModel, cs: Seq<int>) -> Option<int>
    decreases cs.len(),
{
    if cs.len() == 0 {
        None
    } else if 0 <= cs[0] < t.nodes.len() && t.nodes[cs[0]].is_named {
        Some(cs[0])
    } else {
        first_named(t, cs.drop_first())
    }
}

/// Whether two string slices hold the same characters.
pub(crate) fn str_equal(a: &str, b: &str) -> (r: bool)
    ensures
        r == (a@ == b@),
{
    let n = a.unicode_len();
    if n != b.unicode_len() {
        return false;
    }
    let mut i: usize = 0;
    while i < n
        invariant
            n == a@.len(),
            n == b@.len(),
            i <= n,
            forall|k: int| 0 <= k < i ==> a@[k] == b@[k],
        decreases n - i,
    {
        if a.get_char(i) != b.get_char(i) {
            return false;
        }
        i = i + 1;
    }
    proof {
        assert(a@ =~= b@);
    }
    true
}

/// Calls `std::str::from_utf8` on `source[start..end]`; std returns the
/// decoded text exactly when the bytes are valid UTF-8.
#[verifier::external_body]
pub(crate) fn utf8_range_text(source: &[u8], start: usize, end: usize) -> (r: Option<String>)
    requires
        start <= end <= source@.len(),
    ensures
        r matches Some(s) ==> valid_utf8(source@.subrange(start as int, end as int))
            && s@ == decode_utf8(source@.subrange(start as int, end as int)),
        r is None ==> !valid_utf8(source@.subrange(start as int, end as int)),
{
    std::str::from_utf8(&source[start..end]).ok().map(|s| s.to_string())
}

impl SyntaxTree {
    /// Number of nodes.
    pub fn len(&self) -> (r: usize)
        ensures
            r == self.nodes@.len(),
    {
        self.nodes.len()
    }

    /// Whether node `i` has the given kind.
    pub fn is_kind(&self, i: usize, kind: &str) -> (r: bool)
        ensures
            r == has_kind(self@, i as int, kind@),
    {
        if i < self.nodes.len() {
            str_equal(self.nodes[i].kind.as_str(), kind)
        } else {
            false
        }
    }

    /// The children of node `i`, in order.
    pub fn children(&self, i: usize) -> (r: Vec<usize>)
        ensures
            r@.map_values(|c: usize| c as int) == children_of(self@, i as int),
    {
        let mut r: Vec<usize> = Vec::new();
        if i >= self.ends.len() {
            proof {
                assert(r@.map_values(|c: usize| c as int) =~= Seq::<int>::empty());
            }
            return r;
        }
        let end = self.ends[i];
        if i == usize::MAX {
            proof {
                assert(r@.map_values(|c: usize| c as int) =~= Seq::<int>::empty());
            }
            return r;
        }
        let mut c = i + 1;
        proof {
            assert(r@.map_values(|c: usize| c as int) =~= Seq::<int>::empty());
            assert(children_of(self@, i as int) == Seq::<int>::empty() + children_from(self@, c as int, end as int));
        }
        while c < end && c < self.ends.len() && self.ends[c] > c
            invariant
                i < self.ends@.len(),
                end == self.ends@[i as int],
                children_of(self@, i as int) == r@.map_values(|c: usize| c as int) + children_from(self@, c as int, end as int),
            decreases end - c,
        {
            let ghost old_r = r@;
            r.push(c);
            proof {
                assert(r@.map_values(|c: usize| c as int) =~= old_r.map_values(|c: usize| c as int) + seq![c as int]);
            }
            let next = if self.ends[c] < end { self.ends[c] } else { end };
            proof {
                assert(children_from(self@, c as int, end as int) == seq![c as int] + children_from(
                    self@,
                    next as int,
                    end as int,
                ));
            }
            c = next;
        }
        proof {
            assert(children_from(self@, c as int, end as int) == Seq::<int>::empty());
            assert(r@.map_values(|c: usize| c as int) + Seq::<int>::empty() =~= r@.map_values(|c: usize| c as int));
        }
        r
    }

    /// The parent of node `i`, where it precedes `i`.
    pub fn parent(&self, i: usize) -> (r: Option<usize>)
        ensures
            match r {
                Some(p) => parent_of(self@, i as int) == Some(p as int),
                None => parent_of(self@, i as int) is None,
            },
    {
        if i < self.nodes.len() {
            match self.nodes[i].parent {
                Some(p) => if p < i { Some(p) } else { None },
                None => None,
            }
        } else {
            None
        }
    }

    /// The source text of node `i`.
    pub fn text(&self, i: usize, source: &[u8]) -> (r: Option<String>)
        ensures
            match r {
                Some(s) => node_text(self@, i as int, source@) == Some(s@),
                None => node_text(self@, i as int, source@) is None,
            },
    {
        if i >= self.nodes.len() {
            return None;
        }
        let start = self.nodes[i].start_byte;
        let end = self.nodes[i].end_byte;
        if start <= end && end <= source.len() {
            utf8_range_text(source, start, end)
        } else {
            None
        }
    }

    /// The child of node `i` under the given field.
    pub fn child_by_field_name(&self, i: usize, field: &str) -> (r: Option<usize>)
        ensures
            match r {
                Some(c) => child_by_field(self@, i as int, field@) == Some(c as int),
                None => child_by_field(self@, i as int, field@) is None,
            },
    {
        let cs = self.children(i);
        let ghost all = cs@.map_values(|c: usize| c as int);
        let mut k: usize = 0;
        proof {
            assert(all.skip(0) =~= all);
        }
        while k < cs.len()
            invariant
                k <= cs@.len(),
                all == cs@.map_values(|c: usize| c as int),
                child_by_field(self@, i as int, field@) == first_with_field(self@, all.skip(k as int), field@),
            decreases cs@.len() - k,
        {
            let c = cs[k];
            proof {
                assert(all.skip(k as int)[0] == c as int);
                assert(all.skip(k as int).drop_first() =~= all.skip(k + 1));
            }
            if c < self.nodes.len() {
                let matched = match &self.nodes[c].field {
                    Some(f) => str_equal(f.as_str(), field),
                    None => false,
                };
                if matched {
                    return Some(c);
                }
            }
            k = k + 1;
        }
        proof {
            assert(all.skip(k as int).len() == 0);
        }
        None
    }

    /// The text of the child of node `i` under the given field.
    pub fn field_text(&self, i: usize, source: &[u8], field: &str) -> (r: Option<String>)
        ensures
            match r {
                Some(s) => field_text(self@, i as int, source@, field@) == Some(s@),
                None => field_text(self@, i as int, source@, field@) is None,
            },
    {
        match self.child_by_field_name(i, field) {
            Some(c) => self.text(c, source),
            None => None,
        }
    }

    /// Whether some child of node `i` has the given kind.
    pub fn has_child_kind(&self, i: usize, kind: &str) -> (r: bool)
        ensures
            r == has_child_kind(self@, i as int, kind@),
    {
        let cs = self.children(i);
        let ghost all = cs@.map_values(|c: usize| c as int);
        let mut k: usize = 0;
        while k < cs.len()
            invariant
                k <= cs@.len(),
                all == cs@.map_values(|c: usize| c as int),
                all == children_of(self@, i as int),
                forall|m: int| 0 <= m < k ==> !has_kind(self@, all[m], kind@),
            decreases cs@.len() - k,
        {
            if self.is_kind(cs[k], kind) {
                proof {
                    assert(all[k as int] == cs@[k as int] as int);
                }
                return true;
            }
            k = k + 1;
        }
        false
    }

    /// Whether some proper ancestor of node `i` has kind `k1` or `k2`.
    pub fn ancestor_has_kind(&self, i: usize, k1: &str, k2: &str) -> (r: bool)
        ensures
            r == ancestor_has_kind(self@, i as int, k1@, k2@),
    {
        let mut n = i;
        loop
            invariant
                ancestor_has_kind(self@, i as int, k1@, k2@) == ancestor_has_kind(self@, n as int, k1@, k2@),
            decreases n,
        {
            match self.parent(n) {
                Some(p) => {
                    if self.is_kind(p, k1) || self.is_kind(p, k2) {
                        return true;
                    }
                    n = p;
                },
                None => {
                    return false;
                },
            }
        }
    }

    /// The first named child of node `i`.
    pub fn first_named_child(&self, i: usize) -> (r: Option<usize>)
        ensures
            match r {
                Some(c) => first_named(self@, children_of(self@, i as int)) == Some(c as int),
                None => first_named(self@, children_of(self@, i as int)) is None,
            },
    {
        let cs = self.children(i);
        let ghost all = cs@.map_values(|c: usize| c as int);
        let mut k: usize = 0;
        proof {
            assert(all.skip(0) =~= all);
        }
        while k < cs.len()
            invariant
                k <= cs@.len(),
                all == cs@.map_values(|c: usize| c as int),
                first_named(self@, children_of(self@, i as int)) == first_named(self@, all.skip(k as int)),
            decreases cs@.len() - k,
        {
            let c = cs[k];
            proof {
                assert(all.skip(k as int)[0] == c as int);
                assert(all.skip(k as int).drop_first() =~= all.skip(k + 1));
            }
            if c < self.nodes.len() && self.nodes[c].is_named {
                return Some(c);
            }
            k = k + 1;
        }
        proof {
            assert(all.skip(k as int).len() == 0);
        }
        None
    }
}

} // verus!
