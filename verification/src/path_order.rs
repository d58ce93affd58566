//! The order of paths, component by component, as `std::path::Path`
//! compares them on Unix.
//!
//! A `/`-separated path reads as components: a leading `/` is the root, a
//! leading `.` (alone or before a `/`) is the current directory, and the
//! rest splits at `/` into parts where empty parts and `.` are skipped,
//! `..` is the parent directory and anything else is a normal component.
//! Components compare in that order (root, current, parent, normal), and
//! normal components by their characters, a proper prefix first. Paths
//! compare by their components lexicographically, a proper prefix first.
//!
//! The order is computed through a key: each component becomes a short run
//! of numbers (a tag, and for a normal component its characters shifted up
//! by one and a closing 0), so that comparing keys lexicographically
//! compares the components.

use vstd::prelude::*;

use crate::language::chars_of;

verus! {

/// Key tag of the root component.
pub const ROOT_TAG: u64 = 1;

/// Key tag of a leading `.`.
pub const CURRENT_TAG: u64 = 2;

/// Key tag of `..`.
pub const PARENT_TAG: u64 = 3;

/// Key tag of a normal component.
pub const NORMAL_TAG: u64 = 4;

/// The key of one part between separators: nothing for an empty part or
/// `.`, the parent tag for `..`, else a normal component.
pub open spec fn part_key(part: Seq<char>) -> Seq<u64> {
    if part.len() == 0 || part == seq!['.'] {
        seq![]
    } else if part == seq!['.', '.'] {
        seq![PARENT_TAG]
    } else {
        seq![NORMAL_TAG] + part.map_values(|c: char| ((c as u32) as u64 + 1) as u64) + seq![0u64]
    }
}

/// Splitting `s` at `/`: the keys of the parts completed so far, and the
/// part still being read.
pub open spec fn split_parts(s: Seq<char>) -> (Seq<u64>, Seq<char>)
    decreases s.len(),
{
    if s.len() == 0 {
        (seq![], seq![])
    } else {
        let prev = split_parts(s.drop_last());
        if s.last() == '/' {
            (prev.0 + part_key(prev.1), seq![])
        } else {
            (prev.0, prev.1.push(s.last()))
        }
    }
}

/// The key of the parts of `s`.
pub open spec fn parts_key(s: Seq<char>) -> Seq<u64> {
    split_parts(s).0 + part_key(split_parts(s).1)
}

/// The key of a path: its leading root or current directory, then its parts.
pub open spec fn path_key(p: Seq<char>) -> Seq<u64> {
    if p.len() > 0 && p[0] == '/' {
        seq![ROOT_TAG] + parts_key(p.skip(1))
    } else if p.len() > 0 && p[0] == '.' && (p.len() == 1 || p[1] == '/') {
        seq![CURRENT_TAG] + parts_key(p.skip(1))
    } else {
        parts_key(p)
    }
}

/// Strict lexicographic order on keys; a proper prefix comes first.
pub open spec fn key_less(a: Seq<u64>, b: Seq<u64>) -> bool
    decreases a.len(),
{
    if a.len() == 0 {
        b.len() > 0
    } else if b.len() == 0 {
        false
    } else if a[0] != b[0] {
        a[0] < b[0]
    } else {
        key_less(a.drop_first(), b.drop_first())
    }
}

/// Path `a` comes before path `b`: its components come first.
pub open spec fn path_less(a: Seq<char>, b: Seq<char>) -> bool {
    key_less(path_key(a), path_key(b))
}

/// Paths with the same components: neither comes before the other.
pub open spec fn same_components(a: Seq<char>, b: Seq<char>) -> bool {
    path_key(a) == path_key(b)
}

/// `key_less` is irreflexive.
pub proof fn lemma_key_irreflexive(a: Seq<u64>)
    ensures
        !key_less(a, a),
    decreases a.len(),
{
    if a.len() > 0 {
        lemma_key_irreflexive(a.drop_first());
    }
}

/// Distinct keys are ordered one way or the other.
pub proof fn lemma_key_total(a: Seq<u64>, b: Seq<u64>)
    requires
        a != b,
    ensures
        key_less(a, b) || key_less(b, a),
    decreases a.len(),
{
    if a.len() == 0 {
        if b.len() == 0 {
            assert(a =~= b);
        }
    } else if b.len() > 0 {
        if a[0] == b[0] {
            if a.drop_first() == b.drop_first() {
                assert(a =~= seq![a[0]] + a.drop_first());
                assert(b =~= seq![b[0]] + b.drop_first());
            } else {
                lemma_key_total(a.drop_first(), b.drop_first());
            }
        }
    }
}

/// `key_less` is asymmetric.
pub proof fn lemma_key_asymmetric(a: Seq<u64>, b: Seq<u64>)
    ensures
        key_less(a, b) ==> !key_less(b, a),
    decreases a.len(),
{
    if a.len() > 0 && b.len() > 0 {
        lemma_key_asymmetric(a.drop_first(), b.drop_first());
    }
}

/// `key_less` is transitive.
pub proof fn lemma_key_transitive(a: Seq<u64>, b: Seq<u64>, c: Seq<u64>)
    ensures
        key_less(a, b) && key_less(b, c) ==> key_less(a, c),
    decreases a.len(),
{
    if a.len() > 0 && b.len() > 0 && c.len() > 0 {
        lemma_key_transitive(a.drop_first(), b.drop_first(), c.drop_first());
    }
}

/// Path order is a strict weak order: irreflexive, asymmetric and
/// transitive, and two paths are unordered exactly when they have the same
/// components.
pub proof fn lemma_path_order(a: Seq<char>, b: Seq<char>, c: Seq<char>)
    ensures
        !path_less(a, a),
        path_less(a, b) ==> !path_less(b, a),
        path_less(a, b) && path_less(b, c) ==> path_less(a, c),
        !path_less(a, b) && !path_less(b, a) <==> same_components(a, b),
{
    lemma_key_irreflexive(path_key(a));
    lemma_key_asymmetric(path_key(a), path_key(b));
    lemma_key_transitive(path_key(a), path_key(b), path_key(c));
    if path_key(a) != path_key(b) {
        lemma_key_total(path_key(a), path_key(b));
    } else {
        lemma_key_irreflexive(path_key(a));
    }
}

/// Appends the key of one part.
fn push_part_key(out: &mut Vec<u64>, part: &Vec<char>)
    ensures
        final(out)@ == old(out)@ + part_key(part@),
{
    let n = part.len();
    if n == 0 || (n == 1 && part[0] == '.') {
        proof {
            if n == 1 {
                assert(part@ =~= seq!['.']);
            }
            assert(old(out)@ + part_key(part@) =~= old(out)@);
        }
        return;
    }
    if n == 2 && part[0] == '.' && part[1] == '.' {
        proof {
            assert(part@ =~= seq!['.', '.']);
        }
        out.push(PARENT_TAG);
        proof {
            assert(final(out)@ =~= old(out)@ + part_key(part@));
        }
        return;
    }
    proof {
        assert(part@ != seq!['.']) by {
            if n == 1 {
                assert(part@[0] != '.');
            }
        }
        assert(part@ != seq!['.', '.']) by {
            if n == 2 {
                assert(!(part@[0] == '.' && part@[1] == '.'));
            }
        }
    }
    let ghost start = out@;
    let ghost mapped = part@.map_values(|c: char| ((c as u32) as u64 + 1) as u64);
    out.push(NORMAL_TAG);
    let mut i: usize = 0;
    while i < n
        invariant
            n == part@.len(),
            i <= n,
            mapped == part@.map_values(|c: char| ((c as u32) as u64 + 1) as u64),
            out@ == start + seq![NORMAL_TAG] + mapped.subrange(0, i as int),
        decreases n - i,
    {
        let c = part[i];
        out.push((c as u32) as u64 + 1);
        proof {
            assert(mapped.subrange(0, i + 1) =~= mapped.subrange(0, i as int).push(mapped[i as int]));
        }
        i = i + 1;
    }
    out.push(0);
    proof {
        assert(mapped.subrange(0, n as int) =~= mapped);
        assert(out@ =~= start + part_key(part@));
    }
}

/// The key of a path (see `path_key`).
pub fn path_key_of(p: &str) -> (k: Vec<u64>)
    ensures
        k@ == path_key(p@),
{
    let chars = chars_of(p);
    let len = chars.len();
    let mut out: Vec<u64> = Vec::new();
    let mut start: usize = 0;
    if len > 0 && chars[0] == '/' {
        out.push(ROOT_TAG);
        start = 1;
    } else if len > 0 && chars[0] == '.' && (len == 1 || chars[1] == '/') {
        out.push(CURRENT_TAG);
        start = 1;
    }
    let ghost head = out@;
    let ghost rest = chars@.skip(start as int);
    proof {
        assert(chars@.subrange(start as int, start as int) =~= Seq::<char>::empty());
    }
    let mut part: Vec<char> = Vec::new();
    let mut i: usize = start;
    while i < len
        invariant
            chars@ == p@,
            len == chars@.len(),
            start <= i <= len,
            rest == chars@.skip(start as int),
            out@ == head + split_parts(chars@.subrange(start as int, i as int)).0,
            part@ == split_parts(chars@.subrange(start as int, i as int)).1,
        decreases len - i,
    {
        let c = chars[i];
        proof {
            assert(chars@.subrange(start as int, i + 1).drop_last() =~= chars@.subrange(start as int, i as int));
            assert(chars@.subrange(start as int, i + 1).last() == c);
        }
        if c == '/' {
            push_part_key(&mut out, &part);
            part = Vec::new();
            proof {
                assert(out@ =~= head + split_parts(chars@.subrange(start as int, i + 1)).0);
                assert(part@ =~= split_parts(chars@.subrange(start as int, i + 1)).1);
            }
        } else {
            part.push(c);
        }
        i = i + 1;
    }
    push_part_key(&mut out, &part);
    proof {
        assert(chars@.subrange(start as int, len as int) =~= rest);
        assert(out@ =~= head + parts_key(rest));
        if start == 0 {
            assert(rest =~= p@);
        }
    }
    out
}

/// Whether key `a` comes before key `b`.
fn key_vec_less(a: &Vec<u64>, b: &Vec<u64>) -> (r: bool)
    ensures
        r == key_less(a@, b@),
{
    let mut i: usize = 0;
    proof {
        assert(a@.skip(0) =~= a@);
        assert(b@.skip(0) =~= b@);
    }
    while i < a.len() && i < b.len()
        invariant
            i <= a@.len(),
            i <= b@.len(),
            key_less(a@, b@) == key_less(a@.skip(i as int), b@.skip(i as int)),
        decreases a@.len() - i,
    {
        proof {
            assert(a@.skip(i as int)[0] == a@[i as int]);
            assert(b@.skip(i as int)[0] == b@[i as int]);
            assert(a@.skip(i as int).drop_first() =~= a@.skip(i + 1));
            assert(b@.skip(i as int).drop_first() =~= b@.skip(i + 1));
        }
        if a[i] != b[i] {
            return a[i] < b[i];
        }
        i = i + 1;
    }
    i == a.len() && i < b.len()
}

/// Whether path `a` comes before path `b` (see `path_less`).
pub fn path_precedes(a: &str, b: &str) -> (r: bool)
    ensures
        r == path_less(a@, b@),
{
    let ka = path_key_of(a);
    let kb = path_key_of(b);
    key_vec_less(&ka, &kb)
}

/// Whether two paths have the same components (std's `Path` equality).
pub fn same_path(a: &str, b: &str) -> (r: bool)
    ensures
        r == same_components(a@, b@),
{
    let ka = path_key_of(a);
    let kb = path_key_of(b);
    let r = !key_vec_less(&ka, &kb) && !key_vec_less(&kb, &ka);
    proof {
        lemma_path_order(a@, b@, a@);
    }
    r
}

} // verus!
