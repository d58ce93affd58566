//! The repository index built from a scan, plus search and statistics.

use vstd::prelude::*;

use crate::language::{language_rank, Language};
use crate::model::{SourceFile, Symbol};
use crate::paths::{path_strip_prefix, stripped_path_of};
use crate::path_order::{lemma_path_order, path_less, path_precedes, same_components};
use crate::text::{contains_chars, str_contains};

verus! {

/// A symbol together with the file it was found in.
#[derive(Debug, Clone, Copy)]
pub struct Match<'a> {
    pub file: &'a SourceFile,
    pub symbol: &'a Symbol,
}

/// The path of `path` relative to `root`: the stripped path where `root` is
/// a prefix of it, else the path unchanged.
pub open spec fn relative_path_of(path: Seq<char>, root: Seq<char>) -> Seq<char> {
    match stripped_path_of(path, root) {
        Some(rel) => rel,
        None => path,
    }
}

impl<'a> Match<'a> {
    /// Path of the containing file relative to the scanned root.
    pub fn relative_path(&self, root: &str) -> (r: String)
        ensures
            r@ == relative_path_of(self.file.path@, root@),
    {
        match path_strip_prefix(self.file.path.as_str(), root) {
            Some(rel) => rel,
            None => self.file.path.clone(),
        }
    }
}

/// Aggregated repository statistics.
#[derive(Debug, Clone)]
pub struct Stats {
    pub files_scanned: u64,
    pub source_files: usize,
    pub symbols_total: usize,
    /// Per-language source-file counts, sorted by count descending, then by
    /// declaration order of `Language`.
    pub languages: Vec<(Language, usize)>,
    /// Files or subtrees that the scan skipped with a warning.
    pub warnings_count: usize,
}

/// Immutable index of one repository scan.
#[derive(Debug, Clone)]
pub struct RepositoryIndex {
    root: String,
    files: Vec<SourceFile>,
    files_scanned: u64,
    warnings_count: usize,
}

/// Stable insertion of `x` into `s`: after every element whose path does
/// not come after `x`'s.
pub open spec fn insert_by_path(s: Seq<SourceFile>, x: SourceFile) -> Seq<SourceFile>
    decreases s.len(),
{
    if s.len() == 0 {
        seq![x]
    } else if path_less(x.path@, s.last().path@) {
        insert_by_path(s.drop_last(), x).push(s.last())
    } else {
        s.push(x)
    }
}

/// Stable sort of files by path (insertion sort, the defining form of a
/// stable sort).
pub open spec fn sort_by_path(s: Seq<SourceFile>) -> Seq<SourceFile>
    decreases s.len(),
{
    if s.len() == 0 {
        s
    } else {
        insert_by_path(sort_by_path(s.drop_last()), s.last())
    }
}

/// Files ordered by path: no file's path comes before that of an earlier one.
pub open spec fn sorted_by_path(s: Seq<SourceFile>) -> bool {
    forall|i: int, j: int| 0 <= i < j < s.len() ==> !path_less(s[j].path@, s[i].path@)
}

/// Inserting at a position `p` that separates the paths is `insert_by_path`.
proof fn lemma_insert_at(s: Seq<SourceFile>, x: SourceFile, p: int)
    requires
        0 <= p <= s.len(),
        forall|q: int| p <= q < s.len() ==> path_less(x.path@, #[trigger] s[q].path@),
        p > 0 ==> !path_less(x.path@, s[p - 1].path@),
    ensures
        insert_by_path(s, x) == s.subrange(0, p).push(x) + s.subrange(p, s.len() as int),
    decreases s.len(),
{
    if s.len() == 0 {
        assert(s.subrange(0, p).push(x) + s.subrange(p, s.len() as int) =~= seq![x]);
    } else if p == s.len() {
        assert(s.subrange(0, p).push(x) + s.subrange(p, s.len() as int) =~= s.push(x));
    } else {
        assert(path_less(x.path@, s[s.len() - 1].path@));
        let t = s.drop_last();
        assert forall|q: int| p <= q < t.len() implies path_less(x.path@, #[trigger] t[q].path@) by {
            assert(t[q] == s[q]);
        }
        lemma_insert_at(t, x, p);
        assert(t.subrange(0, p).push(x) + t.subrange(p, t.len() as int) + seq![s.last()]
            =~= s.subrange(0, p).push(x) + s.subrange(p, s.len() as int));
        assert(insert_by_path(t, x).push(s.last()) =~= insert_by_path(t, x) + seq![s.last()]);
    }
}

/// Insertion keeps a sorted sequence sorted.
proof fn lemma_insert_sorted(s: Seq<SourceFile>, x: SourceFile)
    requires
        sorted_by_path(s),
    ensures
        sorted_by_path(insert_by_path(s, x)),
        insert_by_path(s, x).to_multiset() == s.to_multiset().insert(x),
        insert_by_path(s, x).len() == s.len() + 1,
    decreases s.len(),
{
    broadcast use vstd::seq_lib::group_to_multiset_ensures;
    if s.len() == 0 {
        assert(seq![x] =~= Seq::<SourceFile>::empty().push(x));
    } else if path_less(x.path@, s.last().path@) {
        let t = s.drop_last();
        assert(t.push(s.last()) =~= s);
        lemma_insert_sorted(t, x);
        let u = insert_by_path(t, x);
        let r = u.push(s.last());
        assert forall|i: int, j: int| 0 <= i < j < r.len() implies !path_less(
            r[j].path@,
            r[i].path@,
        ) by {
            if j == r.len() - 1 {
                // r[i] is x or an element of t, each not after s.last()
                assert(u.to_multiset().count(r[i]) > 0) by {
                    assert(u.contains(r[i]));
                }
                assert(u.to_multiset() == t.to_multiset().insert(x));
                if r[i] == x {
                    lemma_path_order(x.path@, s.last().path@, x.path@);
                } else {
                    assert(t.to_multiset().count(r[i]) > 0);
                    assert(t.contains(r[i]));
                    let k = choose|k: int| 0 <= k < t.len() && t[k] == r[i];
                    assert(s[k] == t[k]);
                }
            }
        }
    } else {
        let r = s.push(x);
        assert forall|i: int, j: int| 0 <= i < j < r.len() implies !path_less(
            r[j].path@,
            r[i].path@,
        ) by {
            assert(!path_less(x.path@, s.last().path@));
            assert(s.last() == s[s.len() - 1]);
            if j < s.len() {
                assert(r[i] == s[i] && r[j] == s[j]);
            } else {
                assert(r[j] == x);
                assert(r[i] == s[i]);
                if path_less(x.path@, s[i].path@) {
                    if i < s.len() - 1 {
                        assert(!path_less(s[s.len() - 1].path@, s[i].path@));
                    }
                    lemma_path_order(x.path@, s[i].path@, s.last().path@);
                    lemma_path_order(s[i].path@, s.last().path@, x.path@);
                    if same_components(s[i].path@, s.last().path@) {
                        assert(path_less(x.path@, s.last().path@));
                    }
                }
            }
        }
    }
}

/// Sorting by path yields a sorted permutation of its input.
pub proof fn lemma_sort_by_path(s: Seq<SourceFile>)
    ensures
        sorted_by_path(sort_by_path(s)),
        sort_by_path(s).to_multiset() == s.to_multiset(),
        sort_by_path(s).len() == s.len(),
    decreases s.len(),
{
    broadcast use vstd::seq_lib::group_to_multiset_ensures;
    if s.len() > 0 {
        lemma_sort_by_path(s.drop_last());
        lemma_insert_sorted(sort_by_path(s.drop_last()), s.last());
        assert(s.drop_last().push(s.last()) =~= s);
    }
}

/// The files of `s` whose path has the components of `p`, in order.
pub open spec fn files_at_path(s: Seq<SourceFile>, p: Seq<char>) -> Seq<SourceFile>
    decreases s.len(),
{
    if s.len() == 0 {
        seq![]
    } else {
        files_at_path(s.drop_last(), p) + if same_components(s.last().path@, p) {
            seq![s.last()]
        } else {
            Seq::<SourceFile>::empty()
        }
    }
}

/// Inserting a file puts it after every file with the same components.
proof fn lemma_insert_keeps_equal_order(t: Seq<SourceFile>, x: SourceFile, p: Seq<char>)
    ensures
        files_at_path(insert_by_path(t, x), p) == files_at_path(t, p) + if same_components(x.path@, p) {
            seq![x]
        } else {
            Seq::<SourceFile>::empty()
        },
    decreases t.len(),
{
    let cx = if same_components(x.path@, p) { seq![x] } else { Seq::<SourceFile>::empty() };
    if t.len() == 0 {
        let one = seq![x];
        assert(one.drop_last() =~= Seq::<SourceFile>::empty());
        assert(one.last() == x);
        assert(files_at_path(one.drop_last(), p) =~= Seq::<SourceFile>::empty());
        assert(files_at_path(t, p) =~= Seq::<SourceFile>::empty());
        assert(files_at_path(one, p) =~= files_at_path(t, p) + cx);
    } else if path_less(x.path@, t.last().path@) {
        let t1 = t.drop_last();
        let last = t.last();
        lemma_insert_keeps_equal_order(t1, x, p);
        let u = insert_by_path(t1, x);
        assert(u.push(last).drop_last() =~= u);
        assert(u.push(last).last() == last);
        let cl = if same_components(last.path@, p) { seq![last] } else { Seq::<SourceFile>::empty() };
        lemma_path_order(x.path@, last.path@, x.path@);
        if same_components(x.path@, p) && same_components(last.path@, p) {
            assert(same_components(x.path@, last.path@));
            assert(false);
        }
        assert(files_at_path(t, p) == files_at_path(t1, p) + cl);
        assert(files_at_path(t1, p) + cx + cl =~= files_at_path(t1, p) + cl + cx);
    } else {
        assert(t.push(x).drop_last() =~= t);
        assert(t.push(x).last() == x);
    }
}

/// Sorting by path is stable: the files that share any given components
/// keep their input order.
pub proof fn lemma_sort_by_path_stable(s: Seq<SourceFile>, p: Seq<char>)
    ensures
        files_at_path(sort_by_path(s), p) == files_at_path(s, p),
    decreases s.len(),
{
    if s.len() > 0 {
        lemma_sort_by_path_stable(s.drop_last(), p);
        lemma_insert_keeps_equal_order(sort_by_path(s.drop_last()), s.last(), p);
    }
}

/// Position at which `path` is inserted into `files` by a stable insertion.
fn insertion_point(files: &Vec<SourceFile>, path: &String) -> (p: usize)
    ensures
        p <= files@.len(),
        forall|q: int| p <= q < files@.len() ==> path_less(path@, #[trigger] files@[q].path@),
        p > 0 ==> !path_less(path@, files@[p - 1].path@),
{
    let mut p = files.len();
    while p > 0
        invariant
            p <= files@.len(),
            forall|q: int| p <= q < files@.len() ==> path_less(path@, #[trigger] files@[q].path@),
        decreases p,
    {
        if !path_precedes(path.as_str(), files[p - 1].path.as_str()) {
            return p;
        }
        p = p - 1;
    }
    p
}

/// Stable sort of files by path.
pub fn sort_files(files: Vec<SourceFile>) -> (r: Vec<SourceFile>)
    ensures
        r@ == sort_by_path(files@),
{
    let ghost orig = files@;
    let mut input = files;
    let mut out: Vec<SourceFile> = Vec::new();
    proof {
        assert(orig.subrange(0, 0) =~= Seq::<SourceFile>::empty());
        assert(orig.subrange(0, orig.len() as int) =~= orig);
    }
    while input.len() > 0
        invariant
            input@.len() <= orig.len(),
            input@ == orig.subrange(orig.len() - input@.len(), orig.len() as int),
            out@ == sort_by_path(orig.subrange(0, orig.len() - input@.len())),
        decreases input@.len(),
    {
        let ghost done = orig.len() - input@.len();
        let f = input.remove(0);
        let p = insertion_point(&out, &f.path);
        proof {
            lemma_insert_at(out@, f, p as int);
            assert(orig.subrange(0, done + 1).drop_last() =~= orig.subrange(0, done));
            assert(orig.subrange(0, done + 1).last() == f);
        }
        out.insert(p, f);
        proof {
            assert(out@ =~= insert_by_path(sort_by_path(orig.subrange(0, done)), f));
            assert(input@ =~= orig.subrange(orig.len() - input@.len(), orig.len() as int));
        }
    }
    proof {
        assert(orig.subrange(0, orig.len() as int) =~= orig);
    }
    out
}

/// The number of files of a language.
pub open spec fn language_count(files: Seq<SourceFile>, lang: Language) -> nat
    decreases files.len(),
{
    if files.len() == 0 {
        0
    } else {
        language_count(files.drop_last(), lang) + if files.last().language == lang {
            1nat
        } else {
            0nat
        }
    }
}

/// The total number of symbols over all files.
pub open spec fn total_symbols(files: Seq<SourceFile>) -> nat
    decreases files.len(),
{
    if files.len() == 0 {
        0
    } else {
        total_symbols(files.drop_last()) + files.last().symbols@.len()
    }
}

/// Order of statistics entries: higher count first, then declaration order.
pub open spec fn entry_before(a: (Language, usize), b: (Language, usize)) -> bool {
    a.1 > b.1 || (a.1 == b.1 && language_rank(a.0) < language_rank(b.0))
}

/// The per-language entries of a statistics report for `files`: one entry
/// per language present, with its file count, strictly ordered by count
/// descending then declaration order.
pub open spec fn is_language_breakdown(
    entries: Seq<(Language, usize)>,
    files: Seq<SourceFile>,
) -> bool {
    &&& forall|k: int| 0 <= k < entries.len() ==> entries[k].1 == language_count(files, #[trigger] entries[k].0)
        && entries[k].1 > 0
    &&& forall|lang: Language| language_count(files, lang) > 0 ==> exists|k: int|
        0 <= k < entries.len() && (#[trigger] entries[k]).0 == lang
    &&& forall|i: int, j: int| 0 <= i < j < entries.len() ==> entry_before(entries[i], entries[j])
}

/// The per-language breakdown of `files` (see `is_language_breakdown`,
/// which holds of exactly one sequence).
pub open spec fn language_breakdown_of(files: Seq<SourceFile>) -> Seq<(Language, usize)> {
    choose|e: Seq<(Language, usize)>| is_language_breakdown(e, files)
}

/// Distinct languages have distinct ranks.
proof fn lemma_rank_injective(a: Language, b: Language)
    ensures
        language_rank(a) == language_rank(b) ==> a == b,
{
}

/// Two sequences strictly ordered by `entry_before` with the same members
/// are equal.
proof fn lemma_sorted_entries_unique(a: Seq<(Language, usize)>, b: Seq<(Language, usize)>)
    requires
        forall|i: int, j: int| 0 <= i < j < a.len() ==> entry_before(a[i], a[j]),
        forall|i: int, j: int| 0 <= i < j < b.len() ==> entry_before(b[i], b[j]),
        forall|x: (Language, usize)| a.contains(x) <==> b.contains(x),
    ensures
        a == b,
    decreases a.len(),
{
    if a.len() == 0 {
        if b.len() > 0 {
            assert(b.contains(b[0]));
        }
        assert(a =~= b);
    } else {
        assert(a.contains(a[0]));
        assert(b.len() > 0);
        assert(b.contains(b[0]));
        let ka = choose|k: int| 0 <= k < b.len() && b[k] == a[0];
        let kb = choose|k: int| 0 <= k < a.len() && a[k] == b[0];
        lemma_rank_injective(a[0].0, b[0].0);
        if ka > 0 {
            assert(entry_before(b[0], b[ka]));
            if kb > 0 {
                assert(entry_before(a[0], a[kb]));
            }
        }
        if kb > 0 {
            assert(entry_before(a[0], a[kb]));
        }
        assert(a[0] == b[0]);
        let a1 = a.drop_first();
        let b1 = b.drop_first();
        assert forall|x: (Language, usize)| a1.contains(x) <==> b1.contains(x) by {
            if a1.contains(x) {
                let k = choose|k: int| 0 <= k < a1.len() && a1[k] == x;
                assert(entry_before(a[0], a[k + 1]));
                assert(a.contains(x));
                let m = choose|m: int| 0 <= m < b.len() && b[m] == x;
                if m == 0 {
                    assert(false);
                }
                assert(b1[m - 1] == x);
            }
            if b1.contains(x) {
                let k = choose|k: int| 0 <= k < b1.len() && b1[k] == x;
                assert(entry_before(b[0], b[k + 1]));
                assert(b.contains(x));
                let m = choose|m: int| 0 <= m < a.len() && a[m] == x;
                if m == 0 {
                    assert(false);
                }
                assert(a1[m - 1] == x);
            }
        }
        lemma_sorted_entries_unique(a1, b1);
        assert(a =~= seq![a[0]] + a1);
        assert(b =~= seq![b[0]] + b1);
    }
}

/// At most one sequence is the language breakdown of a set of files.
pub proof fn lemma_language_breakdown_unique(
    a: Seq<(Language, usize)>,
    b: Seq<(Language, usize)>,
    files: Seq<SourceFile>,
)
    requires
        is_language_breakdown(a, files),
        is_language_breakdown(b, files),
    ensures
        a == b,
{
    assert forall|x: (Language, usize)| a.contains(x) implies b.contains(x) by {
        let k = choose|k: int| 0 <= k < a.len() && a[k] == x;
        assert(a[k].1 == language_count(files, a[k].0));
        let m = choose|m: int| 0 <= m < b.len() && (#[trigger] b[m]).0 == x.0;
        assert(b[m].1 == language_count(files, b[m].0));
        assert(b[m] == x);
    }
    assert forall|x: (Language, usize)| b.contains(x) implies a.contains(x) by {
        let k = choose|k: int| 0 <= k < b.len() && b[k] == x;
        assert(b[k].1 == language_count(files, b[k].0));
        let m = choose|m: int| 0 <= m < a.len() && (#[trigger] a[m]).0 == x.0;
        assert(a[m].1 == language_count(files, a[m].0));
        assert(a[m] == x);
    }
    lemma_sorted_entries_unique(a, b);
}

/// Sum of the counts of a sequence of statistics entries.
pub open spec fn entries_total(entries: Seq<(Language, usize)>) -> nat
    decreases entries.len(),
{
    if entries.len() == 0 {
        0
    } else {
        entries_total(entries.drop_last()) + entries.last().1 as nat
    }
}

/// Whether some entry is for `lang`.
spec fn has_language(entries: Seq<(Language, usize)>, lang: Language) -> bool {
    exists|k: int| 0 <= k < entries.len() && (#[trigger] entries[k]).0 == lang
}

/// The file count of `lang` where an entry is for it, else zero.
spec fn present_count(entries: Seq<(Language, usize)>, files: Seq<SourceFile>, lang: Language) -> nat {
    if has_language(entries, lang) {
        language_count(files, lang)
    } else {
        0
    }
}

/// `present_count` summed over every language.
spec fn present_total(entries: Seq<(Language, usize)>, files: Seq<SourceFile>) -> nat {
    present_count(entries, files, Language::Rust) + present_count(entries, files, Language::C)
        + present_count(entries, files, Language::Cpp) + present_count(entries, files, Language::Go)
        + present_count(entries, files, Language::JavaScript) + present_count(
        entries,
        files,
        Language::TypeScript,
    ) + present_count(entries, files, Language::Python)
}

/// `language_count` summed over every language.
spec fn all_languages_count(files: Seq<SourceFile>) -> nat {
    language_count(files, Language::Rust) + language_count(files, Language::C) + language_count(
        files,
        Language::Cpp,
    ) + language_count(files, Language::Go) + language_count(files, Language::JavaScript)
        + language_count(files, Language::TypeScript) + language_count(files, Language::Python)
}

/// Every file is of exactly one language.
proof fn lemma_all_languages_count(files: Seq<SourceFile>)
    ensures
        all_languages_count(files) == files.len(),
    decreases files.len(),
{
    if files.len() > 0 {
        lemma_all_languages_count(files.drop_last());
    }
}

/// For entries with distinct languages, each carrying its file count, the
/// counts add up to `present_total`.
proof fn lemma_present_total(entries: Seq<(Language, usize)>, files: Seq<SourceFile>)
    requires
        forall|k: int| 0 <= k < entries.len() ==> (#[trigger] entries[k]).1 == language_count(files, entries[k].0),
        forall|i: int, j: int| 0 <= i < j < entries.len() ==> entries[i].0 != entries[j].0,
    ensures
        entries_total(entries) == present_total(entries, files),
    decreases entries.len(),
{
    if entries.len() == 0 {
        assert forall|l: Language| !has_language(entries, l) by {}
    } else {
        let rest = entries.drop_last();
        let x = entries.last();
        assert forall|k: int| 0 <= k < rest.len() implies (#[trigger] rest[k]).1 == language_count(files, rest[k].0) by {
            assert(rest[k] == entries[k]);
        }
        lemma_present_total(rest, files);
        assert forall|l: Language| has_language(entries, l) <==> (has_language(rest, l) || l == x.0) by {
            if has_language(entries, l) {
                let k = choose|k: int| 0 <= k < entries.len() && (#[trigger] entries[k]).0 == l;
                if k < rest.len() {
                    assert(rest[k] == entries[k]);
                }
            }
            if has_language(rest, l) {
                let k = choose|k: int| 0 <= k < rest.len() && (#[trigger] rest[k]).0 == l;
                assert(entries[k] == rest[k]);
            }
            if l == x.0 {
                assert(entries[entries.len() - 1].0 == l);
            }
        }
        if has_language(rest, x.0) {
            let k = choose|k: int| 0 <= k < rest.len() && (#[trigger] rest[k]).0 == x.0;
            assert(entries[k].0 != entries[entries.len() - 1].0);
            assert(false);
        }
        assert(x.1 == language_count(files, x.0));
    }
}

/// The per-language counts of a breakdown add up to the number of files.
pub proof fn lemma_breakdown_total(entries: Seq<(Language, usize)>, files: Seq<SourceFile>)
    requires
        is_language_breakdown(entries, files),
    ensures
        entries_total(entries) == files.len(),
{
    assert forall|i: int, j: int| 0 <= i < j < entries.len() implies entries[i].0 != entries[j].0 by {
        assert(entry_before(entries[i], entries[j]));
        if entries[i].0 == entries[j].0 {
            assert(entries[i].1 == language_count(files, entries[i].0));
            assert(entries[j].1 == language_count(files, entries[j].0));
        }
    }
    lemma_present_total(entries, files);
    assert forall|l: Language| present_count(entries, files, l) == language_count(files, l) by {
        if language_count(files, l) > 0 {
            let k = choose|k: int| 0 <= k < entries.len() && (#[trigger] entries[k]).0 == l;
            assert(has_language(entries, l));
        }
    }
    lemma_all_languages_count(files);
}

/// Hits of a query within one file's symbols: (file index, symbol index)
/// pairs in order.
pub open spec fn symbol_hits(fi: int, symbols: Seq<Symbol>, query: Seq<char>) -> Seq<(int, int)>
    decreases symbols.len(),
{
    if symbols.len() == 0 {
        seq![]
    } else {
        symbol_hits(fi, symbols.drop_last(), query) + if contains_chars(
            symbols.last().name@,
            query,
        ) {
            seq![(fi, symbols.len() - 1)]
        } else {
            seq![]
        }
    }
}

/// All hits of a query over the files, file by file, in order.
pub open spec fn query_hits(files: Seq<SourceFile>, query: Seq<char>) -> Seq<(int, int)>
    decreases files.len(),
{
    if files.len() == 0 {
        seq![]
    } else {
        query_hits(files.drop_last(), query) + symbol_hits(
            files.len() - 1,
            files.last().symbols@,
            query,
        )
    }
}

/// The hits within one file's symbols are exactly the symbols whose name
/// contains the query.
proof fn lemma_symbol_hits(fi: int, symbols: Seq<Symbol>, query: Seq<char>)
    ensures
        forall|h: (int, int)| #[trigger] symbol_hits(fi, symbols, query).contains(h) <==> (h.0 == fi && 0 <= h.1
            < symbols.len() && contains_chars(symbols[h.1].name@, query)),
    decreases symbols.len(),
{
    if symbols.len() > 0 {
        let rest = symbols.drop_last();
        lemma_symbol_hits(fi, rest, query);
        let last = if contains_chars(symbols.last().name@, query) {
            seq![(fi, symbols.len() - 1)]
        } else {
            Seq::<(int, int)>::empty()
        };
        let whole = symbol_hits(fi, rest, query) + last;
        assert(symbol_hits(fi, symbols, query) == whole);
        assert forall|h: (int, int)| #[trigger] whole.contains(h) <==> (h.0 == fi && 0 <= h.1 < symbols.len()
            && contains_chars(symbols[h.1].name@, query)) by {
            if whole.contains(h) {
                let k = choose|k: int| 0 <= k < whole.len() && whole[k] == h;
                if k < symbol_hits(fi, rest, query).len() {
                    assert(symbol_hits(fi, rest, query).contains(h));
                    assert(rest[h.1] == symbols[h.1]);
                }
            }
            if h.0 == fi && 0 <= h.1 < symbols.len() && contains_chars(symbols[h.1].name@, query) {
                if h.1 < symbols.len() - 1 {
                    assert(rest[h.1] == symbols[h.1]);
                    assert(symbol_hits(fi, rest, query).contains(h));
                    let k = choose|k: int| 0 <= k < symbol_hits(fi, rest, query).len()
                        && symbol_hits(fi, rest, query)[k] == h;
                    assert(whole[k] == h);
                } else {
                    assert(whole[whole.len() - 1] == h);
                }
            }
        }
    }
}

/// Every name contains the empty query.
proof fn lemma_empty_query_symbol_hits(fi: int, symbols: Seq<Symbol>)
    ensures
        symbol_hits(fi, symbols, Seq::<char>::empty()).len() == symbols.len(),
    decreases symbols.len(),
{
    if symbols.len() > 0 {
        lemma_empty_query_symbol_hits(fi, symbols.drop_last());
        let name = symbols.last().name@;
        assert(name.subrange(0, 0) =~= Seq::<char>::empty());
        assert(crate::text::chars_occur_at(name, Seq::<char>::empty(), 0));
    }
}

/// The empty query matches every symbol: it has one hit per symbol.
pub proof fn lemma_empty_query_hits_all(files: Seq<SourceFile>)
    ensures
        query_hits(files, Seq::<char>::empty()).len() == total_symbols(files),
    decreases files.len(),
{
    if files.len() > 0 {
        lemma_empty_query_hits_all(files.drop_last());
        lemma_empty_query_symbol_hits(files.len() - 1, files.last().symbols@);
    }
}

/// Search is exact: a (file, symbol) position is among the hits of a query
/// exactly when that symbol's name contains the query.
pub proof fn lemma_query_hits_exact(files: Seq<SourceFile>, query: Seq<char>)
    ensures
        forall|h: (int, int)| #[trigger] query_hits(files, query).contains(h) <==> (0 <= h.0 < files.len()
            && 0 <= h.1 < files[h.0].symbols@.len() && contains_chars(files[h.0].symbols@[h.1].name@, query)),
    decreases files.len(),
{
    if files.len() > 0 {
        let rest = files.drop_last();
        lemma_query_hits_exact(rest, query);
        let fi = files.len() - 1;
        lemma_symbol_hits(fi, files.last().symbols@, query);
        let a = query_hits(rest, query);
        let b = symbol_hits(fi, files.last().symbols@, query);
        assert(query_hits(files, query) == a + b);
        assert forall|h: (int, int)| #[trigger] (a + b).contains(h) <==> (0 <= h.0 < files.len() && 0 <= h.1
            < files[h.0].symbols@.len() && contains_chars(files[h.0].symbols@[h.1].name@, query)) by {
            if (a + b).contains(h) {
                let k = choose|k: int| 0 <= k < (a + b).len() && (a + b)[k] == h;
                if k < a.len() {
                    assert(a.contains(h));
                    assert(rest[h.0] == files[h.0]);
                } else {
                    assert(b[k - a.len()] == h);
                    assert(b.contains(h));
                }
            }
            if 0 <= h.0 < files.len() && 0 <= h.1 < files[h.0].symbols@.len() && contains_chars(
                files[h.0].symbols@[h.1].name@,
                query,
            ) {
                if h.0 < fi {
                    assert(rest[h.0] == files[h.0]);
                    assert(a.contains(h));
                    let k = choose|k: int| 0 <= k < a.len() && a[k] == h;
                    assert((a + b)[k] == h);
                } else {
                    assert(b.contains(h));
                    let k = choose|k: int| 0 <= k < b.len() && b[k] == h;
                    assert((a + b)[a.len() + k] == h);
                }
            }
        }
    }
}

/// `matches` are, in order, the symbols that the hits designate in `files`.
pub open spec fn matches_hits(
    matches: Seq<Match>,
    files: Seq<SourceFile>,
    hits: Seq<(int, int)>,
) -> bool {
    &&& matches.len() == hits.len()
    &&& forall|k: int|
        0 <= k < matches.len() ==> {
            &&& 0 <= (#[trigger] hits[k]).0 < files.len()
            &&& 0 <= hits[k].1 < files[hits[k].0].symbols@.len()
            &&& *matches[k].file == files[hits[k].0]
            &&& *matches[k].symbol == files[hits[k].0].symbols@[hits[k].1]
        }
}

/// The language at a position of declaration order.
fn language_at(k: usize) -> (l: Language)
    requires
        k < 7,
    ensures
        language_rank(l) == k,
{
    if k == 0 {
        Language::Rust
    } else if k == 1 {
        Language::C
    } else if k == 2 {
        Language::Cpp
    } else if k == 3 {
        Language::Go
    } else if k == 4 {
        Language::JavaScript
    } else if k == 5 {
        Language::TypeScript
    } else {
        Language::Python
    }
}

/// A prefix holds no more symbols than the whole.
proof fn lemma_total_symbols_prefix(s: Seq<SourceFile>, i: int)
    requires
        0 <= i <= s.len(),
    ensures
        total_symbols(s.subrange(0, i)) <= total_symbols(s),
    decreases s.len() - i,
{
    if i == s.len() {
        assert(s.subrange(0, i) =~= s);
    } else {
        lemma_total_symbols_prefix(s, i + 1);
        assert(s.subrange(0, i + 1).drop_last() =~= s.subrange(0, i));
    }
}

/// Per-language file counts, indexed by declaration order.
fn count_languages(files: &[SourceFile]) -> (counts: Vec<usize>)
    ensures
        counts@.len() == 7,
        forall|l: Language| #[trigger] counts@[language_rank(l) as int] == language_count(files@, l),
{
    let mut counts: Vec<usize> = Vec::new();
    let mut k: usize = 0;
    while k < 7
        invariant
            k <= 7,
            counts@.len() == k,
            forall|m: int| 0 <= m < k ==> counts@[m] == 0,
        decreases 7 - k,
    {
        counts.push(0);
        k = k + 1;
    }
    let mut i: usize = 0;
    while i < files.len()
        invariant
            i <= files@.len(),
            counts@.len() == 7,
            forall|l: Language| #[trigger] counts@[language_rank(l) as int] == language_count(
                files@.subrange(0, i as int),
                l,
            ),
        decreases files@.len() - i,
    {
        proof {
            assert(files@.subrange(0, i + 1).drop_last() =~= files@.subrange(0, i as int));
            assert(files@.subrange(0, i + 1).last() == files@[i as int]);
        }
        proof {
            lemma_language_count_bound(files@.subrange(0, i as int), files@[i as int].language);
        }
        let r = files[i].language.rank() as usize;
        let c = counts[r];
        counts.set(r, c + 1);
        i = i + 1;
        proof {
            assert forall|l: Language| #[trigger] counts@[language_rank(l) as int] == language_count(
                files@.subrange(0, i as int),
                l,
            ) by {
                if language_rank(l) == r {
                    assert(l == files@[i - 1].language);
                }
            }
        }
    }
    proof {
        assert(files@.subrange(0, i as int) =~= files@);
    }
    counts
}

/// An entry carries its language's file count, which is positive, and a
/// language before position `k` of declaration order.
pub open spec fn entry_counted(e: (Language, usize), files: Seq<SourceFile>, k: int) -> bool {
    e.1 == language_count(files, e.0) && e.1 > 0 && language_rank(e.0) < k
}

/// Every entry is counted (see `entry_counted`).
pub open spec fn entries_counted(entries: Seq<(Language, usize)>, files: Seq<SourceFile>, k: int) -> bool {
    forall|m: int| 0 <= m < entries.len() ==> entry_counted(#[trigger] entries[m], files, k)
}

/// Position at which `e` is inserted into entries ordered by `entry_before`.
fn entry_insertion_point(entries: &Vec<(Language, usize)>, e: (Language, usize)) -> (p: usize)
    ensures
        p <= entries@.len(),
        forall|q: int| p <= q < entries@.len() ==> entry_before(e, #[trigger] entries@[q]),
        p > 0 ==> !entry_before(e, entries@[p - 1]),
{
    let mut p = entries.len();
    while p > 0
        invariant
            p <= entries@.len(),
            forall|q: int| p <= q < entries@.len() ==> entry_before(e, #[trigger] entries@[q]),
        decreases p,
    {
        let prev = entries[p - 1];
        let before = e.1 > prev.1 || (e.1 == prev.1 && e.0.rank() < prev.0.rank());
        if !before {
            return p;
        }
        p = p - 1;
    }
    p
}

/// A language occurs in no more files than there are.
proof fn lemma_language_count_bound(s: Seq<SourceFile>, l: Language)
    ensures
        language_count(s, l) <= s.len(),
    decreases s.len(),
{
    if s.len() > 0 {
        lemma_language_count_bound(s.drop_last(), l);
    }
}

/// Orders the per-language counts: count descending, then declaration order.
fn language_breakdown(files: &[SourceFile]) -> (entries: Vec<(Language, usize)>)
    ensures
        is_language_breakdown(entries@, files@),
{
    let counts = count_languages(files);
    let mut entries: Vec<(Language, usize)> = Vec::new();
    let mut k: usize = 0;
    while k < 7
        invariant
            k <= 7,
            counts@.len() == 7,
            forall|l: Language| #[trigger] counts@[language_rank(l) as int] == language_count(files@, l),
            entries_counted(entries@, files@, k as int),
            forall|l: Language| language_count(files@, l) > 0 && language_rank(l) < k ==> exists|m: int|
                0 <= m < entries@.len() && (#[trigger] entries@[m]).0 == l,
            forall|i: int, j: int| 0 <= i < j < entries@.len() ==> entry_before(entries@[i], entries@[j]),
        decreases 7 - k,
    {
        let c = counts[k];
        let lang = language_at(k);
        if c > 0 {
            let e = (lang, c);
            let p = entry_insertion_point(&entries, e);
            let ghost old_entries = entries@;
            proof {
                if p > 0 {
                    assert(!entry_before(e, old_entries[p - 1]));
                    assert(language_rank(old_entries[p - 1].0) < k);
                    assert(entry_before(old_entries[p - 1], e));
                }
            }
            entries.insert(p, e);
            proof {
                assert(entries@ == old_entries.insert(p as int, e));
                assert(e.1 == language_count(files@, lang)) by {
                    assert(counts@[language_rank(lang) as int] == language_count(files@, lang));
                }
                assert forall|m: int| 0 <= m < entries@.len() implies entry_counted(
                    #[trigger] entries@[m], files@, k + 1) by {
                    if m < p {
                        assert(entries@[m] == old_entries[m]);
                    } else if m > p {
                        assert(entries@[m] == old_entries[m - 1]);
                    } else {
                        assert(entries@[m] == e);
                        assert(language_rank(e.0) == k);
                    }
                }
                assert forall|i: int, j: int| 0 <= i < j < entries@.len() implies entry_before(
                    entries@[i],
                    entries@[j],
                ) by {
                    if i < p {
                        assert(entries@[i] == old_entries[i]);
                        assert(entry_before(old_entries[i], e)) by {
                            if i < p - 1 {
                                assert(entry_before(old_entries[i], old_entries[p - 1]));
                            }
                        }
                        if j > p {
                            assert(entries@[j] == old_entries[j - 1]);
                        }
                    } else if i == p {
                        assert(entries@[j] == old_entries[j - 1]);
                    } else {
                        assert(entries@[i] == old_entries[i - 1]);
                        assert(entries@[j] == old_entries[j - 1]);
                    }
                }
                assert forall|l: Language| language_count(files@, l) > 0 && language_rank(l) < k + 1
                    implies exists|m: int| 0 <= m < entries@.len() && (#[trigger] entries@[m]).0 == l by {
                    if language_rank(l) == k {
                        assert(l == lang);
                        assert(entries@[p as int].0 == l);
                    } else {
                        let m = choose|m: int| 0 <= m < old_entries.len() && (#[trigger] old_entries[m]).0 == l;
                        if m < p {
                            assert(entries@[m].0 == l);
                        } else {
                            assert(entries@[m + 1].0 == l);
                        }
                    }
                }
            }
        } else {
            proof {
                assert forall|m: int| 0 <= m < entries@.len() implies entry_counted(
                    #[trigger] entries@[m], files@, k + 1) by {
                    assert(entry_counted(entries@[m], files@, k as int));
                }
                assert forall|l: Language| language_count(files@, l) > 0 && language_rank(l) < k + 1
                    implies exists|m: int| 0 <= m < entries@.len() && (#[trigger] entries@[m]).0 == l by {
                    if language_rank(l) == k {
                        assert(counts@[language_rank(l) as int] == c);
                    }
                }
            }
        }
        k = k + 1;
    }
    proof {
        assert forall|l: Language| language_count(files@, l) > 0 implies exists|m: int|
            0 <= m < entries@.len() && (#[trigger] entries@[m]).0 == l by {
            assert(language_rank(l) < 7);
        }
    }
    entries
}

impl RepositoryIndex {
    /// The root this index was built from.
    pub closed spec fn root_spec(&self) -> Seq<char> {
        self.root@
    }

    /// The indexed files.
    pub closed spec fn files_spec(&self) -> Seq<SourceFile> {
        self.files@
    }

    /// The number of files the scan visited.
    pub closed spec fn files_scanned_spec(&self) -> u64 {
        self.files_scanned
    }

    /// The number of warnings the scan reported.
    pub closed spec fn warnings_count_spec(&self) -> usize {
        self.warnings_count
    }

    /// The root this index was built from.
    pub fn root(&self) -> (r: &str)
        ensures
            r@ == self.root_spec(),
    {
        self.root.as_str()
    }

    /// Assembles an index from pre-scanned parts, sorting the files by path.
    pub fn from_parts(root: String, files: Vec<SourceFile>, files_scanned: u64) -> (r: Self)
        ensures
            r.root_spec() == root@,
            r.files_spec() == sort_by_path(files@),
            sorted_by_path(r.files_spec()),
            r.files_spec().to_multiset() == files@.to_multiset(),
            forall|p: Seq<char>| #[trigger] files_at_path(r.files_spec(), p) == files_at_path(files@, p),
            r.files_scanned_spec() == files_scanned,
            r.warnings_count_spec() == 0,
    {
        proof {
            lemma_sort_by_path(files@);
            assert forall|p: Seq<char>| #[trigger] files_at_path(sort_by_path(files@), p) == files_at_path(files@, p) by {
                lemma_sort_by_path_stable(files@, p);
            }
        }
        RepositoryIndex { root, files: sort_files(files), files_scanned, warnings_count: 0 }
    }

    /// The index of a completed scan of `root`: its files sorted by path,
    /// its count of visited files and of warnings.
    pub fn from_scan(root: String, output: crate::scanner::ScanOutput) -> (r: Self)
        ensures
            r.root_spec() == root@,
            r.files_spec() == sort_by_path(output.files@),
            sorted_by_path(r.files_spec()),
            r.files_spec().to_multiset() == output.files@.to_multiset(),
            forall|p: Seq<char>| #[trigger] files_at_path(r.files_spec(), p) == files_at_path(output.files@, p),
            r.files_scanned_spec() == output.files_scanned,
            r.warnings_count_spec() == output.diagnostics.warnings@.len(),
    {
        let warnings_count = output.diagnostics.warnings.len();
        proof {
            lemma_sort_by_path(output.files@);
            assert forall|p: Seq<char>| #[trigger] files_at_path(sort_by_path(output.files@), p) == files_at_path(output.files@, p) by {
                lemma_sort_by_path_stable(output.files@, p);
            }
        }
        RepositoryIndex {
            root,
            files: sort_files(output.files),
            files_scanned: output.files_scanned,
            warnings_count,
        }
    }

    /// All indexed source files, sorted by path.
    pub fn files(&self) -> (r: &[SourceFile])
        ensures
            r@ == self.files_spec(),
    {
        self.files.as_slice()
    }

    /// The number of warnings that the scan reported.
    pub fn warnings_count(&self) -> (r: usize)
        ensures
            r == self.warnings_count_spec(),
    {
        self.warnings_count
    }

    /// Aggregated statistics for reporting.
    pub fn stats(&self) -> (r: Stats)
        requires
            total_symbols(self.files_spec()) <= usize::MAX,
        ensures
            r.files_scanned == self.files_scanned_spec(),
            r.source_files == self.files_spec().len(),
            r.symbols_total == total_symbols(self.files_spec()),
            is_language_breakdown(r.languages@, self.files_spec()),
            r.languages@ == language_breakdown_of(self.files_spec()),
            entries_total(r.languages@) == r.source_files,
            r.warnings_count == self.warnings_count_spec(),
    {
        let mut total: usize = 0;
        let mut i: usize = 0;
        while i < self.files.len()
            invariant
                i <= self.files@.len(),
                total == total_symbols(self.files@.subrange(0, i as int)),
                total_symbols(self.files@) <= usize::MAX,
            decreases self.files@.len() - i,
        {
            proof {
                assert(self.files@.subrange(0, i + 1).drop_last() =~= self.files@.subrange(0, i as int));
                lemma_total_symbols_prefix(self.files@, i + 1);
            }
            total = total + self.files[i].symbols.len();
            i = i + 1;
        }
        proof {
            assert(self.files@.subrange(0, i as int) =~= self.files@);
        }
        let languages = language_breakdown(self.files.as_slice());
        proof {
            lemma_language_breakdown_unique(
                languages@,
                language_breakdown_of(self.files@),
                self.files@,
            );
            lemma_breakdown_total(languages@, self.files@);
        }
        Stats {
            files_scanned: self.files_scanned,
            source_files: self.files.len(),
            symbols_total: total,
            languages,
            warnings_count: self.warnings_count,
        }
    }

    /// Case-sensitive substring search over symbol names.
    pub fn find(&self, query: &str) -> (r: Vec<Match<'_>>)
        ensures
            matches_hits(r@, self.files_spec(), query_hits(self.files_spec(), query@)),
    {
        let mut out: Vec<Match<'_>> = Vec::new();
        let mut i: usize = 0;
        while i < self.files.len()
            invariant
                i <= self.files@.len(),
                matches_hits(out@, self.files@, query_hits(self.files@.subrange(0, i as int), query@)),
            decreases self.files@.len() - i,
        {
            let file = &self.files[i];
            let ghost before = out@;
            let ghost prefix_hits = query_hits(self.files@.subrange(0, i as int), query@);
            let mut j: usize = 0;
            while j < file.symbols.len()
                invariant
                    i < self.files@.len(),
                    *file == self.files@[i as int],
                    j <= file.symbols@.len(),
                    matches_hits(
                        out@,
                        self.files@,
                        prefix_hits + symbol_hits(i as int, file.symbols@.subrange(0, j as int), query@),
                    ),
                decreases file.symbols@.len() - j,
            {
                let symbol = &file.symbols[j];
                let ghost hits_before = prefix_hits + symbol_hits(i as int, file.symbols@.subrange(0, j as int), query@);
                proof {
                    assert(file.symbols@.subrange(0, j + 1).drop_last() =~= file.symbols@.subrange(0, j as int));
                    assert(file.symbols@.subrange(0, j + 1).last() == file.symbols@[j as int]);
                }
                let hit = str_contains(symbol.name.as_str(), query);
                if hit {
                    out.push(Match { file, symbol });
                    proof {
                        assert(prefix_hits + symbol_hits(i as int, file.symbols@.subrange(0, j + 1), query@)
                            =~= hits_before.push((i as int, j as int)));
                    }
                } else {
                    proof {
                        assert(prefix_hits + symbol_hits(i as int, file.symbols@.subrange(0, j + 1), query@)
                            =~= hits_before);
                    }
                }
                j = j + 1;
            }
            proof {
                assert(file.symbols@.subrange(0, j as int) =~= file.symbols@);
                assert(self.files@.subrange(0, i + 1).drop_last() =~= self.files@.subrange(0, i as int));
                assert(self.files@.subrange(0, i + 1).last() == self.files@[i as int]);
                assert(query_hits(self.files@.subrange(0, i + 1), query@) == prefix_hits + symbol_hits(
                    i as int, file.symbols@, query@));
            }
            i = i + 1;
        }
        proof {
            assert(self.files@.subrange(0, i as int) =~= self.files@);
        }
        out
    }
}

} // verus!
