//! Report rendering: the text of `sift map`, `sift find` and `sift stats`.

use vstd::prelude::*;

use crate::index::{language_breakdown_of, query_hits, relative_path_of, total_symbols, RepositoryIndex};
use crate::language::Language;
use crate::language::language_name;
use crate::model::{long_label_of, short_label_of, SourceFile, Symbol};
use crate::paths::{file_name_of, parent_path_of, path_file_name, path_parent, path_strip_prefix};
use crate::text::{lemma_lex_asymmetric, lemma_lex_total, lemma_lex_transitive, str_lex_less, string_less};
use crate::text::{decimal_digits, decimal_string, digit_char};

verus! {

/// Length of the leading digit group of a decimal rendering: 1 to 3 digits,
/// so that the remaining digits split into groups of exactly three.
pub open spec fn leading_group_len(n: nat) -> nat {
    if n == 0 {
        0
    } else {
        ((n - 1) as nat % 3) + 1
    }
}

/// The digit groups of `d` from offset `i` on, each preceded by a comma.
pub open spec fn comma_groups(d: Seq<char>, i: int) -> Seq<char>
    decreases d.len() - i,
{
    if i + 3 > d.len() || i < 0 {
        seq![]
    } else {
        seq![','] + d.subrange(i, i + 3) + comma_groups(d, i + 3)
    }
}

/// Digits grouped by thousands: the leading group, then every further group
/// of three digits preceded by a comma (`1438` is `1,438`).
pub open spec fn group_thousands(d: Seq<char>) -> Seq<char> {
    let r = leading_group_len(d.len()) as int;
    d.subrange(0, r) + comma_groups(d, r)
}

/// The characters of `s` other than commas, in order.
pub open spec fn strip_commas(s: Seq<char>) -> Seq<char>
    decreases s.len(),
{
    if s.len() == 0 {
        seq![]
    } else {
        strip_commas(s.drop_last()) + if s.last() == ',' {
            Seq::<char>::empty()
        } else {
            seq![s.last()]
        }
    }
}

proof fn lemma_strip_commas_concat(a: Seq<char>, b: Seq<char>)
    ensures
        strip_commas(a + b) == strip_commas(a) + strip_commas(b),
    decreases b.len(),
{
    if b.len() == 0 {
        assert(a + b =~= a);
        assert(strip_commas(a) + strip_commas(b) =~= strip_commas(a));
    } else {
        lemma_strip_commas_concat(a, b.drop_last());
        assert((a + b).drop_last() =~= a + b.drop_last());
        assert((a + b).last() == b.last());
    }
}

proof fn lemma_strip_commas_free(s: Seq<char>)
    requires
        forall|k: int| 0 <= k < s.len() ==> s[k] != ',',
    ensures
        strip_commas(s) == s,
    decreases s.len(),
{
    if s.len() > 0 {
        lemma_strip_commas_free(s.drop_last());
        assert(s.drop_last().push(s.last()) =~= s);
    }
}

proof fn lemma_decimal_digits_no_comma(n: nat)
    ensures
        forall|k: int| 0 <= k < decimal_digits(n).len() ==> decimal_digits(n)[k] != ',',
    decreases n,
{
    if n >= 10 {
        lemma_decimal_digits_no_comma(n / 10);
        assert forall|k: int| 0 <= k < decimal_digits(n).len() implies decimal_digits(n)[k] != ',' by {
            if k < decimal_digits(n / 10).len() {
                assert(decimal_digits(n)[k] == decimal_digits(n / 10)[k]);
            }
        }
    }
}

proof fn lemma_strip_comma_groups(d: Seq<char>, i: int)
    requires
        0 <= i <= d.len(),
        (d.len() - i) % 3 == 0,
        forall|k: int| 0 <= k < d.len() ==> d[k] != ',',
    ensures
        strip_commas(comma_groups(d, i)) == d.subrange(i, d.len() as int),
    decreases d.len() - i,
{
    if i + 3 > d.len() {
        assert(d.subrange(i, d.len() as int) =~= Seq::<char>::empty());
    } else {
        lemma_strip_comma_groups(d, i + 3);
        let g = d.subrange(i, i + 3);
        lemma_strip_commas_concat(seq![','] + g, comma_groups(d, i + 3));
        lemma_strip_commas_concat(seq![','], g);
        let comma: Seq<char> = seq![','];
        assert(comma.drop_last() =~= Seq::<char>::empty());
        assert(comma.last() == ',');
        assert(strip_commas(comma.drop_last()) =~= Seq::<char>::empty());
        assert(strip_commas(comma) =~= Seq::<char>::empty());
        lemma_strip_commas_free(g);
        assert(g + d.subrange(i + 3, d.len() as int) =~= d.subrange(i, d.len() as int));
        assert(strip_commas(seq![','] + g) =~= g);
    }
}

/// Removing the separators from a grouped rendering gives back the plain
/// decimal digits.
pub proof fn lemma_thousands_digits(n: nat)
    ensures
        strip_commas(group_thousands(decimal_digits(n))) == decimal_digits(n),
{
    let d = decimal_digits(n);
    let r = leading_group_len(d.len()) as int;
    lemma_decimal_digits_no_comma(n);
    assert(r <= d.len() && (d.len() - r) % 3 == 0) by (nonlinear_arith)
        requires
            r == leading_group_len(d.len()),
    {
    }
    lemma_strip_comma_groups(d, r);
    lemma_strip_commas_concat(d.subrange(0, r), comma_groups(d, r));
    lemma_strip_commas_free(d.subrange(0, r));
    assert(d.subrange(0, r) + d.subrange(r, d.len() as int) =~= d);
}

proof fn lemma_comma_groups_len(d: Seq<char>, i: int)
    requires
        0 <= i <= d.len(),
        (d.len() - i) % 3 == 0,
    ensures
        comma_groups(d, i).len() == (d.len() - i) / 3 * 4,
    decreases d.len() - i,
{
    if i + 3 <= d.len() {
        lemma_comma_groups_len(d, i + 3);
    }
}

/// A grouped rendering of `d` digits has `(d - 1) / 3` separators: one
/// leading group of one to three digits, then groups of exactly three.
pub proof fn lemma_thousands_separators(n: nat)
    ensures
        1 <= leading_group_len(decimal_digits(n).len()) <= 3,
        group_thousands(decimal_digits(n)).len() == decimal_digits(n).len() + (decimal_digits(n).len() - 1) / 3,
{
    let d = decimal_digits(n);
    let len = d.len();
    let r = leading_group_len(len) as int;
    assert(len >= 1) by {
        if n >= 10 {
            assert(d == decimal_digits(n / 10).push(digit_char(n % 10)));
        }
    }
    assert(1 <= r <= 3 && r <= len && (len - r) % 3 == 0 && r + (len - r) / 3 * 4 == len + (len - 1) / 3)
        by (nonlinear_arith)
        requires
            r == leading_group_len(len),
            len >= 1,
    {
    }
    lemma_comma_groups_len(d, r);
}

/// Groups an integer with comma thousand separators (`1438` -> `1,438`).
pub fn thousands(n: u64) -> (s: String)
    ensures
        s@ == group_thousands(decimal_digits(n as nat)),
        strip_commas(s@) == decimal_digits(n as nat),
        s@.len() == decimal_digits(n as nat).len() + (decimal_digits(n as nat).len() - 1) / 3,
{
    proof {
        lemma_thousands_digits(n as nat);
        lemma_thousands_separators(n as nat);
    }
    let digits = decimal_string(n);
    let d = crate::language::chars_of(digits.as_str());
    let len = d.len();
    let ghost dd = d@;
    let r: usize = if len == 0 { 0 } else { (len - 1) % 3 + 1 };
    let mut out = String::new();
    let mut i: usize = 0;
    while i < r
        invariant
            dd == d@,
            len == d@.len(),
            r == leading_group_len(len as nat),
            r <= len,
            i <= r,
            out@ == dd.subrange(0, i as int),
        decreases r - i,
    {
        out.push(d[i]);
        i = i + 1;
        proof {
            assert(out@ =~= dd.subrange(0, i as int));
        }
    }
    // remaining digits come in groups of three
    proof {
        assert((len - r) % 3 == 0) by (nonlinear_arith)
            requires
                r == leading_group_len(len as nat),
                r <= len,
        {
        }
    }
    while i < len
        invariant
            dd == d@,
            len == d@.len(),
            r == leading_group_len(len as nat),
            r <= i <= len,
            (len - i) % 3 == 0,
            out@ + comma_groups(dd, i as int) == group_thousands(dd),
        decreases len - i,
    {
        proof {
            assert(i + 3 <= len);
            assert(comma_groups(dd, i as int) == seq![','] + dd.subrange(i as int, i + 3)
                + comma_groups(dd, i + 3));
        }
        out.push(',');
        out.push(d[i]);
        out.push(d[i + 1]);
        out.push(d[i + 2]);
        proof {
            assert(out@ + comma_groups(dd, i + 3) =~= group_thousands(dd));
        }
        i = i + 3;
    }
    proof {
        assert(comma_groups(dd, i as int) == Seq::<char>::empty());
        assert(out@ + Seq::<char>::empty() =~= out@);
    }
    out
}

/// Blocks joined by a separator.
pub open spec fn join_with(blocks: Seq<Seq<char>>, sep: Seq<char>) -> Seq<char>
    decreases blocks.len(),
{
    if blocks.len() == 0 {
        seq![]
    } else if blocks.len() == 1 {
        blocks[0]
    } else {
        join_with(blocks.drop_last(), sep) + sep + blocks.last()
    }
}

/// The report block of one match.
pub open spec fn find_block(file: SourceFile, symbol: Symbol, root: Seq<char>) -> Seq<char> {
    symbol.name@ + "\nkind: "@ + long_label_of(symbol.kind) + "\nfile: "@ + relative_path_of(
        file.path@,
        root,
    ) + "\nline: "@ + decimal_digits(symbol.line as nat) + "\nlanguage: "@ + language_name(
        file.language,
    )
}

/// The report blocks of the matches of a query, in order.
pub open spec fn find_blocks(files: Seq<SourceFile>, root: Seq<char>, query: Seq<char>) -> Seq<Seq<char>> {
    let hits = query_hits(files, query);
    Seq::new(
        hits.len(),
        |k: int| find_block(files[hits[k].0], files[hits[k].0].symbols@[hits[k].1], root),
    )
}

/// The `sift find` report: blocks separated by blank lines, with a final
/// newline; empty when nothing matches.
pub open spec fn find_report(files: Seq<SourceFile>, root: Seq<char>, query: Seq<char>) -> Seq<char> {
    let blocks = find_blocks(files, root, query);
    if blocks.len() == 0 {
        seq![]
    } else {
        join_with(blocks, "\n\n"@) + "\n"@
    }
}

/// Each block of the find report is about its own match: the `k`-th block
/// starts with the `k`-th hit's symbol name, kind, the path of the file that
/// holds it relative to the root, and its line, and ends with that file's
/// language.
pub proof fn lemma_find_block_of_its_hit(files: Seq<SourceFile>, root: Seq<char>, query: Seq<char>, k: int)
    requires
        0 <= k < query_hits(files, query).len(),
    ensures
        ({
            let hit = query_hits(files, query)[k];
            let f = files[hit.0];
            let sym = f.symbols@[hit.1];
            let head = sym.name@ + "\nkind: "@ + long_label_of(sym.kind) + "\nfile: "@ + relative_path_of(f.path@, root)
                + "\nline: "@ + decimal_digits(sym.line as nat);
            let tail = "\nlanguage: "@ + language_name(f.language);
            let b = find_blocks(files, root, query)[k];
            &&& b.len() == head.len() + tail.len()
            &&& b.subrange(0, head.len() as int) == head
            &&& b.subrange(head.len() as int, b.len() as int) == tail
        }),
{
    let hit = query_hits(files, query)[k];
    let f = files[hit.0];
    let sym = f.symbols@[hit.1];
    let head = sym.name@ + "\nkind: "@ + long_label_of(sym.kind) + "\nfile: "@ + relative_path_of(f.path@, root)
        + "\nline: "@ + decimal_digits(sym.line as nat);
    let tail = "\nlanguage: "@ + language_name(f.language);
    let b = find_blocks(files, root, query)[k];
    assert(b == head + tail);
    assert((head + tail).subrange(0, head.len() as int) =~= head);
    assert((head + tail).subrange(head.len() as int, (head + tail).len() as int) =~= tail);
}

/// The find report has one block per match, and is empty exactly when
/// nothing matches.
pub proof fn lemma_find_report_empty(files: Seq<SourceFile>, root: Seq<char>, query: Seq<char>)
    ensures
        find_blocks(files, root, query).len() == query_hits(files, query).len(),
        find_report(files, root, query).len() == 0 <==> query_hits(files, query).len() == 0,
{
    reveal_strlit("\n");
}

/// `sift find` rendering: one block per match.
pub fn render_find(index: &RepositoryIndex, query: &str) -> (s: String)
    ensures
        s@ == find_report(index.files_spec(), index.root_spec(), query@),
{
    let matches = index.find(query);
    let ghost files = index.files_spec();
    let ghost root = index.root_spec();
    let ghost hits = query_hits(files, query@);
    let ghost blocks = find_blocks(files, root, query@);
    let mut out = String::new();
    let mut k: usize = 0;
    while k < matches.len()
        invariant
            files == index.files_spec(),
            root == index.root_spec(),
            hits == query_hits(files, query@),
            blocks == find_blocks(files, root, query@),
            crate::index::matches_hits(matches@, files, hits),
            k <= matches@.len(),
            out@ == join_with(blocks.subrange(0, k as int), "\n\n"@),
        decreases matches@.len() - k,
    {
        let m = matches[k];
        if k > 0 {
            out.append("\n\n");
        }
        out.append(m.symbol.name.as_str());
        out.append("\nkind: ");
        out.append(m.symbol.kind.long_label());
        out.append("\nfile: ");
        let rel = m.relative_path(index.root());
        out.append(rel.as_str());
        out.append("\nline: ");
        let line = decimal_string(m.symbol.line as u64);
        out.append(line.as_str());
        out.append("\nlanguage: ");
        out.append(m.file.language.name());
        proof {
            let b = blocks.subrange(0, k + 1);
            assert(b.drop_last() =~= blocks.subrange(0, k as int));
            assert(b.last() == blocks[k as int]);
            assert(blocks[k as int] == find_block(*m.file, *m.symbol, root));
            if k == 0 {
                assert(out@ =~= blocks[k as int]);
            } else {
                assert(out@ =~= join_with(blocks.subrange(0, k as int), "\n\n"@) + "\n\n"@
                    + blocks[k as int]);
            }
        }
        k = k + 1;
    }
    proof {
        assert(blocks.subrange(0, k as int) =~= blocks);
    }
    if k > 0 {
        out.append("\n");
    }
    out
}

/// `s` padded with spaces on the right to at least `width` characters.
pub open spec fn pad_right(s: Seq<char>, width: nat) -> Seq<char> {
    if s.len() >= width {
        s
    } else {
        s + Seq::new((width - s.len()) as nat, |i: int| ' ')
    }
}

/// The longest language name among the entries (0 when there are none).
pub open spec fn longest_name(entries: Seq<(Language, usize)>) -> nat
    decreases entries.len(),
{
    if entries.len() == 0 {
        0
    } else {
        let rest = longest_name(entries.drop_last());
        let here = language_name(entries.last().0).len();
        if here > rest { here } else { rest }
    }
}

/// Width of the name column: the longest name, at least 10, plus 2.
pub open spec fn name_column_width(entries: Seq<(Language, usize)>) -> nat {
    let w = longest_name(entries);
    (if w > 10 { w } else { 10 }) + 2
}

/// The lines of the language table, one per entry.
pub open spec fn language_lines(entries: Seq<(Language, usize)>, width: nat) -> Seq<char>
    decreases entries.len(),
{
    if entries.len() == 0 {
        seq![]
    } else {
        language_lines(entries.drop_last(), width) + pad_right(
            language_name(entries.last().0),
            width,
        ) + decimal_digits(entries.last().1 as nat) + "\n"@
    }
}

/// The `sift stats` report of the given figures.
pub open spec fn stats_report(
    files_scanned: u64,
    source_files: usize,
    symbols_total: usize,
    entries: Seq<(Language, usize)>,
) -> Seq<char> {
    "Files scanned: "@ + decimal_digits(files_scanned as nat) + "\n"@ + "Source files: "@
        + decimal_digits(source_files as nat) + "\n"@ + "Symbols: "@ + group_thousands(
        decimal_digits(symbols_total as nat),
    ) + "\n"@ + "\n"@ + "Languages:\n"@ + language_lines(entries, name_column_width(entries))
}

/// The `sift stats` report of an index.
pub open spec fn language_breakdown_report(index: RepositoryIndex) -> Seq<char> {
    stats_report(
        index.files_scanned_spec(),
        index.files_spec().len() as usize,
        total_symbols(index.files_spec()) as usize,
        language_breakdown_of(index.files_spec()),
    )
}

/// `sift stats` rendering.
pub fn render_stats(index: &RepositoryIndex) -> (s: String)
    requires
        total_symbols(index.files_spec()) <= usize::MAX,
    ensures
        s@ == language_breakdown_report(*index),
{
    let stats = index.stats();
    let mut body = String::new();
    body.append("Files scanned: ");
    body.append(decimal_string(stats.files_scanned).as_str());
    body.append("\n");
    body.append("Source files: ");
    body.append(decimal_string(stats.source_files as u64).as_str());
    body.append("\n");
    body.append("Symbols: ");
    body.append(thousands(stats.symbols_total as u64).as_str());
    body.append("\n");
    body.append("\n");
    body.append("Languages:\n");
    let entries = &stats.languages;
    let mut longest: usize = 0;
    let mut i: usize = 0;
    while i < entries.len()
        invariant
            i <= entries@.len(),
            longest == longest_name(entries@.subrange(0, i as int)),
            longest <= 10,
        decreases entries@.len() - i,
    {
        proof {
            crate::language::lemma_language_name_len(entries@[i as int].0);
        }
        proof {
            assert(entries@.subrange(0, i + 1).drop_last() =~= entries@.subrange(0, i as int));
        }
        let n = entries[i].0.name().unicode_len();
        if n > longest {
            longest = n;
        }
        i = i + 1;
    }
    proof {
        assert(entries@.subrange(0, i as int) =~= entries@);
    }
    let width: usize = (if longest > 10 { longest } else { 10 }) + 2;
    let ghost head = body@;
    let mut k: usize = 0;
    while k < entries.len()
        invariant
            k <= entries@.len(),
            width == name_column_width(entries@),
            body@ == head + language_lines(entries@.subrange(0, k as int), width as nat),
        decreases entries@.len() - k,
    {
        let (lang, count) = entries[k];
        let name = lang.name();
        body.append(name);
        let n = name.unicode_len();
        let mut pad = n;
        let ghost before = body@;
        while pad < width
            invariant
                n <= pad <= width || (n > width && pad == n),
                n == language_name(lang).len(),
                body@ == before + Seq::new((pad - n) as nat, |j: int| ' '),
            decreases width - pad,
        {
            body.push(' ');
            pad = pad + 1;
            proof {
                assert(body@ =~= before + Seq::new((pad - n) as nat, |j: int| ' '));
            }
        }
        proof {
            assert(before + Seq::new((pad - n) as nat, |j: int| ' ') =~= head + language_lines(
                entries@.subrange(0, k as int),
                width as nat,
            ) + pad_right(language_name(lang), width as nat));
        }
        body.append(decimal_string(count as u64).as_str());
        body.append("\n");
        proof {
            let e = entries@.subrange(0, k + 1);
            assert(e.drop_last() =~= entries@.subrange(0, k as int));
            assert(e.last() == (lang, count));
            assert(body@ =~= head + language_lines(e, width as nat));
        }
        k = k + 1;
    }
    proof {
        assert(entries@.subrange(0, k as int) =~= entries@);
    }
    body
}

/// The directory under which a file is listed: the parent of its path
/// relative to the root (empty where it has none).
pub open spec fn map_dir_of(path: Seq<char>, root: Seq<char>) -> Seq<char> {
    match parent_path_of(relative_path_of(path, root)) {
        Some(p) => p,
        None => seq![],
    }
}

/// The name under which a file is listed: the last component of its path
/// relative to the root (empty where it has none).
pub open spec fn map_name_of(path: Seq<char>, root: Seq<char>) -> Seq<char> {
    match file_name_of(relative_path_of(path, root)) {
        Some(n) => n,
        None => seq![],
    }
}

/// Directories strictly in string order.
pub open spec fn strictly_ordered(dirs: Seq<Seq<char>>) -> bool {
    forall|i: int, j: int| 0 <= i < j < dirs.len() ==> string_less(dirs[i], dirs[j])
}

/// The listing directory of the file at position `j`.
pub open spec fn file_dir(files: Seq<SourceFile>, root: Seq<char>, j: int) -> Seq<char> {
    map_dir_of(files[j].path@, root)
}

/// `dirs` holds exactly the listing directories of the first `n` files.
pub open spec fn dirs_of_files(dirs: Seq<Seq<char>>, files: Seq<SourceFile>, root: Seq<char>, n: int) -> bool {
    forall|d: Seq<char>| dirs.contains(d) <==> exists|j: int| 0 <= j < n
        && #[trigger] file_dir(files, root, j) == d
}

/// The listing directories of the files, each once, in string order.
pub open spec fn map_dirs(files: Seq<SourceFile>, root: Seq<char>) -> Seq<Seq<char>> {
    choose|dirs: Seq<Seq<char>>| strictly_ordered(dirs) && dirs_of_files(dirs, files, root, files.len() as int)
}

/// The files listed under directory `d`, in index order.
pub open spec fn files_in_dir(files: Seq<SourceFile>, root: Seq<char>, d: Seq<char>) -> Seq<SourceFile>
    decreases files.len(),
{
    if files.len() == 0 {
        seq![]
    } else {
        files_in_dir(files.drop_last(), root, d) + if map_dir_of(files.last().path@, root) == d {
            seq![files.last()]
        } else {
            seq![]
        }
    }
}

/// Tree connector of an entry: the last entry closes the branch.
pub open spec fn connector(last: bool) -> Seq<char> {
    if last { "\u{2514}\u{2500}\u{2500}"@ } else { "\u{251c}\u{2500}\u{2500}"@ }
}

/// Indentation under an entry: a continuing branch keeps its vertical bar.
pub open spec fn branch_indent(last: bool) -> Seq<char> {
    if last { "    "@ } else { "\u{2502}   "@ }
}

/// The first `k` symbol lines of a file.
pub open spec fn symbol_lines(symbols: Seq<Symbol>, k: int, indent: Seq<char>) -> Seq<char>
    decreases k,
{
    if k <= 0 {
        seq![]
    } else {
        symbol_lines(symbols, k - 1, indent) + indent + connector(k == symbols.len()) + " "@
            + short_label_of(symbols[k - 1].kind) + " "@ + symbols[k - 1].name@ + "\n"@
    }
}

/// The lines of one file entry: its name, then its symbols.
pub open spec fn file_entry(f: SourceFile, root: Seq<char>, last: bool) -> Seq<char> {
    connector(last) + " "@ + map_name_of(f.path@, root) + "\n"@ + symbol_lines(
        f.symbols@,
        f.symbols@.len() as int,
        branch_indent(last),
    )
}

/// The first `k` file entries of a group.
pub open spec fn file_entries(group: Seq<SourceFile>, root: Seq<char>, k: int) -> Seq<char>
    decreases k,
{
    if k <= 0 {
        seq![]
    } else {
        file_entries(group, root, k - 1) + file_entry(group[k - 1], root, k == group.len())
    }
}

/// A directory group: its header line, then its file entries.
pub open spec fn group_text(files: Seq<SourceFile>, root: Seq<char>, d: Seq<char>) -> Seq<char> {
    let group = files_in_dir(files, root, d);
    (if d.len() == 0 { "."@ } else { d }) + "/\n"@ + file_entries(group, root, group.len() as int)
}

/// The first `k` directory groups, separated by blank lines.
pub open spec fn map_groups(files: Seq<SourceFile>, root: Seq<char>, dirs: Seq<Seq<char>>, k: int) -> Seq<char>
    decreases k,
{
    if k <= 0 {
        seq![]
    } else {
        map_groups(files, root, dirs, k - 1) + (if k > 1 { "\n"@ } else { seq![] }) + group_text(
            files,
            root,
            dirs[k - 1],
        )
    }
}

/// The header line of a listing directory: its path (`.` when empty), `/`
/// and a line break.
pub open spec fn dir_header(d: Seq<char>) -> Seq<char> {
    if d.len() == 0 { "./\n"@ } else { d + "/\n"@ }
}

/// `h` stands in `s` at offset `off`, at the start of a line.
pub open spec fn line_at(s: Seq<char>, off: int, h: Seq<char>) -> bool {
    &&& 0 <= off
    &&& off + h.len() <= s.len()
    &&& s.subrange(off, off + h.len()) == h
    &&& (off == 0 || s[off - 1] == '\n')
}

/// A directory group begins with the full path of its directory (`.` for
/// the root), then `/` and a line break.
pub proof fn lemma_group_starts_with_directory(files: Seq<SourceFile>, root: Seq<char>, d: Seq<char>)
    ensures
        group_text(files, root, d).len() >= dir_header(d).len(),
        group_text(files, root, d).subrange(0, dir_header(d).len() as int) == dir_header(d),
{
    reveal_strlit(".");
    reveal_strlit("/\n");
    reveal_strlit("./\n");
    let group = files_in_dir(files, root, d);
    let rest = file_entries(group, root, group.len() as int);
    let h = (if d.len() == 0 { "."@ } else { d }) + "/\n"@;
    assert(h =~= dir_header(d));
    assert((h + rest).subrange(0, h.len() as int) =~= h);
}

/// Distinct directories have distinct headers.
pub proof fn lemma_dir_header_injective(d1: Seq<char>, d2: Seq<char>)
    requires
        d1.len() > 0,
        d2.len() > 0,
        dir_header(d1) == dir_header(d2),
    ensures
        d1 == d2,
{
    reveal_strlit("/\n");
    assert(dir_header(d1).len() == d1.len() + 2);
    assert(dir_header(d2).len() == d2.len() + 2);
    assert(d1.len() == d2.len());
    assert(dir_header(d1).subrange(0, d1.len() as int) =~= d1);
    assert(dir_header(d2).subrange(0, d2.len() as int) =~= d2);
}

proof fn lemma_line_at_extend(s: Seq<char>, t: Seq<char>, off: int, h: Seq<char>)
    requires
        line_at(s, off, h),
    ensures
        line_at(s + t, off, h),
{
    assert((s + t).subrange(off, off + h.len()) =~= s.subrange(off, off + h.len()));
    if off > 0 {
        assert((s + t)[off - 1] == s[off - 1]);
    }
}

/// `h` stands at the start of some line of `s`.
pub open spec fn has_line(s: Seq<char>, h: Seq<char>) -> bool {
    exists|off: int| line_at(s, off, h)
}

proof fn lemma_map_groups_headers(files: Seq<SourceFile>, root: Seq<char>, dirs: Seq<Seq<char>>, n: int)
    requires
        0 <= n <= dirs.len(),
    ensures
        forall|k: int| 0 <= k < n ==> has_line(map_groups(files, root, dirs, n), #[trigger] dir_header(dirs[k])),
    decreases n,
{
    if n > 0 {
        lemma_map_groups_headers(files, root, dirs, n - 1);
        reveal_strlit("\n");
        let prev = map_groups(files, root, dirs, n - 1);
        let sep: Seq<char> = if n > 1 { "\n"@ } else { seq![] };
        let g = group_text(files, root, dirs[n - 1]);
        let whole = map_groups(files, root, dirs, n);
        assert(whole == prev + sep + g);
        assert forall|k: int| 0 <= k < n implies has_line(whole, #[trigger] dir_header(dirs[k])) by {
            let h = dir_header(dirs[k]);
            if k < n - 1 {
                assert(has_line(prev, h));
                let off = choose|off: int| line_at(prev, off, h);
                lemma_line_at_extend(prev, sep + g, off, h);
                assert(prev + (sep + g) =~= whole);
                assert(line_at(whole, off, h));
            } else {
                lemma_group_starts_with_directory(files, root, dirs[k]);
                let off: int = (prev.len() + sep.len()) as int;
                assert(whole.subrange(off, off + h.len()) =~= g.subrange(0, h.len() as int));
                if off > 0 {
                    if n > 1 {
                        assert(whole[off - 1] == sep[0]);
                    } else {
                        assert(prev.len() == 0);
                    }
                }
                assert(line_at(whole, off, h));
            }
        }
    }
}

/// Every listing directory of the map report has its header line there:
/// its full path (`.` for the root), `/`, at the start of a line.
pub proof fn lemma_map_report_headers(files: Seq<SourceFile>, root: Seq<char>)
    ensures
        forall|k: int| 0 <= k < map_dirs(files, root).len() ==> has_line(
            map_report(files, root),
            #[trigger] dir_header(map_dirs(files, root)[k]),
        ),
{
    let dirs = map_dirs(files, root);
    lemma_map_groups_headers(files, root, dirs, dirs.len() as int);
}

/// The `sift map` report.
pub open spec fn map_report(files: Seq<SourceFile>, root: Seq<char>) -> Seq<char> {
    let dirs = map_dirs(files, root);
    map_groups(files, root, dirs, dirs.len() as int)
}

/// Two strictly ordered directory lists with the same members are equal.
proof fn lemma_ordered_dirs_unique(a: Seq<Seq<char>>, b: Seq<Seq<char>>)
    requires
        strictly_ordered(a),
        strictly_ordered(b),
        forall|x: Seq<char>| a.contains(x) <==> b.contains(x),
    ensures
        a == b,
    decreases a.len(),
{
    if a.len() == 0 {
        if b.len() > 0 {
            assert(b.contains(b[0]));
        }
        assert(a =~= b);
    } else {
        assert(a.contains(a[0]));
        assert(b.contains(b[0]));
        let ka = choose|k: int| 0 <= k < b.len() && b[k] == a[0];
        let kb = choose|k: int| 0 <= k < a.len() && a[k] == b[0];
        if a[0] != b[0] {
            assert(ka > 0 && kb > 0);
            assert(string_less(b[0], a[0]));
            assert(string_less(a[0], b[0]));
            lemma_lex_asymmetric(a[0], b[0]);
        }
        let a1 = a.drop_first();
        let b1 = b.drop_first();
        assert forall|x: Seq<char>| a1.contains(x) <==> b1.contains(x) by {
            if a1.contains(x) {
                let k = choose|k: int| 0 <= k < a1.len() && a1[k] == x;
                assert(string_less(a[0], a[k + 1]));
                assert(a.contains(x));
                let m = choose|m: int| 0 <= m < b.len() && b[m] == x;
                if m == 0 {
                    lemma_lex_irreflexive_dir(x);
                }
                assert(b1[m - 1] == x);
            }
            if b1.contains(x) {
                let k = choose|k: int| 0 <= k < b1.len() && b1[k] == x;
                assert(string_less(b[0], b[k + 1]));
                assert(b.contains(x));
                let m = choose|m: int| 0 <= m < a.len() && a[m] == x;
                if m == 0 {
                    lemma_lex_irreflexive_dir(x);
                }
                assert(a1[m - 1] == x);
            }
        }
        lemma_ordered_dirs_unique(a1, b1);
        assert(a =~= seq![a[0]] + a1);
        assert(b =~= seq![b[0]] + b1);
    }
}

proof fn lemma_lex_irreflexive_dir(x: Seq<char>)
    ensures
        !string_less(x, x),
{
    crate::text::lemma_lex_irreflexive(x);
}

/// Listing directory and name of a file.
fn map_location(path: &str, root: &str) -> (r: (String, String))
    ensures
        r.0@ == map_dir_of(path@, root@),
        r.1@ == map_name_of(path@, root@),
{
    let rel = match path_strip_prefix(path, root) {
        Some(p) => p,
        None => path.to_owned(),
    };
    let dir = match path_parent(rel.as_str()) {
        Some(p) => p,
        None => String::new(),
    };
    let name = match path_file_name(rel.as_str()) {
        Some(n) => n,
        None => String::new(),
    };
    (dir, name)
}

/// The listing directories of the files, each once, in string order.
fn collect_dirs(locs: &Vec<(String, String)>, Ghost(files): Ghost<Seq<SourceFile>>, Ghost(root): Ghost<Seq<char>>) -> (dirs: Vec<String>)
    requires
        locs@.len() == files.len(),
        forall|i: int| 0 <= i < files.len() ==> (#[trigger] locs@[i]).0@ == file_dir(files, root, i),
    ensures
        dirs@.map_values(|d: String| d@) == map_dirs(files, root),
{
    let mut dirs: Vec<String> = Vec::new();
    let mut i: usize = 0;
    while i < locs.len()
        invariant
            i <= locs@.len(),
            locs@.len() == files.len(),
            forall|i: int| 0 <= i < files.len() ==> (#[trigger] locs@[i]).0@ == file_dir(files, root, i),
            strictly_ordered(dirs@.map_values(|d: String| d@)),
            dirs_of_files(dirs@.map_values(|d: String| d@), files, root, i as int),
        decreases locs@.len() - i,
    {
        let d = &locs[i].0;
        let ghost old_dirs = dirs@.map_values(|d: String| d@);
        // find the first position whose directory is not before `d`
        let mut p: usize = 0;
        while p < dirs.len() && str_lex_less(dirs[p].as_str(), d.as_str())
            invariant
                p <= dirs@.len(),
                old_dirs == dirs@.map_values(|d: String| d@),
                forall|q: int| 0 <= q < p ==> string_less(old_dirs[q], d@),
            decreases dirs@.len() - p,
        {
            p = p + 1;
        }
        let present = p < dirs.len() && dirs[p] == *d;
        proof {
            assert(d@ == file_dir(files, root, i as int));
            assert forall|q: int| p <= q < old_dirs.len() && old_dirs[q] != d@ implies string_less(d@, old_dirs[q]) by {
                assert(!string_less(old_dirs[p as int], d@));
                if q > p {
                    assert(string_less(old_dirs[p as int], old_dirs[q]));
                }
                if old_dirs[p as int] != d@ {
                    lemma_lex_total(old_dirs[p as int], d@);
                }
                lemma_lex_total(old_dirs[q], d@);
                lemma_lex_transitive(d@, old_dirs[p as int], old_dirs[q]);
                lemma_lex_transitive(old_dirs[q], d@, old_dirs[p as int]);
                lemma_lex_asymmetric(old_dirs[p as int], old_dirs[q]);
            }
        }
        if !present {
            dirs.insert(p, d.clone());
            proof {
                let nd = dirs@.map_values(|d: String| d@);
                assert(nd =~= old_dirs.insert(p as int, d@));
                assert forall|q: int| p <= q < old_dirs.len() implies old_dirs[q] != d@ by {
                    assert(old_dirs[p as int] != d@);
                    if q > p {
                        assert(string_less(old_dirs[p as int], old_dirs[q]));
                        assert(!string_less(old_dirs[p as int], d@));
                    }
                }
                assert forall|a: int, b: int| 0 <= a < b < nd.len() implies string_less(nd[a], nd[b]) by {
                    if a < p && b < p {
                        assert(nd[a] == old_dirs[a] && nd[b] == old_dirs[b]);
                    } else if a < p && b == p {
                        assert(nd[a] == old_dirs[a] && nd[b] == d@);
                    } else if a < p {
                        assert(nd[a] == old_dirs[a] && nd[b] == old_dirs[b - 1]);
                        assert(string_less(d@, old_dirs[b - 1]));
                        lemma_lex_transitive(nd[a], d@, nd[b]);
                    } else if a == p {
                        assert(nd[a] == d@ && nd[b] == old_dirs[b - 1]);
                        assert(string_less(d@, old_dirs[b - 1]));
                    } else {
                        assert(nd[a] == old_dirs[a - 1] && nd[b] == old_dirs[b - 1]);
                    }
                }
                assert forall|x: Seq<char>| nd.contains(x) <==> exists|j: int| 0 <= j < i + 1
                    && #[trigger] file_dir(files, root, j) == x by {
                    if nd.contains(x) {
                        let m = choose|m: int| 0 <= m < nd.len() && nd[m] == x;
                        if m < p {
                            assert(old_dirs[m] == x);
                            assert(old_dirs.contains(x));
                        } else if m > p {
                            assert(old_dirs[m - 1] == x);
                            assert(old_dirs.contains(x));
                        } else {
                            assert(file_dir(files, root, i as int) == x);
                        }
                    }
                    if exists|j: int| 0 <= j < i + 1 && #[trigger] file_dir(files, root, j) == x {
                        let j = choose|j: int| 0 <= j < i + 1 && #[trigger] file_dir(files, root, j) == x;
                        if j < i {
                            assert(old_dirs.contains(x));
                            let m = choose|m: int| 0 <= m < old_dirs.len() && old_dirs[m] == x;
                            if m < p {
                                assert(nd[m] == x);
                            } else {
                                assert(nd[m + 1] == x);
                            }
                        } else {
                            assert(nd[p as int] == x);
                        }
                    }
                }
            }
        } else {
            proof {
                assert(old_dirs[p as int] == d@);
                assert forall|x: Seq<char>| old_dirs.contains(x) <==> exists|j: int| 0 <= j < i + 1
                    && #[trigger] file_dir(files, root, j) == x by {
                    if exists|j: int| 0 <= j < i + 1 && #[trigger] file_dir(files, root, j) == x {
                        let j = choose|j: int| 0 <= j < i + 1 && #[trigger] file_dir(files, root, j) == x;
                        if j == i {
                            assert(old_dirs.contains(d@));
                        }
                    }
                }
            }
        }
        i = i + 1;
    }
    proof {
        let dv = dirs@.map_values(|d: String| d@);
        let m = map_dirs(files, root);
        assert(strictly_ordered(dv) && dirs_of_files(dv, files, root, files.len() as int));
        assert(strictly_ordered(m) && dirs_of_files(m, files, root, files.len() as int));
        lemma_ordered_dirs_unique(dv, m);
    }
    dirs
}

/// Positions of the files listed under directory `d`, in index order.
fn group_members(locs: &Vec<(String, String)>, d: &String, Ghost(files): Ghost<Seq<SourceFile>>, Ghost(root): Ghost<Seq<char>>) -> (r: Vec<usize>)
    requires
        locs@.len() == files.len(),
        forall|i: int| 0 <= i < files.len() ==> (#[trigger] locs@[i]).0@ == file_dir(files, root, i),
    ensures
        forall|k: int| 0 <= k < r@.len() ==> r@[k] < files.len(),
        Seq::new(r@.len(), |k: int| files[r@[k] as int]) == files_in_dir(files, root, d@),
{
    let mut r: Vec<usize> = Vec::new();
    let mut i: usize = 0;
    while i < locs.len()
        invariant
            i <= locs@.len(),
            locs@.len() == files.len(),
            forall|i: int| 0 <= i < files.len() ==> (#[trigger] locs@[i]).0@ == file_dir(files, root, i),
            forall|k: int| 0 <= k < r@.len() ==> r@[k] < i,
            Seq::new(r@.len(), |k: int| files[r@[k] as int]) == files_in_dir(
                files.subrange(0, i as int),
                root,
                d@,
            ),
        decreases locs@.len() - i,
    {
        let ghost old_r = r@;
        proof {
            assert(files.subrange(0, i + 1).drop_last() =~= files.subrange(0, i as int));
            assert(files.subrange(0, i + 1).last() == files[i as int]);
        }
        if locs[i].0 == *d {
            r.push(i);
            proof {
                assert(Seq::new(r@.len(), |k: int| files[r@[k] as int]) =~= Seq::new(
                    old_r.len(),
                    |k: int| files[old_r[k] as int],
                ) + seq![files[i as int]]);
            }
        } else {
            proof {
                assert(files_in_dir(files.subrange(0, i + 1), root, d@) =~= files_in_dir(
                    files.subrange(0, i as int),
                    root,
                    d@,
                ));
            }
        }
        i = i + 1;
    }
    proof {
        assert(files.subrange(0, i as int) =~= files);
    }
    r
}

/// Appends the symbol lines of one file entry.
fn push_symbol_lines(body: &mut String, symbols: &Vec<Symbol>, last_file: bool)
    ensures
        final(body)@ == old(body)@ + symbol_lines(symbols@, symbols@.len() as int, branch_indent(last_file)),
{
    let ghost head = body@;
    let indent = if last_file { "    " } else { "\u{2502}   " };
    let mut j: usize = 0;
    while j < symbols.len()
        invariant
            j <= symbols@.len(),
            indent@ == branch_indent(last_file),
            body@ == head + symbol_lines(symbols@, j as int, branch_indent(last_file)),
        decreases symbols@.len() - j,
    {
        let sym_connector = if j + 1 == symbols.len() { "\u{2514}\u{2500}\u{2500}" } else { "\u{251c}\u{2500}\u{2500}" };
        body.append(indent);
        body.append(sym_connector);
        body.append(" ");
        body.append(symbols[j].kind.short_label());
        body.append(" ");
        body.append(symbols[j].name.as_str());
        body.append("\n");
        proof {
            assert(sym_connector@ == connector(j + 1 == symbols@.len()));
            assert(body@ =~= head + symbol_lines(symbols@, j + 1, branch_indent(last_file)));
        }
        j = j + 1;
    }
}

/// `sift map` rendering: directory groups with tree connectors.
pub fn render_map(index: &RepositoryIndex) -> (s: String)
    ensures
        s@ == map_report(index.files_spec(), index.root_spec()),
{
    let files = index.files();
    let root = index.root();
    let ghost fs = files@;
    let ghost rt = root@;
    let mut locs: Vec<(String, String)> = Vec::new();
    let mut i: usize = 0;
    while i < files.len()
        invariant
            fs == files@,
            rt == root@,
            i <= files@.len(),
            locs@.len() == i,
            forall|k: int| 0 <= k < i ==> (#[trigger] locs@[k]).0@ == file_dir(fs, rt, k)
                && locs@[k].1@ == map_name_of(fs[k].path@, rt),
        decreases files@.len() - i,
    {
        locs.push(map_location(files[i].path.as_str(), root));
        i = i + 1;
    }
    let dirs = collect_dirs(&locs, Ghost(fs), Ghost(rt));
    let ghost dv = dirs@.map_values(|d: String| d@);
    let mut body = String::new();
    let mut g: usize = 0;
    while g < dirs.len()
        invariant
            fs == index.files_spec(),
            rt == index.root_spec(),
            locs@.len() == fs.len(),
            forall|k: int| 0 <= k < fs.len() ==> (#[trigger] locs@[k]).0@ == file_dir(fs, rt, k)
                && locs@[k].1@ == map_name_of(fs[k].path@, rt),
            dv == dirs@.map_values(|d: String| d@),
            dv == map_dirs(fs, rt),
            fs == files@,
            g <= dirs@.len(),
            body@ == map_groups(fs, rt, dv, g as int),
        decreases dirs@.len() - g,
    {
        let ghost before = body@;
        if g > 0 {
            body.push('\n');
        }
        let dir = &dirs[g];
        proof {
            assert(dir@ == dv[g as int]);
        }
        if dir.as_str().unicode_len() == 0 {
            body.append(".");
        } else {
            body.append(dir.as_str());
        }
        body.append("/\n");
        let members = group_members(&locs, dir, Ghost(fs), Ghost(rt));
        let ghost group = files_in_dir(fs, rt, dir@);
        let ghost head = body@;
        proof {
            reveal_strlit("\n");
            assert(head =~= before + (if g > 0 { "\n"@ } else { seq![] }) + ((if dir@.len() == 0 { "."@ } else { dir@ }) + "/\n"@));
        }
        let mut m: usize = 0;
        while m < members.len()
            invariant
                locs@.len() == fs.len(),
                forall|k: int| 0 <= k < fs.len() ==> (#[trigger] locs@[k]).0@ == file_dir(fs, rt, k)
                    && locs@[k].1@ == map_name_of(fs[k].path@, rt),
                fs == files@,
                forall|k: int| 0 <= k < members@.len() ==> members@[k] < fs.len(),
                Seq::new(members@.len(), |k: int| fs[members@[k] as int]) == group,
                m <= members@.len(),
                body@ == head + file_entries(group, rt, m as int),
            decreases members@.len() - m,
        {
            let idx = members[m];
            let last_file = m + 1 == members.len();
            proof {
                assert(group[m as int] == fs[idx as int]);
                assert(group.len() == members@.len());
            }
            if last_file {
                body.append("\u{2514}\u{2500}\u{2500}");
            } else {
                body.append("\u{251c}\u{2500}\u{2500}");
            }
            body.append(" ");
            body.append(locs[idx].1.as_str());
            body.append("\n");
            push_symbol_lines(&mut body, &files[idx].symbols, last_file);
            proof {
                assert(body@ =~= head + file_entries(group, rt, m + 1));
            }
            m = m + 1;
        }
        proof {
            assert(group.len() == members@.len());
            assert(group_text(fs, rt, dv[g as int]) =~= (if dir@.len() == 0 { "."@ } else { dir@ }) + "/\n"@
                + file_entries(group, rt, group.len() as int));
            assert(body@ =~= before + (if g > 0 { "\n"@ } else { seq![] }) + group_text(fs, rt, dv[g as int]));
            assert(map_groups(fs, rt, dv, g + 1) == map_groups(fs, rt, dv, g as int) + (if g + 1 > 1 { "\n"@ } else { seq![] }) + group_text(fs, rt, dv[g as int]));
        }
        g = g + 1;
    }
    proof {
        assert(dv.len() == dirs@.len());
    }
    body
}

} // verus!
