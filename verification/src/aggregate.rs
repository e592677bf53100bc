//! Gathering the per-file results into what the import graph, the
//! conventions and the report read: the totals of the tree and of each
//! language, the files with their measurements and languages, the import
//! and export lists, and the notes and findings of every file.
use vstd::prelude::*;
use crate::analyzer::FileAnalysis;
use crate::duplicates::{
    duplicate_groups, file_hashes, group_duplicates, group_view, hashed_views, push_file_hashes,
    DuplicateGroup, HashedFunction,
};
use crate::depgraph::{
    build_dep_graph, dead_code_of, detect_dead_code, distinct_paths, graph_fits, graph_of, DeadCode,
    DepGraph, FileEntry,
};
use crate::formatter::{compact_report, format_compact, AggregatedStats, LangStats};
use crate::git::GitContext;
use crate::locations::KeyLocations;
use crate::models::DataLayer;
use crate::issues::long_function_count;
use crate::features::features_fit;
use crate::patterns::patterns_fit;
use crate::integration::{io_fits, urls_cuttable};
use crate::overview::{labels_defined, shares_fit, Shares};
use crate::scanner::{DevNote, ScanResults, SecurityIssue, TestMap};
use crate::text::{chars_of_all, eq_chars, chars_of, strings_of, strs};

verus! {

/// One analysed file: its path, its language, what the syntax-tree pass
/// measured and what the scan found.
pub type AnalysisRow = (String, String, FileAnalysis, ScanResults);

/// What the analysed files add up to.
pub struct Aggregate {
    pub stats: AggregatedStats,
    /// Each file with its measurements, in the order of the rows.
    pub file_metrics: Vec<(String, FileAnalysis)>,
    /// Each file with its language, in the order of the rows.
    pub file_languages: Vec<(String, String)>,
    /// Each file with its import specifiers and exported names.
    pub dep_data: Vec<FileEntry>,
    /// The notes and findings of all files, file after file.
    pub scans: ScanResults,
    /// The functions that share a body hash with another, by hash.
    pub duplicates: Vec<DuplicateGroup>,
}

// ---------------------------------------------------------------------------
// What the rows add up to
// ---------------------------------------------------------------------------

/// Files, lines, functions, classes and complexity of the language `l` over
/// the first `k` rows.
pub open spec fn lang_upto(rs: Seq<AnalysisRow>, k: int, l: Seq<char>) -> (nat, nat, nat, nat, nat)
    decreases k,
{
    if k <= 0 {
        (0, 0, 0, 0, 0)
    } else {
        let p = lang_upto(rs, k - 1, l);
        let s = rs[k - 1].2.stats;
        if rs[k - 1].1@ == l {
            (
                p.0 + 1,
                p.1 + s.lines as nat,
                p.2 + s.functions as nat,
                p.3 + s.classes as nat,
                p.4 + s.complexity as nat,
            )
        } else {
            p
        }
    }
}

/// The lines of the first `k` rows.
pub open spec fn lines_upto(rs: Seq<AnalysisRow>, k: int) -> nat
    decreases k,
{
    if k <= 0 {
        0
    } else {
        lines_upto(rs, k - 1) + rs[k - 1].2.stats.lines as nat
    }
}

/// The languages of the first `k` rows, each once, in order of first
/// appearance.
pub open spec fn langs_upto(rs: Seq<AnalysisRow>, k: int) -> Seq<Seq<char>>
    decreases k,
{
    if k <= 0 {
        Seq::empty()
    } else {
        let p = langs_upto(rs, k - 1);
        if p.contains(rs[k - 1].1@) {
            p
        } else {
            p.push(rs[k - 1].1@)
        }
    }
}

pub open spec fn lang_stats_view(s: LangStats) -> (nat, nat, nat, nat, nat) {
    (s.files as nat, s.lines as nat, s.functions as nat, s.classes as nat, s.complexity as nat)
}

/// `bl` holds each language of the first `k` rows, in order of first
/// appearance, with its totals.
pub open spec fn languages_total(bl: Seq<(String, LangStats)>, rs: Seq<AnalysisRow>, k: int) -> bool {
    &&& bl.len() == langs_upto(rs, k).len()
    &&& forall|i: int|
        0 <= i < bl.len() ==> (#[trigger] bl[i]).0@ == langs_upto(rs, k)[i] && lang_stats_view(
            bl[i].1,
        ) == lang_upto(rs, k, langs_upto(rs, k)[i])
}

/// The to-do notes of the first `k` rows, file after file.
pub open spec fn todos_upto(rs: Seq<AnalysisRow>, k: int) -> Seq<DevNote>
    decreases k,
{
    if k <= 0 {
        Seq::empty()
    } else {
        todos_upto(rs, k - 1) + rs[k - 1].3.todos@
    }
}

/// The fix-me notes of the first `k` rows, file after file.
pub open spec fn fixmes_upto(rs: Seq<AnalysisRow>, k: int) -> Seq<DevNote>
    decreases k,
{
    if k <= 0 {
        Seq::empty()
    } else {
        fixmes_upto(rs, k - 1) + rs[k - 1].3.fixmes@
    }
}

/// The hack notes of the first `k` rows, file after file.
pub open spec fn hacks_upto(rs: Seq<AnalysisRow>, k: int) -> Seq<DevNote>
    decreases k,
{
    if k <= 0 {
        Seq::empty()
    } else {
        hacks_upto(rs, k - 1) + rs[k - 1].3.hacks@
    }
}

/// The security findings of the first `k` rows, file after file.
pub open spec fn security_upto(rs: Seq<AnalysisRow>, k: int) -> Seq<SecurityIssue>
    decreases k,
{
    if k <= 0 {
        Seq::empty()
    } else {
        security_upto(rs, k - 1) + rs[k - 1].3.security@
    }
}

/// The functions of the first `k` rows, by hash, path and signature.
pub open spec fn hashed_upto(rs: Seq<AnalysisRow>, k: int) -> Seq<(Seq<char>, (Seq<char>, Seq<char>))>
    decreases k,
{
    if k <= 0 {
        Seq::empty()
    } else {
        hashed_upto(rs, k - 1) + file_hashes(rs[k - 1].0@, rs[k - 1].2.func_hashes@)
    }
}

/// The totals fit the report's 32-bit counters: the number of files, the
/// lines, and each language's functions, classes and complexity.
pub open spec fn totals_fit(rs: Seq<AnalysisRow>) -> bool {
    &&& rs.len() <= u32::MAX
    &&& lines_upto(rs, rs.len() as int) <= u32::MAX
    &&& forall|l: Seq<char>|
        {
            let t = #[trigger] lang_upto(rs, rs.len() as int, l);
            t.2 <= u32::MAX && t.3 <= u32::MAX && t.4 <= u32::MAX
        }
}

/// What `a` holds for the rows `rs`.
pub open spec fn aggregates(a: Aggregate, rs: Seq<AnalysisRow>) -> bool {
    let n = rs.len() as int;
    &&& a.stats.files == rs.len()
    &&& a.stats.total_lines == lines_upto(rs, n)
    &&& languages_total(a.stats.by_language@, rs, n)
    &&& a.file_metrics@.len() == rs.len()
    &&& forall|i: int|
        0 <= i < n ==> (#[trigger] a.file_metrics@[i]).0 == rs[i].0 && a.file_metrics@[i].1
            == rs[i].2
    &&& a.file_languages@.len() == rs.len()
    &&& forall|i: int|
        0 <= i < n ==> (#[trigger] a.file_languages@[i]).0@ == rs[i].0@ && a.file_languages@[i].1
            == rs[i].1
    &&& a.dep_data@.len() == rs.len()
    &&& forall|i: int|
        0 <= i < n ==> (#[trigger] a.dep_data@[i]).0@ == rs[i].0@ && strs(a.dep_data@[i].1.0@)
            == strs(rs[i].2.import_paths@) && strs(a.dep_data@[i].1.1@) == strs(
            rs[i].2.exported_names@,
        )
    &&& a.scans.todos@ == todos_upto(rs, n)
    &&& a.scans.fixmes@ == fixmes_upto(rs, n)
    &&& a.scans.hacks@ == hacks_upto(rs, n)
    &&& a.scans.security@ == security_upto(rs, n)
    &&& duplicate_groups(
        hashed_upto(rs, n),
        a.duplicates@.map_values(|g: DuplicateGroup| group_view(g)),
    )
}

// ---------------------------------------------------------------------------
// Facts about the totals
// ---------------------------------------------------------------------------

proof fn lemma_lang_mono(rs: Seq<AnalysisRow>, k: int, m: int, l: Seq<char>)
    requires
        0 <= k <= m,
    ensures
        lang_upto(rs, k, l).0 <= lang_upto(rs, m, l).0,
        lang_upto(rs, k, l).1 <= lang_upto(rs, m, l).1,
        lang_upto(rs, k, l).2 <= lang_upto(rs, m, l).2,
        lang_upto(rs, k, l).3 <= lang_upto(rs, m, l).3,
        lang_upto(rs, k, l).4 <= lang_upto(rs, m, l).4,
    decreases m,
{
    if k < m {
        lemma_lang_mono(rs, k, m - 1, l);
    }
}

proof fn lemma_lines_mono(rs: Seq<AnalysisRow>, k: int, m: int)
    requires
        0 <= k <= m,
    ensures
        lines_upto(rs, k) <= lines_upto(rs, m),
    decreases m,
{
    if k < m {
        lemma_lines_mono(rs, k, m - 1);
    }
}

proof fn lemma_lang_within(rs: Seq<AnalysisRow>, k: int, l: Seq<char>)
    requires
        0 <= k,
    ensures
        lang_upto(rs, k, l).0 <= k,
        lang_upto(rs, k, l).1 <= lines_upto(rs, k),
    decreases k,
{
    if k > 0 {
        lemma_lang_within(rs, k - 1, l);
    }
}

proof fn lemma_langs_distinct(rs: Seq<AnalysisRow>, k: int)
    ensures
        langs_upto(rs, k).no_duplicates(),
    decreases k,
{
    if k > 0 {
        lemma_langs_distinct(rs, k - 1);
    }
}

proof fn lemma_unseen_language(rs: Seq<AnalysisRow>, k: int, l: Seq<char>)
    requires
        0 <= k,
        !langs_upto(rs, k).contains(l),
    ensures
        lang_upto(rs, k, l) == (0nat, 0nat, 0nat, 0nat, 0nat),
    decreases k,
{
    if k > 0 {
        let p = langs_upto(rs, k - 1);
        if p.contains(l) {
            let j = choose|j: int| 0 <= j < p.len() && p[j] == l;
            if !p.contains(rs[k - 1].1@) {
                assert(langs_upto(rs, k)[j] == l);
            }
        }
        if rs[k - 1].1@ == l {
            if !p.contains(l) {
                assert(langs_upto(rs, k)[p.len() as int] == l);
            }
        }
        lemma_unseen_language(rs, k - 1, l);
    }
}

// ---------------------------------------------------------------------------
// The languages add up to the tree
// ---------------------------------------------------------------------------

/// Component `f` of a language total: files (0), lines (1), functions (2),
/// classes (3) or complexity (otherwise).
pub open spec fn part(t: (nat, nat, nat, nat, nat), f: int) -> nat {
    if f == 0 {
        t.0
    } else if f == 1 {
        t.1
    } else if f == 2 {
        t.2
    } else if f == 3 {
        t.3
    } else {
        t.4
    }
}

/// What one row adds to component `f`.
pub open spec fn row_part(r: AnalysisRow, f: int) -> nat {
    if f == 0 {
        1
    } else if f == 1 {
        r.2.stats.lines as nat
    } else if f == 2 {
        r.2.stats.functions as nat
    } else if f == 3 {
        r.2.stats.classes as nat
    } else {
        r.2.stats.complexity as nat
    }
}

/// Component `f` summed over the first `k` rows.
pub open spec fn rows_sum(rs: Seq<AnalysisRow>, k: int, f: int) -> nat
    decreases k,
{
    if k <= 0 {
        0
    } else {
        rows_sum(rs, k - 1, f) + row_part(rs[k - 1], f)
    }
}

/// Component `f` summed over the language totals `bl`.
pub open spec fn languages_sum(bl: Seq<(String, LangStats)>, f: int) -> nat
    decreases bl.len(),
{
    if bl.len() == 0 {
        0
    } else {
        languages_sum(bl.drop_last(), f) + part(lang_stats_view(bl.last().1), f)
    }
}

/// Component `f` of the first `k` rows, summed over the languages `ls`.
spec fn sum_over(rs: Seq<AnalysisRow>, k: int, ls: Seq<Seq<char>>, f: int) -> nat
    decreases ls.len(),
{
    if ls.len() == 0 {
        0
    } else {
        sum_over(rs, k, ls.drop_last(), f) + part(lang_upto(rs, k, ls.last()), f)
    }
}

proof fn lemma_sum_over_step(rs: Seq<AnalysisRow>, k: int, ls: Seq<Seq<char>>, f: int)
    requires
        0 < k <= rs.len(),
        ls.no_duplicates(),
    ensures
        sum_over(rs, k, ls, f) == sum_over(rs, k - 1, ls, f) + (if ls.contains(rs[k - 1].1@) {
            row_part(rs[k - 1], f)
        } else {
            0
        }),
    decreases ls.len(),
{
    if ls.len() > 0 {
        let rest = ls.drop_last();
        assert(rest.no_duplicates());
        lemma_sum_over_step(rs, k, rest, f);
        if ls.last() == rs[k - 1].1@ {
            assert(!rest.contains(rs[k - 1].1@));
        }
        if rest.contains(rs[k - 1].1@) {
            assert(ls.contains(rs[k - 1].1@)) by {
                let j = choose|j: int| 0 <= j < rest.len() && rest[j] == rs[k - 1].1@;
                assert(ls[j] == rest[j]);
            }
        }
        if ls.contains(rs[k - 1].1@) && !rest.contains(rs[k - 1].1@) {
            let j = choose|j: int| 0 <= j < ls.len() && ls[j] == rs[k - 1].1@;
            if j < rest.len() {
                assert(rest[j] == ls[j]);
            }
        }
    }
}

proof fn lemma_sum_over_push(rs: Seq<AnalysisRow>, k: int, ls: Seq<Seq<char>>, l: Seq<char>, f: int)
    ensures
        sum_over(rs, k, ls.push(l), f) == sum_over(rs, k, ls, f) + part(lang_upto(rs, k, l), f),
{
    assert(ls.push(l).drop_last() =~= ls);
}

/// The languages of the first `k` rows add up to those rows.
proof fn lemma_languages_cover(rs: Seq<AnalysisRow>, k: int, f: int)
    requires
        0 <= k <= rs.len(),
    ensures
        sum_over(rs, k, langs_upto(rs, k), f) == rows_sum(rs, k, f),
    decreases k,
{
    if k > 0 {
        lemma_languages_cover(rs, k - 1, f);
        let p = langs_upto(rs, k - 1);
        let l = rs[k - 1].1@;
        lemma_langs_distinct(rs, k - 1);
        lemma_langs_distinct(rs, k);
        if p.contains(l) {
            lemma_sum_over_step(rs, k, p, f);
        } else {
            lemma_sum_over_step(rs, k, p, f);
            lemma_sum_over_push(rs, k, p, l, f);
            lemma_unseen_language(rs, k - 1, l);
        }
    }
}

proof fn lemma_languages_sum_matches(bl: Seq<(String, LangStats)>, rs: Seq<AnalysisRow>, k: int, f: int)
    requires
        languages_total(bl, rs, k),
    ensures
        languages_sum(bl, f) == sum_over(rs, k, langs_upto(rs, k), f),
{
    let ls = langs_upto(rs, k);
    assert forall|j: int| 0 <= j <= bl.len() implies languages_sum(bl.take(j), f) == sum_over(
        rs,
        k,
        ls.take(j),
        f,
    ) by {
        lemma_prefix_sums(bl, rs, k, f, j);
    }
    assert(bl.take(bl.len() as int) =~= bl);
    assert(ls.take(ls.len() as int) =~= ls);
}

proof fn lemma_prefix_sums(bl: Seq<(String, LangStats)>, rs: Seq<AnalysisRow>, k: int, f: int, j: int)
    requires
        languages_total(bl, rs, k),
        0 <= j <= bl.len(),
    ensures
        languages_sum(bl.take(j), f) == sum_over(rs, k, langs_upto(rs, k).take(j), f),
    decreases j,
{
    let ls = langs_upto(rs, k);
    if j > 0 {
        lemma_prefix_sums(bl, rs, k, f, j - 1);
        assert(bl.take(j).drop_last() =~= bl.take(j - 1));
        assert(ls.take(j).drop_last() =~= ls.take(j - 1));
        assert(bl.take(j).last() == bl[j - 1]);
        assert(ls.take(j).last() == ls[j - 1]);
        assert(bl[j - 1].0@ == ls[j - 1]);
    }
}

/// The language totals add up to the tree: their files, lines, functions,
/// classes and complexity sum to those of all the files.
pub proof fn lemma_languages_add_up(a: Aggregate, rs: Seq<AnalysisRow>, f: int)
    requires
        aggregates(a, rs),
    ensures
        languages_sum(a.stats.by_language@, f) == rows_sum(rs, rs.len() as int, f),
        a.stats.files == rows_sum(rs, rs.len() as int, 0),
        a.stats.total_lines == rows_sum(rs, rs.len() as int, 1),
{
    let n = rs.len() as int;
    lemma_languages_sum_matches(a.stats.by_language@, rs, n, f);
    lemma_languages_cover(rs, n, f);
    lemma_rows_count(rs, n);
    lemma_rows_lines(rs, n);
}

proof fn lemma_rows_count(rs: Seq<AnalysisRow>, k: int)
    requires
        0 <= k,
    ensures
        rows_sum(rs, k, 0) == k,
    decreases k,
{
    if k > 0 {
        lemma_rows_count(rs, k - 1);
    }
}

proof fn lemma_rows_lines(rs: Seq<AnalysisRow>, k: int)
    ensures
        rows_sum(rs, k, 1) == lines_upto(rs, k),
    decreases k,
{
    if k > 0 {
        lemma_rows_lines(rs, k - 1);
    }
}

// ---------------------------------------------------------------------------
// Building the aggregate
// ---------------------------------------------------------------------------

/// The items of `v` in reverse order.
fn reversed<T>(v: Vec<T>) -> (r: Vec<T>)
    ensures
        r@.len() == v@.len(),
        forall|j: int| 0 <= j < v@.len() ==> #[trigger] r@[j] == v@[v@.len() - 1 - j],
{
    let ghost s = v@;
    let mut v = v;
    let mut r: Vec<T> = Vec::new();
    while v.len() > 0
        invariant
            v@.len() <= s.len(),
            v@ == s.take(v@.len() as int),
            r@.len() == s.len() - v@.len(),
            forall|j: int| 0 <= j < r@.len() ==> #[trigger] r@[j] == s[s.len() - 1 - j],
        decreases v@.len(),
    {
        let ghost before = r@;
        let ghost vl = v@.len();
        let x = v.pop().unwrap();
        r.push(x);
        assert(v@ =~= s.take(v@.len() as int));
        assert forall|j: int| 0 <= j < r@.len() implies #[trigger] r@[j] == s[s.len() - 1 - j] by {
            if j < before.len() {
                assert(r@[j] == before[j]);
            }
        }
    }
    r
}

/// A copy of a list of strings.
fn copy_strings(v: &Vec<String>) -> (r: Vec<String>)
    ensures
        strs(r@) == strs(v@),
{
    strings_of(&chars_of_all(v))
}

/// The position of the language `name` in `bl`, if it is there.
fn language_slot(bl: &Vec<(String, LangStats)>, name: &str) -> (r: Option<usize>)
    ensures
        match r {
            Some(j) => j < bl@.len() && bl@[j as int].0@ == name@,
            None => forall|i: int| 0 <= i < bl@.len() ==> (#[trigger] bl@[i]).0@ != name@,
        },
{
    let key = chars_of(name);
    let n = bl.len();
    for i in 0..n
        invariant
            n == bl@.len(),
            key@ == name@,
            forall|q: int| 0 <= q < i ==> (#[trigger] bl@[q]).0@ != name@,
    {
        let c = chars_of(bl[i].0.as_str());
        if eq_chars(c.as_slice(), key.as_slice()) {
            return Some(i);
        }
    }
    None
}

/// Adds up the analysed files: the number of files and lines, the totals
/// of each language in order of first appearance, each file with its
/// measurements, its language and its import and export lists, the notes
/// and findings of all files in the order of the rows, and the groups of
/// functions that share a body hash.
pub fn aggregate(results: Vec<AnalysisRow>) -> (a: Aggregate)
    requires
        totals_fit(results@),
    ensures
        aggregates(a, results@),
{
    let ghost rs = results@;
    let ghost n = rs.len() as int;
    let mut rows = reversed(results);
    let mut stats = AggregatedStats { files: 0, total_lines: 0, by_language: Vec::new() };
    let mut file_metrics: Vec<(String, FileAnalysis)> = Vec::new();
    let mut file_languages: Vec<(String, String)> = Vec::new();
    let mut dep_data: Vec<FileEntry> = Vec::new();
    let mut todos: Vec<DevNote> = Vec::new();
    let mut fixmes: Vec<DevNote> = Vec::new();
    let mut hacks: Vec<DevNote> = Vec::new();
    let mut security: Vec<SecurityIssue> = Vec::new();
    let mut hashed: Vec<HashedFunction> = Vec::new();
    while rows.len() > 0
        invariant
            n == rs.len(),
            totals_fit(rs),
            rows@.len() <= n,
            forall|j: int| 0 <= j < rows@.len() ==> #[trigger] rows@[j] == rs[n - 1 - j],
            stats.files == n - rows@.len(),
            stats.total_lines == lines_upto(rs, n - rows@.len()),
            languages_total(stats.by_language@, rs, n - rows@.len()),
            file_metrics@.len() == n - rows@.len(),
            forall|i: int|
                0 <= i < file_metrics@.len() ==> (#[trigger] file_metrics@[i]).0 == rs[i].0
                    && file_metrics@[i].1 == rs[i].2,
            file_languages@.len() == n - rows@.len(),
            forall|i: int|
                0 <= i < file_languages@.len() ==> (#[trigger] file_languages@[i]).0@ == rs[i].0@
                    && file_languages@[i].1 == rs[i].1,
            dep_data@.len() == n - rows@.len(),
            forall|i: int|
                0 <= i < dep_data@.len() ==> (#[trigger] dep_data@[i]).0@ == rs[i].0@ && strs(
                    dep_data@[i].1.0@,
                ) == strs(rs[i].2.import_paths@) && strs(dep_data@[i].1.1@) == strs(
                    rs[i].2.exported_names@,
                ),
            todos@ == todos_upto(rs, n - rows@.len()),
            fixmes@ == fixmes_upto(rs, n - rows@.len()),
            hacks@ == hacks_upto(rs, n - rows@.len()),
            security@ == security_upto(rs, n - rows@.len()),
            hashed_views(hashed@) == hashed_upto(rs, n - rows@.len()),
        decreases rows@.len(),
    {
        let ghost k = n - rows@.len();
        let ghost rest = rows@;
        let row = rows.pop().unwrap();
        assert(row == rs[k]) by {
            assert(rest[rest.len() - 1] == rs[n - 1 - (rest.len() - 1)]);
        }
        assert forall|j: int| 0 <= j < rows@.len() implies #[trigger] rows@[j] == rs[n - 1 - j] by {
            assert(rows@[j] == rest[j]);
        }
        let (path, lang, analysis, scan) = row;
        let ghost r = rs[k];
        proof {
            lemma_lines_mono(rs, k + 1, n);
            lemma_lang_within(rs, k + 1, lang@);
            lemma_lang_mono(rs, k + 1, n, lang@);
            let t = lang_upto(rs, n, lang@);
            assert(t.2 <= u32::MAX && t.3 <= u32::MAX && t.4 <= u32::MAX);
        }
        stats.files = stats.files + 1;
        stats.total_lines = stats.total_lines + analysis.stats.lines;
        let ghost old_bl = stats.by_language@;
        let ghost old_langs = langs_upto(rs, k);
        match language_slot(&stats.by_language, lang.as_str()) {
            Some(j) => {
                let old = &stats.by_language[j].1;
                let updated = LangStats {
                    files: old.files + 1,
                    lines: old.lines + analysis.stats.lines,
                    functions: old.functions + analysis.stats.functions,
                    classes: old.classes + analysis.stats.classes,
                    complexity: old.complexity + analysis.stats.complexity,
                };
                let name = stats.by_language[j].0.clone();
                assert(name@ == old_bl[j as int].0@);
                stats.by_language.set(j, (name, updated));
                proof {
                    lemma_langs_distinct(rs, k);
                    assert(lang@ == r.1@);
                    assert(old_langs.contains(lang@)) by {
                        assert(old_langs[j as int] == lang@);
                    }
                    assert(langs_upto(rs, k + 1) == old_langs);
                    assert forall|i: int| 0 <= i < stats.by_language@.len() implies
                        (#[trigger] stats.by_language@[i]).0@ == langs_upto(rs, k + 1)[i]
                        && lang_stats_view(stats.by_language@[i].1) == lang_upto(
                            rs,
                            k + 1,
                            langs_upto(rs, k + 1)[i],
                        ) by {
                        assert(old_bl[i].0@ == old_langs[i]);
                        if i != j {
                            assert(stats.by_language@[i] == old_bl[i]);
                            assert(old_langs[i] != old_langs[j as int]);
                            assert(lang_upto(rs, k + 1, old_langs[i]) == lang_upto(rs, k, old_langs[i]));
                        } else {
                            assert(old_bl[j as int].0@ == old_langs[j as int]);
                            assert(old_langs[j as int] == lang@);
                        }
                    }
                }
            },
            None => {
                proof {
                    assert(!old_langs.contains(lang@)) by {
                        if old_langs.contains(lang@) {
                            let q = choose|q: int| 0 <= q < old_langs.len() && old_langs[q] == lang@;
                            assert(old_bl[q].0@ == old_langs[q]);
                        }
                    }
                    lemma_unseen_language(rs, k, lang@);
                }
                let fresh = LangStats {
                    files: 1,
                    lines: analysis.stats.lines,
                    functions: analysis.stats.functions,
                    classes: analysis.stats.classes,
                    complexity: analysis.stats.complexity,
                };
                let lang_copy = lang.clone();
                assert(lang_copy@ == lang@);
                stats.by_language.push((lang_copy, fresh));
                proof {
                    assert(lang@ == r.1@);
                    let nb = stats.by_language@;
                    assert(nb[old_bl.len() as int].0@ == lang@);
                    assert(lang_upto(rs, k + 1, lang@) == lang_stats_view(nb[old_bl.len() as int].1));
                    assert(langs_upto(rs, k + 1) == old_langs.push(lang@));
                    assert forall|i: int| 0 <= i < stats.by_language@.len() implies
                        (#[trigger] stats.by_language@[i]).0@ == langs_upto(rs, k + 1)[i]
                        && lang_stats_view(stats.by_language@[i].1) == lang_upto(
                            rs,
                            k + 1,
                            langs_upto(rs, k + 1)[i],
                        ) by {
                        if i < old_bl.len() {
                            assert(stats.by_language@[i] == old_bl[i]);
                            assert(old_bl[i].0@ == old_langs[i]);
                            assert(old_langs[i] != lang@) by {
                                assert(old_langs.contains(old_langs[i]));
                            }
                            assert(langs_upto(rs, k + 1)[i] == old_langs[i]);
                            assert(lang_upto(rs, k + 1, old_langs[i]) == lang_upto(rs, k, old_langs[i]));
                        } else {
                            assert(i == old_bl.len());
                            assert(langs_upto(rs, k + 1)[i] == lang@);
                        }
                    }
                }
            },
        }
        let entry: FileEntry = (
            path.clone(),
            (copy_strings(&analysis.import_paths), copy_strings(&analysis.exported_names)),
        );
        dep_data.push(entry);
        push_file_hashes(&mut hashed, &path, &analysis.func_hashes);
        file_languages.push((path.clone(), lang));
        let ScanResults { todos: mut t, fixmes: mut f, hacks: mut h, security: mut s } = scan;
        todos.append(&mut t);
        fixmes.append(&mut f);
        hacks.append(&mut h);
        security.append(&mut s);
        file_metrics.push((path, analysis));
        proof {
            assert(todos_upto(rs, k + 1) == todos_upto(rs, k) + r.3.todos@);
            assert(fixmes_upto(rs, k + 1) == fixmes_upto(rs, k) + r.3.fixmes@);
            assert(hacks_upto(rs, k + 1) == hacks_upto(rs, k) + r.3.hacks@);
            assert(security_upto(rs, k + 1) == security_upto(rs, k) + r.3.security@);
        }
    }
    let duplicates = group_duplicates(&hashed);
    Aggregate {
        duplicates,
        stats,
        file_metrics,
        file_languages,
        dep_data,
        scans: ScanResults { todos, fixmes, hacks, security },
    }
}

/// The import graph of the analysed files, what looks dead in it, and the
/// compact report.
pub struct Assembled {
    pub graph: DepGraph,
    pub dead_code: DeadCode,
    pub text: String,
}

/// Builds the import graph of the aggregate, finds what looks dead in it
/// and renders the compact report; `frameworks` and `go_modules` are what
/// the project declares, and `shares` the quotients the report shows.
pub fn assemble_report(
    a: &Aggregate,
    frameworks: &Vec<String>,
    go_modules: &Vec<String>,
    git: &GitContext,
    test_map: &TestMap,
    data_layer: &DataLayer,
    key_locations: &KeyLocations,
    shares: &Shares,
) -> (r: Assembled)
    requires
        distinct_paths(a.dep_data@),
        graph_fits(a.dep_data@),
        shares_fit(a.stats, *test_map, *shares),
        labels_defined(a.stats),
        long_function_count(a.file_metrics@) <= u64::MAX,
        io_fits(a.file_metrics@),
        urls_cuttable(a.file_metrics@),
        features_fit(a.file_metrics@),
        patterns_fit(a.file_metrics@),
    ensures
        graph_of(r.graph, a.dep_data@),
        dead_code_of(r.dead_code, r.graph),
        r.text@ == compact_report(
            a.stats,
            a.file_metrics@,
            strs(frameworks@),
            strs(go_modules@),
            r.graph,
            r.dead_code,
            a.duplicates@,
            *git,
            a.scans,
            *test_map,
            *data_layer,
            *key_locations,
            *shares,
        ),
{
    let graph = build_dep_graph(&a.dep_data);
    let dead_code = detect_dead_code(&graph);
    let text = format_compact(
        &a.stats,
        &a.file_metrics,
        frameworks,
        go_modules,
        &graph,
        &dead_code,
        &a.duplicates,
        git,
        &a.scans,
        test_map,
        data_layer,
        key_locations,
        shares,
    );
    Assembled { graph, dead_code, text }
}

} // verus!
