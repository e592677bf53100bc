//! The top of the compact report and its file index: the header line
//! with the totals of the tree, the legend, the share of each main
//! language, and one line for each of the largest files.
use vstd::prelude::*;
use crate::analyzer::{FileAnalysis, FuncInfo};
use crate::depgraph::DepGraph;
use crate::formatter::{
    build_flags, file_flags, file_name_chars, file_name_of, join, listing, put, put_chars,
    put_listing, put_num, put_str, line_keys, percent_fits, AggregatedStats, LangStats,
};
use crate::lang::{abbrev, abbrev_defined, lang_abbrev};
use crate::ranking::{first_positions, order_desc, rank_desc};
use crate::scanner::TestMap;
use crate::text::{chars_of_all, decimal, string_of, strs, views};

verus! {

/// The numbers of the report that come from floating-point division, as
/// the caller computed them: the lines in tenths of a thousand, the mean
/// complexity per function in tenths, the percentage of the lines in each
/// language (one per entry of the language totals) and the percentage of
/// test files to source files.
pub struct Shares {
    pub lines_k_tenths: u64,
    pub complexity_tenths: u64,
    pub language_percents: Vec<u32>,
    pub test_percent: u32,
}

/// The sum of the functions (`f == 0`), classes (`f == 1`) or complexity
/// (otherwise) of the first `k` language totals.
pub open spec fn field_sum(bl: Seq<(String, LangStats)>, k: int, f: int) -> nat
    decreases k,
{
    if k <= 0 {
        0
    } else {
        field_sum(bl, k - 1, f) + (if f == 0 {
            bl[k - 1].1.functions as nat
        } else if f == 1 {
            bl[k - 1].1.classes as nat
        } else {
            bl[k - 1].1.complexity as nat
        })
    }
}

/// The functions of the tree.
pub open spec fn total_functions(stats: AggregatedStats) -> nat {
    field_sum(stats.by_language@, stats.by_language@.len() as int, 0)
}

/// The classes of the tree.
pub open spec fn total_classes(stats: AggregatedStats) -> nat {
    field_sum(stats.by_language@, stats.by_language@.len() as int, 1)
}

/// The summed complexity of the tree.
pub open spec fn total_complexity(stats: AggregatedStats) -> nat {
    field_sum(stats.by_language@, stats.by_language@.len() as int, 2)
}

/// The shares fit the totals: each is the rounded or truncated quotient
/// that it stands for, and the sums over the languages fit 32 bits.
pub open spec fn shares_fit(stats: AggregatedStats, t: TestMap, sh: Shares) -> bool {
    let bl = stats.by_language@;
    let lines = stats.total_lines as nat;
    let fns = total_functions(stats);
    &&& total_functions(stats) <= u32::MAX
    &&& total_classes(stats) <= u32::MAX
    &&& total_complexity(stats) <= u32::MAX
    &&& lines >= 1000 ==> sh.lines_k_tenths * 100 <= lines + 50 && lines <= sh.lines_k_tenths
        * 100 + 50
    &&& fns > 0 ==> 2 * sh.complexity_tenths * fns <= 20 * total_complexity(stats) + fns && 20
        * total_complexity(stats) <= 2 * sh.complexity_tenths * fns + fns
    &&& sh.language_percents@.len() == bl.len()
    &&& forall|i: int|
        0 <= i < bl.len() ==> percent_fits(
            bl[i].1.lines as nat,
            lines,
            #[trigger] sh.language_percents@[i],
        )
    &&& percent_fits(t.test_count as nat, t.source_count as nat, sh.test_percent)
}

/// Every language name of the totals has a short label.
pub open spec fn labels_defined(stats: AggregatedStats) -> bool {
    forall|i: int|
        0 <= i < stats.by_language@.len() ==> abbrev_defined(
            (#[trigger] stats.by_language@[i]).0@,
        )
}

// ---------------------------------------------------------------------------
// Header
// ---------------------------------------------------------------------------

/// `t` tenths as a decimal number with one decimal place.
pub open spec fn tenths_text(t: nat) -> Seq<char> {
    decimal(t / 10) + "."@ + decimal(t % 10)
}

/// A line count: in thousands with one decimal place and a `k` from a
/// thousand on, else as it is.
pub open spec fn lines_text(n: u32, k_tenths: u64) -> Seq<char> {
    if n >= 1000 {
        tenths_text(k_tenths as nat) + "k"@
    } else {
        decimal(n as nat)
    }
}

/// The legend under the header.
pub open spec fn legend() -> Seq<char> {
    "Legend: f=files L=lines fn=functions cls=classes cx=avg-complexity | file:line:name(NL)=location Np=params | ↑N=imports-from ↓N=imported-by (N)=occurrences (+N)=more | [circular] [isolated] [complex] [large]=file flags\n\n"@
}

/// The header: files, lines, functions, classes and the mean complexity
/// per function (`0` without functions), then the legend.
pub open spec fn header_section(stats: AggregatedStats, sh: Shares) -> Seq<char> {
    let fns = total_functions(stats);
    decimal(stats.files as nat) + "f "@ + lines_text(stats.total_lines, sh.lines_k_tenths)
        + "L "@ + decimal(fns) + "fn "@ + decimal(total_classes(stats)) + "cls cx"@ + (if fns > 0 {
        tenths_text(sh.complexity_tenths as nat)
    } else {
        "0"@
    }) + "\n"@ + legend()
}

/// The languages line: the four languages with the most lines, most first,
/// each by its short label with its share of the lines in percent.
pub open spec fn lang_item(stats: AggregatedStats, pct: Seq<u32>, i: usize) -> Seq<char> {
    abbrev(stats.by_language@[i as int].0@) + ":"@ + decimal(
        if stats.total_lines > 0 {
            pct[i as int] as nat
        } else {
            0
        },
    ) + "%"@
}

/// The positions of the four languages with the most lines, most first.
pub open spec fn main_languages(bl: Seq<(String, LangStats)>) -> Seq<usize> {
    first_positions(order_desc(line_keys(bl), bl.len()), 4)
}

pub open spec fn langs_section(stats: AggregatedStats, pct: Seq<u32>) -> Seq<char> {
    "Langs: "@ + join(
        main_languages(stats.by_language@).map_values(|i: usize| lang_item(stats, pct, i)),
        " "@,
    ) + "\n\n"@
}

fn line_keys_exec(bl: &Vec<(String, LangStats)>) -> (keys: Vec<u64>)
    ensures
        keys@ == line_keys(bl@),
{
    let n = bl.len();
    let mut keys: Vec<u64> = Vec::new();
    for i in 0..n
        invariant
            n == bl@.len(),
            keys@ == line_keys(bl@).take(i as int),
    {
        keys.push(bl[i].1.lines as u64);
        assert(keys@ =~= line_keys(bl@).take(i + 1));
    }
    assert(keys@ =~= line_keys(bl@));
    keys
}

/// The sum of one field over the language totals.
fn sum_field(bl: &Vec<(String, LangStats)>, f: u8) -> (r: u64)
    requires
        field_sum(bl@, bl@.len() as int, f as int) <= u32::MAX,
    ensures
        r == field_sum(bl@, bl@.len() as int, f as int),
{
    let n = bl.len();
    let mut acc: u64 = 0;
    for i in 0..n
        invariant
            n == bl@.len(),
            field_sum(bl@, n as int, f as int) <= u32::MAX,
            acc == field_sum(bl@, i as int, f as int),
    {
        proof {
            lemma_field_sum_mono(bl@, i + 1, n as int, f as int);
        }
        let v: u32 = if f == 0 {
            bl[i].1.functions
        } else if f == 1 {
            bl[i].1.classes
        } else {
            bl[i].1.complexity
        };
        acc = acc + v as u64;
    }
    acc
}

proof fn lemma_field_sum_mono(bl: Seq<(String, LangStats)>, k: int, m: int, f: int)
    requires
        0 <= k <= m,
    ensures
        field_sum(bl, k, f) <= field_sum(bl, m, f),
    decreases m,
{
    if k < m {
        lemma_field_sum_mono(bl, k, m - 1, f);
    }
}

/// Appends `t` tenths with one decimal place.
fn put_tenths(out: &mut Vec<char>, t: u64)
    ensures
        final(out)@ == old(out)@ + tenths_text(t as nat),
{
    put_num(out, t / 10);
    put(out, ".");
    put_num(out, t % 10);
}

/// The header and the legend of the report.
pub fn format_header(stats: &AggregatedStats, shares: &Shares) -> (r: String)
    requires
        total_functions(*stats) <= u32::MAX,
        total_classes(*stats) <= u32::MAX,
    ensures
        r@ == header_section(*stats, *shares),
{
    let bl = &stats.by_language;
    let fns = sum_field(bl, 0);
    let cls = sum_field(bl, 1);
    let mut out: Vec<char> = Vec::new();
    put_num(&mut out, stats.files as u64);
    put(&mut out, "f ");
    if stats.total_lines >= 1000 {
        put_tenths(&mut out, shares.lines_k_tenths);
        put(&mut out, "k");
    } else {
        put_num(&mut out, stats.total_lines as u64);
    }
    put(&mut out, "L ");
    put_num(&mut out, fns);
    put(&mut out, "fn ");
    put_num(&mut out, cls);
    put(&mut out, "cls cx");
    if fns > 0 {
        put_tenths(&mut out, shares.complexity_tenths);
    } else {
        put(&mut out, "0");
    }
    put(&mut out, "\n");
    put(&mut out, "Legend: f=files L=lines fn=functions cls=classes cx=avg-complexity | file:line:name(NL)=location Np=params | ↑N=imports-from ↓N=imported-by (N)=occurrences (+N)=more | [circular] [isolated] [complex] [large]=file flags\n\n");
    assert(out@ =~= header_section(*stats, *shares));
    string_of(out.as_slice())
}

/// The languages line of the report.
pub fn format_langs(stats: &AggregatedStats, shares: &Shares) -> (r: String)
    requires
        labels_defined(*stats),
        shares.language_percents@.len() == stats.by_language@.len(),
    ensures
        r@ == langs_section(*stats, shares.language_percents@),
{
    let bl = &stats.by_language;
    let n = bl.len();
    let keys = line_keys_exec(bl);
    let order = rank_desc(&keys);
    let k: usize = if order.len() <= 4 {
        order.len()
    } else {
        4
    };
    let ghost pct = shares.language_percents@;
    let ghost items = main_languages(bl@).map_values(|i: usize| lang_item(*stats, pct, i));
    assert(main_languages(bl@) =~= order@.take(k as int));
    let mut out: Vec<char> = Vec::new();
    put(&mut out, "Langs: ");
    let ghost s0 = out@;
    assert(items.take(0) =~= Seq::<Seq<char>>::empty());
    for i in 0..k
        invariant
            k <= order@.len(),
            k == items.len(),
            n == bl@.len(),
            bl@ == stats.by_language@,
            pct == shares.language_percents@,
            pct.len() == n,
            labels_defined(*stats),
            items == main_languages(bl@).map_values(|i: usize| lang_item(*stats, pct, i)),
            main_languages(bl@) == order@.take(k as int),
            forall|j: int| 0 <= j < order@.len() ==> (#[trigger] order@[j]) < n,
            out@ == s0 + join(items.take(i as int), " "@),
    {
        let p = order[i];
        assert(order@[i as int] < n);
        assert(items[i as int] == lang_item(*stats, pct, p));
        let ghost before = out@;
        if i > 0 {
            put(&mut out, " ");
        }
        let ghost mid = out@;
        assert(0 <= p < stats.by_language@.len());
        assert(labels_defined(*stats));
        assert(abbrev_defined(stats.by_language@[p as int].0@));
        let label = lang_abbrev(bl[p].0.as_str());
        put_str(&mut out, label);
        put(&mut out, ":");
        let shown: u32 = if stats.total_lines > 0 {
            shares.language_percents[p]
        } else {
            0
        };
        put_num(&mut out, shown as u64);
        put(&mut out, "%");
        assert(out@ =~= mid + lang_item(*stats, pct, p));
        proof {
            let t = items.take(i + 1);
            assert(t.drop_last() =~= items.take(i as int));
            assert(t.last() == items[i as int]);
            if i > 0 {
                assert(join(t, " "@) == join(items.take(i as int), " "@) + " "@ + t.last());
                assert(out@ =~= s0 + join(t, " "@));
            } else {
                assert(join(items.take(i as int), " "@) =~= Seq::<char>::empty());
                assert(join(t, " "@) == t[0]);
                assert(out@ =~= s0 + join(t, " "@));
            }
        }
    }
    assert(items.take(k as int) =~= items);
    put(&mut out, "\n\n");
    string_of(out.as_slice())
}

// ---------------------------------------------------------------------------
// File index
// ---------------------------------------------------------------------------

/// The coupling `(imported by, imports)` of `p`, or none when the graph has
/// no entry for it.
pub open spec fn coupling_at(cp: Seq<(String, (u32, u32))>, p: Seq<char>) -> (u32, u32)
    decreases cp.len(),
{
    if cp.len() == 0 {
        (0, 0)
    } else if cp[0].0@ == p {
        cp[0].1
    } else {
        coupling_at(cp.drop_first(), p)
    }
}

pub open spec fn function_names(fs: Seq<FuncInfo>) -> Seq<Seq<char>> {
    fs.map_values(|f: FuncInfo| f.name@)
}

pub open spec fn function_lengths(fs: Seq<FuncInfo>) -> Seq<u32> {
    fs.map_values(|f: FuncInfo| f.lines)
}

/// How many files a file imports and is imported by, where it has
/// functions or classes.
pub open spec fn links_text(has_code: bool, c: (u32, u32)) -> Seq<char> {
    crate::formatter::when(
        has_code,
        crate::formatter::when(c.1 > 0, " ↑"@ + decimal(c.1 as nat)) + crate::formatter::when(
            c.0 > 0,
            " ↓"@ + decimal(c.0 as nat),
        ),
    )
}

/// The first five function names, with how many more there are.
pub open spec fn function_list_text(names: Seq<Seq<char>>) -> Seq<char> {
    crate::formatter::when(
        names.len() > 0,
        " fn: "@ + listing(names, 5, ", "@) + crate::formatter::when(
            names.len() > 5,
            ", (+"@ + decimal((names.len() - 5) as nat) + ")"@,
        ),
    )
}

/// The first six exports, for a file without functions.
pub open spec fn exports_text(ex: Seq<Seq<char>>, no_functions: bool) -> Seq<char> {
    crate::formatter::when(ex.len() > 0 && no_functions, " exports: "@ + listing(ex, 6, ", "@))
}

/// The name and length of a file.
pub open spec fn index_head(e: (String, FileAnalysis)) -> Seq<char> {
    file_name_of(e.0@) + " "@ + decimal(e.1.stats.lines as nat) + "L"@
}

/// The line of one file in the index: its name and length; where it has
/// functions or classes, how many files it imports and is imported by;
/// its flags; its first five functions; and, without functions, its first
/// six exports.
pub open spec fn index_line(e: (String, FileAnalysis), g: DepGraph) -> Seq<char> {
    let a = e.1;
    let flags = file_flags(a.stats.lines, function_lengths(a.func_names@), g, e.0@);
    let names = function_names(a.func_names@);
    index_head(e) + links_text(a.stats.functions > 0 || a.stats.classes > 0, coupling_at(g.coupling@, e.0@))
        + crate::formatter::when(flags.len() > 0, " "@ + flags) + function_list_text(names)
        + exports_text(strs(a.exported_names@), names.len() == 0) + "\n"@
}

pub open spec fn size_keys(fm: Seq<(String, FileAnalysis)>) -> Seq<u64> {
    fm.map_values(|e: (String, FileAnalysis)| e.1.stats.lines as u64)
}

/// The lines of the files at the positions `order`.
pub open spec fn index_lines(fm: Seq<(String, FileAnalysis)>, order: Seq<usize>, g: DepGraph) -> Seq<
    char,
>
    decreases order.len(),
{
    if order.len() == 0 {
        Seq::empty()
    } else {
        index_lines(fm, order.drop_last(), g) + index_line(fm[order.last() as int], g)
    }
}

/// The file index, for trees of at most thirty files: the twenty longest
/// files, longest first.
pub open spec fn file_index_section(files: u32, fm: Seq<(String, FileAnalysis)>, g: DepGraph) -> Seq<
    char,
> {
    if files <= 30 {
        "[File Index]\n"@ + index_lines(
            fm,
            first_positions(order_desc(size_keys(fm), fm.len()), 20),
            g,
        ) + "\n"@
    } else {
        Seq::empty()
    }
}

fn coupling_exec(cp: &Vec<(String, (u32, u32))>, p: &[char]) -> (r: (u32, u32))
    ensures
        r == coupling_at(cp@, p@),
{
    let n = cp.len();
    let mut i: usize = 0;
    assert(cp@.skip(0) =~= cp@);
    while i < n
        invariant
            n == cp@.len(),
            i <= n,
            coupling_at(cp@, p@) == coupling_at(cp@.skip(i as int), p@),
        decreases n - i,
    {
        let ghost rest = cp@.skip(i as int);
        assert(rest[0] == cp@[i as int]);
        assert(rest.drop_first() =~= cp@.skip(i + 1));
        let c = crate::text::chars_of(cp[i].0.as_str());
        if crate::text::eq_chars(c.as_slice(), p) {
            return cp[i].1;
        }
        i = i + 1;
    }
    assert(cp@.skip(n as int).len() == 0);
    (0, 0)
}

fn function_name_chars(fs: &Vec<FuncInfo>) -> (r: Vec<Vec<char>>)
    ensures
        views(r@) == function_names(fs@),
{
    let n = fs.len();
    let mut r: Vec<Vec<char>> = Vec::new();
    for i in 0..n
        invariant
            n == fs@.len(),
            views(r@) == function_names(fs@).take(i as int),
    {
        let c = crate::text::chars_of(fs[i].name.as_str());
        let ghost old_r = views(r@);
        let ghost cv = c@;
        r.push(c);
        assert(views(r@) =~= old_r.push(cv));
        assert(function_names(fs@).take(i + 1) =~= function_names(fs@).take(i as int).push(
            fs@[i as int].name@,
        ));
    }
    assert(function_names(fs@).take(n as int) =~= function_names(fs@));
    r
}

fn function_lengths_exec(fs: &Vec<FuncInfo>) -> (r: Vec<u32>)
    ensures
        r@ == function_lengths(fs@),
{
    let n = fs.len();
    let mut r: Vec<u32> = Vec::new();
    for i in 0..n
        invariant
            n == fs@.len(),
            r@ == function_lengths(fs@).take(i as int),
    {
        r.push(fs[i].lines);
        assert(r@ =~= function_lengths(fs@).take(i + 1));
    }
    assert(r@ =~= function_lengths(fs@));
    r
}

/// Appends how many files a file imports and is imported by, where it has
/// functions or classes.
fn put_links(out: &mut Vec<char>, has_code: bool, c: (u32, u32))
    ensures
        final(out)@ == old(out)@ + links_text(has_code, c),
{
    if has_code {
        if c.1 > 0 {
            put(out, " ↑");
            put_num(out, c.1 as u64);
        }
        let ghost s1 = out@;
        assert(s1 =~= old(out)@ + crate::formatter::when(c.1 > 0, " ↑"@ + decimal(c.1 as nat)));
        if c.0 > 0 {
            put(out, " ↓");
            put_num(out, c.0 as u64);
        }
        assert(out@ =~= s1 + crate::formatter::when(c.0 > 0, " ↓"@ + decimal(c.0 as nat)));
    } else {
        assert(out@ =~= old(out)@ + Seq::<char>::empty());
    }
}

/// Appends the first five function names, with how many more there are.
fn put_function_list(out: &mut Vec<char>, names: &Vec<Vec<char>>)
    ensures
        final(out)@ == old(out)@ + function_list_text(views(names@)),
{
    let nn = names.len();
    if nn > 0 {
        put(out, " fn: ");
        put_listing(out, names, 5, ", ");
        let ghost s1 = out@;
        if nn > 5 {
            put(out, ", (+");
            put_num(out, (nn - 5) as u64);
            put(out, ")");
        }
        assert(out@ =~= s1 + crate::formatter::when(
            nn > 5,
            ", (+"@ + decimal((nn - 5) as nat) + ")"@,
        ));
    } else {
        assert(out@ =~= old(out)@ + Seq::<char>::empty());
    }
}

/// Appends the first six exports of a file without functions.
fn put_exports(out: &mut Vec<char>, ex: &Vec<Vec<char>>, no_functions: bool)
    ensures
        final(out)@ == old(out)@ + exports_text(views(ex@), no_functions),
{
    if ex.len() > 0 && no_functions {
        put(out, " exports: ");
        put_listing(out, ex, 6, ", ");
    } else {
        assert(out@ =~= old(out)@ + Seq::<char>::empty());
    }
}

fn put_index_head(out: &mut Vec<char>, e: &(String, FileAnalysis))
    ensures
        final(out)@ == old(out)@ + index_head(*e),
{
    let fname = file_name_chars(e.0.as_str());
    put_chars(out, fname.as_slice());
    put(out, " ");
    put_num(out, e.1.stats.lines as u64);
    put(out, "L");
    assert(out@ =~= old(out)@ + index_head(*e));
}

fn put_flags(out: &mut Vec<char>, flags: &String)
    ensures
        final(out)@ == old(out)@ + crate::formatter::when(flags@.len() > 0, " "@ + flags@),
{
    let flag_chars = chars_of_path(flags.as_str());
    if flag_chars.len() > 0 {
        put(out, " ");
        put_chars(out, flag_chars.as_slice());
    } else {
        assert(out@ =~= old(out)@ + Seq::<char>::empty());
    }
}

#[verifier::spinoff_prover]
fn put_index_line(out: &mut Vec<char>, e: &(String, FileAnalysis), g: &DepGraph)
    ensures
        final(out)@ == old(out)@ + index_line(*e, *g),
{
    let a = &e.1;
    let path = chars_of_path(e.0.as_str());
    let c = coupling_exec(&g.coupling, path.as_slice());
    let lens = function_lengths_exec(&a.func_names);
    let flags = build_flags(a.stats.lines, &lens, g, e.0.as_str());
    let names = function_name_chars(&a.func_names);
    let ex = chars_of_all(&a.exported_names);
    let ghost s = old(out)@;
    let ghost p0 = index_head(*e);
    let ghost p1 = links_text(a.stats.functions > 0 || a.stats.classes > 0, c);
    let ghost p2 = crate::formatter::when(flags@.len() > 0, " "@ + flags@);
    let ghost p3 = function_list_text(views(names@));
    let ghost p4 = exports_text(views(ex@), names@.len() == 0);
    put_index_head(out, e);
    put_links(out, a.stats.functions > 0 || a.stats.classes > 0, c);
    put_flags(out, &flags);
    put_function_list(out, &names);
    put_exports(out, &ex, names.len() == 0);
    put(out, "\n");
    assert(out@ =~= s + (p0 + p1 + p2 + p3 + p4 + "\n"@));
    assert(views(names@).len() == names@.len());
    assert(index_line(*e, *g) == p0 + p1 + p2 + p3 + p4 + "\n"@);
}

fn chars_of_path(p: &str) -> (r: Vec<char>)
    ensures
        r@ == p@,
{
    crate::text::chars_of(p)
}

fn size_keys_exec(fm: &Vec<(String, FileAnalysis)>) -> (keys: Vec<u64>)
    ensures
        keys@ == size_keys(fm@),
{
    let n = fm.len();
    let mut keys: Vec<u64> = Vec::new();
    for i in 0..n
        invariant
            n == fm@.len(),
            keys@ == size_keys(fm@).take(i as int),
    {
        keys.push(fm[i].1.stats.lines as u64);
        assert(keys@ =~= size_keys(fm@).take(i + 1));
    }
    assert(keys@ =~= size_keys(fm@));
    keys
}

/// The file index of the report.
pub fn format_file_index(stats: &AggregatedStats, fm: &Vec<(String, FileAnalysis)>, g: &DepGraph) -> (r:
    String)
    ensures
        r@ == file_index_section(stats.files, fm@, *g),
{
    let mut out: Vec<char> = Vec::new();
    if stats.files > 30 {
        return string_of(out.as_slice());
    }
    let n = fm.len();
    let keys = size_keys_exec(fm);
    let order = rank_desc(&keys);
    let k: usize = if order.len() <= 20 {
        order.len()
    } else {
        20
    };
    assert(first_positions(order@, 20) =~= order@.take(k as int));
    put(&mut out, "[File Index]\n");
    let ghost s0 = out@;
    assert(order@.take(0) =~= Seq::<usize>::empty());
    for i in 0..k
        invariant
            k <= order@.len(),
            n == fm@.len(),
            forall|j: int| 0 <= j < order@.len() ==> (#[trigger] order@[j]) < n,
            out@ == s0 + index_lines(fm@, order@.take(i as int), *g),
    {
        assert(order@.take(i + 1).drop_last() =~= order@.take(i as int));
        assert(order@.take(i + 1).last() == order@[i as int]);
        let p = order[i];
        put_index_line(&mut out, &fm[p], g);
    }
    put(&mut out, "\n");
    string_of(out.as_slice())
}

} // verus!
