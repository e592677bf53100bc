//! The compact report: each section as exact text, built from the results
//! of the analyses.
use vstd::prelude::*;
use crate::analyzer::FileAnalysis;
use crate::depgraph::{DeadCode, DepGraph, ModuleInfo};
use crate::duplicates::DuplicateGroup;
use crate::issues::{format_issues, issues_section, long_function_count};
use crate::integration::{format_io, io_fits, io_section, urls_cuttable};
use crate::features::{features_fit, features_section, format_features};
use crate::patterns::{format_patterns, patterns_fit, patterns_section};
use crate::organization::{api_section, format_api, format_organization, organization_section};
use crate::overview::{
    file_index_section, format_file_index, format_header, format_langs, header_section,
    labels_defined, langs_section, shares_fit, Shares,
};
use crate::git::GitContext;
use crate::locations::{KeyLocation, KeyLocations};
use crate::models::DataLayer;
use crate::ranking::{first_positions, order_desc, rank_desc};
use crate::scanner::{DevNote, ScanResults, SecurityIssue, TestMap};
use crate::text::{
    chars_of, contains_sub, decimal, decimal_chars, last_piece, last_piece_chars, string_of, strs, trim_end,
    views, is_ws, is_ws_char, slice_of,
};

verus! {

/// Per-language totals.
pub struct LangStats {
    pub files: u32,
    pub lines: u32,
    pub functions: u32,
    pub classes: u32,
    pub complexity: u32,
}

impl Default for LangStats {
    fn default() -> (s: Self)
        ensures
            s.files == 0 && s.lines == 0 && s.functions == 0 && s.classes == 0 && s.complexity
                == 0,
    {
        LangStats { files: 0, lines: 0, functions: 0, classes: 0, complexity: 0 }
    }
}

/// Totals over the analysed files, with the totals of each language.
pub struct AggregatedStats {
    pub files: u32,
    pub total_lines: u32,
    pub by_language: Vec<(String, LangStats)>,
}

// ---------------------------------------------------------------------------
// Text building blocks
// ---------------------------------------------------------------------------

/// The last component of a path (`rsplit('/').next()`).
pub open spec fn file_name_of(p: Seq<char>) -> Seq<char> {
    last_piece(p, '/')
}

/// `items` joined with `sep` between them.
pub open spec fn join(items: Seq<Seq<char>>, sep: Seq<char>) -> Seq<char>
    decreases items.len(),
{
    if items.len() == 0 {
        Seq::empty()
    } else if items.len() == 1 {
        items[0]
    } else {
        join(items.drop_last(), sep) + sep + items.last()
    }
}

/// The first `n` of `items`, or all of them when there are fewer.
pub open spec fn first_n(items: Seq<Seq<char>>, n: nat) -> Seq<Seq<char>> {
    if items.len() <= n {
        items
    } else {
        items.take(n as int)
    }
}

/// The first `n` of `items`, joined with `sep`.
pub open spec fn listing(items: Seq<Seq<char>>, n: nat, sep: Seq<char>) -> Seq<char> {
    join(first_n(items, n), sep)
}

/// ` (+k)` for the `k` items beyond the `shown` ones, or nothing.
pub open spec fn more(total: nat, shown: nat) -> Seq<char> {
    if total > shown {
        " (+"@ + decimal((total - shown) as nat) + ")"@
    } else {
        Seq::empty()
    }
}

/// `text` when `cond` holds, else nothing.
pub open spec fn when(cond: bool, text: Seq<char>) -> Seq<char> {
    if cond {
        text
    } else {
        Seq::empty()
    }
}

/// Appends the literal `s`.
pub(crate) fn put(out: &mut Vec<char>, s: &str)
    ensures
        final(out)@ == old(out)@ + s@,
{
    let v = chars_of(s);
    put_chars(out, v.as_slice());
}

/// Appends the characters `s`.
pub(crate) fn put_chars(out: &mut Vec<char>, s: &[char])
    ensures
        final(out)@ == old(out)@ + s@,
{
    let n = s.len();
    for i in 0..n
        invariant
            n == s@.len(),
            out@ == old(out)@ + s@.take(i as int),
    {
        out.push(s[i]);
        assert(old(out)@ + s@.take(i + 1) =~= (old(out)@ + s@.take(i as int)).push(s@[i as int]));
    }
    assert(s@.take(n as int) =~= s@);
}

/// Appends `n` in decimal.
pub(crate) fn put_num(out: &mut Vec<char>, n: u64)
    ensures
        final(out)@ == old(out)@ + decimal(n as nat),
{
    let d = decimal_chars(n);
    put_chars(out, d.as_slice());
}

/// Appends the first `n` of `items`, joined with `sep`.
pub(crate) fn put_listing(out: &mut Vec<char>, items: &Vec<Vec<char>>, n: usize, sep: &str)
    ensures
        final(out)@ == old(out)@ + listing(views(items@), n as nat, sep@),
{
    let ghost vs = views(items@);
    let k = if items.len() <= n {
        items.len()
    } else {
        n
    };
    assert(first_n(vs, n as nat) =~= vs.take(k as int));
    assert(vs.take(0) =~= Seq::<Seq<char>>::empty());
    for i in 0..k
        invariant
            k <= items@.len(),
            vs == views(items@),
            out@ == old(out)@ + join(vs.take(i as int), sep@),
    {
        let ghost before = out@;
        let ghost t = vs.take(i + 1);
        assert(t.drop_last() =~= vs.take(i as int));
        assert(t.last() == items@[i as int]@);
        if i > 0 {
            put(out, sep);
            put_chars(out, items[i].as_slice());
            assert(out@ =~= before + sep@ + items@[i as int]@);
            assert(join(t, sep@) == join(vs.take(i as int), sep@) + sep@ + t.last());
        } else {
            put_chars(out, items[i].as_slice());
            assert(join(vs.take(i as int), sep@) =~= Seq::<char>::empty());
            assert(join(t, sep@) == t[0]);
        }
        assert(out@ =~= old(out)@ + join(vs.take(i + 1), sep@));
    }
}

/// Appends ` (+k)` for the items beyond the `shown` ones.
pub(crate) fn put_more(out: &mut Vec<char>, total: usize, shown: usize)
    ensures
        final(out)@ == old(out)@ + more(total as nat, shown as nat),
{
    if total > shown {
        put(out, " (+");
        put_num(out, (total - shown) as u64);
        put(out, ")");
    } else {
        assert(old(out)@ + Seq::<char>::empty() =~= old(out)@);
    }
}

/// The last component of a path.
pub(crate) fn file_name_chars(p: &str) -> (r: Vec<char>)
    ensures
        r@ == file_name_of(p@),
{
    let v = chars_of(p);
    last_piece_chars(v.as_slice(), '/')
}

/// Appends the characters of `s`.
pub(crate) fn put_str(out: &mut Vec<char>, s: &str)
    ensures
        final(out)@ == old(out)@ + s@,
{
    let v = chars_of(s);
    put_chars(out, v.as_slice());
}

// ---------------------------------------------------------------------------
// Developer notes
// ---------------------------------------------------------------------------

/// `file:line`, with the note's text in quotes when it has one.
pub open spec fn note_item(n: DevNote) -> Seq<char> {
    let head = file_name_of(n.file@) + ":"@ + decimal(n.line as nat);
    if n.text@.len() == 0 {
        head
    } else {
        head + " \""@ + n.text@ + "\""@
    }
}

pub open spec fn note_items(ns: Seq<DevNote>) -> Seq<Seq<char>> {
    ns.map_values(|n: DevNote| note_item(n))
}

/// The developer notes section: up to five TODOs and three each of FIXMEs
/// and HACKs, each line with the total of its kind.
pub open spec fn notes_section(todos: Seq<DevNote>, fixmes: Seq<DevNote>, hacks: Seq<DevNote>) -> Seq<
    char,
> {
    if todos.len() == 0 && fixmes.len() == 0 && hacks.len() == 0 {
        Seq::empty()
    } else {
        "[Developer Notes]\n"@ + when(
            todos.len() > 0,
            "TODO("@ + decimal(todos.len()) + "): "@ + listing(note_items(todos), 5, ", "@)
                + more(todos.len(), 5) + "\n"@,
        ) + when(
            fixmes.len() > 0,
            "FIXME("@ + decimal(fixmes.len()) + "): "@ + listing(note_items(fixmes), 3, ", "@)
                + "\n"@,
        ) + when(
            hacks.len() > 0,
            "HACK("@ + decimal(hacks.len()) + "): "@ + listing(note_items(hacks), 3, ", "@)
                + "\n"@,
        ) + "\n"@
    }
}

fn note_items_exec(ns: &Vec<DevNote>) -> (r: Vec<Vec<char>>)
    ensures
        views(r@) == note_items(ns@),
{
    let n = ns.len();
    let mut r: Vec<Vec<char>> = Vec::new();
    for i in 0..n
        invariant
            n == ns@.len(),
            views(r@) == note_items(ns@.take(i as int)),
    {
        let note = &ns[i];
        let mut item: Vec<char> = file_name_chars(note.file.as_str());
        put(&mut item, ":");
        put_num(&mut item, note.line as u64);
        let text = chars_of(note.text.as_str());
        if text.len() > 0 {
            put(&mut item, " \"");
            put_chars(&mut item, text.as_slice());
            put(&mut item, "\"");
        }
        let ghost before = views(r@);
        let ghost iv = item@;
        r.push(item);
        assert(views(r@) =~= before.push(iv));
        assert(note_items(ns@.take(i + 1)) =~= note_items(ns@.take(i as int)).push(
            note_item(ns@[i as int]),
        ));
    }
    assert(ns@.take(n as int) =~= ns@);
    r
}

/// Appends `LABEL(n): items` with the first `shown` notes, the count of
/// the rest when `with_more`, and a newline.
fn put_note_line(out: &mut Vec<char>, label: &str, notes: &Vec<DevNote>, shown: usize, with_more: bool)
    ensures
        final(out)@ == old(out)@ + label@ + decimal(notes@.len()) + "): "@ + listing(
            note_items(notes@),
            shown as nat,
            ", "@,
        ) + (if with_more {
            more(notes@.len(), shown as nat)
        } else {
            Seq::empty()
        }) + "\n"@,
{
    let ghost start = out@;
    put(out, label);
    put_num(out, notes.len() as u64);
    put(out, "): ");
    let items = note_items_exec(notes);
    put_listing(out, &items, shown, ", ");
    let ghost mid = out@;
    if with_more {
        put_more(out, notes.len(), shown);
    } else {
        assert(mid + Seq::<char>::empty() =~= mid);
    }
    put(out, "\n");
    assert(out@ =~= start + label@ + decimal(notes@.len()) + "): "@ + listing(
        note_items(notes@),
        shown as nat,
        ", "@,
    ) + (if with_more {
        more(notes@.len(), shown as nat)
    } else {
        Seq::empty()
    }) + "\n"@);
}

/// The developer notes section of the report.
#[verifier::spinoff_prover]
#[verifier::rlimit(40)]
pub fn format_dev_notes(scans: &ScanResults) -> (r: String)
    ensures
        r@ == notes_section(scans.todos@, scans.fixmes@, scans.hacks@),
{
    let t = scans.todos.len();
    let f = scans.fixmes.len();
    let h = scans.hacks.len();
    let mut out: Vec<char> = Vec::new();
    if t == 0 && f == 0 && h == 0 {
        return string_of(out.as_slice());
    }
    put(&mut out, "[Developer Notes]\n");
    let ghost s0 = out@;
    if t > 0 {
        put_note_line(&mut out, "TODO(", &scans.todos, 5, true);
    }
    let ghost s1 = out@;
    assert(s1 =~= s0 + when(
        t > 0,
        "TODO("@ + decimal(t as nat) + "): "@ + listing(note_items(scans.todos@), 5, ", "@)
            + more(t as nat, 5) + "\n"@,
    ));
    if f > 0 {
        put_note_line(&mut out, "FIXME(", &scans.fixmes, 3, false);
    }
    let ghost s2 = out@;
    assert(s2 =~= s1 + when(
        f > 0,
        "FIXME("@ + decimal(f as nat) + "): "@ + listing(note_items(scans.fixmes@), 3, ", "@)
            + "\n"@,
    ));
    if h > 0 {
        put_note_line(&mut out, "HACK(", &scans.hacks, 3, false);
    }
    let ghost s3 = out@;
    assert(s3 =~= s2 + when(
        h > 0,
        "HACK("@ + decimal(h as nat) + "): "@ + listing(note_items(scans.hacks@), 3, ", "@)
            + "\n"@,
    ));
    put(&mut out, "\n");
    string_of(out.as_slice())
}

// ---------------------------------------------------------------------------
// Data layer, key locations, recent activity
// ---------------------------------------------------------------------------

/// The data layer section: every model, up to five schema files, the ORM
/// and three migration folders.
pub open spec fn data_layer_section(d: DataLayer) -> Seq<char> {
    let m = strs(d.model_names@);
    let sc = strs(d.schema_files@);
    let mg = strs(d.migration_dirs@);
    if m.len() == 0 && sc.len() == 0 && d.orm is None && mg.len() == 0 {
        Seq::empty()
    } else {
        "[Data Layer]\n"@ + when(
            m.len() > 0,
            "Models: "@ + join(m, ", "@) + "\n"@,
        ) + when(sc.len() > 0, "Schema: "@ + listing(sc, 5, ", "@) + "\n"@) + (match d.orm {
            Some(o) => "ORM: "@ + o@ + "\n"@,
            None => Seq::empty(),
        }) + when(mg.len() > 0, "Migrations: "@ + listing(mg, 3, ", "@) + "\n"@) + "\n"@
    }
}

/// The data layer section of the report.
#[verifier::spinoff_prover]
#[verifier::rlimit(40)]
pub fn format_data_layer(d: &DataLayer) -> (r: String)
    ensures
        r@ == data_layer_section(*d),
{
    let m = crate::text::chars_of_all(&d.model_names);
    let sc = crate::text::chars_of_all(&d.schema_files);
    let mg = crate::text::chars_of_all(&d.migration_dirs);
    let mut out: Vec<char> = Vec::new();
    if m.len() == 0 && sc.len() == 0 && d.orm.is_none() && mg.len() == 0 {
        return string_of(out.as_slice());
    }
    put(&mut out, "[Data Layer]\n");
    let ghost s0 = out@;
    if m.len() > 0 {
        put(&mut out, "Models: ");
        put_listing(&mut out, &m, m.len(), ", ");
        assert(first_n(views(m@), m@.len() as nat) == views(m@));
        put(&mut out, "\n");
    }
    let ghost s1 = out@;
    assert(s1 =~= s0 + when(m@.len() > 0, "Models: "@ + join(views(m@), ", "@) + "\n"@));
    if sc.len() > 0 {
        put(&mut out, "Schema: ");
        put_listing(&mut out, &sc, 5, ", ");
        put(&mut out, "\n");
    }
    let ghost s2 = out@;
    assert(s2 =~= s1 + when(sc@.len() > 0, "Schema: "@ + listing(views(sc@), 5, ", "@) + "\n"@));
    match &d.orm {
        Some(o) => {
            put(&mut out, "ORM: ");
            put_str(&mut out, o.as_str());
            put(&mut out, "\n");
        },
        None => {},
    }
    let ghost s3 = out@;
    assert(s3 =~= s2 + (match d.orm {
        Some(o) => "ORM: "@ + o@ + "\n"@,
        None => Seq::empty(),
    }));
    if mg.len() > 0 {
        put(&mut out, "Migrations: ");
        put_listing(&mut out, &mg, 3, ", ");
        put(&mut out, "\n");
    }
    let ghost s4 = out@;
    assert(s4 =~= s3 + when(mg@.len() > 0, "Migrations: "@ + listing(views(mg@), 3, ", "@) + "\n"@));
    put(&mut out, "\n");
    string_of(out.as_slice())
}

/// The locations shown: those with at least two files.
pub open spec fn busy_locations(ls: Seq<KeyLocation>) -> Seq<KeyLocation>
    decreases ls.len(),
{
    if ls.len() == 0 {
        Seq::empty()
    } else {
        let r = busy_locations(ls.drop_last());
        if ls.last().count >= 2 {
            r.push(ls.last())
        } else {
            r
        }
    }
}

pub open spec fn first_ten(ls: Seq<KeyLocation>) -> Seq<KeyLocation> {
    if ls.len() <= 10 {
        ls
    } else {
        ls.take(10)
    }
}

/// `Label: path (n files)` and a newline.
pub open spec fn location_line(l: KeyLocation) -> Seq<char> {
    l.label@ + ": "@ + l.path@ + " ("@ + decimal(l.count as nat) + " files)\n"@
}

pub open spec fn location_lines(ls: Seq<KeyLocation>) -> Seq<char>
    decreases ls.len(),
{
    if ls.len() == 0 {
        Seq::empty()
    } else {
        location_lines(ls.drop_last()) + location_line(ls.last())
    }
}

/// The key locations section: the first ten locations with at least two
/// files, one per line.
pub open spec fn key_locations_section(k: KeyLocations) -> Seq<char> {
    let shown = first_ten(busy_locations(k.locations@));
    if shown.len() == 0 {
        Seq::empty()
    } else {
        "[Key Locations]\n"@ + location_lines(shown) + "\n"@
    }
}

/// The key locations section of the report.
pub fn format_key_locations(k: &KeyLocations) -> (r: String)
    ensures
        r@ == key_locations_section(*k),
{
    let ls = &k.locations;
    let n = ls.len();
    let mut body: Vec<char> = Vec::new();
    let mut shown: usize = 0;
    let ghost all = ls@;
    assert(all.take(0) =~= Seq::<KeyLocation>::empty());
    for i in 0..n
        invariant
            n == ls@.len(),
            all == ls@,
            shown == first_ten(busy_locations(all.take(i as int))).len(),
            body@ == location_lines(first_ten(busy_locations(all.take(i as int)))),
    {
        let ghost before = busy_locations(all.take(i as int));
        assert(all.take(i + 1).drop_last() =~= all.take(i as int));
        assert(all.take(i + 1).last() == all[i as int]);
        if ls[i].count >= 2 {
            let ghost after = before.push(all[i as int]);
            if shown < 10 {
                let ghost b0 = body@;
                put_str(&mut body, ls[i].label.as_str());
                put(&mut body, ": ");
                put_str(&mut body, ls[i].path.as_str());
                put(&mut body, " (");
                put_num(&mut body, ls[i].count as u64);
                put(&mut body, " files)\n");
                assert(body@ =~= b0 + location_line(all[i as int]));
                assert(first_ten(after) =~= first_ten(before).push(all[i as int]));
                assert(first_ten(after).drop_last() =~= first_ten(before));
                shown += 1;
            } else {
                assert(first_ten(after) =~= first_ten(before));
            }
        }
    }
    assert(all.take(n as int) =~= all);
    let mut out: Vec<char> = Vec::new();
    if shown == 0 {
        return string_of(out.as_slice());
    }
    put(&mut out, "[Key Locations]\n");
    put_chars(&mut out, body.as_slice());
    put(&mut out, "\n");
    string_of(out.as_slice())
}

/// `name(count)` for a hot file.
pub open spec fn hot_item(e: (String, u32)) -> Seq<char> {
    file_name_of(e.0@) + "("@ + decimal(e.1 as nat) + ")"@
}

pub open spec fn hot_items(hs: Seq<(String, u32)>) -> Seq<Seq<char>> {
    hs.map_values(|e: (String, u32)| hot_item(e))
}

/// The recent activity section: the branch, up to five commits, up to five
/// uncommitted files with their total, and up to six hot files.
pub open spec fn git_section(g: GitContext) -> Seq<char> {
    let commits = strs(g.recent_commits@);
    let unc = strs(g.uncommitted@);
    let hot = g.hot_files@;
    if g.is_repo && (g.branch is Some || commits.len() > 0 || unc.len() > 0 || hot.len() > 0) {
        "[Recent Activity]\n"@ + (match g.branch {
            Some(b) => "Branch: "@ + b@ + "\n"@,
            None => Seq::empty(),
        }) + when(commits.len() > 0, "Last commits: "@ + listing(commits, 5, " | "@) + "\n"@)
            + when(
            unc.len() > 0,
            "Uncommitted: "@ + decimal(unc.len()) + " file(s): "@ + listing(unc, 5, ", "@)
                + more(unc.len(), 5) + "\n"@,
        ) + when(hot.len() > 0, "Hot files: "@ + listing(hot_items(hot), 6, ", "@) + "\n"@)
            + "\n"@
    } else {
        Seq::empty()
    }
}

fn hot_items_exec(hs: &Vec<(String, u32)>) -> (r: Vec<Vec<char>>)
    ensures
        views(r@) == hot_items(hs@),
{
    let n = hs.len();
    let mut r: Vec<Vec<char>> = Vec::new();
    for i in 0..n
        invariant
            n == hs@.len(),
            views(r@) == hot_items(hs@.take(i as int)),
    {
        let mut item = file_name_chars(hs[i].0.as_str());
        put(&mut item, "(");
        put_num(&mut item, hs[i].1 as u64);
        put(&mut item, ")");
        let ghost before = views(r@);
        let ghost iv = item@;
        r.push(item);
        assert(views(r@) =~= before.push(iv));
        assert(hot_items(hs@.take(i + 1)) =~= hot_items(hs@.take(i as int)).push(
            hot_item(hs@[i as int]),
        ));
    }
    assert(hs@.take(n as int) =~= hs@);
    r
}

/// The recent activity section of the report.
#[verifier::spinoff_prover]
#[verifier::rlimit(40)]
pub fn format_git(g: &GitContext) -> (r: String)
    ensures
        r@ == git_section(*g),
{
    let commits = crate::text::chars_of_all(&g.recent_commits);
    let unc = crate::text::chars_of_all(&g.uncommitted);
    let nh = g.hot_files.len();
    let mut out: Vec<char> = Vec::new();
    if !(g.is_repo && (g.branch.is_some() || commits.len() > 0 || unc.len() > 0 || nh > 0)) {
        return string_of(out.as_slice());
    }
    put(&mut out, "[Recent Activity]\n");
    let ghost s0 = out@;
    match &g.branch {
        Some(b) => {
            put(&mut out, "Branch: ");
            put_str(&mut out, b.as_str());
            put(&mut out, "\n");
        },
        None => {},
    }
    let ghost s1 = out@;
    assert(s1 =~= s0 + (match g.branch {
        Some(b) => "Branch: "@ + b@ + "\n"@,
        None => Seq::empty(),
    }));
    if commits.len() > 0 {
        put(&mut out, "Last commits: ");
        put_listing(&mut out, &commits, 5, " | ");
        put(&mut out, "\n");
    }
    let ghost s2 = out@;
    assert(s2 =~= s1 + when(
        commits@.len() > 0,
        "Last commits: "@ + listing(views(commits@), 5, " | "@) + "\n"@,
    ));
    if unc.len() > 0 {
        put(&mut out, "Uncommitted: ");
        put_num(&mut out, unc.len() as u64);
        put(&mut out, " file(s): ");
        put_listing(&mut out, &unc, 5, ", ");
        put_more(&mut out, unc.len(), 5);
        put(&mut out, "\n");
    }
    let ghost s3 = out@;
    assert(s3 =~= s2 + when(
        unc@.len() > 0,
        "Uncommitted: "@ + decimal(unc@.len() as nat) + " file(s): "@ + listing(
            views(unc@),
            5,
            ", "@,
        ) + more(unc@.len() as nat, 5) + "\n"@,
    ));
    if nh > 0 {
        let items = hot_items_exec(&g.hot_files);
        put(&mut out, "Hot files: ");
        put_listing(&mut out, &items, 6, ", ");
        put(&mut out, "\n");
    }
    let ghost s4 = out@;
    assert(s4 =~= s3 + when(
        g.hot_files@.len() > 0,
        "Hot files: "@ + listing(hot_items(g.hot_files@), 6, ", "@) + "\n"@,
    ));
    put(&mut out, "\n");
    string_of(out.as_slice())
}

// ---------------------------------------------------------------------------
// Dead code and tests
// ---------------------------------------------------------------------------

/// `name(a,b)` for a file whose exports nothing imports.
pub open spec fn unused_item(e: (String, Vec<String>)) -> Seq<char> {
    file_name_of(e.0@) + "("@ + join(strs(e.1@), ","@) + ")"@
}

pub open spec fn unused_items(es: Seq<(String, Vec<String>)>) -> Seq<Seq<char>> {
    es.map_values(|e: (String, Vec<String>)| unused_item(e))
}

/// `name (only used by importer)`.
pub open spec fn dead_item(e: (String, String)) -> Seq<char> {
    file_name_of(e.0@) + " (only used by "@ + e.1@ + ")"@
}

pub open spec fn dead_items(es: Seq<(String, String)>) -> Seq<Seq<char>> {
    es.map_values(|e: (String, String)| dead_item(e))
}

pub open spec fn file_names(ps: Seq<Seq<char>>) -> Seq<Seq<char>> {
    ps.map_values(|p: Seq<char>| file_name_of(p))
}

/// The dead code section: up to five files with unused exports, six
/// orphaned files, the number of test files and five files with a single
/// importer.
pub open spec fn dead_code_section(d: DeadCode) -> Seq<char> {
    let ue = d.unused_exports@;
    let orph = strs(d.orphaned_files@);
    let tf = d.test_files@;
    let pd = d.possibly_dead@;
    if orph.len() == 0 && ue.len() == 0 && tf.len() == 0 {
        Seq::empty()
    } else {
        "[Dead Code & Tests]\n"@ + when(
            ue.len() > 0,
            "Unused exports: "@ + listing(unused_items(ue), 5, ", "@) + more(ue.len(), 5)
                + "\n"@,
        ) + when(
            orph.len() > 0,
            "Orphaned: "@ + listing(file_names(orph), 6, ", "@) + more(orph.len(), 6) + "\n"@,
        ) + when(tf.len() > 0, "Test files: "@ + decimal(tf.len()) + "\n"@) + when(
            pd.len() > 0,
            "Possibly dead: "@ + listing(dead_items(pd), 5, ", "@) + more(pd.len(), 5) + "\n"@,
        ) + "\n"@
    }
}

/// `s` joined with `sep`.
pub(crate) fn join_exec(items: &Vec<Vec<char>>, sep: &str) -> (r: Vec<char>)
    ensures
        r@ == join(views(items@), sep@),
{
    let mut out: Vec<char> = Vec::new();
    put_listing(&mut out, items, items.len(), sep);
    assert(first_n(views(items@), items@.len() as nat) == views(items@));
    out
}

fn unused_items_exec(es: &Vec<(String, Vec<String>)>) -> (r: Vec<Vec<char>>)
    ensures
        views(r@) == unused_items(es@),
{
    let n = es.len();
    let mut r: Vec<Vec<char>> = Vec::new();
    for i in 0..n
        invariant
            n == es@.len(),
            views(r@) == unused_items(es@.take(i as int)),
    {
        let mut item = file_name_chars(es[i].0.as_str());
        put(&mut item, "(");
        let names = crate::text::chars_of_all(&es[i].1);
        let joined = join_exec(&names, ",");
        put_chars(&mut item, joined.as_slice());
        put(&mut item, ")");
        let ghost before = views(r@);
        let ghost iv = item@;
        r.push(item);
        assert(views(r@) =~= before.push(iv));
        assert(unused_items(es@.take(i + 1)) =~= unused_items(es@.take(i as int)).push(
            unused_item(es@[i as int]),
        ));
    }
    assert(es@.take(n as int) =~= es@);
    r
}

fn dead_items_exec(es: &Vec<(String, String)>) -> (r: Vec<Vec<char>>)
    ensures
        views(r@) == dead_items(es@),
{
    let n = es.len();
    let mut r: Vec<Vec<char>> = Vec::new();
    for i in 0..n
        invariant
            n == es@.len(),
            views(r@) == dead_items(es@.take(i as int)),
    {
        let mut item = file_name_chars(es[i].0.as_str());
        put(&mut item, " (only used by ");
        put_str(&mut item, es[i].1.as_str());
        put(&mut item, ")");
        let ghost before = views(r@);
        let ghost iv = item@;
        r.push(item);
        assert(views(r@) =~= before.push(iv));
        assert(dead_items(es@.take(i + 1)) =~= dead_items(es@.take(i as int)).push(
            dead_item(es@[i as int]),
        ));
    }
    assert(es@.take(n as int) =~= es@);
    r
}

fn file_names_exec(ps: &Vec<String>) -> (r: Vec<Vec<char>>)
    ensures
        views(r@) == file_names(strs(ps@)),
{
    let n = ps.len();
    let mut r: Vec<Vec<char>> = Vec::new();
    for i in 0..n
        invariant
            n == ps@.len(),
            views(r@) == file_names(strs(ps@).take(i as int)),
    {
        let item = file_name_chars(ps[i].as_str());
        let ghost before = views(r@);
        let ghost iv = item@;
        r.push(item);
        assert(views(r@) =~= before.push(iv));
        assert(strs(ps@).take(i + 1) =~= strs(ps@).take(i as int).push(ps@[i as int]@));
        assert(file_names(strs(ps@).take(i + 1)) =~= file_names(strs(ps@).take(i as int)).push(
            file_name_of(ps@[i as int]@),
        ));
    }
    assert(strs(ps@).take(n as int) =~= strs(ps@));
    r
}

/// The dead code section of the report.
#[verifier::spinoff_prover]
#[verifier::rlimit(40)]
pub fn format_dead_code(d: &DeadCode) -> (r: String)
    ensures
        r@ == dead_code_section(*d),
{
    let nu = d.unused_exports.len();
    let no = d.orphaned_files.len();
    let nt = d.test_files.len();
    let np = d.possibly_dead.len();
    let mut out: Vec<char> = Vec::new();
    if no == 0 && nu == 0 && nt == 0 {
        return string_of(out.as_slice());
    }
    put(&mut out, "[Dead Code & Tests]\n");
    let ghost s0 = out@;
    if nu > 0 {
        let items = unused_items_exec(&d.unused_exports);
        put(&mut out, "Unused exports: ");
        put_listing(&mut out, &items, 5, ", ");
        put_more(&mut out, nu, 5);
        put(&mut out, "\n");
    }
    let ghost s1 = out@;
    assert(s1 =~= s0 + when(
        nu > 0,
        "Unused exports: "@ + listing(unused_items(d.unused_exports@), 5, ", "@) + more(
            nu as nat,
            5,
        ) + "\n"@,
    ));
    if no > 0 {
        let items = file_names_exec(&d.orphaned_files);
        put(&mut out, "Orphaned: ");
        put_listing(&mut out, &items, 6, ", ");
        put_more(&mut out, no, 6);
        put(&mut out, "\n");
    }
    let ghost s2 = out@;
    assert(s2 =~= s1 + when(
        strs(d.orphaned_files@).len() > 0,
        "Orphaned: "@ + listing(file_names(strs(d.orphaned_files@)), 6, ", "@) + more(
            strs(d.orphaned_files@).len(),
            6,
        ) + "\n"@,
    ));
    if nt > 0 {
        put(&mut out, "Test files: ");
        put_num(&mut out, nt as u64);
        put(&mut out, "\n");
    }
    let ghost s3 = out@;
    assert(s3 =~= s2 + when(nt > 0, "Test files: "@ + decimal(nt as nat) + "\n"@));
    if np > 0 {
        let items = dead_items_exec(&d.possibly_dead);
        put(&mut out, "Possibly dead: ");
        put_listing(&mut out, &items, 5, ", ");
        put_more(&mut out, np, 5);
        put(&mut out, "\n");
    }
    let ghost s4 = out@;
    assert(s4 =~= s3 + when(
        np > 0,
        "Possibly dead: "@ + listing(dead_items(d.possibly_dead@), 5, ", "@) + more(
            np as nat,
            5,
        ) + "\n"@,
    ));
    put(&mut out, "\n");
    string_of(out.as_slice())
}

/// `source → test` by file names.
pub open spec fn covered_item(e: (String, String)) -> Seq<char> {
    file_name_of(e.0@) + " → "@ + file_name_of(e.1@)
}

pub open spec fn covered_items(es: Seq<(String, String)>) -> Seq<Seq<char>> {
    es.map_values(|e: (String, String)| covered_item(e))
}

/// Whether `p` is the percentage `part` makes of `whole` as a truncated
/// floating-point quotient gives it: the exact share rounded down, where
/// the share is a whole number also one less (the quotient may fall just
/// short of it), and `u32::MAX` when the share is larger. Nothing is asked
/// when `whole` is zero.
pub open spec fn percent_fits(part: nat, whole: nat, p: u32) -> bool {
    whole > 0 ==> {
        ||| p * whole <= 100 * part && 100 * part <= (p + 1) * whole
        ||| p == u32::MAX && p * whole <= 100 * part
    }
}

/// The test map section: up to five covered sources with their tests, six
/// uncovered sources when there are tests, and the number of test and
/// source files with `ratio_percent`, the share of tests to sources in
/// percent (`0` when there are no sources).
pub open spec fn test_map_section(t: TestMap, ratio_percent: u32) -> Seq<char> {
    let cov = t.covered@;
    let unc = strs(t.uncovered@);
    if t.test_count > 0 || unc.len() > 0 {
        "[Test Map]\n"@ + when(
            cov.len() > 0,
            "Covered: "@ + listing(covered_items(cov), 5, ", "@) + more(cov.len(), 5) + "\n"@,
        ) + when(
            unc.len() > 0 && t.test_count > 0,
            "Uncovered: "@ + listing(file_names(unc), 6, ", "@) + more(unc.len(), 6) + "\n"@,
        ) + "Test ratio: "@ + decimal(t.test_count as nat) + " test / "@ + decimal(
            t.source_count as nat,
        ) + " source ("@ + decimal(
            if t.source_count > 0 {
                ratio_percent as nat
            } else {
                0
            },
        ) + "%)\n"@ + "\n"@
    } else {
        Seq::empty()
    }
}

fn covered_items_exec(es: &Vec<(String, String)>) -> (r: Vec<Vec<char>>)
    ensures
        views(r@) == covered_items(es@),
{
    let n = es.len();
    let mut r: Vec<Vec<char>> = Vec::new();
    for i in 0..n
        invariant
            n == es@.len(),
            views(r@) == covered_items(es@.take(i as int)),
    {
        let mut item = file_name_chars(es[i].0.as_str());
        put(&mut item, " → ");
        let t = file_name_chars(es[i].1.as_str());
        put_chars(&mut item, t.as_slice());
        let ghost before = views(r@);
        let ghost iv = item@;
        r.push(item);
        assert(views(r@) =~= before.push(iv));
        assert(covered_items(es@.take(i + 1)) =~= covered_items(es@.take(i as int)).push(
            covered_item(es@[i as int]),
        ));
    }
    assert(es@.take(n as int) =~= es@);
    r
}

/// The test map section of the report; `ratio_percent` is the share of test
/// files to source files in percent.
#[verifier::spinoff_prover]
#[verifier::rlimit(40)]
pub fn format_test_map(t: &TestMap, ratio_percent: u32) -> (r: String)
    requires
        percent_fits(t.test_count as nat, t.source_count as nat, ratio_percent),
    ensures
        r@ == test_map_section(*t, ratio_percent),
{
    let nc = t.covered.len();
    let nu = t.uncovered.len();
    let mut out: Vec<char> = Vec::new();
    if !(t.test_count > 0 || nu > 0) {
        return string_of(out.as_slice());
    }
    put(&mut out, "[Test Map]\n");
    let ghost s0 = out@;
    if nc > 0 {
        let items = covered_items_exec(&t.covered);
        put(&mut out, "Covered: ");
        put_listing(&mut out, &items, 5, ", ");
        put_more(&mut out, nc, 5);
        put(&mut out, "\n");
    }
    let ghost s1 = out@;
    assert(s1 =~= s0 + when(
        nc > 0,
        "Covered: "@ + listing(covered_items(t.covered@), 5, ", "@) + more(nc as nat, 5)
            + "\n"@,
    ));
    if nu > 0 && t.test_count > 0 {
        let items = file_names_exec(&t.uncovered);
        put(&mut out, "Uncovered: ");
        put_listing(&mut out, &items, 6, ", ");
        put_more(&mut out, nu, 6);
        put(&mut out, "\n");
    }
    let ghost s2 = out@;
    assert(s2 =~= s1 + when(
        strs(t.uncovered@).len() > 0 && t.test_count > 0,
        "Uncovered: "@ + listing(file_names(strs(t.uncovered@)), 6, ", "@) + more(
            strs(t.uncovered@).len(),
            6,
        ) + "\n"@,
    ));
    put(&mut out, "Test ratio: ");
    put_num(&mut out, t.test_count as u64);
    put(&mut out, " test / ");
    put_num(&mut out, t.source_count as u64);
    put(&mut out, " source (");
    let shown: u32 = if t.source_count > 0 {
        ratio_percent
    } else {
        0
    };
    put_num(&mut out, shown as u64);
    put(&mut out, "%)\n");
    put(&mut out, "\n");
    string_of(out.as_slice())
}

// ---------------------------------------------------------------------------
// Security
// ---------------------------------------------------------------------------

/// `file:line` of an issue.
pub open spec fn issue_place(i: SecurityIssue) -> Seq<char> {
    file_name_of(i.file@) + ":"@ + decimal(i.line as nat)
}

/// The kinds of `is`, each once, in the order they first occur.
pub open spec fn kinds_in(is: Seq<SecurityIssue>) -> Seq<Seq<char>>
    decreases is.len(),
{
    if is.len() == 0 {
        Seq::empty()
    } else {
        let k = kinds_in(is.drop_last());
        if k.contains(is.last().kind@) {
            k
        } else {
            k.push(is.last().kind@)
        }
    }
}

/// The places of the issues of kind `kind`, in order.
pub open spec fn places_of_kind(is: Seq<SecurityIssue>, kind: Seq<char>) -> Seq<Seq<char>>
    decreases is.len(),
{
    if is.len() == 0 {
        Seq::empty()
    } else {
        let r = places_of_kind(is.drop_last(), kind);
        if is.last().kind@ == kind {
            r.push(issue_place(is.last()))
        } else {
            r
        }
    }
}

/// How a kind of issue is named in the report.
pub open spec fn kind_label(k: Seq<char>) -> Seq<char> {
    if k == "eval"@ {
        "eval() usage"@
    } else if k == "secret"@ {
        "Possible hardcoded secrets"@
    } else if k == "sql_injection"@ {
        "SQL interpolation"@
    } else {
        k
    }
}

/// `Label: places` with up to five places of the kind.
pub open spec fn kind_line(is: Seq<SecurityIssue>, k: Seq<char>) -> Seq<char> {
    let ps = places_of_kind(is, k);
    kind_label(k) + ": "@ + listing(ps, 5, ", "@) + more(ps.len(), 5) + "\n"@
}

pub open spec fn kind_lines(is: Seq<SecurityIssue>, ks: Seq<Seq<char>>) -> Seq<char>
    decreases ks.len(),
{
    if ks.len() == 0 {
        Seq::empty()
    } else {
        kind_lines(is, ks.drop_last()) + kind_line(is, ks.last())
    }
}

/// The security section: one line per kind of issue, kinds in the order
/// they first occur.
pub open spec fn security_section(is: Seq<SecurityIssue>) -> Seq<char> {
    if is.len() == 0 {
        Seq::empty()
    } else {
        "[Security]\n"@ + kind_lines(is, kinds_in(is)) + "\n"@
    }
}

fn kinds_exec(is: &Vec<SecurityIssue>) -> (r: Vec<Vec<char>>)
    ensures
        views(r@) == kinds_in(is@),
{
    let n = is.len();
    let mut r: Vec<Vec<char>> = Vec::new();
    for i in 0..n
        invariant
            n == is@.len(),
            views(r@) == kinds_in(is@.take(i as int)),
    {
        assert(is@.take(i + 1).drop_last() =~= is@.take(i as int));
        assert(is@.take(i + 1).last() == is@[i as int]);
        let k = chars_of(is[i].kind.as_str());
        match crate::text::index_of(&r, k.as_slice()) {
            Some(j) => {
                assert(views(r@)[j as int] == k@);
            },
            None => {
                let ghost before = views(r@);
                let ghost kv = k@;
                r.push(k);
                assert(views(r@) =~= before.push(kv));
            },
        }
    }
    assert(is@.take(n as int) =~= is@);
    r
}

fn places_exec(is: &Vec<SecurityIssue>, kind: &[char]) -> (r: Vec<Vec<char>>)
    ensures
        views(r@) == places_of_kind(is@, kind@),
{
    let n = is.len();
    let mut r: Vec<Vec<char>> = Vec::new();
    for i in 0..n
        invariant
            n == is@.len(),
            views(r@) == places_of_kind(is@.take(i as int), kind@),
    {
        assert(is@.take(i + 1).drop_last() =~= is@.take(i as int));
        assert(is@.take(i + 1).last() == is@[i as int]);
        let k = chars_of(is[i].kind.as_str());
        if crate::text::eq_chars(k.as_slice(), kind) {
            let mut item = file_name_chars(is[i].file.as_str());
            put(&mut item, ":");
            put_num(&mut item, is[i].line as u64);
            let ghost before = views(r@);
            let ghost iv = item@;
            r.push(item);
            assert(views(r@) =~= before.push(iv));
        }
    }
    assert(is@.take(n as int) =~= is@);
    r
}

fn put_kind_label(out: &mut Vec<char>, k: &[char])
    ensures
        final(out)@ == old(out)@ + kind_label(k@),
{
    if crate::text::is(k, "eval") {
        put(out, "eval() usage");
    } else if crate::text::is(k, "secret") {
        put(out, "Possible hardcoded secrets");
    } else if crate::text::is(k, "sql_injection") {
        put(out, "SQL interpolation");
    } else {
        put_chars(out, k);
    }
}

/// The security section of the report.
#[verifier::spinoff_prover]
pub fn format_security(scans: &ScanResults) -> (r: String)
    ensures
        r@ == security_section(scans.security@),
{
    let is = &scans.security;
    let mut out: Vec<char> = Vec::new();
    if is.len() == 0 {
        return string_of(out.as_slice());
    }
    put(&mut out, "[Security]\n");
    let ghost s0 = out@;
    let kinds = kinds_exec(is);
    let nk = kinds.len();
    let ghost ks = views(kinds@);
    assert(ks.take(0) =~= Seq::<Seq<char>>::empty());
    for q in 0..nk
        invariant
            nk == kinds@.len(),
            ks == views(kinds@),
            out@ == s0 + kind_lines(is@, ks.take(q as int)),
    {
        assert(ks.take(q + 1).drop_last() =~= ks.take(q as int));
        assert(ks.take(q + 1).last() == kinds@[q as int]@);
        let ghost before = out@;
        let places = places_exec(is, kinds[q].as_slice());
        put_kind_label(&mut out, kinds[q].as_slice());
        put(&mut out, ": ");
        put_listing(&mut out, &places, 5, ", ");
        put_more(&mut out, places.len(), 5);
        put(&mut out, "\n");
        assert(out@ =~= before + kind_line(is@, kinds@[q as int]@));
    }
    assert(ks.take(nk as int) =~= ks);
    put(&mut out, "\n");
    string_of(out.as_slice())
}

// ---------------------------------------------------------------------------
// The whole report
// ---------------------------------------------------------------------------

/// The sections one after another.
pub open spec fn concat_all(ss: Seq<Seq<char>>) -> Seq<char>
    decreases ss.len(),
{
    if ss.len() == 0 {
        Seq::empty()
    } else {
        concat_all(ss.drop_last()) + ss.last()
    }
}

/// The report made of `sections`, without trailing white space.
pub fn finish_report(sections: &Vec<String>) -> (r: String)
    ensures
        r@ == trim_end(concat_all(strs(sections@))),
{
    let n = sections.len();
    let mut out: Vec<char> = Vec::new();
    let ghost ss = strs(sections@);
    assert(ss.take(0) =~= Seq::<Seq<char>>::empty());
    for i in 0..n
        invariant
            n == sections@.len(),
            ss == strs(sections@),
            out@ == concat_all(ss.take(i as int)),
    {
        assert(ss.take(i + 1).drop_last() =~= ss.take(i as int));
        assert(ss.take(i + 1).last() == sections@[i as int]@);
        put_str(&mut out, sections[i].as_str());
    }
    assert(ss.take(n as int) =~= ss);
    let mut hi = out.len();
    while hi > 0 && is_ws_char(out[hi - 1])
        invariant
            hi <= out@.len(),
            forall|j: int| hi <= j < out@.len() ==> is_ws(#[trigger] out@[j]),
        decreases hi,
    {
        hi -= 1;
    }
    proof {
        crate::text::lemma_trim_end_cut(out@, hi as int);
        let u = out@.subrange(0, hi as int);
        assert(trim_end(u) == u) by {
            if u.len() > 0 {
                assert(u.last() == out@[hi - 1]);
            }
        }
    }
    let t = slice_of(out.as_slice(), 0, hi);
    string_of(t.as_slice())
}

// ---------------------------------------------------------------------------
// Modules
// ---------------------------------------------------------------------------

/// `name: Nf, Ncx, N↑, N↓` and a newline.
pub open spec fn module_line(e: (String, ModuleInfo)) -> Seq<char> {
    e.0@ + ": "@ + decimal(e.1.files as nat) + "f, "@ + decimal(e.1.connections as nat) + "cx, "@
        + decimal(e.1.imports as nat) + "↑, "@ + decimal(e.1.exports as nat) + "↓\n"@
}

pub open spec fn connection_keys(ms: Seq<(String, ModuleInfo)>) -> Seq<u64> {
    ms.map_values(|e: (String, ModuleInfo)| e.1.connections as u64)
}

/// The lines of the modules at the positions `order`.
pub open spec fn module_lines(ms: Seq<(String, ModuleInfo)>, order: Seq<usize>) -> Seq<char>
    decreases order.len(),
{
    if order.len() == 0 {
        Seq::empty()
    } else {
        module_lines(ms, order.drop_last()) + module_line(ms[order.last() as int])
    }
}

/// The modules section, for projects of five files or more: the six
/// modules with the most connections, most first.
pub open spec fn modules_section(files: u32, ms: Seq<(String, ModuleInfo)>) -> Seq<char> {
    if files >= 5 && ms.len() > 0 {
        "[Modules]\n"@ + module_lines(
            ms,
            first_positions(order_desc(connection_keys(ms), ms.len()), 6),
        ) + "\n"@
    } else {
        Seq::empty()
    }
}

fn put_module_line(out: &mut Vec<char>, e: &(String, ModuleInfo))
    ensures
        final(out)@ == old(out)@ + module_line(*e),
{
    put_str(out, e.0.as_str());
    put(out, ": ");
    put_num(out, e.1.files as u64);
    put(out, "f, ");
    put_num(out, e.1.connections as u64);
    put(out, "cx, ");
    put_num(out, e.1.imports as u64);
    put(out, "↑, ");
    put_num(out, e.1.exports as u64);
    put(out, "↓\n");
    assert(out@ =~= old(out)@ + module_line(*e));
}

/// The modules section of the report.
#[verifier::spinoff_prover]
pub fn format_modules(stats: &AggregatedStats, graph: &DepGraph) -> (r: String)
    ensures
        r@ == modules_section(stats.files, graph.modules@),
{
    let ms = &graph.modules;
    let n = ms.len();
    let mut out: Vec<char> = Vec::new();
    if !(stats.files >= 5 && n > 0) {
        return string_of(out.as_slice());
    }
    let mut keys: Vec<u64> = Vec::new();
    for i in 0..n
        invariant
            n == ms@.len(),
            keys@ == connection_keys(ms@).take(i as int),
    {
        keys.push(ms[i].1.connections as u64);
        assert(keys@ =~= connection_keys(ms@).take(i + 1));
    }
    assert(keys@ =~= connection_keys(ms@));
    let order = rank_desc(&keys);
    let k: usize = if order.len() <= 6 {
        order.len()
    } else {
        6
    };
    assert(first_positions(order@, 6) =~= order@.take(k as int));
    put(&mut out, "[Modules]\n");
    let ghost s0 = out@;
    assert(order@.take(0) =~= Seq::<usize>::empty());
    for i in 0..k
        invariant
            k <= order@.len(),
            n == ms@.len(),
            forall|j: int| 0 <= j < order@.len() ==> (#[trigger] order@[j]) < n,
            out@ == s0 + module_lines(ms@, order@.take(i as int)),
    {
        assert(order@.take(i + 1).drop_last() =~= order@.take(i as int));
        assert(order@.take(i + 1).last() == order@[i as int]);
        let p = order[i];
        put_module_line(&mut out, &ms[p]);
    }
    put(&mut out, "\n");
    string_of(out.as_slice())
}

// ---------------------------------------------------------------------------
// Architecture
// ---------------------------------------------------------------------------

/// A file name without its last extension (`rsplit_once('.')`).
pub open spec fn stem_of(fname: Seq<char>) -> Seq<char> {
    if fname.contains('.') {
        fname.take(fname.len() - last_piece(fname, '.').len() - 1)
    } else {
        fname
    }
}

pub open spec fn coupling_keys(cp: Seq<(String, (u32, u32))>) -> Seq<u64> {
    cp.map_values(|c: (String, (u32, u32))| (c.1.0 as u64 + c.1.1 as u64) as u64)
}

/// `name(↑out↓in)` for a coupled file.
pub open spec fn key_file_item(c: (String, (u32, u32))) -> Seq<char> {
    stem_of(file_name_of(c.0@)) + "(↑"@ + decimal(c.1.1 as nat) + "↓"@ + decimal(c.1.0 as nat)
        + ")"@
}

pub open spec fn key_file_items(cp: Seq<(String, (u32, u32))>, order: Seq<usize>) -> Seq<Seq<char>> {
    order.map_values(|i: usize| key_file_item(cp[i as int]))
}

/// A cycle as file names joined by arrows.
pub open spec fn cycle_item(c: Vec<String>) -> Seq<char> {
    join(file_names(strs(c@)), "→"@)
}

pub open spec fn cycle_items(cs: Seq<Vec<String>>) -> Seq<Seq<char>> {
    cs.map_values(|c: Vec<String>| cycle_item(c))
}

/// Node.js built-in modules, which are not outside dependencies.
pub open spec fn is_node_builtin(n: Seq<char>) -> bool {
    ||| n == "fs"@ || n == "path"@ || n == "os"@ || n == "util"@ || n == "crypto"@
    ||| n == "http"@ || n == "https"@ || n == "url"@ || n == "stream"@ || n == "events"@
    ||| n == "child_process"@ || n == "assert"@ || n == "buffer"@ || n == "querystring"@
    ||| n == "zlib"@ || n == "net"@ || n == "tls"@ || n == "dns"@ || n == "cluster"@
    ||| n == "readline"@ || n == "worker_threads"@
}

/// The packages with their counts.
pub open spec fn package_views(ext: Seq<(String, u32)>) -> Seq<(Seq<char>, u32)> {
    ext.map_values(|e: (String, u32)| (e.0@, e.1))
}

/// The outside packages that are not built-ins, in order.
pub open spec fn outside_packages(ext: Seq<(Seq<char>, u32)>) -> Seq<(Seq<char>, u32)>
    decreases ext.len(),
{
    if ext.len() == 0 {
        Seq::empty()
    } else {
        let r = outside_packages(ext.drop_last());
        if is_node_builtin(ext.last().0) {
            r
        } else {
            r.push(ext.last())
        }
    }
}

/// The outside dependencies the report lists are never Node.js built-ins,
/// and every other imported package is among them with its count.
pub proof fn lemma_outside_packages_skip_builtins(ext: Seq<(Seq<char>, u32)>)
    ensures
        forall|i: int|
            0 <= i < outside_packages(ext).len() ==> !is_node_builtin(
                (#[trigger] outside_packages(ext)[i]).0,
            ) && ext.contains(outside_packages(ext)[i]),
        forall|e: (Seq<char>, u32)|
            #[trigger] ext.contains(e) && !is_node_builtin(e.0) ==> outside_packages(ext).contains(e),
    decreases ext.len(),
{
    if ext.len() > 0 {
        let rest = ext.drop_last();
        lemma_outside_packages_skip_builtins(rest);
        let r = outside_packages(rest);
        assert forall|i: int| 0 <= i < outside_packages(ext).len() implies !is_node_builtin(
            (#[trigger] outside_packages(ext)[i]).0,
        ) && ext.contains(outside_packages(ext)[i]) by {
            if i < r.len() {
                assert(outside_packages(ext)[i] == r[i]);
                let j = choose|j: int| 0 <= j < rest.len() && rest[j] == r[i];
                assert(ext[j] == rest[j]);
            } else {
                assert(outside_packages(ext)[i] == ext.last());
                assert(ext[ext.len() - 1] == ext.last());
            }
        }
        assert forall|e: (Seq<char>, u32)| #[trigger] ext.contains(e) && !is_node_builtin(e.0) implies outside_packages(ext).contains(e) by {
            let j = choose|j: int| 0 <= j < ext.len() && ext[j] == e;
            if j < rest.len() {
                assert(rest[j] == e);
                assert(rest.contains(e));
                let q = choose|q: int| 0 <= q < r.len() && r[q] == e;
                assert(outside_packages(ext)[q] == e);
            } else {
                assert(outside_packages(ext)[r.len() as int] == e);
            }
        }
    }
}

pub open spec fn count_keys(ext: Seq<(Seq<char>, u32)>) -> Seq<u64> {
    ext.map_values(|e: (Seq<char>, u32)| e.1 as u64)
}

/// `name(count)`.
pub open spec fn package_item(e: (Seq<char>, u32)) -> Seq<char> {
    e.0 + "("@ + decimal(e.1 as nat) + ")"@
}

pub open spec fn package_items(ext: Seq<(Seq<char>, u32)>, order: Seq<usize>) -> Seq<Seq<char>> {
    order.map_values(|i: usize| package_item(ext[i as int]))
}

/// The outside dependencies line: the six most imported packages that are
/// not built-ins, most first; nothing when there are none.
pub open spec fn external_line(ext: Seq<(Seq<char>, u32)>) -> Seq<char> {
    let kept = outside_packages(ext);
    if kept.len() > 0 {
        "External deps: "@ + join(
            package_items(kept, first_positions(order_desc(count_keys(kept), kept.len()), 6)),
            ", "@,
        ) + "\n"@
    } else {
        Seq::empty()
    }
}

/// `from→to` for each cross-module import.
pub open spec fn cross_keys(cs: Seq<(String, String)>) -> Seq<Seq<char>> {
    cs.map_values(|c: (String, String)| c.0@ + "→"@ + c.1@)
}

/// Each item once, in the order of first occurrence.
pub open spec fn distinct_in_order(items: Seq<Seq<char>>) -> Seq<Seq<char>>
    decreases items.len(),
{
    if items.len() == 0 {
        Seq::empty()
    } else {
        let r = distinct_in_order(items.drop_last());
        if r.contains(items.last()) {
            r
        } else {
            r.push(items.last())
        }
    }
}

/// The names of the modules that import more than they are imported
/// (`importers`) or the reverse.
pub open spec fn flow_names(ms: Seq<(String, ModuleInfo)>, importers: bool) -> Seq<Seq<char>>
    decreases ms.len(),
{
    if ms.len() == 0 {
        Seq::empty()
    } else {
        let r = flow_names(ms.drop_last(), importers);
        let i = ms.last().1;
        if (importers && i.imports > i.exports) || (!importers && i.exports > i.imports) {
            r.push(ms.last().0@)
        } else {
            r
        }
    }
}

/// The module flow line: up to three providers and three consumers.
pub open spec fn flow_line(ms: Seq<(String, ModuleInfo)>) -> Seq<char> {
    let consumers = flow_names(ms, true);
    let providers = flow_names(ms, false);
    if ms.len() > 0 && (consumers.len() > 0 || providers.len() > 0) {
        "Module flow: "@ + join(
            (if providers.len() > 0 {
                seq!["providers: "@ + listing(providers, 3, ", "@)]
            } else {
                Seq::empty()
            }) + (if consumers.len() > 0 {
                seq!["consumers: "@ + listing(consumers, 3, ", "@)]
            } else {
                Seq::empty()
            }),
            " | "@,
        ) + "\n"@
    } else {
        Seq::empty()
    }
}

/// The architecture section, for projects of three files or more with
/// coupled files: the eight most connected files, up to three cycles, the
/// outside dependencies, up to six distinct cross-module imports and the
/// module flow.
pub open spec fn architecture_section(files: u32, g: DepGraph) -> Seq<char> {
    let cp = g.coupling@;
    if cp.len() > 0 && files >= 3 {
        "[Architecture]\nKey files: "@ + join(
            key_file_items(cp, first_positions(order_desc(coupling_keys(cp), cp.len()), 8)),
            ", "@,
        ) + "\n"@ + when(
            g.circular@.len() > 0,
            "Circular: "@ + listing(cycle_items(g.circular@), 3, "; "@) + "\n"@,
        ) + external_line(package_views(g.external_imports@)) + when(
            g.cross_module_deps@.len() > 0,
            "Cross-module: "@ + listing(
                distinct_in_order(cross_keys(g.cross_module_deps@)),
                6,
                ", "@,
            ) + "\n"@,
        ) + flow_line(g.modules@) + "\n"@
    } else {
        Seq::empty()
    }
}

pub(crate) fn stem_chars(f: &[char]) -> (r: Vec<char>)
    ensures
        r@ == stem_of(f@),
{
    let n = f.len();
    let mut start = n;
    while start > 0 && f[start - 1] != '.'
        invariant
            start <= n == f@.len(),
            forall|j: int| start <= j < n ==> f@[j] != '.',
        decreases start,
    {
        start -= 1;
    }
    proof {
        crate::text::lemma_last_piece_from(f@, '.', start as int);
    }
    if start == 0 {
        assert(!f@.contains('.')) by {
            if f@.contains('.') {
                let j = choose|j: int| 0 <= j < f@.len() && f@[j] == '.';
            }
        }
        assert(f@.subrange(0, n as int) =~= f@);
        slice_of(f, 0, n)
    } else {
        assert(f@[start - 1] == '.');
        assert(f@.contains('.'));
        slice_of(f, 0, start - 1)
    }
}

fn put_key_file_item(out: &mut Vec<char>, c: &(String, (u32, u32)))
    ensures
        final(out)@ == old(out)@ + key_file_item(*c),
{
    let name = file_name_chars(c.0.as_str());
    let stem = stem_chars(name.as_slice());
    put_chars(out, stem.as_slice());
    put(out, "(↑");
    put_num(out, c.1.1 as u64);
    put(out, "↓");
    put_num(out, c.1.0 as u64);
    put(out, ")");
    assert(out@ =~= old(out)@ + key_file_item(*c));
}

fn key_file_items_exec(cp: &Vec<(String, (u32, u32))>, order: &Vec<usize>, k: usize) -> (r: Vec<
    Vec<char>,
>)
    requires
        k <= order@.len(),
        forall|j: int| 0 <= j < order@.len() ==> (#[trigger] order@[j]) < cp@.len(),
    ensures
        views(r@) == key_file_items(cp@, order@.take(k as int)),
{
    let mut r: Vec<Vec<char>> = Vec::new();
    assert(key_file_items(cp@, order@.take(0)) =~= Seq::<Seq<char>>::empty());
    for i in 0..k
        invariant
            k <= order@.len(),
            forall|j: int| 0 <= j < order@.len() ==> (#[trigger] order@[j]) < cp@.len(),
            views(r@) == key_file_items(cp@, order@.take(i as int)),
    {
        let mut item: Vec<char> = Vec::new();
        put_key_file_item(&mut item, &cp[order[i]]);
        let ghost before = views(r@);
        let ghost iv = item@;
        r.push(item);
        assert(views(r@) =~= before.push(iv));
        assert(order@.take(i + 1) =~= order@.take(i as int).push(order@[i as int]));
        assert(key_file_items(cp@, order@.take(i + 1)) =~= key_file_items(
            cp@,
            order@.take(i as int),
        ).push(key_file_item(cp@[order@[i as int] as int])));
    }
    r
}

fn cycle_items_exec(cs: &Vec<Vec<String>>) -> (r: Vec<Vec<char>>)
    ensures
        views(r@) == cycle_items(cs@),
{
    let n = cs.len();
    let mut r: Vec<Vec<char>> = Vec::new();
    for i in 0..n
        invariant
            n == cs@.len(),
            views(r@) == cycle_items(cs@.take(i as int)),
    {
        let names = file_names_exec(&cs[i]);
        let item = join_exec(&names, "→");
        let ghost before = views(r@);
        let ghost iv = item@;
        r.push(item);
        assert(views(r@) =~= before.push(iv));
        assert(cycle_items(cs@.take(i + 1)) =~= cycle_items(cs@.take(i as int)).push(
            cycle_item(cs@[i as int]),
        ));
    }
    assert(cs@.take(n as int) =~= cs@);
    r
}

fn is_node_builtin_exec(n: &[char]) -> (r: bool)
    ensures
        r == is_node_builtin(n@),
{
    crate::text::is(n, "fs") || crate::text::is(n, "path") || crate::text::is(n, "os")
        || crate::text::is(n, "util") || crate::text::is(n, "crypto") || crate::text::is(n, "http")
        || crate::text::is(n, "https") || crate::text::is(n, "url") || crate::text::is(n, "stream")
        || crate::text::is(n, "events") || crate::text::is(n, "child_process") || crate::text::is(
        n,
        "assert",
    ) || crate::text::is(n, "buffer") || crate::text::is(n, "querystring") || crate::text::is(
        n,
        "zlib",
    ) || crate::text::is(n, "net") || crate::text::is(n, "tls") || crate::text::is(n, "dns")
        || crate::text::is(n, "cluster") || crate::text::is(n, "readline") || crate::text::is(
        n,
        "worker_threads",
    )
}

pub open spec fn char_pair_views(v: Seq<(Vec<char>, u32)>) -> Seq<(Seq<char>, u32)> {
    v.map_values(|e: (Vec<char>, u32)| (e.0@, e.1))
}

fn outside_packages_exec(ext: &Vec<(String, u32)>) -> (r: Vec<(Vec<char>, u32)>)
    ensures
        char_pair_views(r@) == outside_packages(package_views(ext@)),
{
    let n = ext.len();
    let mut r: Vec<(Vec<char>, u32)> = Vec::new();
    let ghost pv = package_views(ext@);
    assert(pv.take(0) =~= Seq::<(Seq<char>, u32)>::empty());
    for i in 0..n
        invariant
            n == ext@.len(),
            pv == package_views(ext@),
            char_pair_views(r@) == outside_packages(pv.take(i as int)),
    {
        assert(pv.take(i + 1).drop_last() =~= pv.take(i as int));
        assert(pv.take(i + 1).last() == (ext@[i as int].0@, ext@[i as int].1));
        let name = chars_of(ext[i].0.as_str());
        if !is_node_builtin_exec(name.as_slice()) {
            let ghost before = char_pair_views(r@);
            let ghost nv = name@;
            r.push((name, ext[i].1));
            assert(char_pair_views(r@) =~= before.push((nv, ext@[i as int].1)));
        }
    }
    assert(pv.take(n as int) =~= pv);
    r
}

fn put_external_line(out: &mut Vec<char>, ext: &Vec<(String, u32)>)
    ensures
        final(out)@ == old(out)@ + external_line(package_views(ext@)),
{
    let kept = outside_packages_exec(ext);
    let ghost kv = char_pair_views(kept@);
    let n = kept.len();
    if n == 0 {
        assert(old(out)@ + Seq::<char>::empty() =~= old(out)@);
        return ;
    }
    let mut keys: Vec<u64> = Vec::new();
    for i in 0..n
        invariant
            n == kept@.len(),
            kv == char_pair_views(kept@),
            keys@ == count_keys(kv).take(i as int),
    {
        keys.push(kept[i].1 as u64);
        assert(keys@ =~= count_keys(kv).take(i + 1));
    }
    assert(keys@ =~= count_keys(kv));
    let order = rank_desc(&keys);
    let k: usize = if order.len() <= 6 {
        order.len()
    } else {
        6
    };
    assert(first_positions(order@, 6) =~= order@.take(k as int));
    let mut items: Vec<Vec<char>> = Vec::new();
    assert(package_items(kv, order@.take(0)) =~= Seq::<Seq<char>>::empty());
    for i in 0..k
        invariant
            k <= order@.len(),
            n == kept@.len(),
            kv == char_pair_views(kept@),
            forall|j: int| 0 <= j < order@.len() ==> (#[trigger] order@[j]) < n,
            views(items@) == package_items(kv, order@.take(i as int)),
    {
        let e = &kept[order[i]];
        let mut item: Vec<char> = Vec::new();
        put_chars(&mut item, e.0.as_slice());
        put(&mut item, "(");
        put_num(&mut item, e.1 as u64);
        put(&mut item, ")");
        assert(item@ =~= package_item(kv[order@[i as int] as int]));
        let ghost before = views(items@);
        let ghost iv = item@;
        items.push(item);
        assert(views(items@) =~= before.push(iv));
        assert(order@.take(i + 1) =~= order@.take(i as int).push(order@[i as int]));
        assert(package_items(kv, order@.take(i + 1)) =~= package_items(kv, order@.take(i as int)).push(
            package_item(kv[order@[i as int] as int]),
        ));
    }
    put(out, "External deps: ");
    put_listing(out, &items, items.len(), ", ");
    assert(first_n(views(items@), items@.len() as nat) == views(items@));
    put(out, "\n");
}

fn cross_items_exec(cs: &Vec<(String, String)>) -> (r: Vec<Vec<char>>)
    ensures
        views(r@) == distinct_in_order(cross_keys(cs@)),
{
    let n = cs.len();
    let mut r: Vec<Vec<char>> = Vec::new();
    let ghost ks = cross_keys(cs@);
    assert(ks.take(0) =~= Seq::<Seq<char>>::empty());
    for i in 0..n
        invariant
            n == cs@.len(),
            ks == cross_keys(cs@),
            views(r@) == distinct_in_order(ks.take(i as int)),
    {
        assert(ks.take(i + 1).drop_last() =~= ks.take(i as int));
        let mut key = chars_of(cs[i].0.as_str());
        put(&mut key, "→");
        put_str(&mut key, cs[i].1.as_str());
        assert(ks.take(i + 1).last() == key@);
        match crate::text::index_of(&r, key.as_slice()) {
            Some(j) => {
                assert(views(r@)[j as int] == key@);
            },
            None => {
                let ghost before = views(r@);
                let ghost kv = key@;
                r.push(key);
                assert(views(r@) =~= before.push(kv));
            },
        }
    }
    assert(ks.take(n as int) =~= ks);
    r
}

fn flow_names_exec(ms: &Vec<(String, ModuleInfo)>, importers: bool) -> (r: Vec<Vec<char>>)
    ensures
        views(r@) == flow_names(ms@, importers),
{
    let n = ms.len();
    let mut r: Vec<Vec<char>> = Vec::new();
    assert(ms@.take(0) =~= Seq::<(String, ModuleInfo)>::empty());
    for i in 0..n
        invariant
            n == ms@.len(),
            views(r@) == flow_names(ms@.take(i as int), importers),
    {
        assert(ms@.take(i + 1).drop_last() =~= ms@.take(i as int));
        assert(ms@.take(i + 1).last() == ms@[i as int]);
        let info = &ms[i].1;
        if (importers && info.imports > info.exports) || (!importers && info.exports > info.imports) {
            let name = chars_of(ms[i].0.as_str());
            let ghost before = views(r@);
            let ghost nv = name@;
            r.push(name);
            assert(views(r@) =~= before.push(nv));
        }
    }
    assert(ms@.take(n as int) =~= ms@);
    r
}

fn put_flow_line(out: &mut Vec<char>, ms: &Vec<(String, ModuleInfo)>)
    ensures
        final(out)@ == old(out)@ + flow_line(ms@),
{
    let consumers = flow_names_exec(ms, true);
    let providers = flow_names_exec(ms, false);
    if !(ms.len() > 0 && (consumers.len() > 0 || providers.len() > 0)) {
        assert(old(out)@ + Seq::<char>::empty() =~= old(out)@);
        return ;
    }
    let mut parts: Vec<Vec<char>> = Vec::new();
    if providers.len() > 0 {
        let mut p: Vec<char> = Vec::new();
        put(&mut p, "providers: ");
        put_listing(&mut p, &providers, 3, ", ");
        parts.push(p);
    }
    let ghost p1 = views(parts@);
    assert(p1 =~= (if flow_names(ms@, false).len() > 0 {
        seq!["providers: "@ + listing(flow_names(ms@, false), 3, ", "@)]
    } else {
        Seq::empty()
    }));
    if consumers.len() > 0 {
        let mut c: Vec<char> = Vec::new();
        put(&mut c, "consumers: ");
        put_listing(&mut c, &consumers, 3, ", ");
        let ghost cv = c@;
        parts.push(c);
        assert(views(parts@) =~= p1.push(cv));
    }
    assert(views(parts@) =~= p1 + (if flow_names(ms@, true).len() > 0 {
        seq!["consumers: "@ + listing(flow_names(ms@, true), 3, ", "@)]
    } else {
        Seq::empty()
    }));
    put(out, "Module flow: ");
    put_listing(out, &parts, parts.len(), " | ");
    assert(first_n(views(parts@), parts@.len() as nat) == views(parts@));
    put(out, "\n");
}

/// The architecture section of the report; `stats.files` is the number of
/// files analysed.
#[verifier::spinoff_prover]
#[verifier::rlimit(40)]
pub fn format_architecture(stats: &AggregatedStats, graph: &DepGraph) -> (r: String)
    ensures
        r@ == architecture_section(stats.files, *graph),
{
    let cp = &graph.coupling;
    let n = cp.len();
    let mut out: Vec<char> = Vec::new();
    if !(n > 0 && stats.files >= 3) {
        return string_of(out.as_slice());
    }
    let mut keys: Vec<u64> = Vec::new();
    for i in 0..n
        invariant
            n == cp@.len(),
            keys@ == coupling_keys(cp@).take(i as int),
    {
        keys.push(cp[i].1.0 as u64 + cp[i].1.1 as u64);
        assert(keys@ =~= coupling_keys(cp@).take(i + 1));
    }
    assert(keys@ =~= coupling_keys(cp@));
    let order = rank_desc(&keys);
    let k: usize = if order.len() <= 8 {
        order.len()
    } else {
        8
    };
    assert(first_positions(order@, 8) =~= order@.take(k as int));
    let items = key_file_items_exec(cp, &order, k);
    put(&mut out, "[Architecture]\nKey files: ");
    put_listing(&mut out, &items, items.len(), ", ");
    assert(first_n(views(items@), items@.len() as nat) == views(items@));
    put(&mut out, "\n");
    let ghost s0 = out@;
    let nc = graph.circular.len();
    if nc > 0 {
        let cycles = cycle_items_exec(&graph.circular);
        put(&mut out, "Circular: ");
        put_listing(&mut out, &cycles, 3, "; ");
        put(&mut out, "\n");
    }
    let ghost s1 = out@;
    assert(s1 =~= s0 + when(
        nc > 0,
        "Circular: "@ + listing(cycle_items(graph.circular@), 3, "; "@) + "\n"@,
    ));
    put_external_line(&mut out, &graph.external_imports);
    let ghost s2 = out@;
    let nx = graph.cross_module_deps.len();
    if nx > 0 {
        let cross = cross_items_exec(&graph.cross_module_deps);
        put(&mut out, "Cross-module: ");
        put_listing(&mut out, &cross, 6, ", ");
        put(&mut out, "\n");
    }
    let ghost s3 = out@;
    assert(s3 =~= s2 + when(
        nx > 0,
        "Cross-module: "@ + listing(
            distinct_in_order(cross_keys(graph.cross_module_deps@)),
            6,
            ", "@,
        ) + "\n"@,
    ));
    put_flow_line(&mut out, &graph.modules);
    put(&mut out, "\n");
    string_of(out.as_slice())
}

// ---------------------------------------------------------------------------
// Tech stack
// ---------------------------------------------------------------------------

/// `ext` counts imports of the package `p`.
pub open spec fn imports(ext: Seq<(Seq<char>, u32)>, p: Seq<char>) -> bool {
    exists|j: int| 0 <= j < ext.len() && (#[trigger] ext[j]).0 == p
}

/// `stack` with `x` added unless it is already there.
pub open spec fn with_item(stack: Seq<Seq<char>>, x: Seq<char>) -> Seq<Seq<char>> {
    if stack.contains(x) {
        stack
    } else {
        stack.push(x)
    }
}

/// `stack` with each of `xs` added in turn.
pub open spec fn with_all(stack: Seq<Seq<char>>, xs: Seq<Seq<char>>) -> Seq<Seq<char>>
    decreases xs.len(),
{
    if xs.len() == 0 {
        stack
    } else {
        with_item(with_all(stack, xs.drop_last()), xs.last())
    }
}

/// Whether `ext` imports a package of the `i`-th well-known technology,
/// and the technology's name.
pub open spec fn known_tech(ext: Seq<(Seq<char>, u32)>, i: int) -> (bool, Seq<char>) {
    if i == 0 {
        (imports(ext, "stripe"@) || imports(ext, "@stripe"@), "Stripe"@)
    } else if i == 1 {
        (imports(ext, "redis"@) || imports(ext, "ioredis"@), "Redis"@)
    } else if i == 2 {
        (imports(ext, "prisma"@) || imports(ext, "@prisma/client"@), "Prisma"@)
    } else if i == 3 {
        (imports(ext, "drizzle-orm"@), "Drizzle"@)
    } else if i == 4 {
        (imports(ext, "mongoose"@) || imports(ext, "mongodb"@), "MongoDB"@)
    } else if i == 5 {
        (imports(ext, "pg"@) || imports(ext, "postgres"@), "PostgreSQL"@)
    } else if i == 6 {
        (imports(ext, "mysql2"@), "MySQL"@)
    } else if i == 7 {
        (imports(ext, "aws-sdk"@) || imports(ext, "@aws-sdk"@), "AWS SDK"@)
    } else if i == 8 {
        (imports(ext, "firebase"@), "Firebase"@)
    } else if i == 9 {
        (imports(ext, "supabase"@) || imports(ext, "@supabase"@), "Supabase"@)
    } else if i == 10 {
        (imports(ext, "socket.io"@), "Socket.IO"@)
    } else if i == 11 {
        (imports(ext, "graphql"@) || imports(ext, "@apollo"@), "GraphQL"@)
    } else if i == 12 {
        (imports(ext, "tailwindcss"@), "Tailwind"@)
    } else if i == 13 {
        (imports(ext, "sass"@), "Sass"@)
    } else if i == 14 {
        (imports(ext, "webpack"@), "Webpack"@)
    } else if i == 15 {
        (imports(ext, "vite"@), "Vite"@)
    } else if i == 16 {
        (imports(ext, "turbo"@), "Turbo"@)
    } else if i == 17 {
        (imports(ext, "docker"@), "Docker"@)
    } else if i == 18 {
        (imports(ext, "sentry"@) || imports(ext, "@sentry"@), "Sentry"@)
    } else if i == 19 {
        (imports(ext, "zod"@), "Zod"@)
    } else if i == 20 {
        (imports(ext, "joi"@), "Joi"@)
    } else {
        (imports(ext, "trpc"@) || imports(ext, "@trpc"@), "tRPC"@)
    }
}

/// The `i`-th text that marks a technology in a Go module path, and
/// the technology's name.
pub open spec fn go_tech(i: int) -> (Seq<char>, Seq<char>) {
    if i == 0 {
        ("stripe"@, "Stripe"@)
    } else if i == 1 {
        ("redis"@, "Redis"@)
    } else if i == 2 {
        ("mongo"@, "MongoDB"@)
    } else if i == 3 {
        ("postgres"@, "PostgreSQL"@)
    } else if i == 4 {
        ("mysql"@, "MySQL"@)
    } else {
        ("grpc"@, "gRPC"@)
    }
}

/// `stack` with the first `k` well-known technologies added whose packages
/// `ext` imports.
pub open spec fn with_known(stack: Seq<Seq<char>>, ext: Seq<(Seq<char>, u32)>, k: nat) -> Seq<
    Seq<char>,
>
    decreases k,
{
    if k == 0 {
        stack
    } else {
        let s = with_known(stack, ext, (k - 1) as nat);
        let t = known_tech(ext, k - 1);
        if t.0 {
            with_item(s, t.1)
        } else {
            s
        }
    }
}

/// `stack` with the first `k` technologies whose mark the Go module path `m`
/// holds.
pub open spec fn with_go_marks(stack: Seq<Seq<char>>, m: Seq<char>, k: nat) -> Seq<Seq<char>>
    decreases k,
{
    if k == 0 {
        stack
    } else {
        let s = with_go_marks(stack, m, (k - 1) as nat);
        let t = go_tech(k - 1);
        if contains_sub(m, t.0) {
            with_item(s, t.1)
        } else {
            s
        }
    }
}

/// `stack` with the technologies of each Go module in turn.
pub open spec fn with_go(stack: Seq<Seq<char>>, mods: Seq<Seq<char>>) -> Seq<Seq<char>>
    decreases mods.len(),
{
    if mods.len() == 0 {
        stack
    } else {
        with_go_marks(with_go(stack, mods.drop_last()), mods.last(), 6)
    }
}

/// The technologies: the frameworks found, then the well-known packages
/// imported, then those named by Go modules, each once.
pub open spec fn tech_stack(
    frameworks: Seq<Seq<char>>,
    ext: Seq<(Seq<char>, u32)>,
    go_modules: Seq<Seq<char>>,
) -> Seq<Seq<char>> {
    with_go(with_known(with_all(Seq::empty(), frameworks), ext, 22), go_modules)
}

pub open spec fn line_keys(bl: Seq<(String, LangStats)>) -> Seq<u64> {
    bl.map_values(|e: (String, LangStats)| e.1.lines as u64)
}

pub open spec fn names_at(bl: Seq<(String, LangStats)>, order: Seq<usize>) -> Seq<Seq<char>> {
    order.map_values(|i: usize| bl[i as int].0@)
}

/// The four languages with the most lines, most first.
pub open spec fn top_languages(bl: Seq<(String, LangStats)>) -> Seq<Seq<char>> {
    names_at(bl, first_positions(order_desc(line_keys(bl), bl.len()), 4))
}

/// The tech stack section: the technologies and the main languages.
pub open spec fn tech_stack_section(
    stats: AggregatedStats,
    ext: Seq<(Seq<char>, u32)>,
    frameworks: Seq<Seq<char>>,
    go_modules: Seq<Seq<char>>,
) -> Seq<char> {
    let stack = tech_stack(frameworks, ext, go_modules);
    let langs = top_languages(stats.by_language@);
    if stack.len() > 0 || langs.len() > 0 {
        "[Tech Stack]\n"@ + when(stack.len() > 0, "Stack: "@ + join(stack, ", "@) + "\n"@)
            + when(langs.len() > 0, "Languages: "@ + join(langs, ", "@) + "\n"@) + "\n"@
    } else {
        Seq::empty()
    }
}

fn imports_exec(ext: &Vec<(String, u32)>, p: &str) -> (r: bool)
    ensures
        r == imports(package_views(ext@), p@),
{
    let pv = chars_of(p);
    let n = ext.len();
    for j in 0..n
        invariant
            n == ext@.len(),
            pv@ == p@,
            forall|q: int| 0 <= q < j ==> ext@[q].0@ != p@,
    {
        let k = chars_of(ext[j].0.as_str());
        if crate::text::eq_chars(k.as_slice(), pv.as_slice()) {
            assert(package_views(ext@)[j as int].0 == p@);
            return true;
        }
    }
    assert(!imports(package_views(ext@), p@)) by {
        if imports(package_views(ext@), p@) {
            let j = choose|j: int|
                0 <= j < package_views(ext@).len() && (#[trigger] package_views(ext@)[j]).0 == p@;
            assert(ext@[j].0@ == p@);
        }
    }
    false
}

fn known_tech_exec(ext: &Vec<(String, u32)>, i: usize) -> (r: (bool, &'static str))
    ensures
        r.0 == known_tech(package_views(ext@), i as int).0,
        r.1@ == known_tech(package_views(ext@), i as int).1,
{
    if i == 0 {
        (imports_exec(ext, "stripe") || imports_exec(ext, "@stripe"), "Stripe")
    } else if i == 1 {
        (imports_exec(ext, "redis") || imports_exec(ext, "ioredis"), "Redis")
    } else if i == 2 {
        (imports_exec(ext, "prisma") || imports_exec(ext, "@prisma/client"), "Prisma")
    } else if i == 3 {
        (imports_exec(ext, "drizzle-orm"), "Drizzle")
    } else if i == 4 {
        (imports_exec(ext, "mongoose") || imports_exec(ext, "mongodb"), "MongoDB")
    } else if i == 5 {
        (imports_exec(ext, "pg") || imports_exec(ext, "postgres"), "PostgreSQL")
    } else if i == 6 {
        (imports_exec(ext, "mysql2"), "MySQL")
    } else if i == 7 {
        (imports_exec(ext, "aws-sdk") || imports_exec(ext, "@aws-sdk"), "AWS SDK")
    } else if i == 8 {
        (imports_exec(ext, "firebase"), "Firebase")
    } else if i == 9 {
        (imports_exec(ext, "supabase") || imports_exec(ext, "@supabase"), "Supabase")
    } else if i == 10 {
        (imports_exec(ext, "socket.io"), "Socket.IO")
    } else if i == 11 {
        (imports_exec(ext, "graphql") || imports_exec(ext, "@apollo"), "GraphQL")
    } else if i == 12 {
        (imports_exec(ext, "tailwindcss"), "Tailwind")
    } else if i == 13 {
        (imports_exec(ext, "sass"), "Sass")
    } else if i == 14 {
        (imports_exec(ext, "webpack"), "Webpack")
    } else if i == 15 {
        (imports_exec(ext, "vite"), "Vite")
    } else if i == 16 {
        (imports_exec(ext, "turbo"), "Turbo")
    } else if i == 17 {
        (imports_exec(ext, "docker"), "Docker")
    } else if i == 18 {
        (imports_exec(ext, "sentry") || imports_exec(ext, "@sentry"), "Sentry")
    } else if i == 19 {
        (imports_exec(ext, "zod"), "Zod")
    } else if i == 20 {
        (imports_exec(ext, "joi"), "Joi")
    } else {
        (imports_exec(ext, "trpc") || imports_exec(ext, "@trpc"), "tRPC")
    }
}

fn go_tech_exec(i: usize) -> (r: (&'static str, &'static str))
    ensures
        r.0@ == go_tech(i as int).0,
        r.1@ == go_tech(i as int).1,
{
    if i == 0 {
        ("stripe", "Stripe")
    } else if i == 1 {
        ("redis", "Redis")
    } else if i == 2 {
        ("mongo", "MongoDB")
    } else if i == 3 {
        ("postgres", "PostgreSQL")
    } else if i == 4 {
        ("mysql", "MySQL")
    } else {
        ("grpc", "gRPC")
    }
}

/// Adds `x` to `stack` unless it is already there.
pub(crate) fn add_item(stack: &mut Vec<Vec<char>>, x: &[char])
    ensures
        views(final(stack)@) == with_item(views(old(stack)@), x@),
{
    match crate::text::index_of(stack, x) {
        Some(j) => {
            assert(views(stack@)[j as int] == x@);
        },
        None => {
            let ghost before = views(stack@);
            let own = slice_of(x, 0, x.len());
            assert(own@ =~= x@);
            stack.push(own);
            assert(views(stack@) =~= before.push(x@));
        },
    }
}

fn tech_stack_exec(ext: &Vec<(String, u32)>, frameworks: &Vec<String>, go_modules: &Vec<String>) -> (r: Vec<
    Vec<char>,
>)
    ensures
        views(r@) == tech_stack(strs(frameworks@), package_views(ext@), strs(go_modules@)),
{
    let mut stack: Vec<Vec<char>> = Vec::new();
    let ghost fw = strs(frameworks@);
    let ghost pv = package_views(ext@);
    let ghost gm = strs(go_modules@);
    assert(views(stack@) =~= with_all(Seq::empty(), fw.take(0)));
    let nf = frameworks.len();
    for i in 0..nf
        invariant
            nf == frameworks@.len(),
            fw == strs(frameworks@),
            views(stack@) == with_all(Seq::empty(), fw.take(i as int)),
    {
        assert(fw.take(i + 1).drop_last() =~= fw.take(i as int));
        assert(fw.take(i + 1).last() == frameworks@[i as int]@);
        let x = chars_of(frameworks[i].as_str());
        add_item(&mut stack, x.as_slice());
    }
    assert(fw.take(nf as int) =~= fw);
    let ghost base = views(stack@);
    for k in 0..22
        invariant
            pv == package_views(ext@),
            views(stack@) == with_known(base, pv, k as nat),
    {
        let (hit, name) = known_tech_exec(ext, k);
        if hit {
            let nv = chars_of(name);
            add_item(&mut stack, nv.as_slice());
        }
    }
    let ghost known = views(stack@);
    let ng = go_modules.len();
    assert(gm.take(0) =~= Seq::<Seq<char>>::empty());
    for i in 0..ng
        invariant
            ng == go_modules@.len(),
            gm == strs(go_modules@),
            views(stack@) == with_go(known, gm.take(i as int)),
    {
        assert(gm.take(i + 1).drop_last() =~= gm.take(i as int));
        assert(gm.take(i + 1).last() == go_modules@[i as int]@);
        let m = chars_of(go_modules[i].as_str());
        let ghost start = views(stack@);
        for k in 0..6
            invariant
                views(stack@) == with_go_marks(start, m@, k as nat),
        {
            let (mark, name) = go_tech_exec(k);
            if crate::text::contains(m.as_slice(), mark) {
                let nv = chars_of(name);
                add_item(&mut stack, nv.as_slice());
            }
        }
    }
    assert(gm.take(ng as int) =~= gm);
    stack
}

/// The tech stack section of the report, from the frameworks and Go modules
/// the project declares and the packages its files import.
#[verifier::spinoff_prover]
pub fn format_tech_stack(
    stats: &AggregatedStats,
    dep_graph: &DepGraph,
    frameworks: &Vec<String>,
    go_modules: &Vec<String>,
) -> (r: String)
    ensures
        r@ == tech_stack_section(
            *stats,
            package_views(dep_graph.external_imports@),
            strs(frameworks@),
            strs(go_modules@),
        ),
{
    let stack = tech_stack_exec(&dep_graph.external_imports, frameworks, go_modules);
    let bl = &stats.by_language;
    let n = bl.len();
    let mut keys: Vec<u64> = Vec::new();
    for i in 0..n
        invariant
            n == bl@.len(),
            keys@ == line_keys(bl@).take(i as int),
    {
        keys.push(bl[i].1.lines as u64);
        assert(keys@ =~= line_keys(bl@).take(i + 1));
    }
    assert(keys@ =~= line_keys(bl@));
    let order = rank_desc(&keys);
    let k: usize = if order.len() <= 4 {
        order.len()
    } else {
        4
    };
    assert(first_positions(order@, 4) =~= order@.take(k as int));
    let mut langs: Vec<Vec<char>> = Vec::new();
    assert(names_at(bl@, order@.take(0)) =~= Seq::<Seq<char>>::empty());
    for i in 0..k
        invariant
            k <= order@.len(),
            n == bl@.len(),
            forall|j: int| 0 <= j < order@.len() ==> (#[trigger] order@[j]) < n,
            views(langs@) == names_at(bl@, order@.take(i as int)),
    {
        let name = chars_of(bl[order[i]].0.as_str());
        let ghost before = views(langs@);
        let ghost nv = name@;
        langs.push(name);
        assert(views(langs@) =~= before.push(nv));
        assert(order@.take(i + 1) =~= order@.take(i as int).push(order@[i as int]));
        assert(names_at(bl@, order@.take(i + 1)) =~= names_at(bl@, order@.take(i as int)).push(
            bl@[order@[i as int] as int].0@,
        ));
    }
    let mut out: Vec<char> = Vec::new();
    if !(stack.len() > 0 || langs.len() > 0) {
        return string_of(out.as_slice());
    }
    put(&mut out, "[Tech Stack]\n");
    let ghost s0 = out@;
    if stack.len() > 0 {
        put(&mut out, "Stack: ");
        put_listing(&mut out, &stack, stack.len(), ", ");
        assert(first_n(views(stack@), stack@.len() as nat) == views(stack@));
        put(&mut out, "\n");
    }
    let ghost s1 = out@;
    assert(s1 =~= s0 + when(
        stack@.len() > 0,
        "Stack: "@ + join(views(stack@), ", "@) + "\n"@,
    ));
    if langs.len() > 0 {
        put(&mut out, "Languages: ");
        put_listing(&mut out, &langs, langs.len(), ", ");
        assert(first_n(views(langs@), langs@.len() as nat) == views(langs@));
        put(&mut out, "\n");
    }
    let ghost s2 = out@;
    assert(s2 =~= s1 + when(
        langs@.len() > 0,
        "Languages: "@ + join(views(langs@), ", "@) + "\n"@,
    ));
    put(&mut out, "\n");
    string_of(out.as_slice())
}


// ---------------------------------------------------------------------------
// File flags
// ---------------------------------------------------------------------------

/// The flags of a file in the file index: `[circular]` when it lies on a
/// reported cycle, `[isolated]` when it is an orphan, `[complex]` when one
/// of its functions is longer than fifty lines, `[large]` when it is longer
/// than five hundred lines.
pub open spec fn file_flags(
    lines: u32,
    function_lines: Seq<u32>,
    g: DepGraph,
    path: Seq<char>,
) -> Seq<char> {
    when(
        exists|c: int| 0 <= c < g.circular@.len() && strs((#[trigger] g.circular@[c])@).contains(path),
        "[circular]"@,
    ) + when(strs(g.orphans@).contains(path), "[isolated]"@) + when(
        exists|f: int| 0 <= f < function_lines.len() && #[trigger] function_lines[f] > 50,
        "[complex]"@,
    ) + when(lines > 500, "[large]"@)
}

/// Whether `path` is one of `items`.
fn listed_in(items: &Vec<String>, path: &[char]) -> (r: bool)
    ensures
        r == strs(items@).contains(path@),
{
    let n = items.len();
    for i in 0..n
        invariant
            n == items@.len(),
            forall|j: int| 0 <= j < i ==> items@[j]@ != path@,
    {
        let v = chars_of(items[i].as_str());
        if crate::text::eq_chars(v.as_slice(), path) {
            assert(strs(items@)[i as int] == path@);
            return true;
        }
    }
    assert(!strs(items@).contains(path@)) by {
        if strs(items@).contains(path@) {
            let j = choose|j: int| 0 <= j < strs(items@).len() && strs(items@)[j] == path@;
            assert(items@[j]@ == path@);
        }
    }
    false
}

/// The flags of a file in the file index; `lines` is its length and
/// `function_lines` the lengths of its functions.
pub fn build_flags(lines: u32, function_lines: &Vec<u32>, dep_graph: &DepGraph, path: &str) -> (r:
    String)
    ensures
        r@ == file_flags(lines, function_lines@, *dep_graph, path@),
{
    let p = chars_of(path);
    let mut out: Vec<char> = Vec::new();
    let nc = dep_graph.circular.len();
    let mut on_cycle = false;
    for c in 0..nc
        invariant
            nc == dep_graph.circular@.len(),
            p@ == path@,
            on_cycle == exists|q: int| 0 <= q < c && strs((#[trigger] dep_graph.circular@[q])@).contains(path@),
    {
        if !on_cycle && listed_in(&dep_graph.circular[c], p.as_slice()) {
            on_cycle = true;
        }
    }
    if on_cycle {
        put(&mut out, "[circular]");
    }
    let ghost s0 = out@;
    if listed_in(&dep_graph.orphans, p.as_slice()) {
        put(&mut out, "[isolated]");
    }
    let ghost s1 = out@;
    let nf = function_lines.len();
    let mut long_fn = false;
    for f in 0..nf
        invariant
            nf == function_lines@.len(),
            long_fn == exists|q: int| 0 <= q < f && #[trigger] function_lines@[q] > 50,
    {
        if function_lines[f] > 50 {
            long_fn = true;
        }
    }
    if long_fn {
        put(&mut out, "[complex]");
    }
    let ghost s2 = out@;
    if lines > 500 {
        put(&mut out, "[large]");
    }
    assert(out@ =~= file_flags(lines, function_lines@, *dep_graph, path@));
    string_of(out.as_slice())
}

// ---------------------------------------------------------------------------
// The compact report
// ---------------------------------------------------------------------------

/// The sections of the compact report, in order: the header and the
/// languages line, then the tech stack, code patterns, I/O, features, data
/// layer, key locations, recent activity, developer notes, security, test
/// map, code organization, architecture, API surface, issues, dead code,
/// modules and file index sections.
pub open spec fn report_body(
    stats: AggregatedStats,
    file_metrics: Seq<(String, FileAnalysis)>,
    frameworks: Seq<Seq<char>>,
    go_modules: Seq<Seq<char>>,
    dep_graph: DepGraph,
    dead_code: DeadCode,
    duplicates: Seq<DuplicateGroup>,
    git: GitContext,
    scans: ScanResults,
    test_map: TestMap,
    data_layer: DataLayer,
    key_locations: KeyLocations,
    shares: Shares,
) -> Seq<char> {
    header_section(stats, shares) + langs_section(stats, shares.language_percents@)
        + tech_stack_section(stats, package_views(dep_graph.external_imports@), frameworks, go_modules)
        + patterns_section(file_metrics) + io_section(file_metrics) + features_section(file_metrics) + data_layer_section(data_layer) + key_locations_section(key_locations) + git_section(git)
        + notes_section(scans.todos@, scans.fixmes@, scans.hacks@) + security_section(
        scans.security@,
    ) + test_map_section(test_map, shares.test_percent) + organization_section(file_metrics)
        + architecture_section(stats.files, dep_graph) + api_section(file_metrics, dep_graph)
        + issues_section(dep_graph.circular@.len(), duplicates, file_metrics) + dead_code_section(dead_code) + modules_section(stats.files, dep_graph.modules@)
        + file_index_section(stats.files, file_metrics, dep_graph)
}

/// The compact report: its sections without trailing white space.
pub open spec fn compact_report(
    stats: AggregatedStats,
    file_metrics: Seq<(String, FileAnalysis)>,
    frameworks: Seq<Seq<char>>,
    go_modules: Seq<Seq<char>>,
    dep_graph: DepGraph,
    dead_code: DeadCode,
    duplicates: Seq<DuplicateGroup>,
    git: GitContext,
    scans: ScanResults,
    test_map: TestMap,
    data_layer: DataLayer,
    key_locations: KeyLocations,
    shares: Shares,
) -> Seq<char> {
    trim_end(
        report_body(
            stats,
            file_metrics,
            frameworks,
            go_modules,
            dep_graph,
            dead_code,
            duplicates,
            git,
            scans,
            test_map,
            data_layer,
            key_locations,
            shares,
        ),
    )
}

/// Renders the compact report; `frameworks` and `go_modules` are what the
/// project declares, `file_metrics` the measurements of each file, and
/// `shares` the quotients the report shows.
pub fn format_compact(
    stats: &AggregatedStats,
    file_metrics: &Vec<(String, FileAnalysis)>,
    frameworks: &Vec<String>,
    go_modules: &Vec<String>,
    dep_graph: &DepGraph,
    dead_code: &DeadCode,
    duplicates: &Vec<DuplicateGroup>,
    git: &GitContext,
    scans: &ScanResults,
    test_map: &TestMap,
    data_layer: &DataLayer,
    key_locations: &KeyLocations,
    shares: &Shares,
) -> (r: String)
    requires
        shares_fit(*stats, *test_map, *shares),
        labels_defined(*stats),
        long_function_count(file_metrics@) <= u64::MAX,
        io_fits(file_metrics@),
        urls_cuttable(file_metrics@),
        features_fit(file_metrics@),
        patterns_fit(file_metrics@),
    ensures
        r@ == compact_report(
            *stats,
            file_metrics@,
            strs(frameworks@),
            strs(go_modules@),
            *dep_graph,
            *dead_code,
            duplicates@,
            *git,
            *scans,
            *test_map,
            *data_layer,
            *key_locations,
            *shares,
        ),
{
    let mut sections: Vec<String> = Vec::new();
    sections.push(format_header(stats, shares));
    sections.push(format_langs(stats, shares));
    sections.push(format_tech_stack(stats, dep_graph, frameworks, go_modules));
    sections.push(format_patterns(file_metrics));
    sections.push(format_io(file_metrics));
    sections.push(format_features(file_metrics));
    sections.push(format_data_layer(data_layer));
    sections.push(format_key_locations(key_locations));
    sections.push(format_git(git));
    sections.push(format_dev_notes(scans));
    sections.push(format_security(scans));
    sections.push(format_test_map(test_map, shares.test_percent));
    sections.push(format_organization(file_metrics));
    sections.push(format_architecture(stats, dep_graph));
    sections.push(format_api(file_metrics, dep_graph));
    sections.push(format_issues(dep_graph.circular.len(), duplicates, file_metrics));
    sections.push(format_dead_code(dead_code));
    sections.push(format_modules(stats, dep_graph));
    sections.push(format_file_index(stats, file_metrics, dep_graph));
    let ghost ss = strs(sections@);
    proof {
        reveal_with_fuel(concat_all, 20);
        assert(concat_all(ss) =~= ss[0] + ss[1] + ss[2] + ss[3] + ss[4] + ss[5] + ss[6] + ss[7]
            + ss[8] + ss[9] + ss[10] + ss[11] + ss[12] + ss[13] + ss[14] + ss[15] + ss[16] + ss[17]
            + ss[18]);
    }
    finish_report(&sections)
}

proof fn lemma_trim_end_clean(s: Seq<char>)
    ensures
        trim_end(s).len() == 0 || !is_ws(trim_end(s).last()),
    decreases s.len(),
{
    if s.len() > 0 && is_ws(s.last()) {
        lemma_trim_end_clean(s.drop_last());
    }
}

proof fn lemma_decimal_first(n: nat)
    ensures
        decimal(n).len() > 0,
        !is_ws(decimal(n)[0]),
    decreases n,
{
    if n >= 10 {
        lemma_decimal_first(n / 10);
        assert(decimal(n)[0] == decimal(n / 10)[0]);
    }
}

proof fn lemma_trim_end_keeps_start(s: Seq<char>)
    requires
        s.len() > 0,
        !is_ws(s[0]),
    ensures
        trim_end(s).len() > 0,
        trim_end(s)[0] == s[0],
    decreases s.len(),
{
    if is_ws(s.last()) {
        lemma_trim_end_keeps_start(s.drop_last());
    }
}

/// The compact report is never empty: it opens with the header line, whose
/// first character is the first digit of the number of files, and it never
/// ends in white space.
pub proof fn lemma_report_ends_clean(
    stats: AggregatedStats,
    file_metrics: Seq<(String, FileAnalysis)>,
    frameworks: Seq<Seq<char>>,
    go_modules: Seq<Seq<char>>,
    dep_graph: DepGraph,
    dead_code: DeadCode,
    duplicates: Seq<DuplicateGroup>,
    git: GitContext,
    scans: ScanResults,
    test_map: TestMap,
    data_layer: DataLayer,
    key_locations: KeyLocations,
    shares: Shares,
)
    ensures
        ({
            let r = compact_report(
                stats,
                file_metrics,
                frameworks,
                go_modules,
                dep_graph,
                dead_code,
                duplicates,
                git,
                scans,
                test_map,
                data_layer,
                key_locations,
                shares,
            );
            r.len() > 0 && r[0] == decimal(stats.files as nat)[0] && !is_ws(r.last())
        }),
{
    let body = report_body(
        stats,
        file_metrics,
        frameworks,
        go_modules,
        dep_graph,
        dead_code,
        duplicates,
        git,
        scans,
        test_map,
        data_layer,
        key_locations,
        shares,
    );
    lemma_decimal_first(stats.files as nat);
    assert(body[0] == decimal(stats.files as nat)[0]);
    lemma_trim_end_keeps_start(body);
    lemma_trim_end_clean(body);
}


// ---------------------------------------------------------------------------
// What the tech stack holds
// ---------------------------------------------------------------------------

proof fn lemma_with_item_keeps(stack: Seq<Seq<char>>, x: Seq<char>, y: Seq<char>)
    requires
        stack.contains(y),
    ensures
        with_item(stack, x).contains(y),
{
    if !stack.contains(x) {
        let q = choose|q: int| 0 <= q < stack.len() && stack[q] == y;
        assert(stack.push(x)[q] == y);
    }
}

proof fn lemma_with_item_has(stack: Seq<Seq<char>>, x: Seq<char>)
    ensures
        with_item(stack, x).contains(x),
{
    if !stack.contains(x) {
        assert(stack.push(x)[stack.len() as int] == x);
    }
}

proof fn lemma_with_all_has(stack: Seq<Seq<char>>, xs: Seq<Seq<char>>, y: Seq<char>)
    requires
        stack.contains(y) || xs.contains(y),
    ensures
        with_all(stack, xs).contains(y),
    decreases xs.len(),
{
    if xs.len() > 0 {
        if xs.last() == y {
            lemma_with_item_has(with_all(stack, xs.drop_last()), y);
        } else {
            if xs.contains(y) {
                let q = choose|q: int| 0 <= q < xs.len() && xs[q] == y;
                assert(xs.drop_last()[q] == y);
            }
            lemma_with_all_has(stack, xs.drop_last(), y);
            lemma_with_item_keeps(with_all(stack, xs.drop_last()), xs.last(), y);
        }
    }
}

proof fn lemma_with_known_keeps(stack: Seq<Seq<char>>, ext: Seq<(Seq<char>, u32)>, k: nat, y: Seq<char>)
    requires
        stack.contains(y),
    ensures
        with_known(stack, ext, k).contains(y),
    decreases k,
{
    if k > 0 {
        lemma_with_known_keeps(stack, ext, (k - 1) as nat, y);
        lemma_with_item_keeps(with_known(stack, ext, (k - 1) as nat), known_tech(ext, k - 1).1, y);
    }
}

proof fn lemma_with_known_has(stack: Seq<Seq<char>>, ext: Seq<(Seq<char>, u32)>, k: nat, t: int)
    requires
        0 <= t < k,
        known_tech(ext, t).0,
    ensures
        with_known(stack, ext, k).contains(known_tech(ext, t).1),
    decreases k,
{
    let s = with_known(stack, ext, (k - 1) as nat);
    if t == k - 1 {
        lemma_with_item_has(s, known_tech(ext, t).1);
    } else {
        lemma_with_known_has(stack, ext, (k - 1) as nat, t);
        lemma_with_item_keeps(s, known_tech(ext, k - 1).1, known_tech(ext, t).1);
    }
}

proof fn lemma_with_go_marks_keeps(stack: Seq<Seq<char>>, m: Seq<char>, k: nat, y: Seq<char>)
    requires
        stack.contains(y),
    ensures
        with_go_marks(stack, m, k).contains(y),
    decreases k,
{
    if k > 0 {
        lemma_with_go_marks_keeps(stack, m, (k - 1) as nat, y);
        lemma_with_item_keeps(with_go_marks(stack, m, (k - 1) as nat), go_tech(k - 1).1, y);
    }
}

proof fn lemma_with_go_marks_has(stack: Seq<Seq<char>>, m: Seq<char>, k: nat, t: int)
    requires
        0 <= t < k,
        contains_sub(m, go_tech(t).0),
    ensures
        with_go_marks(stack, m, k).contains(go_tech(t).1),
    decreases k,
{
    let s = with_go_marks(stack, m, (k - 1) as nat);
    if t == k - 1 {
        lemma_with_item_has(s, go_tech(t).1);
    } else {
        lemma_with_go_marks_has(stack, m, (k - 1) as nat, t);
        lemma_with_item_keeps(s, go_tech(k - 1).1, go_tech(t).1);
    }
}

proof fn lemma_with_go_keeps(stack: Seq<Seq<char>>, mods: Seq<Seq<char>>, y: Seq<char>)
    requires
        stack.contains(y),
    ensures
        with_go(stack, mods).contains(y),
    decreases mods.len(),
{
    if mods.len() > 0 {
        lemma_with_go_keeps(stack, mods.drop_last(), y);
        lemma_with_go_marks_keeps(with_go(stack, mods.drop_last()), mods.last(), 6, y);
    }
}

proof fn lemma_with_go_has(stack: Seq<Seq<char>>, mods: Seq<Seq<char>>, g: int, t: int)
    requires
        0 <= g < mods.len(),
        0 <= t < 6,
        contains_sub(mods[g], go_tech(t).0),
    ensures
        with_go(stack, mods).contains(go_tech(t).1),
    decreases mods.len(),
{
    let s = with_go(stack, mods.drop_last());
    if g == mods.len() - 1 {
        lemma_with_go_marks_has(s, mods.last(), 6, t);
    } else {
        assert(mods.drop_last()[g] == mods[g]);
        lemma_with_go_has(stack, mods.drop_last(), g, t);
        lemma_with_go_marks_keeps(s, mods.last(), 6, go_tech(t).1);
    }
}

proof fn lemma_join_has(items: Seq<Seq<char>>, sep: Seq<char>, x: Seq<char>)
    requires
        items.contains(x),
    ensures
        contains_sub(join(items, sep), x),
    decreases items.len(),
{
    let q = choose|q: int| 0 <= q < items.len() && items[q] == x;
    if items.len() == 1 {
        assert(join(items, sep).subrange(0, x.len() as int) =~= x);
        assert(crate::text::occurs_at(join(items, sep), x, 0));
    } else {
        let pre = join(items.drop_last(), sep);
        if q == items.len() - 1 {
            let at = (pre.len() + sep.len()) as int;
            assert(join(items, sep).subrange(at, at + x.len()) =~= x);
            assert(crate::text::occurs_at(join(items, sep), x, at));
        } else {
            assert(items.drop_last()[q] == x);
            lemma_join_has(items.drop_last(), sep, x);
            let i = choose|i: int| crate::text::occurs_at(pre, x, i);
            assert(join(items, sep).subrange(i, i + x.len()) =~= pre.subrange(i, i + x.len()));
            assert(crate::text::occurs_at(join(items, sep), x, i));
        }
    }
}

proof fn lemma_trim_end_prefix(s: Seq<char>, j: int)
    requires
        0 <= j < s.len(),
        !is_ws(s[j]),
    ensures
        j < trim_end(s).len() <= s.len(),
        trim_end(s) =~= s.take(trim_end(s).len() as int),
    decreases s.len(),
{
    if is_ws(s.last()) {
        assert(s.drop_last()[j] == s[j]);
        lemma_trim_end_prefix(s.drop_last(), j);
        assert(s.drop_last().take(trim_end(s).len() as int) =~= s.take(trim_end(s).len() as int));
    } else {
        assert(s.take(s.len() as int) =~= s);
    }
}

/// Whatever the tech stack holds, the compact report names (every name
/// that can be in the stack ends in a character that is not white space).
proof fn lemma_stack_in_report(
    stats: AggregatedStats,
    file_metrics: Seq<(String, FileAnalysis)>,
    frameworks: Seq<Seq<char>>,
    go_modules: Seq<Seq<char>>,
    dep_graph: DepGraph,
    dead_code: DeadCode,
    duplicates: Seq<DuplicateGroup>,
    git: GitContext,
    scans: ScanResults,
    test_map: TestMap,
    data_layer: DataLayer,
    key_locations: KeyLocations,
    shares: Shares,
    x: Seq<char>,
)
    requires
        tech_stack(frameworks, package_views(dep_graph.external_imports@), go_modules).contains(x),
        x.len() > 0,
        !is_ws(x.last()),
    ensures
        contains_sub(
            compact_report(
                stats,
                file_metrics,
                frameworks,
                go_modules,
                dep_graph,
                dead_code,
                duplicates,
                git,
                scans,
                test_map,
                data_layer,
                key_locations,
                shares,
            ),
            x,
        ),
{
    let ext = package_views(dep_graph.external_imports@);
    let sec = tech_stack_section(stats, ext, frameworks, go_modules);
    let at = lemma_stack_in_section(stats, ext, frameworks, go_modules, x);
    let hl = header_section(stats, shares) + langs_section(stats, shares.language_percents@);
    let body = report_body(
        stats,
        file_metrics,
        frameworks,
        go_modules,
        dep_graph,
        dead_code,
        duplicates,
        git,
        scans,
        test_map,
        data_layer,
        key_locations,
        shares,
    );
    let off = hl.len() as int;
    lemma_occurs_third(
        header_section(stats, shares),
        langs_section(stats, shares.language_percents@),
        sec,
        patterns_section(file_metrics),
        io_section(file_metrics),
        features_section(file_metrics),
        data_layer_section(data_layer),
        key_locations_section(key_locations),
        git_section(git),
        notes_section(scans.todos@, scans.fixmes@, scans.hacks@),
        security_section(scans.security@),
        test_map_section(test_map, shares.test_percent),
        organization_section(file_metrics),
        architecture_section(stats.files, dep_graph),
        api_section(file_metrics, dep_graph),
        issues_section(dep_graph.circular@.len(), duplicates, file_metrics),
        dead_code_section(dead_code),
        modules_section(stats.files, dep_graph.modules@),
        file_index_section(stats.files, file_metrics, dep_graph),
        x,
        at,
    );
    assert(body.subrange(off + at, off + at + x.len()) =~= x);
    let last = off + at + x.len() - 1;
    assert(body[last] == body.subrange(off + at, off + at + x.len())[x.len() - 1]);
    lemma_trim_end_prefix(body, last);
    let r = trim_end(body);
    assert(r.subrange(off + at, off + at + x.len()) =~= body.subrange(off + at, off + at + x.len()));
    assert(crate::text::occurs_at(r, x, off + at));
}

proof fn lemma_stack_in_section(
    stats: AggregatedStats,
    ext: Seq<(Seq<char>, u32)>,
    frameworks: Seq<Seq<char>>,
    go_modules: Seq<Seq<char>>,
    x: Seq<char>,
) -> (at: int)
    requires
        tech_stack(frameworks, ext, go_modules).contains(x),
    ensures
        crate::text::occurs_at(tech_stack_section(stats, ext, frameworks, go_modules), x, at),
{
    let stack = tech_stack(frameworks, ext, go_modules);
    lemma_join_has(stack, ", "@, x);
    let jn = join(stack, ", "@);
    let i = choose|i: int| crate::text::occurs_at(jn, x, i);
    let sec = tech_stack_section(stats, ext, frameworks, go_modules);
    let at = "[Tech Stack]\n"@.len() + "Stack: "@.len() + i;
    assert(stack.len() > 0);
    assert(sec.subrange(at, at + x.len()) =~= jn.subrange(i, i + x.len()));
    at
}

proof fn lemma_occurs_extend(s: Seq<char>, t: Seq<char>, x: Seq<char>, i: int)
    requires
        crate::text::occurs_at(s, x, i),
    ensures
        crate::text::occurs_at(s + t, x, i),
{
    assert((s + t).subrange(i, i + x.len()) =~= s.subrange(i, i + x.len()));
}

/// Text found in the third of a run of sections is found in the whole run,
/// after the first two.
proof fn lemma_occurs_third(
    a0: Seq<char>,
    a1: Seq<char>,
    a2: Seq<char>,
    a3: Seq<char>,
    a4: Seq<char>,
    a5: Seq<char>,
    a6: Seq<char>,
    a7: Seq<char>,
    a8: Seq<char>,
    a9: Seq<char>,
    a10: Seq<char>,
    a11: Seq<char>,
    a12: Seq<char>,
    a13: Seq<char>,
    a14: Seq<char>,
    a15: Seq<char>,
    a16: Seq<char>,
    a17: Seq<char>,
    a18: Seq<char>,
    x: Seq<char>,
    i: int,
)
    requires
        crate::text::occurs_at(a2, x, i),
    ensures
        crate::text::occurs_at(a0 + a1 + a2 + a3 + a4 + a5 + a6 + a7 + a8 + a9 + a10 + a11 + a12 + a13 + a14 + a15 + a16 + a17 + a18, x, a0.len() + a1.len() + i),
{
    let h = a0 + a1;
    assert((h + a2).subrange(h.len() + i, h.len() + i + x.len()) =~= a2.subrange(i, i + x.len()));
    let mut acc = h + a2;
    lemma_occurs_extend(acc, a3, x, a0.len() + a1.len() + i);
    acc = acc + a3;
    lemma_occurs_extend(acc, a4, x, a0.len() + a1.len() + i);
    acc = acc + a4;
    lemma_occurs_extend(acc, a5, x, a0.len() + a1.len() + i);
    acc = acc + a5;
    lemma_occurs_extend(acc, a6, x, a0.len() + a1.len() + i);
    acc = acc + a6;
    lemma_occurs_extend(acc, a7, x, a0.len() + a1.len() + i);
    acc = acc + a7;
    lemma_occurs_extend(acc, a8, x, a0.len() + a1.len() + i);
    acc = acc + a8;
    lemma_occurs_extend(acc, a9, x, a0.len() + a1.len() + i);
    acc = acc + a9;
    lemma_occurs_extend(acc, a10, x, a0.len() + a1.len() + i);
    acc = acc + a10;
    lemma_occurs_extend(acc, a11, x, a0.len() + a1.len() + i);
    acc = acc + a11;
    lemma_occurs_extend(acc, a12, x, a0.len() + a1.len() + i);
    acc = acc + a12;
    lemma_occurs_extend(acc, a13, x, a0.len() + a1.len() + i);
    acc = acc + a13;
    lemma_occurs_extend(acc, a14, x, a0.len() + a1.len() + i);
    acc = acc + a14;
    lemma_occurs_extend(acc, a15, x, a0.len() + a1.len() + i);
    acc = acc + a15;
    lemma_occurs_extend(acc, a16, x, a0.len() + a1.len() + i);
    acc = acc + a16;
    lemma_occurs_extend(acc, a17, x, a0.len() + a1.len() + i);
    acc = acc + a17;
    lemma_occurs_extend(acc, a18, x, a0.len() + a1.len() + i);
    acc = acc + a18;
}

/// The tech stack, and with it the compact report, names every framework
/// the project declares, every well-known technology whose package it
/// imports (for instance MongoDB for `mongoose` or `mongodb`, PostgreSQL for
/// `pg` or `postgres`, Prisma for `prisma` or `@prisma/client`), and every
/// technology a Go module path marks (for instance MongoDB for a path with
/// `mongo` in it). The `t`-th row of `packages` lists the packages of one
/// technology and its name; the `g`-th row of `marks`, a mark in a Go
/// module path and the technology's name.
pub proof fn lemma_stack_names_technologies(
    stats: AggregatedStats,
    file_metrics: Seq<(String, FileAnalysis)>,
    frameworks: Seq<Seq<char>>,
    go_modules: Seq<Seq<char>>,
    dep_graph: DepGraph,
    dead_code: DeadCode,
    duplicates: Seq<DuplicateGroup>,
    git: GitContext,
    scans: ScanResults,
    test_map: TestMap,
    data_layer: DataLayer,
    key_locations: KeyLocations,
    shares: Shares,
    packages: Seq<(Seq<Seq<char>>, Seq<char>)>,
    marks: Seq<(Seq<char>, Seq<char>)>,
)
    requires
        packages == seq![
            (seq!["stripe"@, "@stripe"@], "Stripe"@),
            (seq!["redis"@, "ioredis"@], "Redis"@),
            (seq!["prisma"@, "@prisma/client"@], "Prisma"@),
            (seq!["drizzle-orm"@], "Drizzle"@),
            (seq!["mongoose"@, "mongodb"@], "MongoDB"@),
            (seq!["pg"@, "postgres"@], "PostgreSQL"@),
            (seq!["mysql2"@], "MySQL"@),
            (seq!["aws-sdk"@, "@aws-sdk"@], "AWS SDK"@),
            (seq!["firebase"@], "Firebase"@),
            (seq!["supabase"@, "@supabase"@], "Supabase"@),
            (seq!["socket.io"@], "Socket.IO"@),
            (seq!["graphql"@, "@apollo"@], "GraphQL"@),
            (seq!["tailwindcss"@], "Tailwind"@),
            (seq!["sass"@], "Sass"@),
            (seq!["webpack"@], "Webpack"@),
            (seq!["vite"@], "Vite"@),
            (seq!["turbo"@], "Turbo"@),
            (seq!["docker"@], "Docker"@),
            (seq!["sentry"@, "@sentry"@], "Sentry"@),
            (seq!["zod"@], "Zod"@),
            (seq!["joi"@], "Joi"@),
            (seq!["trpc"@, "@trpc"@], "tRPC"@),
        ],
        marks == seq![
            ("stripe"@, "Stripe"@),
            ("redis"@, "Redis"@),
            ("mongo"@, "MongoDB"@),
            ("postgres"@, "PostgreSQL"@),
            ("mysql"@, "MySQL"@),
            ("grpc"@, "gRPC"@),
        ],
    ensures
        forall|t: int, q: int, j: int|
            0 <= t < packages.len() && 0 <= q < packages[t].0.len() && 0 <= j
                < dep_graph.external_imports@.len() && #[trigger] dep_graph.external_imports@[j].0@
                == #[trigger] packages[t].0[q] ==> {
                &&& tech_stack(frameworks, package_views(dep_graph.external_imports@), go_modules).contains(packages[t].1)
                &&& contains_sub(
                    compact_report(
                        stats,
                        file_metrics,
                        frameworks,
                        go_modules,
                        dep_graph,
                        dead_code,
                        duplicates,
                        git,
                        scans,
                        test_map,
                        data_layer,
                        key_locations,
                        shares,
                    ),
                    packages[t].1,
                )
            },
        forall|g: int, t: int|
            0 <= g < go_modules.len() && 0 <= t < marks.len() && contains_sub(
                #[trigger] go_modules[g],
                #[trigger] marks[t].0,
            ) ==> {
                &&& tech_stack(frameworks, package_views(dep_graph.external_imports@), go_modules).contains(marks[t].1)
                &&& contains_sub(
                    compact_report(
                        stats,
                        file_metrics,
                        frameworks,
                        go_modules,
                        dep_graph,
                        dead_code,
                        duplicates,
                        git,
                        scans,
                        test_map,
                        data_layer,
                        key_locations,
                        shares,
                    ),
                    marks[t].1,
                )
            },
        forall|f: int|
            0 <= f < frameworks.len() ==> tech_stack(
                frameworks,
                package_views(dep_graph.external_imports@),
                go_modules,
            ).contains(#[trigger] frameworks[f]),
{
    reveal_strlit("Stripe");
    reveal_strlit("Redis");
    reveal_strlit("Prisma");
    reveal_strlit("Drizzle");
    reveal_strlit("MongoDB");
    reveal_strlit("PostgreSQL");
    reveal_strlit("MySQL");
    reveal_strlit("AWS SDK");
    reveal_strlit("Firebase");
    reveal_strlit("Supabase");
    reveal_strlit("Socket.IO");
    reveal_strlit("GraphQL");
    reveal_strlit("Tailwind");
    reveal_strlit("Sass");
    reveal_strlit("Webpack");
    reveal_strlit("Vite");
    reveal_strlit("Turbo");
    reveal_strlit("Docker");
    reveal_strlit("Sentry");
    reveal_strlit("Zod");
    reveal_strlit("Joi");
    reveal_strlit("tRPC");
    reveal_strlit("gRPC");
    let ext = package_views(dep_graph.external_imports@);
    let base = with_all(Seq::empty(), frameworks);
    assert forall|t: int, q: int, j: int|
        0 <= t < packages.len() && 0 <= q < packages[t].0.len() && 0 <= j
            < dep_graph.external_imports@.len() && #[trigger] dep_graph.external_imports@[j].0@
            == #[trigger] packages[t].0[q] implies {
            &&& tech_stack(frameworks, ext, go_modules).contains(packages[t].1)
            &&& contains_sub(
                compact_report(
                    stats,
                    file_metrics,
                    frameworks,
                    go_modules,
                    dep_graph,
                    dead_code,
                    duplicates,
                    git,
                    scans,
                    test_map,
                    data_layer,
                    key_locations,
                    shares,
                ),
                packages[t].1,
            )
        } by {
        assert(ext[j].0 == packages[t].0[q]);
        assert(imports(ext, packages[t].0[q]));
        assert(known_tech(ext, t).0 && known_tech(ext, t).1 == packages[t].1);
        lemma_with_known_has(base, ext, 22, t);
        lemma_with_go_keeps(with_known(base, ext, 22), go_modules, packages[t].1);
        lemma_stack_in_report(
            stats,
            file_metrics,
            frameworks,
            go_modules,
            dep_graph,
            dead_code,
            duplicates,
            git,
            scans,
            test_map,
            data_layer,
            key_locations,
            shares,
            packages[t].1,
        );
    }
    assert forall|g: int, t: int|
        0 <= g < go_modules.len() && 0 <= t < marks.len() && contains_sub(
            #[trigger] go_modules[g],
            #[trigger] marks[t].0,
        ) implies {
            &&& tech_stack(frameworks, ext, go_modules).contains(marks[t].1)
            &&& contains_sub(
                compact_report(
                    stats,
                    file_metrics,
                    frameworks,
                    go_modules,
                    dep_graph,
                    dead_code,
                    duplicates,
                    git,
                    scans,
                    test_map,
                    data_layer,
                    key_locations,
                    shares,
                ),
                marks[t].1,
            )
        } by {
        assert(go_tech(t) == marks[t]);
        lemma_with_go_has(with_known(base, ext, 22), go_modules, g, t);
        lemma_stack_in_report(
            stats,
            file_metrics,
            frameworks,
            go_modules,
            dep_graph,
            dead_code,
            duplicates,
            git,
            scans,
            test_map,
            data_layer,
            key_locations,
            shares,
            marks[t].1,
        );
    }
    assert forall|f: int| 0 <= f < frameworks.len() implies tech_stack(frameworks, ext, go_modules).contains(
        #[trigger] frameworks[f],
    ) by {
        assert(frameworks.contains(frameworks[f]));
        lemma_with_all_has(Seq::empty(), frameworks, frameworks[f]);
        lemma_with_known_keeps(base, ext, 22, frameworks[f]);
        lemma_with_go_keeps(with_known(base, ext, 22), go_modules, frameworks[f]);
    }
}

} // verus!
