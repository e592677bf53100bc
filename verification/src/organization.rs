//! The code organization and API surface sections of the report: the long
//! files and the functions with many parameters, and what the files export.
use vstd::prelude::*;
use crate::analyzer::{FileAnalysis, FuncInfo};
use crate::depgraph::DepGraph;
use crate::formatter::{
    file_name_chars, file_name_of, first_n, join, listing, more, put, put_chars, put_listing,
    put_more, put_num, stem_chars, stem_of,
};
use crate::ranking::{first_positions, order_desc, rank_desc};
use crate::text::{chars_of, chars_of_all, decimal, string_of, strs, views};

verus! {

// ---------------------------------------------------------------------------
// Code organization
// ---------------------------------------------------------------------------

/// The files longer than two hundred lines, by path and length.
pub open spec fn large_files(fm: Seq<(String, FileAnalysis)>) -> Seq<(Seq<char>, u32)>
    decreases fm.len(),
{
    if fm.len() == 0 {
        Seq::empty()
    } else if fm.last().1.stats.lines > 200 {
        large_files(fm.drop_last()).push((fm.last().0@, fm.last().1.stats.lines))
    } else {
        large_files(fm.drop_last())
    }
}

pub open spec fn large_keys(ls: Seq<(Seq<char>, u32)>) -> Seq<u64> {
    ls.map_values(|e: (Seq<char>, u32)| e.1 as u64)
}

/// `path:NL` for the long files at the positions `order`.
pub open spec fn large_items(ls: Seq<(Seq<char>, u32)>, order: Seq<usize>) -> Seq<Seq<char>> {
    order.map_values(|i: usize| ls[i as int].0 + ":"@ + decimal(ls[i as int].1 as nat) + "L"@)
}

/// `file:line:name(Np)` for a function.
pub open spec fn located(file: Seq<char>, f: FuncInfo) -> Seq<char> {
    file + ":"@ + decimal(f.start_line as nat) + ":"@ + f.name@ + "("@ + decimal(f.params as nat)
        + "p)"@
}

/// The functions of `fs` with more than five parameters, located in `file`.
pub open spec fn many_params_in(file: Seq<char>, fs: Seq<FuncInfo>) -> Seq<Seq<char>>
    decreases fs.len(),
{
    if fs.len() == 0 {
        Seq::empty()
    } else if fs.last().params > 5 {
        many_params_in(file, fs.drop_last()).push(located(file, fs.last()))
    } else {
        many_params_in(file, fs.drop_last())
    }
}

/// The functions with more than five parameters, file after file.
pub open spec fn many_params(fm: Seq<(String, FileAnalysis)>) -> Seq<Seq<char>>
    decreases fm.len(),
{
    if fm.len() == 0 {
        Seq::empty()
    } else {
        many_params(fm.drop_last()) + many_params_in(
            file_name_of(fm.last().0@),
            fm.last().1.func_names@,
        )
    }
}

/// The code organization section: the five longest of the files over two
/// hundred lines, longest first, and the first five functions with more
/// than five parameters.
pub open spec fn organization_section(fm: Seq<(String, FileAnalysis)>) -> Seq<char> {
    let ls = large_files(fm);
    let mp = many_params(fm);
    if ls.len() > 0 || mp.len() > 0 {
        "[Code Organization]\n"@ + crate::formatter::when(
            ls.len() > 0,
            "Large files: "@ + join(
                large_items(ls, first_positions(order_desc(large_keys(ls), ls.len()), 5)),
                ", "@,
            ) + "\n"@,
        ) + crate::formatter::when(mp.len() > 0, "Many params: "@ + listing(mp, 5, ", "@) + "\n"@)
            + "\n"@
    } else {
        Seq::empty()
    }
}

fn put_located(out: &mut Vec<char>, file: &[char], f: &FuncInfo)
    ensures
        final(out)@ == old(out)@ + located(file@, *f),
{
    put_chars(out, file);
    put(out, ":");
    put_num(out, f.start_line as u64);
    put(out, ":");
    let name = chars_of(f.name.as_str());
    put_chars(out, name.as_slice());
    put(out, "(");
    put_num(out, f.params as u64);
    put(out, "p)");
    assert(out@ =~= old(out)@ + located(file@, *f));
}

fn large_files_exec(fm: &Vec<(String, FileAnalysis)>) -> (r: (Vec<Vec<char>>, Vec<u32>))
    ensures
        r.0@.len() == r.1@.len(),
        forall|i: int|
            0 <= i < r.0@.len() ==> (#[trigger] r.0@[i])@ == large_files(fm@)[i].0 && r.1@[i]
                == large_files(fm@)[i].1,
        r.0@.len() == large_files(fm@).len(),
{
    let n = fm.len();
    let mut paths: Vec<Vec<char>> = Vec::new();
    let mut lines: Vec<u32> = Vec::new();
    for i in 0..n
        invariant
            n == fm@.len(),
            paths@.len() == lines@.len(),
            paths@.len() == large_files(fm@.take(i as int)).len(),
            forall|q: int|
                0 <= q < paths@.len() ==> (#[trigger] paths@[q])@ == large_files(fm@.take(i as int))[q].0
                    && lines@[q] == large_files(fm@.take(i as int))[q].1,
    {
        assert(fm@.take(i + 1).drop_last() =~= fm@.take(i as int));
        assert(fm@.take(i + 1).last() == fm@[i as int]);
        if fm[i].1.stats.lines > 200 {
            paths.push(chars_of(fm[i].0.as_str()));
            lines.push(fm[i].1.stats.lines);
        }
    }
    assert(fm@.take(n as int) =~= fm@);
    (paths, lines)
}

fn many_params_exec(fm: &Vec<(String, FileAnalysis)>) -> (r: Vec<Vec<char>>)
    ensures
        views(r@) == many_params(fm@),
{
    let n = fm.len();
    let mut r: Vec<Vec<char>> = Vec::new();
    for i in 0..n
        invariant
            n == fm@.len(),
            views(r@) == many_params(fm@.take(i as int)),
    {
        assert(fm@.take(i + 1).drop_last() =~= fm@.take(i as int));
        assert(fm@.take(i + 1).last() == fm@[i as int]);
        let file = file_name_chars(fm[i].0.as_str());
        let fs = &fm[i].1.func_names;
        let m = fs.len();
        let ghost base = views(r@);
        for j in 0..m
            invariant
                m == fs@.len(),
                views(r@) == base + many_params_in(file@, fs@.take(j as int)),
        {
            assert(fs@.take(j + 1).drop_last() =~= fs@.take(j as int));
            assert(fs@.take(j + 1).last() == fs@[j as int]);
            if fs[j].params > 5 {
                let mut item: Vec<char> = Vec::new();
                put_located(&mut item, file.as_slice(), &fs[j]);
                let ghost before = views(r@);
                let ghost iv = item@;
                r.push(item);
                assert(views(r@) =~= before.push(iv));
            }
        }
        assert(fs@.take(m as int) =~= fs@);
    }
    assert(fm@.take(n as int) =~= fm@);
    r
}

/// The code organization section of the report.
#[verifier::spinoff_prover]
#[verifier::rlimit(40)]
pub fn format_organization(fm: &Vec<(String, FileAnalysis)>) -> (r: String)
    ensures
        r@ == organization_section(fm@),
{
    let (paths, lines) = large_files_exec(fm);
    let mp = many_params_exec(fm);
    let ghost ls = large_files(fm@);
    let mut out: Vec<char> = Vec::new();
    if !(paths.len() > 0 || mp.len() > 0) {
        return string_of(out.as_slice());
    }
    put(&mut out, "[Code Organization]\n");
    let ghost s0 = out@;
    let nl = paths.len();
    if nl > 0 {
        assert forall|q: int| 0 <= q < nl implies #[trigger] lines@[q] == ls[q].1 by {
            assert(paths@[q]@ == ls[q].0);
        }
        let mut keys: Vec<u64> = Vec::new();
        for i in 0..nl
            invariant
                nl == paths@.len() == lines@.len() == ls.len(),
                forall|q: int| 0 <= q < nl ==> lines@[q] == ls[q].1,
                keys@ == large_keys(ls).take(i as int),
        {
            keys.push(lines[i] as u64);
            assert(keys@ =~= large_keys(ls).take(i + 1));
        }
        assert(keys@ =~= large_keys(ls));
        let order = rank_desc(&keys);
        let k: usize = if order.len() <= 5 {
            order.len()
        } else {
            5
        };
        let ghost top = first_positions(order_desc(large_keys(ls), ls.len()), 5);
        assert(top =~= order@.take(k as int));
        let mut items: Vec<Vec<char>> = Vec::new();
        for i in 0..k
            invariant
                k <= order@.len(),
                top == order@.take(k as int),
                nl == paths@.len() == lines@.len() == ls.len(),
                forall|q: int| 0 <= q < nl ==> (#[trigger] paths@[q])@ == ls[q].0 && lines@[q] == ls[q].1,
                forall|j: int| 0 <= j < order@.len() ==> (#[trigger] order@[j]) < nl,
                views(items@) == large_items(ls, top).take(i as int),
        {
            let p = order[i];
            let mut item: Vec<char> = Vec::new();
            put_chars(&mut item, paths[p].as_slice());
            put(&mut item, ":");
            put_num(&mut item, lines[p] as u64);
            put(&mut item, "L");
            assert(paths@[p as int]@ == ls[p as int].0);
            assert(item@ =~= large_items(ls, top)[i as int]);
            let ghost before = views(items@);
            let ghost iv = item@;
            items.push(item);
            assert(views(items@) =~= before.push(iv));
            assert(large_items(ls, top).take(i + 1) =~= large_items(ls, top).take(i as int).push(
                large_items(ls, top)[i as int],
            ));
        }
        assert(large_items(ls, top).take(k as int) =~= large_items(ls, top));
        put(&mut out, "Large files: ");
        put_listing(&mut out, &items, items.len(), ", ");
        assert(first_n(views(items@), items@.len() as nat) == views(items@));
        put(&mut out, "\n");
    }
    let ghost s1 = out@;
    assert(s1 =~= s0 + crate::formatter::when(
        ls.len() > 0,
        "Large files: "@ + join(
            large_items(ls, first_positions(order_desc(large_keys(ls), ls.len()), 5)),
            ", "@,
        ) + "\n"@,
    ));
    if mp.len() > 0 {
        put(&mut out, "Many params: ");
        put_listing(&mut out, &mp, 5, ", ");
        put(&mut out, "\n");
    }
    let ghost s2 = out@;
    assert(s2 =~= s1 + crate::formatter::when(
        views(mp@).len() > 0,
        "Many params: "@ + listing(views(mp@), 5, ", "@) + "\n"@,
    ));
    put(&mut out, "\n");
    string_of(out.as_slice())
}

// ---------------------------------------------------------------------------
// API surface
// ---------------------------------------------------------------------------

/// The functions of `fs` whose names `ex` exports, located in `file`.
pub open spec fn exported_in(file: Seq<char>, fs: Seq<FuncInfo>, ex: Seq<Seq<char>>) -> Seq<Seq<char>>
    decreases fs.len(),
{
    if fs.len() == 0 {
        Seq::empty()
    } else if ex.contains(fs.last().name@) {
        exported_in(file, fs.drop_last(), ex).push(located(file, fs.last()))
    } else {
        exported_in(file, fs.drop_last(), ex)
    }
}

/// The exported functions, file after file.
pub open spec fn exported_functions(fm: Seq<(String, FileAnalysis)>) -> Seq<Seq<char>>
    decreases fm.len(),
{
    if fm.len() == 0 {
        Seq::empty()
    } else {
        exported_functions(fm.drop_last()) + exported_in(
            file_name_of(fm.last().0@),
            fm.last().1.func_names@,
            strs(fm.last().1.exported_names@),
        )
    }
}

/// The classes, file after file.
pub open spec fn all_classes(fm: Seq<(String, FileAnalysis)>) -> Seq<Seq<char>>
    decreases fm.len(),
{
    if fm.len() == 0 {
        Seq::empty()
    } else {
        all_classes(fm.drop_last()) + strs(fm.last().1.class_names@)
    }
}

pub open spec fn entry_stems(es: Seq<String>) -> Seq<Seq<char>> {
    es.map_values(|p: String| stem_of(file_name_of(p@)))
}

/// The API surface section: twelve exported functions, six classes and
/// five entry files, when anything is exported or declared as a class.
pub open spec fn api_section(fm: Seq<(String, FileAnalysis)>, g: DepGraph) -> Seq<char> {
    let ef = exported_functions(fm);
    let cl = all_classes(fm);
    let en = entry_stems(g.entry_points@);
    if ef.len() > 0 || cl.len() > 0 {
        "[API Surface]\n"@ + crate::formatter::when(
            ef.len() > 0,
            "Exported fns: "@ + listing(ef, 12, ", "@) + more(ef.len(), 12) + "\n"@,
        ) + crate::formatter::when(
            cl.len() > 0,
            "Classes: "@ + listing(cl, 6, ", "@) + more(cl.len(), 6) + "\n"@,
        ) + crate::formatter::when(en.len() > 0, "Entry files: "@ + listing(en, 5, ", "@) + "\n"@)
            + "\n"@
    } else {
        Seq::empty()
    }
}

fn listed(items: &Vec<Vec<char>>, x: &[char]) -> (r: bool)
    ensures
        r == views(items@).contains(x@),
{
    match crate::text::index_of(items, x) {
        Some(j) => {
            assert(views(items@)[j as int] == x@);
            true
        },
        None => false,
    }
}

fn exported_functions_exec(fm: &Vec<(String, FileAnalysis)>) -> (r: Vec<Vec<char>>)
    ensures
        views(r@) == exported_functions(fm@),
{
    let n = fm.len();
    let mut r: Vec<Vec<char>> = Vec::new();
    for i in 0..n
        invariant
            n == fm@.len(),
            views(r@) == exported_functions(fm@.take(i as int)),
    {
        assert(fm@.take(i + 1).drop_last() =~= fm@.take(i as int));
        assert(fm@.take(i + 1).last() == fm@[i as int]);
        let file = file_name_chars(fm[i].0.as_str());
        let ex = chars_of_all(&fm[i].1.exported_names);
        let fs = &fm[i].1.func_names;
        let m = fs.len();
        let ghost base = views(r@);
        for j in 0..m
            invariant
                m == fs@.len(),
                views(ex@) == strs(fm@[i as int].1.exported_names@),
                fs@ == fm@[i as int].1.func_names@,
                views(r@) == base + exported_in(file@, fs@.take(j as int), views(ex@)),
        {
            assert(fs@.take(j + 1).drop_last() =~= fs@.take(j as int));
            assert(fs@.take(j + 1).last() == fs@[j as int]);
            let name = chars_of(fs[j].name.as_str());
            if listed(&ex, name.as_slice()) {
                let mut item: Vec<char> = Vec::new();
                put_located(&mut item, file.as_slice(), &fs[j]);
                let ghost before = views(r@);
                let ghost iv = item@;
                r.push(item);
                assert(views(r@) =~= before.push(iv));
            }
        }
        assert(fs@.take(m as int) =~= fs@);
    }
    assert(fm@.take(n as int) =~= fm@);
    r
}

fn all_classes_exec(fm: &Vec<(String, FileAnalysis)>) -> (r: Vec<Vec<char>>)
    ensures
        views(r@) == all_classes(fm@),
{
    let n = fm.len();
    let mut r: Vec<Vec<char>> = Vec::new();
    for i in 0..n
        invariant
            n == fm@.len(),
            views(r@) == all_classes(fm@.take(i as int)),
    {
        assert(fm@.take(i + 1).drop_last() =~= fm@.take(i as int));
        assert(fm@.take(i + 1).last() == fm@[i as int]);
        let mut cs = chars_of_all(&fm[i].1.class_names);
        let ghost before = views(r@);
        let ghost cv = views(cs@);
        r.append(&mut cs);
        assert(views(r@) =~= before + cv);
    }
    assert(fm@.take(n as int) =~= fm@);
    r
}

fn entry_stems_exec(es: &Vec<String>) -> (r: Vec<Vec<char>>)
    ensures
        views(r@) == entry_stems(es@),
{
    let n = es.len();
    let mut r: Vec<Vec<char>> = Vec::new();
    for i in 0..n
        invariant
            n == es@.len(),
            views(r@) == entry_stems(es@).take(i as int),
    {
        let f = file_name_chars(es[i].as_str());
        let s = stem_chars(f.as_slice());
        let ghost before = views(r@);
        let ghost sv = s@;
        r.push(s);
        assert(views(r@) =~= before.push(sv));
        assert(entry_stems(es@).take(i + 1) =~= entry_stems(es@).take(i as int).push(
            stem_of(file_name_of(es@[i as int]@)),
        ));
    }
    assert(entry_stems(es@).take(n as int) =~= entry_stems(es@));
    r
}

/// The API surface section of the report.
#[verifier::spinoff_prover]
#[verifier::rlimit(40)]
pub fn format_api(fm: &Vec<(String, FileAnalysis)>, g: &DepGraph) -> (r: String)
    ensures
        r@ == api_section(fm@, *g),
{
    let ef = exported_functions_exec(fm);
    let cl = all_classes_exec(fm);
    let en = entry_stems_exec(&g.entry_points);
    let mut out: Vec<char> = Vec::new();
    if !(ef.len() > 0 || cl.len() > 0) {
        return string_of(out.as_slice());
    }
    put(&mut out, "[API Surface]\n");
    let ghost s0 = out@;
    if ef.len() > 0 {
        put(&mut out, "Exported fns: ");
        put_listing(&mut out, &ef, 12, ", ");
        put_more(&mut out, ef.len(), 12);
        put(&mut out, "\n");
    }
    let ghost s1 = out@;
    assert(s1 =~= s0 + crate::formatter::when(
        views(ef@).len() > 0,
        "Exported fns: "@ + listing(views(ef@), 12, ", "@) + more(ef@.len() as nat, 12) + "\n"@,
    ));
    if cl.len() > 0 {
        put(&mut out, "Classes: ");
        put_listing(&mut out, &cl, 6, ", ");
        put_more(&mut out, cl.len(), 6);
        put(&mut out, "\n");
    }
    let ghost s2 = out@;
    assert(s2 =~= s1 + crate::formatter::when(
        views(cl@).len() > 0,
        "Classes: "@ + listing(views(cl@), 6, ", "@) + more(cl@.len() as nat, 6) + "\n"@,
    ));
    if en.len() > 0 {
        put(&mut out, "Entry files: ");
        put_listing(&mut out, &en, 5, ", ");
        put(&mut out, "\n");
    }
    let ghost s3 = out@;
    assert(s3 =~= s2 + crate::formatter::when(
        views(en@).len() > 0,
        "Entry files: "@ + listing(views(en@), 5, ", "@) + "\n"@,
    ));
    put(&mut out, "\n");
    string_of(out.as_slice())
}

} // verus!
