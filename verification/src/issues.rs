//! The issues section of the report: circular imports, duplicated
//! functions, very long files and very long functions.
use vstd::prelude::*;
use crate::analyzer::{FileAnalysis, FuncInfo};
use crate::duplicates::DuplicateGroup;
use crate::formatter::{file_name_chars, file_name_of, first_n, join, listing, more, put, put_chars, put_listing, put_more, put_num};
use crate::text::{decimal, string_of, views};

verus! {

/// The files longer than five hundred lines.
pub open spec fn large_file_count(fm: Seq<(String, FileAnalysis)>) -> nat
    decreases fm.len(),
{
    if fm.len() == 0 {
        0
    } else {
        large_file_count(fm.drop_last()) + (if fm.last().1.stats.lines > 500 {
            1nat
        } else {
            0nat
        })
    }
}

/// The functions longer than fifty lines among `fs`.
pub open spec fn long_in(fs: Seq<FuncInfo>) -> nat
    decreases fs.len(),
{
    if fs.len() == 0 {
        0
    } else {
        long_in(fs.drop_last()) + (if fs.last().lines > 50 {
            1nat
        } else {
            0nat
        })
    }
}

/// The functions longer than fifty lines in all files.
pub open spec fn long_function_count(fm: Seq<(String, FileAnalysis)>) -> nat
    decreases fm.len(),
{
    if fm.len() == 0 {
        0
    } else {
        long_function_count(fm.drop_last()) + long_in(fm.last().1.func_names@)
    }
}

/// A group of duplicated functions: the names of its first three files and
/// how many functions it holds.
pub open spec fn duplicate_item(g: DuplicateGroup) -> Seq<char> {
    join(
        first_n(g.1@.map_values(|m: (String, String)| file_name_of(m.0@)), 3),
        ", "@,
    ) + "("@ + decimal(g.1@.len()) + "×)"@
}

pub open spec fn duplicate_items(ds: Seq<DuplicateGroup>) -> Seq<Seq<char>> {
    ds.map_values(|g: DuplicateGroup| duplicate_item(g))
}

/// The issues found, in order: circular import chains, duplicated
/// functions (three groups shown), files over five hundred lines and
/// functions over fifty lines.
pub open spec fn issue_lines(
    circular: nat,
    ds: Seq<DuplicateGroup>,
    fm: Seq<(String, FileAnalysis)>,
) -> Seq<Seq<char>> {
    let large = large_file_count(fm);
    let long = long_function_count(fm);
    (if circular > 0 {
        seq![decimal(circular) + " circular dependency chain(s)"@]
    } else {
        Seq::empty()
    }) + (if ds.len() > 0 {
        seq!["Duplication: "@ + listing(duplicate_items(ds), 3, " | "@) + more(ds.len(), 3)]
    } else {
        Seq::empty()
    }) + (if large > 0 {
        seq![decimal(large) + " file(s) over 500 lines"@]
    } else {
        Seq::empty()
    }) + (if long > 0 {
        seq![decimal(long) + " function(s) over 50 lines"@]
    } else {
        Seq::empty()
    })
}

/// Each line as a list item.
pub open spec fn bullets(ls: Seq<Seq<char>>) -> Seq<char>
    decreases ls.len(),
{
    if ls.len() == 0 {
        Seq::empty()
    } else {
        bullets(ls.drop_last()) + ls.last() + "\n"@
    }
}

/// The issues section, when there is an issue.
pub open spec fn issues_section(
    circular: nat,
    ds: Seq<DuplicateGroup>,
    fm: Seq<(String, FileAnalysis)>,
) -> Seq<char> {
    let ls = issue_lines(circular, ds, fm);
    if ls.len() > 0 {
        "[Issues]\n"@ + bullets(ls) + "\n"@
    } else {
        Seq::empty()
    }
}

fn large_files_exec(fm: &Vec<(String, FileAnalysis)>) -> (r: u64)
    ensures
        r == large_file_count(fm@),
{
    let n = fm.len();
    let mut c: u64 = 0;
    for i in 0..n
        invariant
            n == fm@.len(),
            c <= i,
            c == large_file_count(fm@.take(i as int)),
    {
        assert(fm@.take(i + 1).drop_last() =~= fm@.take(i as int));
        if fm[i].1.stats.lines > 500 {
            c = c + 1;
        }
    }
    assert(fm@.take(n as int) =~= fm@);
    c
}

proof fn lemma_long_in_bound(fs: Seq<FuncInfo>)
    ensures
        long_in(fs) <= fs.len(),
    decreases fs.len(),
{
    if fs.len() > 0 {
        lemma_long_in_bound(fs.drop_last());
    }
}

proof fn lemma_long_count_mono(fm: Seq<(String, FileAnalysis)>, k: int)
    requires
        0 <= k <= fm.len(),
    ensures
        long_function_count(fm.take(k)) <= long_function_count(fm),
    decreases fm.len() - k,
{
    if k < fm.len() {
        lemma_long_count_mono(fm.drop_last(), k);
        assert(fm.drop_last().take(k) =~= fm.take(k));
    } else {
        assert(fm.take(k) =~= fm);
    }
}

fn long_functions_exec(fm: &Vec<(String, FileAnalysis)>) -> (r: u64)
    requires
        long_function_count(fm@) <= u64::MAX,
    ensures
        r == long_function_count(fm@),
{
    let n = fm.len();
    let mut c: u64 = 0;
    for i in 0..n
        invariant
            n == fm@.len(),
            long_function_count(fm@) <= u64::MAX,
            c == long_function_count(fm@.take(i as int)),
    {
        assert(fm@.take(i + 1).drop_last() =~= fm@.take(i as int));
        proof {
            lemma_long_count_mono(fm@, i + 1);
        }
        let fs = &fm[i].1.func_names;
        let m = fs.len();
        let mut k: u64 = 0;
        for j in 0..m
            invariant
                m == fs@.len(),
                k <= j,
                k == long_in(fs@.take(j as int)),
        {
            assert(fs@.take(j + 1).drop_last() =~= fs@.take(j as int));
            if fs[j].lines > 50 {
                k = k + 1;
            }
        }
        assert(fs@.take(m as int) =~= fs@);
        c = c + k;
    }
    assert(fm@.take(n as int) =~= fm@);
    c
}

fn duplicate_items_exec(ds: &Vec<DuplicateGroup>) -> (r: Vec<Vec<char>>)
    ensures
        views(r@) == duplicate_items(ds@),
{
    let n = ds.len();
    let mut r: Vec<Vec<char>> = Vec::new();
    for i in 0..n
        invariant
            n == ds@.len(),
            views(r@) == duplicate_items(ds@).take(i as int),
    {
        let g = &ds[i];
        let m = g.1.len();
        let mut names: Vec<Vec<char>> = Vec::new();
        for j in 0..m
            invariant
                m == g.1@.len(),
                views(names@) == g.1@.map_values(|x: (String, String)| file_name_of(x.0@)).take(
                    j as int,
                ),
        {
            let f = file_name_chars(g.1[j].0.as_str());
            let ghost before = views(names@);
            let ghost fv = f@;
            names.push(f);
            assert(views(names@) =~= before.push(fv));
            assert(g.1@.map_values(|x: (String, String)| file_name_of(x.0@)).take(j + 1)
                =~= g.1@.map_values(|x: (String, String)| file_name_of(x.0@)).take(j as int).push(
                file_name_of(g.1@[j as int].0@),
            ));
        }
        assert(g.1@.map_values(|x: (String, String)| file_name_of(x.0@)).take(m as int)
            =~= g.1@.map_values(|x: (String, String)| file_name_of(x.0@)));
        let mut item: Vec<char> = Vec::new();
        put_listing(&mut item, &names, 3, ", ");
        put(&mut item, "(");
        put_num(&mut item, m as u64);
        put(&mut item, "×)");
        assert(item@ =~= duplicate_item(*g));
        let ghost before = views(r@);
        let ghost iv = item@;
        r.push(item);
        assert(views(r@) =~= before.push(iv));
        assert(duplicate_items(ds@).take(i + 1) =~= duplicate_items(ds@).take(i as int).push(
            duplicate_item(ds@[i as int]),
        ));
    }
    assert(duplicate_items(ds@).take(n as int) =~= duplicate_items(ds@));
    r
}

/// Appends one list item.
fn put_bullet(out: &mut Vec<char>, line: &Vec<char>, lines: &mut Vec<Vec<char>>)
    ensures
        final(out)@ == old(out)@ + line@ + "\n"@,
        views(final(lines)@) == views(old(lines)@).push(line@),
{
    put_chars(out, line.as_slice());
    put(out, "\n");
    let ghost before = views(lines@);
    let copy = crate::text::slice_of(line.as_slice(), 0, line.len());
    assert(copy@ =~= line@);
    lines.push(copy);
    assert(views(lines@) =~= before.push(line@));
}

proof fn lemma_bullets_push(ls: Seq<Seq<char>>, l: Seq<char>)
    ensures
        bullets(ls.push(l)) == bullets(ls) + l + "\n"@,
{
    assert(ls.push(l).drop_last() =~= ls);
}

/// The issues section of the report; `circular` is the number of circular
/// import chains and `duplicates` the groups of duplicated functions.
#[verifier::spinoff_prover]
#[verifier::rlimit(40)]
pub fn format_issues(circular: usize, duplicates: &Vec<DuplicateGroup>, fm: &Vec<(String, FileAnalysis)>) -> (r: String)
    requires
        long_function_count(fm@) <= u64::MAX,
    ensures
        r@ == issues_section(circular as nat, duplicates@, fm@),
{
    let large = large_files_exec(fm);
    let long = long_functions_exec(fm);
    let mut body: Vec<char> = Vec::new();
    let mut lines: Vec<Vec<char>> = Vec::new();
    let ghost want = issue_lines(circular as nat, duplicates@, fm@);
    if circular > 0 {
        let mut l: Vec<char> = Vec::new();
        put_num(&mut l, circular as u64);
        put(&mut l, " circular dependency chain(s)");
        proof { lemma_bullets_push(views(lines@), l@); }
        put_bullet(&mut body, &l, &mut lines);
    }
    let ghost s1 = views(lines@);
    assert(s1 =~= (if circular > 0 {
        seq![decimal(circular as nat) + " circular dependency chain(s)"@]
    } else {
        Seq::<Seq<char>>::empty()
    }));
    assert(body@ == bullets(s1));
    let nd = duplicates.len();
    if nd > 0 {
        let items = duplicate_items_exec(duplicates);
        let mut l: Vec<char> = Vec::new();
        put(&mut l, "Duplication: ");
        put_listing(&mut l, &items, 3, " | ");
        put_more(&mut l, nd, 3);
        proof { lemma_bullets_push(views(lines@), l@); }
        put_bullet(&mut body, &l, &mut lines);
    }
    let ghost s2 = views(lines@);
    assert(body@ == bullets(s2));
    if large > 0 {
        let mut l: Vec<char> = Vec::new();
        put_num(&mut l, large);
        put(&mut l, " file(s) over 500 lines");
        proof { lemma_bullets_push(views(lines@), l@); }
        put_bullet(&mut body, &l, &mut lines);
    }
    let ghost s3 = views(lines@);
    assert(body@ == bullets(s3));
    if long > 0 {
        let mut l: Vec<char> = Vec::new();
        put_num(&mut l, long);
        put(&mut l, " function(s) over 50 lines");
        proof { lemma_bullets_push(views(lines@), l@); }
        put_bullet(&mut body, &l, &mut lines);
    }
    assert(views(lines@) =~= want);
    let mut out: Vec<char> = Vec::new();
    if lines.len() > 0 {
        put(&mut out, "[Issues]\n");
        put_chars(&mut out, body.as_slice());
        put(&mut out, "\n");
    }
    string_of(out.as_slice())
}

} // verus!
