//! The features section of the report: the top-level folders that hold
//! two files or more, with their files and functions.
use vstd::prelude::*;
use crate::analyzer::FileAnalysis;
use crate::formatter::{listing, put, put_chars, put_listing, put_num};
use crate::ranking::{first_positions, order_desc, rank_desc};
use crate::text::{
    chars_of, concat, decimal, eq_chars, has_prefix, replace_char, replace_char_chars, split,
    split_chars, starts_with_chars, string_of, views,
};

verus! {

/// The top-level folder of a path and the path's file name, when the path
/// lies in a folder.
pub open spec fn placed(p: Seq<char>) -> Option<(Seq<char>, Seq<char>)> {
    let parts = split(replace_char(p, '\\', '/'), '/');
    if parts.len() >= 2 {
        Some((parts[0], parts.last()))
    } else {
        None
    }
}

/// The top-level folders of the first `k` files, each once, in order of
/// first appearance.
pub open spec fn folders_upto(fm: Seq<(String, FileAnalysis)>, k: int) -> Seq<Seq<char>>
    decreases k,
{
    if k <= 0 {
        Seq::empty()
    } else {
        let p = folders_upto(fm, k - 1);
        match placed(fm[k - 1].0@) {
            Some(x) => if p.contains(x.0) {
                p
            } else {
                p.push(x.0)
            },
            None => p,
        }
    }
}

/// The names of the files in the folder `d`, in order.
pub open spec fn files_in(fm: Seq<(String, FileAnalysis)>, d: Seq<char>) -> Seq<Seq<char>>
    decreases fm.len(),
{
    if fm.len() == 0 {
        Seq::empty()
    } else {
        let rest = files_in(fm.drop_last(), d);
        match placed(fm.last().0@) {
            Some(x) => if x.0 == d {
                rest.push(x.1)
            } else {
                rest
            },
            None => rest,
        }
    }
}

/// The functions of the files whose path starts with `d/`.
pub open spec fn functions_under(fm: Seq<(String, FileAnalysis)>, d: Seq<char>) -> nat
    decreases fm.len(),
{
    if fm.len() == 0 {
        0
    } else {
        functions_under(fm.drop_last(), d) + (if has_prefix(
            replace_char(fm.last().0@, '\\', '/'),
            d + seq!['/'],
        ) {
            fm.last().1.stats.functions as nat
        } else {
            0
        })
    }
}

/// The folders among `ds` that hold two files or more.
pub open spec fn busy_folders(fm: Seq<(String, FileAnalysis)>, ds: Seq<Seq<char>>) -> Seq<Seq<char>>
    decreases ds.len(),
{
    if ds.len() == 0 {
        Seq::empty()
    } else if files_in(fm, ds.last()).len() >= 2 {
        busy_folders(fm, ds.drop_last()).push(ds.last())
    } else {
        busy_folders(fm, ds.drop_last())
    }
}

pub open spec fn folder_keys(fm: Seq<(String, FileAnalysis)>, ds: Seq<Seq<char>>) -> Seq<u64> {
    ds.map_values(|d: Seq<char>| files_in(fm, d).len() as u64)
}

/// The line of one folder: its files and functions and its first three
/// file names.
pub open spec fn folder_line(fm: Seq<(String, FileAnalysis)>, d: Seq<char>) -> Seq<char> {
    d + ": "@ + decimal(files_in(fm, d).len()) + "f, "@ + decimal(functions_under(fm, d))
        + "fn ("@ + listing(files_in(fm, d), 3, ", "@) + ")\n"@
}

pub open spec fn folder_lines(fm: Seq<(String, FileAnalysis)>, ds: Seq<Seq<char>>, order: Seq<usize>) -> Seq<
    char,
>
    decreases order.len(),
{
    if order.len() == 0 {
        Seq::empty()
    } else {
        folder_lines(fm, ds, order.drop_last()) + folder_line(fm, ds[order.last() as int])
    }
}

/// The features section: the five folders with the most files among those
/// with two or more, most first.
pub open spec fn features_section(fm: Seq<(String, FileAnalysis)>) -> Seq<char> {
    let ds = busy_folders(fm, folders_upto(fm, fm.len() as int));
    if ds.len() > 0 {
        "[Features]\n"@ + folder_lines(
            fm,
            ds,
            first_positions(order_desc(folder_keys(fm, ds), ds.len()), 5),
        ) + "\n"@
    } else {
        Seq::empty()
    }
}

/// The function counts of the folders fit 32 bits, as the section adds
/// them up.
pub open spec fn features_fit(fm: Seq<(String, FileAnalysis)>) -> bool {
    forall|d: Seq<char>| #[trigger] functions_under(fm, d) <= u32::MAX
}

fn placed_exec(p: &str) -> (r: Option<(Vec<char>, Vec<char>)>)
    ensures
        match r {
            Some(x) => placed(p@) == Some((x.0@, x.1@)),
            None => placed(p@) is None,
        },
{
    let c = chars_of(p);
    let norm = replace_char_chars(c.as_slice(), '\\', '/');
    let parts = split_chars(norm.as_slice(), '/');
    let n = parts.len();
    if n >= 2 {
        let first = crate::text::slice_of(parts[0].as_slice(), 0, parts[0].len());
        let last = crate::text::slice_of(parts[n - 1].as_slice(), 0, parts[n - 1].len());
        assert(first@ =~= views(parts@)[0]);
        assert(last@ =~= views(parts@).last());
        Some((first, last))
    } else {
        None
    }
}

proof fn lemma_functions_under_prefix(fm: Seq<(String, FileAnalysis)>, k: int, d: Seq<char>)
    requires
        0 <= k <= fm.len(),
    ensures
        functions_under(fm.take(k), d) <= functions_under(fm, d),
    decreases fm.len() - k,
{
    if k < fm.len() {
        lemma_functions_under_prefix(fm.drop_last(), k, d);
        assert(fm.drop_last().take(k) =~= fm.take(k));
    } else {
        assert(fm.take(k) =~= fm);
    }
}

/// The files and functions of the folder `d`.
fn folder_exec(fm: &Vec<(String, FileAnalysis)>, d: &[char]) -> (r: (Vec<Vec<char>>, u64))
    requires
        functions_under(fm@, d@) <= u32::MAX,
    ensures
        views(r.0@) == files_in(fm@, d@),
        r.1 == functions_under(fm@, d@),
{
    let n = fm.len();
    let mut files: Vec<Vec<char>> = Vec::new();
    let mut fns: u64 = 0;
    let mut prefix: Vec<char> = concat(d, &['/']);
    assert(prefix@ =~= d@ + seq!['/']);
    for i in 0..n
        invariant
            n == fm@.len(),
            prefix@ == d@ + seq!['/'],
            functions_under(fm@, d@) <= u32::MAX,
            views(files@) == files_in(fm@.take(i as int), d@),
            fns == functions_under(fm@.take(i as int), d@),
    {
        assert(fm@.take(i + 1).drop_last() =~= fm@.take(i as int));
        assert(fm@.take(i + 1).last() == fm@[i as int]);
        proof {
            lemma_functions_under_prefix(fm@, i + 1, d@);
        }
        match placed_exec(fm[i].0.as_str()) {
            Some((top, name)) => {
                if eq_chars(top.as_slice(), d) {
                    let ghost before = views(files@);
                    let ghost nv = name@;
                    files.push(name);
                    assert(views(files@) =~= before.push(nv));
                }
            },
            None => {},
        }
        let c = chars_of(fm[i].0.as_str());
        let norm = replace_char_chars(c.as_slice(), '\\', '/');
        if starts_with_chars(norm.as_slice(), prefix.as_slice()) {
            fns = fns + fm[i].1.stats.functions as u64;
        }
    }
    assert(fm@.take(n as int) =~= fm@);
    (files, fns)
}

fn folders_exec(fm: &Vec<(String, FileAnalysis)>) -> (r: Vec<Vec<char>>)
    ensures
        views(r@) == folders_upto(fm@, fm@.len() as int),
{
    let n = fm.len();
    let mut ds: Vec<Vec<char>> = Vec::new();
    for i in 0..n
        invariant
            n == fm@.len(),
            views(ds@) == folders_upto(fm@, i as int),
    {
        match placed_exec(fm[i].0.as_str()) {
            Some((top, _)) => {
                crate::formatter::add_item(&mut ds, top.as_slice());
            },
            None => {},
        }
    }
    ds
}

/// The features section of the report.
#[verifier::spinoff_prover]
#[verifier::rlimit(40)]
pub fn format_features(fm: &Vec<(String, FileAnalysis)>) -> (r: String)
    requires
        features_fit(fm@),
    ensures
        r@ == features_section(fm@),
{
    let all = folders_exec(fm);
    let na = all.len();
    let ghost av = views(all@);
    let mut busy: Vec<Vec<char>> = Vec::new();
    let mut lists: Vec<Vec<Vec<char>>> = Vec::new();
    let mut counts: Vec<u64> = Vec::new();
    let mut keys: Vec<u64> = Vec::new();
    for i in 0..na
        invariant
            na == all@.len(),
            av == views(all@),
            features_fit(fm@),
            views(busy@) == busy_folders(fm@, av.take(i as int)),
            lists@.len() == busy@.len() && counts@.len() == busy@.len(),
            forall|q: int|
                0 <= q < busy@.len() ==> views((#[trigger] lists@[q])@) == files_in(fm@, busy@[q]@),
            forall|q: int| 0 <= q < busy@.len() ==> #[trigger] counts@[q] == functions_under(fm@, busy@[q]@),
            keys@ == folder_keys(fm@, views(busy@)),
    {
        assert(av.take(i + 1).drop_last() =~= av.take(i as int));
        assert(av.take(i + 1).last() == all@[i as int]@);
        assert(functions_under(fm@, all@[i as int]@) <= u32::MAX);
        let (files, fns) = folder_exec(fm, all[i].as_slice());
        if files.len() >= 2 {
            let ghost before = views(busy@);
            let ghost kb = keys@;
            let ghost bb = busy@;
            let ghost lb = lists@;
            let ghost cb = counts@;
            let d = crate::text::slice_of(all[i].as_slice(), 0, all[i].len());
            assert(d@ =~= all@[i as int]@);
            let nf = files.len();
            busy.push(d);
            lists.push(files);
            counts.push(fns);
            keys.push(nf as u64);
            assert(views(busy@) =~= before.push(all@[i as int]@));
            assert(keys@ =~= folder_keys(fm@, views(busy@)));
            assert forall|q: int| 0 <= q < busy@.len() implies views((#[trigger] lists@[q])@) == files_in(fm@, busy@[q]@) by {
                if q < bb.len() {
                    assert(lists@[q] == lb[q]);
                    assert(busy@[q] == bb[q]);
                }
            }
            assert forall|q: int| 0 <= q < busy@.len() implies #[trigger] counts@[q] == functions_under(fm@, busy@[q]@) by {
                if q < bb.len() {
                    assert(busy@[q] == bb[q]);
                    assert(counts@[q] == cb[q]);
                }
            }
        }
    }
    assert(av.take(na as int) =~= av);
    let mut out: Vec<char> = Vec::new();
    let nb = busy.len();
    if nb == 0 {
        return string_of(out.as_slice());
    }
    let ghost ds = views(busy@);
    let order = rank_desc(&keys);
    let k: usize = if order.len() <= 5 {
        order.len()
    } else {
        5
    };
    let ghost top = first_positions(order_desc(folder_keys(fm@, ds), ds.len()), 5);
    assert(top =~= order@.take(k as int));
    put(&mut out, "[Features]\n");
    let ghost s0 = out@;
    assert(order@.take(0) =~= Seq::<usize>::empty());
    for i in 0..k
        invariant
            k <= order@.len(),
            nb == busy@.len() == lists@.len() == counts@.len(),
            ds == views(busy@),
            forall|q: int|
                0 <= q < busy@.len() ==> views((#[trigger] lists@[q])@) == files_in(fm@, busy@[q]@),
            forall|q: int| 0 <= q < busy@.len() ==> #[trigger] counts@[q] == functions_under(fm@, busy@[q]@),
            forall|j: int| 0 <= j < order@.len() ==> (#[trigger] order@[j]) < nb,
            out@ == s0 + folder_lines(fm@, ds, order@.take(i as int)),
    {
        assert(order@.take(i + 1).drop_last() =~= order@.take(i as int));
        assert(order@.take(i + 1).last() == order@[i as int]);
        let p = order[i];
        assert(views(lists@[p as int]@) == files_in(fm@, busy@[p as int]@));
        assert(ds[p as int] == busy@[p as int]@);
        let ghost before = out@;
        put_chars(&mut out, busy[p].as_slice());
        put(&mut out, ": ");
        put_num(&mut out, lists[p].len() as u64);
        put(&mut out, "f, ");
        put_num(&mut out, counts[p]);
        put(&mut out, "fn (");
        put_listing(&mut out, &lists[p], 3, ", ");
        put(&mut out, ")\n");
        assert(out@ =~= before + folder_line(fm@, ds[p as int]));
    }
    put(&mut out, "\n");
    string_of(out.as_slice())
}

} // verus!
