//! The I/O and integration section of the report: the environment
//! variables read, the URLs and HTTP routes written, storage and events.
use vstd::prelude::*;
use crate::analyzer::FileAnalysis;
use crate::formatter::{add_item, first_n, join, more, put, put_num, with_all};
use crate::text::{
    byte_len, byte_len_upto, char_boundary, char_boundary_exec, chars_of_all, decimal,
    slice_of, string_of, strs, views,
};

verus! {

/// A count of one file: file operations (`f == 0`), JSON operations (1),
/// SQL statements (2), fetches (3), event listeners (4) or emitters (5).
pub open spec fn io_field(a: FileAnalysis, f: int) -> nat {
    if f == 0 {
        a.file_io_count as nat
    } else if f == 1 {
        a.json_op_count as nat
    } else if f == 2 {
        a.sql_count as nat
    } else if f == 3 {
        a.fetch_count as nat
    } else if f == 4 {
        a.event_listeners as nat
    } else {
        a.event_emitters as nat
    }
}

/// The count `f` summed over the first `k` files.
pub open spec fn io_sum(fm: Seq<(String, FileAnalysis)>, k: int, f: int) -> nat
    decreases k,
{
    if k <= 0 {
        0
    } else {
        io_sum(fm, k - 1, f) + io_field(fm[k - 1].1, f)
    }
}

pub open spec fn io_total(fm: Seq<(String, FileAnalysis)>, f: int) -> nat {
    io_sum(fm, fm.len() as int, f)
}

/// The environment variables of the first `k` files, each once, in order of
/// first appearance.
pub open spec fn env_names(fm: Seq<(String, FileAnalysis)>, k: int) -> Seq<Seq<char>>
    decreases k,
{
    if k <= 0 {
        Seq::empty()
    } else {
        with_all(env_names(fm, k - 1), strs(fm[k - 1].1.env_vars@))
    }
}

/// The URLs of the first `k` files, file after file.
pub open spec fn url_list(fm: Seq<(String, FileAnalysis)>, k: int) -> Seq<Seq<char>>
    decreases k,
{
    if k <= 0 {
        Seq::empty()
    } else {
        url_list(fm, k - 1) + strs(fm[k - 1].1.urls@)
    }
}

/// The HTTP routes of the first `k` files, file after file.
pub open spec fn route_list(fm: Seq<(String, FileAnalysis)>, k: int) -> Seq<Seq<char>>
    decreases k,
{
    if k <= 0 {
        Seq::empty()
    } else {
        route_list(fm, k - 1) + strs(fm[k - 1].1.http_routes@)
    }
}

/// A URL as shown: cut to its first thirty-seven bytes and `...` when it is
/// longer than forty bytes.
pub open spec fn url_text(u: Seq<char>) -> Seq<char> {
    if byte_len(u) > 40 {
        match char_boundary(u, 37) {
            Some(c) => u.take(c as int) + "..."@,
            None => u,
        }
    } else {
        u
    }
}

/// The URLs shown can be cut: each of the first five that is longer than
/// forty bytes has a character boundary at byte thirty-seven.
pub open spec fn urls_cuttable(fm: Seq<(String, FileAnalysis)>) -> bool {
    let shown = first_n(url_list(fm, fm.len() as int), 5);
    forall|i: int|
        0 <= i < shown.len() && byte_len(#[trigger] shown[i]) > 40 ==> char_boundary(shown[i], 37) is Some
}

/// The counts fit 32 bits, as the section adds them up.
pub open spec fn io_fits(fm: Seq<(String, FileAnalysis)>) -> bool {
    &&& io_total(fm, 0) <= u32::MAX
    &&& io_total(fm, 1) <= u32::MAX
    &&& io_total(fm, 2) <= u32::MAX
    &&& io_total(fm, 3) <= u32::MAX
    &&& io_total(fm, 4) <= u32::MAX
    &&& io_total(fm, 5) <= u32::MAX
}

pub open spec fn count_item(label: Seq<char>, n: nat) -> Seq<Seq<char>> {
    if n > 0 {
        seq![label + "("@ + decimal(n) + ")"@]
    } else {
        Seq::empty()
    }
}

/// The I/O and integration section: every environment variable, up to five
/// of the first ten URLs, every route, the storage operations and the
/// events, when the files read the environment, name URLs, declare routes,
/// touch files or fetch.
pub open spec fn io_section(fm: Seq<(String, FileAnalysis)>) -> Seq<char> {
    let n = fm.len() as int;
    let env = env_names(fm, n);
    let urls = first_n(url_list(fm, n), 10);
    let routes = route_list(fm, n);
    let storage = count_item("files"@, io_total(fm, 0)) + count_item("JSON"@, io_total(fm, 1))
        + count_item("SQL"@, io_total(fm, 2));
    if env.len() > 0 || urls.len() > 0 || routes.len() > 0 || io_total(fm, 0) > 0 || io_total(fm, 3)
        > 0 {
        "[I/O & Integration]\n"@ + crate::formatter::when(
            env.len() > 0,
            "Env vars: "@ + join(env, ", "@) + "\n"@,
        ) + crate::formatter::when(
            urls.len() > 0,
            "URLs: "@ + join(
                first_n(urls, 5).map_values(|u: Seq<char>| url_text(u)),
                ", "@,
            ) + more(urls.len(), 5) + "\n"@,
        ) + crate::formatter::when(routes.len() > 0, "Routes: "@ + join(routes, ", "@) + "\n"@)
            + crate::formatter::when(
            storage.len() > 0,
            "Storage: "@ + join(storage, ", "@) + "\n"@,
        ) + crate::formatter::when(
            io_total(fm, 4) > 0 || io_total(fm, 5) > 0,
            "Events: emit("@ + decimal(io_total(fm, 5)) + "), listen("@ + decimal(
                io_total(fm, 4),
            ) + ")\n"@,
        ) + "\n"@
    } else {
        Seq::empty()
    }
}

proof fn lemma_io_sum_mono(fm: Seq<(String, FileAnalysis)>, k: int, m: int, f: int)
    requires
        0 <= k <= m,
    ensures
        io_sum(fm, k, f) <= io_sum(fm, m, f),
    decreases m,
{
    if k < m {
        lemma_io_sum_mono(fm, k, m - 1, f);
    }
}

fn io_field_exec(a: &FileAnalysis, f: u8) -> (r: u32)
    ensures
        r == io_field(*a, f as int),
{
    if f == 0 {
        a.file_io_count
    } else if f == 1 {
        a.json_op_count
    } else if f == 2 {
        a.sql_count
    } else if f == 3 {
        a.fetch_count
    } else if f == 4 {
        a.event_listeners
    } else {
        a.event_emitters
    }
}

fn io_total_exec(fm: &Vec<(String, FileAnalysis)>, f: u8) -> (r: u64)
    requires
        io_total(fm@, f as int) <= u32::MAX,
    ensures
        r == io_total(fm@, f as int),
{
    let n = fm.len();
    let mut acc: u64 = 0;
    for i in 0..n
        invariant
            n == fm@.len(),
            io_sum(fm@, n as int, f as int) <= u32::MAX,
            acc == io_sum(fm@, i as int, f as int),
    {
        proof {
            lemma_io_sum_mono(fm@, i + 1, n as int, f as int);
        }
        acc = acc + io_field_exec(&fm[i].1, f) as u64;
    }
    acc
}

fn env_names_exec(fm: &Vec<(String, FileAnalysis)>) -> (r: Vec<Vec<char>>)
    ensures
        views(r@) == env_names(fm@, fm@.len() as int),
{
    let n = fm.len();
    let mut env: Vec<Vec<char>> = Vec::new();
    for i in 0..n
        invariant
            n == fm@.len(),
            views(env@) == env_names(fm@, i as int),
    {
        let vars = chars_of_all(&fm[i].1.env_vars);
        let m = vars.len();
        let ghost base = env_names(fm@, i as int);
        let ghost xs = strs(fm@[i as int].1.env_vars@);
        assert(xs.take(0) =~= Seq::<Seq<char>>::empty());
        for j in 0..m
            invariant
                m == vars@.len(),
                views(vars@) == xs,
                views(env@) == with_all(base, xs.take(j as int)),
        {
            assert(xs.take(j + 1).drop_last() =~= xs.take(j as int));
            assert(xs.take(j + 1).last() == vars@[j as int]@);
            add_item(&mut env, vars[j].as_slice());
        }
        assert(xs.take(m as int) =~= xs);
    }
    env
}

/// The URLs (`urls == true`) or routes of all files, file after file.
fn all_of(fm: &Vec<(String, FileAnalysis)>, urls: bool) -> (r: Vec<Vec<char>>)
    ensures
        views(r@) == if urls {
            url_list(fm@, fm@.len() as int)
        } else {
            route_list(fm@, fm@.len() as int)
        },
{
    let n = fm.len();
    let mut r: Vec<Vec<char>> = Vec::new();
    for i in 0..n
        invariant
            n == fm@.len(),
            views(r@) == if urls {
                url_list(fm@, i as int)
            } else {
                route_list(fm@, i as int)
            },
    {
        let mut items = if urls {
            chars_of_all(&fm[i].1.urls)
        } else {
            chars_of_all(&fm[i].1.http_routes)
        };
        let ghost before = views(r@);
        let ghost iv = views(items@);
        r.append(&mut items);
        assert(views(r@) =~= before + iv);
    }
    r
}

/// A URL as shown.
fn url_text_exec(u: &[char]) -> (r: Vec<char>)
    requires
        byte_len(u@) > 40 ==> char_boundary(u@, 37) is Some,
    ensures
        r@ == url_text(u@),
{
    if byte_len_upto(u, 40) > 40 {
        match char_boundary_exec(u, 37) {
            Some(c) => {
                let mut r = slice_of(u, 0, c);
                put(&mut r, "...");
                r
            },
            None => slice_of(u, 0, u.len()),
        }
    } else {
        slice_of(u, 0, u.len())
    }
}

fn put_joined(out: &mut Vec<char>, items: &Vec<Vec<char>>, sep: &str)
    ensures
        final(out)@ == old(out)@ + join(views(items@), sep@),
{
    crate::formatter::put_listing(out, items, items.len(), sep);
    assert(first_n(views(items@), items@.len() as nat) == views(items@));
}

fn put_storage(out: &mut Vec<char>, fio: u64, json: u64, sql: u64)
    ensures
        final(out)@ == old(out)@ + crate::formatter::when(
            (count_item("files"@, fio as nat) + count_item("JSON"@, json as nat) + count_item("SQL"@, sql as nat)).len() > 0,
            "Storage: "@ + join(
                count_item("files"@, fio as nat) + count_item("JSON"@, json as nat) + count_item("SQL"@, sql as nat),
                ", "@,
            ) + "\n"@,
        ),
{
    let mut items: Vec<Vec<char>> = Vec::new();
    if fio > 0 {
        let mut t: Vec<char> = Vec::new();
        put(&mut t, "files");
        put(&mut t, "(");
        put_num(&mut t, fio);
        put(&mut t, ")");
        let ghost tv = t@;
        items.push(t);
        assert(views(items@) =~= seq![tv]);
    }
    let ghost i1 = views(items@);
    assert(i1 =~= count_item("files"@, fio as nat));
    if json > 0 {
        let mut t: Vec<char> = Vec::new();
        put(&mut t, "JSON");
        put(&mut t, "(");
        put_num(&mut t, json);
        put(&mut t, ")");
        items.push(t);
    }
    let ghost i2 = views(items@);
    assert(i2 =~= i1 + count_item("JSON"@, json as nat));
    if sql > 0 {
        let mut t: Vec<char> = Vec::new();
        put(&mut t, "SQL");
        put(&mut t, "(");
        put_num(&mut t, sql);
        put(&mut t, ")");
        items.push(t);
    }
    assert(views(items@) =~= i2 + count_item("SQL"@, sql as nat));
    if items.len() > 0 {
        put(out, "Storage: ");
        put_joined(out, &items, ", ");
        put(out, "\n");
    } else {
        assert(out@ =~= old(out)@ + Seq::<char>::empty());
    }
}

fn put_urls(out: &mut Vec<char>, urls: &Vec<Vec<char>>)
    requires
        forall|i: int|
            0 <= i < first_n(views(urls@), 5).len() && byte_len(#[trigger] first_n(views(urls@), 5)[i]) > 40
                ==> char_boundary(first_n(views(urls@), 5)[i], 37) is Some,
    ensures
        final(out)@ == old(out)@ + crate::formatter::when(
            urls@.len() > 0,
            "URLs: "@ + join(
                first_n(views(urls@), 5).map_values(|u: Seq<char>| url_text(u)),
                ", "@,
            ) + more(urls@.len() as nat, 5) + "\n"@,
        ),
{
    let n = urls.len();
    if n == 0 {
        assert(out@ =~= old(out)@ + Seq::<char>::empty());
        return;
    }
    let k: usize = if n <= 5 {
        n
    } else {
        5
    };
    let ghost shown = first_n(views(urls@), 5);
    assert(shown =~= views(urls@).take(k as int));
    let mut items: Vec<Vec<char>> = Vec::new();
    for i in 0..k
        invariant
            k <= urls@.len(),
            shown == views(urls@).take(k as int),
            forall|q: int| 0 <= q < shown.len() && byte_len(#[trigger] shown[q]) > 40 ==> char_boundary(shown[q], 37) is Some,
            views(items@) == shown.map_values(|u: Seq<char>| url_text(u)).take(i as int),
    {
        assert(shown[i as int] == urls@[i as int]@);
        let t = url_text_exec(urls[i].as_slice());
        let ghost before = views(items@);
        let ghost tv = t@;
        items.push(t);
        assert(views(items@) =~= before.push(tv));
        assert(shown.map_values(|u: Seq<char>| url_text(u)).take(i + 1) =~= shown.map_values(
            |u: Seq<char>| url_text(u),
        ).take(i as int).push(url_text(shown[i as int])));
    }
    assert(shown.map_values(|u: Seq<char>| url_text(u)).take(k as int) =~= shown.map_values(
        |u: Seq<char>| url_text(u),
    ));
    put(out, "URLs: ");
    put_joined(out, &items, ", ");
    crate::formatter::put_more(out, n, 5);
    put(out, "\n");
}

/// The I/O and integration section of the report.
#[verifier::spinoff_prover]
#[verifier::rlimit(40)]
pub fn format_io(fm: &Vec<(String, FileAnalysis)>) -> (r: String)
    requires
        io_fits(fm@),
        urls_cuttable(fm@),
    ensures
        r@ == io_section(fm@),
{
    let env = env_names_exec(fm);
    let all_urls = all_of(fm, true);
    let routes = all_of(fm, false);
    let fio = io_total_exec(fm, 0);
    let json = io_total_exec(fm, 1);
    let sql = io_total_exec(fm, 2);
    let fetch = io_total_exec(fm, 3);
    let listeners = io_total_exec(fm, 4);
    let emitters = io_total_exec(fm, 5);
    let nu = all_urls.len();
    let k: usize = if nu <= 10 {
        nu
    } else {
        10
    };
    let urls = slice_vec(&all_urls, k);
    let ghost u10 = first_n(views(all_urls@), 10);
    assert(u10 =~= views(all_urls@).take(k as int));
    assert(views(urls@) =~= u10);
    assert(first_n(u10, 5) =~= first_n(views(all_urls@), 5));
    let mut out: Vec<char> = Vec::new();
    if !(env.len() > 0 || urls.len() > 0 || routes.len() > 0 || fio > 0 || fetch > 0) {
        return string_of(out.as_slice());
    }
    put(&mut out, "[I/O & Integration]\n");
    let ghost s0 = out@;
    if env.len() > 0 {
        put(&mut out, "Env vars: ");
        put_joined(&mut out, &env, ", ");
        put(&mut out, "\n");
    }
    let ghost s1 = out@;
    assert(s1 =~= s0 + crate::formatter::when(
        views(env@).len() > 0,
        "Env vars: "@ + join(views(env@), ", "@) + "\n"@,
    ));
    put_urls(&mut out, &urls);
    let ghost s2 = out@;
    if routes.len() > 0 {
        put(&mut out, "Routes: ");
        put_joined(&mut out, &routes, ", ");
        put(&mut out, "\n");
    }
    let ghost s3 = out@;
    assert(s3 =~= s2 + crate::formatter::when(
        views(routes@).len() > 0,
        "Routes: "@ + join(views(routes@), ", "@) + "\n"@,
    ));
    put_storage(&mut out, fio, json, sql);
    let ghost s4 = out@;
    if listeners > 0 || emitters > 0 {
        put(&mut out, "Events: emit(");
        put_num(&mut out, emitters);
        put(&mut out, "), listen(");
        put_num(&mut out, listeners);
        put(&mut out, ")\n");
    }
    let ghost s5 = out@;
    assert(s5 =~= s4 + crate::formatter::when(
        listeners > 0 || emitters > 0,
        "Events: emit("@ + decimal(emitters as nat) + "), listen("@ + decimal(listeners as nat)
            + ")\n"@,
    ));
    put(&mut out, "\n");
    string_of(out.as_slice())
}

/// The first `k` items of `v`.
fn slice_vec(v: &Vec<Vec<char>>, k: usize) -> (r: Vec<Vec<char>>)
    requires
        k <= v@.len(),
    ensures
        views(r@) == views(v@).take(k as int),
{
    let mut r: Vec<Vec<char>> = Vec::new();
    for i in 0..k
        invariant
            k <= v@.len(),
            views(r@) == views(v@).take(i as int),
    {
        let c = slice_of(v[i].as_slice(), 0, v[i].len());
        assert(c@ =~= v@[i as int]@);
        let ghost before = views(r@);
        r.push(c);
        assert(views(r@) =~= before.push(v@[i as int]@));
        assert(views(v@).take(i + 1) =~= views(v@).take(i as int).push(v@[i as int]@));
    }
    r
}

} // verus!
