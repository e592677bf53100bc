//! The code patterns section of the report: asynchronous code, error
//! handling, the project's own calls, constants and global state.
use vstd::prelude::*;
use crate::analyzer::FileAnalysis;
use crate::formatter::{first_n, join, listing, more, put, put_chars, put_listing, put_more, put_num, with_item};
use crate::integration::count_item;
use crate::ranking::{first_positions, order_desc, rank_desc};
use crate::text::{chars_of, char_is_lower, decimal, has_char, index_of, is_lower, string_of, strs, views};

verus! {

/// A count of one file: `async` (`f == 0`), `await` (1), promises (2),
/// callbacks (3), `try` blocks (4) or `throw`s (5).
pub open spec fn pattern_field(a: FileAnalysis, f: int) -> nat {
    if f == 0 {
        a.async_count as nat
    } else if f == 1 {
        a.await_count as nat
    } else if f == 2 {
        a.promise_count as nat
    } else if f == 3 {
        a.callback_count as nat
    } else if f == 4 {
        a.try_catch_count as nat
    } else {
        a.throw_count as nat
    }
}

pub open spec fn pattern_sum(fm: Seq<(String, FileAnalysis)>, k: int, f: int) -> nat
    decreases k,
{
    if k <= 0 {
        0
    } else {
        pattern_sum(fm, k - 1, f) + pattern_field(fm[k - 1].1, f)
    }
}

pub open spec fn pattern_total(fm: Seq<(String, FileAnalysis)>, f: int) -> nat {
    pattern_sum(fm, fm.len() as int, f)
}

/// A call of the project's own code: a plain name, without a dot, that
/// starts with a lowercase letter.
pub open spec fn internal_call(name: Seq<char>) -> bool {
    !name.contains('.') && name.len() > 0 && is_lower(name[0])
}

/// The project's own calls among `cs`, with their counts.
pub open spec fn internal_in(cs: Seq<(String, u32)>) -> Seq<(Seq<char>, u32)>
    decreases cs.len(),
{
    if cs.len() == 0 {
        Seq::empty()
    } else if internal_call(cs.last().0@) {
        internal_in(cs.drop_last()).push((cs.last().0@, cs.last().1))
    } else {
        internal_in(cs.drop_last())
    }
}

/// The project's own calls of the first `k` files, file after file.
pub open spec fn calls_upto(fm: Seq<(String, FileAnalysis)>, k: int) -> Seq<(Seq<char>, u32)>
    decreases k,
{
    if k <= 0 {
        Seq::empty()
    } else {
        calls_upto(fm, k - 1) + internal_in(fm[k - 1].1.call_patterns@)
    }
}

/// The names called, each once, in order of first appearance.
pub open spec fn call_names(cs: Seq<(Seq<char>, u32)>) -> Seq<Seq<char>>
    decreases cs.len(),
{
    if cs.len() == 0 {
        Seq::empty()
    } else {
        with_item(call_names(cs.drop_last()), cs.last().0)
    }
}

/// How often `name` is called in all.
pub open spec fn call_weight(cs: Seq<(Seq<char>, u32)>, name: Seq<char>) -> nat
    decreases cs.len(),
{
    if cs.len() == 0 {
        0
    } else {
        call_weight(cs.drop_last(), name) + (if cs.last().0 == name {
            cs.last().1 as nat
        } else {
            0
        })
    }
}

/// The names of the constants of the first `k` files, file after file.
pub open spec fn constant_names(fm: Seq<(String, FileAnalysis)>, k: int) -> Seq<Seq<char>>
    decreases k,
{
    if k <= 0 {
        Seq::empty()
    } else {
        constant_names(fm, k - 1) + fm[k - 1].1.constants@.map_values(|c: (String, String)| c.0@)
    }
}

/// The global state of the first `k` files, file after file.
pub open spec fn global_names(fm: Seq<(String, FileAnalysis)>, k: int) -> Seq<Seq<char>>
    decreases k,
{
    if k <= 0 {
        Seq::empty()
    } else {
        global_names(fm, k - 1) + strs(fm[k - 1].1.global_state@)
    }
}

pub open spec fn call_keys(cs: Seq<(Seq<char>, u32)>, names: Seq<Seq<char>>) -> Seq<u64> {
    names.map_values(|n: Seq<char>| call_weight(cs, n) as u64)
}

pub open spec fn call_items(cs: Seq<(Seq<char>, u32)>, names: Seq<Seq<char>>, order: Seq<usize>) -> Seq<
    Seq<char>,
> {
    order.map_values(
        |i: usize| names[i as int] + "("@ + decimal(call_weight(cs, names[i as int])) + ")"@,
    )
}

/// The counts fit 32 bits, as the section adds them up.
pub open spec fn patterns_fit(fm: Seq<(String, FileAnalysis)>) -> bool {
    &&& pattern_total(fm, 0) <= u32::MAX
    &&& pattern_total(fm, 1) <= u32::MAX
    &&& pattern_total(fm, 2) <= u32::MAX
    &&& pattern_total(fm, 3) <= u32::MAX
    &&& pattern_total(fm, 4) <= u32::MAX
    &&& forall|n: Seq<char>| #[trigger] call_weight(calls_upto(fm, fm.len() as int), n) <= u32::MAX
}

/// The code patterns section: the asynchronous constructs, the `try`
/// blocks, the eight names of the project's own code called most often, six
/// of the first twenty constants and the first ten pieces of global state.
pub open spec fn patterns_section(fm: Seq<(String, FileAnalysis)>) -> Seq<char> {
    let n = fm.len() as int;
    let cs = calls_upto(fm, n);
    let names = call_names(cs);
    let consts = first_n(constant_names(fm, n), 20);
    let globals = first_n(global_names(fm, n), 10);
    if pattern_total(fm, 0) > 0 || pattern_total(fm, 4) > 0 || consts.len() > 0 || names.len() > 0 {
        "[Code Patterns]\n"@ + async_text(
            pattern_total(fm, 0),
            pattern_total(fm, 1),
            pattern_total(fm, 2),
            pattern_total(fm, 3),
        ) + errors_text(pattern_total(fm, 4)) + calls_text(cs, names) + constants_text(consts)
            + globals_text(globals) + "\n"@
    } else {
        Seq::empty()
    }
}

pub open spec fn errors_text(tries: nat) -> Seq<char> {
    crate::formatter::when(tries > 0, "Errors: try/catch("@ + decimal(tries) + ")\n"@)
}

/// The eight names called most often, most first, with their counts.
pub open spec fn calls_text(cs: Seq<(Seq<char>, u32)>, names: Seq<Seq<char>>) -> Seq<char> {
    crate::formatter::when(
        names.len() > 0,
        "Internal calls: "@ + join(
            call_items(cs, names, first_positions(order_desc(call_keys(cs, names), names.len()), 8)),
            ", "@,
        ) + "\n"@,
    )
}

proof fn lemma_pattern_sum_mono(fm: Seq<(String, FileAnalysis)>, k: int, m: int, f: int)
    requires
        0 <= k <= m,
    ensures
        pattern_sum(fm, k, f) <= pattern_sum(fm, m, f),
    decreases m,
{
    if k < m {
        lemma_pattern_sum_mono(fm, k, m - 1, f);
    }
}

fn pattern_field_exec(a: &FileAnalysis, f: u8) -> (r: u32)
    ensures
        r == pattern_field(*a, f as int),
{
    if f == 0 {
        a.async_count
    } else if f == 1 {
        a.await_count
    } else if f == 2 {
        a.promise_count
    } else if f == 3 {
        a.callback_count
    } else if f == 4 {
        a.try_catch_count
    } else {
        a.throw_count
    }
}

fn pattern_total_exec(fm: &Vec<(String, FileAnalysis)>, f: u8) -> (r: u64)
    requires
        pattern_total(fm@, f as int) <= u32::MAX,
    ensures
        r == pattern_total(fm@, f as int),
{
    let n = fm.len();
    let mut acc: u64 = 0;
    for i in 0..n
        invariant
            n == fm@.len(),
            pattern_sum(fm@, n as int, f as int) <= u32::MAX,
            acc == pattern_sum(fm@, i as int, f as int),
    {
        proof {
            lemma_pattern_sum_mono(fm@, i + 1, n as int, f as int);
        }
        acc = acc + pattern_field_exec(&fm[i].1, f) as u64;
    }
    acc
}

fn internal_call_exec(name: &[char]) -> (r: bool)
    ensures
        r == internal_call(name@),
{
    !has_char(name, '.') && name.len() > 0 && char_is_lower(name[0])
}

pub open spec fn call_views(v: Seq<(Vec<char>, u32)>) -> Seq<(Seq<char>, u32)> {
    v.map_values(|e: (Vec<char>, u32)| (e.0@, e.1))
}

fn calls_exec(fm: &Vec<(String, FileAnalysis)>) -> (r: Vec<(Vec<char>, u32)>)
    ensures
        call_views(r@) == calls_upto(fm@, fm@.len() as int),
{
    let n = fm.len();
    let mut r: Vec<(Vec<char>, u32)> = Vec::new();
    for i in 0..n
        invariant
            n == fm@.len(),
            call_views(r@) == calls_upto(fm@, i as int),
    {
        let cs = &fm[i].1.call_patterns;
        let m = cs.len();
        let ghost base = call_views(r@);
        for j in 0..m
            invariant
                m == cs@.len(),
                call_views(r@) == base + internal_in(cs@.take(j as int)),
        {
            assert(cs@.take(j + 1).drop_last() =~= cs@.take(j as int));
            assert(cs@.take(j + 1).last() == cs@[j as int]);
            let name = chars_of(cs[j].0.as_str());
            if internal_call_exec(name.as_slice()) {
                let ghost before = call_views(r@);
                let ghost nv = name@;
                r.push((name, cs[j].1));
                assert(call_views(r@) =~= before.push((nv, cs@[j as int].1)));
            }
        }
        assert(cs@.take(m as int) =~= cs@);
    }
    r
}

proof fn lemma_call_names_distinct(cs: Seq<(Seq<char>, u32)>)
    ensures
        call_names(cs).no_duplicates(),
    decreases cs.len(),
{
    if cs.len() > 0 {
        lemma_call_names_distinct(cs.drop_last());
    }
}

proof fn lemma_unnamed_weight(cs: Seq<(Seq<char>, u32)>, n: Seq<char>)
    requires
        !call_names(cs).contains(n),
    ensures
        call_weight(cs, n) == 0,
    decreases cs.len(),
{
    if cs.len() > 0 {
        let p = call_names(cs.drop_last());
        if p.contains(n) {
            let j = choose|j: int| 0 <= j < p.len() && p[j] == n;
            assert(call_names(cs)[j] == n);
        }
        if cs.last().0 == n {
            if !p.contains(n) {
                assert(call_names(cs)[p.len() as int] == n);
            } else {
                let j = choose|j: int| 0 <= j < p.len() && p[j] == n;
                assert(call_names(cs)[j] == n);
            }
        }
        lemma_unnamed_weight(cs.drop_last(), n);
    }
}

proof fn lemma_weight_prefix(cs: Seq<(Seq<char>, u32)>, k: int, n: Seq<char>)
    requires
        0 <= k <= cs.len(),
    ensures
        call_weight(cs.take(k), n) <= call_weight(cs, n),
    decreases cs.len() - k,
{
    if k < cs.len() {
        lemma_weight_prefix(cs.drop_last(), k, n);
        assert(cs.drop_last().take(k) =~= cs.take(k));
    } else {
        assert(cs.take(k) =~= cs);
    }
}

/// The names called, each once, with how often each is called.
fn weigh_calls(calls: &Vec<(Vec<char>, u32)>) -> (r: (Vec<Vec<char>>, Vec<u64>))
    requires
        forall|n: Seq<char>| #[trigger] call_weight(call_views(calls@), n) <= u32::MAX,
    ensures
        views(r.0@) == call_names(call_views(calls@)),
        r.1@ == call_keys(call_views(calls@), call_names(call_views(calls@))),
{
    let ghost cs = call_views(calls@);
    let n = calls.len();
    let mut names: Vec<Vec<char>> = Vec::new();
    let mut weights: Vec<u64> = Vec::new();
    for i in 0..n
        invariant
            n == calls@.len(),
            cs == call_views(calls@),
            forall|m: Seq<char>| #[trigger] call_weight(cs, m) <= u32::MAX,
            views(names@) == call_names(cs.take(i as int)),
            weights@.len() == names@.len(),
            forall|q: int| 0 <= q < names@.len() ==> #[trigger] weights@[q] == call_weight(cs.take(i as int), names@[q]@),
    {
        let ghost pre = cs.take(i as int);
        let ghost e = cs[i as int];
        assert(cs.take(i + 1).drop_last() =~= pre);
        assert(cs.take(i + 1).last() == e);
        assert(e == (calls@[i as int].0@, calls@[i as int].1));
        proof {
            lemma_call_names_distinct(pre);
            lemma_weight_prefix(cs, i + 1, e.0);
        }
        let ghost nb = names@;
        let ghost wb = weights@;
        match index_of(&names, calls[i].0.as_slice()) {
            Some(q) => {
                assert(views(names@)[q as int] == e.0);
                let w = weights[q] + calls[i].1 as u64;
                weights.set(q, w);
                proof {
                    assert(call_names(cs.take(i + 1)) == call_names(pre));
                    assert forall|r: int| 0 <= r < names@.len() implies #[trigger] weights@[r] == call_weight(cs.take(i + 1), names@[r]@) by {
                        if r != q {
                            assert(views(names@)[r] != views(names@)[q as int]);
                            assert(views(names@)[r] == names@[r]@);
                        }
                    }
                }
            },
            None => {
                proof {
                    assert(!call_names(pre).contains(e.0)) by {
                        if call_names(pre).contains(e.0) {
                            let q = choose|q: int| 0 <= q < call_names(pre).len() && call_names(pre)[q] == e.0;
                            assert(views(names@)[q] == e.0);
                        }
                    }
                    lemma_unnamed_weight(pre, e.0);
                }
                let own = crate::text::slice_of(calls[i].0.as_slice(), 0, calls[i].0.len());
                assert(own@ =~= e.0);
                names.push(own);
                weights.push(calls[i].1 as u64);
                proof {
                    assert(views(names@) =~= call_names(pre).push(e.0));
                    assert forall|r: int| 0 <= r < names@.len() implies #[trigger] weights@[r] == call_weight(cs.take(i + 1), names@[r]@) by {
                        if r < nb.len() {
                            assert(names@[r] == nb[r]);
                            assert(weights@[r] == wb[r]);
                            assert(views(nb)[r] == nb[r]@);
                            assert(call_names(pre).contains(nb[r]@));
                            assert(nb[r]@ != e.0);
                        }
                    }
                }
            },
        }
    }
    assert(cs.take(n as int) =~= cs);
    proof {
        assert(weights@ =~= call_keys(cs, call_names(cs))) by {
            assert forall|q: int| 0 <= q < weights@.len() implies weights@[q] == call_keys(cs, call_names(cs))[q] by {
                assert(views(names@)[q] == names@[q]@);
            }
        }
    }
    (names, weights)
}

fn constant_names_exec(fm: &Vec<(String, FileAnalysis)>) -> (r: Vec<Vec<char>>)
    ensures
        views(r@) == constant_names(fm@, fm@.len() as int),
{
    let n = fm.len();
    let mut r: Vec<Vec<char>> = Vec::new();
    for i in 0..n
        invariant
            n == fm@.len(),
            views(r@) == constant_names(fm@, i as int),
    {
        let cs = &fm[i].1.constants;
        let m = cs.len();
        let ghost base = views(r@);
        let ghost all = cs@.map_values(|c: (String, String)| c.0@);
        for j in 0..m
            invariant
                m == cs@.len(),
                all == cs@.map_values(|c: (String, String)| c.0@),
                views(r@) == base + all.take(j as int),
        {
            let c = chars_of(cs[j].0.as_str());
            let ghost before = views(r@);
            let ghost cv = c@;
            r.push(c);
            assert(views(r@) =~= before.push(cv));
            assert(all.take(j + 1) =~= all.take(j as int).push(cs@[j as int].0@));
        }
        assert(all.take(m as int) =~= all);
    }
    r
}

fn global_names_exec(fm: &Vec<(String, FileAnalysis)>) -> (r: Vec<Vec<char>>)
    ensures
        views(r@) == global_names(fm@, fm@.len() as int),
{
    let n = fm.len();
    let mut r: Vec<Vec<char>> = Vec::new();
    for i in 0..n
        invariant
            n == fm@.len(),
            views(r@) == global_names(fm@, i as int),
    {
        let mut g = crate::text::chars_of_all(&fm[i].1.global_state);
        let ghost before = views(r@);
        let ghost gv = views(g@);
        r.append(&mut g);
        assert(views(r@) =~= before + gv);
    }
    r
}

fn put_joined(out: &mut Vec<char>, items: &Vec<Vec<char>>, sep: &str)
    ensures
        final(out)@ == old(out)@ + join(views(items@), sep@),
{
    put_listing(out, items, items.len(), sep);
    assert(first_n(views(items@), items@.len() as nat) == views(items@));
}

fn push_count(items: &mut Vec<Vec<char>>, label: &str, n: u64)
    ensures
        views(final(items)@) == views(old(items)@) + count_item(label@, n as nat),
{
    if n > 0 {
        let mut t: Vec<char> = Vec::new();
        put(&mut t, label);
        put(&mut t, "(");
        put_num(&mut t, n);
        put(&mut t, ")");
        let ghost before = views(items@);
        let ghost tv = t@;
        items.push(t);
        assert(views(items@) =~= before + seq![tv]);
    } else {
        assert(views(items@) =~= views(items@) + Seq::<Seq<char>>::empty());
    }
}

fn put_calls(out: &mut Vec<char>, names: &Vec<Vec<char>>, weights: &Vec<u64>, Ghost(cs): Ghost<Seq<(Seq<char>, u32)>>)
    requires
        views(names@) == call_names(cs),
        weights@ == call_keys(cs, call_names(cs)),
        names@.len() > 0,
        forall|m: Seq<char>| #[trigger] call_weight(cs, m) <= u32::MAX,
    ensures
        final(out)@ == old(out)@ + calls_text(cs, views(names@)),
{
    let nn = names.len();
    let order = rank_desc(weights);
    let k: usize = if order.len() <= 8 {
        order.len()
    } else {
        8
    };
    let ghost ns = views(names@);
    let ghost top = first_positions(order_desc(call_keys(cs, ns), ns.len()), 8);
    assert(top =~= order@.take(k as int));
    let mut items: Vec<Vec<char>> = Vec::new();
    for i in 0..k
        invariant
            k <= order@.len(),
            top == order@.take(k as int),
            nn == names@.len() == weights@.len(),
            ns == views(names@),
            weights@ == call_keys(cs, ns),
            forall|m: Seq<char>| #[trigger] call_weight(cs, m) <= u32::MAX,
            forall|j: int| 0 <= j < order@.len() ==> (#[trigger] order@[j]) < nn,
            views(items@) == call_items(cs, ns, top).take(i as int),
    {
        let p = order[i];
        assert(order@[i as int] < nn);
        let mut t: Vec<char> = Vec::new();
        put_chars(&mut t, names[p].as_slice());
        put(&mut t, "(");
        put_num(&mut t, weights[p]);
        put(&mut t, ")");
        assert(ns[p as int] == names@[p as int]@);
        assert(call_weight(cs, ns[p as int]) <= u32::MAX);
        assert(weights@[p as int] == call_keys(cs, ns)[p as int]);
        assert(weights@[p as int] == call_weight(cs, ns[p as int]));
        assert(t@ =~= call_items(cs, ns, top)[i as int]);
        let ghost before = views(items@);
        let ghost tv = t@;
        items.push(t);
        assert(views(items@) =~= before.push(tv));
        assert(call_items(cs, ns, top).take(i + 1) =~= call_items(cs, ns, top).take(i as int).push(tv));
    }
    assert(call_items(cs, ns, top).take(k as int) =~= call_items(cs, ns, top));
    put(out, "Internal calls: ");
    put_joined(out, &items, ", ");
    put(out, "\n");
}

pub open spec fn async_text(asy: nat, awa: nat, pro: nat, cal: nat) -> Seq<char> {
    crate::formatter::when(
        asy > 0 || pro > 0 || cal > 0,
        "Async: "@ + join(
            count_item("async"@, asy) + count_item("await"@, awa) + count_item("Promise"@, pro)
                + count_item("callbacks"@, cal),
            ", "@,
        ) + "\n"@,
    )
}

fn put_async(out: &mut Vec<char>, asy: u64, awa: u64, pro: u64, cal: u64)
    ensures
        final(out)@ == old(out)@ + async_text(asy as nat, awa as nat, pro as nat, cal as nat),
{
    if asy > 0 || pro > 0 || cal > 0 {
        let mut items: Vec<Vec<char>> = Vec::new();
        push_count(&mut items, "async", asy);
        push_count(&mut items, "await", awa);
        push_count(&mut items, "Promise", pro);
        push_count(&mut items, "callbacks", cal);
        assert(views(items@) =~= count_item("async"@, asy as nat) + count_item("await"@, awa as nat)
            + count_item("Promise"@, pro as nat) + count_item("callbacks"@, cal as nat));
        put(out, "Async: ");
        put_joined(out, &items, ", ");
        put(out, "\n");
    } else {
        assert(out@ =~= old(out)@ + Seq::<char>::empty());
    }
}

pub open spec fn constants_text(consts: Seq<Seq<char>>) -> Seq<char> {
    crate::formatter::when(
        consts.len() > 0,
        "Constants: "@ + listing(consts, 6, ", "@) + more(consts.len(), 6) + "\n"@,
    )
}

fn put_constants(out: &mut Vec<char>, consts: &Vec<Vec<char>>)
    ensures
        final(out)@ == old(out)@ + constants_text(views(consts@)),
{
    if consts.len() > 0 {
        put(out, "Constants: ");
        put_listing(out, consts, 6, ", ");
        put_more(out, consts.len(), 6);
        put(out, "\n");
    } else {
        assert(out@ =~= old(out)@ + Seq::<char>::empty());
    }
}

pub open spec fn globals_text(globals: Seq<Seq<char>>) -> Seq<char> {
    crate::formatter::when(globals.len() > 0, "Global state: "@ + join(globals, ", "@) + "\n"@)
}

fn put_globals(out: &mut Vec<char>, globals: &Vec<Vec<char>>)
    ensures
        final(out)@ == old(out)@ + globals_text(views(globals@)),
{
    if globals.len() > 0 {
        put(out, "Global state: ");
        put_joined(out, globals, ", ");
        put(out, "\n");
    } else {
        assert(out@ =~= old(out)@ + Seq::<char>::empty());
    }
}

/// The names of the project's own code that the files call, with how often
/// each is called.
fn gather_calls(fm: &Vec<(String, FileAnalysis)>) -> (r: (Vec<Vec<char>>, Vec<u64>))
    requires
        patterns_fit(fm@),
    ensures
        views(r.0@) == call_names(calls_upto(fm@, fm@.len() as int)),
        r.1@ == call_keys(
            calls_upto(fm@, fm@.len() as int),
            call_names(calls_upto(fm@, fm@.len() as int)),
        ),
        forall|m: Seq<char>| #[trigger] call_weight(calls_upto(fm@, fm@.len() as int), m) <= u32::MAX,
{
    let calls = calls_exec(fm);
    weigh_calls(&calls)
}

/// The first twenty constant names.
fn first_constants(fm: &Vec<(String, FileAnalysis)>) -> (r: Vec<Vec<char>>)
    ensures
        views(r@) == first_n(constant_names(fm@, fm@.len() as int), 20),
{
    let all = constant_names_exec(fm);
    let k = if all.len() <= 20 {
        all.len()
    } else {
        20
    };
    let r = take_items(&all, k);
    assert(views(r@) =~= first_n(views(all@), 20));
    r
}

/// The first ten pieces of global state.
fn first_globals(fm: &Vec<(String, FileAnalysis)>) -> (r: Vec<Vec<char>>)
    ensures
        views(r@) == first_n(global_names(fm@, fm@.len() as int), 10),
{
    let all = global_names_exec(fm);
    let k = if all.len() <= 10 {
        all.len()
    } else {
        10
    };
    let r = take_items(&all, k);
    assert(views(r@) =~= first_n(views(all@), 10));
    r
}

/// The code patterns section of the report.
#[verifier::spinoff_prover]
#[verifier::rlimit(40)]
pub fn format_patterns(fm: &Vec<(String, FileAnalysis)>) -> (r: String)
    requires
        patterns_fit(fm@),
    ensures
        r@ == patterns_section(fm@),
{
    let asy = pattern_total_exec(fm, 0);
    let awa = pattern_total_exec(fm, 1);
    let pro = pattern_total_exec(fm, 2);
    let cal = pattern_total_exec(fm, 3);
    let tri = pattern_total_exec(fm, 4);
    let ghost cs = calls_upto(fm@, fm@.len() as int);
    let (names, weights) = gather_calls(fm);
    let consts_v = first_constants(fm);
    let globals_v = first_globals(fm);
    let ghost consts = views(consts_v@);
    let ghost globals = views(globals_v@);
    let mut out: Vec<char> = Vec::new();
    if !(asy > 0 || tri > 0 || consts_v.len() > 0 || names.len() > 0) {
        return string_of(out.as_slice());
    }
    put(&mut out, "[Code Patterns]\n");
    let ghost s0 = out@;
    put_async(&mut out, asy, awa, pro, cal);
    put_errors(&mut out, tri);
    let ghost s2 = out@;
    if names.len() > 0 {
        put_calls(&mut out, &names, &weights, Ghost(cs));
    } else {
        assert(out@ =~= s2 + calls_text(cs, views(names@)));
    }
    put_constants(&mut out, &consts_v);
    put_globals(&mut out, &globals_v);
    put(&mut out, "\n");
    let ghost body = async_text(asy as nat, awa as nat, pro as nat, cal as nat) + errors_text(tri as nat)
        + calls_text(cs, views(names@)) + constants_text(consts) + globals_text(globals) + "\n"@;
    assert(out@ =~= "[Code Patterns]\n"@ + body);
    string_of(out.as_slice())
}

fn put_errors(out: &mut Vec<char>, tries: u64)
    ensures
        final(out)@ == old(out)@ + errors_text(tries as nat),
{
    if tries > 0 {
        put(out, "Errors: try/catch(");
        put_num(out, tries);
        put(out, ")\n");
    } else {
        assert(out@ =~= old(out)@ + Seq::<char>::empty());
    }
}

/// The first `k` items of `v`.
fn take_items(v: &Vec<Vec<char>>, k: usize) -> (r: Vec<Vec<char>>)
    requires
        k <= v@.len(),
    ensures
        views(r@) == views(v@).take(k as int),
{
    let mut r: Vec<Vec<char>> = Vec::new();
    for i in 0..k
        invariant
            k <= v@.len(),
            views(r@) == views(v@).take(i as int),
    {
        let c = crate::text::slice_of(v[i].as_slice(), 0, v[i].len());
        assert(c@ =~= v@[i as int]@);
        let ghost before = views(r@);
        r.push(c);
        assert(views(r@) =~= before.push(v@[i as int]@));
        assert(views(v@).take(i + 1) =~= views(v@).take(i as int).push(v@[i as int]@));
    }
    r
}

} // verus!
