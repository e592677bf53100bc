//! Duplicated functions: functions whose normalised bodies hash alike,
//! grouped by that hash.
use vstd::prelude::*;
use crate::text::{chars_of, eq_chars};

verus! {

/// A function found in a file: the hash of its body, with the file's path
/// and the function's signature.
pub type HashedFunction = (String, (String, String));

/// A group of functions with one hash: the hash and each function's path
/// and signature.
pub type DuplicateGroup = (String, Vec<(String, String)>);

pub open spec fn hashed_view(e: HashedFunction) -> (Seq<char>, (Seq<char>, Seq<char>)) {
    (e.0@, (e.1.0@, e.1.1@))
}

pub open spec fn hashed_views(es: Seq<HashedFunction>) -> Seq<(Seq<char>, (Seq<char>, Seq<char>))> {
    es.map_values(|e: HashedFunction| hashed_view(e))
}

pub open spec fn member_views(ms: Seq<(String, String)>) -> Seq<(Seq<char>, Seq<char>)> {
    ms.map_values(|m: (String, String)| (m.0@, m.1@))
}

pub open spec fn group_view(g: DuplicateGroup) -> (Seq<char>, Seq<(Seq<char>, Seq<char>)>) {
    (g.0@, member_views(g.1@))
}

/// The functions of `es` with the hash `h`, in order, by path and signature.
pub open spec fn members(es: Seq<(Seq<char>, (Seq<char>, Seq<char>))>, h: Seq<char>) -> Seq<
    (Seq<char>, Seq<char>),
>
    decreases es.len(),
{
    if es.len() == 0 {
        Seq::empty()
    } else if es.last().0 == h {
        members(es.drop_last(), h).push(es.last().1)
    } else {
        members(es.drop_last(), h)
    }
}

/// `gs` is each hash that two or more functions of `es` share, once, with
/// all the functions that have it.
pub open spec fn duplicate_groups(
    es: Seq<(Seq<char>, (Seq<char>, Seq<char>))>,
    gs: Seq<(Seq<char>, Seq<(Seq<char>, Seq<char>)>)>,
) -> bool {
    &&& forall|i: int| 0 <= i < gs.len() ==> (#[trigger] gs[i]).1 == members(es, gs[i].0) && gs[i].1.len() >= 2
    &&& forall|i: int, j: int| 0 <= i < j < gs.len() ==> gs[i].0 != gs[j].0
    &&& forall|h: Seq<char>|
        #[trigger] members(es, h).len() >= 2 ==> exists|i: int| 0 <= i < gs.len() && gs[i].0 == h
}

/// The functions of one file, `(signature, hash)` each, as hashed
/// functions of the file at `path`.
pub open spec fn file_hashes(path: Seq<char>, fhs: Seq<(String, String)>) -> Seq<
    (Seq<char>, (Seq<char>, Seq<char>)),
> {
    fhs.map_values(|e: (String, String)| (e.1@, (path, e.0@)))
}

/// Appends the functions of the file at `path`.
pub fn push_file_hashes(out: &mut Vec<HashedFunction>, path: &String, fhs: &Vec<(String, String)>)
    ensures
        hashed_views(final(out)@) == hashed_views(old(out)@) + file_hashes(path@, fhs@),
{
    let n = fhs.len();
    for i in 0..n
        invariant
            n == fhs@.len(),
            hashed_views(out@) == hashed_views(old(out)@) + file_hashes(path@, fhs@).take(i as int),
    {
        let e: HashedFunction = (fhs[i].1.clone(), (path.clone(), fhs[i].0.clone()));
        let ghost before = hashed_views(out@);
        out.push(e);
        assert(hashed_views(out@) =~= before.push(hashed_view(e)));
        assert(file_hashes(path@, fhs@).take(i + 1) =~= file_hashes(path@, fhs@).take(i as int).push(
            (fhs@[i as int].1@, (path@, fhs@[i as int].0@)),
        ));
    }
    assert(file_hashes(path@, fhs@).take(n as int) =~= file_hashes(path@, fhs@));
}

/// Groups with every hash seen in the first `k` entries, each once, with its
/// functions so far.
spec fn grouped_upto(
    es: Seq<(Seq<char>, (Seq<char>, Seq<char>))>,
    k: int,
    gs: Seq<(Seq<char>, Seq<(Seq<char>, Seq<char>)>)>,
) -> bool {
    &&& forall|i: int| 0 <= i < gs.len() ==> (#[trigger] gs[i]).1 == members(es.take(k), gs[i].0)
    &&& forall|i: int, j: int| 0 <= i < j < gs.len() ==> gs[i].0 != gs[j].0
    &&& forall|h: Seq<char>|
        #[trigger] members(es.take(k), h).len() > 0 ==> exists|i: int| 0 <= i < gs.len() && gs[i].0 == h
}

proof fn lemma_members_step(es: Seq<(Seq<char>, (Seq<char>, Seq<char>))>, k: int, h: Seq<char>)
    requires
        0 <= k < es.len(),
    ensures
        members(es.take(k + 1), h) == if es[k].0 == h {
            members(es.take(k), h).push(es[k].1)
        } else {
            members(es.take(k), h)
        },
{
    assert(es.take(k + 1).drop_last() =~= es.take(k));
    assert(es.take(k + 1).last() == es[k]);
}

/// The position of the group with hash `h`, if there is one.
fn group_slot(groups: &Vec<DuplicateGroup>, h: &[char]) -> (r: Option<usize>)
    ensures
        match r {
            Some(g) => g < groups@.len() && groups@[g as int].0@ == h@,
            None => forall|i: int| 0 <= i < groups@.len() ==> (#[trigger] groups@[i]).0@ != h@,
        },
{
    let n = groups.len();
    for i in 0..n
        invariant
            n == groups@.len(),
            forall|q: int| 0 <= q < i ==> (#[trigger] groups@[q]).0@ != h@,
    {
        let c = chars_of(groups[i].0.as_str());
        if eq_chars(c.as_slice(), h) {
            return Some(i);
        }
    }
    None
}

fn copy_pair(m: &(String, String)) -> (r: (String, String))
    ensures
        r.0@ == m.0@ && r.1@ == m.1@,
{
    (m.0.clone(), m.1.clone())
}

fn copy_group(g: &DuplicateGroup) -> (r: DuplicateGroup)
    ensures
        group_view(r) == group_view(*g),
{
    let n = g.1.len();
    let mut ms: Vec<(String, String)> = Vec::new();
    for i in 0..n
        invariant
            n == g.1@.len(),
            member_views(ms@) == member_views(g.1@).take(i as int),
    {
        let c = copy_pair(&g.1[i]);
        let ghost before = member_views(ms@);
        ms.push(c);
        assert(member_views(ms@) =~= before.push((c.0@, c.1@)));
        assert(member_views(g.1@).take(i + 1) =~= member_views(g.1@).take(i as int).push(
            (g.1@[i as int].0@, g.1@[i as int].1@),
        ));
    }
    assert(member_views(g.1@).take(n as int) =~= member_views(g.1@));
    (g.0.clone(), ms)
}

/// The functions that share a hash with another, grouped by hash; groups
/// come in the order in which their hash first occurs, and functions in
/// the order of `functions`.
pub fn group_duplicates(functions: &Vec<HashedFunction>) -> (r: Vec<DuplicateGroup>)
    ensures
        duplicate_groups(hashed_views(functions@), r@.map_values(|g: DuplicateGroup| group_view(g))),
{
    let ghost es = hashed_views(functions@);
    let n = functions.len();
    let mut groups: Vec<DuplicateGroup> = Vec::new();
    proof {
        assert forall|h: Seq<char>| #[trigger] members(es.take(0), h).len() == 0 by {
            assert(es.take(0) =~= Seq::<(Seq<char>, (Seq<char>, Seq<char>))>::empty());
        }
    }
    for k in 0..n
        invariant
            n == functions@.len(),
            es == hashed_views(functions@),
            grouped_upto(es, k as int, groups@.map_values(|g: DuplicateGroup| group_view(g))),
    {
        let ghost old_g = groups@;
        let ghost gv = old_g.map_values(|g: DuplicateGroup| group_view(g));
        let hash = chars_of(functions[k].0.as_str());
        let member = copy_pair(&functions[k].1);
        assert(es[k as int] == hashed_view(functions@[k as int]));
        let ghost hk = es[k as int].0;
        let ghost mv = es[k as int].1;
        proof {
            assert forall|h: Seq<char>| true implies #[trigger] members(es.take(k + 1), h) == (if hk == h {
                members(es.take(k as int), h).push(mv)
            } else {
                members(es.take(k as int), h)
            }) by {
                lemma_members_step(es, k as int, h);
            }
        }
        match group_slot(&groups, hash.as_slice()) {
            Some(g) => {
                let mut entry = groups.remove(g);
                entry.1.push(member);
                groups.insert(g, entry);
                proof {
                    let nv = groups@.map_values(|g: DuplicateGroup| group_view(g));
                    assert(gv[g as int].0 == hk);
                    assert(nv =~= gv.update(g as int, (hk, gv[g as int].1.push(mv)))) by {
                        assert forall|i: int| 0 <= i < nv.len() implies nv[i] == gv.update(
                            g as int,
                            (hk, gv[g as int].1.push(mv)),
                        )[i] by {
                            if i == g {
                                assert(member_views(groups@[i].1@) =~= member_views(old_g[i].1@).push(mv));
                            } else {
                                assert(groups@[i] == old_g[i]);
                            }
                        }
                    }
                    assert forall|i: int| 0 <= i < nv.len() implies (#[trigger] nv[i]).1 == members(
                        es.take(k + 1),
                        nv[i].0,
                    ) by {
                        if i != g {
                            assert(gv[i].0 != gv[g as int].0);
                        }
                    }
                    assert forall|h: Seq<char>| #[trigger] members(es.take(k + 1), h).len() > 0 implies exists|i: int|
                        0 <= i < nv.len() && nv[i].0 == h by {
                        if h == hk {
                            assert(nv[g as int].0 == h);
                        } else {
                            assert(members(es.take(k as int), h).len() > 0);
                            let i = choose|i: int| 0 <= i < gv.len() && gv[i].0 == h;
                            assert(nv[i].0 == h);
                        }
                    }
                }
            },
            None => {
                let mut ms: Vec<(String, String)> = Vec::new();
                ms.push(member);
                let key = functions[k].0.clone();
                groups.push((key, ms));
                proof {
                    let nv = groups@.map_values(|g: DuplicateGroup| group_view(g));
                    assert(!(members(es.take(k as int), hk).len() > 0)) by {
                        if members(es.take(k as int), hk).len() > 0 {
                            let i = choose|i: int| 0 <= i < gv.len() && gv[i].0 == hk;
                            assert(old_g[i].0@ == hk);
                        }
                    }
                    assert(member_views(ms@) =~= seq![mv]);
                    assert(nv =~= gv.push((hk, seq![mv])));
                    assert(members(es.take(k as int), hk) =~= Seq::<(Seq<char>, Seq<char>)>::empty());
                    assert forall|i: int| 0 <= i < nv.len() implies (#[trigger] nv[i]).1 == members(
                        es.take(k + 1),
                        nv[i].0,
                    ) by {
                        if i < gv.len() {
                            assert(gv[i].0 != hk) by {
                                assert(old_g[i].0@ == gv[i].0);
                            }
                        }
                    }
                    assert forall|i: int, j: int| 0 <= i < j < nv.len() implies nv[i].0 != nv[j].0 by {
                        if j == gv.len() {
                            assert(old_g[i].0@ == gv[i].0);
                        }
                    }
                    assert forall|h: Seq<char>| #[trigger] members(es.take(k + 1), h).len() > 0 implies exists|i: int|
                        0 <= i < nv.len() && nv[i].0 == h by {
                        if h == hk {
                            assert(nv[gv.len() as int].0 == h);
                        } else {
                            assert(members(es.take(k as int), h).len() > 0);
                            let i = choose|i: int| 0 <= i < gv.len() && gv[i].0 == h;
                            assert(nv[i].0 == h);
                        }
                    }
                }
            },
        }
    }
    assert(es.take(n as int) =~= es);
    let ghost all = groups@.map_values(|g: DuplicateGroup| group_view(g));
    let m = groups.len();
    let mut kept: Vec<DuplicateGroup> = Vec::new();
    let ghost mut idx: Seq<int> = Seq::empty();
    for i in 0..m
        invariant
            m == groups@.len(),
            all == groups@.map_values(|g: DuplicateGroup| group_view(g)),
            kept@.len() == idx.len(),
            forall|q: int| 0 <= q < idx.len() ==> 0 <= #[trigger] idx[q] < i && group_view(kept@[q]) == all[idx[q]] && all[idx[q]].1.len() >= 2,
            forall|q: int, r: int| 0 <= q < r < idx.len() ==> idx[q] < idx[r],
            forall|j: int| 0 <= j < i && #[trigger] all[j].1.len() >= 2 ==> exists|q: int| 0 <= q < idx.len() && idx[q] == j,
    {
        let ghost idx0 = idx;
        assert(all[i as int] == group_view(groups@[i as int]));
        assert(all[i as int].1.len() == groups@[i as int].1@.len());
        if groups[i].1.len() >= 2 {
            let c = copy_group(&groups[i]);
            kept.push(c);
            proof {
                idx = idx.push(i as int);
            }
        }
        proof {
            assert forall|j: int| 0 <= j < i + 1 && #[trigger] all[j].1.len() >= 2 implies exists|q: int| 0 <= q < idx.len() && idx[q] == j by {
                if j == i {
                    assert(idx[idx.len() - 1] == j);
                } else {
                    let q = choose|q: int| 0 <= q < idx0.len() && idx0[q] == j;
                    assert(idx[q] == j);
                }
            }
        }
    }
    let ghost kv = kept@.map_values(|g: DuplicateGroup| group_view(g));
    proof {
        assert forall|i: int| 0 <= i < kv.len() implies (#[trigger] kv[i]).1 == members(es, kv[i].0) && kv[i].1.len() >= 2 by {
            assert(kv[i] == all[idx[i]]);
        }
        assert forall|i: int, q: int| 0 <= i < q < kv.len() implies kv[i].0 != kv[q].0 by {
            assert(kv[i] == all[idx[i]]);
            assert(kv[q] == all[idx[q]]);
        }
        assert forall|h: Seq<char>| #[trigger] members(es, h).len() >= 2 implies exists|i: int| 0 <= i < kv.len() && kv[i].0 == h by {
            assert(members(es.take(n as int), h).len() > 0);
            let j = choose|j: int| 0 <= j < all.len() && all[j].0 == h;
            assert(all[j].1 == members(es, h));
            let q = choose|q: int| 0 <= q < idx.len() && idx[q] == j;
            assert(kv[q] == all[j]);
        }
    }
    kept
}

} // verus!
