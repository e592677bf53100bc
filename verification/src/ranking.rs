//! Ranking entries from the highest key to the lowest, entries with equal
//! keys keeping their order (a stable sort), as positions into the list.
use vstd::prelude::*;

verus! {

/// How many leading positions of `s` have a key of at least `c`.
pub open spec fn lead_at_least(s: Seq<usize>, keys: Seq<u64>, c: u64) -> nat
    decreases s.len(),
{
    if s.len() > 0 && keys[s[0] as int] >= c {
        1 + lead_at_least(s.drop_first(), keys, c)
    } else {
        0
    }
}

/// `x` inserted after the leading positions whose key is at least its own.
pub open spec fn insert_desc(s: Seq<usize>, keys: Seq<u64>, x: usize) -> Seq<usize> {
    s.insert(lead_at_least(s, keys, keys[x as int]) as int, x)
}

/// The positions `0..n`, from the highest key to the lowest; equal keys in
/// the order of their positions.
pub open spec fn order_desc(keys: Seq<u64>, n: nat) -> Seq<usize>
    decreases n,
{
    if n == 0 {
        Seq::empty()
    } else {
        insert_desc(order_desc(keys, (n - 1) as nat), keys, (n - 1) as usize)
    }
}

/// The first `n` of `s`, or all of it when it is shorter.
pub open spec fn first_positions(s: Seq<usize>, n: nat) -> Seq<usize> {
    if s.len() <= n {
        s
    } else {
        s.take(n as int)
    }
}

pub proof fn lemma_lead_bound(s: Seq<usize>, keys: Seq<u64>, c: u64)
    ensures
        lead_at_least(s, keys, c) <= s.len(),
    decreases s.len(),
{
    if s.len() > 0 && keys[s[0] as int] >= c {
        lemma_lead_bound(s.drop_first(), keys, c);
    }
}

/// The ranking holds each position below `n` once.
pub proof fn lemma_order_positions(keys: Seq<u64>, n: nat)
    requires
        n <= usize::MAX + 1,
    ensures
        order_desc(keys, n).len() == n,
        forall|i: int| 0 <= i < n ==> (#[trigger] order_desc(keys, n)[i]) < n,
    decreases n,
{
    if n > 0 {
        let prev = order_desc(keys, (n - 1) as nat);
        lemma_order_positions(keys, (n - 1) as nat);
        let x = (n - 1) as usize;
        lemma_lead_bound(prev, keys, keys[x as int]);
        let pos = lead_at_least(prev, keys, keys[x as int]) as int;
        prev.insert_ensures(pos, x);
        let cur = order_desc(keys, n);
        assert forall|i: int| 0 <= i < n implies (#[trigger] cur[i]) < n by {
            if i < pos {
                assert(cur[i] == prev[i]);
            } else if i > pos {
                assert(cur[i] == prev[i - 1]);
            }
        }
    }
}

/// `s` lists keys from the highest to the lowest.
pub open spec fn is_desc(s: Seq<usize>, keys: Seq<u64>) -> bool {
    forall|i: int, j: int| 0 <= i < j < s.len() ==> keys[s[i] as int] >= keys[s[j] as int]
}

proof fn lemma_lead_prefix(s: Seq<usize>, keys: Seq<u64>, c: u64)
    requires
        is_desc(s, keys),
    ensures
        forall|i: int| 0 <= i < lead_at_least(s, keys, c) ==> keys[s[i] as int] >= c,
        forall|i: int| lead_at_least(s, keys, c) <= i < s.len() ==> keys[s[i] as int] < c,
    decreases s.len(),
{
    lemma_lead_bound(s, keys, c);
    if s.len() > 0 && keys[s[0] as int] >= c {
        let t = s.drop_first();
        assert(is_desc(t, keys)) by {
            assert forall|i: int, j: int| 0 <= i < j < t.len() implies keys[t[i] as int] >= keys[t[j] as int] by {
                assert(t[i] == s[i + 1] && t[j] == s[j + 1]);
            }
        }
        lemma_lead_prefix(t, keys, c);
        assert forall|i: int| 0 <= i < lead_at_least(s, keys, c) implies keys[s[i] as int] >= c by {
            if i > 0 {
                assert(s[i] == t[i - 1]);
            }
        }
        assert forall|i: int| lead_at_least(s, keys, c) <= i < s.len() implies keys[s[i] as int] < c by {
            assert(s[i] == t[i - 1]);
        }
    } else if s.len() > 0 {
        assert forall|i: int| 0 <= i < s.len() implies keys[s[i] as int] < c by {
            if i > 0 {
                assert(keys[s[0] as int] >= keys[s[i] as int]);
            }
        }
    }
}

/// The ranking of `n` positions lists each of them once, from the highest
/// key to the lowest; positions with equal keys keep their order.
pub proof fn lemma_order_desc_ranks(keys: Seq<u64>, n: nat)
    requires
        n <= keys.len(),
        n <= usize::MAX + 1,
    ensures
        order_desc(keys, n).len() == n,
        order_desc(keys, n).no_duplicates(),
        forall|i: int| 0 <= i < n ==> (#[trigger] order_desc(keys, n)[i]) < n,
        is_desc(order_desc(keys, n), keys),
        forall|i: int, j: int|
            0 <= i < j < n && keys[order_desc(keys, n)[i] as int] == keys[order_desc(keys, n)[j] as int]
                ==> order_desc(keys, n)[i] < order_desc(keys, n)[j],
    decreases n,
{
    lemma_order_positions(keys, n);
    if n > 0 {
        let prev = order_desc(keys, (n - 1) as nat);
        lemma_order_desc_ranks(keys, (n - 1) as nat);
        let x = (n - 1) as usize;
        let c = keys[x as int];
        lemma_lead_bound(prev, keys, c);
        lemma_lead_prefix(prev, keys, c);
        let pos = lead_at_least(prev, keys, c) as int;
        prev.insert_ensures(pos, x);
        let cur = order_desc(keys, n);
        assert(cur == prev.insert(pos, x));
        assert forall|i: int| 0 <= i < cur.len() implies (i < pos ==> cur[i] == prev[i]) && (i
            == pos ==> cur[i] == x) && (i > pos ==> cur[i] == prev[i - 1]) by {}
        assert(cur.no_duplicates()) by {
            assert forall|i: int, j: int| 0 <= i < cur.len() && 0 <= j < cur.len() && i != j implies cur[i] != cur[j] by {
                if i == pos {
                    if j < pos {
                        assert(prev[j] < x);
                    } else {
                        assert(prev[j - 1] < x);
                    }
                } else if j == pos {
                    if i < pos {
                        assert(prev[i] < x);
                    } else {
                        assert(prev[i - 1] < x);
                    }
                } else {
                    let pi = if i < pos { i } else { i - 1 };
                    let pj = if j < pos { j } else { j - 1 };
                    assert(pi != pj);
                    assert(prev[pi] != prev[pj]);
                }
            }
        }
        assert forall|i: int, j: int| 0 <= i < j < cur.len() implies keys[cur[i] as int] >= keys[cur[j] as int] by {
            if j < pos {
            } else if j == pos {
            } else if i < pos {
                assert(keys[prev[i] as int] >= keys[prev[j - 1] as int]);
            } else if i == pos {
            } else {
                assert(keys[prev[i - 1] as int] >= keys[prev[j - 1] as int]);
            }
        }
        assert forall|i: int, j: int|
            0 <= i < j < n && keys[cur[i] as int] == keys[cur[j] as int] implies cur[i] < cur[j] by {
            if j == pos {
                assert(prev[i] < x);
            } else if i == pos {
                assert(keys[prev[j - 1] as int] < c);
            } else {
                let pi = if i < pos { i } else { i - 1 };
                let pj = if j < pos { j } else { j - 1 };
                assert(pi < pj);
                assert(prev[pi] < prev[pj]);
            }
        }
    }
}

/// The positions of `keys` from the highest key to the lowest; equal keys
/// in the order of their positions.
pub fn rank_desc(keys: &Vec<u64>) -> (r: Vec<usize>)
    ensures
        r@ == order_desc(keys@, keys@.len()),
        forall|i: int| 0 <= i < r@.len() ==> (#[trigger] r@[i]) < keys@.len(),
{
    let n = keys.len();
    let mut sorted: Vec<usize> = Vec::new();
    for q in 0..n
        invariant
            n == keys@.len(),
            sorted@ == order_desc(keys@, q as nat),
            forall|i: int| 0 <= i < sorted@.len() ==> (#[trigger] sorted@[i]) < q,
    {
        proof {
            lemma_order_positions(keys@, q as nat);
        }
        let c = keys[q];
        let ns = sorted.len();
        let mut pos: usize = 0;
        let ghost s = sorted@;
        assert(s.skip(0) =~= s);
        while pos < ns && keys[sorted[pos]] >= c
            invariant
                n == keys@.len(),
                ns == sorted@.len(),
                s == sorted@,
                pos <= ns,
                q < n,
                forall|i: int| 0 <= i < sorted@.len() ==> (#[trigger] sorted@[i]) < q,
                lead_at_least(s, keys@, c) == pos + lead_at_least(s.skip(pos as int), keys@, c),
            decreases ns - pos,
        {
            let ghost rest = s.skip(pos as int);
            assert(rest[0] == s[pos as int]);
            assert(rest.drop_first() =~= s.skip(pos + 1));
            pos += 1;
        }
        if pos < ns {
            assert(s.skip(pos as int)[0] == s[pos as int]);
        } else {
            assert(s.skip(pos as int).len() == 0);
        }
        let ghost before = sorted@;
        sorted.insert(pos, q);
        proof {
            before.insert_ensures(pos as int, q);
            assert(sorted@ =~= insert_desc(before, keys@, q));
            assert forall|i: int| 0 <= i < sorted@.len() implies (#[trigger] sorted@[i]) < q + 1 by {
                if i < pos {
                    assert(sorted@[i] == before[i]);
                } else if i > pos {
                    assert(sorted@[i] == before[i - 1]);
                }
            }
        }
    }
    sorted
}

} // verus!
