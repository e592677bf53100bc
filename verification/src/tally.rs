//! Counting occurrences of strings: a list of `(key, count)` pairs with
//! distinct keys, in order of first occurrence.
use vstd::prelude::*;

use crate::text::{eq_chars, chars_of, string_of};

verus! {

/// How many times `k` occurs in `s`.
pub open spec fn occurrences(s: Seq<Seq<char>>, k: Seq<char>) -> nat
    decreases s.len(),
{
    if s.len() == 0 {
        0
    } else {
        occurrences(s.drop_last(), k) + if s.last() == k {
            1nat
        } else {
            0nat
        }
    }
}

/// The keys of a tally, in order.
pub open spec fn tally_keys(t: Seq<(String, u32)>) -> Seq<Seq<char>> {
    t.map_values(|e: (String, u32)| e.0@)
}

/// The count a tally records for `k`: that of its last entry with key `k`,
/// or 0 when there is none.
pub open spec fn count_in(t: Seq<(String, u32)>, k: Seq<char>) -> nat
    decreases t.len(),
{
    if t.len() == 0 {
        0
    } else if t.last().0@ == k {
        t.last().1 as nat
    } else {
        count_in(t.drop_last(), k)
    }
}

/// `t` counts the elements of `s`: each key once, the keys are exactly the
/// elements of `s`, and each count is the number of occurrences.
pub open spec fn tallies(t: Seq<(String, u32)>, s: Seq<Seq<char>>) -> bool {
    &&& tally_keys(t).no_duplicates()
    &&& forall|k: Seq<char>| tally_keys(t).contains(k) <==> s.contains(k)
    &&& forall|k: Seq<char>| count_in(t, k) == occurrences(s, k)
}

pub proof fn lemma_occurrences_contains(s: Seq<Seq<char>>, k: Seq<char>)
    ensures
        occurrences(s, k) > 0 <==> s.contains(k),
    decreases s.len(),
{
    if s.len() > 0 {
        lemma_occurrences_contains(s.drop_last(), k);
        if s.drop_last().contains(k) {
            let j = choose|j: int| 0 <= j < s.drop_last().len() && s.drop_last()[j] == k;
            assert(s[j] == k);
        }
        if s.contains(k) && s.last() != k {
            let j = choose|j: int| 0 <= j < s.len() && s[j] == k;
            assert(s.drop_last()[j] == k);
        }
    }
}

pub proof fn lemma_occurrences_bound(s: Seq<Seq<char>>, k: Seq<char>)
    ensures
        occurrences(s, k) <= s.len(),
    decreases s.len(),
{
    if s.len() > 0 {
        lemma_occurrences_bound(s.drop_last(), k);
    }
}

proof fn lemma_count_absent(t: Seq<(String, u32)>, k: Seq<char>)
    requires
        !tally_keys(t).contains(k),
    ensures
        count_in(t, k) == 0,
    decreases t.len(),
{
    if t.len() > 0 {
        assert(tally_keys(t)[t.len() - 1] == t.last().0@);
        assert(!tally_keys(t.drop_last()).contains(k)) by {
            if tally_keys(t.drop_last()).contains(k) {
                let j = choose|j: int|
                    0 <= j < tally_keys(t.drop_last()).len() && tally_keys(t.drop_last())[j] == k;
                assert(tally_keys(t)[j] == k);
            }
        }
        lemma_count_absent(t.drop_last(), k);
    }
}

pub proof fn lemma_count_at(t: Seq<(String, u32)>, i: int)
    requires
        tally_keys(t).no_duplicates(),
        0 <= i < t.len(),
    ensures
        count_in(t, t[i].0@) == t[i].1,
    decreases t.len(),
{
    if i < t.len() - 1 {
        assert(tally_keys(t)[i] != tally_keys(t)[t.len() - 1]);
        assert(tally_keys(t.drop_last()) =~= tally_keys(t).drop_last());
        lemma_count_at(t.drop_last(), i);
    }
}

proof fn lemma_count_update(t: Seq<(String, u32)>, i: int, v: u32, k: Seq<char>)
    requires
        tally_keys(t).no_duplicates(),
        0 <= i < t.len(),
    ensures
        count_in(t.update(i, (t[i].0, v)), k) == if k == t[i].0@ {
            v as nat
        } else {
            count_in(t, k)
        },
    decreases t.len(),
{
    let u = t.update(i, (t[i].0, v));
    if i == t.len() - 1 {
        assert(u.drop_last() =~= t.drop_last());
        if k != t[i].0@ {
        } else {
        }
    } else {
        assert(u.drop_last() =~= t.drop_last().update(i, (t[i].0, v)));
        assert(tally_keys(t.drop_last()) =~= tally_keys(t).drop_last());
        lemma_count_update(t.drop_last(), i, v, k);
        if k == t[i].0@ {
            assert(tally_keys(t)[i] != tally_keys(t)[t.len() - 1]);
        }
    }
}

/// The index of the entry with key `k`, if any.
pub fn tally_index(t: &Vec<(String, u32)>, k: &[char]) -> (r: Option<usize>)
    ensures
        r matches Some(i) ==> i < t@.len() && t@[i as int].0@ == k@,
        r is None ==> forall|j: int| 0 <= j < t@.len() ==> t@[j].0@ != k@,
{
    let n = t.len();
    for i in 0..n
        invariant
            n == t@.len(),
            forall|j: int| 0 <= j < i ==> t@[j].0@ != k@,
    {
        let kc = chars_of(t[i].0.as_str());
        if eq_chars(kc.as_slice(), k) {
            return Some(i);
        }
    }
    None
}

/// Counts one more occurrence of `k`.
pub fn bump(t: &mut Vec<(String, u32)>, k: &[char], Ghost(s): Ghost<Seq<Seq<char>>>)
    requires
        tallies(old(t)@, s),
        occurrences(s, k@) < 0xFFFF_FFFF,
    ensures
        tallies(final(t)@, s.push(k@)),
{
    let n = t.len();
    let i = match tally_index(t, k) {
        Some(i) => i,
        None => n,
    };
    let ghost s2 = s.push(k@);
    assert(s2.drop_last() =~= s);
    proof {
        assert forall|x: Seq<char>| s2.contains(x) <==> (s.contains(x) || x == k@) by {
            if s2.contains(x) && x != k@ {
                let j = choose|j: int| 0 <= j < s2.len() && s2[j] == x;
                assert(s[j] == x);
            }
            if s.contains(x) {
                let j = choose|j: int| 0 <= j < s.len() && s[j] == x;
                assert(s2[j] == x);
            }
            if x == k@ {
                assert(s2[s.len() as int] == x);
            }
        }
    }
    if i < n {
        let ghost old_t = t@;
        proof {
            lemma_count_at(old_t, i as int);
        }
        let c = t[i].1;
        assert(c == occurrences(s, k@));
        t[i].1 = c + 1;
        proof {
            assert(t@ =~= old_t.update(i as int, (old_t[i as int].0, (c + 1) as u32)));
            assert forall|x: Seq<char>| count_in(t@, x) == occurrences(s2, x) by {
                lemma_count_update(old_t, i as int, (c + 1) as u32, x);
                assert(occurrences(s2, x) == occurrences(s, x) + if x == k@ {
                    1nat
                } else {
                    0nat
                });
            }
            assert(tally_keys(t@) =~= tally_keys(old_t));
            assert(tally_keys(old_t).contains(k@)) by {
                assert(tally_keys(old_t)[i as int] == k@);
            }
        }
    } else {
        let ghost old_t = t@;
        proof {
            assert(!tally_keys(old_t).contains(k@)) by {
                if tally_keys(old_t).contains(k@) {
                    let j = choose|j: int| 0 <= j < tally_keys(old_t).len() && tally_keys(old_t)[j]
                        == k@;
                    assert(old_t[j].0@ == k@);
                }
            }
            lemma_count_absent(old_t, k@);
            lemma_occurrences_contains(s, k@);
        }
        let ks = string_of(k);
        t.push((ks, 1));
        proof {
            assert(t@.drop_last() =~= old_t);
            assert(t@.last().0@ == k@);
            assert(tally_keys(t@) =~= tally_keys(old_t).push(k@));
            assert(tally_keys(t@).no_duplicates()) by {
                assert forall|a: int, b: int|
                    0 <= a < b < tally_keys(t@).len() implies tally_keys(t@)[a] != tally_keys(
                        t@,
                    )[b] by {
                    if b == tally_keys(t@).len() - 1 {
                        assert(tally_keys(old_t)[a] == tally_keys(t@)[a]);
                    }
                }
            }
            assert forall|x: Seq<char>| count_in(t@, x) == occurrences(s2, x) by {
                assert(occurrences(s2, x) == occurrences(s, x) + if x == k@ {
                    1nat
                } else {
                    0nat
                });
            }
            assert forall|x: Seq<char>| tally_keys(t@).contains(x) <==> s2.contains(x) by {
                if tally_keys(t@).contains(x) && x != k@ {
                    let j = choose|j: int| 0 <= j < tally_keys(t@).len() && tally_keys(t@)[j] == x;
                    assert(tally_keys(old_t)[j] == x);
                }
                if tally_keys(old_t).contains(x) {
                    let j = choose|j: int| 0 <= j < tally_keys(old_t).len() && tally_keys(old_t)[j]
                        == x;
                    assert(tally_keys(t@)[j] == x);
                }
                if x == k@ {
                    assert(tally_keys(t@)[old_t.len() as int] == x);
                }
            }
        }
    }
}

} // verus!
