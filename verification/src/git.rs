//! What the repository's history says: the branch, the latest commits, the
//! files with uncommitted changes and the files changed most often. The
//! texts come from `git` itself; this module reads them.
use vstd::prelude::*;
use crate::tally::{bump, lemma_count_at, lemma_occurrences_bound, occurrences, tallies, tally_keys};
use crate::text::{
    byte_len, byte_len_upto, char_boundary, chars_of, lines, lines_str, skip_bytes, slice_of, string_of,
    strings_of, strs, trim, trim_chars, trim_str, views,
};

verus! {

/// What the repository's history says.
pub struct GitContext {
    pub is_repo: bool,
    pub branch: Option<String>,
    pub recent_commits: Vec<String>,
    pub uncommitted: Vec<String>,
    pub hot_files: Vec<(String, u32)>,
}

impl Default for GitContext {
    fn default() -> (c: Self)
        ensures
            !c.is_repo,
            c.branch is None,
            c.recent_commits@.len() == 0,
            c.uncommitted@.len() == 0,
            c.hot_files@.len() == 0,
    {
        GitContext {
            is_repo: false,
            branch: None,
            recent_commits: Vec::new(),
            uncommitted: Vec::new(),
            hot_files: Vec::new(),
        }
    }
}

// ---------------------------------------------------------------------------
// What the git texts mean
// ---------------------------------------------------------------------------

/// A `git status --porcelain` line can be read: when it is longer than
/// three bytes, byte three is a character boundary.
pub open spec fn status_line_ok(line: Seq<char>) -> bool {
    byte_len(line) > 3 ==> char_boundary(line, 3) is Some
}

/// The path a `git status --porcelain` line (`XY PATH`) names: the line
/// without its two status letters and the blank after them, or the trimmed
/// line when it is not longer than three bytes.
pub open spec fn status_entry(line: Seq<char>) -> Seq<char> {
    if byte_len(line) > 3 {
        match char_boundary(line, 3) {
            Some(k) => line.skip(k as int),
            None => line,
        }
    } else {
        trim(line)
    }
}

/// The paths of the non-empty status lines, in order.
pub open spec fn uncommitted_of(ls: Seq<Seq<char>>) -> Seq<Seq<char>>
    decreases ls.len(),
{
    if ls.len() == 0 {
        Seq::empty()
    } else {
        let rest = uncommitted_of(ls.drop_last());
        if ls.last().len() == 0 {
            rest
        } else {
            rest.push(status_entry(ls.last()))
        }
    }
}

/// The file names of a `git log --format=%H --name-only` text, one per change
/// and in order: trimmed lines, without blank lines and without the
/// forty-byte commit hashes.
pub open spec fn changed_files(ls: Seq<Seq<char>>) -> Seq<Seq<char>>
    decreases ls.len(),
{
    if ls.len() == 0 {
        Seq::empty()
    } else {
        let rest = changed_files(ls.drop_last());
        let t = trim(ls.last());
        if t.len() == 0 || byte_len(t) == 40 {
            rest
        } else {
            rest.push(t)
        }
    }
}

pub open spec fn pair_view(e: (String, u32)) -> (Seq<char>, u32) {
    (e.0@, e.1)
}

pub open spec fn pair_views(s: Seq<(String, u32)>) -> Seq<(Seq<char>, u32)> {
    s.map_values(|e: (String, u32)| pair_view(e))
}

/// `f` is one of the files `hot` lists.
pub open spec fn listed(hot: Seq<(Seq<char>, u32)>, f: Seq<char>) -> bool {
    exists|i: int| 0 <= i < hot.len() && #[trigger] hot[i].0 == f
}

/// `hot` lists up to eight of the files in `changes`, each once with its
/// number of changes, from the most changed to the least; fewer than eight
/// only when every file is listed, and no file left out changed more often
/// than one listed.
pub open spec fn hot_files_of(changes: Seq<Seq<char>>, hot: Seq<(Seq<char>, u32)>) -> bool {
    &&& hot.len() <= 8
    &&& forall|i: int|
        0 <= i < hot.len() ==> changes.contains(#[trigger] hot[i].0) && hot[i].1 == occurrences(
            changes,
            hot[i].0,
        )
    &&& forall|i: int, j: int| 0 <= i < j < hot.len() ==> hot[i].0 != hot[j].0
    &&& forall|i: int, j: int| 0 <= i < j < hot.len() ==> hot[i].1 >= hot[j].1
    &&& forall|f: Seq<char>|
        #[trigger] changes.contains(f) && !listed(hot, f) ==> hot.len() == 8 && forall|i: int|
            0 <= i < 8 ==> occurrences(changes, f) <= hot[i].1
}

/// The texts of the three `git log`/`git status` calls, or nothing where a
/// call failed.
pub open spec fn opt_text(t: Option<String>) -> Seq<Seq<char>> {
    match t {
        Some(s) => lines(s@),
        None => Seq::empty(),
    }
}

// ---------------------------------------------------------------------------
// Reading the texts
// ---------------------------------------------------------------------------

/// The paths of the non-empty lines of a status text.
fn uncommitted_entries(ls: &Vec<Vec<char>>) -> (r: Vec<String>)
    requires
        forall|i: int| 0 <= i < ls@.len() ==> status_line_ok(#[trigger] ls@[i]@),
    ensures
        strs(r@) == uncommitted_of(views(ls@)),
{
    let n = ls.len();
    let mut r: Vec<String> = Vec::new();
    assert(strs(r@) =~= uncommitted_of(views(ls@).take(0)));
    for i in 0..n
        invariant
            n == ls@.len(),
            forall|i: int| 0 <= i < ls@.len() ==> status_line_ok(#[trigger] ls@[i]@),
            strs(r@) == uncommitted_of(views(ls@).take(i as int)),
    {
        let ghost vl = views(ls@);
        assert(vl.take(i + 1).drop_last() =~= vl.take(i as int));
        assert(vl.take(i + 1).last() == ls@[i as int]@);
        assert(status_line_ok(ls@[i as int]@));
        if ls[i].len() > 0 {
            let l = ls[i].as_slice();
            let entry = if byte_len_upto(l, 3) > 3 {
                match skip_bytes(l, 3) {
                    Some(v) => v,
                    None => slice_of(l, 0, l.len()),
                }
            } else {
                trim_chars(l)
            };
            let ghost ev = entry@;
            assert(ev == status_entry(ls@[i as int]@));
            let ghost before = strs(r@);
            r.push(string_of(entry.as_slice()));
            assert(strs(r@) =~= before.push(ev));
        }
    }
    assert(views(ls@).take(n as int) =~= views(ls@));
    r
}

/// Counts the changed files of a log text, each once, in order of first
/// appearance.
fn count_changes(ls: &Vec<Vec<char>>) -> (r: Vec<(String, u32)>)
    requires
        ls@.len() < 0xFFFF_FFFF,
    ensures
        tallies(r@, changed_files(views(ls@))),
{
    let n = ls.len();
    let mut counts: Vec<(String, u32)> = Vec::new();
    let ghost vl = views(ls@);
    assert(tally_keys(counts@) =~= Seq::<Seq<char>>::empty());
    for i in 0..n
        invariant
            n == ls@.len() < 0xFFFF_FFFF,
            vl == views(ls@),
            tallies(counts@, changed_files(vl.take(i as int))),
    {
        assert(vl.take(i + 1).drop_last() =~= vl.take(i as int));
        assert(vl.take(i + 1).last() == ls@[i as int]@);
        let t = trim_chars(ls[i].as_slice());
        if t.len() > 0 && byte_len_upto(t.as_slice(), 40) != 40 {
            proof {
                lemma_changed_files_len(vl.take(i as int));
                lemma_occurrences_bound(changed_files(vl.take(i as int)), t@);
            }
            bump(&mut counts, t.as_slice(), Ghost(changed_files(vl.take(i as int))));
        }
    }
    assert(vl.take(n as int) =~= vl);
    counts
}

proof fn lemma_changed_files_len(ls: Seq<Seq<char>>)
    ensures
        changed_files(ls).len() <= ls.len(),
    decreases ls.len(),
{
    if ls.len() > 0 {
        lemma_changed_files_len(ls.drop_last());
    }
}

pub open spec fn sorted_desc(s: Seq<(Seq<char>, u32)>) -> bool {
    forall|i: int, j: int| 0 <= i < j < s.len() ==> s[i].1 >= s[j].1
}

/// The entries of `items`, from the highest count to the lowest; entries
/// with equal counts keep their order.
fn sort_by_count(items: &Vec<(String, u32)>) -> (r: Vec<(String, u32)>)
    ensures
        r@.len() == items@.len(),
        sorted_desc(pair_views(r@)),
        forall|x: (Seq<char>, u32)| pair_views(r@).contains(x) <==> pair_views(items@).contains(x),
{
    let mut sorted: Vec<(String, u32)> = Vec::new();
    let n = items.len();
    let ghost iv = pair_views(items@);
    for q in 0..n
        invariant
            n == items@.len(),
            iv == pair_views(items@),
            sorted_desc(pair_views(sorted@)),
            sorted@.len() == q,
            forall|x: (Seq<char>, u32)| pair_views(sorted@).contains(x) <==> iv.take(q as int).contains(x),
    {
        let c = items[q].1;
        let ns = sorted.len();
        let mut pos: usize = 0;
        while pos < ns && sorted[pos].1 >= c
            invariant
                ns == sorted@.len(),
                pos <= ns,
                forall|i: int| 0 <= i < pos ==> pair_views(sorted@)[i].1 >= c,
            decreases ns - pos,
        {
            pos += 1;
        }
        let item = (string_of(chars_of(items[q].0.as_str()).as_slice()), c);
        let ghost x = iv[q as int];
        assert(pair_view(item) == x);
        let ghost old_s = pair_views(sorted@);
        sorted.insert(pos, item);
        proof {
            assert(pair_views(sorted@) =~= old_s.insert(pos as int, x));
            old_s.insert_ensures(pos as int, x);
            let t = pair_views(sorted@);
            assert forall|i: int, j: int| 0 <= i < j < t.len() implies t[i].1 >= t[j].1 by {
                if j < pos {
                } else if j == pos {
                } else if i < pos {
                    assert(t[j] == old_s[j - 1]);
                } else if i == pos {
                    assert(t[j] == old_s[j - 1]);
                    if j - 1 >= pos as int {
                        assert(old_s[pos as int].1 >= old_s[j - 1].1);
                    }
                } else {
                    assert(t[i] == old_s[i - 1]);
                    assert(t[j] == old_s[j - 1]);
                }
            }
            let nxt = iv.take(q + 1);
            let cur = iv.take(q as int);
            assert(nxt =~= cur.push(x));
            assert forall|y: (Seq<char>, u32)| t.contains(y) <==> nxt.contains(y) by {
                crate::locations::lemma_insert_contains(old_s, pos as int, x, y);
                if nxt.contains(y) && y != x {
                    let k = choose|k: int| 0 <= k < nxt.len() && nxt[k] == y;
                    assert(cur[k] == y);
                }
                if cur.contains(y) {
                    let k = choose|k: int| 0 <= k < cur.len() && cur[k] == y;
                    assert(nxt[k] == y);
                }
                if y == x {
                    assert(nxt[q as int] == y);
                }
            }
        }
    }
    assert(iv.take(n as int) =~= iv);
    sorted
}

/// Two sequences of the same length with the same elements, the first with
/// distinct keys: the second has distinct keys too.
proof fn lemma_same_pairs_distinct(a: Seq<(Seq<char>, u32)>, b: Seq<(Seq<char>, u32)>)
    requires
        a.len() == b.len(),
        forall|x: (Seq<char>, u32)| b.contains(x) <==> a.contains(x),
        forall|i: int, j: int| 0 <= i < j < a.len() ==> a[i].0 != a[j].0,
    ensures
        forall|i: int, j: int| 0 <= i < j < b.len() ==> b[i].0 != b[j].0,
{
    assert(a.no_duplicates()) by {
        assert forall|i: int, j: int| 0 <= i < a.len() && 0 <= j < a.len() && i != j implies a[i]
            != a[j] by {
            if i < j {
                assert(a[i].0 != a[j].0);
            } else {
                assert(a[j].0 != a[i].0);
            }
        }
    }
    a.unique_seq_to_set();
    assert(a.to_set() =~= b.to_set());
    b.lemma_cardinality_of_set();
    if !b.no_duplicates() {
        if b.to_set().len() == b.len() {
            b.lemma_no_dup_set_cardinality();
        }
    }
    assert(b.no_duplicates());
    assert forall|i: int, j: int| 0 <= i < j < b.len() implies b[i].0 != b[j].0 by {
        if b[i].0 == b[j].0 {
            assert(b.contains(b[i]) && b.contains(b[j]));
            let p = choose|p: int| 0 <= p < a.len() && a[p] == b[i];
            let r = choose|r: int| 0 <= r < a.len() && a[r] == b[j];
            assert(b[i] != b[j]);
            if p < r {
                assert(a[p].0 != a[r].0);
            } else {
                assert(a[r].0 != a[p].0);
            }
        }
    }
}

/// The eight (or fewer) most changed files of a log text.
fn hot_files(ls: &Vec<Vec<char>>) -> (r: Vec<(String, u32)>)
    requires
        ls@.len() < 0xFFFF_FFFF,
    ensures
        hot_files_of(changed_files(views(ls@)), pair_views(r@)),
{
    let counts = count_changes(ls);
    let sorted = sort_by_count(&counts);
    let ghost changes = changed_files(views(ls@));
    let ghost cv = pair_views(counts@);
    let ghost sv = pair_views(sorted@);
    let m: usize = if sorted.len() < 8 {
        sorted.len()
    } else {
        8
    };
    let mut hot: Vec<(String, u32)> = Vec::new();
    for i in 0..m
        invariant
            m <= sorted@.len(),
            sv == pair_views(sorted@),
            pair_views(hot@) == sv.take(i as int),
    {
        let e = (string_of(chars_of(sorted[i].0.as_str()).as_slice()), sorted[i].1);
        let ghost before = pair_views(hot@);
        hot.push(e);
        assert(pair_views(hot@) =~= before.push(sv[i as int]));
        assert(sv.take(i + 1) =~= sv.take(i as int).push(sv[i as int]));
    }
    proof {
        let h = pair_views(hot@);
        assert(h =~= sv.take(m as int));
        // Each tally entry is a changed file with its exact count.
        assert forall|k: int| 0 <= k < cv.len() implies changes.contains(#[trigger] cv[k].0)
            && cv[k].1 == occurrences(changes, cv[k].0) by {
            assert(tally_keys(counts@)[k] == counts@[k].0@);
            assert(tally_keys(counts@).contains(cv[k].0));
            lemma_count_at(counts@, k);
        }
        assert forall|i: int, j: int| 0 <= i < j < cv.len() implies cv[i].0 != cv[j].0 by {
            assert(tally_keys(counts@)[i] == cv[i].0);
            assert(tally_keys(counts@)[j] == cv[j].0);
        }
        lemma_same_pairs_distinct(cv, sv);
        assert forall|i: int| 0 <= i < h.len() implies changes.contains(#[trigger] h[i].0)
            && h[i].1 == occurrences(changes, h[i].0) by {
            assert(h[i] == sv[i]);
            assert(sv.contains(sv[i]));
            let k = choose|k: int| 0 <= k < cv.len() && cv[k] == sv[i];
            assert(changes.contains(cv[k].0));
        }
        assert forall|i: int, j: int| 0 <= i < j < h.len() implies h[i].0 != h[j].0 by {
            assert(h[i] == sv[i] && h[j] == sv[j]);
        }
        assert forall|i: int, j: int| 0 <= i < j < h.len() implies h[i].1 >= h[j].1 by {
            assert(h[i] == sv[i] && h[j] == sv[j]);
        }
        assert forall|f: Seq<char>| #[trigger] changes.contains(f) && !listed(h, f) implies h.len()
            == 8 && forall|i: int| 0 <= i < 8 ==> occurrences(changes, f) <= h[i].1 by {
            assert(tally_keys(counts@).contains(f));
            let k = choose|k: int|
                0 <= k < tally_keys(counts@).len() && tally_keys(counts@)[k] == f;
            assert(cv[k].0 == f);
            assert(cv.contains(cv[k]));
            assert(sv.contains(cv[k]));
            let p = choose|p: int| 0 <= p < sv.len() && sv[p] == cv[k];
            if p < m {
                assert(h[p].0 == f);
            }
            assert(p >= m);
            lemma_count_at(counts@, k);
            assert forall|i: int| 0 <= i < 8 implies occurrences(changes, f) <= h[i].1 by {
                assert(h[i] == sv[i]);
                assert(sv[i].1 >= sv[p].1);
            }
        }
    }
    hot
}

/// Reads what the repository's history says from the output of
/// `git rev-parse --abbrev-ref HEAD`, `git log --oneline -5`,
/// `git status --porcelain` and `git log --format=%H --name-only -100`, each
/// `None` where the call failed. Outside a repository nothing is read.
pub fn analyze_git(
    is_repo: bool,
    branch: Option<String>,
    log: Option<String>,
    status: Option<String>,
    shortlog: Option<String>,
) -> (ctx: GitContext)
    requires
        forall|i: int|
            0 <= i < opt_text(status).len() ==> status_line_ok(#[trigger] opt_text(status)[i]),
        opt_text(shortlog).len() < 0xFFFF_FFFF,
    ensures
        ctx.is_repo == is_repo,
        !is_repo ==> ctx.branch is None && ctx.recent_commits@.len() == 0
            && ctx.uncommitted@.len() == 0 && ctx.hot_files@.len() == 0,
        is_repo ==> {
            &&& (match branch {
                Some(b) => ctx.branch matches Some(x) && x@ == trim(b@),
                None => ctx.branch is None,
            })
            &&& strs(ctx.recent_commits@) == opt_text(log)
            &&& strs(ctx.uncommitted@) == uncommitted_of(opt_text(status))
            &&& hot_files_of(changed_files(opt_text(shortlog)), pair_views(ctx.hot_files@))
        },
{
    let mut ctx = GitContext::default();
    if !is_repo {
        return ctx;
    }
    ctx.is_repo = true;
    ctx.branch = match branch {
        Some(b) => {
            let t = trim_str(b.as_str());
            Some(string_of(t.as_slice()))
        },
        None => None,
    };
    match log {
        Some(l) => {
            let ls = lines_str(l.as_str());
            ctx.recent_commits = strings_of(&ls);
        },
        None => {
            assert(strs(ctx.recent_commits@) =~= Seq::<Seq<char>>::empty());
        },
    }
    match status {
        Some(s) => {
            let ls = lines_str(s.as_str());
            assert forall|i: int| 0 <= i < ls@.len() implies status_line_ok(#[trigger] ls@[i]@) by {
                assert(views(ls@)[i] == ls@[i]@);
                assert(opt_text(status)[i] == views(ls@)[i]);
            }
            ctx.uncommitted = uncommitted_entries(&ls);
        },
        None => {
            assert(strs(ctx.uncommitted@) =~= Seq::<Seq<char>>::empty());
        },
    }
    match shortlog {
        Some(h) => {
            let ls = lines_str(h.as_str());
            ctx.hot_files = hot_files(&ls);
        },
        None => {
            assert(pair_views(ctx.hot_files@) =~= Seq::<(Seq<char>, u32)>::empty());
            assert forall|f: Seq<char>| #[trigger] Seq::<Seq<char>>::empty().contains(f) implies false by {}
        },
    }
    ctx
}

} // verus!
