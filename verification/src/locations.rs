//! Key locations of a project: directories whose names mark a role (routes,
//! components, models, tests, ...), found from the relative file paths alone.
use vstd::prelude::*;

use crate::tally::{bump, occurrences, tallies, tally_keys};
use crate::text::{
    chars_of, chars_of_all, concat, is, last_piece, last_piece_chars, replace_char,
    replace_char_chars, split, split_chars, string_of, strs, views,
};

verus! {

pub struct KeyLocation {
    pub label: String,
    pub path: String,
    pub count: u32,
}

pub struct KeyLocations {
    pub locations: Vec<KeyLocation>,
}

/// The pieces joined with `'/'`.
pub open spec fn join_slash(ps: Seq<Seq<char>>) -> Seq<char>
    decreases ps.len(),
{
    if ps.len() == 0 {
        Seq::<char>::empty()
    } else if ps.len() == 1 {
        ps[0]
    } else {
        join_slash(ps.drop_last()) + seq!['/'] + ps.last()
    }
}

/// The directories a file path lies in, up to three levels below the root:
/// for `a/b/c/d/e.ts` these are `a`, `a/b` and `a/b/c`.
pub open spec fn dir_prefixes(p: Seq<char>) -> Seq<Seq<char>> {
    let parts = split(replace_char(p, '\\', '/'), '/');
    let m = if parts.len() < 1 {
        0
    } else if parts.len() - 1 < 3 {
        parts.len() - 1
    } else {
        3
    };
    Seq::new(m as nat, |d: int| join_slash(parts.take(d + 1)))
}

/// The directories of all the paths, path by path.
pub open spec fn all_dirs(paths: Seq<Seq<char>>) -> Seq<Seq<char>>
    decreases paths.len(),
{
    if paths.len() == 0 {
        Seq::empty()
    } else {
        all_dirs(paths.drop_last()) + dir_prefixes(paths.last())
    }
}

/// The role a directory name marks, if any.
pub open spec fn location_label(name: Seq<char>) -> Option<Seq<char>> {
    if name == "api"@ || name == "routes"@ || name == "handlers"@ {
        Some("API routes"@)
    } else if name == "components"@ || name == "ui"@ {
        Some("Components"@)
    } else if name == "pages"@ || name == "app"@ {
        Some("Pages"@)
    } else if name == "models"@ || name == "entities"@ || name == "domain"@ {
        Some("Models"@)
    } else if name == "types"@ || name == "interfaces"@ {
        Some("Types"@)
    } else if name == "lib"@ || name == "utils"@ || name == "helpers"@ {
        Some("Utilities"@)
    } else if name == "hooks"@ {
        Some("Hooks"@)
    } else if name == "middleware"@ {
        Some("Middleware"@)
    } else if name == "services"@ || name == "service"@ {
        Some("Services"@)
    } else if name == "config"@ || name == "configs"@ {
        Some("Config"@)
    } else if name == "tests"@ || name == "__tests__"@ || name == "test"@ {
        Some("Tests"@)
    } else if name == "migrations"@ || name == "migrate"@ {
        Some("Migrations"@)
    } else if name == "public"@ || name == "static"@ || name == "assets"@ {
        Some("Static assets"@)
    } else if name == "cmd"@ {
        Some("Commands (Go)"@)
    } else if name == "internal"@ {
        Some("Internal (Go)"@)
    } else if name == "pkg"@ {
        Some("Packages (Go)"@)
    } else if name == "prisma"@ {
        Some("Prisma"@)
    } else if name == "store"@ || name == "stores"@ || name == "state"@ {
        Some("State management"@)
    } else {
        None
    }
}

fn location_label_exec(name: &[char]) -> (r: Option<&'static str>)
    ensures
        match r {
            Some(l) => location_label(name@) == Some(l@),
            None => location_label(name@) is None,
        },
{
    if is(name, "api") || is(name, "routes") || is(name, "handlers") {
        Some("API routes")
    } else if is(name, "components") || is(name, "ui") {
        Some("Components")
    } else if is(name, "pages") || is(name, "app") {
        Some("Pages")
    } else if is(name, "models") || is(name, "entities") || is(name, "domain") {
        Some("Models")
    } else if is(name, "types") || is(name, "interfaces") {
        Some("Types")
    } else if is(name, "lib") || is(name, "utils") || is(name, "helpers") {
        Some("Utilities")
    } else if is(name, "hooks") {
        Some("Hooks")
    } else if is(name, "middleware") {
        Some("Middleware")
    } else if is(name, "services") || is(name, "service") {
        Some("Services")
    } else if is(name, "config") || is(name, "configs") {
        Some("Config")
    } else if is(name, "tests") || is(name, "__tests__") || is(name, "test") {
        Some("Tests")
    } else if is(name, "migrations") || is(name, "migrate") {
        Some("Migrations")
    } else if is(name, "public") || is(name, "static") || is(name, "assets") {
        Some("Static assets")
    } else if is(name, "cmd") {
        Some("Commands (Go)")
    } else if is(name, "internal") {
        Some("Internal (Go)")
    } else if is(name, "pkg") {
        Some("Packages (Go)")
    } else if is(name, "prisma") {
        Some("Prisma")
    } else if is(name, "store") || is(name, "stores") || is(name, "state") {
        Some("State management")
    } else {
        None
    }
}

/// The directories of the first `i` paths begin the directories of all.
proof fn lemma_all_dirs_extends(paths: Seq<Seq<char>>, i: int)
    requires
        0 <= i <= paths.len(),
    ensures
        all_dirs(paths.take(i)).len() <= all_dirs(paths).len(),
        all_dirs(paths.take(i)) == all_dirs(paths).take(all_dirs(paths.take(i)).len() as int),
    decreases paths.len() - i,
{
    if i < paths.len() {
        lemma_all_dirs_extends(paths.drop_last(), i);
        assert(paths.drop_last().take(i) =~= paths.take(i));
        let a = all_dirs(paths.drop_last());
        assert(all_dirs(paths) == a + dir_prefixes(paths.last()));
        assert(a.take(all_dirs(paths.take(i)).len() as int) =~= (a + dir_prefixes(paths.last())).take(
            all_dirs(paths.take(i)).len() as int,
        ));
    } else {
        assert(paths.take(i) =~= paths);
        assert(all_dirs(paths).take(all_dirs(paths).len() as int) =~= all_dirs(paths));
    }
}

/// A beginning of a list holds each item at most as often as the list.
proof fn lemma_occurrences_take(s: Seq<Seq<char>>, j: int, k: Seq<char>)
    requires
        0 <= j <= s.len(),
    ensures
        occurrences(s.take(j), k) <= occurrences(s, k),
    decreases s.len() - j,
{
    if j < s.len() {
        lemma_occurrences_take(s.drop_last(), j, k);
        assert(s.drop_last().take(j) =~= s.take(j));
    } else {
        assert(s.take(j) =~= s);
    }
}

/// The directory prefixes of one path.
fn dir_prefixes_exec(p: &[char]) -> (r: Vec<Vec<char>>)
    ensures
        views(r@) == dir_prefixes(p@),
{
    let normalized = replace_char_chars(p, '\\', '/');
    let parts = split_chars(normalized.as_slice(), '/');
    let ghost ps = views(parts@);
    let np = parts.len();
    let m: usize = if np < 1 {
        0
    } else if np - 1 < 3 {
        np - 1
    } else {
        3
    };
    let mut r: Vec<Vec<char>> = Vec::new();
    let mut cur: Vec<char> = Vec::new();
    for d in 0..m
        invariant
            m <= np,
            np == parts@.len(),
            ps == views(parts@),
            m == dir_prefixes(p@).len(),
            ps == split(replace_char(p@, '\\', '/'), '/'),
            d > 0 ==> cur@ == join_slash(ps.take(d as int)),
            views(r@) == dir_prefixes(p@).take(d as int),
    {
        assert(ps[d as int] == parts@[d as int]@);
        if d == 0 {
            cur = crate::text::slice_of(parts[0].as_slice(), 0, parts[0].len());
            assert(cur@ =~= parts@[0]@);
            assert(ps.take(1) =~= seq![ps[0]]);
        } else {
            let with_sep = concat(cur.as_slice(), &['/']);
            cur = concat(with_sep.as_slice(), parts[d].as_slice());
            assert(ps.take(d + 1).drop_last() =~= ps.take(d as int));
        }
        assert(cur@ == join_slash(ps.take(d + 1)));
        let ghost old_r = views(r@);
        let c2 = crate::text::slice_of(cur.as_slice(), 0, cur.len());
        assert(c2@ =~= cur@);
        r.push(c2);
        assert(views(r@) =~= old_r.push(cur@));
        assert(dir_prefixes(p@).take(d + 1) =~= dir_prefixes(p@).take(d as int).push(cur@));
    }
    assert(dir_prefixes(p@).take(m as int) =~= dir_prefixes(p@));
    r
}

/// Locations sorted from the most files to the fewest.
pub open spec fn sorted_by_count(s: Seq<(Seq<char>, Seq<char>, u32)>) -> bool {
    forall|i: int, j: int| 0 <= i < j < s.len() ==> s[i].2 >= s[j].2
}

pub open spec fn loc_view(l: KeyLocation) -> (Seq<char>, Seq<char>, u32) {
    (l.label@, l.path@, l.count)
}

pub open spec fn loc_views(v: Seq<KeyLocation>) -> Seq<(Seq<char>, Seq<char>, u32)> {
    v.map_values(|l: KeyLocation| loc_view(l))
}

/// `out` is exactly the labelled directories of `all`, each once, with its
/// number of files.
pub open spec fn locations_of(all: Seq<Seq<char>>, out: Seq<(Seq<char>, Seq<char>, u32)>) -> bool {
    &&& forall|i: int|
        0 <= i < out.len() ==> {
            &&& all.contains(#[trigger] out[i].1)
            &&& location_label(last_piece(out[i].1, '/')) == Some(out[i].0)
            &&& out[i].2 == occurrences(all, out[i].1)
        }
    &&& forall|i: int, j: int| 0 <= i < j < out.len() ==> out[i].1 != out[j].1
    &&& forall|d: Seq<char>|
        all.contains(d) && location_label(last_piece(d, '/')) is Some ==> exists|i: int|
            0 <= i < out.len() && #[trigger] out[i].1 == d
}

pub open spec fn found_ok(all: Seq<Seq<char>>, f: Seq<(Seq<char>, Seq<char>, u32)>) -> bool {
    forall|i: int|
        0 <= i < f.len() ==> {
            &&& all.contains(#[trigger] f[i].1)
            &&& location_label(last_piece(f[i].1, '/')) == Some(f[i].0)
            &&& f[i].2 == occurrences(all, f[i].1)
        }
}

pub open spec fn found_from(f: Seq<(Seq<char>, Seq<char>, u32)>, counts: Seq<(String, u32)>, q: int) -> bool {
    forall|i: int| 0 <= i < f.len() ==> exists|k: int| 0 <= k < q && #[trigger] f[i].1 == counts[k].0@
}

pub open spec fn found_distinct(f: Seq<(Seq<char>, Seq<char>, u32)>) -> bool {
    forall|i: int, j: int| 0 <= i < j < f.len() ==> f[i].1 != f[j].1
}

pub open spec fn found_complete(f: Seq<(Seq<char>, Seq<char>, u32)>, counts: Seq<(String, u32)>, q: int) -> bool {
    forall|k: int|
        0 <= k < q && location_label(last_piece(counts[k].0@, '/')) is Some ==> exists|i: int|
            0 <= i < f.len() && #[trigger] f[i].1 == counts[k].0@
}

proof fn lemma_count_positive(all: Seq<Seq<char>>, counts: Seq<(String, u32)>, q: int)
    requires
        tallies(counts, all),
        0 <= q < counts.len(),
    ensures
        all.contains(counts[q].0@),
        counts[q].1 == occurrences(all, counts[q].0@),
        counts[q].1 >= 1,
{
    assert(tally_keys(counts)[q] == counts[q].0@);
    assert(tally_keys(counts).contains(counts[q].0@));
    crate::tally::lemma_count_at(counts, q);
    crate::tally::lemma_occurrences_contains(all, counts[q].0@);
}

proof fn lemma_found_push(
    all: Seq<Seq<char>>,
    counts: Seq<(String, u32)>,
    f: Seq<(Seq<char>, Seq<char>, u32)>,
    q: int,
    label: Seq<char>,
)
    requires
        tallies(counts, all),
        0 <= q < counts.len(),
        found_ok(all, f),
        found_from(f, counts, q),
        found_distinct(f),
        found_complete(f, counts, q),
        location_label(last_piece(counts[q].0@, '/')) == Some(label),
    ensures
        ({
            let g = f.push((label, counts[q].0@, counts[q].1));
            &&& found_ok(all, g)
            &&& found_from(g, counts, q + 1)
            &&& found_distinct(g)
            &&& found_complete(g, counts, q + 1)
        }),
{
    let g = f.push((label, counts[q].0@, counts[q].1));
    lemma_count_positive(all, counts, q);
    assert forall|i: int| 0 <= i < g.len() implies {
        &&& all.contains(#[trigger] g[i].1)
        &&& location_label(last_piece(g[i].1, '/')) == Some(g[i].0)
        &&& g[i].2 == occurrences(all, g[i].1)
    } by {
        if i < f.len() {
            assert(g[i] == f[i]);
        }
    }
    assert forall|i: int, j: int| 0 <= i < j < g.len() implies g[i].1 != g[j].1 by {
        if j == f.len() {
            assert(g[i] == f[i]);
            let k = choose|k: int| 0 <= k < q && #[trigger] f[i].1 == counts[k].0@;
            assert(tally_keys(counts)[k] != tally_keys(counts)[q]);
        } else {
            assert(g[i] == f[i] && g[j] == f[j]);
        }
    }
    assert forall|i: int| 0 <= i < g.len() implies exists|k: int| 0 <= k < q + 1 && #[trigger] g[i].1 == counts[k].0@ by {
        if i < f.len() {
            assert(g[i] == f[i]);
            let k = choose|k: int| 0 <= k < q && #[trigger] f[i].1 == counts[k].0@;
            assert(g[i].1 == counts[k].0@);
        } else {
            assert(g[i].1 == counts[q].0@);
        }
    }
    assert forall|k: int|
        0 <= k < q + 1 && location_label(last_piece(counts[k].0@, '/')) is Some implies exists|i: int|
            0 <= i < g.len() && #[trigger] g[i].1 == counts[k].0@ by {
        if k < q {
            let i = choose|i: int| 0 <= i < f.len() && #[trigger] f[i].1 == counts[k].0@;
            assert(g[i] == f[i]);
        } else {
            assert(g[f.len() as int].1 == counts[k].0@);
        }
    }
}

proof fn lemma_found_skip(counts: Seq<(String, u32)>, f: Seq<(Seq<char>, Seq<char>, u32)>, q: int)
    requires
        0 <= q < counts.len(),
        found_from(f, counts, q),
        found_complete(f, counts, q),
        location_label(last_piece(counts[q].0@, '/')) is None,
    ensures
        found_from(f, counts, q + 1),
        found_complete(f, counts, q + 1),
{
    assert forall|i: int| 0 <= i < f.len() implies exists|k: int| 0 <= k < q + 1 && #[trigger] f[i].1 == counts[k].0@ by {
        let k = choose|k: int| 0 <= k < q && #[trigger] f[i].1 == counts[k].0@;
    }
}

pub proof fn lemma_insert_contains<A>(s: Seq<A>, pos: int, x: A, y: A)
    requires
        0 <= pos <= s.len(),
    ensures
        s.insert(pos, x).contains(y) <==> (s.contains(y) || y == x),
{
    s.insert_ensures(pos, x);
    let t = s.insert(pos, x);
    if t.contains(y) {
        let q = choose|q: int| 0 <= q < t.len() && t[q] == y;
        if q < pos {
            assert(s[q] == y);
        } else if q > pos {
            assert(s[q - 1] == y);
        }
    }
    if s.contains(y) {
        let q = choose|q: int| 0 <= q < s.len() && s[q] == y;
        if q < pos {
            assert(t[q] == y);
        } else {
            assert(t[q + 1] == y);
        }
    }
    if y == x {
        assert(t[pos] == y);
    }
}

/// No directory holds more than `u32::MAX` of the paths, so each count fits
/// its 32 bits.
pub open spec fn counts_fit(paths: Seq<Seq<char>>) -> bool {
    forall|d: Seq<char>| #[trigger] occurrences(all_dirs(paths), d) <= u32::MAX
}

/// Directories whose names mark a role, with how many of the files lie in
/// them, from the most files to the fewest.
#[verifier::spinoff_prover]
#[verifier::rlimit(40)]
pub fn detect_key_locations_from_paths(all_rel_paths: &Vec<String>) -> (r: KeyLocations)
    requires
        counts_fit(strs(all_rel_paths@)),
    ensures
        sorted_by_count(loc_views(r.locations@)),
        locations_of(all_dirs(strs(all_rel_paths@)), loc_views(r.locations@)),
{
    let paths = chars_of_all(all_rel_paths);
    let ghost ps = strs(all_rel_paths@);
    let ghost all = all_dirs(ps);
    let n = paths.len();
    let mut counts: Vec<(String, u32)> = Vec::new();
    assert(tally_keys(counts@) =~= Seq::<Seq<char>>::empty());
    for i in 0..n
        invariant
            n == paths@.len(),
            views(paths@) == ps,
            all == all_dirs(ps),
            counts_fit(ps),
            tallies(counts@, all_dirs(ps.take(i as int))),
    {
        assert(ps.take(i + 1).drop_last() =~= ps.take(i as int));
        assert(ps.take(i + 1).last() == paths@[i as int]@);
        proof {
            lemma_all_dirs_extends(ps, i + 1);
        }
        let dirs = dir_prefixes_exec(paths[i].as_slice());
        let ghost base = all_dirs(ps.take(i as int));
        let ghost dv = views(dirs@);
        let nd = dirs.len();
        for d in 0..nd
            invariant
                nd == dirs@.len(),
                dv == views(dirs@),
                dv == dir_prefixes(ps[i as int]),
                base + dv == all_dirs(ps.take(i + 1)),
                all == all_dirs(ps),
                counts_fit(ps),
                all_dirs(ps.take(i + 1)) == all.take(all_dirs(ps.take(i + 1)).len() as int),
                all_dirs(ps.take(i + 1)).len() <= all.len(),
                tallies(counts@, base + dv.take(d as int)),
        {
            assert(dv[d as int] == dirs@[d as int]@);
            proof {
                let x = dirs@[d as int]@;
                let cur = (base + dv.take(d as int)).push(x);
                assert(cur =~= all.take(cur.len() as int)) by {
                    assert(cur =~= (base + dv).take(cur.len() as int));
                }
                lemma_occurrences_take(all, cur.len() as int, x);
                assert(occurrences(all, x) <= u32::MAX);
                assert(cur.drop_last() =~= base + dv.take(d as int));
            }
            bump(&mut counts, dirs[d].as_slice(), Ghost(base + dv.take(d as int)));
            assert((base + dv.take(d as int)).push(dv[d as int]) =~= base + dv.take(d + 1));
        }
        assert(dv.take(nd as int) =~= dv);
    }
    assert(ps.take(n as int) =~= ps);
    // Labelled directories in order of first appearance.
    let nc = counts.len();
    let mut found: Vec<KeyLocation> = Vec::new();
    for q in 0..nc
        invariant
            nc == counts@.len(),
            tallies(counts@, all),
            found_ok(all, loc_views(found@)),
            found_from(loc_views(found@), counts@, q as int),
            found_distinct(loc_views(found@)),
            found_complete(loc_views(found@), counts@, q as int),
    {
        let key = chars_of(counts[q].0.as_str());
        let name = last_piece_chars(key.as_slice(), '/');
        let ghost kq = counts@[q as int].0@;
        proof {
            lemma_count_positive(all, counts@, q as int);
        }
        let ghost old_f = loc_views(found@);
        if counts[q].1 >= 1 {
            match location_label_exec(name.as_slice()) {
                Some(label) => {
                    found.push(KeyLocation {
                        label: string_of(chars_of(label).as_slice()),
                        path: string_of(key.as_slice()),
                        count: counts[q].1,
                    });
                    assert(loc_views(found@) =~= old_f.push((label@, kq, counts@[q as int].1)));
                    proof {
                        lemma_found_push(all, counts@, old_f, q as int, label@);
                    }
                },
                None => {
                    proof {
                        lemma_found_skip(counts@, old_f, q as int);
                    }
                },
            }
        }
    }
    proof {
        assert forall|d: Seq<char>|
            all.contains(d) && location_label(last_piece(d, '/')) is Some implies exists|i: int|
                0 <= i < found@.len() && #[trigger] loc_views(found@)[i].1 == d by {
            assert(tally_keys(counts@).contains(d));
            let k = choose|k: int| 0 <= k < tally_keys(counts@).len() && tally_keys(counts@)[k] == d;
            assert(counts@[k].0@ == d);
        }
    }
    // Stable insertion by count, most files first.
    let mut sorted: Vec<KeyLocation> = Vec::new();
    let nf = found.len();
    let ghost fv = loc_views(found@);
    for q in 0..nf
        invariant
            nf == found@.len(),
            fv == loc_views(found@),
            sorted_by_count(loc_views(sorted@)),
            loc_views(sorted@).len() == q,
            forall|x: (Seq<char>, Seq<char>, u32)| loc_views(sorted@).contains(x) <==> fv.take(q as int).contains(x),
    {
        let c = found[q].count;
        let ns = sorted.len();
        let mut pos: usize = 0;
        while pos < ns && sorted[pos].count >= c
            invariant
                ns == sorted@.len(),
                pos <= ns,
                forall|i: int| 0 <= i < pos ==> loc_views(sorted@)[i].2 >= c,
            decreases ns - pos,
        {
            pos += 1;
        }
        let item = KeyLocation {
            label: string_of(chars_of(found[q].label.as_str()).as_slice()),
            path: string_of(chars_of(found[q].path.as_str()).as_slice()),
            count: c,
        };
        let ghost x = fv[q as int];
        assert(loc_view(item) == x);
        let ghost old_s = loc_views(sorted@);
        sorted.insert(pos, item);
        proof {
            assert(loc_views(sorted@) =~= old_s.insert(pos as int, x));
            old_s.insert_ensures(pos as int, x);
            assert forall|i: int, j: int| 0 <= i < j < loc_views(sorted@).len() implies loc_views(sorted@)[i].2 >= loc_views(sorted@)[j].2 by {
                let t = loc_views(sorted@);
                if j < pos {
                } else if j == pos {
                } else if i < pos {
                    if j - 1 < old_s.len() {
                        assert(t[j] == old_s[j - 1]);
                    }
                } else if i == pos {
                    assert(t[j] == old_s[j - 1]);
                    if j - 1 >= pos as int {
                        assert(!(old_s[pos as int].2 >= c));
                        assert(old_s[pos as int].2 >= old_s[j - 1].2);
                    }
                } else {
                    assert(t[i] == old_s[i - 1]);
                    assert(t[j] == old_s[j - 1]);
                }
            }
            let nxt = fv.take(q + 1);
            let cur = fv.take(q as int);
            assert(nxt =~= cur.push(x));
            assert forall|y: (Seq<char>, Seq<char>, u32)| loc_views(sorted@).contains(y) <==> nxt.contains(y) by {
                lemma_insert_contains(old_s, pos as int, x, y);
                if nxt.contains(y) && y != x {
                    let k = choose|k: int| 0 <= k < nxt.len() && nxt[k] == y;
                    assert(cur[k] == y);
                }
                if cur.contains(y) {
                    let k = choose|k: int| 0 <= k < cur.len() && cur[k] == y;
                    assert(nxt[k] == y);
                }
                if y == x {
                    assert(nxt[q as int] == y);
                }
            }
        }
    }
    proof {
        assert(fv.take(nf as int) =~= fv);
        let out = loc_views(sorted@);
        assert(out.len() == fv.len());
        lemma_same_elements_distinct(fv, out);
        assert forall|i: int| 0 <= i < out.len() implies {
            &&& all.contains(#[trigger] out[i].1)
            &&& location_label(last_piece(out[i].1, '/')) == Some(out[i].0)
            &&& out[i].2 == occurrences(all, out[i].1)
        } by {
            assert(out.contains(out[i]));
            assert(fv.contains(out[i]));
            let k = choose|k: int| 0 <= k < fv.len() && fv[k] == out[i];
        }
        assert forall|d: Seq<char>|
            all.contains(d) && location_label(last_piece(d, '/')) is Some implies exists|i: int|
                0 <= i < out.len() && #[trigger] out[i].1 == d by {
            let k = choose|k: int| 0 <= k < fv.len() && #[trigger] fv[k].1 == d;
            assert(fv.contains(fv[k]));
            assert(out.contains(fv[k]));
            let i = choose|i: int| 0 <= i < out.len() && out[i] == fv[k];
        }
    }
    KeyLocations { locations: sorted }
}

/// Two sequences of the same length with the same elements, the first with
/// distinct paths: the second has distinct paths too.
proof fn lemma_same_elements_distinct(a: Seq<(Seq<char>, Seq<char>, u32)>, b: Seq<(Seq<char>, Seq<char>, u32)>)
    requires
        a.len() == b.len(),
        forall|x: (Seq<char>, Seq<char>, u32)| b.contains(x) <==> a.contains(x),
        forall|i: int, j: int| 0 <= i < j < a.len() ==> a[i].1 != a[j].1,
    ensures
        forall|i: int, j: int| 0 <= i < j < b.len() ==> b[i].1 != b[j].1,
{
    assert(a.no_duplicates()) by {
        assert forall|i: int, j: int| 0 <= i < a.len() && 0 <= j < a.len() && i != j implies a[i] != a[j] by {
            if i < j {
                assert(a[i].1 != a[j].1);
            } else {
                assert(a[j].1 != a[i].1);
            }
        }
    }
    a.unique_seq_to_set();
    assert(a.to_set() =~= b.to_set());
    b.lemma_cardinality_of_set();
    if !b.no_duplicates() {
        lemma_dup_shrinks(b);
    }
    assert(b.no_duplicates());
    assert forall|i: int, j: int| 0 <= i < j < b.len() implies b[i].1 != b[j].1 by {
        if b[i].1 == b[j].1 {
            assert(b.contains(b[i]) && b.contains(b[j]));
            let p = choose|p: int| 0 <= p < a.len() && a[p] == b[i];
            let r = choose|r: int| 0 <= r < a.len() && a[r] == b[j];
            assert(b[i] != b[j]);
            assert(p != r);
            if p < r {
                assert(a[p].1 != a[r].1);
            } else {
                assert(a[r].1 != a[p].1);
            }
        }
    }
}

proof fn lemma_dup_shrinks<A>(b: Seq<A>)
    requires
        !b.no_duplicates(),
    ensures
        b.to_set().len() < b.len(),
{
    if b.to_set().len() == b.len() {
        b.lemma_no_dup_set_cardinality();
    }
    b.lemma_cardinality_of_set();
}

// ---------------------------------------------------------------------------
// The order of the paths does not matter
// ---------------------------------------------------------------------------

proof fn lemma_occurrences_concat(x: Seq<Seq<char>>, y: Seq<Seq<char>>, d: Seq<char>)
    ensures
        occurrences(x + y, d) == occurrences(x, d) + occurrences(y, d),
    decreases y.len(),
{
    if y.len() > 0 {
        lemma_occurrences_concat(x, y.drop_last(), d);
        assert((x + y).drop_last() =~= x + y.drop_last());
    } else {
        assert(x + y =~= x);
    }
}

/// Taking the path at `j` out of `b` takes its directories out of the count.
proof fn lemma_dirs_without(b: Seq<Seq<char>>, j: int, d: Seq<char>)
    requires
        0 <= j < b.len(),
    ensures
        occurrences(all_dirs(b), d) == occurrences(all_dirs(b.remove(j)), d) + occurrences(
            dir_prefixes(b[j]),
            d,
        ),
    decreases b.len(),
{
    lemma_occurrences_concat(all_dirs(b.drop_last()), dir_prefixes(b.last()), d);
    if j == b.len() - 1 {
        assert(b.remove(j) =~= b.drop_last());
    } else {
        lemma_dirs_without(b.drop_last(), j, d);
        assert(b.remove(j).drop_last() =~= b.drop_last().remove(j));
        assert(b.remove(j).last() == b.last());
        lemma_occurrences_concat(all_dirs(b.remove(j).drop_last()), dir_prefixes(b.last()), d);
    }
}

/// Lists of the same paths in any order lie in the same directories, each
/// as often.
proof fn lemma_dirs_same(a: Seq<Seq<char>>, b: Seq<Seq<char>>, d: Seq<char>)
    requires
        a.to_multiset() == b.to_multiset(),
    ensures
        occurrences(all_dirs(a), d) == occurrences(all_dirs(b), d),
    decreases a.len(),
{
    broadcast use vstd::seq_lib::group_seq_properties, vstd::multiset::group_multiset_axioms;

    if a.len() == 0 {
        assert(b.len() == b.to_multiset().len());
        assert(b =~= Seq::<Seq<char>>::empty());
    } else {
        let p = a.last();
        let rest = a.drop_last();
        assert(a =~= rest.push(p));
        assert(a.to_multiset() =~= rest.to_multiset().insert(p));
        assert(a.contains(p));
        assert(b.to_multiset().count(p) > 0);
        assert(b.contains(p));
        let j = choose|j: int| 0 <= j < b.len() && b[j] == p;
        assert(b.remove(j).to_multiset() =~= b.to_multiset().remove(p));
        assert(rest.to_multiset() =~= a.to_multiset().remove(p));
        lemma_dirs_same(rest, b.remove(j), d);
        lemma_dirs_without(b, j, d);
        lemma_occurrences_concat(all_dirs(rest), dir_prefixes(p), d);
    }
}

/// The key locations depend on the paths alone, not on their order: for two
/// lists of the same paths, the locations that `detect_key_locations_from_paths`
/// reports for one are those it reports for the other, with the same labels
/// and counts.
pub proof fn lemma_locations_ignore_order(
    a: Seq<Seq<char>>,
    b: Seq<Seq<char>>,
    ra: Seq<(Seq<char>, Seq<char>, u32)>,
    rb: Seq<(Seq<char>, Seq<char>, u32)>,
)
    requires
        a.to_multiset() == b.to_multiset(),
        locations_of(all_dirs(a), ra),
        locations_of(all_dirs(b), rb),
    ensures
        forall|x: (Seq<char>, Seq<char>, u32)| ra.contains(x) <==> rb.contains(x),
{
    assert forall|d: Seq<char>| #[trigger] all_dirs(a).contains(d) <==> all_dirs(b).contains(d) by {
        lemma_dirs_same(a, b, d);
        crate::tally::lemma_occurrences_contains(all_dirs(a), d);
        crate::tally::lemma_occurrences_contains(all_dirs(b), d);
    }
    assert forall|x: (Seq<char>, Seq<char>, u32)| ra.contains(x) implies rb.contains(x) by {
        let i = choose|i: int| 0 <= i < ra.len() && ra[i] == x;
        let d = ra[i].1;
        assert(all_dirs(a).contains(d));
        assert(all_dirs(b).contains(d));
        let k = choose|k: int| 0 <= k < rb.len() && #[trigger] rb[k].1 == d;
        lemma_dirs_same(a, b, d);
        assert(rb[k] == x);
    }
    assert forall|x: (Seq<char>, Seq<char>, u32)| rb.contains(x) implies ra.contains(x) by {
        let i = choose|i: int| 0 <= i < rb.len() && rb[i] == x;
        let d = rb[i].1;
        assert(all_dirs(b).contains(d));
        assert(all_dirs(a).contains(d));
        let k = choose|k: int| 0 <= k < ra.len() && #[trigger] ra[k].1 == d;
        lemma_dirs_same(a, b, d);
        assert(ra[k] == x);
    }
}

} // verus!
