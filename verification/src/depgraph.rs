//! The import graph between source files: which file imports which, what
//! stands alone, what forms a cycle, which packages come from outside, and
//! how files group into modules; and the dead-code report derived from it.
use vstd::prelude::*;

use crate::tally::{bump, tallies};
use crate::text::{
    chars_of, chars_of_all, concat, contains, contains_sub, first_piece, first_piece_chars,
    has_prefix, has_suffix, index_of, is, last_piece, last_piece_chars, replace_char,
    replace_char_chars, slice_of, split, split_chars, starts_with, ends_with_chars, string_of,
    strs, views,
};

verus! {

/// One source file as the graph is built from it: its path, the import
/// specifiers it contains and the names it exports.
pub type FileEntry = (String, (Vec<String>, Vec<String>));

pub struct DepNode {
    pub import_paths: Vec<String>,
    pub exported_names: Vec<String>,
    pub imported_by: Vec<String>,
    pub imports_from: Vec<String>,
}

pub struct ModuleInfo {
    pub files: u32,
    pub connections: u32,
    pub imports: u32,
    pub exports: u32,
}

pub struct DepGraph {
    pub nodes: Vec<(String, DepNode)>,
    pub orphans: Vec<String>,
    pub entry_points: Vec<String>,
    pub coupling: Vec<(String, (u32, u32))>,
    pub circular: Vec<Vec<String>>,
    pub cross_module_deps: Vec<(String, String)>,
    pub external_imports: Vec<(String, u32)>,
    pub modules: Vec<(String, ModuleInfo)>,
}

// ---------------------------------------------------------------------------
// Paths
// ---------------------------------------------------------------------------

/// Index of the last `'/'` in `p`, or -1.
pub open spec fn last_slash(p: Seq<char>) -> int
    decreases p.len(),
{
    if p.len() == 0 {
        -1
    } else if p.last() == '/' {
        p.len() - 1
    } else {
        last_slash(p.drop_last())
    }
}

/// What precedes the last `'/'` of `p`, or nothing when it has none.
pub open spec fn before_last_slash(p: Seq<char>) -> Seq<char> {
    if last_slash(p) < 0 {
        Seq::<char>::empty()
    } else {
        p.take(last_slash(p))
    }
}

/// `b` ends in a separator or in a `.` component.
pub open spec fn junk_end(b: Seq<char>) -> bool {
    b.len() > 0 && (b.last() == '/' || (b.last() == '.' && (b.len() == 1 || b[b.len() - 2] == '/')))
}

/// `b` without its trailing separators and `.` components.
pub open spec fn trim_back(b: Seq<char>) -> Seq<char>
    decreases b.len(),
{
    if junk_end(b) {
        trim_back(b.drop_last())
    } else {
        b
    }
}

/// The length of what precedes a path's components: its root `/`, or a
/// leading `.` component.
pub open spec fn head_len(p: Seq<char>) -> int {
    if p.len() > 0 && p[0] == '/' {
        1
    } else if p.len() > 0 && p[0] == '.' && (p.len() == 1 || p[1] == '/') {
        1
    } else {
        0
    }
}

/// The directory of a path as `Path::parent` gives it (an empty text where
/// it gives none): the path without its last component and the separators
/// and `.` components around it; repeated separators inside are kept, the
/// root and a leading `.` stay.
pub open spec fn dir_of(p: Seq<char>) -> Seq<char> {
    let h = head_len(p);
    let t = trim_back(p.skip(h));
    if t.len() == 0 {
        Seq::<char>::empty()
    } else {
        p.take(h) + trim_back(before_last_slash(t))
    }
}

/// The file name of a path as `Path::file_name` gives it (an empty text
/// where it gives none): its last component, unless that is `..` or there
/// is none.
pub open spec fn file_name(p: Seq<char>) -> Seq<char> {
    let t = trim_back(p.skip(head_len(p)));
    if t.len() == 0 || last_piece(t, '/') == ".."@ {
        Seq::<char>::empty()
    } else {
        last_piece(t, '/')
    }
}

/// The first component of a path, with `'\\'` read as `'/'`.
pub open spec fn first_component(p: Seq<char>) -> Seq<char> {
    first_piece(replace_char(p, '\\', '/'), '/')
}

/// File names that mark a program's entry or a library root.
pub open spec fn is_entry_name(name: Seq<char>) -> bool {
    ||| contains_sub(name, "index."@)
    ||| contains_sub(name, "main."@)
    ||| contains_sub(name, "app."@)
    ||| contains_sub(name, "server."@)
    ||| contains_sub(name, "client."@)
    ||| contains_sub(name, "start."@)
    ||| contains_sub(name, "cli."@)
    ||| contains_sub(name, "bin."@)
    ||| contains_sub(name, "boot."@)
    ||| contains_sub(name, "init."@)
    ||| contains_sub(name, "entry."@)
    ||| contains_sub(name, "lib."@)
}

proof fn lemma_last_slash(p: Seq<char>)
    ensures
        -1 <= last_slash(p) < p.len(),
        last_slash(p) >= 0 ==> p[last_slash(p)] == '/',
        forall|j: int| last_slash(p) < j < p.len() ==> p[j] != '/',
    decreases p.len(),
{
    if p.len() > 0 && p.last() != '/' {
        lemma_last_slash(p.drop_last());
        assert forall|j: int| last_slash(p) < j < p.len() implies p[j] != '/' by {
            if j < p.len() - 1 {
                assert(p.drop_last()[j] == p[j]);
            }
        }
    }
}

/// What precedes the last `'/'`.
fn before_last_slash_chars(p: &[char]) -> (r: Vec<char>)
    ensures
        r@ == before_last_slash(p@),
{
    let n = p.len();
    let mut k: usize = n;
    assert(p@.take(n as int) =~= p@);
    while k > 0 && p[k - 1] != '/'
        invariant
            n == p@.len(),
            k <= n,
            last_slash(p@) == last_slash(p@.take(k as int)),
        decreases k,
    {
        assert(p@.take(k - 1) =~= p@.take(k as int).drop_last());
        k -= 1;
    }
    assert(p@.take(n as int) =~= p@);
    if k == 0 {
        assert(last_slash(p@.take(0)) == -1);
        Vec::new()
    } else {
        assert(p@.take(k as int).last() == '/');
        slice_of(p, 0, k - 1)
    }
}

/// `b` without its trailing separators and `.` components.
fn trim_back_chars(b: &[char]) -> (r: Vec<char>)
    ensures
        r@ == trim_back(b@),
{
    let mut k: usize = b.len();
    assert(b@.take(k as int) =~= b@);
    while k > 0 && (b[k - 1] == '/' || (b[k - 1] == '.' && (k == 1 || b[k - 2] == '/')))
        invariant
            k <= b@.len(),
            trim_back(b@.take(k as int)) == trim_back(b@),
        decreases k,
    {
        assert(b@.take(k - 1) =~= b@.take(k as int).drop_last());
        k -= 1;
    }
    assert(!junk_end(b@.take(k as int)));
    slice_of(b, 0, k)
}

fn head_len_exec(p: &[char]) -> (r: usize)
    ensures
        r == head_len(p@),
{
    if p.len() > 0 && p[0] == '/' {
        1
    } else if p.len() > 0 && p[0] == '.' && (p.len() == 1 || p[1] == '/') {
        1
    } else {
        0
    }
}

/// What follows a path's head, without trailing separators and `.`
/// components.
fn trimmed_body(p: &[char]) -> (r: (usize, Vec<char>))
    ensures
        r.0 == head_len(p@),
        r.1@ == trim_back(p@.skip(head_len(p@))),
{
    let h = head_len_exec(p);
    let body = slice_of(p, h, p.len());
    assert(body@ =~= p@.skip(h as int));
    (h, trim_back_chars(body.as_slice()))
}

/// The directory of a path, as `Path::parent` gives it.
pub fn dir_of_chars(p: &[char]) -> (r: Vec<char>)
    ensures
        r@ == dir_of(p@),
{
    let (h, t) = trimmed_body(p);
    if t.len() == 0 {
        return Vec::new();
    }
    let d = before_last_slash_chars(t.as_slice());
    let dt = trim_back_chars(d.as_slice());
    let head = slice_of(p, 0, h);
    assert(head@ =~= p@.take(h as int));
    concat(head.as_slice(), dt.as_slice())
}

/// The file name of a path, as `Path::file_name` gives it.
pub fn path_file_name(p: &[char]) -> (r: Vec<char>)
    ensures
        r@ == file_name(p@),
{
    let (_, t) = trimmed_body(p);
    if t.len() == 0 {
        return Vec::new();
    }
    let f = last_piece_chars(t.as_slice(), '/');
    if is(f.as_slice(), "..") {
        Vec::new()
    } else {
        f
    }
}

/// Whether the file name marks an entry point (`index.`, `main.`, `lib.`, ...).
pub fn is_entry_file(name: &[char]) -> (r: bool)
    ensures
        r == is_entry_name(name@),
{
    contains(name, "index.") || contains(name, "main.") || contains(name, "app.") || contains(
        name,
        "server.",
    ) || contains(name, "client.") || contains(name, "start.") || contains(name, "cli.")
        || contains(name, "bin.") || contains(name, "boot.") || contains(name, "init.")
        || contains(name, "entry.") || contains(name, "lib.")
}

/// The first component of a path, with `'\\'` read as `'/'`.
pub fn first_path_component(path: &[char]) -> (r: Vec<char>)
    ensures
        r@ == first_component(path@),
{
    let normalized = replace_char_chars(path, '\\', '/');
    first_piece_chars(normalized.as_slice(), '/')
}

// ---------------------------------------------------------------------------
// Import resolution
// ---------------------------------------------------------------------------

/// `s` without any number of leading `"./"`.
pub open spec fn strip_dot_slash(s: Seq<char>) -> Seq<char>
    decreases s.len(),
{
    if s.len() >= 2 && s[0] == '.' && s[1] == '/' {
        strip_dot_slash(s.skip(2))
    } else {
        s
    }
}

/// `s` without any number of trailing copies of `suf`.
pub open spec fn strip_suffix_all(s: Seq<char>, suf: Seq<char>) -> Seq<char>
    decreases s.len(),
{
    if suf.len() > 0 && has_suffix(s, suf) {
        strip_suffix_all(s.take(s.len() - suf.len()), suf)
    } else {
        s
    }
}

/// A path with its script extensions stripped, in the order `.js`, `.ts`,
/// `.jsx`, `.tsx`, `.mjs`, `.cjs`.
pub open spec fn without_ext(c: Seq<char>) -> Seq<char> {
    strip_suffix_all(
        strip_suffix_all(
            strip_suffix_all(
                strip_suffix_all(
                    strip_suffix_all(strip_suffix_all(c, ".js"@), ".ts"@),
                    ".jsx"@,
                ),
                ".tsx"@,
            ),
            ".mjs"@,
        ),
        ".cjs"@,
    )
}

/// The path a relative specifier names from the directory `dir`.
pub open spec fn joined_path(imp: Seq<char>, dir: Seq<char>) -> Seq<char> {
    let rest = strip_dot_slash(imp);
    let joined = if dir.len() == 0 {
        rest
    } else {
        dir + seq!['/'] + rest
    };
    replace_char(joined, '\\', '/')
}

/// The files a relative specifier may denote, in the order they are tried.
pub open spec fn candidates(clean: Seq<char>) -> Seq<Seq<char>> {
    let base = without_ext(clean);
    let dir = strip_suffix_all(clean, seq!['/']);
    seq![
        clean,
        base + ".js"@,
        base + ".ts"@,
        base + ".jsx"@,
        base + ".tsx"@,
        base + ".mjs"@,
        base + ".cjs"@,
        dir + "/index.js"@,
        dir + "/index.ts"@,
        dir + "/index.jsx"@,
        dir + "/index.tsx"@,
    ]
}

/// The first of `cands` that is one of `keys`.
pub open spec fn first_key(cands: Seq<Seq<char>>, keys: Seq<Seq<char>>) -> Option<Seq<char>>
    decreases cands.len(),
{
    if cands.len() == 0 {
        None
    } else if keys.contains(cands[0]) {
        Some(cands[0])
    } else {
        first_key(cands.drop_first(), keys)
    }
}

/// The file among `keys` that the import specifier `imp`, written in a file
/// of directory `dir`, refers to: only specifiers that begin with `'.'`
/// resolve.
pub open spec fn resolve(imp: Seq<char>, dir: Seq<char>, keys: Seq<Seq<char>>) -> Option<
    Seq<char>,
> {
    if imp.len() > 0 && imp[0] == '.' {
        first_key(candidates(joined_path(imp, dir)), keys)
    } else {
        None
    }
}

fn strip_dot_slash_chars(s: &[char]) -> (r: Vec<char>)
    ensures
        r@ == strip_dot_slash(s@),
{
    let n = s.len();
    let mut k: usize = 0;
    assert(s@.skip(0) =~= s@);
    while n - k >= 2 && s[k] == '.' && s[k + 1] == '/'
        invariant
            n == s@.len(),
            k <= n,
            strip_dot_slash(s@) == strip_dot_slash(s@.skip(k as int)),
        decreases n - k,
    {
        assert(s@.skip(k as int).skip(2) =~= s@.skip(k + 2));
        k += 2;
    }
    let r = slice_of(s, k, n);
    assert(r@ =~= s@.skip(k as int));
    r
}

fn strip_suffix_all_chars(s: &[char], suf: &str) -> (r: Vec<char>)
    ensures
        r@ == strip_suffix_all(s@, suf@),
{
    let sv = chars_of(suf);
    let m = sv.len();
    let mut cur = slice_of(s, 0, s.len());
    assert(cur@ =~= s@);
    if m == 0 {
        return cur;
    }
    while ends_with_chars(cur.as_slice(), sv.as_slice())
        invariant
            m == sv@.len() > 0,
            strip_suffix_all(s@, sv@) == strip_suffix_all(cur@, sv@),
        decreases cur@.len(),
    {
        let l = cur.len();
        let ghost prev = cur@;
        cur = slice_of(cur.as_slice(), 0, l - m);
        assert(cur@ =~= prev.take(prev.len() - sv@.len()));
    }
    cur
}

fn without_ext_chars(c: &[char]) -> (r: Vec<char>)
    ensures
        r@ == without_ext(c@),
{
    let a = strip_suffix_all_chars(c, ".js");
    let b = strip_suffix_all_chars(a.as_slice(), ".ts");
    let d = strip_suffix_all_chars(b.as_slice(), ".jsx");
    let e = strip_suffix_all_chars(d.as_slice(), ".tsx");
    let f = strip_suffix_all_chars(e.as_slice(), ".mjs");
    strip_suffix_all_chars(f.as_slice(), ".cjs")
}

fn candidates_exec(clean: &[char]) -> (r: Vec<Vec<char>>)
    ensures
        views(r@) == candidates(clean@),
{
    let base = without_ext_chars(clean);
    let dir = strip_suffix_all_chars(clean, "/");
    proof {
        reveal_strlit("/");
        assert("/"@ =~= seq!['/']);
    }
    let mut r: Vec<Vec<char>> = Vec::new();
    let first = slice_of(clean, 0, clean.len());
    assert(first@ =~= clean@);
    r.push(first);
    r.push(concat(base.as_slice(), chars_of(".js").as_slice()));
    r.push(concat(base.as_slice(), chars_of(".ts").as_slice()));
    r.push(concat(base.as_slice(), chars_of(".jsx").as_slice()));
    r.push(concat(base.as_slice(), chars_of(".tsx").as_slice()));
    r.push(concat(base.as_slice(), chars_of(".mjs").as_slice()));
    r.push(concat(base.as_slice(), chars_of(".cjs").as_slice()));
    r.push(concat(dir.as_slice(), chars_of("/index.js").as_slice()));
    r.push(concat(dir.as_slice(), chars_of("/index.ts").as_slice()));
    r.push(concat(dir.as_slice(), chars_of("/index.jsx").as_slice()));
    r.push(concat(dir.as_slice(), chars_of("/index.tsx").as_slice()));
    assert(r@.len() == 11);
    assert(views(r@) =~= candidates(clean@)) by {
        let c = candidates(clean@);
        assert(c.len() == 11);
        assert forall|j: int| 0 <= j < 11 implies views(r@)[j] == c[j] by {
            assert(views(r@)[j] == r@[j]@);
        }
    }
    r
}

proof fn lemma_first_key_step(cands: Seq<Seq<char>>, keys: Seq<Seq<char>>, i: int)
    requires
        0 <= i < cands.len(),
        forall|j: int| 0 <= j < i ==> !keys.contains(#[trigger] cands[j]),
    ensures
        first_key(cands, keys) == first_key(cands.skip(i), keys),
    decreases i,
{
    if i > 0 {
        lemma_first_key_step(cands.drop_first(), keys, i - 1);
        assert(cands.drop_first().skip(i - 1) =~= cands.skip(i));
        assert(!keys.contains(cands[0]));
        assert forall|j: int| 0 <= j < i - 1 implies !keys.contains(
            #[trigger] cands.drop_first()[j],
        ) by {
            assert(cands.drop_first()[j] == cands[j + 1]);
        }
    } else {
        assert(cands.skip(0) =~= cands);
    }
}

proof fn lemma_first_key_none(cands: Seq<Seq<char>>, keys: Seq<Seq<char>>)
    requires
        forall|j: int| 0 <= j < cands.len() ==> !keys.contains(#[trigger] cands[j]),
    ensures
        first_key(cands, keys) is None,
    decreases cands.len(),
{
    if cands.len() > 0 {
        assert(!keys.contains(cands[0]));
        assert forall|j: int| 0 <= j < cands.drop_first().len() implies !keys.contains(
            #[trigger] cands.drop_first()[j],
        ) by {
            assert(cands.drop_first()[j] == cands[j + 1]);
        }
        lemma_first_key_none(cands.drop_first(), keys);
    }
}

/// The file that the specifier `import_path`, written in a file of the
/// directory `from_dir`, refers to among `keys`.
pub fn resolve_import(import_path: &[char], from_dir: &[char], keys: &Vec<Vec<char>>) -> (r:
    Option<usize>)
    ensures
        r matches Some(i) ==> i < keys@.len() && resolve(import_path@, from_dir@, views(keys@))
            == Some(keys@[i as int]@),
        r is None ==> resolve(import_path@, from_dir@, views(keys@)) is None,
{
    if import_path.len() == 0 || import_path[0] != '.' {
        return None;
    }
    let rest = strip_dot_slash_chars(import_path);
    let joined = if from_dir.len() == 0 {
        rest
    } else {
        let with_sep = concat(from_dir, &['/']);
        concat(with_sep.as_slice(), rest.as_slice())
    };
    let clean = replace_char_chars(joined.as_slice(), '\\', '/');
    assert(clean@ == joined_path(import_path@, from_dir@));
    let cands = candidates_exec(clean.as_slice());
    let ghost cv = views(cands@);
    assert(resolve(import_path@, from_dir@, views(keys@)) == first_key(cv, views(keys@)));
    let nc = cands.len();
    for i in 0..nc
        invariant
            nc == cands@.len() == cv.len(),
            cv == views(cands@),
            cv == candidates(clean@),
            clean@ == joined_path(import_path@, from_dir@),
            import_path@.len() > 0 && import_path@[0] == '.',
            resolve(import_path@, from_dir@, views(keys@)) == first_key(cv, views(keys@)),
            forall|j: int| 0 <= j < i ==> !views(keys@).contains(#[trigger] cv[j]),
    {
        match index_of(keys, cands[i].as_slice()) {
            Some(k) => {
                proof {
                    lemma_first_key_step(cv, views(keys@), i as int);
                    assert(cv.skip(i as int)[0] == cv[i as int]);
                    assert(views(keys@)[k as int] == keys@[k as int]@);
                    assert(views(keys@).contains(cv[i as int]));
                }
                return Some(k);
            },
            None => {
                assert(cv[i as int] == cands@[i as int]@);
            },
        }
    }
    proof {
        lemma_first_key_none(cv, views(keys@));
    }
    None
}

} // verus!

verus! {

// ---------------------------------------------------------------------------
// The graph
// ---------------------------------------------------------------------------

/// The paths of the files, in order.
pub open spec fn keys_of(fa: Seq<FileEntry>) -> Seq<Seq<char>> {
    fa.map_values(|e: FileEntry| e.0@)
}

/// The import specifiers of a file.
pub open spec fn imports_of(e: FileEntry) -> Seq<Seq<char>> {
    strs(e.1.0@)
}

/// The exported names of a file.
pub open spec fn exports_of(e: FileEntry) -> Seq<Seq<char>> {
    strs(e.1.1@)
}

/// File `i` imports file `j`: one of its specifiers resolves to `j`.
pub open spec fn is_edge(fa: Seq<FileEntry>, i: int, j: int) -> bool {
    &&& 0 <= i < fa.len()
    &&& 0 <= j < fa.len()
    &&& exists|k: int|
        0 <= k < imports_of(fa[i]).len() && #[trigger] resolve(
            imports_of(fa[i])[k],
            dir_of(fa[i].0@),
            keys_of(fa),
        ) == Some(keys_of(fa)[j])
}

/// The files among the first `upto` that file `i` imports, in file order.
pub open spec fn out_list(fa: Seq<FileEntry>, i: int, upto: int) -> Seq<Seq<char>>
    decreases upto,
{
    if upto <= 0 {
        Seq::<Seq<char>>::empty()
    } else if is_edge(fa, i, upto - 1) {
        out_list(fa, i, upto - 1).push(keys_of(fa)[upto - 1])
    } else {
        out_list(fa, i, upto - 1)
    }
}

/// The files among the first `upto` that import file `j`, in file order.
pub open spec fn in_list(fa: Seq<FileEntry>, j: int, upto: int) -> Seq<Seq<char>>
    decreases upto,
{
    if upto <= 0 {
        Seq::<Seq<char>>::empty()
    } else if is_edge(fa, upto - 1, j) {
        in_list(fa, j, upto - 1).push(keys_of(fa)[upto - 1])
    } else {
        in_list(fa, j, upto - 1)
    }
}

/// The input is a map: no path occurs twice.
pub open spec fn distinct_paths(fa: Seq<FileEntry>) -> bool {
    keys_of(fa).no_duplicates()
}

/// The paths of the nodes that satisfy `pred`, in node order.
pub open spec fn paths_where(
    ns: Seq<(String, DepNode)>,
    pred: spec_fn((String, DepNode)) -> bool,
) -> Seq<Seq<char>>
    decreases ns.len(),
{
    if ns.len() == 0 {
        Seq::<Seq<char>>::empty()
    } else if pred(ns.last()) {
        paths_where(ns.drop_last(), pred).push(ns.last().0@)
    } else {
        paths_where(ns.drop_last(), pred)
    }
}

/// A node without imports in either direction, not named as an entry point.
pub open spec fn is_orphan(e: (String, DepNode)) -> bool {
    &&& e.1.imported_by@.len() == 0
    &&& e.1.imports_from@.len() == 0
    &&& !is_entry_name(file_name(e.0@))
}

/// A node that imports nothing and is imported by something.
pub open spec fn is_entry_point(e: (String, DepNode)) -> bool {
    e.1.imports_from@.len() == 0 && e.1.imported_by@.len() > 0
}

/// `(path, (in, out))` for each node with at least one import relation.
pub open spec fn coupling_of(ns: Seq<(String, DepNode)>) -> Seq<(Seq<char>, (u32, u32))>
    decreases ns.len(),
{
    if ns.len() == 0 {
        Seq::empty()
    } else {
        let e = ns.last();
        let rest = coupling_of(ns.drop_last());
        if e.1.imported_by@.len() + e.1.imports_from@.len() > 0 {
            rest.push(
                (e.0@, (e.1.imported_by@.len() as u32, e.1.imports_from@.len() as u32)),
            )
        } else {
            rest
        }
    }
}

/// The graph's nodes are the input files, in order, with their imports and
/// exports, and with the import relation resolved in both directions.
pub open spec fn nodes_match(ns: Seq<(String, DepNode)>, fa: Seq<FileEntry>) -> bool {
    &&& ns.len() == fa.len()
    &&& forall|i: int| 0 <= i < fa.len() ==> node_matches(#[trigger] ns[i], fa, i)
}

/// Node `e` stands for file `i`.
pub open spec fn node_matches(e: (String, DepNode), fa: Seq<FileEntry>, i: int) -> bool {
    &&& e.0@ == fa[i].0@
    &&& strs(e.1.import_paths@) == imports_of(fa[i])
    &&& strs(e.1.exported_names@) == exports_of(fa[i])
    &&& strs(e.1.imports_from@) == out_list(fa, i, fa.len() as int)
    &&& strs(e.1.imported_by@) == in_list(fa, i, fa.len() as int)
}

fn clone_strs(v: &Vec<String>) -> (r: Vec<String>)
    ensures
        strs(r@) == strs(v@),
{
    let n = v.len();
    let mut r: Vec<String> = Vec::new();
    for i in 0..n
        invariant
            n == v@.len(),
            strs(r@) == strs(v@).take(i as int),
    {
        let s = v[i].clone();
        assert(s@ == v@[i as int]@);
        let ghost old_r = strs(r@);
        r.push(s);
        assert(strs(r@) =~= old_r.push(v@[i as int]@));
        assert(strs(r@) =~= strs(v@).take(i + 1));
    }
    assert(strs(v@).take(n as int) =~= strs(v@));
    r
}

/// For every file, the indices its specifiers resolve to, as marks over all files.
fn out_marks(fa: &Vec<FileEntry>, keys: &Vec<Vec<char>>, i: usize) -> (m: Vec<bool>)
    requires
        views(keys@) == keys_of(fa@),
        distinct_paths(fa@),
        i < fa@.len(),
    ensures
        m@.len() == fa@.len(),
        forall|j: int| 0 <= j < fa@.len() ==> (m@[j] <==> is_edge(fa@, i as int, j)),
{
    let n = fa.len();
    let mut m: Vec<bool> = Vec::new();
    for j in 0..n
        invariant
            n == fa@.len(),
            m@.len() == j,
            forall|t: int| 0 <= t < j ==> !m@[t],
    {
        m.push(false);
    }
    let path = chars_of(fa[i].0.as_str());
    let dir = dir_of_chars(path.as_slice());
    let imps = chars_of_all(&fa[i].1.0);
    let ni = imps.len();
    let ghost kf = keys_of(fa@);
    assert(kf.len() == n);
    for k in 0..ni
        invariant
            n == fa@.len() == m@.len() == kf.len(),
            i < n,
            kf == keys_of(fa@),
            kf.no_duplicates(),
            views(keys@) == kf,
            dir@ == dir_of(fa@[i as int].0@),
            views(imps@) == imports_of(fa@[i as int]),
            ni == imps@.len(),
            forall|j: int|
                0 <= j < n ==> (m@[j] <==> exists|q: int|
                    0 <= q < k && #[trigger] resolve(
                        imports_of(fa@[i as int])[q],
                        dir_of(fa@[i as int].0@),
                        kf,
                    ) == Some(kf[j])),
    {
        let ghost imp = imports_of(fa@[i as int])[k as int];
        assert(imps@[k as int]@ == imp);
        match resolve_import(imps[k].as_slice(), dir.as_slice(), keys) {
            Some(t) => {
                let ghost old_m = m@;
                m.set(t, true);
                assert forall|j: int| 0 <= j < n implies (m@[j] <==> exists|q: int|
                    0 <= q < k + 1 && #[trigger] resolve(
                        imports_of(fa@[i as int])[q],
                        dir_of(fa@[i as int].0@),
                        kf,
                    ) == Some(kf[j])) by {
                    if j == t {
                        assert(resolve(imp, dir_of(fa@[i as int].0@), kf) == Some(kf[j]));
                    } else {
                        assert(kf[j] != kf[t as int]);
                        assert(resolve(imp, dir_of(fa@[i as int].0@), kf) != Some(kf[j]));
                        if m@[j] {
                            let q = choose|q: int|
                                0 <= q < k && #[trigger] resolve(
                                    imports_of(fa@[i as int])[q],
                                    dir_of(fa@[i as int].0@),
                                    kf,
                                ) == Some(kf[j]);
                        }
                    }
                }
            },
            None => {
                assert forall|j: int| 0 <= j < n implies (m@[j] <==> exists|q: int|
                    0 <= q < k + 1 && #[trigger] resolve(
                        imports_of(fa@[i as int])[q],
                        dir_of(fa@[i as int].0@),
                        kf,
                    ) == Some(kf[j])) by {
                    assert(resolve(imp, dir_of(fa@[i as int].0@), kf) is None);
                }
            },
        }
    }
    m
}

} // verus!

verus! {

fn key_chars(fa: &Vec<FileEntry>) -> (keys: Vec<Vec<char>>)
    ensures
        views(keys@) == keys_of(fa@),
{
    let n = fa.len();
    let mut keys: Vec<Vec<char>> = Vec::new();
    for i in 0..n
        invariant
            n == fa@.len(),
            views(keys@) == keys_of(fa@).take(i as int),
    {
        let c = chars_of(fa[i].0.as_str());
        let ghost old_k = views(keys@);
        let ghost cv = c@;
        keys.push(c);
        assert(views(keys@) =~= old_k.push(cv));
        assert(keys_of(fa@).take(i + 1) =~= keys_of(fa@).take(i as int).push(fa@[i as int].0@));
    }
    assert(keys_of(fa@).take(n as int) =~= keys_of(fa@));
    keys
}

/// The nodes of the graph: each file with the files it imports and the
/// files that import it, both in file order.
fn build_nodes(fa: &Vec<FileEntry>) -> (ns: Vec<(String, DepNode)>)
    requires
        distinct_paths(fa@),
    ensures
        nodes_match(ns@, fa@),
{
    let n = fa.len();
    let keys = key_chars(fa);
    let mut ins: Vec<Vec<String>> = Vec::new();
    for j in 0..n
        invariant
            n == fa@.len(),
            ins@.len() == j,
            forall|t: int| 0 <= t < j ==> strs(#[trigger] ins@[t]@) == in_list(fa@, t, 0),
    {
        ins.push(Vec::new());
        assert(strs(ins@[j as int]@) =~= in_list(fa@, j as int, 0));
    }
    let mut outs: Vec<Vec<String>> = Vec::new();
    for i in 0..n
        invariant
            n == fa@.len() == ins@.len(),
            distinct_paths(fa@),
            views(keys@) == keys_of(fa@),
            outs@.len() == i,
            forall|t: int| 0 <= t < i ==> strs(#[trigger] outs@[t]@) == out_list(fa@, t, n as int),
            forall|t: int| 0 <= t < n ==> strs(#[trigger] ins@[t]@) == in_list(fa@, t, i as int),
    {
        let m = out_marks(fa, &keys, i);
        let mut out: Vec<String> = Vec::new();
        for j in 0..n
            invariant
                n == fa@.len() == ins@.len() == m@.len(),
                i < n,
                forall|t: int| 0 <= t < n ==> (m@[t] <==> is_edge(fa@, i as int, t)),
                strs(out@) == out_list(fa@, i as int, j as int),
                forall|t: int| 0 <= t < j ==> strs(#[trigger] ins@[t]@) == in_list(fa@, t, i + 1),
                forall|t: int|
                    j <= t < n ==> strs(#[trigger] ins@[t]@) == in_list(fa@, t, i as int),
        {
            if m[j] {
                let to = fa[j].0.clone();
                let ghost old_out = strs(out@);
                out.push(to);
                assert(strs(out@) =~= old_out.push(fa@[j as int].0@));
                let from = fa[i].0.clone();
                let ghost old_in = strs(ins@[j as int]@);
                let ghost old_ins = ins@;
                ins[j].push(from);
                assert(strs(ins@[j as int]@) =~= old_in.push(fa@[i as int].0@));
                assert forall|t: int| 0 <= t < n && t != j implies ins@[t] == old_ins[t] by {}
            }
            assert(strs(ins@[j as int]@) == in_list(fa@, j as int, i + 1));
        }
        outs.push(out);
        assert forall|t: int| 0 <= t < i + 1 implies strs(#[trigger] outs@[t]@) == out_list(
            fa@,
            t,
            n as int,
        ) by {}
    }
    let mut ns: Vec<(String, DepNode)> = Vec::new();
    for i in 0..n
        invariant
            n == fa@.len() == ins@.len() == outs@.len(),
            ns@.len() == i,
            forall|t: int| 0 <= t < n ==> strs(#[trigger] outs@[t]@) == out_list(fa@, t, n as int),
            forall|t: int| 0 <= t < n ==> strs(#[trigger] ins@[t]@) == in_list(fa@, t, n as int),
            forall|t: int| 0 <= t < i ==> node_matches(#[trigger] ns@[t], fa@, t),
    {
        let path = fa[i].0.clone();
        let node = DepNode {
            import_paths: clone_strs(&fa[i].1.0),
            exported_names: clone_strs(&fa[i].1.1),
            imported_by: clone_strs(&ins[i]),
            imports_from: clone_strs(&outs[i]),
        };
        assert(path@ == fa@[i as int].0@);
        let ghost old_ns = ns@;
        ns.push((path, node));
        assert(ns@[i as int].0@ == fa@[i as int].0@);
        assert(strs(ns@[i as int].1.imports_from@) == out_list(fa@, i as int, n as int));
        assert(strs(ns@[i as int].1.imported_by@) == in_list(fa@, i as int, n as int));
        assert(strs(ns@[i as int].1.import_paths@) == imports_of(fa@[i as int]));
        assert(strs(ns@[i as int].1.exported_names@) == exports_of(fa@[i as int]));
        assert forall|t: int| 0 <= t < i implies ns@[t] == old_ns[t] by {}
    }
    ns
}

} // verus!

verus! {

proof fn lemma_out_list_len(fa: Seq<FileEntry>, i: int, upto: int)
    ensures
        out_list(fa, i, upto).len() <= if upto < 0 {
            0
        } else {
            upto
        },
    decreases upto,
{
    if upto > 0 {
        lemma_out_list_len(fa, i, upto - 1);
    }
}

proof fn lemma_in_list_len(fa: Seq<FileEntry>, j: int, upto: int)
    ensures
        in_list(fa, j, upto).len() <= if upto < 0 {
            0
        } else {
            upto
        },
    decreases upto,
{
    if upto > 0 {
        lemma_in_list_len(fa, j, upto - 1);
    }
}

/// Every node has fewer than 2^31 relations in each direction.
pub open spec fn degrees_fit(ns: Seq<(String, DepNode)>) -> bool {
    forall|i: int|
        0 <= i < ns.len() ==> #[trigger] ns[i].1.imported_by@.len() <= 0x7FFF_FFFF
            && ns[i].1.imports_from@.len() <= 0x7FFF_FFFF
}

/// The nodes that are orphans, entry points, and coupled, each in node order.
fn classify_nodes(ns: &Vec<(String, DepNode)>) -> (r: (Vec<String>, Vec<String>, Vec<(String, (u32, u32))>))
    requires
        degrees_fit(ns@),
    ensures
        strs(r.0@) == paths_where(ns@, |e: (String, DepNode)| is_orphan(e)),
        strs(r.1@) == paths_where(ns@, |e: (String, DepNode)| is_entry_point(e)),
        r.2@.map_values(|c: (String, (u32, u32))| (c.0@, c.1)) == coupling_of(ns@),
{
    let n = ns.len();
    let mut orphans: Vec<String> = Vec::new();
    let mut entries: Vec<String> = Vec::new();
    let mut coupling: Vec<(String, (u32, u32))> = Vec::new();
    let ghost po = |e: (String, DepNode)| is_orphan(e);
    let ghost pe = |e: (String, DepNode)| is_entry_point(e);
    for i in 0..n
        invariant
            n == ns@.len(),
            degrees_fit(ns@),
            po == (|e: (String, DepNode)| is_orphan(e)),
            pe == (|e: (String, DepNode)| is_entry_point(e)),
            strs(orphans@) == paths_where(ns@.take(i as int), po),
            strs(entries@) == paths_where(ns@.take(i as int), pe),
            coupling@.map_values(|c: (String, (u32, u32))| (c.0@, c.1)) == coupling_of(
                ns@.take(i as int),
            ),
    {
        let ghost pre = ns@.take(i as int);
        assert(ns@.take(i + 1).drop_last() =~= pre);
        assert(ns@.take(i + 1).last() == ns@[i as int]);
        let e = &ns[i];
        let path = chars_of(e.0.as_str());
        let fname = path_file_name(path.as_slice());
        let in_len = e.1.imported_by.len();
        let out_len = e.1.imports_from.len();
        assert(in_len <= 0x7FFF_FFFF && out_len <= 0x7FFF_FFFF) by {
            assert(ns@[i as int].1.imported_by@.len() <= 0x7FFF_FFFF);
        }
        if in_len == 0 && out_len == 0 && !is_entry_file(fname.as_slice()) {
            let ghost old_o = strs(orphans@);
            orphans.push(e.0.clone());
            assert(strs(orphans@) =~= old_o.push(e.0@));
        }
        if out_len == 0 && in_len > 0 {
            let ghost old_e = strs(entries@);
            entries.push(e.0.clone());
            assert(strs(entries@) =~= old_e.push(e.0@));
        }
        let in_count = in_len as u32;
        let out_count = out_len as u32;
        if in_count + out_count > 0 {
            let ghost old_c = coupling@.map_values(|c: (String, (u32, u32))| (c.0@, c.1));
            coupling.push((e.0.clone(), (in_count, out_count)));
            assert(coupling@.map_values(|c: (String, (u32, u32))| (c.0@, c.1)) =~= old_c.push(
                (e.0@, (in_count, out_count)),
            ));
        }
    }
    assert(ns@.take(n as int) =~= ns@);
    (orphans, entries, coupling)
}

// ---------------------------------------------------------------------------
// Cycles
// ---------------------------------------------------------------------------

/// The paths of the nodes, in order.
pub open spec fn node_paths(ns: Seq<(String, DepNode)>) -> Seq<Seq<char>> {
    ns.map_values(|e: (String, DepNode)| e.0@)
}

/// The node with path `a` imports the file `b`.
pub open spec fn graph_edge(ns: Seq<(String, DepNode)>, a: Seq<char>, b: Seq<char>) -> bool {
    exists|i: int|
        0 <= i < ns.len() && #[trigger] ns[i].0@ == a && strs(ns[i].1.imports_from@).contains(b)
}

/// Each path in `p` imports the next one.
pub open spec fn is_walk(ns: Seq<(String, DepNode)>, p: Seq<Seq<char>>) -> bool {
    forall|k: int| 0 <= k < p.len() - 1 ==> graph_edge(ns, #[trigger] p[k], p[k + 1])
}

/// A closed walk: it returns to the path it starts from.
pub open spec fn is_cycle(ns: Seq<(String, DepNode)>, c: Seq<Seq<char>>) -> bool {
    c.len() >= 2 && c[0] == c.last() && is_walk(ns, c)
}

/// A cycle that passes each file at most once before it returns.
pub open spec fn simple_cycle(ns: Seq<(String, DepNode)>, c: Seq<Seq<char>>) -> bool {
    is_cycle(ns, c) && c.drop_last().no_duplicates()
}

proof fn lemma_distinct_within(a: Seq<Seq<char>>, b: Seq<Seq<char>>)
    requires
        a.no_duplicates(),
        forall|x: Seq<char>| a.contains(x) ==> b.contains(x),
    ensures
        a.len() <= b.len(),
{
    a.unique_seq_to_set();
    b.lemma_cardinality_of_set();
    vstd::seq_lib::seq_to_set_is_finite(b);
    assert(a.to_set().subset_of(b.to_set()));
    vstd::set_lib::lemma_len_subset(a.to_set(), b.to_set());
}

fn strings_of(v: &[Vec<char>], lo: usize) -> (r: Vec<String>)
    requires
        lo <= v@.len(),
    ensures
        strs(r@) == views(v@).skip(lo as int),
{
    let n = v.len();
    let mut r: Vec<String> = Vec::new();
    let mut i = lo;
    while i < n
        invariant
            n == v@.len(),
            lo <= i <= n,
            strs(r@) == views(v@).subrange(lo as int, i as int),
        decreases n - i,
    {
        let s = string_of(v[i].as_slice());
        let ghost old_r = strs(r@);
        r.push(s);
        assert(strs(r@) =~= old_r.push(v@[i as int]@));
        assert(views(v@).subrange(lo as int, i + 1) =~= views(v@).subrange(lo as int, i as int).push(
            v@[i as int]@,
        ));
        i += 1;
    }
    assert(views(v@).subrange(lo as int, n as int) =~= views(v@).skip(lo as int));
    r
}

/// Every file finished so far has its imports finished before it: each
/// import of the file at position `a` occurs at an earlier position.
pub open spec fn finished_in_order(ns: Seq<(String, DepNode)>, done: Seq<Seq<char>>) -> bool {
    forall|a: int, b: Seq<char>|
        0 <= a < done.len() && #[trigger] graph_edge(ns, done[a], b) ==> exists|t: int|
            0 <= t < a && done[t] == b
}

/// `s` begins with `p`.
pub open spec fn extends(s: Seq<Seq<char>>, p: Seq<Seq<char>>) -> bool {
    p.len() <= s.len() && s.take(p.len() as int) == p
}

proof fn lemma_extends_keeps_order(ns: Seq<(String, DepNode)>, p: Seq<Seq<char>>, s: Seq<Seq<char>>)
    requires
        extends(s, p),
    ensures
        forall|x: Seq<char>| p.contains(x) ==> s.contains(x),
{
    assert forall|x: Seq<char>| p.contains(x) implies s.contains(x) by {
        let k = choose|k: int| 0 <= k < p.len() && p[k] == x;
        assert(s.take(p.len() as int)[k] == s[k]);
    }
}

/// Along a walk that starts at a finished file, each step goes to a file
/// finished strictly earlier.
proof fn lemma_descend(
    ns: Seq<(String, DepNode)>,
    done: Seq<Seq<char>>,
    c: Seq<Seq<char>>,
    k: int,
    t: int,
) -> (r: int)
    requires
        finished_in_order(ns, done),
        is_walk(ns, c),
        0 <= k < c.len(),
        0 <= t < done.len(),
        done[t] == c[k],
    ensures
        0 <= r < done.len(),
        done[r] == c.last(),
        r <= t - (c.len() - 1 - k),
    decreases c.len() - k,
{
    if k == c.len() - 1 {
        t
    } else {
        assert(graph_edge(ns, c[k], c[k + 1]));
        assert(graph_edge(ns, done[t], c[k + 1]));
        let t2 = choose|t2: int| 0 <= t2 < t && done[t2] == c[k + 1];
        lemma_descend(ns, done, c, k + 1, t2)
    }
}

/// A cycle does not start at a file finished in import order.
proof fn lemma_cycle_start_unfinished(
    ns: Seq<(String, DepNode)>,
    done: Seq<Seq<char>>,
    c: Seq<Seq<char>>,
    t: int,
)
    requires
        finished_in_order(ns, done),
        is_cycle(ns, c),
        0 <= t < done.len(),
    ensures
        done[t] != c[0],
    decreases t,
{
    if done[t] == c[0] {
        let r = lemma_descend(ns, done, c, 0, t);
        lemma_cycle_start_unfinished(ns, done, c, r);
    }
}

fn dfs(
    node: &[char],
    ns: &Vec<(String, DepNode)>,
    keys: &Vec<Vec<char>>,
    path: &mut Vec<Vec<char>>,
    visited: &mut Vec<Vec<char>>,
    cycles: &mut Vec<Vec<String>>,
)
    requires
        views(keys@) == node_paths(ns@),
        views(old(path)@).no_duplicates(),
        forall|x: Seq<char>| views(old(path)@).contains(x) ==> node_paths(ns@).contains(x),
        is_walk(ns@, views(old(path)@)),
        old(path)@.len() > 0 ==> graph_edge(ns@, views(old(path)@).last(), node@),
        forall|c: int| 0 <= c < old(cycles)@.len() ==> simple_cycle(ns@, strs(#[trigger] old(cycles)@[c]@)),
        node_paths(ns@).no_duplicates() && old(cycles)@.len() == 0 ==> finished_in_order(
            ns@,
            views(old(visited)@),
        ),
    ensures
        views(final(path)@) == views(old(path)@),
        forall|c: int| 0 <= c < final(cycles)@.len() ==> simple_cycle(ns@, strs(#[trigger] final(cycles)@[c]@)),
        final(cycles)@.len() >= old(cycles)@.len(),
        extends(views(final(visited)@), views(old(visited)@)),
        node_paths(ns@).no_duplicates() && final(cycles)@.len() == 0 ==> finished_in_order(
            ns@,
            views(final(visited)@),
        ) && views(final(visited)@).contains(node@),
    decreases ns@.len() - old(path)@.len(),
{
    let ghost p0 = views(path@);
    let ghost v0 = views(visited@);
    let ghost c0 = cycles@.len();
    assert(v0.take(v0.len() as int) =~= v0);
    match index_of(path, node) {
        Some(start) => {
            let mut cycle = strings_of(path.as_slice(), start);
            let ghost seg = strs(cycle@);
            cycle.push(string_of(node));
            let ghost c = strs(cycle@);
            assert(c =~= seg.push(node@));
            assert(seg == p0.skip(start as int));
            assert(c.len() >= 2);
            assert(c.drop_last() =~= seg);
            assert(seg.no_duplicates()) by {
                assert forall|a: int, b: int| 0 <= a < b < seg.len() implies seg[a] != seg[b] by {
                    assert(seg[a] == p0[start + a]);
                    assert(seg[b] == p0[start + b]);
                }
            }
            assert(c[0] == p0[start as int]);
            assert(p0[start as int] == node@);
            assert forall|k: int| 0 <= k < c.len() - 1 implies graph_edge(ns@, #[trigger] c[k], c[k + 1]) by {
                if k < c.len() - 2 {
                    assert(c[k] == p0[start + k]);
                    assert(c[k + 1] == p0[start + k + 1]);
                } else {
                    assert(c[k] == p0.last());
                }
            }
            let ghost old_cycles = cycles@;
            cycles.push(cycle);
            assert forall|q: int| 0 <= q < cycles@.len() implies simple_cycle(ns@, strs(#[trigger] cycles@[q]@)) by {
                if q < old_cycles.len() {
                    assert(cycles@[q] == old_cycles[q]);
                }
            }
            return;
        },
        None => {},
    }
    match index_of(visited, node) {
        Some(j) => {
            assert(views(visited@)[j as int] == node@);
            return;
        },
        None => {},
    }
    let own = slice_of(node, 0, node.len());
    assert(own@ =~= node@);
    let ghost old_path = path@;
    path.push(own);
    assert(path@ == old_path.push(own));
    assert(views(path@) =~= p0.push(node@));
    match index_of(keys, node) {
        Some(i) => {
            proof {
                assert(node_paths(ns@)[i as int] == node@);
                assert(node_paths(ns@).contains(node@));
                assert(views(path@).no_duplicates()) by {
                    assert forall|a: int, b: int| 0 <= a < b < views(path@).len() implies views(path@)[a] != views(path@)[b] by {
                        if b == views(path@).len() - 1 {
                            assert(p0.contains(p0[a]));
                        }
                    }
                }
                lemma_distinct_within(views(path@), node_paths(ns@));
            }
            let deps = chars_of_all(&ns[i].1.imports_from);
            let nd = deps.len();
            for d in 0..nd
                invariant
                    nd == deps@.len(),
                    i < ns@.len(),
                    ns@[i as int].0@ == node@,
                    views(deps@) == strs(ns@[i as int].1.imports_from@),
                    views(keys@) == node_paths(ns@),
                    views(path@) == p0.push(node@),
                    p0 == views(old(path)@),
                    path@.len() == old(path)@.len() + 1,
                    views(path@).no_duplicates(),
                    path@.len() <= ns@.len(),
                    forall|x: Seq<char>| views(path@).contains(x) ==> node_paths(ns@).contains(x),
                    is_walk(ns@, views(path@)),
                    forall|c: int| 0 <= c < cycles@.len() ==> simple_cycle(ns@, strs(#[trigger] cycles@[c]@)),
                    extends(views(visited@), v0),
                    cycles@.len() >= c0,
                    c0 == old(cycles)@.len(),
                    node_paths(ns@).no_duplicates() && cycles@.len() == 0 ==> finished_in_order(
                        ns@,
                        views(visited@),
                    ),
                    node_paths(ns@).no_duplicates() && cycles@.len() == 0 ==> forall|e: int|
                        0 <= e < d ==> views(visited@).contains(#[trigger] deps@[e]@),
            {
                assert(views(deps@)[d as int] == deps@[d as int]@);
                assert(graph_edge(ns@, node@, deps@[d as int]@)) by {
                    assert(strs(ns@[i as int].1.imports_from@).contains(deps@[d as int]@));
                }
                assert(views(path@).last() == node@);
                let ghost vb = views(visited@);
                dfs(deps[d].as_slice(), ns, keys, path, visited, cycles);
                proof {
                    let va = views(visited@);
                    assert(va.take(v0.len() as int) =~= va.take(vb.len() as int).take(v0.len() as int));
                    lemma_extends_keeps_order(ns@, vb, va);
                }
            }
            proof {
                if node_paths(ns@).no_duplicates() && cycles@.len() == 0 {
                    assert forall|b: Seq<char>| #[trigger] graph_edge(ns@, node@, b) implies views(visited@).contains(b) by {
                        let i2 = choose|i2: int|
                            0 <= i2 < ns@.len() && #[trigger] ns@[i2].0@ == node@ && strs(
                                ns@[i2].1.imports_from@,
                            ).contains(b);
                        assert(node_paths(ns@)[i2] == node@);
                        assert(node_paths(ns@)[i as int] == node@);
                        assert(i2 == i);
                        let e = choose|e: int| 0 <= e < views(deps@).len() && views(deps@)[e] == b;
                        assert(deps@[e]@ == b);
                    }
                }
            }
        },
        None => {
            proof {
                assert forall|b: Seq<char>| #[trigger] graph_edge(ns@, node@, b) implies false by {
                    let i2 = choose|i2: int|
                        0 <= i2 < ns@.len() && #[trigger] ns@[i2].0@ == node@ && strs(
                            ns@[i2].1.imports_from@,
                        ).contains(b);
                    assert(node_paths(ns@)[i2] == node@);
                    assert(views(keys@)[i2] == node@);
                }
            }
        },
    }
    let ghost full = path@;
    assert(views(full) == p0.push(node@));
    path.pop();
    assert(path@ =~= full.drop_last());
    assert(views(full).len() == full.len());
    assert forall|k: int| 0 <= k < p0.len() implies views(path@)[k] == p0[k] by {
        assert(views(path@)[k] == path@[k]@);
        assert(path@[k] == full[k]);
        assert(views(full)[k] == full[k]@);
    }
    assert(views(path@) =~= p0);
    let ghost vp = views(visited@);
    let done_node = slice_of(node, 0, node.len());
    assert(done_node@ =~= node@);
    visited.push(done_node);
    proof {
        let vn = views(visited@);
        assert(vn =~= vp.push(node@));
        assert(vn.take(v0.len() as int) =~= vp.take(v0.len() as int));
        assert(vn[vp.len() as int] == node@);
        if node_paths(ns@).no_duplicates() && cycles@.len() == 0 {
            assert forall|a: int, b: Seq<char>|
                0 <= a < vn.len() && #[trigger] graph_edge(ns@, vn[a], b) implies exists|t: int|
                    0 <= t < a && vn[t] == b by {
                if a < vp.len() {
                    assert(vn[a] == vp[a]);
                    assert(graph_edge(ns@, vp[a], b));
                    let t = choose|t: int| 0 <= t < a && vp[t] == b;
                    assert(vn[t] == b);
                } else {
                    assert(vn[a] == node@);
                    assert(vp.contains(b));
                    let t = choose|t: int| 0 <= t < vp.len() && vp[t] == b;
                    assert(vn[t] == b);
                }
            }
        }
    }
}

/// Cycles in the import graph, at most five: each is a list of paths that
/// starts and ends with the same path, each importing the next, and passes
/// no path twice before it returns. When the
/// paths of the nodes are distinct, none are reported only if there are
/// none.
pub fn detect_circular(ns: &Vec<(String, DepNode)>) -> (cycles: Vec<Vec<String>>)
    ensures
        cycles@.len() <= 5,
        forall|c: int| 0 <= c < cycles@.len() ==> simple_cycle(ns@, strs(#[trigger] cycles@[c]@)),
        node_paths(ns@).no_duplicates() && cycles@.len() == 0 ==> forall|c: Seq<Seq<char>>|
            !is_cycle(ns@, c),
{
    let n = ns.len();
    let mut keys: Vec<Vec<char>> = Vec::new();
    for i in 0..n
        invariant
            n == ns@.len(),
            views(keys@) == node_paths(ns@).take(i as int),
    {
        let c = chars_of(ns[i].0.as_str());
        let ghost old_k = views(keys@);
        let ghost cv = c@;
        keys.push(c);
        assert(views(keys@) =~= old_k.push(cv));
        assert(node_paths(ns@).take(i + 1) =~= node_paths(ns@).take(i as int).push(ns@[i as int].0@));
    }
    assert(node_paths(ns@).take(n as int) =~= node_paths(ns@));
    let mut cycles: Vec<Vec<String>> = Vec::new();
    let mut visited: Vec<Vec<char>> = Vec::new();
    assert(views(visited@) =~= Seq::<Seq<char>>::empty());
    for k in 0..n
        invariant
            n == ns@.len() == keys@.len(),
            views(keys@) == node_paths(ns@),
            forall|c: int| 0 <= c < cycles@.len() ==> simple_cycle(ns@, strs(#[trigger] cycles@[c]@)),
            node_paths(ns@).no_duplicates() && cycles@.len() == 0 ==> finished_in_order(
                ns@,
                views(visited@),
            ),
            node_paths(ns@).no_duplicates() && cycles@.len() == 0 ==> forall|j: int|
                0 <= j < k ==> views(visited@).contains(#[trigger] node_paths(ns@)[j]),
    {
        assert(views(keys@)[k as int] == node_paths(ns@)[k as int]);
        match index_of(&visited, keys[k].as_slice()) {
            Some(j) => {
                assert(views(visited@)[j as int] == node_paths(ns@)[k as int]);
            },
            None => {
                let mut path: Vec<Vec<char>> = Vec::new();
                assert(views(path@) =~= Seq::<Seq<char>>::empty());
                let ghost vb = views(visited@);
                dfs(keys[k].as_slice(), ns, &keys, &mut path, &mut visited, &mut cycles);
                proof {
                    lemma_extends_keeps_order(ns@, vb, views(visited@));
                }
            },
        }
    }
    proof {
        if node_paths(ns@).no_duplicates() && cycles@.len() == 0 {
            let done = views(visited@);
            assert forall|c: Seq<Seq<char>>| !is_cycle(ns@, c) by {
                if is_cycle(ns@, c) {
                    assert(graph_edge(ns@, c[0], c[1]));
                    let i = choose|i: int|
                        0 <= i < ns@.len() && #[trigger] ns@[i].0@ == c[0] && strs(
                            ns@[i].1.imports_from@,
                        ).contains(c[1]);
                    assert(node_paths(ns@)[i] == c[0]);
                    assert(done.contains(node_paths(ns@)[i]));
                    let t = choose|t: int| 0 <= t < done.len() && done[t] == c[0];
                    lemma_cycle_start_unfinished(ns@, done, c, t);
                }
            }
        }
    }
    let ghost before = cycles@;
    cycles.truncate(5);
    assert forall|c: int| 0 <= c < cycles@.len() implies simple_cycle(ns@, strs(#[trigger] cycles@[c]@)) by {
        assert(cycles@[c] == before[c]);
    }
    cycles
}

} // verus!

verus! {

// ---------------------------------------------------------------------------
// External packages
// ---------------------------------------------------------------------------

/// `d` is the top-level directory of some file of the project.
pub open spec fn is_project_dir(fa: Seq<FileEntry>, d: Seq<char>) -> bool {
    exists|i: int|
        0 <= i < fa.len() && #[trigger] replace_char(fa[i].0@, '\\', '/').contains('/')
            && first_component(fa[i].0@) == d
}

/// The package an import specifier names: for `@scope/name/...` the scope
/// and name, for `github.com/...` the last component, otherwise the first.
pub open spec fn package_name(imp: Seq<char>) -> Seq<char> {
    if imp.len() > 0 && imp[0] == '@' {
        let parts = split(imp, '/');
        if parts.len() >= 2 {
            parts[0] + seq!['/'] + parts[1]
        } else {
            imp
        }
    } else if has_prefix(imp, "github.com/"@) {
        last_piece(imp, '/')
    } else {
        first_piece(imp, '/')
    }
}

/// The outside package an import specifier counts for, if any: relative
/// specifiers, `@/` aliases, Go-local paths (`/internal/`, `/handlers/`,
/// `/cmd/`) and specifiers that start with a project directory do not count.
pub open spec fn external_package(imp: Seq<char>, fa: Seq<FileEntry>) -> Option<Seq<char>> {
    if imp.len() > 0 && imp[0] == '.' {
        None
    } else if has_prefix(imp, "@/"@) {
        None
    } else if contains_sub(imp, "/internal/"@) || contains_sub(imp, "/handlers/"@) || contains_sub(
        imp,
        "/cmd/"@,
    ) {
        None
    } else if !(imp.len() > 0 && imp[0] == '@') && !has_prefix(imp, "github.com"@)
        && is_project_dir(fa, first_piece(imp, '/')) {
        None
    } else {
        Some(package_name(imp))
    }
}

/// A bare specifier counts for the package its first component names:
/// `lodash` and `lodash/fp` both count for `lodash`. (A specifier that
/// begins with `@` counts for its scope and name, and a `github.com/` path
/// for its last component.)
pub proof fn lemma_bare_package_name(a: Seq<char>, rest: Seq<char>)
    requires
        a.len() > 0,
        a[0] != '@',
        forall|t: int| 0 <= t < a.len() ==> a[t] != '/',
        a != "github.com"@,
        rest.len() == 0 || rest[0] == '/',
    ensures
        package_name(a + rest) == a,
{
    reveal_strlit("github.com/");
    reveal_strlit("github.com");
    let imp = a + rest;
    assert(imp[0] == a[0]);
    if has_prefix(imp, "github.com/"@) {
        let g = "github.com/"@;
        assert(imp.subrange(0, 11) == g);
        if a.len() < 10 {
            assert(imp[a.len() as int] == '/');
            assert(imp.subrange(0, 11)[a.len() as int] == imp[a.len() as int]);
            assert(g[a.len() as int] != '/');
        } else if a.len() > 10 {
            assert(imp.subrange(0, 11)[10] == a[10]);
        } else {
            assert forall|t: int| 0 <= t < 10 implies a[t] == "github.com"@[t] by {
                assert(imp.subrange(0, 11)[t] == a[t]);
            }
            assert(a =~= "github.com"@);
        }
    }
    crate::text::lemma_first_piece_upto(imp, '/', a.len() as int);
    assert(imp.subrange(0, a.len() as int) =~= a);
}

/// The outside packages of the specifiers `imps`, in order.
pub open spec fn packages_of(imps: Seq<Seq<char>>, fa: Seq<FileEntry>) -> Seq<Seq<char>>
    decreases imps.len(),
{
    if imps.len() == 0 {
        Seq::<Seq<char>>::empty()
    } else {
        let rest = packages_of(imps.drop_last(), fa);
        match external_package(imps.last(), fa) {
            Some(p) => rest.push(p),
            None => rest,
        }
    }
}

/// The outside packages of all imports of the files `files`, file by file.
pub open spec fn all_packages(files: Seq<FileEntry>, fa: Seq<FileEntry>) -> Seq<Seq<char>>
    decreases files.len(),
{
    if files.len() == 0 {
        Seq::<Seq<char>>::empty()
    } else {
        all_packages(files.drop_last(), fa) + packages_of(imports_of(files.last()), fa)
    }
}

fn project_dirs(fa: &Vec<FileEntry>) -> (dirs: Vec<Vec<char>>)
    ensures
        forall|d: Seq<char>| views(dirs@).contains(d) <==> is_project_dir(fa@, d),
{
    let n = fa.len();
    let mut dirs: Vec<Vec<char>> = Vec::new();
    for i in 0..n
        invariant
            n == fa@.len(),
            forall|d: Seq<char>|
                views(dirs@).contains(d) <==> exists|j: int|
                    0 <= j < i && #[trigger] replace_char(fa@[j].0@, '\\', '/').contains('/')
                        && first_component(fa@[j].0@) == d,
    {
        let p = chars_of(fa[i].0.as_str());
        let normalized = replace_char_chars(p.as_slice(), '\\', '/');
        if crate::text::has_char(normalized.as_slice(), '/') {
            let first = first_piece_chars(normalized.as_slice(), '/');
            let ghost old_d = views(dirs@);
            let ghost fv = first@;
            dirs.push(first);
            assert(views(dirs@) =~= old_d.push(fv));
            assert forall|d: Seq<char>| views(dirs@).contains(d) <==> exists|j: int|
                0 <= j < i + 1 && #[trigger] replace_char(fa@[j].0@, '\\', '/').contains('/')
                    && first_component(fa@[j].0@) == d by {
                if views(dirs@).contains(d) && d != fv {
                    let k = choose|k: int| 0 <= k < views(dirs@).len() && views(dirs@)[k] == d;
                    assert(old_d[k] == d);
                }
                if old_d.contains(d) {
                    let k = choose|k: int| 0 <= k < old_d.len() && old_d[k] == d;
                    assert(views(dirs@)[k] == d);
                }
                if d == fv {
                    assert(views(dirs@)[old_d.len() as int] == d);
                }
            }
        } else {
            assert forall|d: Seq<char>| views(dirs@).contains(d) <==> exists|j: int|
                0 <= j < i + 1 && #[trigger] replace_char(fa@[j].0@, '\\', '/').contains('/')
                    && first_component(fa@[j].0@) == d by {
                if exists|j: int|
                    0 <= j < i + 1 && #[trigger] replace_char(fa@[j].0@, '\\', '/').contains('/')
                        && first_component(fa@[j].0@) == d {
                    let j = choose|j: int|
                        0 <= j < i + 1 && #[trigger] replace_char(fa@[j].0@, '\\', '/').contains(
                            '/',
                        ) && first_component(fa@[j].0@) == d;
                    assert(j != i);
                }
            }
        }
    }
    dirs
}

fn external_package_exec(imp: &[char], fa: &Vec<FileEntry>, dirs: &Vec<Vec<char>>) -> (r: Option<Vec<char>>)
    requires
        forall|d: Seq<char>| views(dirs@).contains(d) <==> is_project_dir(fa@, d),
    ensures
        match r {
            Some(p) => external_package(imp@, fa@) == Some(p@),
            None => external_package(imp@, fa@) is None,
        },
{
    if imp.len() > 0 && imp[0] == '.' {
        return None;
    }
    if starts_with(imp, "@/") {
        return None;
    }
    if contains(imp, "/internal/") || contains(imp, "/handlers/") || contains(imp, "/cmd/") {
        return None;
    }
    let scoped = imp.len() > 0 && imp[0] == '@';
    let first = first_piece_chars(imp, '/');
    if !scoped && !starts_with(imp, "github.com") {
        match index_of(dirs, first.as_slice()) {
            Some(j) => {
                assert(views(dirs@)[j as int] == first@);
                return None;
            },
            None => {},
        }
    }
    if scoped {
        let parts = split_chars(imp, '/');
        if parts.len() >= 2 {
            assert(views(parts@)[0] == parts@[0]@ && views(parts@)[1] == parts@[1]@);
            let a = concat(parts[0].as_slice(), &['/']);
            Some(concat(a.as_slice(), parts[1].as_slice()))
        } else {
            Some(slice_of(imp, 0, imp.len()))
        }
    } else if starts_with(imp, "github.com/") {
        Some(last_piece_chars(imp, '/'))
    } else {
        Some(first)
    }
}

proof fn lemma_all_packages_step(fa: Seq<FileEntry>, i: int)
    requires
        0 <= i < fa.len(),
    ensures
        all_packages(fa.take(i + 1), fa) == all_packages(fa.take(i), fa) + packages_of(
            imports_of(fa[i]),
            fa,
        ),
{
    assert(fa.take(i + 1).drop_last() =~= fa.take(i));
}

/// The outside packages that the files import, each with how often it is
/// imported, in order of first import.
fn count_external(fa: &Vec<FileEntry>) -> (r: Vec<(String, u32)>)
    requires
        all_packages(fa@, fa@).len() < 0xFFFF_FFFF,
    ensures
        tallies(r@, all_packages(fa@, fa@)),
{
    let dirs = project_dirs(fa);
    let n = fa.len();
    let mut t: Vec<(String, u32)> = Vec::new();
    proof {
        assert(fa@.take(0).len() == 0);
    }
    for i in 0..n
        invariant
            n == fa@.len(),
            forall|d: Seq<char>| views(dirs@).contains(d) <==> is_project_dir(fa@, d),
            all_packages(fa@, fa@).len() < 0xFFFF_FFFF,
            tallies(t@, all_packages(fa@.take(i as int), fa@)),
            all_packages(fa@.take(i as int), fa@).len() <= all_packages(fa@, fa@).len(),
    {
        proof {
            lemma_all_packages_step(fa@, i as int);
            lemma_all_packages_prefix(fa@, i + 1);
        }
        let imps = chars_of_all(&fa[i].1.0);
        let m = imps.len();
        let ghost base = all_packages(fa@.take(i as int), fa@);
        let ghost ims = imports_of(fa@[i as int]);
        for k in 0..m
            invariant
                n == fa@.len(),
                i < n,
                m == imps@.len(),
                views(imps@) == ims,
                ims == imports_of(fa@[i as int]),
                forall|d: Seq<char>| views(dirs@).contains(d) <==> is_project_dir(fa@, d),
                all_packages(fa@, fa@).len() < 0xFFFF_FFFF,
                base == all_packages(fa@.take(i as int), fa@),
                all_packages(fa@.take(i + 1), fa@) == base + packages_of(ims, fa@),
                all_packages(fa@.take(i + 1), fa@).len() <= all_packages(fa@, fa@).len(),
                tallies(t@, base + packages_of(ims.take(k as int), fa@)),
        {
            assert(ims.take(k + 1).drop_last() =~= ims.take(k as int));
            assert(ims.take(k + 1).last() == imps@[k as int]@);
            proof {
                lemma_packages_prefix(ims, fa@, k + 1);
            }
            match external_package_exec(imps[k].as_slice(), fa, &dirs) {
                Some(p) => {
                    proof {
                        crate::tally::lemma_occurrences_bound(
                            base + packages_of(ims.take(k as int), fa@),
                            p@,
                        );
                    }
                    bump(&mut t, p.as_slice(), Ghost(base + packages_of(ims.take(k as int), fa@)));
                    assert((base + packages_of(ims.take(k as int), fa@)).push(p@) =~= base
                        + packages_of(ims.take(k + 1), fa@));
                },
                None => {
                    assert(packages_of(ims.take(k + 1), fa@) == packages_of(ims.take(k as int), fa@));
                },
            }
        }
        assert(ims.take(m as int) =~= ims);
    }
    assert(fa@.take(n as int) =~= fa@);
    t
}

proof fn lemma_packages_prefix(imps: Seq<Seq<char>>, fa: Seq<FileEntry>, k: int)
    requires
        0 <= k <= imps.len(),
    ensures
        packages_of(imps.take(k), fa).len() <= packages_of(imps, fa).len(),
    decreases imps.len() - k,
{
    if k < imps.len() {
        lemma_packages_prefix(imps.drop_last(), fa, k);
        assert(imps.drop_last().take(k) =~= imps.take(k));
    } else {
        assert(imps.take(k) =~= imps);
    }
}

proof fn lemma_all_packages_prefix(fa: Seq<FileEntry>, k: int)
    requires
        0 <= k <= fa.len(),
    ensures
        all_packages(fa.take(k), fa).len() <= all_packages(fa, fa).len(),
{
    lemma_all_packages_prefix_of(fa, fa, k);
}

proof fn lemma_all_packages_prefix_of(files: Seq<FileEntry>, fa: Seq<FileEntry>, k: int)
    requires
        0 <= k <= files.len(),
    ensures
        all_packages(files.take(k), fa).len() <= all_packages(files, fa).len(),
    decreases files.len() - k,
{
    if k < files.len() {
        lemma_all_packages_prefix_of(files.drop_last(), fa, k);
        assert(files.drop_last().take(k) =~= files.take(k));
    } else {
        assert(files.take(k) =~= files);
    }
}

} // verus!

verus! {

// ---------------------------------------------------------------------------
// Modules
// ---------------------------------------------------------------------------

/// Two module pairs that name the same two modules, in either order.
pub open spec fn same_pair(a: (Seq<char>, Seq<char>), b: (Seq<char>, Seq<char>)) -> bool {
    a == b || (a.0 == b.1 && a.1 == b.0)
}

/// The character sequences of a list of string pairs.
pub open spec fn pair_views(v: Seq<(String, String)>) -> Seq<(Seq<char>, Seq<char>)> {
    v.map_values(|p: (String, String)| (p.0@, p.1@))
}

/// Import `k` of node `i` crosses from one top-level module into another.
pub open spec fn crosses(ns: Seq<(String, DepNode)>, i: int, k: int) -> bool {
    let f = first_component(ns[i].0@);
    let t = first_component(ns[i].1.imports_from@[k]@);
    f != t && f.len() > 0 && t.len() > 0
}

/// The module pair of import `k` of node `i`.
pub open spec fn pair_of(ns: Seq<(String, DepNode)>, i: int, k: int) -> (Seq<char>, Seq<char>) {
    (first_component(ns[i].0@), first_component(ns[i].1.imports_from@[k]@))
}

/// Import `k` of node `i` exists and crosses modules.
pub open spec fn crossing(ns: Seq<(String, DepNode)>, i: int, k: int) -> bool {
    0 <= i < ns.len() && 0 <= k < ns[i].1.imports_from@.len() && crosses(ns, i, k)
}

/// Some crossing import has the module pair `p`.
pub open spec fn witnessed(ns: Seq<(String, DepNode)>, p: (Seq<char>, Seq<char>)) -> bool {
    exists|i: int, k: int| crossing(ns, i, k) && #[trigger] pair_of(ns, i, k) == p
}

/// Some entry of `r` names the modules of `p`.
pub open spec fn covered(r: Seq<(Seq<char>, Seq<char>)>, p: (Seq<char>, Seq<char>)) -> bool {
    exists|q: int| 0 <= q < r.len() && same_pair(r[q], p)
}

/// No two entries of `r` name the same two modules.
pub open spec fn pairs_unique(r: Seq<(Seq<char>, Seq<char>)>) -> bool {
    forall|a: int, b: int| 0 <= a < b < r.len() ==> !same_pair(r[a], r[b])
}

/// Every crossing import before import `k` of node `i` is covered by `r`.
pub open spec fn covered_before(
    ns: Seq<(String, DepNode)>,
    r: Seq<(Seq<char>, Seq<char>)>,
    i: int,
    k: int,
) -> bool {
    forall|i2: int, k2: int|
        (i2 < i || (i2 == i && k2 < k)) && crossing(ns, i2, k2) ==> covered(
            r,
            #[trigger] pair_of(ns, i2, k2),
        )
}

/// `r` lists each pair of distinct modules linked by an import exactly once,
/// in the direction of the first such import.
pub open spec fn cross_deps_of(ns: Seq<(String, DepNode)>, r: Seq<(Seq<char>, Seq<char>)>) -> bool {
    &&& forall|q: int| 0 <= q < r.len() ==> witnessed(ns, #[trigger] r[q])
    &&& covered_before(ns, r, ns.len() as int, 0)
    &&& pairs_unique(r)
}

proof fn lemma_covered_push(r: Seq<(Seq<char>, Seq<char>)>, x: (Seq<char>, Seq<char>), p: (Seq<char>, Seq<char>))
    requires
        covered(r, p),
    ensures
        covered(r.push(x), p),
{
    let q = choose|q: int| 0 <= q < r.len() && same_pair(r[q], p);
    assert(r.push(x)[q] == r[q]);
}

fn find_pair(r: &Vec<(String, String)>, f: &[char], t: &[char]) -> (found: bool)
    ensures
        found == covered(pair_views(r@), (f@, t@)),
{
    let n = r.len();
    for q in 0..n
        invariant
            n == r@.len(),
            forall|j: int| 0 <= j < q ==> !same_pair(pair_views(r@)[j], (f@, t@)),
    {
        let a = chars_of(r[q].0.as_str());
        let b = chars_of(r[q].1.as_str());
        assert(pair_views(r@)[q as int] == (a@, b@));
        if (crate::text::eq_chars(a.as_slice(), f) && crate::text::eq_chars(b.as_slice(), t)) || (
        crate::text::eq_chars(a.as_slice(), t) && crate::text::eq_chars(b.as_slice(), f)) {
            return true;
        }
    }
    false
}

/// Pairs of top-level modules where one imports from the other.
fn cross_module(ns: &Vec<(String, DepNode)>) -> (r: Vec<(String, String)>)
    ensures
        cross_deps_of(ns@, pair_views(r@)),
{
    let n = ns.len();
    let mut r: Vec<(String, String)> = Vec::new();
    for i in 0..n
        invariant
            n == ns@.len(),
            forall|q: int| 0 <= q < r@.len() ==> witnessed(ns@, #[trigger] pair_views(r@)[q]),
            covered_before(ns@, pair_views(r@), i as int, 0),
            pairs_unique(pair_views(r@)),
    {
        let path = chars_of(ns[i].0.as_str());
        let from_mod = first_path_component(path.as_slice());
        let deps = chars_of_all(&ns[i].1.imports_from);
        let m = deps.len();
        assert(views(deps@).len() == m);
        for k in 0..m
            invariant
                n == ns@.len(),
                i < n,
                m == deps@.len(),
                m == ns@[i as int].1.imports_from@.len(),
                views(deps@) == strs(ns@[i as int].1.imports_from@),
                from_mod@ == first_component(ns@[i as int].0@),
                forall|q: int| 0 <= q < r@.len() ==> witnessed(ns@, #[trigger] pair_views(r@)[q]),
                covered_before(ns@, pair_views(r@), i as int, k as int),
                pairs_unique(pair_views(r@)),
        {
            assert(views(deps@)[k as int] == deps@[k as int]@);
            assert(strs(ns@[i as int].1.imports_from@)[k as int] == ns@[i as int].1.imports_from@[k as int]@);
            let to_mod = first_path_component(deps[k].as_slice());
            let ghost pr = pair_of(ns@, i as int, k as int);
            assert(pr == (from_mod@, to_mod@));
            let ghost old_r = pair_views(r@);
            if !crate::text::eq_chars(from_mod.as_slice(), to_mod.as_slice()) && from_mod.len() > 0
                && to_mod.len() > 0 {
                assert(crossing(ns@, i as int, k as int));
                if !find_pair(&r, from_mod.as_slice(), to_mod.as_slice()) {
                    r.push((string_of(from_mod.as_slice()), string_of(to_mod.as_slice())));
                    assert(pair_views(r@) =~= old_r.push(pr));
                    assert forall|q: int| 0 <= q < r@.len() implies witnessed(
                        ns@,
                        #[trigger] pair_views(r@)[q],
                    ) by {
                        if q < old_r.len() {
                            assert(pair_views(r@)[q] == old_r[q]);
                        } else {
                            assert(pair_views(r@)[q] == pair_of(ns@, i as int, k as int));
                        }
                    }
                    assert forall|a: int, b: int|
                        0 <= a < b < r@.len() implies !same_pair(
                        pair_views(r@)[a],
                        pair_views(r@)[b],
                    ) by {
                        assert(pair_views(r@)[a] == old_r[a]);
                        if b == old_r.len() {
                            assert(!same_pair(old_r[a], pr));
                        } else {
                            assert(pair_views(r@)[b] == old_r[b]);
                        }
                    }
                    assert forall|i2: int, k2: int|
                        (i2 < i || (i2 == i && k2 < k + 1)) && crossing(ns@, i2, k2) implies covered(
                        pair_views(r@),
                        #[trigger] pair_of(ns@, i2, k2),
                    ) by {
                        if i2 == i && k2 == k {
                            assert(same_pair(pair_views(r@)[old_r.len() as int], pr));
                        } else {
                            lemma_covered_push(old_r, pr, pair_of(ns@, i2, k2));
                        }
                    }
                } else {
                    assert forall|i2: int, k2: int|
                        (i2 < i || (i2 == i && k2 < k + 1)) && crossing(ns@, i2, k2) implies covered(
                        pair_views(r@),
                        #[trigger] pair_of(ns@, i2, k2),
                    ) by {}
                }
            } else {
                assert(!crossing(ns@, i as int, k as int));
                assert forall|i2: int, k2: int|
                    (i2 < i || (i2 == i && k2 < k + 1)) && crossing(ns@, i2, k2) implies covered(
                    pair_views(r@),
                    #[trigger] pair_of(ns@, i2, k2),
                ) by {
                    if i2 == i && k2 == k {
                    }
                }
            }
        }
        assert forall|i2: int, k2: int|
            (i2 < i + 1 || (i2 == i + 1 && k2 < 0)) && crossing(ns@, i2, k2) implies covered(
            pair_views(r@),
            #[trigger] pair_of(ns@, i2, k2),
        ) by {
            if i2 == i {
                assert(k2 < m);
            }
        }
    }
    r
}

/// Where a file belongs as a module: the first component of its path, when
/// the path has more than one.
pub open spec fn module_of(p: Seq<char>) -> Option<Seq<char>> {
    let m = first_component(p);
    if m.len() == 0 || m == p {
        None
    } else {
        Some(m)
    }
}

/// For module `m` over the first `upto` nodes: its files, connections,
/// imports and exports.
pub open spec fn module_totals(ns: Seq<(String, DepNode)>, upto: int, m: Seq<char>) -> (
    nat,
    nat,
    nat,
    nat,
)
    decreases upto,
{
    if upto <= 0 {
        (0, 0, 0, 0)
    } else {
        let r = module_totals(ns, upto - 1, m);
        let e = ns[upto - 1];
        if module_of(e.0@) == Some(m) {
            let i = e.1.imported_by@.len();
            let o = e.1.imports_from@.len();
            (r.0 + 1, r.1 + i + o, r.2 + o, r.3 + i)
        } else {
            r
        }
    }
}

/// No module total exceeds what a `u32` holds.
pub open spec fn totals_fit(ns: Seq<(String, DepNode)>) -> bool {
    forall|m: Seq<char>|
        {
            let t = #[trigger] module_totals(ns, ns.len() as int, m);
            t.0 <= 0xFFFF_FFFF && t.1 <= 0xFFFF_FFFF && t.2 <= 0xFFFF_FFFF && t.3 <= 0xFFFF_FFFF
        }
}

/// The module names of the entries, in order.
pub open spec fn module_keys(r: Seq<(String, ModuleInfo)>) -> Seq<Seq<char>> {
    r.map_values(|e: (String, ModuleInfo)| e.0@)
}

/// The module entries in `r` are the modules of the nodes, each once, with
/// its totals.
pub open spec fn modules_of(ns: Seq<(String, DepNode)>, upto: int, r: Seq<(String, ModuleInfo)>) -> bool {
    &&& module_keys(r).no_duplicates()
    &&& forall|m: Seq<char>|
        #[trigger] module_keys(r).contains(m) <==> exists|j: int|
            0 <= j < upto && #[trigger] module_of(ns[j].0@) == Some(m)
    &&& forall|q: int|
        0 <= q < r.len() ==> {
            let t = module_totals(ns, upto, (#[trigger] r[q]).0@);
            &&& r[q].1.files == t.0
            &&& r[q].1.connections == t.1
            &&& r[q].1.imports == t.2
            &&& r[q].1.exports == t.3
        }
}

proof fn lemma_totals_monotone(ns: Seq<(String, DepNode)>, a: int, b: int, m: Seq<char>)
    requires
        0 <= a <= b <= ns.len(),
    ensures
        module_totals(ns, a, m).0 <= module_totals(ns, b, m).0,
        module_totals(ns, a, m).1 <= module_totals(ns, b, m).1,
        module_totals(ns, a, m).2 <= module_totals(ns, b, m).2,
        module_totals(ns, a, m).3 <= module_totals(ns, b, m).3,
    decreases b - a,
{
    if a < b {
        lemma_totals_monotone(ns, a, b - 1, m);
    }
}

proof fn lemma_totals_absent(ns: Seq<(String, DepNode)>, upto: int, m: Seq<char>)
    requires
        0 <= upto <= ns.len(),
        forall|j: int| 0 <= j < upto ==> module_of(#[trigger] ns[j].0@) != Some(m),
    ensures
        module_totals(ns, upto, m) == (0nat, 0nat, 0nat, 0nat),
    decreases upto,
{
    if upto > 0 {
        lemma_totals_absent(ns, upto - 1, m);
    }
}

fn module_of_exec(path: &[char]) -> (r: Option<Vec<char>>)
    ensures
        match r {
            Some(m) => module_of(path@) == Some(m@),
            None => module_of(path@) is None,
        },
{
    let m = first_path_component(path);
    if m.len() == 0 || crate::text::eq_chars(m.as_slice(), path) {
        None
    } else {
        Some(m)
    }
}

/// Files grouped by their top-level directory, with the group's totals.
fn group_modules(ns: &Vec<(String, DepNode)>) -> (r: Vec<(String, ModuleInfo)>)
    requires
        totals_fit(ns@),
    ensures
        modules_of(ns@, ns@.len() as int, r@),
{
    let n = ns.len();
    let mut r: Vec<(String, ModuleInfo)> = Vec::new();
    for i in 0..n
        invariant
            n == ns@.len(),
            totals_fit(ns@),
            modules_of(ns@, i as int, r@),
    {
        let ghost keys_before = module_keys(r@);
        let path = chars_of(ns[i].0.as_str());
        match module_of_exec(path.as_slice()) {
            None => {
                assert forall|q: int| 0 <= q < r@.len() implies module_totals(ns@, i + 1, r@[q].0@)
                    == module_totals(ns@, i as int, r@[q].0@) by {}
                assert forall|m: Seq<char>|
                    module_keys(r@).contains(m) <==> exists|j: int|
                        0 <= j < i + 1 && #[trigger] module_of(ns@[j].0@) == Some(m) by {
                    if exists|j: int| 0 <= j < i + 1 && #[trigger] module_of(ns@[j].0@) == Some(m) {
                        let j = choose|j: int| 0 <= j < i + 1 && #[trigger] module_of(ns@[j].0@) == Some(m);
                        assert(j != i);
                    }
                }
            },
            Some(m) => {
                let in_len = ns[i].1.imported_by.len();
                let out_len = ns[i].1.imports_from.len();
                let mut found: Option<usize> = None;
                let nr = r.len();
                for q in 0..nr
                    invariant
                        nr == r@.len(),
                        found is None ==> forall|j: int| 0 <= j < q ==> r@[j].0@ != m@,
                        found matches Some(f) ==> f < nr && r@[f as int].0@ == m@,
                {
                    if found.is_none() {
                        let kc = chars_of(r[q].0.as_str());
                        if crate::text::eq_chars(kc.as_slice(), m.as_slice()) {
                            found = Some(q);
                        }
                    }
                }
                let ghost t1 = module_totals(ns@, i + 1, m@);
                proof {
                    lemma_totals_monotone(ns@, i + 1, n as int, m@);
                    assert(totals_fit(ns@));
                    let tn = module_totals(ns@, n as int, m@);
                    assert(tn.0 <= 0xFFFF_FFFF && tn.1 <= 0xFFFF_FFFF && tn.2 <= 0xFFFF_FFFF && tn.3 <= 0xFFFF_FFFF);
                }
                let ghost old_r = r@;
                match found {
                    Some(f) => {
                        let info = &r[f].1;
                        let files = info.files + 1;
                        let connections = info.connections + in_len as u32 + out_len as u32;
                        let imports = info.imports + out_len as u32;
                        let exports = info.exports + in_len as u32;
                        r[f].1 = ModuleInfo { files, connections, imports, exports };
                        proof {
                            assert(r@ =~= old_r.update(f as int, (old_r[f as int].0, r@[f as int].1)));
                            assert forall|q: int| 0 <= q < r@.len() && q != f implies r@[q].0@ != m@ by {
                                assert(keys_before[q] != keys_before[f as int]);
                            }
                            assert(module_keys(r@) =~= keys_before);
                        }
                    },
                    None => {
                        proof {
                            assert(!keys_before.contains(m@)) by {
                                if keys_before.contains(m@) {
                                    let q = choose|q: int| 0 <= q < keys_before.len() && keys_before[q] == m@;
                                    assert(old_r[q].0@ == m@);
                                }
                            }
                            lemma_totals_absent(ns@, i as int, m@);
                        }
                        r.push((string_of(m.as_slice()), ModuleInfo {
                            files: 1,
                            connections: in_len as u32 + out_len as u32,
                            imports: out_len as u32,
                            exports: in_len as u32,
                        }));
                        proof {
                            assert(module_keys(r@) =~= keys_before.push(m@));
                        }
                    },
                }
                proof {
                    let keys_after = module_keys(r@);
                    assert forall|q: int| 0 <= q < r@.len() && r@[q].0@ != m@ implies module_totals(ns@, i + 1, r@[q].0@)
                        == module_totals(ns@, i as int, r@[q].0@) by {}
                    assert forall|m2: Seq<char>|
                        keys_after.contains(m2) <==> exists|j: int|
                            0 <= j < i + 1 && #[trigger] module_of(ns@[j].0@) == Some(m2) by {
                        if keys_after.contains(m2) && m2 != m@ {
                            let q = choose|q: int| 0 <= q < keys_after.len() && keys_after[q] == m2;
                            assert(keys_before[q] == m2);
                        }
                        if keys_before.contains(m2) {
                            let q = choose|q: int| 0 <= q < keys_before.len() && keys_before[q] == m2;
                            assert(keys_after[q] == m2);
                        }
                        if m2 == m@ {
                            assert(module_of(ns@[i as int].0@) == Some(m2));
                            match found {
                                Some(f) => { assert(keys_after[f as int] == m2); },
                                None => { assert(keys_after[old_r.len() as int] == m2); },
                            }
                        }
                        if exists|j: int| 0 <= j < i + 1 && #[trigger] module_of(ns@[j].0@) == Some(m2) {
                            if m2 != m@ {
                                let j = choose|j: int| 0 <= j < i + 1 && #[trigger] module_of(ns@[j].0@) == Some(m2);
                                assert(j != i);
                            }
                        }
                    }
                    assert(keys_after.no_duplicates()) by {
                        assert forall|a: int, b: int| 0 <= a < b < keys_after.len() implies keys_after[a] != keys_after[b] by {
                            match found {
                                Some(f) => {},
                                None => {
                                    if b == old_r.len() {
                                        assert(keys_before.contains(keys_before[a]));
                                    }
                                },
                            }
                        }
                    }
                }
            },
        }
    }
    r
}

} // verus!

verus! {

/// The totals of module `m` over the first `upto` files, computed from the
/// input: files, import relations in both directions, imports, exports.
pub open spec fn file_module_totals(fa: Seq<FileEntry>, upto: int, m: Seq<char>) -> (
    nat,
    nat,
    nat,
    nat,
)
    decreases upto,
{
    if upto <= 0 {
        (0, 0, 0, 0)
    } else {
        let r = file_module_totals(fa, upto - 1, m);
        if module_of(fa[upto - 1].0@) == Some(m) {
            let i = in_list(fa, upto - 1, fa.len() as int).len();
            let o = out_list(fa, upto - 1, fa.len() as int).len();
            (r.0 + 1, r.1 + i + o, r.2 + o, r.3 + i)
        } else {
            r
        }
    }
}

/// The sizes the graph is built within: fewer than 2^31 files, fewer than
/// 2^32 counted package imports, and module totals that fit a `u32`.
pub open spec fn graph_fits(fa: Seq<FileEntry>) -> bool {
    &&& fa.len() <= 0x7FFF_FFFF
    &&& all_packages(fa, fa).len() < 0xFFFF_FFFF
    &&& forall|m: Seq<char>|
        {
            let t = #[trigger] file_module_totals(fa, fa.len() as int, m);
            t.0 <= 0xFFFF_FFFF && t.1 <= 0xFFFF_FFFF && t.2 <= 0xFFFF_FFFF && t.3 <= 0xFFFF_FFFF
        }
}

proof fn lemma_totals_agree(ns: Seq<(String, DepNode)>, fa: Seq<FileEntry>, upto: int, m: Seq<char>)
    requires
        nodes_match(ns, fa),
        0 <= upto <= fa.len(),
    ensures
        module_totals(ns, upto, m) == file_module_totals(fa, upto, m),
    decreases upto,
{
    if upto > 0 {
        lemma_totals_agree(ns, fa, upto - 1, m);
        assert(node_matches(ns[upto - 1], fa, upto - 1));
        assert(strs(ns[upto - 1].1.imported_by@).len() == ns[upto - 1].1.imported_by@.len());
        assert(strs(ns[upto - 1].1.imports_from@).len() == ns[upto - 1].1.imports_from@.len());
    }
}

/// `g` is the import graph of the files `fa`, as `build_dep_graph` makes it.
pub open spec fn graph_of(g: DepGraph, fa: Seq<FileEntry>) -> bool {
    &&& nodes_match(g.nodes@, fa)
    &&& strs(g.orphans@) == paths_where(g.nodes@, |e: (String, DepNode)| is_orphan(e))
    &&& strs(g.entry_points@) == paths_where(g.nodes@, |e: (String, DepNode)| is_entry_point(e))
    &&& g.coupling@.map_values(|c: (String, (u32, u32))| (c.0@, c.1)) == coupling_of(g.nodes@)
    &&& g.circular@.len() <= 5
    &&& forall|c: int|
        0 <= c < g.circular@.len() ==> simple_cycle(g.nodes@, strs(#[trigger] g.circular@[c]@))
    &&& g.circular@.len() == 0 ==> forall|c: Seq<Seq<char>>| !is_cycle(g.nodes@, c)
    &&& cross_deps_of(g.nodes@, pair_views(g.cross_module_deps@))
    &&& tallies(g.external_imports@, all_packages(fa, fa))
    &&& modules_of(g.nodes@, g.nodes@.len() as int, g.modules@)
}

/// Builds the import graph of the files `file_analysis`: each entry is a
/// file's path, its import specifiers and its exported names.
pub fn build_dep_graph(file_analysis: &Vec<FileEntry>) -> (g: DepGraph)
    requires
        distinct_paths(file_analysis@),
        graph_fits(file_analysis@),
    ensures
        nodes_match(g.nodes@, file_analysis@),
        strs(g.orphans@) == paths_where(g.nodes@, |e: (String, DepNode)| is_orphan(e)),
        strs(g.entry_points@) == paths_where(g.nodes@, |e: (String, DepNode)| is_entry_point(e)),
        g.coupling@.map_values(|c: (String, (u32, u32))| (c.0@, c.1)) == coupling_of(g.nodes@),
        g.circular@.len() <= 5,
        forall|c: int|
            0 <= c < g.circular@.len() ==> simple_cycle(g.nodes@, strs(#[trigger] g.circular@[c]@)),
        g.circular@.len() == 0 ==> forall|c: Seq<Seq<char>>| !is_cycle(g.nodes@, c),
        cross_deps_of(g.nodes@, pair_views(g.cross_module_deps@)),
        tallies(g.external_imports@, all_packages(file_analysis@, file_analysis@)),
        modules_of(g.nodes@, g.nodes@.len() as int, g.modules@),
{
    let nodes = build_nodes(file_analysis);
    proof {
        let fa = file_analysis@;
        assert forall|i: int| 0 <= i < nodes@.len() implies #[trigger] nodes@[i].1.imported_by@.len()
            <= 0x7FFF_FFFF && nodes@[i].1.imports_from@.len() <= 0x7FFF_FFFF by {
            assert(node_matches(nodes@[i], fa, i));
            lemma_in_list_len(fa, i, fa.len() as int);
            lemma_out_list_len(fa, i, fa.len() as int);
            assert(strs(nodes@[i].1.imported_by@).len() == nodes@[i].1.imported_by@.len());
            assert(strs(nodes@[i].1.imports_from@).len() == nodes@[i].1.imports_from@.len());
        }
        assert forall|m: Seq<char>| {
            let t = #[trigger] module_totals(nodes@, nodes@.len() as int, m);
            t.0 <= 0xFFFF_FFFF && t.1 <= 0xFFFF_FFFF && t.2 <= 0xFFFF_FFFF && t.3 <= 0xFFFF_FFFF
        } by {
            lemma_totals_agree(nodes@, fa, fa.len() as int, m);
            assert(file_module_totals(fa, fa.len() as int, m) == file_module_totals(fa, fa.len() as int, m));
        }
    }
    let (orphans, entry_points, coupling) = classify_nodes(&nodes);
    proof {
        let fa = file_analysis@;
        assert(node_paths(nodes@) =~= keys_of(fa)) by {
            assert forall|i: int| 0 <= i < fa.len() implies node_paths(nodes@)[i] == keys_of(fa)[i] by {
                assert(node_matches(nodes@[i], fa, i));
            }
        }
    }
    let circular = detect_circular(&nodes);
    let external_imports = count_external(file_analysis);
    let cross_module_deps = cross_module(&nodes);
    let modules = group_modules(&nodes);
    DepGraph {
        nodes,
        orphans,
        entry_points,
        coupling,
        circular,
        cross_module_deps,
        external_imports,
        modules,
    }
}

} // verus!

verus! {

// ---------------------------------------------------------------------------
// Dead code
// ---------------------------------------------------------------------------

pub struct DeadCode {
    pub orphaned_files: Vec<String>,
    pub unused_exports: Vec<(String, Vec<String>)>,
    pub test_files: Vec<String>,
    pub possibly_dead: Vec<(String, String)>,
}

/// A test file: `.test.` or `.spec.` in its name, or under `/test/` or `/__tests__/`.
pub open spec fn is_test_path(p: Seq<char>) -> bool {
    let f = file_name(p);
    contains_sub(f, ".test."@) || contains_sub(f, ".spec."@) || contains_sub(p, "/test/"@)
        || contains_sub(p, "/__tests__/"@)
}

/// A file that re-exports what it imports: an index, lib or main file that
/// both imports and exports.
pub open spec fn is_reexporter(e: (String, DepNode)) -> bool {
    let f = file_name(e.0@);
    &&& contains_sub(f, "index."@) || contains_sub(f, "lib."@) || contains_sub(f, "main."@)
    &&& e.1.imports_from@.len() > 0
    &&& e.1.exported_names@.len() > 0
}

/// Some re-exporting file imports `p`.
pub open spec fn reexported(ns: Seq<(String, DepNode)>, p: Seq<char>) -> bool {
    exists|i: int|
        0 <= i < ns.len() && is_reexporter(#[trigger] ns[i]) && strs(ns[i].1.imports_from@).contains(p)
}

/// Files that frameworks load by convention: Next.js pages and layouts,
/// Go files, configuration and setup files.
pub open spec fn loaded_by_convention(p: Seq<char>) -> bool {
    let f = file_name(p);
    ||| f == "page.tsx"@ || f == "page.ts"@ || f == "page.jsx"@ || f == "page.js"@
    ||| f == "layout.tsx"@ || f == "layout.ts"@ || f == "loading.tsx"@
    ||| f == "error.tsx"@ || f == "not-found.tsx"@
    ||| contains_sub(p, "/app/"@) || contains_sub(p, "/pages/"@)
    ||| has_suffix(f, ".go"@)
    ||| contains_sub(f, ".config."@) || contains_sub(f, ".setup."@)
    ||| has_prefix(f, "tailwind."@) || has_prefix(f, "postcss."@)
    ||| has_prefix(f, "next.config."@) || has_prefix(f, "vite.config."@)
    ||| has_prefix(f, "tsconfig."@)
}

/// A file that nothing imports, directly or through a re-exporter.
pub open spec fn unreferenced(ns: Seq<(String, DepNode)>, e: (String, DepNode)) -> bool {
    e.1.imported_by@.len() == 0 && !reexported(ns, e.0@)
}

/// A non-test file whose exports nobody uses.
pub open spec fn has_unused_exports(ns: Seq<(String, DepNode)>, e: (String, DepNode)) -> bool {
    &&& !is_test_path(e.0@)
    &&& unreferenced(ns, e)
    &&& e.1.exported_names@.len() > 0
    &&& !is_entry_name(file_name(e.0@))
    &&& !loaded_by_convention(e.0@)
    &&& !contains_sub(crate::text::lowercase(file_name(e.0@)), "config"@)
}

/// A non-test file that neither imports nor is imported.
pub open spec fn is_orphaned(ns: Seq<(String, DepNode)>, e: (String, DepNode)) -> bool {
    &&& !is_test_path(e.0@)
    &&& unreferenced(ns, e)
    &&& e.1.imports_from@.len() == 0
    &&& !is_entry_name(file_name(e.0@))
    &&& !loaded_by_convention(e.0@)
}

/// A non-test leaf that exactly one file imports.
pub open spec fn is_possibly_dead(e: (String, DepNode)) -> bool {
    &&& !is_test_path(e.0@)
    &&& e.1.imported_by@.len() == 1
    &&& e.1.imports_from@.len() == 0
    &&& !is_entry_name(file_name(e.0@))
}

/// Each file with unused exports, with up to three of its exported names.
pub open spec fn unused_exports_of(ns: Seq<(String, DepNode)>, upto: int) -> Seq<(Seq<char>, Seq<Seq<char>>)>
    decreases upto,
{
    if upto <= 0 {
        Seq::empty()
    } else {
        let rest = unused_exports_of(ns, upto - 1);
        let e = ns[upto - 1];
        if has_unused_exports(ns, e) {
            let ex = strs(e.1.exported_names@);
            rest.push((e.0@, if ex.len() <= 3 { ex } else { ex.take(3) }))
        } else {
            rest
        }
    }
}

/// Each possibly dead file with the file name of its one importer.
pub open spec fn possibly_dead_of(ns: Seq<(String, DepNode)>) -> Seq<(Seq<char>, Seq<char>)>
    decreases ns.len(),
{
    if ns.len() == 0 {
        Seq::empty()
    } else {
        let rest = possibly_dead_of(ns.drop_last());
        let e = ns.last();
        if is_possibly_dead(e) {
            rest.push((e.0@, file_name(e.1.imported_by@[0]@)))
        } else {
            rest
        }
    }
}

fn is_test_path_exec(p: &[char]) -> (r: bool)
    ensures
        r == is_test_path(p@),
{
    let f = path_file_name(p);
    contains(f.as_slice(), ".test.") || contains(f.as_slice(), ".spec.") || contains(p, "/test/")
        || contains(p, "/__tests__/")
}

fn loaded_by_convention_exec(p: &[char]) -> (r: bool)
    ensures
        r == loaded_by_convention(p@),
{
    let f = path_file_name(p);
    let fs = f.as_slice();
    let is_page = crate::text::is(fs, "page.tsx") || crate::text::is(fs, "page.ts")
        || crate::text::is(fs, "page.jsx") || crate::text::is(fs, "page.js") || crate::text::is(
        fs,
        "layout.tsx",
    ) || crate::text::is(fs, "layout.ts") || crate::text::is(fs, "loading.tsx")
        || crate::text::is(fs, "error.tsx") || crate::text::is(fs, "not-found.tsx") || contains(
        p,
        "/app/",
    ) || contains(p, "/pages/");
    let is_go = crate::text::ends_with(fs, ".go");
    let is_config = contains(fs, ".config.") || contains(fs, ".setup.") || starts_with(
        fs,
        "tailwind.",
    ) || starts_with(fs, "postcss.") || starts_with(fs, "next.config.") || starts_with(
        fs,
        "vite.config.",
    ) || starts_with(fs, "tsconfig.");
    is_page || is_go || is_config
}

proof fn lemma_concat_contains(a: Seq<Seq<char>>, b: Seq<Seq<char>>, p: Seq<char>)
    ensures
        (a + b).contains(p) <==> (a.contains(p) || b.contains(p)),
{
    if (a + b).contains(p) {
        let q = choose|q: int| 0 <= q < (a + b).len() && (a + b)[q] == p;
        if q < a.len() {
            assert(a[q] == p);
        } else {
            assert(b[q - a.len()] == p);
        }
    }
    if a.contains(p) {
        let q = choose|q: int| 0 <= q < a.len() && a[q] == p;
        assert((a + b)[q] == p);
    }
    if b.contains(p) {
        let q = choose|q: int| 0 <= q < b.len() && b[q] == p;
        assert((a + b)[a.len() + q] == p);
    }
}

/// Some re-exporting file among the first `upto` imports `p`.
pub open spec fn reexported_upto(ns: Seq<(String, DepNode)>, upto: int, p: Seq<char>) -> bool {
    exists|j: int|
        0 <= j < upto && is_reexporter(#[trigger] ns[j]) && strs(ns[j].1.imports_from@).contains(p)
}

fn reexport_targets(ns: &Vec<(String, DepNode)>) -> (t: Vec<Vec<char>>)
    ensures
        forall|p: Seq<char>| views(t@).contains(p) <==> reexported(ns@, p),
{
    let n = ns.len();
    let mut t: Vec<Vec<char>> = Vec::new();
    for i in 0..n
        invariant
            n == ns@.len(),
            forall|p: Seq<char>| #[trigger] views(t@).contains(p) <==> reexported_upto(ns@, i as int, p),
    {
        let path = chars_of(ns[i].0.as_str());
        let f = path_file_name(path.as_slice());
        let fs = f.as_slice();
        let ghost before = views(t@);
        assert(forall|p: Seq<char>| before.contains(p) <==> reexported_upto(ns@, i as int, p));
        if (contains(fs, "index.") || contains(fs, "lib.") || contains(fs, "main."))
            && ns[i].1.imports_from.len() > 0 && ns[i].1.exported_names.len() > 0 {
            assert(is_reexporter(ns@[i as int]));
            let deps = chars_of_all(&ns[i].1.imports_from);
            let m = deps.len();
            for k in 0..m
                invariant
                    m == deps@.len(),
                    views(t@) == before + views(deps@).take(k as int),
            {
                let ghost old_t = views(t@);
                let d = slice_of(deps[k].as_slice(), 0, deps[k].len());
                assert(d@ =~= deps@[k as int]@);
                t.push(d);
                assert(views(t@) =~= old_t.push(deps@[k as int]@));
                assert(views(deps@).take(k + 1) =~= views(deps@).take(k as int).push(deps@[k as int]@));
                assert(views(t@) =~= before + views(deps@).take(k + 1));
            }
            assert(views(deps@).take(m as int) =~= views(deps@));
            assert forall|p: Seq<char>| #[trigger] views(t@).contains(p) <==> reexported_upto(ns@, i + 1, p) by {
                lemma_concat_contains(before, views(deps@), p);
                assert(before.contains(p) <==> reexported_upto(ns@, i as int, p));
                if reexported_upto(ns@, i + 1, p) && !reexported_upto(ns@, i as int, p) {
                    let j = choose|j: int|
                        0 <= j < i + 1 && is_reexporter(#[trigger] ns@[j]) && strs(ns@[j].1.imports_from@).contains(p);
                    assert(j == i);
                }
                if views(deps@).contains(p) {
                    assert(is_reexporter(ns@[i as int]) && strs(ns@[i as int].1.imports_from@).contains(p));
                }
                if reexported_upto(ns@, i as int, p) {
                    let j = choose|j: int|
                        0 <= j < i && is_reexporter(#[trigger] ns@[j]) && strs(ns@[j].1.imports_from@).contains(p);
                    assert(0 <= j < i + 1);
                }
            }
        } else {
            assert(!is_reexporter(ns@[i as int]));
            assert forall|p: Seq<char>| #[trigger] views(t@).contains(p) <==> reexported_upto(ns@, i + 1, p) by {
                assert(before.contains(p) <==> reexported_upto(ns@, i as int, p));
                if reexported_upto(ns@, i + 1, p) {
                    let j = choose|j: int|
                        0 <= j < i + 1 && is_reexporter(#[trigger] ns@[j]) && strs(ns@[j].1.imports_from@).contains(p);
                    assert(j != i);
                }
                if reexported_upto(ns@, i as int, p) {
                    let j = choose|j: int|
                        0 <= j < i && is_reexporter(#[trigger] ns@[j]) && strs(ns@[j].1.imports_from@).contains(p);
                    assert(0 <= j < i + 1);
                }
            }
        }
    }
    t
}

} // verus!

verus! {

/// The character sequences of `(path, names)` entries.
pub open spec fn export_views(v: Seq<(String, Vec<String>)>) -> Seq<(Seq<char>, Seq<Seq<char>>)> {
    v.map_values(|e: (String, Vec<String>)| (e.0@, strs(e.1@)))
}

/// The character sequences of `(path, name)` entries.
pub open spec fn named_views(v: Seq<(String, String)>) -> Seq<(Seq<char>, Seq<char>)> {
    v.map_values(|e: (String, String)| (e.0@, e.1@))
}

fn first_names(v: &Vec<String>, n: usize) -> (r: Vec<String>)
    ensures
        strs(r@) == if v@.len() <= n {
            strs(v@)
        } else {
            strs(v@).take(n as int)
        },
{
    let m = if v.len() <= n {
        v.len()
    } else {
        n
    };
    let mut r: Vec<String> = Vec::new();
    for i in 0..m
        invariant
            m <= v@.len(),
            strs(r@) == strs(v@).take(i as int),
    {
        let s = v[i].clone();
        assert(s@ == v@[i as int]@);
        let ghost old_r = strs(r@);
        r.push(s);
        assert(strs(r@) =~= old_r.push(v@[i as int]@));
        assert(strs(v@).take(i + 1) =~= strs(v@).take(i as int).push(v@[i as int]@));
    }
    if v.len() <= n {
        assert(strs(v@).take(m as int) =~= strs(v@));
    }
    r
}

/// `dead` is what `detect_dead_code` finds in `graph`.
pub open spec fn dead_code_of(dead: DeadCode, graph: DepGraph) -> bool {
    &&& strs(dead.test_files@) == paths_where(graph.nodes@, |e: (String, DepNode)| is_test_path(e.0@))
    &&& strs(dead.orphaned_files@) == paths_where(
        graph.nodes@,
        |e: (String, DepNode)| is_orphaned(graph.nodes@, e),
    )
    &&& export_views(dead.unused_exports@) == unused_exports_of(graph.nodes@, graph.nodes@.len() as int)
    &&& named_views(dead.possibly_dead@) == possibly_dead_of(graph.nodes@)
}

/// Files that look unused: orphaned files, files whose exports nobody
/// imports, test files, and leaves that exactly one file imports.
pub fn detect_dead_code(graph: &DepGraph) -> (dead: DeadCode)
    ensures
        strs(dead.test_files@) == paths_where(graph.nodes@, |e: (String, DepNode)| is_test_path(e.0@)),
        strs(dead.orphaned_files@) == paths_where(
            graph.nodes@,
            |e: (String, DepNode)| is_orphaned(graph.nodes@, e),
        ),
        export_views(dead.unused_exports@) == unused_exports_of(graph.nodes@, graph.nodes@.len() as int),
        named_views(dead.possibly_dead@) == possibly_dead_of(graph.nodes@),
{
    let ns = &graph.nodes;
    let targets = reexport_targets(ns);
    let n = ns.len();
    let mut tests: Vec<String> = Vec::new();
    let mut orphaned: Vec<String> = Vec::new();
    let mut unused: Vec<(String, Vec<String>)> = Vec::new();
    let mut possibly: Vec<(String, String)> = Vec::new();
    let ghost pt = |e: (String, DepNode)| is_test_path(e.0@);
    let ghost po = |e: (String, DepNode)| is_orphaned(ns@, e);
    for i in 0..n
        invariant
            n == ns@.len(),
            forall|p: Seq<char>| views(targets@).contains(p) <==> reexported(ns@, p),
            pt == (|e: (String, DepNode)| is_test_path(e.0@)),
            po == (|e: (String, DepNode)| is_orphaned(ns@, e)),
            strs(tests@) == paths_where(ns@.take(i as int), pt),
            strs(orphaned@) == paths_where(ns@.take(i as int), po),
            export_views(unused@) == unused_exports_of(ns@, i as int),
            named_views(possibly@) == possibly_dead_of(ns@.take(i as int)),
    {
        let ghost pre = ns@.take(i as int);
        assert(ns@.take(i + 1).drop_last() =~= pre);
        assert(ns@.take(i + 1).last() == ns@[i as int]);
        let e = &ns[i];
        let path = chars_of(e.0.as_str());
        let ps = path.as_slice();
        let fname = path_file_name(ps);
        let fs = fname.as_slice();
        let is_test = is_test_path_exec(ps);
        let entry = is_entry_file(fs);
        if is_test {
            let ghost old_t = strs(tests@);
            tests.push(e.0.clone());
            assert(strs(tests@) =~= old_t.push(e.0@));
        } else {
            let skip = loaded_by_convention_exec(ps);
            let reexp = match index_of(&targets, ps) {
                Some(j) => {
                    assert(views(targets@)[j as int] == path@);
                    true
                },
                None => false,
            };
            let has_importers = e.1.imported_by.len() > 0 || reexp;
            if !has_importers && e.1.exported_names.len() > 0 && !entry && !skip {
                let lower = crate::text::to_lower(fs);
                if !contains(lower.as_slice(), "config") {
                    let ghost old_u = export_views(unused@);
                    let names = first_names(&e.1.exported_names, 3);
                    unused.push((e.0.clone(), names));
                    assert(export_views(unused@) =~= old_u.push(
                        (e.0@, if strs(e.1.exported_names@).len() <= 3 {
                            strs(e.1.exported_names@)
                        } else {
                            strs(e.1.exported_names@).take(3)
                        }),
                    ));
                }
            }
            if !has_importers && e.1.imports_from.len() == 0 && !entry && !skip {
                let ghost old_o = strs(orphaned@);
                orphaned.push(e.0.clone());
                assert(strs(orphaned@) =~= old_o.push(e.0@));
            }
        }
        if !is_test && e.1.imported_by.len() == 1 && e.1.imports_from.len() == 0 && !entry {
            let importer = chars_of(e.1.imported_by[0].as_str());
            let importer_name = path_file_name(importer.as_slice());
            let ghost old_p = named_views(possibly@);
            possibly.push((e.0.clone(), string_of(importer_name.as_slice())));
            assert(named_views(possibly@) =~= old_p.push((e.0@, file_name(e.1.imported_by@[0]@))));
        }
    }
    assert(ns@.take(n as int) =~= ns@);
    DeadCode {
        orphaned_files: orphaned,
        unused_exports: unused,
        test_files: tests,
        possibly_dead: possibly,
    }
}

} // verus!

verus! {

proof fn lemma_out_list_contains(fa: Seq<FileEntry>, i: int, upto: int, j: int)
    requires
        distinct_paths(fa),
        0 <= upto <= fa.len(),
        0 <= j < fa.len(),
    ensures
        out_list(fa, i, upto).contains(keys_of(fa)[j]) <==> (j < upto && is_edge(fa, i, j)),
    decreases upto,
{
    if upto > 0 {
        lemma_out_list_contains(fa, i, upto - 1, j);
        let prev = out_list(fa, i, upto - 1);
        if is_edge(fa, i, upto - 1) {
            let cur = prev.push(keys_of(fa)[upto - 1]);
            if cur.contains(keys_of(fa)[j]) && !prev.contains(keys_of(fa)[j]) {
                let q = choose|q: int| 0 <= q < cur.len() && cur[q] == keys_of(fa)[j];
                assert(q == prev.len());
                assert(keys_of(fa)[upto - 1] == keys_of(fa)[j]);
            }
            if prev.contains(keys_of(fa)[j]) {
                let q = choose|q: int| 0 <= q < prev.len() && prev[q] == keys_of(fa)[j];
                assert(cur[q] == keys_of(fa)[j]);
            }
            if j == upto - 1 {
                assert(cur[prev.len() as int] == keys_of(fa)[j]);
            }
        }
    }
}

proof fn lemma_in_list_contains(fa: Seq<FileEntry>, j: int, upto: int, i: int)
    requires
        distinct_paths(fa),
        0 <= upto <= fa.len(),
        0 <= i < fa.len(),
    ensures
        in_list(fa, j, upto).contains(keys_of(fa)[i]) <==> (i < upto && is_edge(fa, i, j)),
    decreases upto,
{
    if upto > 0 {
        lemma_in_list_contains(fa, j, upto - 1, i);
        let prev = in_list(fa, j, upto - 1);
        if is_edge(fa, upto - 1, j) {
            let cur = prev.push(keys_of(fa)[upto - 1]);
            if cur.contains(keys_of(fa)[i]) && !prev.contains(keys_of(fa)[i]) {
                let q = choose|q: int| 0 <= q < cur.len() && cur[q] == keys_of(fa)[i];
                assert(q == prev.len());
                assert(keys_of(fa)[upto - 1] == keys_of(fa)[i]);
            }
            if prev.contains(keys_of(fa)[i]) {
                let q = choose|q: int| 0 <= q < prev.len() && prev[q] == keys_of(fa)[i];
                assert(cur[q] == keys_of(fa)[i]);
            }
            if i == upto - 1 {
                assert(cur[prev.len() as int] == keys_of(fa)[i]);
            }
        }
    }
}

/// The two directions of the graph agree: file `j` is among the files that
/// file `i` imports from exactly when file `i` is among the files that
/// import file `j`, and both hold exactly when one of the specifiers of
/// file `i` resolves to file `j`.
pub proof fn lemma_import_symmetry(fa: Seq<FileEntry>, ns: Seq<(String, DepNode)>, i: int, j: int)
    requires
        distinct_paths(fa),
        nodes_match(ns, fa),
        0 <= i < fa.len(),
        0 <= j < fa.len(),
    ensures
        strs(ns[i].1.imports_from@).contains(fa[j].0@) <==> is_edge(fa, i, j),
        strs(ns[j].1.imported_by@).contains(fa[i].0@) <==> is_edge(fa, i, j),
{
    assert(node_matches(ns[i], fa, i));
    assert(node_matches(ns[j], fa, j));
    assert(keys_of(fa)[j] == fa[j].0@);
    assert(keys_of(fa)[i] == fa[i].0@);
    lemma_out_list_contains(fa, i, fa.len() as int, j);
    lemma_in_list_contains(fa, j, fa.len() as int, i);
}

proof fn lemma_no_suffix_across_sep(d: Seq<char>, x: Seq<char>, e: Seq<char>)
    requires
        forall|t: int| 0 <= t < x.len() ==> x[t] != '/',
        forall|t: int| 0 <= t < e.len() ==> e[t] != '/',
        !has_suffix(x, e),
    ensures
        !has_suffix(d + seq!['/'] + x, e),
{
    let s = d + seq!['/'] + x;
    if has_suffix(s, e) {
        if e.len() <= x.len() {
            assert(x.subrange(x.len() - e.len(), x.len() as int) =~= s.subrange(
                s.len() - e.len(),
                s.len() as int,
            ));
        } else {
            let t = e.len() - x.len() - 1;
            assert(s.subrange(s.len() - e.len(), s.len() as int)[t] == s[d.len() as int]);
            assert(e[t] == '/');
        }
    }
}

proof fn lemma_strip_suffix_none(s: Seq<char>, suf: Seq<char>)
    requires
        !has_suffix(s, suf),
    ensures
        strip_suffix_all(s, suf) == s,
{
}

/// How a relative import `./x` of a plain name `x` (one path component, not
/// ending in a script extension) written in a file of directory `d` is
/// resolved: the files `d/x`, `d/x.js`, `d/x.ts`, `d/x.jsx`, `d/x.tsx`,
/// `d/x.mjs`, `d/x.cjs`, `d/x/index.js`, `d/x/index.ts`, `d/x/index.jsx` and
/// `d/x/index.tsx` are tried in this order (without the `d/` when the file
/// has no directory), and the first that is one of the files is the one
/// imported: the importer lists it among the files it imports from, and it
/// lists the importer among the files that import it.
pub proof fn lemma_relative_import_tries(
    fa: Seq<FileEntry>,
    ns: Seq<(String, DepNode)>,
    i: int,
    k: int,
    j: int,
    x: Seq<char>,
    base: Seq<char>,
    tries: Seq<Seq<char>>,
    n: int,
)
    requires
        distinct_paths(fa),
        nodes_match(ns, fa),
        0 <= i < fa.len(),
        0 <= j < fa.len(),
        0 <= k < imports_of(fa[i]).len(),
        imports_of(fa[i])[k] == "./"@ + x,
        x.len() > 0,
        forall|t: int| 0 <= t < x.len() ==> x[t] != '/' && x[t] != '\\',
        forall|t: int| 0 <= t < dir_of(fa[i].0@).len() ==> dir_of(fa[i].0@)[t] != '\\',
        !has_suffix(x, ".js"@),
        !has_suffix(x, ".ts"@),
        !has_suffix(x, ".jsx"@),
        !has_suffix(x, ".tsx"@),
        !has_suffix(x, ".mjs"@),
        !has_suffix(x, ".cjs"@),
        base == (if dir_of(fa[i].0@).len() == 0 {
            x
        } else {
            dir_of(fa[i].0@) + "/"@ + x
        }),
        tries == seq![
            base,
            base + ".js"@,
            base + ".ts"@,
            base + ".jsx"@,
            base + ".tsx"@,
            base + ".mjs"@,
            base + ".cjs"@,
            base + "/index.js"@,
            base + "/index.ts"@,
            base + "/index.jsx"@,
            base + "/index.tsx"@,
        ],
        0 <= n < tries.len(),
        fa[j].0@ == tries[n],
        forall|m: int| 0 <= m < n ==> !keys_of(fa).contains(#[trigger] tries[m]),
    ensures
        strs(ns[i].1.imports_from@).contains(fa[j].0@),
        strs(ns[j].1.imported_by@).contains(fa[i].0@),
{
    reveal_strlit("./");
    reveal_strlit("/");
    reveal_strlit(".js");
    reveal_strlit(".ts");
    reveal_strlit(".jsx");
    reveal_strlit(".tsx");
    reveal_strlit(".mjs");
    reveal_strlit(".cjs");
    let d = dir_of(fa[i].0@);
    let imp = "./"@ + x;
    assert("/"@ =~= seq!['/']);
    assert(imp[0] == '.');
    assert(imp.skip(2) =~= x);
    assert(strip_dot_slash(imp) == strip_dot_slash(x));
    assert(!(x.len() >= 2 && x[0] == '.' && x[1] == '/'));
    assert(strip_dot_slash(x) == x);
    let joined = if d.len() == 0 {
        x
    } else {
        d + seq!['/'] + x
    };
    assert(replace_char(joined, '\\', '/') =~= joined);
    assert(joined == base);
    assert(joined_path(imp, d) == base);
    let exts = seq![".js"@, ".ts"@, ".jsx"@, ".tsx"@, ".mjs"@, ".cjs"@];
    assert forall|q: int| 0 <= q < 6 implies !has_suffix(base, #[trigger] exts[q]) by {
        let e = exts[q];
        assert(forall|t: int| 0 <= t < e.len() ==> e[t] != '/');
        if d.len() > 0 {
            lemma_no_suffix_across_sep(d, x, e);
        }
    }
    assert(!has_suffix(base, exts[0]));
    assert(!has_suffix(base, exts[1]));
    assert(!has_suffix(base, exts[2]));
    assert(!has_suffix(base, exts[3]));
    assert(!has_suffix(base, exts[4]));
    assert(!has_suffix(base, exts[5]));
    assert(without_ext(base) == base);
    assert(base.last() == x.last());
    assert(!has_suffix(base, seq!['/'])) by {
        if has_suffix(base, seq!['/']) {
            assert(base.subrange(base.len() - 1, base.len() as int)[0] == base.last());
        }
    }
    assert(strip_suffix_all(base, seq!['/']) == base);
    let c = candidates(joined_path(imp, d));
    assert(c =~= tries);
    let keys = keys_of(fa);
    assert(keys[j] == fa[j].0@);
    lemma_first_key_step(c, keys, n);
    assert(c.skip(n)[0] == c[n]);
    assert(keys.contains(c[n]));
    assert(resolve(imports_of(fa[i])[k], dir_of(fa[i].0@), keys_of(fa)) == Some(keys_of(fa)[j]));
    assert(is_edge(fa, i, j));
    lemma_import_symmetry(fa, ns, i, j);
}

/// A file never imports or is imported by the same file twice.
pub proof fn lemma_relations_distinct(fa: Seq<FileEntry>, ns: Seq<(String, DepNode)>, i: int)
    requires
        distinct_paths(fa),
        nodes_match(ns, fa),
        0 <= i < fa.len(),
    ensures
        strs(ns[i].1.imports_from@).no_duplicates(),
        strs(ns[i].1.imported_by@).no_duplicates(),
{
    assert(node_matches(ns[i], fa, i));
    lemma_out_list_distinct(fa, i, fa.len() as int);
    lemma_in_list_distinct(fa, i, fa.len() as int);
}

proof fn lemma_out_list_distinct(fa: Seq<FileEntry>, i: int, upto: int)
    requires
        distinct_paths(fa),
        0 <= upto <= fa.len(),
    ensures
        out_list(fa, i, upto).no_duplicates(),
        forall|x: Seq<char>| out_list(fa, i, upto).contains(x) ==> exists|j: int| 0 <= j < upto && keys_of(fa)[j] == x,
    decreases upto,
{
    if upto > 0 {
        lemma_out_list_distinct(fa, i, upto - 1);
        let prev = out_list(fa, i, upto - 1);
        if is_edge(fa, i, upto - 1) {
            let cur = prev.push(keys_of(fa)[upto - 1]);
            assert forall|a: int, b: int| 0 <= a < b < cur.len() implies cur[a] != cur[b] by {
                if b == prev.len() {
                    assert(prev.contains(prev[a]));
                    let j = choose|j: int| 0 <= j < upto - 1 && keys_of(fa)[j] == prev[a];
                    assert(keys_of(fa)[j] != keys_of(fa)[upto - 1]);
                }
            }
            assert forall|x: Seq<char>| cur.contains(x) implies exists|j: int| 0 <= j < upto && keys_of(fa)[j] == x by {
                let q = choose|q: int| 0 <= q < cur.len() && cur[q] == x;
                if q < prev.len() {
                    assert(prev.contains(x));
                } else {
                    assert(keys_of(fa)[upto - 1] == x);
                }
            }
        }
    }
}

proof fn lemma_in_list_distinct(fa: Seq<FileEntry>, j: int, upto: int)
    requires
        distinct_paths(fa),
        0 <= upto <= fa.len(),
    ensures
        in_list(fa, j, upto).no_duplicates(),
        forall|x: Seq<char>| in_list(fa, j, upto).contains(x) ==> exists|i: int| 0 <= i < upto && keys_of(fa)[i] == x,
    decreases upto,
{
    if upto > 0 {
        lemma_in_list_distinct(fa, j, upto - 1);
        let prev = in_list(fa, j, upto - 1);
        if is_edge(fa, upto - 1, j) {
            let cur = prev.push(keys_of(fa)[upto - 1]);
            assert forall|a: int, b: int| 0 <= a < b < cur.len() implies cur[a] != cur[b] by {
                if b == prev.len() {
                    assert(prev.contains(prev[a]));
                    let i = choose|i: int| 0 <= i < upto - 1 && keys_of(fa)[i] == prev[a];
                    assert(keys_of(fa)[i] != keys_of(fa)[upto - 1]);
                }
            }
            assert forall|x: Seq<char>| cur.contains(x) implies exists|i: int| 0 <= i < upto && keys_of(fa)[i] == x by {
                let q = choose|q: int| 0 <= q < cur.len() && cur[q] == x;
                if q < prev.len() {
                    assert(prev.contains(x));
                } else {
                    assert(keys_of(fa)[upto - 1] == x);
                }
            }
        }
    }
}

/// A test file is never reported as orphaned, as having unused exports, or
/// as possibly dead.
pub proof fn lemma_tests_not_dead(ns: Seq<(String, DepNode)>, e: (String, DepNode))
    requires
        is_test_path(e.0@),
    ensures
        !is_orphaned(ns, e),
        !has_unused_exports(ns, e),
        !is_possibly_dead(e),
{
}

proof fn lemma_paths_where_member(
    ns: Seq<(String, DepNode)>,
    pred: spec_fn((String, DepNode)) -> bool,
    p: Seq<char>,
)
    requires
        paths_where(ns, pred).contains(p),
    ensures
        exists|i: int| 0 <= i < ns.len() && ns[i].0@ == p && pred(#[trigger] ns[i]),
    decreases ns.len(),
{
    if ns.len() > 0 {
        let rest = paths_where(ns.drop_last(), pred);
        if pred(ns.last()) && p == ns.last().0@ {
            assert(ns[ns.len() - 1] == ns.last());
        } else {
            if pred(ns.last()) {
                let q = choose|q: int| 0 <= q < rest.push(ns.last().0@).len() && rest.push(ns.last().0@)[q] == p;
                assert(rest[q] == p);
            }
            assert(rest.contains(p));
            lemma_paths_where_member(ns.drop_last(), pred, p);
            let i = choose|i: int| 0 <= i < ns.drop_last().len() && ns.drop_last()[i].0@ == p && pred(#[trigger] ns.drop_last()[i]);
            assert(ns[i] == ns.drop_last()[i]);
        }
    }
}

proof fn lemma_unused_member(ns: Seq<(String, DepNode)>, upto: int, q: int)
    requires
        0 <= upto <= ns.len(),
        0 <= q < unused_exports_of(ns, upto).len(),
    ensures
        exists|i: int| 0 <= i < upto && ns[i].0@ == unused_exports_of(ns, upto)[q].0 && has_unused_exports(ns, #[trigger] ns[i]),
    decreases upto,
{
    let rest = unused_exports_of(ns, upto - 1);
    if q < rest.len() {
        lemma_unused_member(ns, upto - 1, q);
    } else {
        assert(has_unused_exports(ns, ns[upto - 1]));
    }
}

/// Files that a framework or tool loads by its own convention are never
/// reported by dead-code detection, neither as orphaned nor as having
/// unused exports: anything under a `/pages/` or `/app/` folder, Next.js
/// page, layout, loading, error and not-found files, Go files, `.config.`
/// and `.setup.` files, and the Tailwind, PostCSS, Next, Vite and TypeScript
/// configuration files.
pub proof fn lemma_convention_files_not_dead(graph: DepGraph, dead: DeadCode, p: Seq<char>)
    requires
        strs(dead.orphaned_files@) == paths_where(
            graph.nodes@,
            |e: (String, DepNode)| is_orphaned(graph.nodes@, e),
        ),
        export_views(dead.unused_exports@) == unused_exports_of(graph.nodes@, graph.nodes@.len() as int),
        ({
            let f = file_name(p);
            ||| contains_sub(p, "/pages/"@) || contains_sub(p, "/app/"@)
            ||| f == "page.tsx"@ || f == "page.ts"@ || f == "page.jsx"@ || f == "page.js"@
            ||| f == "layout.tsx"@ || f == "layout.ts"@ || f == "loading.tsx"@
            ||| f == "error.tsx"@ || f == "not-found.tsx"@
            ||| has_suffix(f, ".go"@)
            ||| contains_sub(f, ".config."@) || contains_sub(f, ".setup."@)
            ||| has_prefix(f, "tailwind."@) || has_prefix(f, "postcss."@)
            ||| has_prefix(f, "next.config."@) || has_prefix(f, "vite.config."@)
            ||| has_prefix(f, "tsconfig."@)
        }),
    ensures
        !strs(dead.orphaned_files@).contains(p),
        forall|q: int| 0 <= q < export_views(dead.unused_exports@).len() ==> (#[trigger] export_views(dead.unused_exports@)[q]).0 != p,
{
    let ns = graph.nodes@;
    assert(loaded_by_convention(p));
    if strs(dead.orphaned_files@).contains(p) {
        lemma_paths_where_member(ns, |e: (String, DepNode)| is_orphaned(ns, e), p);
    }
    assert forall|q: int| 0 <= q < export_views(dead.unused_exports@).len() implies (#[trigger] export_views(dead.unused_exports@)[q]).0 != p by {
        lemma_unused_member(ns, ns.len() as int, q);
    }
}

/// Entry files are never reported by dead-code detection, neither as
/// orphaned nor as having unused exports: files whose name holds `index.`,
/// `main.`, `app.`, `server.`, `client.`, `start.`, `cli.`, `bin.`, `boot.`,
/// `init.`, `entry.` or `lib.`.
pub proof fn lemma_entry_files_not_dead(graph: DepGraph, dead: DeadCode, p: Seq<char>)
    requires
        strs(dead.orphaned_files@) == paths_where(
            graph.nodes@,
            |e: (String, DepNode)| is_orphaned(graph.nodes@, e),
        ),
        export_views(dead.unused_exports@) == unused_exports_of(graph.nodes@, graph.nodes@.len() as int),
        ({
            let f = file_name(p);
            ||| contains_sub(f, "index."@) || contains_sub(f, "main."@) || contains_sub(f, "app."@)
            ||| contains_sub(f, "server."@) || contains_sub(f, "client."@) || contains_sub(f, "start."@)
            ||| contains_sub(f, "cli."@) || contains_sub(f, "bin."@) || contains_sub(f, "boot."@)
            ||| contains_sub(f, "init."@) || contains_sub(f, "entry."@) || contains_sub(f, "lib."@)
        }),
    ensures
        !strs(dead.orphaned_files@).contains(p),
        forall|q: int| 0 <= q < export_views(dead.unused_exports@).len() ==> (#[trigger] export_views(dead.unused_exports@)[q]).0 != p,
{
    let ns = graph.nodes@;
    assert(is_entry_name(file_name(p)));
    if strs(dead.orphaned_files@).contains(p) {
        lemma_paths_where_member(ns, |e: (String, DepNode)| is_orphaned(ns, e), p);
    }
    assert forall|q: int| 0 <= q < export_views(dead.unused_exports@).len() implies (#[trigger] export_views(dead.unused_exports@)[q]).0 != p by {
        lemma_unused_member(ns, ns.len() as int, q);
    }
}

/// Only relative specifiers link files: a file none of whose import
/// specifiers begins with `'.'` imports from no file of the graph.
pub proof fn lemma_packages_make_no_edges(fa: Seq<FileEntry>, ns: Seq<(String, DepNode)>, i: int)
    requires
        distinct_paths(fa),
        nodes_match(ns, fa),
        0 <= i < fa.len(),
        forall|k: int| 0 <= k < imports_of(fa[i]).len() ==> {
            let s = #[trigger] imports_of(fa[i])[k];
            s.len() == 0 || s[0] != '.'
        },
    ensures
        ns[i].1.imports_from@.len() == 0,
{
    assert(node_matches(ns[i], fa, i));
    let out = strs(ns[i].1.imports_from@);
    lemma_out_list_distinct(fa, i, fa.len() as int);
    if out.len() > 0 {
        let x = out[0];
        assert(out.contains(x));
        let j = choose|j: int| 0 <= j < fa.len() && keys_of(fa)[j] == x;
        lemma_out_list_contains(fa, i, fa.len() as int, j);
        assert(is_edge(fa, i, j));
        let k = choose|k: int|
            0 <= k < imports_of(fa[i]).len() && #[trigger] resolve(
                imports_of(fa[i])[k],
                dir_of(fa[i].0@),
                keys_of(fa),
            ) == Some(keys_of(fa)[j]);
        assert(false);
    }
}

/// An orphan node has no import relation in either direction, and is
/// therefore never listed among the coupled nodes or the entry points.
pub proof fn lemma_orphan_isolated(e: (String, DepNode))
    requires
        is_orphan(e),
    ensures
        e.1.imported_by@.len() == 0,
        e.1.imports_from@.len() == 0,
        !is_entry_point(e),
        !(e.1.imported_by@.len() + e.1.imports_from@.len() > 0),
{
}

} // verus!
