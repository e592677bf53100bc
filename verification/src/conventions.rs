//! Coding conventions per language, inferred from the measurements of its
//! files: indentation, quotes, semicolons, function and export style,
//! import style, error handling and file naming.
use vstd::prelude::*;

use crate::analyzer::FileAnalysis;
use crate::text::{
    chars_of, contains, contains_sub, ends_with, first_piece, first_piece_chars, has_char,
    has_prefix, has_suffix, is_upper, last_piece, last_piece_chars, starts_with, string_of, strs,
    views,
};

verus! {

pub struct LanguageConventions {
    pub language: String,
    pub conventions: Vec<String>,
}

// ---------------------------------------------------------------------------
// Totals over a language's files
// ---------------------------------------------------------------------------

pub const INDENT_2: usize = 0;
pub const INDENT_4: usize = 1;
pub const INDENT_TAB: usize = 2;
pub const SINGLE_Q: usize = 3;
pub const DOUBLE_Q: usize = 4;
pub const SEMI: usize = 5;
pub const NO_SEMI: usize = 6;
pub const ARROW: usize = 7;
pub const REGULAR: usize = 8;
pub const DEFAULT_EXP: usize = 9;
pub const NAMED_EXP: usize = 10;

/// Measurement number `k` of a file.
pub open spec fn field(a: FileAnalysis, k: int) -> nat {
    if k == 0 {
        a.indent_2space as nat
    } else if k == 1 {
        a.indent_4space as nat
    } else if k == 2 {
        a.indent_tab as nat
    } else if k == 3 {
        a.single_quote_count as nat
    } else if k == 4 {
        a.double_quote_count as nat
    } else if k == 5 {
        a.semicolon_lines as nat
    } else if k == 6 {
        a.no_semicolon_lines as nat
    } else if k == 7 {
        a.arrow_fn_count as nat
    } else if k == 8 {
        a.regular_fn_count as nat
    } else if k == 9 {
        a.default_export_count as nat
    } else {
        a.named_export_count as nat
    }
}

/// Measurement `k` summed over the files `xs`.
pub open spec fn total(xs: Seq<FileAnalysis>, k: int) -> nat
    decreases xs.len(),
{
    if xs.len() == 0 {
        0
    } else {
        total(xs.drop_last(), k) + field(xs.last(), k)
    }
}

/// An import through a path alias: `@/` or `~/`.
pub open spec fn is_alias_import(p: Seq<char>) -> bool {
    has_prefix(p, "@/"@) || has_prefix(p, "~/"@)
}

/// A relative import: `./` or `../`.
pub open spec fn is_relative_import(p: Seq<char>) -> bool {
    !is_alias_import(p) && (has_prefix(p, "./"@) || has_prefix(p, "../"@))
}

/// The imports of `imps` of kind `k`: 0 for alias imports, 1 for relative.
pub open spec fn import_count(imps: Seq<Seq<char>>, k: int) -> nat
    decreases imps.len(),
{
    if imps.len() == 0 {
        0
    } else {
        import_count(imps.drop_last(), k) + if (k == 0 && is_alias_import(imps.last())) || (k == 1
            && is_relative_import(imps.last())) {
            1nat
        } else {
            0nat
        }
    }
}

pub open spec fn import_total(xs: Seq<FileAnalysis>, k: int) -> nat
    decreases xs.len(),
{
    if xs.len() == 0 {
        0
    } else {
        import_total(xs.drop_last(), k) + import_count(strs(xs.last().import_paths@), k)
    }
}

/// Call patterns of kind `k`: 0 for error checks (`err`), 1 for `.unwrap`,
/// 2 for `.expect`.
pub open spec fn pattern_kind(p: Seq<char>, k: int) -> bool {
    if k == 0 {
        contains_sub(p, "err"@)
    } else if k == 1 {
        has_suffix(p, ".unwrap"@) || contains_sub(p, ".unwrap()"@)
    } else {
        has_suffix(p, ".expect"@) || contains_sub(p, ".expect("@)
    }
}

/// How often calls of kind `k` occur in the patterns `ps`.
pub open spec fn pattern_count(ps: Seq<(String, u32)>, k: int) -> nat
    decreases ps.len(),
{
    if ps.len() == 0 {
        0
    } else {
        pattern_count(ps.drop_last(), k) + if pattern_kind(ps.last().0@, k) {
            ps.last().1 as nat
        } else {
            0nat
        }
    }
}

pub open spec fn pattern_total(xs: Seq<FileAnalysis>, k: int) -> nat
    decreases xs.len(),
{
    if xs.len() == 0 {
        0
    } else {
        pattern_total(xs.drop_last(), k) + pattern_count(xs.last().call_patterns@, k)
    }
}

/// Every total and every sum of totals that the detection adds up fits a `u32`.
pub open spec fn sums_fit(xs: Seq<FileAnalysis>) -> bool {
    &&& forall|k: int| 0 <= k <= 10 ==> #[trigger] total(xs, k) <= 0xFFFF_FFFF
    &&& (total(xs, 0) + total(xs, 1) + total(xs, 2)) <= 0xFFFF_FFFF
    &&& (total(xs, 3) + total(xs, 4)) <= 0xFFFF_FFFF
    &&& (total(xs, 5) + total(xs, 6)) <= 0xFFFF_FFFF
    &&& (total(xs, 7) + total(xs, 8)) <= 0xFFFF_FFFF
    &&& (total(xs, 9) + total(xs, 10)) <= 0xFFFF_FFFF
    &&& (import_total(xs, 0) + import_total(xs, 1)) <= 0xFFFF_FFFF
    &&& (pattern_total(xs, 0)) <= 0xFFFF_FFFF
    &&& (pattern_total(xs, 1) + pattern_total(xs, 2)) <= 0xFFFF_FFFF
}

proof fn lemma_total_prefix(xs: Seq<FileAnalysis>, k: int, i: int)
    requires
        0 <= i <= xs.len(),
    ensures
        total(xs.take(i), k) <= total(xs, k),
    decreases xs.len() - i,
{
    if i < xs.len() {
        lemma_total_prefix(xs.drop_last(), k, i);
        assert(xs.drop_last().take(i) =~= xs.take(i));
    } else {
        assert(xs.take(i) =~= xs);
    }
}

proof fn lemma_import_total_prefix(xs: Seq<FileAnalysis>, k: int, i: int)
    requires
        0 <= i <= xs.len(),
    ensures
        import_total(xs.take(i), k) <= import_total(xs, k),
    decreases xs.len() - i,
{
    if i < xs.len() {
        lemma_import_total_prefix(xs.drop_last(), k, i);
        assert(xs.drop_last().take(i) =~= xs.take(i));
    } else {
        assert(xs.take(i) =~= xs);
    }
}

proof fn lemma_pattern_total_prefix(xs: Seq<FileAnalysis>, k: int, i: int)
    requires
        0 <= i <= xs.len(),
    ensures
        pattern_total(xs.take(i), k) <= pattern_total(xs, k),
    decreases xs.len() - i,
{
    if i < xs.len() {
        lemma_pattern_total_prefix(xs.drop_last(), k, i);
        assert(xs.drop_last().take(i) =~= xs.take(i));
    } else {
        assert(xs.take(i) =~= xs);
    }
}

proof fn lemma_import_count_prefix(imps: Seq<Seq<char>>, k: int, i: int)
    requires
        0 <= i <= imps.len(),
    ensures
        import_count(imps.take(i), k) <= import_count(imps, k),
    decreases imps.len() - i,
{
    if i < imps.len() {
        lemma_import_count_prefix(imps.drop_last(), k, i);
        assert(imps.drop_last().take(i) =~= imps.take(i));
    } else {
        assert(imps.take(i) =~= imps);
    }
}

proof fn lemma_pattern_count_prefix(ps: Seq<(String, u32)>, k: int, i: int)
    requires
        0 <= i <= ps.len(),
    ensures
        pattern_count(ps.take(i), k) <= pattern_count(ps, k),
    decreases ps.len() - i,
{
    if i < ps.len() {
        lemma_pattern_count_prefix(ps.drop_last(), k, i);
        assert(ps.drop_last().take(i) =~= ps.take(i));
    } else {
        assert(ps.take(i) =~= ps);
    }
}

fn field_exec(a: &FileAnalysis, k: usize) -> (r: u32)
    ensures
        r == field(*a, k as int),
{
    if k == 0 {
        a.indent_2space
    } else if k == 1 {
        a.indent_4space
    } else if k == 2 {
        a.indent_tab
    } else if k == 3 {
        a.single_quote_count
    } else if k == 4 {
        a.double_quote_count
    } else if k == 5 {
        a.semicolon_lines
    } else if k == 6 {
        a.no_semicolon_lines
    } else if k == 7 {
        a.arrow_fn_count
    } else if k == 8 {
        a.regular_fn_count
    } else if k == 9 {
        a.default_export_count
    } else {
        a.named_export_count
    }
}

/// The files `fm[idx[0]], fm[idx[1]], ...`.
pub open spec fn select(fm: Seq<(String, FileAnalysis)>, idx: Seq<usize>) -> Seq<FileAnalysis> {
    idx.map_values(|i: usize| fm[i as int].1)
}

/// The paths of the files `fm[idx[0]], fm[idx[1]], ...`.
pub open spec fn select_paths(fm: Seq<(String, FileAnalysis)>, idx: Seq<usize>) -> Seq<Seq<char>> {
    idx.map_values(|i: usize| fm[i as int].0@)
}

pub open spec fn indices_ok(fm: Seq<(String, FileAnalysis)>, idx: Seq<usize>) -> bool {
    forall|j: int| 0 <= j < idx.len() ==> #[trigger] idx[j] < fm.len()
}

fn total_exec(fm: &Vec<(String, FileAnalysis)>, idx: &Vec<usize>, k: usize) -> (r: u32)
    requires
        indices_ok(fm@, idx@),
        (total(select(fm@, idx@), k as int)) <= 0xFFFF_FFFF,
    ensures
        r == total(select(fm@, idx@), k as int),
{
    let ghost xs = select(fm@, idx@);
    let n = idx.len();
    let mut acc: u32 = 0;
    for j in 0..n
        invariant
            n == idx@.len(),
            xs == select(fm@, idx@),
            indices_ok(fm@, idx@),
            (total(xs, k as int)) <= 0xFFFF_FFFF,
            acc == total(xs.take(j as int), k as int),
    {
        assert(xs.take(j + 1).drop_last() =~= xs.take(j as int));
        assert(xs.take(j + 1).last() == fm@[idx@[j as int] as int].1);
        proof {
            lemma_total_prefix(xs, k as int, j + 1);
        }
        let i = idx[j];
        assert(i < fm@.len());
        let v = field_exec(&fm[i].1, k);
        acc = acc + v;
    }
    assert(xs.take(n as int) =~= xs);
    acc
}

fn import_total_exec(fm: &Vec<(String, FileAnalysis)>, idx: &Vec<usize>, k: usize) -> (r: u32)
    requires
        indices_ok(fm@, idx@),
        k <= 1,
        (import_total(select(fm@, idx@), k as int)) <= 0xFFFF_FFFF,
    ensures
        r == import_total(select(fm@, idx@), k as int),
{
    let ghost xs = select(fm@, idx@);
    let n = idx.len();
    let mut acc: u32 = 0;
    for j in 0..n
        invariant
            n == idx@.len(),
            k <= 1,
            xs == select(fm@, idx@),
            indices_ok(fm@, idx@),
            (import_total(xs, k as int)) <= 0xFFFF_FFFF,
            acc == import_total(xs.take(j as int), k as int),
    {
        assert(xs.take(j + 1).drop_last() =~= xs.take(j as int));
        assert(xs.take(j + 1).last() == fm@[idx@[j as int] as int].1);
        proof {
            lemma_import_total_prefix(xs, k as int, j + 1);
        }
        let i = idx[j];
        let imps = crate::text::chars_of_all(&fm[i].1.import_paths);
        let ghost ims = strs(fm@[i as int].1.import_paths@);
        let m = imps.len();
        let base = acc;
        for q in 0..m
            invariant
                m == imps@.len(),
                k <= 1,
                views(imps@) == ims,
                (base + import_count(ims, k as int)) <= 0xFFFF_FFFF,
                acc == base + import_count(ims.take(q as int), k as int),
        {
            assert(ims.take(q + 1).drop_last() =~= ims.take(q as int));
            assert(ims.take(q + 1).last() == imps@[q as int]@);
            proof {
                lemma_import_count_prefix(ims, k as int, q + 1);
            }
            let p = imps[q].as_slice();
            let alias = starts_with(p, "@/") || starts_with(p, "~/");
            let hit = if k == 0 {
                alias
            } else {
                !alias && (starts_with(p, "./") || starts_with(p, "../"))
            };
            if hit {
                acc = acc + 1;
            }
        }
        assert(ims.take(m as int) =~= ims);
    }
    assert(xs.take(n as int) =~= xs);
    acc
}

fn pattern_total_exec(fm: &Vec<(String, FileAnalysis)>, idx: &Vec<usize>, k: usize) -> (r: u32)
    requires
        indices_ok(fm@, idx@),
        k <= 2,
        (pattern_total(select(fm@, idx@), k as int)) <= 0xFFFF_FFFF,
    ensures
        r == pattern_total(select(fm@, idx@), k as int),
{
    let ghost xs = select(fm@, idx@);
    let n = idx.len();
    let mut acc: u32 = 0;
    for j in 0..n
        invariant
            n == idx@.len(),
            k <= 2,
            xs == select(fm@, idx@),
            indices_ok(fm@, idx@),
            (pattern_total(xs, k as int)) <= 0xFFFF_FFFF,
            acc == pattern_total(xs.take(j as int), k as int),
    {
        assert(xs.take(j + 1).drop_last() =~= xs.take(j as int));
        assert(xs.take(j + 1).last() == fm@[idx@[j as int] as int].1);
        proof {
            lemma_pattern_total_prefix(xs, k as int, j + 1);
        }
        let i = idx[j];
        let ps = &fm[i].1.call_patterns;
        let m = ps.len();
        let base = acc;
        for q in 0..m
            invariant
                m == ps@.len(),
                k <= 2,
                (base + pattern_count(ps@, k as int)) <= 0xFFFF_FFFF,
                acc == base + pattern_count(ps@.take(q as int), k as int),
        {
            assert(ps@.take(q + 1).drop_last() =~= ps@.take(q as int));
            assert(ps@.take(q + 1).last() == ps@[q as int]);
            proof {
                lemma_pattern_count_prefix(ps@, k as int, q + 1);
            }
            let pc = chars_of(ps[q].0.as_str());
            let p = pc.as_slice();
            let hit = if k == 0 {
                contains(p, "err")
            } else if k == 1 {
                ends_with(p, ".unwrap") || contains(p, ".unwrap()")
            } else {
                ends_with(p, ".expect") || contains(p, ".expect(")
            };
            if hit {
                acc = acc + ps[q].1;
            }
        }
        assert(ps@.take(m as int) =~= ps@);
    }
    assert(xs.take(n as int) =~= xs);
    acc
}

} // verus!

verus! {

// ---------------------------------------------------------------------------
// Conventions
// ---------------------------------------------------------------------------

pub open spec fn one(s: Seq<char>) -> Seq<Seq<char>> {
    seq![s]
}

pub open spec fn none() -> Seq<Seq<char>> {
    Seq::<Seq<char>>::empty()
}

/// JavaScript-family indentation: ties prefer 2 spaces, then 4.
pub open spec fn indent_js(a: nat, b: nat, c: nat) -> Seq<Seq<char>> {
    if a + b + c > 0 {
        if a >= b && a >= c {
            one("2-space"@)
        } else if b >= a && b >= c {
            one("4-space"@)
        } else {
            one("tabs"@)
        }
    } else {
        none()
    }
}

/// Python indentation: ties prefer 4 spaces, then 2.
pub open spec fn indent_py(a: nat, b: nat, c: nat) -> Seq<Seq<char>> {
    if a + b + c > 0 {
        if b >= a && b >= c {
            one("4-space"@)
        } else if a >= b && a >= c {
            one("2-space"@)
        } else {
            one("tabs"@)
        }
    } else {
        none()
    }
}

/// The label of a style used in more than `num/den` of the cases, if one is.
pub open spec fn majority(x: nat, y: nat, num: nat, den: nat, lx: Seq<char>, ly: Seq<char>) -> Seq<
    Seq<char>,
> {
    if x + y > 0 {
        if den * x > num * (x + y) {
            one(lx)
        } else if den * y > num * (x + y) {
            one(ly)
        } else {
            none()
        }
    } else {
        none()
    }
}

/// The stem of a path's file name: what precedes its first `'.'`.
pub open spec fn stem_of(p: Seq<char>) -> Seq<char> {
    first_piece(last_piece(p, '/'), '.')
}

/// Stems that say nothing about naming style: at most one byte long, or
/// `index`, `main`, `lib`, `mod`.
pub open spec fn naming_neutral(stem: Seq<char>) -> bool {
    ||| stem.len() == 0
    ||| stem.len() == 1 && (stem[0] as u32) < 0x80
    ||| stem == "index"@ || stem == "main"@ || stem == "lib"@ || stem == "mod"@
}

/// The naming style of a stem: 0 kebab-case, 1 snake_case, 2 PascalCase,
/// 3 camelCase, 4 none of them.
pub open spec fn naming_class(stem: Seq<char>) -> int {
    if stem.contains('-') {
        0
    } else if stem.contains('_') {
        1
    } else if stem.len() > 0 && is_upper(stem[0]) {
        2
    } else if exists|i: int| 0 <= i < stem.len() && is_upper(#[trigger] stem[i]) {
        3
    } else {
        4
    }
}

/// How many of the paths have naming style `k`.
pub open spec fn naming_count(paths: Seq<Seq<char>>, k: int) -> nat
    decreases paths.len(),
{
    if paths.len() == 0 {
        0
    } else {
        let stem = stem_of(paths.last());
        naming_count(paths.drop_last(), k) + if !naming_neutral(stem) && naming_class(stem) == k {
            1nat
        } else {
            0nat
        }
    }
}

pub open spec fn max_nat(a: nat, b: nat) -> nat {
    if a >= b {
        a
    } else {
        b
    }
}

/// The prevailing file-naming style of the paths, if any file shows one;
/// ties prefer kebab-case, then PascalCase, then camelCase.
pub open spec fn naming(paths: Seq<Seq<char>>) -> Seq<Seq<char>> {
    let k = naming_count(paths, 0);
    let s = naming_count(paths, 1);
    let p = naming_count(paths, 2);
    let c = naming_count(paths, 3);
    if k + p + c + s == 0 {
        none()
    } else {
        let m = max_nat(max_nat(max_nat(k, p), c), s);
        if m == k {
            one("kebab-case files"@)
        } else if m == p {
            one("PascalCase files"@)
        } else if m == c {
            one("camelCase files"@)
        } else {
            one("snake_case files"@)
        }
    }
}

/// The conventions of JavaScript-family files.
pub open spec fn js_conventions(xs: Seq<FileAnalysis>, paths: Seq<Seq<char>>) -> Seq<Seq<char>> {
    indent_js(total(xs, 0), total(xs, 1), total(xs, 2)) + majority(
        total(xs, 3),
        total(xs, 4),
        3,
        5,
        "single quotes"@,
        "double quotes"@,
    ) + majority(total(xs, 5), total(xs, 6), 7, 10, "semicolons"@, "no semicolons"@) + majority(
        total(xs, 7),
        total(xs, 8),
        3,
        5,
        "arrow functions"@,
        "function declarations"@,
    ) + majority(total(xs, 9), total(xs, 10), 3, 5, "default exports"@, "named exports"@)
        + majority(
        import_total(xs, 0),
        import_total(xs, 1),
        3,
        5,
        "@/ imports"@,
        "relative imports"@,
    ) + naming(paths)
}

/// The conventions of Go files.
pub open spec fn go_conventions(xs: Seq<FileAnalysis>, paths: Seq<Seq<char>>) -> Seq<Seq<char>> {
    one("tabs"@) + (if pattern_total(xs, 0) > 0 {
        one("if err != nil"@)
    } else {
        none()
    }) + naming(paths)
}

/// The conventions of Python files.
pub open spec fn python_conventions(xs: Seq<FileAnalysis>, paths: Seq<Seq<char>>) -> Seq<
    Seq<char>,
> {
    indent_py(total(xs, 0), total(xs, 1), total(xs, 2)) + majority(
        total(xs, 3),
        total(xs, 4),
        3,
        5,
        "single quotes"@,
        "double quotes"@,
    ) + naming(paths)
}

/// The conventions of Rust files.
pub open spec fn rust_conventions(xs: Seq<FileAnalysis>, paths: Seq<Seq<char>>) -> Seq<Seq<char>> {
    let u = pattern_total(xs, 1);
    let e = pattern_total(xs, 2);
    (if u + e > 0 {
        if u > e {
            one(".unwrap()"@)
        } else {
            one(".expect()"@)
        }
    } else {
        none()
    }) + naming(paths)
}

fn push_label(v: &mut Vec<String>, label: &str)
    ensures
        strs(final(v)@) == strs(old(v)@) + one(label@),
{
    let ghost old_v = strs(v@);
    v.push(string_of(chars_of(label).as_slice()));
    assert(strs(v@) =~= old_v + one(label@));
}

fn indent_js_exec(v: &mut Vec<String>, a: u32, b: u32, c: u32)
    requires
        a + b + c <= 0xFFFF_FFFF,
    ensures
        strs(final(v)@) == strs(old(v)@) + indent_js(a as nat, b as nat, c as nat),
{
    if a + b + c > 0 {
        if a >= b && a >= c {
            push_label(v, "2-space");
        } else if b >= a && b >= c {
            push_label(v, "4-space");
        } else {
            push_label(v, "tabs");
        }
    } else {
        assert(strs(v@) =~= strs(v@) + none());
    }
}

fn indent_py_exec(v: &mut Vec<String>, a: u32, b: u32, c: u32)
    requires
        a + b + c <= 0xFFFF_FFFF,
    ensures
        strs(final(v)@) == strs(old(v)@) + indent_py(a as nat, b as nat, c as nat),
{
    if a + b + c > 0 {
        if b >= a && b >= c {
            push_label(v, "4-space");
        } else if a >= b && a >= c {
            push_label(v, "2-space");
        } else {
            push_label(v, "tabs");
        }
    } else {
        assert(strs(v@) =~= strs(v@) + none());
    }
}

fn majority_exec(v: &mut Vec<String>, x: u32, y: u32, num: u64, den: u64, lx: &str, ly: &str)
    requires
        x + y <= 0xFFFF_FFFF,
        num <= 10,
        den <= 10,
    ensures
        strs(final(v)@) == strs(old(v)@) + majority(x as nat, y as nat, num as nat, den as nat, lx@, ly@),
{
    let t = (x as u64) + (y as u64);
    if t > 0 {
        assert(den * x <= 10 * 0xFFFF_FFFF) by (nonlinear_arith)
            requires
                den <= 10,
                x <= 0xFFFF_FFFF,
        ;
        assert(den * y <= 10 * 0xFFFF_FFFF) by (nonlinear_arith)
            requires
                den <= 10,
                y <= 0xFFFF_FFFF,
        ;
        assert(num * t <= 10 * 0xFFFF_FFFF) by (nonlinear_arith)
            requires
                num <= 10,
                t <= 0xFFFF_FFFF,
        ;
        if den * (x as u64) > num * t {
            push_label(v, lx);
        } else if den * (y as u64) > num * t {
            push_label(v, ly);
        } else {
            assert(strs(v@) =~= strs(v@) + none());
        }
    } else {
        assert(strs(v@) =~= strs(v@) + none());
    }
}

proof fn lemma_naming_count_bound(paths: Seq<Seq<char>>, k: int)
    ensures
        naming_count(paths, k) <= paths.len(),
    decreases paths.len(),
{
    if paths.len() > 0 {
        lemma_naming_count_bound(paths.drop_last(), k);
    }
}

proof fn lemma_naming_sum_bound(paths: Seq<Seq<char>>)
    ensures
        naming_count(paths, 0) + naming_count(paths, 1) + naming_count(paths, 2) + naming_count(
            paths,
            3,
        ) <= paths.len(),
    decreases paths.len(),
{
    if paths.len() > 0 {
        lemma_naming_sum_bound(paths.drop_last());
    }
}

fn naming_class_exec(stem: &[char]) -> (r: usize)
    ensures
        r == naming_class(stem@),
{
    if has_char(stem, '-') {
        0
    } else if has_char(stem, '_') {
        1
    } else if stem.len() > 0 && crate::text::char_is_upper(stem[0]) {
        2
    } else {
        let n = stem.len();
        for i in 0..n
            invariant
                n == stem@.len(),
                !stem@.contains('-') && !stem@.contains('_'),
                !(stem@.len() > 0 && is_upper(stem@[0])),
                forall|j: int| 0 <= j < i ==> !is_upper(#[trigger] stem@[j]),
        {
            if crate::text::char_is_upper(stem[i]) {
                assert(is_upper(stem@[i as int]));
                return 3;
            }
        }
        4
    }
}

/// The prevailing file-naming style of the given paths, if any file shows one.
pub fn detect_file_naming(paths: &Vec<Vec<char>>) -> (r: Option<String>)
    requires
        paths@.len() <= 0xFFFF_FFFF,
    ensures
        match r {
            Some(s) => naming(views(paths@)) == one(s@),
            None => naming(views(paths@)) == none(),
        },
{
    let ghost ps = views(paths@);
    let n = paths.len();
    let mut kebab: u32 = 0;
    let mut snake: u32 = 0;
    let mut pascal: u32 = 0;
    let mut camel: u32 = 0;
    for i in 0..n
        invariant
            n == paths@.len() <= 0xFFFF_FFFF,
            ps == views(paths@),
            kebab == naming_count(ps.take(i as int), 0),
            snake == naming_count(ps.take(i as int), 1),
            pascal == naming_count(ps.take(i as int), 2),
            camel == naming_count(ps.take(i as int), 3),
    {
        assert(ps.take(i + 1).drop_last() =~= ps.take(i as int));
        assert(ps.take(i + 1).last() == paths@[i as int]@);
        proof {
            lemma_naming_sum_bound(ps.take(i as int));
        }
        let name = last_piece_chars(paths[i].as_slice(), '/');
        let stem = first_piece_chars(name.as_slice(), '.');
        let s = stem.as_slice();
        let neutral = s.len() == 0 || (s.len() == 1 && (s[0] as u32) < 0x80) || crate::text::is(
            s,
            "index",
        ) || crate::text::is(s, "main") || crate::text::is(s, "lib") || crate::text::is(s, "mod");
        if !neutral {
            let k = naming_class_exec(s);
            if k == 0 {
                kebab = kebab + 1;
            } else if k == 1 {
                snake = snake + 1;
            } else if k == 2 {
                pascal = pascal + 1;
            } else if k == 3 {
                camel = camel + 1;
            }
        }
    }
    assert(ps.take(n as int) =~= ps);
    proof {
        lemma_naming_sum_bound(ps);
    }
    let total = kebab + pascal + camel + snake;
    if total == 0 {
        return None;
    }
    let mut m = kebab;
    if pascal > m {
        m = pascal;
    }
    if camel > m {
        m = camel;
    }
    if snake > m {
        m = snake;
    }
    let label = if m == kebab {
        "kebab-case files"
    } else if m == pascal {
        "PascalCase files"
    } else if m == camel {
        "camelCase files"
    } else {
        "snake_case files"
    };
    Some(string_of(chars_of(label).as_slice()))
}

} // verus!

verus! {

fn selected_paths(fm: &Vec<(String, FileAnalysis)>, idx: &Vec<usize>) -> (r: Vec<Vec<char>>)
    requires
        indices_ok(fm@, idx@),
    ensures
        views(r@) == select_paths(fm@, idx@),
        r@.len() == idx@.len(),
{
    let n = idx.len();
    let mut r: Vec<Vec<char>> = Vec::new();
    for j in 0..n
        invariant
            n == idx@.len(),
            indices_ok(fm@, idx@),
            views(r@) == select_paths(fm@, idx@).take(j as int),
    {
        let i = idx[j];
        assert(i < fm@.len());
        let c = chars_of(fm[i].0.as_str());
        let ghost old_r = views(r@);
        let ghost cv = c@;
        r.push(c);
        assert(views(r@) =~= old_r.push(cv));
        assert(select_paths(fm@, idx@).take(j + 1) =~= select_paths(fm@, idx@).take(j as int).push(
            fm@[i as int].0@,
        ));
    }
    assert(select_paths(fm@, idx@).take(n as int) =~= select_paths(fm@, idx@));
    r
}

fn push_naming(v: &mut Vec<String>, paths: &Vec<Vec<char>>)
    requires
        paths@.len() <= 0xFFFF_FFFF,
    ensures
        strs(final(v)@) == strs(old(v)@) + naming(views(paths@)),
{
    let ghost old_v = strs(v@);
    match detect_file_naming(paths) {
        Some(s) => {
            let ghost sv = s@;
            v.push(s);
            assert(strs(v@) =~= old_v + one(sv));
        },
        None => {
            assert(strs(v@) =~= old_v + none());
        },
    }
}

/// JavaScript-family conventions of the files `fm[idx[..]]`.
fn detect_js_conventions(fm: &Vec<(String, FileAnalysis)>, idx: &Vec<usize>) -> (r: Vec<String>)
    requires
        indices_ok(fm@, idx@),
        idx@.len() <= 0xFFFF_FFFF,
        sums_fit(select(fm@, idx@)),
    ensures
        strs(r@) == js_conventions(select(fm@, idx@), select_paths(fm@, idx@)),
{
    let ghost xs = select(fm@, idx@);
    assert(total(xs, 0) <= 0xFFFF_FFFF && total(xs, 1) <= 0xFFFF_FFFF && total(xs, 2) <= 0xFFFF_FFFF);
    assert(total(xs, 3) <= 0xFFFF_FFFF && total(xs, 4) <= 0xFFFF_FFFF && total(xs, 5) <= 0xFFFF_FFFF);
    assert(total(xs, 6) <= 0xFFFF_FFFF && total(xs, 7) <= 0xFFFF_FFFF && total(xs, 8) <= 0xFFFF_FFFF);
    assert(total(xs, 9) <= 0xFFFF_FFFF && total(xs, 10) <= 0xFFFF_FFFF);
    let i2 = total_exec(fm, idx, INDENT_2);
    let i4 = total_exec(fm, idx, INDENT_4);
    let itab = total_exec(fm, idx, INDENT_TAB);
    let sq = total_exec(fm, idx, SINGLE_Q);
    let dq = total_exec(fm, idx, DOUBLE_Q);
    let semi = total_exec(fm, idx, SEMI);
    let nosemi = total_exec(fm, idx, NO_SEMI);
    let arrow = total_exec(fm, idx, ARROW);
    let regular = total_exec(fm, idx, REGULAR);
    let dexp = total_exec(fm, idx, DEFAULT_EXP);
    let nexp = total_exec(fm, idx, NAMED_EXP);
    let at = import_total_exec(fm, idx, 0);
    let rel = import_total_exec(fm, idx, 1);
    let mut v: Vec<String> = Vec::new();
    indent_js_exec(&mut v, i2, i4, itab);
    majority_exec(&mut v, sq, dq, 3, 5, "single quotes", "double quotes");
    majority_exec(&mut v, semi, nosemi, 7, 10, "semicolons", "no semicolons");
    majority_exec(&mut v, arrow, regular, 3, 5, "arrow functions", "function declarations");
    majority_exec(&mut v, dexp, nexp, 3, 5, "default exports", "named exports");
    majority_exec(&mut v, at, rel, 3, 5, "@/ imports", "relative imports");
    let paths = selected_paths(fm, idx);
    push_naming(&mut v, &paths);
    proof {
        let e: Seq<Seq<char>> = Seq::empty();
        assert(e + indent_js(total(xs, 0), total(xs, 1), total(xs, 2)) =~= indent_js(total(xs, 0), total(xs, 1), total(xs, 2)));
    }
    assert(strs(v@) =~= js_conventions(xs, select_paths(fm@, idx@)));
    v
}

/// Go conventions of the files `fm[idx[..]]`.
fn detect_go_conventions(fm: &Vec<(String, FileAnalysis)>, idx: &Vec<usize>) -> (r: Vec<String>)
    requires
        indices_ok(fm@, idx@),
        idx@.len() <= 0xFFFF_FFFF,
        sums_fit(select(fm@, idx@)),
    ensures
        strs(r@) == go_conventions(select(fm@, idx@), select_paths(fm@, idx@)),
{
    let ghost xs = select(fm@, idx@);
    let mut v: Vec<String> = Vec::new();
    push_label(&mut v, "tabs");
    let err_count = pattern_total_exec(fm, idx, 0);
    let ghost after_tabs = strs(v@);
    if err_count > 0 {
        push_label(&mut v, "if err != nil");
    }
    let paths = selected_paths(fm, idx);
    push_naming(&mut v, &paths);
    proof {
        let e: Seq<Seq<char>> = Seq::empty();
        assert(e + one("tabs"@) =~= one("tabs"@));
        if err_count == 0 {
            assert(after_tabs + none() =~= after_tabs);
        }
    }
    assert(strs(v@) =~= go_conventions(xs, select_paths(fm@, idx@)));
    v
}

/// Python conventions of the files `fm[idx[..]]`.
fn detect_python_conventions(fm: &Vec<(String, FileAnalysis)>, idx: &Vec<usize>) -> (r: Vec<String>)
    requires
        indices_ok(fm@, idx@),
        idx@.len() <= 0xFFFF_FFFF,
        sums_fit(select(fm@, idx@)),
    ensures
        strs(r@) == python_conventions(select(fm@, idx@), select_paths(fm@, idx@)),
{
    let ghost xs = select(fm@, idx@);
    assert(total(xs, 0) <= 0xFFFF_FFFF && total(xs, 1) <= 0xFFFF_FFFF && total(xs, 2) <= 0xFFFF_FFFF);
    assert(total(xs, 3) <= 0xFFFF_FFFF && total(xs, 4) <= 0xFFFF_FFFF);
    let i2 = total_exec(fm, idx, INDENT_2);
    let i4 = total_exec(fm, idx, INDENT_4);
    let itab = total_exec(fm, idx, INDENT_TAB);
    let sq = total_exec(fm, idx, SINGLE_Q);
    let dq = total_exec(fm, idx, DOUBLE_Q);
    let mut v: Vec<String> = Vec::new();
    indent_py_exec(&mut v, i2, i4, itab);
    majority_exec(&mut v, sq, dq, 3, 5, "single quotes", "double quotes");
    let paths = selected_paths(fm, idx);
    push_naming(&mut v, &paths);
    proof {
        let e: Seq<Seq<char>> = Seq::empty();
        assert(e + indent_py(total(xs, 0), total(xs, 1), total(xs, 2)) =~= indent_py(total(xs, 0), total(xs, 1), total(xs, 2)));
    }
    assert(strs(v@) =~= python_conventions(xs, select_paths(fm@, idx@)));
    v
}

/// Rust conventions of the files `fm[idx[..]]`.
fn detect_rust_conventions(fm: &Vec<(String, FileAnalysis)>, idx: &Vec<usize>) -> (r: Vec<String>)
    requires
        indices_ok(fm@, idx@),
        idx@.len() <= 0xFFFF_FFFF,
        sums_fit(select(fm@, idx@)),
    ensures
        strs(r@) == rust_conventions(select(fm@, idx@), select_paths(fm@, idx@)),
{
    let ghost xs = select(fm@, idx@);
    assert(pattern_total(xs, 1) <= 0xFFFF_FFFF && pattern_total(xs, 2) <= 0xFFFF_FFFF);
    let unwrap_count = pattern_total_exec(fm, idx, 1);
    let expect_count = pattern_total_exec(fm, idx, 2);
    let mut v: Vec<String> = Vec::new();
    let ghost e: Seq<Seq<char>> = Seq::empty();
    if unwrap_count + expect_count > 0 {
        if unwrap_count > expect_count {
            push_label(&mut v, ".unwrap()");
        } else {
            push_label(&mut v, ".expect()");
        }
    }
    let ghost mid = strs(v@);
    let paths = selected_paths(fm, idx);
    push_naming(&mut v, &paths);
    proof {
        if unwrap_count + expect_count > 0 {
            if unwrap_count > expect_count {
                assert(mid =~= one(".unwrap()"@));
            } else {
                assert(mid =~= one(".expect()"@));
            }
        } else {
            assert(mid =~= none());
        }
    }
    assert(strs(v@) =~= rust_conventions(xs, select_paths(fm@, idx@)));
    v
}

} // verus!

verus! {

/// The language that `fl` records for the path `p` (its last entry for `p`).
pub open spec fn lang_of(fl: Seq<(String, String)>, p: Seq<char>) -> Option<Seq<char>>
    decreases fl.len(),
{
    if fl.len() == 0 {
        None
    } else if fl.last().0@ == p {
        Some(fl.last().1@)
    } else {
        lang_of(fl.drop_last(), p)
    }
}

/// The indices of the files among the first `upto` whose language is `lang`.
pub open spec fn lang_indices(
    fm: Seq<(String, FileAnalysis)>,
    fl: Seq<(String, String)>,
    lang: Seq<char>,
    upto: int,
) -> Seq<usize>
    decreases upto,
{
    if upto <= 0 {
        Seq::empty()
    } else if lang_of(fl, fm[upto - 1].0@) == Some(lang) {
        lang_indices(fm, fl, lang, upto - 1).push((upto - 1) as usize)
    } else {
        lang_indices(fm, fl, lang, upto - 1)
    }
}

/// The conventions of a language, by its name, from its files.
pub open spec fn conventions_for(lang: Seq<char>, xs: Seq<FileAnalysis>, ps: Seq<Seq<char>>) -> Seq<
    Seq<char>,
> {
    if lang == "JavaScript"@ || lang == "TypeScript"@ || lang == "TSX"@ || lang == "JSX"@ {
        js_conventions(xs, ps)
    } else if lang == "Go"@ {
        go_conventions(xs, ps)
    } else if lang == "Python"@ {
        python_conventions(xs, ps)
    } else if lang == "Rust"@ {
        rust_conventions(xs, ps)
    } else {
        none()
    }
}

/// The conventions found for `lang`, when it has files and shows any.
pub open spec fn slot(fm: Seq<(String, FileAnalysis)>, fl: Seq<(String, String)>, lang: Seq<char>) -> Option<
    Seq<Seq<char>>,
> {
    let idx = lang_indices(fm, fl, lang, fm.len() as int);
    let c = conventions_for(lang, select(fm, idx), select_paths(fm, idx));
    if idx.len() > 0 && c.len() > 0 {
        Some(c)
    } else {
        None
    }
}

pub type Entry = (Seq<char>, Seq<Seq<char>>);

pub open spec fn entry(label: Seq<char>, c: Option<Seq<Seq<char>>>) -> Seq<Entry> {
    match c {
        Some(v) => seq![(label, v)],
        None => Seq::empty(),
    }
}

/// The entries in the order of their labels.
#[verifier::opaque]
pub open spec fn ordered(
    go: Option<Seq<Seq<char>>>,
    js: Option<Seq<Seq<char>>>,
    js_ts: Option<Seq<Seq<char>>>,
    js_ts_tsx: Option<Seq<Seq<char>>>,
    jsx: Option<Seq<Seq<char>>>,
    py: Option<Seq<Seq<char>>>,
    rs: Option<Seq<Seq<char>>>,
    ts: Option<Seq<Seq<char>>>,
    ts_tsx: Option<Seq<Seq<char>>>,
    tsx: Option<Seq<Seq<char>>>,
) -> Seq<Entry> {
    entry("Go"@, go) + entry("JS"@, js) + entry("JS/TS"@, js_ts) + entry("JS/TS/TSX"@, js_ts_tsx)
        + entry("JSX"@, jsx) + entry("Py"@, py) + entry("Rs"@, rs) + entry("TS"@, ts) + entry(
        "TS/TSX"@,
        ts_tsx,
    ) + entry("TSX"@, tsx)
}

/// The entries after folding JS, TS and TSX together where their
/// conventions agree: all three first, then JS with TS, then TS with TSX.
pub open spec fn merged(
    go: Option<Seq<Seq<char>>>,
    js: Option<Seq<Seq<char>>>,
    jsx: Option<Seq<Seq<char>>>,
    py: Option<Seq<Seq<char>>>,
    rs: Option<Seq<Seq<char>>>,
    ts: Option<Seq<Seq<char>>>,
    tsx: Option<Seq<Seq<char>>>,
) -> Seq<Entry> {
    let all3 = js is Some && ts is Some && tsx is Some && js == ts && ts == tsx;
    let jt = !all3 && js is Some && ts is Some && js == ts;
    let tt = !all3 && !jt && ts is Some && tsx is Some && ts == tsx;
    ordered(
        go,
        if all3 || jt {
            None
        } else {
            js
        },
        if jt {
            js
        } else {
            None
        },
        if all3 {
            js
        } else {
            None
        },
        jsx,
        py,
        rs,
        if all3 || jt || tt {
            None
        } else {
            ts
        },
        if tt {
            ts
        } else {
            None
        },
        if all3 || tt {
            None
        } else {
            tsx
        },
    )
}

/// The result of convention detection for the files `fm` with languages `fl`.
pub open spec fn conventions_of(fm: Seq<(String, FileAnalysis)>, fl: Seq<(String, String)>) -> Seq<Entry> {
    merged(
        slot(fm, fl, "Go"@),
        slot(fm, fl, "JavaScript"@),
        slot(fm, fl, "JSX"@),
        slot(fm, fl, "Python"@),
        slot(fm, fl, "Rust"@),
        slot(fm, fl, "TypeScript"@),
        slot(fm, fl, "TSX"@),
    )
}

/// The labels of `s` are distinct and among `allowed`, and every entry has
/// at least one convention.
pub open spec fn labels_ok(s: Seq<Entry>, allowed: Seq<Seq<char>>) -> bool {
    &&& forall|i: int, j: int| 0 <= i < j < s.len() ==> s[i].0 != s[j].0
    &&& forall|i: int| 0 <= i < s.len() ==> allowed.contains(#[trigger] s[i].0) && s[i].1.len() > 0
}

pub open spec fn some_nonempty(o: Option<Seq<Seq<char>>>) -> bool {
    o matches Some(v) ==> v.len() > 0
}

proof fn lemma_entry_step(s: Seq<Entry>, allowed: Seq<Seq<char>>, label: Seq<char>, c: Option<Seq<Seq<char>>>)
    requires
        labels_ok(s, allowed),
        !allowed.contains(label),
        some_nonempty(c),
    ensures
        labels_ok(s + entry(label, c), allowed.push(label)),
{
    let t = s + entry(label, c);
    let a = allowed.push(label);
    assert forall|x: Seq<char>| allowed.contains(x) implies a.contains(x) by {
        let k = choose|k: int| 0 <= k < allowed.len() && allowed[k] == x;
        assert(a[k] == x);
    }
    assert(a[allowed.len() as int] == label);
    match c {
        None => {
            assert(t =~= s);
        },
        Some(v) => {
            assert(t =~= s.push((label, v)));
            assert forall|i: int, j: int| 0 <= i < j < t.len() implies t[i].0 != t[j].0 by {
                if j == s.len() {
                    assert(allowed.contains(s[i].0));
                } else {
                    assert(t[i] == s[i] && t[j] == s[j]);
                }
            }
            assert forall|i: int| 0 <= i < t.len() implies a.contains(#[trigger] t[i].0) && t[i].1.len() > 0 by {
                if i < s.len() {
                    assert(t[i] == s[i]);
                    assert(allowed.contains(s[i].0));
                }
            }
        },
    }
}

proof fn lemma_ordered_labels(
    go: Option<Seq<Seq<char>>>,
    js: Option<Seq<Seq<char>>>,
    js_ts: Option<Seq<Seq<char>>>,
    js_ts_tsx: Option<Seq<Seq<char>>>,
    jsx: Option<Seq<Seq<char>>>,
    py: Option<Seq<Seq<char>>>,
    rs: Option<Seq<Seq<char>>>,
    ts: Option<Seq<Seq<char>>>,
    ts_tsx: Option<Seq<Seq<char>>>,
    tsx: Option<Seq<Seq<char>>>,
)
    requires
        some_nonempty(go),
        some_nonempty(js),
        some_nonempty(js_ts),
        some_nonempty(js_ts_tsx),
        some_nonempty(jsx),
        some_nonempty(py),
        some_nonempty(rs),
        some_nonempty(ts),
        some_nonempty(ts_tsx),
        some_nonempty(tsx),
    ensures
        labels_ok(
            ordered(go, js, js_ts, js_ts_tsx, jsx, py, rs, ts, ts_tsx, tsx),
            seq![
                "Go"@,
                "JS"@,
                "JS/TS"@,
                "JS/TS/TSX"@,
                "JSX"@,
                "Py"@,
                "Rs"@,
                "TS"@,
                "TS/TSX"@,
                "TSX"@,
            ],
        ),
{
    reveal(ordered);
    reveal_strlit("Go");
    reveal_strlit("JS");
    reveal_strlit("JS/TS");
    reveal_strlit("JS/TS/TSX");
    reveal_strlit("JSX");
    reveal_strlit("Py");
    reveal_strlit("Rs");
    reveal_strlit("TS");
    reveal_strlit("TS/TSX");
    reveal_strlit("TSX");
    let a0 = Seq::<Seq<char>>::empty();
    let s0 = Seq::<Entry>::empty();
    lemma_entry_step(s0, a0, "Go"@, go);
    let a1 = a0.push("Go"@);
    let s1 = s0 + entry("Go"@, go);
    assert(s1 =~= entry("Go"@, go));
    assert(a1[0].len() != "JS"@.len() || a1[0][0] != "JS"@[0]);
    lemma_entry_step(s1, a1, "JS"@, js);
    let a2 = a1.push("JS"@);
    let s2 = s1 + entry("JS"@, js);
    assert(a2[0].len() != "JS/TS"@.len() || a2[0][0] != "JS/TS"@[0]);
    assert(a2[1].len() != "JS/TS"@.len() || a2[1][0] != "JS/TS"@[0]);
    lemma_entry_step(s2, a2, "JS/TS"@, js_ts);
    let a3 = a2.push("JS/TS"@);
    let s3 = s2 + entry("JS/TS"@, js_ts);
    assert(a3[0].len() != "JS/TS/TSX"@.len() || a3[0][0] != "JS/TS/TSX"@[0]);
    assert(a3[1].len() != "JS/TS/TSX"@.len() || a3[1][0] != "JS/TS/TSX"@[0]);
    assert(a3[2].len() != "JS/TS/TSX"@.len() || a3[2][0] != "JS/TS/TSX"@[0]);
    lemma_entry_step(s3, a3, "JS/TS/TSX"@, js_ts_tsx);
    let a4 = a3.push("JS/TS/TSX"@);
    let s4 = s3 + entry("JS/TS/TSX"@, js_ts_tsx);
    assert(a4[0].len() != "JSX"@.len() || a4[0][0] != "JSX"@[0]);
    assert(a4[1].len() != "JSX"@.len() || a4[1][0] != "JSX"@[0]);
    assert(a4[2].len() != "JSX"@.len() || a4[2][0] != "JSX"@[0]);
    assert(a4[3].len() != "JSX"@.len() || a4[3][0] != "JSX"@[0]);
    lemma_entry_step(s4, a4, "JSX"@, jsx);
    let a5 = a4.push("JSX"@);
    let s5 = s4 + entry("JSX"@, jsx);
    assert(a5[0].len() != "Py"@.len() || a5[0][0] != "Py"@[0]);
    assert(a5[1].len() != "Py"@.len() || a5[1][0] != "Py"@[0]);
    assert(a5[2].len() != "Py"@.len() || a5[2][0] != "Py"@[0]);
    assert(a5[3].len() != "Py"@.len() || a5[3][0] != "Py"@[0]);
    assert(a5[4].len() != "Py"@.len() || a5[4][0] != "Py"@[0]);
    lemma_entry_step(s5, a5, "Py"@, py);
    let a6 = a5.push("Py"@);
    let s6 = s5 + entry("Py"@, py);
    assert(a6[0].len() != "Rs"@.len() || a6[0][0] != "Rs"@[0]);
    assert(a6[1].len() != "Rs"@.len() || a6[1][0] != "Rs"@[0]);
    assert(a6[2].len() != "Rs"@.len() || a6[2][0] != "Rs"@[0]);
    assert(a6[3].len() != "Rs"@.len() || a6[3][0] != "Rs"@[0]);
    assert(a6[4].len() != "Rs"@.len() || a6[4][0] != "Rs"@[0]);
    assert(a6[5].len() != "Rs"@.len() || a6[5][0] != "Rs"@[0]);
    lemma_entry_step(s6, a6, "Rs"@, rs);
    let a7 = a6.push("Rs"@);
    let s7 = s6 + entry("Rs"@, rs);
    assert(a7[0].len() != "TS"@.len() || a7[0][0] != "TS"@[0]);
    assert(a7[1].len() != "TS"@.len() || a7[1][0] != "TS"@[0]);
    assert(a7[2].len() != "TS"@.len() || a7[2][0] != "TS"@[0]);
    assert(a7[3].len() != "TS"@.len() || a7[3][0] != "TS"@[0]);
    assert(a7[4].len() != "TS"@.len() || a7[4][0] != "TS"@[0]);
    assert(a7[5].len() != "TS"@.len() || a7[5][0] != "TS"@[0]);
    assert(a7[6].len() != "TS"@.len() || a7[6][0] != "TS"@[0]);
    lemma_entry_step(s7, a7, "TS"@, ts);
    let a8 = a7.push("TS"@);
    let s8 = s7 + entry("TS"@, ts);
    assert(a8[0].len() != "TS/TSX"@.len() || a8[0][0] != "TS/TSX"@[0]);
    assert(a8[1].len() != "TS/TSX"@.len() || a8[1][0] != "TS/TSX"@[0]);
    assert(a8[2].len() != "TS/TSX"@.len() || a8[2][0] != "TS/TSX"@[0]);
    assert(a8[3].len() != "TS/TSX"@.len() || a8[3][0] != "TS/TSX"@[0]);
    assert(a8[4].len() != "TS/TSX"@.len() || a8[4][0] != "TS/TSX"@[0]);
    assert(a8[5].len() != "TS/TSX"@.len() || a8[5][0] != "TS/TSX"@[0]);
    assert(a8[6].len() != "TS/TSX"@.len() || a8[6][0] != "TS/TSX"@[0]);
    assert(a8[7].len() != "TS/TSX"@.len() || a8[7][0] != "TS/TSX"@[0]);
    lemma_entry_step(s8, a8, "TS/TSX"@, ts_tsx);
    let a9 = a8.push("TS/TSX"@);
    let s9 = s8 + entry("TS/TSX"@, ts_tsx);
    assert(a9[0].len() != "TSX"@.len() || a9[0][0] != "TSX"@[0]);
    assert(a9[1].len() != "TSX"@.len() || a9[1][0] != "TSX"@[0]);
    assert(a9[2].len() != "TSX"@.len() || a9[2][0] != "TSX"@[0]);
    assert(a9[3].len() != "TSX"@.len() || a9[3][0] != "TSX"@[0]);
    assert(a9[4].len() != "TSX"@.len() || a9[4][0] != "TSX"@[0]);
    assert(a9[5].len() != "TSX"@.len() || a9[5][0] != "TSX"@[0]);
    assert(a9[6].len() != "TSX"@.len() || a9[6][0] != "TSX"@[0]);
    assert(a9[7].len() != "TSX"@.len() || a9[7][0] != "TSX"@[0]);
    assert(a9[8].len() != "TSX"@.len() || a9[8][0] != "TSX"@[0]);
    lemma_entry_step(s9, a9, "TSX"@, tsx);
    let a10 = a9.push("TSX"@);
    let s10 = s9 + entry("TSX"@, tsx);
    assert(a10 =~= seq![
        "Go"@,
        "JS"@,
        "JS/TS"@,
        "JS/TS/TSX"@,
        "JSX"@,
        "Py"@,
        "Rs"@,
        "TS"@,
        "TS/TSX"@,
        "TSX"@,
    ]);
}

proof fn lemma_slot_nonempty(fm: Seq<(String, FileAnalysis)>, fl: Seq<(String, String)>, lang: Seq<char>)
    ensures
        some_nonempty(slot(fm, fl, lang)),
{
}

proof fn lemma_merged_labels(
    go: Option<Seq<Seq<char>>>,
    js: Option<Seq<Seq<char>>>,
    jsx: Option<Seq<Seq<char>>>,
    py: Option<Seq<Seq<char>>>,
    rs: Option<Seq<Seq<char>>>,
    ts: Option<Seq<Seq<char>>>,
    tsx: Option<Seq<Seq<char>>>,
)
    requires
        some_nonempty(go),
        some_nonempty(js),
        some_nonempty(jsx),
        some_nonempty(py),
        some_nonempty(rs),
        some_nonempty(ts),
        some_nonempty(tsx),
    ensures
        forall|i: int, j: int|
            0 <= i < j < merged(go, js, jsx, py, rs, ts, tsx).len() ==> merged(
                go,
                js,
                jsx,
                py,
                rs,
                ts,
                tsx,
            )[i].0 != merged(go, js, jsx, py, rs, ts, tsx)[j].0,
        forall|i: int|
            0 <= i < merged(go, js, jsx, py, rs, ts, tsx).len() ==> #[trigger] merged(
                go,
                js,
                jsx,
                py,
                rs,
                ts,
                tsx,
            )[i].1.len() > 0,
{
    let all3 = js is Some && ts is Some && tsx is Some && js == ts && ts == tsx;
    let jt = !all3 && js is Some && ts is Some && js == ts;
    let tt = !all3 && !jt && ts is Some && tsx is Some && ts == tsx;
    let a_js = if all3 || jt {
        None
    } else {
        js
    };
    let a_jt = if jt {
        js
    } else {
        None
    };
    let a_all = if all3 {
        js
    } else {
        None
    };
    let a_ts = if all3 || jt || tt {
        None
    } else {
        ts
    };
    let a_tt = if tt {
        ts
    } else {
        None
    };
    let a_tsx = if all3 || tt {
        None
    } else {
        tsx
    };
    lemma_ordered_labels(go, a_js, a_jt, a_all, jsx, py, rs, a_ts, a_tt, a_tsx);
    let o = ordered(go, a_js, a_jt, a_all, jsx, py, rs, a_ts, a_tt, a_tsx);
    assert(forall|i: int, j: int| 0 <= i < j < o.len() ==> o[i].0 != o[j].0);
    assert forall|i: int| 0 <= i < o.len() implies #[trigger] o[i].1.len() > 0 by {
        assert(o[i].0 == o[i].0);
    }
    assert(merged(go, js, jsx, py, rs, ts, tsx) == ordered(
        go,
        a_js,
        a_jt,
        a_all,
        jsx,
        py,
        rs,
        a_ts,
        a_tt,
        a_tsx,
    ));
}

/// Each language label appears at most once among the detected
/// conventions, and every language listed has at least one convention.
pub proof fn lemma_conventions_labels(fm: Seq<(String, FileAnalysis)>, fl: Seq<(String, String)>)
    ensures
        forall|i: int, j: int|
            0 <= i < j < conventions_of(fm, fl).len() ==> conventions_of(fm, fl)[i].0
                != conventions_of(fm, fl)[j].0,
        forall|i: int|
            0 <= i < conventions_of(fm, fl).len() ==> #[trigger] conventions_of(fm, fl)[i].1.len()
                > 0,
{
    lemma_slot_nonempty(fm, fl, "Go"@);
    lemma_slot_nonempty(fm, fl, "JavaScript"@);
    lemma_slot_nonempty(fm, fl, "JSX"@);
    lemma_slot_nonempty(fm, fl, "Python"@);
    lemma_slot_nonempty(fm, fl, "Rust"@);
    lemma_slot_nonempty(fm, fl, "TypeScript"@);
    lemma_slot_nonempty(fm, fl, "TSX"@);
    lemma_merged_labels(
        slot(fm, fl, "Go"@),
        slot(fm, fl, "JavaScript"@),
        slot(fm, fl, "JSX"@),
        slot(fm, fl, "Python"@),
        slot(fm, fl, "Rust"@),
        slot(fm, fl, "TypeScript"@),
        slot(fm, fl, "TSX"@),
    );
}

pub open spec fn lc_view(c: LanguageConventions) -> Entry {
    (c.language@, strs(c.conventions@))
}

pub open spec fn lc_views(v: Seq<LanguageConventions>) -> Seq<Entry> {
    v.map_values(|c: LanguageConventions| lc_view(c))
}

/// The sums the detection adds up for each language fit a `u32`.
pub open spec fn conventions_fit(fm: Seq<(String, FileAnalysis)>, fl: Seq<(String, String)>) -> bool {
    &&& fm.len() <= 0xFFFF_FFFF
    &&& forall|lang: Seq<char>|
        sums_fit(#[trigger] select(fm, lang_indices(fm, fl, lang, fm.len() as int)))
}

pub open spec fn opt_view(o: Option<Vec<String>>) -> Option<Seq<Seq<char>>> {
    match o {
        Some(v) => Some(strs(v@)),
        None => None,
    }
}

fn strs_eq(a: &Vec<String>, b: &Vec<String>) -> (r: bool)
    ensures
        r == (strs(a@) == strs(b@)),
{
    if a.len() != b.len() {
        assert(strs(a@).len() != strs(b@).len());
        return false;
    }
    let n = a.len();
    for i in 0..n
        invariant
            n == a@.len() == b@.len(),
            forall|j: int| 0 <= j < i ==> a@[j]@ == b@[j]@,
    {
        let x = chars_of(a[i].as_str());
        let y = chars_of(b[i].as_str());
        if !crate::text::eq_chars(x.as_slice(), y.as_slice()) {
            assert(strs(a@)[i as int] != strs(b@)[i as int]);
            return false;
        }
    }
    assert(strs(a@) =~= strs(b@));
    true
}

fn opt_eq(a: &Option<Vec<String>>, b: &Option<Vec<String>>) -> (r: bool)
    ensures
        r == (a is Some && b is Some && opt_view(*a) == opt_view(*b)),
{
    match (a, b) {
        (Some(x), Some(y)) => strs_eq(x, y),
        _ => false,
    }
}

fn push_entry(v: &mut Vec<LanguageConventions>, label: &str, c: Option<Vec<String>>)
    ensures
        lc_views(final(v)@) == lc_views(old(v)@) + entry(label@, opt_view(c)),
{
    let ghost old_v = lc_views(v@);
    match c {
        Some(conv) => {
            let ghost cv = strs(conv@);
            v.push(LanguageConventions { language: string_of(chars_of(label).as_slice()), conventions: conv });
            assert(lc_views(v@) =~= old_v + seq![(label@, cv)]);
        },
        None => {
            assert(lc_views(v@) =~= old_v + Seq::<Entry>::empty());
        },
    }
}

/// Folds JS, TS and TSX together where their conventions agree, keeping the
/// entries ordered by label.
fn merge_similar(
    go: Option<Vec<String>>,
    js: Option<Vec<String>>,
    jsx: Option<Vec<String>>,
    py: Option<Vec<String>>,
    rs: Option<Vec<String>>,
    ts: Option<Vec<String>>,
    tsx: Option<Vec<String>>,
) -> (r: Vec<LanguageConventions>)
    ensures
        lc_views(r@) == merged(
            opt_view(go),
            opt_view(js),
            opt_view(jsx),
            opt_view(py),
            opt_view(rs),
            opt_view(ts),
            opt_view(tsx),
        ),
{
    let all_same = opt_eq(&js, &ts) && opt_eq(&ts, &tsx);
    let js_ts_same = !all_same && opt_eq(&js, &ts);
    let ts_tsx_same = !all_same && !js_ts_same && opt_eq(&ts, &tsx);
    let ghost (gjs, gts, gtsx) = (opt_view(js), opt_view(ts), opt_view(tsx));
    let mut r: Vec<LanguageConventions> = Vec::new();
    push_entry(&mut r, "Go", go);
    let (js_alone, js_ts, js_ts_tsx) = if all_same {
        (None, None, js)
    } else if js_ts_same {
        (None, js, None)
    } else {
        (js, None, None)
    };
    push_entry(&mut r, "JS", js_alone);
    push_entry(&mut r, "JS/TS", js_ts);
    push_entry(&mut r, "JS/TS/TSX", js_ts_tsx);
    push_entry(&mut r, "JSX", jsx);
    push_entry(&mut r, "Py", py);
    push_entry(&mut r, "Rs", rs);
    let (ts_alone, ts_tsx) = if all_same || js_ts_same {
        (None, None)
    } else if ts_tsx_same {
        (None, ts)
    } else {
        (ts, None)
    };
    push_entry(&mut r, "TS", ts_alone);
    push_entry(&mut r, "TS/TSX", ts_tsx);
    let tsx_alone = if all_same || ts_tsx_same {
        None
    } else {
        tsx
    };
    push_entry(&mut r, "TSX", tsx_alone);
    proof {
        let e: Seq<Entry> = Seq::empty();
        assert(e + entry("Go"@, opt_view(go)) =~= entry("Go"@, opt_view(go)));
        reveal(ordered);
    }
    r
}

/// The files of `fm` whose language is `lang`, as indices.
fn lang_files(fm: &Vec<(String, FileAnalysis)>, fl: &Vec<(String, String)>, lang: &str) -> (idx: Vec<usize>)
    ensures
        idx@ == lang_indices(fm@, fl@, lang@, fm@.len() as int),
        indices_ok(fm@, idx@),
        idx@.len() <= fm@.len(),
{
    let n = fm.len();
    let lv = chars_of(lang);
    let mut idx: Vec<usize> = Vec::new();
    for i in 0..n
        invariant
            n == fm@.len(),
            lv@ == lang@,
            idx@ == lang_indices(fm@, fl@, lang@, i as int),
            indices_ok(fm@, idx@),
            idx@.len() <= i,
    {
        let p = chars_of(fm[i].0.as_str());
        let m = fl.len();
        let mut j = m;
        let mut found: Option<usize> = None;
        assert(fl@.take(m as int) =~= fl@);
        while j > 0
            invariant
                j <= m == fl@.len(),
                found is None ==> lang_of(fl@, p@) == lang_of(fl@.take(j as int), p@),
                found matches Some(k) ==> k < m && lang_of(fl@, p@) == Some(fl@[k as int].1@),
            decreases j,
        {
            if found.is_none() {
                let ghost fj = fl@.take(j as int);
                assert(fj.drop_last() =~= fl@.take(j - 1));
                assert(fj.last() == fl@[j - 1]);
                let key = chars_of(fl[j - 1].0.as_str());
                if crate::text::eq_chars(key.as_slice(), p.as_slice()) {
                    found = Some(j - 1);
                }
            }
            j -= 1;
        }
        let matches = match found {
            Some(k) => {
                let l = chars_of(fl[k].1.as_str());
                crate::text::eq_chars(l.as_slice(), lv.as_slice())
            },
            None => {
                assert(fl@.take(0) =~= Seq::<(String, String)>::empty());
                false
            },
        };
        if matches {
            idx.push(i);
        }
    }
    idx
}

fn slot_exec(fm: &Vec<(String, FileAnalysis)>, fl: &Vec<(String, String)>, lang: &str) -> (r: Option<Vec<String>>)
    requires
        conventions_fit(fm@, fl@),
    ensures
        opt_view(r) == slot(fm@, fl@, lang@),
{
    let idx = lang_files(fm, fl, lang);
    assert(sums_fit(select(fm@, idx@)));
    if idx.len() == 0 {
        return None;
    }
    let lv = chars_of(lang);
    let l = lv.as_slice();
    let c = if crate::text::is(l, "JavaScript") || crate::text::is(l, "TypeScript") || crate::text::is(l, "TSX")
        || crate::text::is(l, "JSX") {
        detect_js_conventions(fm, &idx)
    } else if crate::text::is(l, "Go") {
        detect_go_conventions(fm, &idx)
    } else if crate::text::is(l, "Python") {
        detect_python_conventions(fm, &idx)
    } else if crate::text::is(l, "Rust") {
        detect_rust_conventions(fm, &idx)
    } else {
        Vec::new()
    };
    if c.len() == 0 {
        None
    } else {
        Some(c)
    }
}

/// The coding conventions of each language of the files `file_metrics`,
/// whose languages `file_languages` records: the languages in order of
/// their short labels, and JS, TS and TSX folded together where their
/// conventions agree.
pub fn detect_conventions(
    file_metrics: &Vec<(String, FileAnalysis)>,
    file_languages: &Vec<(String, String)>,
) -> (r: Vec<LanguageConventions>)
    requires
        conventions_fit(file_metrics@, file_languages@),
    ensures
        lc_views(r@) == conventions_of(file_metrics@, file_languages@),
{
    let go = slot_exec(file_metrics, file_languages, "Go");
    let js = slot_exec(file_metrics, file_languages, "JavaScript");
    let jsx = slot_exec(file_metrics, file_languages, "JSX");
    let py = slot_exec(file_metrics, file_languages, "Python");
    let rs = slot_exec(file_metrics, file_languages, "Rust");
    let ts = slot_exec(file_metrics, file_languages, "TypeScript");
    let tsx = slot_exec(file_metrics, file_languages, "TSX");
    merge_similar(go, js, jsx, py, rs, ts, tsx)
}


// ---------------------------------------------------------------------------
// Import style
// ---------------------------------------------------------------------------

/// `p` begins with `@/` or `~/`.
pub open spec fn begins_with_alias(p: Seq<char>) -> bool {
    p.len() >= 2 && (p[0] == '@' || p[0] == '~') && p[1] == '/'
}

/// `p` begins with `./` or `../`.
pub open spec fn begins_relative(p: Seq<char>) -> bool {
    p.len() >= 2 && p[0] == '.' && (p[1] == '/' || (p.len() >= 3 && p[1] == '.' && p[2] == '/'))
}

/// Some file of `xs` has an import.
pub open spec fn some_import(xs: Seq<FileAnalysis>) -> bool {
    exists|i: int| 0 <= i < xs.len() && (#[trigger] xs[i]).import_paths@.len() > 0
}

proof fn lemma_prefix_literals(p: Seq<char>)
    ensures
        has_prefix(p, "@/"@) <==> (p.len() >= 2 && p[0] == '@' && p[1] == '/'),
        has_prefix(p, "~/"@) <==> (p.len() >= 2 && p[0] == '~' && p[1] == '/'),
        has_prefix(p, "./"@) <==> (p.len() >= 2 && p[0] == '.' && p[1] == '/'),
        has_prefix(p, "../"@) <==> (p.len() >= 3 && p[0] == '.' && p[1] == '.' && p[2] == '/'),
{
    reveal_strlit("@/");
    reveal_strlit("~/");
    reveal_strlit("./");
    reveal_strlit("../");
    assert("@/"@ =~= seq!['@', '/']);
    assert("~/"@ =~= seq!['~', '/']);
    assert("./"@ =~= seq!['.', '/']);
    assert("../"@ =~= seq!['.', '.', '/']);
    if p.len() >= 2 {
        assert(p.subrange(0, 2) =~= seq![p[0], p[1]]);
    }
    if p.len() >= 3 {
        assert(p.subrange(0, 3) =~= seq![p[0], p[1], p[2]]);
    }
}

proof fn lemma_import_count_uniform(imps: Seq<Seq<char>>, alias: bool)
    requires
        forall|k: int|
            0 <= k < imps.len() ==> if alias {
                begins_with_alias(#[trigger] imps[k])
            } else {
                begins_relative(imps[k])
            },
    ensures
        import_count(imps, if alias { 0 } else { 1 }) == imps.len(),
        import_count(imps, if alias { 1 } else { 0 }) == 0,
    decreases imps.len(),
{
    if imps.len() > 0 {
        assert forall|k: int| 0 <= k < imps.drop_last().len() implies if alias {
            begins_with_alias(#[trigger] imps.drop_last()[k])
        } else {
            begins_relative(imps.drop_last()[k])
        } by {
            assert(imps.drop_last()[k] == imps[k]);
        }
        lemma_import_count_uniform(imps.drop_last(), alias);
        let p = imps.last();
        assert(if alias { begins_with_alias(imps[imps.len() - 1]) } else { begins_relative(imps[imps.len() - 1]) });
        lemma_prefix_literals(p);
    }
}

proof fn lemma_import_total_uniform(xs: Seq<FileAnalysis>, alias: bool)
    requires
        forall|i: int, k: int|
            0 <= i < xs.len() && 0 <= k < xs[i].import_paths@.len() ==> if alias {
                begins_with_alias(#[trigger] xs[i].import_paths@[k]@)
            } else {
                begins_relative(xs[i].import_paths@[k]@)
            },
    ensures
        some_import(xs) ==> import_total(xs, if alias { 0 } else { 1 }) > 0,
        import_total(xs, if alias { 1 } else { 0 }) == 0,
    decreases xs.len(),
{
    if xs.len() > 0 {
        let ys = xs.drop_last();
        assert forall|i: int, k: int|
            0 <= i < ys.len() && 0 <= k < ys[i].import_paths@.len() implies if alias {
                begins_with_alias(#[trigger] ys[i].import_paths@[k]@)
            } else {
                begins_relative(ys[i].import_paths@[k]@)
            } by {
            assert(ys[i] == xs[i]);
        }
        lemma_import_total_uniform(ys, alias);
        let last = xs.last();
        let imps = strs(last.import_paths@);
        assert forall|k: int| 0 <= k < imps.len() implies if alias {
            begins_with_alias(#[trigger] imps[k])
        } else {
            begins_relative(imps[k])
        } by {
            assert(xs[xs.len() - 1] == last);
            assert(imps[k] == last.import_paths@[k]@);
        }
        lemma_import_count_uniform(imps, alias);
        if some_import(xs) && !some_import(ys) {
            let i = choose|i: int| 0 <= i < xs.len() && (#[trigger] xs[i]).import_paths@.len() > 0;
            if i < ys.len() {
                assert(ys[i] == xs[i]);
                assert(some_import(ys));
            }
            assert(imps.len() > 0);
        }
    }
}

/// The import style of JavaScript-family files: when the files have an
/// import and every import goes through a path alias (begins with `@/` or
/// `~/`), their conventions include "@/ imports"; when they have an import
/// and every import is relative (begins with `./` or `../`), their
/// conventions include "relative imports".
pub proof fn lemma_import_style(xs: Seq<FileAnalysis>, paths: Seq<Seq<char>>)
    ensures
        some_import(xs) && (forall|i: int, k: int|
            0 <= i < xs.len() && 0 <= k < xs[i].import_paths@.len() ==> begins_with_alias(
                #[trigger] xs[i].import_paths@[k]@,
            )) ==> js_conventions(xs, paths).contains("@/ imports"@),
        some_import(xs) && (forall|i: int, k: int|
            0 <= i < xs.len() && 0 <= k < xs[i].import_paths@.len() ==> begins_relative(
                #[trigger] xs[i].import_paths@[k]@,
            )) ==> js_conventions(xs, paths).contains("relative imports"@),
{
    let pre = indent_js(total(xs, 0), total(xs, 1), total(xs, 2)) + majority(
        total(xs, 3),
        total(xs, 4),
        3,
        5,
        "single quotes"@,
        "double quotes"@,
    ) + majority(total(xs, 5), total(xs, 6), 7, 10, "semicolons"@, "no semicolons"@) + majority(
        total(xs, 7),
        total(xs, 8),
        3,
        5,
        "arrow functions"@,
        "function declarations"@,
    ) + majority(total(xs, 9), total(xs, 10), 3, 5, "default exports"@, "named exports"@);
    let c = js_conventions(xs, paths);
    if some_import(xs) && (forall|i: int, k: int|
        0 <= i < xs.len() && 0 <= k < xs[i].import_paths@.len() ==> begins_with_alias(
            #[trigger] xs[i].import_paths@[k]@,
        )) {
        lemma_import_total_uniform(xs, true);
        assert(c[pre.len() as int] == "@/ imports"@);
    }
    if some_import(xs) && (forall|i: int, k: int|
        0 <= i < xs.len() && 0 <= k < xs[i].import_paths@.len() ==> begins_relative(
            #[trigger] xs[i].import_paths@[k]@,
        )) {
        lemma_import_total_uniform(xs, false);
        assert(c[pre.len() as int] == "relative imports"@);
    }
}

proof fn lemma_naming_count_uniform(paths: Seq<Seq<char>>, style: int)
    requires
        style == 0 || style == 1,
        forall|i: int|
            0 <= i < paths.len() ==> {
                let stem = #[trigger] stem_of(paths[i]);
                &&& stem.len() >= 2
                &&& style == 0 ==> stem.contains('-')
                &&& style == 1 ==> stem.contains('_') && !stem.contains('-')
            },
    ensures
        naming_count(paths, style) == paths.len(),
        forall|k: int| 0 <= k < 4 && k != style ==> naming_count(paths, k) == 0,
    decreases paths.len(),
{
    if paths.len() > 0 {
        assert forall|i: int| 0 <= i < paths.drop_last().len() implies {
            let stem = #[trigger] stem_of(paths.drop_last()[i]);
            &&& stem.len() >= 2
            &&& style == 0 ==> stem.contains('-')
            &&& style == 1 ==> stem.contains('_') && !stem.contains('-')
        } by {
            assert(paths.drop_last()[i] == paths[i]);
        }
        lemma_naming_count_uniform(paths.drop_last(), style);
        let stem = stem_of(paths.last());
        assert(stem == stem_of(paths[paths.len() - 1]));
        reveal_strlit("index");
        reveal_strlit("main");
        reveal_strlit("lib");
        reveal_strlit("mod");
        assert(!naming_neutral(stem)) by {
            let q = choose|q: int| 0 <= q < stem.len() && stem[q] == (if style == 0 { '-' } else { '_' });
            if stem == "index"@ || stem == "main"@ || stem == "lib"@ || stem == "mod"@ {
                assert(stem[q] != '-' && stem[q] != '_');
            }
        }
        assert(naming_class(stem) == style);
        assert forall|k: int| 0 <= k < 4 && k != style implies naming_count(paths, k) == 0 by {
            assert(naming_count(paths.drop_last(), k) == 0);
        }
    }
}

/// File naming: when there are files and the stem of every file name
/// (what precedes its first `'.'`) is at least two characters long and
/// holds a `'-'`, the conventions of JavaScript-family files include
/// "kebab-case files"; when every such stem holds a `'_'` and no `'-'`,
/// they include "snake_case files".
pub proof fn lemma_file_naming(xs: Seq<FileAnalysis>, paths: Seq<Seq<char>>)
    ensures
        paths.len() > 0 && (forall|i: int|
            0 <= i < paths.len() ==> {
                let stem = #[trigger] stem_of(paths[i]);
                stem.len() >= 2 && stem.contains('-')
            }) ==> js_conventions(xs, paths).contains("kebab-case files"@),
        paths.len() > 0 && (forall|i: int|
            0 <= i < paths.len() ==> {
                let stem = #[trigger] stem_of(paths[i]);
                stem.len() >= 2 && stem.contains('_') && !stem.contains('-')
            }) ==> js_conventions(xs, paths).contains("snake_case files"@),
{
    let c = js_conventions(xs, paths);
    let cut = c.len() - 1;
    if paths.len() > 0 && (forall|i: int|
        0 <= i < paths.len() ==> {
            let stem = #[trigger] stem_of(paths[i]);
            stem.len() >= 2 && stem.contains('-')
        }) {
        lemma_naming_count_uniform(paths, 0);
        assert(naming(paths) == one("kebab-case files"@));
        assert(c[cut] == "kebab-case files"@);
    }
    if paths.len() > 0 && (forall|i: int|
        0 <= i < paths.len() ==> {
            let stem = #[trigger] stem_of(paths[i]);
            stem.len() >= 2 && stem.contains('_') && !stem.contains('-')
        }) {
        lemma_naming_count_uniform(paths, 1);
        assert(naming(paths) == one("snake_case files"@));
        assert(c[cut] == "snake_case files"@);
    }
}

} // verus!
