//! The `.codeinsight.toml` settings: which directories and files to skip and
//! the largest file to analyse, read from a small TOML subset.
use vstd::prelude::*;
use crate::text::{
    find_char, find_spec, is, lemma_find_spec, lines, lines_str, slice_of, split, split_chars,
    string_of, strs, trim, trim_chars, views,
};

verus! {

/// The settings that steer file collection.
pub struct Config {
    pub ignore_dirs: Vec<String>,
    pub ignore_files: Vec<String>,
    pub max_file_size: u64,
}

/// The size limit used when the settings name none: 200 KiB.
pub open spec fn default_max_file_size() -> u64 {
    204800
}

impl Default for Config {
    fn default() -> (c: Self)
        ensures
            c.ignore_dirs@.len() == 0,
            c.ignore_files@.len() == 0,
            c.max_file_size == default_max_file_size(),
    {
        Config { ignore_dirs: Vec::new(), ignore_files: Vec::new(), max_file_size: 200 * 1024 }
    }
}

// ---------------------------------------------------------------------------
// What a settings text means
// ---------------------------------------------------------------------------

/// The state of reading a settings text: the current `[section]` and the
/// settings gathered so far.
pub struct ConfigModel {
    pub section: Seq<char>,
    pub ignore_dirs: Seq<Seq<char>>,
    pub ignore_files: Seq<Seq<char>>,
    pub max_file_size: u64,
}

pub open spec fn is_digit(c: char) -> bool {
    48 <= (c as u32) <= 57
}

pub open spec fn all_digits(s: Seq<char>) -> bool {
    forall|i: int| 0 <= i < s.len() ==> is_digit(#[trigger] s[i])
}

/// The number the decimal digits `s` denote.
pub open spec fn digits_value(s: Seq<char>) -> int
    decreases s.len(),
{
    if s.len() == 0 {
        0
    } else {
        digits_value(s.drop_last()) * 10 + ((s.last() as u32) - 48)
    }
}

/// `str::parse::<u64>`: an optional `+`, then one or more ASCII digits whose
/// value fits in 64 bits.
pub open spec fn parse_u64_spec(s: Seq<char>) -> Option<u64> {
    let d = if s.len() > 0 && s[0] == '+' {
        s.drop_first()
    } else {
        s
    };
    if d.len() > 0 && all_digits(d) && digits_value(d) <= u64::MAX {
        Some(digits_value(d) as u64)
    } else {
        None
    }
}

/// The text between a pair of double quotes around a trimmed item, if the
/// item is quoted.
pub open spec fn unquote(item: Seq<char>) -> Option<Seq<char>> {
    let s = trim(item);
    if s.len() >= 2 && s[0] == '"' && s.last() == '"' {
        Some(s.subrange(1, s.len() - 1))
    } else {
        None
    }
}

/// The quoted items among `items`, unquoted, in order.
pub open spec fn unquoted(items: Seq<Seq<char>>) -> Seq<Seq<char>>
    decreases items.len(),
{
    if items.len() == 0 {
        Seq::empty()
    } else {
        let rest = unquoted(items.drop_last());
        match unquote(items.last()) {
            Some(s) => rest.push(s),
            None => rest,
        }
    }
}

/// The strings of a `["a", "b"]` array value; an empty list when the value
/// is not bracketed.
pub open spec fn string_array(value: Seq<char>) -> Seq<Seq<char>> {
    let t = trim(value);
    if t.len() > 0 && t[0] == '[' && t.last() == ']' {
        unquoted(split(t.subrange(1, t.len() - 1), ','))
    } else {
        Seq::empty()
    }
}

pub open spec fn initial_model() -> ConfigModel {
    ConfigModel {
        section: Seq::empty(),
        ignore_dirs: Seq::empty(),
        ignore_files: Seq::empty(),
        max_file_size: default_max_file_size(),
    }
}

/// The effect of one line: blank lines and `#` comments change nothing, a
/// `[name]` line opens a section, and a `key = value` line sets `dirs` or
/// `files` under `[ignore]` and `max_file_size` under `[limits]`.
pub open spec fn apply_line(m: ConfigModel, line: Seq<char>) -> ConfigModel {
    let t = trim(line);
    if t.len() == 0 || t[0] == '#' {
        m
    } else if t[0] == '[' && t.last() == ']' {
        ConfigModel {
            section: trim(t.subrange(1, t.len() - 1)),
            ignore_dirs: m.ignore_dirs,
            ignore_files: m.ignore_files,
            max_file_size: m.max_file_size,
        }
    } else {
        match find_spec(t, seq!['=']) {
            None => m,
            Some(eq) => {
                let key = trim(t.subrange(0, eq));
                let value = trim(t.subrange(eq + 1, t.len() as int));
                if m.section == "ignore"@ {
                    if key == "dirs"@ {
                        ConfigModel {
                            section: m.section,
                            ignore_dirs: string_array(value),
                            ignore_files: m.ignore_files,
                            max_file_size: m.max_file_size,
                        }
                    } else if key == "files"@ {
                        ConfigModel {
                            section: m.section,
                            ignore_dirs: m.ignore_dirs,
                            ignore_files: string_array(value),
                            max_file_size: m.max_file_size,
                        }
                    } else {
                        m
                    }
                } else if m.section == "limits"@ && key == "max_file_size"@ {
                    match parse_u64_spec(value) {
                        Some(v) => ConfigModel {
                            section: m.section,
                            ignore_dirs: m.ignore_dirs,
                            ignore_files: m.ignore_files,
                            max_file_size: v,
                        },
                        None => m,
                    }
                } else {
                    m
                }
            },
        }
    }
}

/// The state after reading `ls` from the start.
pub open spec fn apply_lines(ls: Seq<Seq<char>>) -> ConfigModel
    decreases ls.len(),
{
    if ls.len() == 0 {
        initial_model()
    } else {
        apply_line(apply_lines(ls.drop_last()), ls.last())
    }
}

/// The settings a text holds.
pub open spec fn config_of(content: Seq<char>) -> ConfigModel {
    apply_lines(lines(content))
}

/// `c` holds the settings of `m`.
pub open spec fn config_matches(c: Config, m: ConfigModel) -> bool {
    &&& strs(c.ignore_dirs@) == m.ignore_dirs
    &&& strs(c.ignore_files@) == m.ignore_files
    &&& c.max_file_size == m.max_file_size
}

pub open spec fn config_view(c: Config, section: Seq<char>) -> ConfigModel {
    ConfigModel {
        section,
        ignore_dirs: strs(c.ignore_dirs@),
        ignore_files: strs(c.ignore_files@),
        max_file_size: c.max_file_size,
    }
}

// ---------------------------------------------------------------------------
// Reading
// ---------------------------------------------------------------------------

proof fn lemma_digits_prefix(s: Seq<char>, k: int)
    requires
        all_digits(s),
        0 <= k <= s.len(),
    ensures
        0 <= digits_value(s.take(k)) <= digits_value(s),
    decreases s.len(),
{
    if s.len() == 0 {
        assert(s.take(k) =~= s);
    } else {
        let dl = s.drop_last();
        assert(all_digits(dl)) by {
            assert forall|i: int| 0 <= i < dl.len() implies is_digit(#[trigger] dl[i]) by {
                assert(dl[i] == s[i]);
            }
        }
        assert(is_digit(s[s.len() - 1]));
        if k == s.len() {
            lemma_digits_prefix(dl, dl.len() as int);
            assert(s.take(k) =~= s);
            assert(dl.take(dl.len() as int) =~= dl);
        } else {
            lemma_digits_prefix(dl, k);
            lemma_digits_prefix(dl, dl.len() as int);
            assert(dl.take(dl.len() as int) =~= dl);
            assert(dl.take(k) =~= s.take(k));
        }
    }
}

/// `str::parse::<u64>` on the characters `s`.
fn parse_u64(s: &[char]) -> (r: Option<u64>)
    ensures
        r == parse_u64_spec(s@),
{
    let n = s.len();
    let start: usize = if n > 0 && s[0] == '+' {
        1
    } else {
        0
    };
    let ghost d = if s@.len() > 0 && s@[0] == '+' {
        s@.drop_first()
    } else {
        s@
    };
    assert(d =~= s@.subrange(start as int, n as int));
    if start >= n {
        return None;
    }
    let mut v: u64 = 0;
    let mut i = start;
    while i < n
        invariant
            start <= i <= n,
            n == s@.len(),
            d == s@.subrange(start as int, n as int),
            d == (if s@.len() > 0 && s@[0] == '+' {
                s@.drop_first()
            } else {
                s@
            }),
            all_digits(s@.subrange(start as int, i as int)),
            v == digits_value(s@.subrange(start as int, i as int)),
        decreases n - i,
    {
        let ghost pre = s@.subrange(start as int, i as int);
        let ghost next = s@.subrange(start as int, i + 1);
        assert(next.drop_last() =~= pre);
        assert(next.last() == s@[i as int]);
        let cv = s[i] as u32;
        if cv < 48 || cv > 57 {
            assert(!is_digit(d[i - start]));
            return None;
        }
        let dg = (cv - 48) as u64;
        assert(digits_value(next) == v * 10 + dg);
        assert(all_digits(next)) by {
            assert forall|j: int| 0 <= j < next.len() implies is_digit(#[trigger] next[j]) by {
                if j < pre.len() {
                    assert(next[j] == pre[j]);
                }
            }
        }
        match v.checked_mul(10) {
            None => {
                proof {
                    if all_digits(d) {
                        lemma_digits_prefix(d, i + 1 - start);
                        assert(d.take(i + 1 - start) =~= next);
                    }
                }
                return None;
            },
            Some(m) => match m.checked_add(dg) {
                None => {
                    proof {
                        if all_digits(d) {
                            lemma_digits_prefix(d, i + 1 - start);
                            assert(d.take(i + 1 - start) =~= next);
                        }
                    }
                    return None;
                },
                Some(x) => {
                    v = x;
                },
            },
        }
        i += 1;
    }
    assert(s@.subrange(start as int, n as int) =~= d);
    Some(v)
}

/// The strings of a `["a", "b"]` array value.
fn parse_string_array(value: &[char]) -> (r: Vec<String>)
    ensures
        strs(r@) == string_array(value@),
{
    let t = trim_chars(value);
    let n = t.len();
    if !(n > 0 && t[0] == '[' && t[n - 1] == ']') {
        let r: Vec<String> = Vec::new();
        assert(strs(r@) =~= Seq::<Seq<char>>::empty());
        return r;
    }
    let inner = slice_of(t.as_slice(), 1, n - 1);
    let pieces = split_chars(inner.as_slice(), ',');
    let mut out: Vec<String> = Vec::new();
    let m = pieces.len();
    assert(strs(out@) =~= unquoted(views(pieces@).take(0)));
    for i in 0..m
        invariant
            m == pieces@.len(),
            views(pieces@) == split(inner@, ','),
            strs(out@) == unquoted(views(pieces@).take(i as int)),
    {
        let ghost vp = views(pieces@);
        assert(vp.take(i + 1).drop_last() =~= vp.take(i as int));
        assert(vp.take(i + 1).last() == pieces@[i as int]@);
        let s = trim_chars(pieces[i].as_slice());
        let k = s.len();
        if k >= 2 && s[0] == '"' && s[k - 1] == '"' {
            let body = slice_of(s.as_slice(), 1, k - 1);
            let st = string_of(body.as_slice());
            let ghost before = strs(out@);
            out.push(st);
            assert(strs(out@) =~= before.push(body@));
        }
    }
    assert(views(pieces@).take(m as int) =~= views(pieces@));
    out
}

/// Applies one line of a settings text to the current section and settings.
fn apply_config_line(line: &[char], section: &mut Vec<char>, cfg: &mut Config)
    ensures
        config_view(*final(cfg), final(section)@) == apply_line(
            config_view(*old(cfg), old(section)@),
            line@,
        ),
{
    let t = trim_chars(line);
    let n = t.len();
    if n == 0 || t[0] == '#' {
        return ;
    }
    if t[0] == '[' && t[n - 1] == ']' {
        let inner = slice_of(t.as_slice(), 1, n - 1);
        *section = trim_chars(inner.as_slice());
        return ;
    }
    match find_char(t.as_slice(), '=') {
        None => {},
        Some(eq) => {
            proof {
                lemma_find_spec(t@, seq!['=']);
            }
            let k0 = slice_of(t.as_slice(), 0, eq);
            let key = trim_chars(k0.as_slice());
            let v0 = slice_of(t.as_slice(), eq + 1, n);
            let value = trim_chars(v0.as_slice());
            if is(section.as_slice(), "ignore") {
                if is(key.as_slice(), "dirs") {
                    cfg.ignore_dirs = parse_string_array(value.as_slice());
                } else if is(key.as_slice(), "files") {
                    cfg.ignore_files = parse_string_array(value.as_slice());
                }
            } else if is(section.as_slice(), "limits") {
                if is(key.as_slice(), "max_file_size") {
                    match parse_u64(value.as_slice()) {
                        Some(v) => {
                            cfg.max_file_size = v;
                        },
                        None => {},
                    }
                }
            }
        },
    }
}

/// Reads the settings from the text of a `.codeinsight.toml` file.
pub fn parse_config(content: &str) -> (c: Config)
    ensures
        config_matches(c, config_of(content@)),
{
    let ls = lines_str(content);
    let mut section: Vec<char> = Vec::new();
    let mut cfg = Config::default();
    assert(views(ls@).take(0) =~= Seq::<Seq<char>>::empty());
    assert(strs(cfg.ignore_dirs@) =~= Seq::<Seq<char>>::empty());
    assert(strs(cfg.ignore_files@) =~= Seq::<Seq<char>>::empty());
    assert(section@ =~= Seq::<char>::empty());
    assert(config_view(cfg, section@) == apply_lines(views(ls@).take(0)));
    let m = ls.len();
    for i in 0..m
        invariant
            m == ls@.len(),
            views(ls@) == lines(content@),
            config_view(cfg, section@) == apply_lines(views(ls@).take(i as int)),
    {
        let ghost vl = views(ls@);
        assert(vl.take(i + 1).drop_last() =~= vl.take(i as int));
        assert(vl.take(i + 1).last() == ls@[i as int]@);
        apply_config_line(ls[i].as_slice(), &mut section, &mut cfg);
    }
    assert(views(ls@).take(m as int) =~= views(ls@));
    cfg
}

} // verus!
