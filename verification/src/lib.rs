//! Code insight for a source tree: the import graph and what looks dead,
//! notes and security findings, tests paired with sources, conventions,
//! key folders, the data layer, the history, and a compact report, each
//! function with a contract proved by Verus. This root decides which files
//! a walk of the project collects.
pub mod text;
pub mod tally;
pub mod ranking;
pub mod analyzer;
pub mod aggregate;
pub mod duplicates;
pub mod issues;
pub mod integration;
pub mod organization;
pub mod features;
pub mod patterns;
pub mod config;
pub mod conventions;
pub mod depgraph;
pub mod formatter;
pub mod overview;
pub mod git;
pub mod lang;
pub mod locations;
pub mod models;
pub mod scanner;

use vstd::prelude::*;
use crate::config::Config;
use crate::lang::{get_language, language_name};
use crate::models::extension;
use crate::text::{
    chars_of, concat, ends_with_chars, eq_chars, has_prefix, has_suffix, is, replace_char,
    replace_char_chars, slice_of, starts_with, string_of, strs,
};

verus! {

/// How the report is to be rendered.
pub struct AnalyzeOptions {
    pub json_mode: bool,
}

/// The rendered report, with the files that were collected but could not
/// be read or parsed.
pub struct AnalysisOutput {
    pub text: String,
    pub skipped_files: Vec<String>,
}

/// A file name matches an ignore pattern: `*.ext` patterns match by suffix
/// (the pattern without its `*`), any other pattern by equality.
pub open spec fn pattern_matches(file_name: Seq<char>, pattern: Seq<char>) -> bool {
    if has_prefix(pattern, "*."@) {
        has_suffix(file_name, pattern.drop_first())
    } else {
        pattern == file_name
    }
}

/// Whether `file_name` matches one of the ignore `patterns`.
pub fn matches_ignore_pattern(file_name: &str, patterns: &[String]) -> (r: bool)
    ensures
        r == exists|i: int|
            0 <= i < patterns@.len() && pattern_matches(file_name@, #[trigger] patterns@[i]@),
{
    let name = chars_of(file_name);
    let n = patterns.len();
    for i in 0..n
        invariant
            n == patterns@.len(),
            name@ == file_name@,
            forall|j: int| 0 <= j < i ==> !pattern_matches(file_name@, #[trigger] patterns@[j]@),
    {
        let p = chars_of(patterns[i].as_str());
        if starts_with(p.as_slice(), "*.") {
            proof {
                reveal_strlit("*.");
            }
            let rest = slice_of(p.as_slice(), 1, p.len());
            assert(rest@ =~= p@.drop_first());
            if ends_with_chars(name.as_slice(), rest.as_slice()) {
                return true;
            }
        } else if eq_chars(p.as_slice(), name.as_slice()) {
            return true;
        }
    }
    false
}

/// Folders the walks never enter: dependencies, build output, caches and
/// tool state.
pub open spec fn is_ignored_dir_name(name: Seq<char>) -> bool {
    ||| name == "node_modules"@
    ||| name == ".git"@
    ||| name == "dist"@
    ||| name == "build"@
    ||| name == "target"@
    ||| name == ".next"@
    ||| name == ".nuxt"@
    ||| name == "coverage"@
    ||| name == "__pycache__"@
    ||| name == ".venv"@
    ||| name == "vendor"@
    ||| name == ".cache"@
    ||| name == ".output"@
}

/// Whether a walk leaves out an entry named `name`: always for the ignored
/// folder names, and for directories the settings name.
pub fn walk_skips(name: &str, is_dir: bool, extra_ignore_dirs: &Vec<String>) -> (r: bool)
    ensures
        r == (is_ignored_dir_name(name@) || (is_dir && strs(extra_ignore_dirs@).contains(name@))),
{
    let v = chars_of(name);
    let n = v.as_slice();
    if is(n, "node_modules") || is(n, ".git") || is(n, "dist") || is(n, "build") || is(n, "target")
        || is(n, ".next") || is(n, ".nuxt") || is(n, "coverage") || is(n, "__pycache__") || is(
        n,
        ".venv",
    ) || is(n, "vendor") || is(n, ".cache") || is(n, ".output") {
        return true;
    }
    if !is_dir {
        return false;
    }
    let k = extra_ignore_dirs.len();
    for i in 0..k
        invariant
            k == extra_ignore_dirs@.len(),
            is_dir,
            v@ == name@,
            n@ == name@,
            forall|j: int| 0 <= j < i ==> extra_ignore_dirs@[j]@ != name@,
    {
        let d = chars_of(extra_ignore_dirs[i].as_str());
        if eq_chars(d.as_slice(), n) {
            assert(strs(extra_ignore_dirs@)[i as int] == name@);
            return true;
        }
    }
    assert(!strs(extra_ignore_dirs@).contains(name@)) by {
        if strs(extra_ignore_dirs@).contains(name@) {
            let j = choose|j: int| 0 <= j < strs(extra_ignore_dirs@).len() && strs(extra_ignore_dirs@)[j] == name@;
            assert(extra_ignore_dirs@[j]@ == name@);
        }
    }
    false
}

/// A path with `\` separators written with `/`.
pub fn normalize_separators(p: &str) -> (r: String)
    ensures
        r@ == replace_char(p@, '\\', '/'),
{
    let v = chars_of(p);
    let w = replace_char_chars(v.as_slice(), '\\', '/');
    string_of(w.as_slice())
}

/// The language under which a file is collected: none for files above the
/// size limit or matching an ignore pattern; otherwise the language of its
/// extension, if any.
pub open spec fn collected_language(file_name: Seq<char>, size: Option<u64>, config: Config) -> Option<
    Seq<char>,
> {
    if (size matches Some(s) && s > config.max_file_size) || exists|i: int|
        0 <= i < config.ignore_files@.len() && pattern_matches(
            file_name,
            #[trigger] config.ignore_files@[i]@,
        ) {
        None
    } else {
        language_name("."@ + extension(file_name))
    }
}

/// The language under which the file collection keeps a file, if it keeps
/// it; `size` is the file's size when it could be read.
pub fn file_language(file_name: &str, size: Option<u64>, config: &Config) -> (r: Option<String>)
    ensures
        match r {
            Some(l) => collected_language(file_name@, size, *config) == Some(l@),
            None => collected_language(file_name@, size, *config) is None,
        },
{
    match size {
        Some(s) => {
            if s > config.max_file_size {
                return None;
            }
        },
        None => {},
    }
    if matches_ignore_pattern(file_name, config.ignore_files.as_slice()) {
        return None;
    }
    let name = chars_of(file_name);
    let ext = crate::models::extension_of(name.as_slice());
    let dot = chars_of(".");
    let with_dot = concat(dot.as_slice(), ext.as_slice());
    let ext_text = string_of(with_dot.as_slice());
    match get_language(ext_text.as_str()) {
        Some(def) => {
            let l = chars_of(def.name);
            Some(string_of(l.as_slice()))
        },
        None => None,
    }
}

} // verus!
