//! The per-file measurements that the rest of the analysis reads, and the
//! step that parses one source file and decides whether it is kept. This
//! crate's parse step only decides whether a file is kept and counts its
//! lines: the counts that a walk of the syntax tree would give (functions,
//! classes, imports, exports and the style and pattern counters) are not
//! made here and stay at zero.
use vstd::prelude::*;
use tree_sitter::Parser;
use crate::lang::{get_language, language_name};
use crate::scanner::{issue_views, issues_in, note_views, notes_in, scan_source, ScanResults};
use crate::text::{chars_of, is, lines, lines_str};

verus! {

/// The size of one file: its lines, functions, classes and the summed
/// complexity of its functions.
pub struct FileStats {
    pub lines: u32,
    pub functions: u32,
    pub classes: u32,
    pub complexity: u32,
}

/// One function of a file: its name, the line it starts on, how many
/// parameters it takes and how many lines it spans.
pub struct FuncInfo {
    pub name: String,
    pub start_line: u32,
    pub params: u32,
    pub lines: u32,
}

/// The measurements of one file. The parse step of this crate fills in the
/// line count only; every count that a walk of the syntax tree would give is
/// left at zero (see `measured`).
pub struct FileAnalysis {
    pub stats: FileStats,
    /// The functions of the file, in source order.
    pub func_names: Vec<FuncInfo>,
    /// The names the file exports.
    pub exported_names: Vec<String>,
    /// The classes the file declares.
    pub class_names: Vec<String>,
    /// Each function's signature with the hash of its normalised body.
    pub func_hashes: Vec<(String, String)>,
    pub indent_2space: u32,
    pub indent_4space: u32,
    pub indent_tab: u32,
    pub single_quote_count: u32,
    pub double_quote_count: u32,
    pub semicolon_lines: u32,
    pub no_semicolon_lines: u32,
    pub arrow_fn_count: u32,
    pub regular_fn_count: u32,
    pub default_export_count: u32,
    pub named_export_count: u32,
    pub async_count: u32,
    pub await_count: u32,
    pub promise_count: u32,
    pub callback_count: u32,
    pub try_catch_count: u32,
    pub throw_count: u32,
    /// The constants the file declares, by name and value.
    pub constants: Vec<(String, String)>,
    /// The names of module-level mutable state.
    pub global_state: Vec<String>,
    /// The environment variables the file reads.
    pub env_vars: Vec<String>,
    /// The URLs written in the file.
    pub urls: Vec<String>,
    /// The HTTP routes the file declares.
    pub http_routes: Vec<String>,
    pub file_io_count: u32,
    pub json_op_count: u32,
    pub sql_count: u32,
    pub fetch_count: u32,
    pub event_listeners: u32,
    pub event_emitters: u32,
    /// The import specifiers of the file.
    pub import_paths: Vec<String>,
    /// Calls by callee text, with how often each occurs.
    pub call_patterns: Vec<(String, u32)>,
}

/// Whether the tree-sitter grammar of the language named `lang` takes
/// `source`: a fresh `Parser` accepts the grammar through `set_language` and
/// `parse` of the whole text gives back a tree. The parse depends on the
/// grammar and the text alone (no timeout or cancellation flag is set).
pub uninterp spec fn grammar_parses(lang: Seq<char>, source: Seq<char>) -> bool;

/// `Parser::new`, `Parser::set_language` with `tree_sitter_javascript::LANGUAGE`, then
/// `Parser::parse` of the whole of `source`: true when the grammar loads and
/// a tree comes back.
#[verifier::external_body]
fn parses_javascript(source: &str) -> (r: bool)
    ensures
        r == grammar_parses("JavaScript"@, source@),
{
    let mut parser = Parser::new();
    match parser.set_language(&tree_sitter_javascript::LANGUAGE.into()) {
        Ok(()) => parser.parse(source, None).is_some(),
        Err(_) => false,
    }
}

/// `Parser::new`, `Parser::set_language` with `tree_sitter_typescript::LANGUAGE_TYPESCRIPT`, then
/// `Parser::parse` of the whole of `source`: true when the grammar loads and
/// a tree comes back.
#[verifier::external_body]
fn parses_typescript(source: &str) -> (r: bool)
    ensures
        r == grammar_parses("TypeScript"@, source@),
{
    let mut parser = Parser::new();
    match parser.set_language(&tree_sitter_typescript::LANGUAGE_TYPESCRIPT.into()) {
        Ok(()) => parser.parse(source, None).is_some(),
        Err(_) => false,
    }
}

/// `Parser::new`, `Parser::set_language` with `tree_sitter_typescript::LANGUAGE_TSX`, then
/// `Parser::parse` of the whole of `source`: true when the grammar loads and
/// a tree comes back.
#[verifier::external_body]
fn parses_tsx(source: &str) -> (r: bool)
    ensures
        r == grammar_parses("TSX"@, source@),
{
    let mut parser = Parser::new();
    match parser.set_language(&tree_sitter_typescript::LANGUAGE_TSX.into()) {
        Ok(()) => parser.parse(source, None).is_some(),
        Err(_) => false,
    }
}

/// `Parser::new`, `Parser::set_language` with `tree_sitter_python::LANGUAGE`, then
/// `Parser::parse` of the whole of `source`: true when the grammar loads and
/// a tree comes back.
#[verifier::external_body]
fn parses_python(source: &str) -> (r: bool)
    ensures
        r == grammar_parses("Python"@, source@),
{
    let mut parser = Parser::new();
    match parser.set_language(&tree_sitter_python::LANGUAGE.into()) {
        Ok(()) => parser.parse(source, None).is_some(),
        Err(_) => false,
    }
}

/// `Parser::new`, `Parser::set_language` with `tree_sitter_rust::LANGUAGE`, then
/// `Parser::parse` of the whole of `source`: true when the grammar loads and
/// a tree comes back.
#[verifier::external_body]
fn parses_rust(source: &str) -> (r: bool)
    ensures
        r == grammar_parses("Rust"@, source@),
{
    let mut parser = Parser::new();
    match parser.set_language(&tree_sitter_rust::LANGUAGE.into()) {
        Ok(()) => parser.parse(source, None).is_some(),
        Err(_) => false,
    }
}

/// `Parser::new`, `Parser::set_language` with `tree_sitter_go::LANGUAGE`, then
/// `Parser::parse` of the whole of `source`: true when the grammar loads and
/// a tree comes back.
#[verifier::external_body]
fn parses_go(source: &str) -> (r: bool)
    ensures
        r == grammar_parses("Go"@, source@),
{
    let mut parser = Parser::new();
    match parser.set_language(&tree_sitter_go::LANGUAGE.into()) {
        Ok(()) => parser.parse(source, None).is_some(),
        Err(_) => false,
    }
}

/// `Parser::new`, `Parser::set_language` with `tree_sitter_c::LANGUAGE`, then
/// `Parser::parse` of the whole of `source`: true when the grammar loads and
/// a tree comes back.
#[verifier::external_body]
fn parses_c(source: &str) -> (r: bool)
    ensures
        r == grammar_parses("C"@, source@),
{
    let mut parser = Parser::new();
    match parser.set_language(&tree_sitter_c::LANGUAGE.into()) {
        Ok(()) => parser.parse(source, None).is_some(),
        Err(_) => false,
    }
}

/// `Parser::new`, `Parser::set_language` with `tree_sitter_cpp::LANGUAGE`, then
/// `Parser::parse` of the whole of `source`: true when the grammar loads and
/// a tree comes back.
#[verifier::external_body]
fn parses_cpp(source: &str) -> (r: bool)
    ensures
        r == grammar_parses("C++"@, source@),
{
    let mut parser = Parser::new();
    match parser.set_language(&tree_sitter_cpp::LANGUAGE.into()) {
        Ok(()) => parser.parse(source, None).is_some(),
        Err(_) => false,
    }
}

/// `Parser::new`, `Parser::set_language` with `tree_sitter_java::LANGUAGE`, then
/// `Parser::parse` of the whole of `source`: true when the grammar loads and
/// a tree comes back.
#[verifier::external_body]
fn parses_java(source: &str) -> (r: bool)
    ensures
        r == grammar_parses("Java"@, source@),
{
    let mut parser = Parser::new();
    match parser.set_language(&tree_sitter_java::LANGUAGE.into()) {
        Ok(()) => parser.parse(source, None).is_some(),
        Err(_) => false,
    }
}

/// `Parser::new`, `Parser::set_language` with `tree_sitter_ruby::LANGUAGE`, then
/// `Parser::parse` of the whole of `source`: true when the grammar loads and
/// a tree comes back.
#[verifier::external_body]
fn parses_ruby(source: &str) -> (r: bool)
    ensures
        r == grammar_parses("Ruby"@, source@),
{
    let mut parser = Parser::new();
    match parser.set_language(&tree_sitter_ruby::LANGUAGE.into()) {
        Ok(()) => parser.parse(source, None).is_some(),
        Err(_) => false,
    }
}

/// `Parser::new`, `Parser::set_language` with `tree_sitter_json::LANGUAGE`, then
/// `Parser::parse` of the whole of `source`: true when the grammar loads and
/// a tree comes back.
#[verifier::external_body]
fn parses_json(source: &str) -> (r: bool)
    ensures
        r == grammar_parses("JSON"@, source@),
{
    let mut parser = Parser::new();
    match parser.set_language(&tree_sitter_json::LANGUAGE.into()) {
        Ok(()) => parser.parse(source, None).is_some(),
        Err(_) => false,
    }
}

/// `Parser::new`, `Parser::set_language` with `tree_sitter_php::LANGUAGE_PHP`, then
/// `Parser::parse` of the whole of `source`: true when the grammar loads and
/// a tree comes back.
#[verifier::external_body]
fn parses_php(source: &str) -> (r: bool)
    ensures
        r == grammar_parses("PHP"@, source@),
{
    let mut parser = Parser::new();
    match parser.set_language(&tree_sitter_php::LANGUAGE_PHP.into()) {
        Ok(()) => parser.parse(source, None).is_some(),
        Err(_) => false,
    }
}

/// `Parser::new`, `Parser::set_language` with `tree_sitter_c_sharp::LANGUAGE`, then
/// `Parser::parse` of the whole of `source`: true when the grammar loads and
/// a tree comes back.
#[verifier::external_body]
fn parses_c_sharp(source: &str) -> (r: bool)
    ensures
        r == grammar_parses("C#"@, source@),
{
    let mut parser = Parser::new();
    match parser.set_language(&tree_sitter_c_sharp::LANGUAGE.into()) {
        Ok(()) => parser.parse(source, None).is_some(),
        Err(_) => false,
    }
}

/// Whether the grammar of the extension's language takes `source`; false
/// for an extension that names no language.
fn parses_as(ext: &str, source: &str) -> (r: bool)
    ensures
        match language_name(ext@) {
            Some(n) => r == grammar_parses(n, source@),
            None => !r,
        },
{
    let v = chars_of(ext);
    let e = v.as_slice();
    if is(e, ".js") || is(e, ".mjs") || is(e, ".cjs") || is(e, ".jsx") {
        parses_javascript(source)
    } else if is(e, ".ts") {
        parses_typescript(source)
    } else if is(e, ".tsx") {
        parses_tsx(source)
    } else if is(e, ".py") {
        parses_python(source)
    } else if is(e, ".rs") {
        parses_rust(source)
    } else if is(e, ".go") {
        parses_go(source)
    } else if is(e, ".c") || is(e, ".h") {
        parses_c(source)
    } else if is(e, ".cpp") || is(e, ".cc") || is(e, ".cxx") || is(e, ".hpp") {
        parses_cpp(source)
    } else if is(e, ".java") {
        parses_java(source)
    } else if is(e, ".rb") {
        parses_ruby(source)
    } else if is(e, ".json") {
        parses_json(source)
    } else if is(e, ".php") {
        parses_php(source)
    } else if is(e, ".cs") {
        parses_c_sharp(source)
    } else {
        false
    }
}

/// A file's measurements before any syntax-tree count: its lines, and
/// nothing else.
pub open spec fn measured(a: FileAnalysis, lines: u32) -> bool {
    &&& a.stats.lines == lines
    &&& a.stats.functions == 0 && a.stats.classes == 0 && a.stats.complexity == 0
    &&& a.func_names@.len() == 0 && a.exported_names@.len() == 0 && a.class_names@.len() == 0
    &&& a.func_hashes@.len() == 0 && a.constants@.len() == 0 && a.global_state@.len() == 0
    &&& a.env_vars@.len() == 0 && a.urls@.len() == 0 && a.http_routes@.len() == 0
    &&& a.import_paths@.len() == 0 && a.call_patterns@.len() == 0
    &&& a.async_count == 0 && a.await_count == 0 && a.promise_count == 0 && a.callback_count == 0
    &&& a.try_catch_count == 0 && a.throw_count == 0
    &&& a.file_io_count == 0 && a.json_op_count == 0 && a.sql_count == 0 && a.fetch_count == 0
    &&& a.event_listeners == 0 && a.event_emitters == 0
    &&& a.indent_2space == 0 && a.indent_4space == 0 && a.indent_tab == 0
    &&& a.single_quote_count == 0 && a.double_quote_count == 0
    &&& a.semicolon_lines == 0 && a.no_semicolon_lines == 0
    &&& a.arrow_fn_count == 0 && a.regular_fn_count == 0
    &&& a.default_export_count == 0 && a.named_export_count == 0
}

/// The measurements of a file of `lines` lines.
pub fn with_lines(lines: u32) -> (a: FileAnalysis)
    ensures
        measured(a, lines),
{
    FileAnalysis {
        stats: FileStats { lines, functions: 0, classes: 0, complexity: 0 },
        func_names: Vec::new(),
        exported_names: Vec::new(),
        class_names: Vec::new(),
        func_hashes: Vec::new(),
        async_count: 0,
        await_count: 0,
        promise_count: 0,
        callback_count: 0,
        try_catch_count: 0,
        throw_count: 0,
        constants: Vec::new(),
        global_state: Vec::new(),
        env_vars: Vec::new(),
        urls: Vec::new(),
        http_routes: Vec::new(),
        file_io_count: 0,
        json_op_count: 0,
        sql_count: 0,
        fetch_count: 0,
        event_listeners: 0,
        event_emitters: 0,
        indent_2space: 0,
        indent_4space: 0,
        indent_tab: 0,
        single_quote_count: 0,
        double_quote_count: 0,
        semicolon_lines: 0,
        no_semicolon_lines: 0,
        arrow_fn_count: 0,
        regular_fn_count: 0,
        default_export_count: 0,
        named_export_count: 0,
        import_paths: Vec::new(),
        call_patterns: Vec::new(),
    }
}

/// What one source file gives: nothing when its extension names no
/// language or its grammar did not parse it (`parsed` false); else its
/// measurements, counted by lines, and what the scan finds in it.
pub fn file_result(rel_path: &str, ext: &str, source: &str, parsed: bool) -> (r: Option<
    (FileAnalysis, ScanResults),
>)
    requires
        lines(source@).len() <= u32::MAX,
    ensures
        r is Some <==> (language_name(ext@) is Some && parsed),
        r matches Some(x) ==> {
            &&& measured(x.0, lines(source@).len() as u32)
            &&& note_views(x.1.todos@) == notes_in(rel_path@, lines(source@), "TODO"@, 4, "TODO"@)
            &&& note_views(x.1.fixmes@) == notes_in(rel_path@, lines(source@), "FIXME"@, 5, "FIXME"@)
            &&& note_views(x.1.hacks@) == notes_in(rel_path@, lines(source@), "HACK"@, 4, "HACK"@)
            &&& issue_views(x.1.security@) == issues_in(rel_path@, lines(source@))
        },
{
    if !parsed || get_language(ext).is_none() {
        return None;
    }
    let n = lines_str(source).len();
    let analysis = with_lines(n as u32);
    Some((analysis, scan_source(rel_path, source)))
}

/// Parses one source file with the grammar of its extension and, when the
/// grammar takes it, measures and scans it: a file is kept exactly when its
/// extension names a language whose grammar parses the text.
pub fn analyse_source(rel_path: &str, ext: &str, source: &str) -> (r: Option<(FileAnalysis, ScanResults)>)
    requires
        lines(source@).len() <= u32::MAX,
    ensures
        r is Some <==> (language_name(ext@) matches Some(n) && grammar_parses(n, source@)),
        r matches Some(x) ==> {
            &&& measured(x.0, lines(source@).len() as u32)
            &&& note_views(x.1.todos@) == notes_in(rel_path@, lines(source@), "TODO"@, 4, "TODO"@)
            &&& note_views(x.1.fixmes@) == notes_in(rel_path@, lines(source@), "FIXME"@, 5, "FIXME"@)
            &&& note_views(x.1.hacks@) == notes_in(rel_path@, lines(source@), "HACK"@, 4, "HACK"@)
            &&& issue_views(x.1.security@) == issues_in(rel_path@, lines(source@))
        },
{
    let parsed = parses_as(ext, source);
    file_result(rel_path, ext, source, parsed)
}

} // verus!
