//! The languages the analysis understands: which file extensions belong to
//! which language, the tree-sitter grammar that parses each, and the short
//! labels the report uses.
use vstd::prelude::*;
use tree_sitter::Language;
use crate::text::{byte_len, byte_len_upto, char_boundary, char_boundary_exec, chars_of, is};

verus! {

/// A tree-sitter grammar; what it holds is the parser crate's business.
#[verifier::external_type_specification]
#[verifier::external_body]
pub struct ExLanguage(Language);

/// A language: its display name and its grammar.
pub struct LangDef {
    pub name: &'static str,
    pub language: Language,
}

/// The language of a file extension (with its dot), if it is one the
/// analysis understands.
pub open spec fn language_name(ext: Seq<char>) -> Option<Seq<char>> {
    if ext == ".js"@ || ext == ".mjs"@ || ext == ".cjs"@ || ext == ".jsx"@ {
        Some("JavaScript"@)
    } else if ext == ".ts"@ {
        Some("TypeScript"@)
    } else if ext == ".tsx"@ {
        Some("TSX"@)
    } else if ext == ".py"@ {
        Some("Python"@)
    } else if ext == ".rs"@ {
        Some("Rust"@)
    } else if ext == ".go"@ {
        Some("Go"@)
    } else if ext == ".c"@ || ext == ".h"@ {
        Some("C"@)
    } else if ext == ".cpp"@ || ext == ".cc"@ || ext == ".cxx"@ || ext == ".hpp"@ {
        Some("C++"@)
    } else if ext == ".java"@ {
        Some("Java"@)
    } else if ext == ".rb"@ {
        Some("Ruby"@)
    } else if ext == ".json"@ {
        Some("JSON"@)
    } else if ext == ".php"@ {
        Some("PHP"@)
    } else if ext == ".cs"@ {
        Some("C#"@)
    } else {
        None
    }
}

/// The JavaScript grammar, `tree_sitter_javascript::LANGUAGE`.
#[verifier::external_body]
fn javascript_grammar() -> Language {
    tree_sitter_javascript::LANGUAGE.into()
}

/// The TypeScript grammar, `tree_sitter_typescript::LANGUAGE_TYPESCRIPT`.
#[verifier::external_body]
fn typescript_grammar() -> Language {
    tree_sitter_typescript::LANGUAGE_TYPESCRIPT.into()
}

/// The TSX grammar, `tree_sitter_typescript::LANGUAGE_TSX`.
#[verifier::external_body]
fn tsx_grammar() -> Language {
    tree_sitter_typescript::LANGUAGE_TSX.into()
}

/// The Python grammar, `tree_sitter_python::LANGUAGE`.
#[verifier::external_body]
fn python_grammar() -> Language {
    tree_sitter_python::LANGUAGE.into()
}

/// The Rust grammar, `tree_sitter_rust::LANGUAGE`.
#[verifier::external_body]
fn rust_grammar() -> Language {
    tree_sitter_rust::LANGUAGE.into()
}

/// The Go grammar, `tree_sitter_go::LANGUAGE`.
#[verifier::external_body]
fn go_grammar() -> Language {
    tree_sitter_go::LANGUAGE.into()
}

/// The C grammar, `tree_sitter_c::LANGUAGE`.
#[verifier::external_body]
fn c_grammar() -> Language {
    tree_sitter_c::LANGUAGE.into()
}

/// The C++ grammar, `tree_sitter_cpp::LANGUAGE`.
#[verifier::external_body]
fn cpp_grammar() -> Language {
    tree_sitter_cpp::LANGUAGE.into()
}

/// The Java grammar, `tree_sitter_java::LANGUAGE`.
#[verifier::external_body]
fn java_grammar() -> Language {
    tree_sitter_java::LANGUAGE.into()
}

/// The Ruby grammar, `tree_sitter_ruby::LANGUAGE`.
#[verifier::external_body]
fn ruby_grammar() -> Language {
    tree_sitter_ruby::LANGUAGE.into()
}

/// The JSON grammar, `tree_sitter_json::LANGUAGE`.
#[verifier::external_body]
fn json_grammar() -> Language {
    tree_sitter_json::LANGUAGE.into()
}

/// The PHP grammar, `tree_sitter_php::LANGUAGE_PHP`.
#[verifier::external_body]
fn php_grammar() -> Language {
    tree_sitter_php::LANGUAGE_PHP.into()
}

/// The C# grammar, `tree_sitter_c_sharp::LANGUAGE`.
#[verifier::external_body]
fn c_sharp_grammar() -> Language {
    tree_sitter_c_sharp::LANGUAGE.into()
}

/// The language and grammar for a file extension (with its dot). The
/// contract fixes the language's name; the grammar is an opaque value of the
/// parser crate, so which grammar comes with the name is not stated.
pub fn get_language(ext: &str) -> (r: Option<LangDef>)
    ensures
        match r {
            Some(d) => language_name(ext@) == Some(d.name@),
            None => language_name(ext@) is None,
        },
{
    let e = chars_of(ext);
    let e = e.as_slice();
    if is(e, ".js") || is(e, ".mjs") || is(e, ".cjs") || is(e, ".jsx") {
        Some(LangDef { name: "JavaScript", language: javascript_grammar() })
    } else if is(e, ".ts") {
        Some(LangDef { name: "TypeScript", language: typescript_grammar() })
    } else if is(e, ".tsx") {
        Some(LangDef { name: "TSX", language: tsx_grammar() })
    } else if is(e, ".py") {
        Some(LangDef { name: "Python", language: python_grammar() })
    } else if is(e, ".rs") {
        Some(LangDef { name: "Rust", language: rust_grammar() })
    } else if is(e, ".go") {
        Some(LangDef { name: "Go", language: go_grammar() })
    } else if is(e, ".c") || is(e, ".h") {
        Some(LangDef { name: "C", language: c_grammar() })
    } else if is(e, ".cpp") || is(e, ".cc") || is(e, ".cxx") || is(e, ".hpp") {
        Some(LangDef { name: "C++", language: cpp_grammar() })
    } else if is(e, ".java") {
        Some(LangDef { name: "Java", language: java_grammar() })
    } else if is(e, ".rb") {
        Some(LangDef { name: "Ruby", language: ruby_grammar() })
    } else if is(e, ".json") {
        Some(LangDef { name: "JSON", language: json_grammar() })
    } else if is(e, ".php") {
        Some(LangDef { name: "PHP", language: php_grammar() })
    } else if is(e, ".cs") {
        Some(LangDef { name: "C#", language: c_sharp_grammar() })
    } else {
        None
    }
}

/// The short label of a language the analysis knows by name.
pub open spec fn known_abbrev(name: Seq<char>) -> Option<Seq<char>> {
    if name == "JavaScript"@ {
        Some("JS"@)
    } else if name == "TypeScript"@ {
        Some("TS"@)
    } else if name == "TSX"@ {
        Some("TSX"@)
    } else if name == "Python"@ {
        Some("Py"@)
    } else if name == "Rust"@ {
        Some("Rs"@)
    } else if name == "Go"@ {
        Some("Go"@)
    } else if name == "C"@ {
        Some("C"@)
    } else if name == "C++"@ {
        Some("C++"@)
    } else if name == "Java"@ {
        Some("Java"@)
    } else if name == "Ruby"@ {
        Some("Rb"@)
    } else if name == "JSON"@ {
        Some("JSON"@)
    } else if name == "PHP"@ {
        Some("PHP"@)
    } else if name == "C#"@ {
        Some("C#"@)
    } else {
        None
    }
}

/// The first four bytes of a name, or all of it when it is shorter.
pub open spec fn abbrev_bytes(name: Seq<char>) -> nat {
    if byte_len(name) < 4 {
        byte_len(name)
    } else {
        4
    }
}

/// A label can be made for `name`: it is a known language, or its first
/// four bytes end on a character boundary.
pub open spec fn abbrev_defined(name: Seq<char>) -> bool {
    known_abbrev(name) is Some || char_boundary(name, abbrev_bytes(name)) is Some
}

/// The short label of a language: the known label, or else the name's first
/// four bytes.
pub open spec fn abbrev(name: Seq<char>) -> Seq<char> {
    match known_abbrev(name) {
        Some(a) => a,
        None => match char_boundary(name, abbrev_bytes(name)) {
            Some(k) => name.take(k as int),
            None => name,
        },
    }
}

/// Every language an extension can map to has one of the fixed short
/// labels, so a label can always be made for it.
pub proof fn lemma_languages_have_labels(ext: Seq<char>)
    ensures
        language_name(ext) matches Some(n) ==> known_abbrev(n) is Some && abbrev_defined(n),
{
}

/// The short label of a language.
pub fn lang_abbrev(name: &str) -> (r: &str)
    requires
        abbrev_defined(name@),
    ensures
        r@ == abbrev(name@),
{
    let v = chars_of(name);
    let s = v.as_slice();
    if is(s, "JavaScript") {
        "JS"
    } else if is(s, "TypeScript") {
        "TS"
    } else if is(s, "TSX") {
        "TSX"
    } else if is(s, "Python") {
        "Py"
    } else if is(s, "Rust") {
        "Rs"
    } else if is(s, "Go") {
        "Go"
    } else if is(s, "C") {
        "C"
    } else if is(s, "C++") {
        "C++"
    } else if is(s, "Java") {
        "Java"
    } else if is(s, "Ruby") {
        "Rb"
    } else if is(s, "JSON") {
        "JSON"
    } else if is(s, "PHP") {
        "PHP"
    } else if is(s, "C#") {
        "C#"
    } else {
        let b = byte_len_upto(s, 4);
        let cut: usize = if b <= 4 {
            b
        } else {
            4
        };
        match char_boundary_exec(s, cut) {
            Some(k) => name.substring_char(0, k),
            None => name,
        }
    }
}

} // verus!
