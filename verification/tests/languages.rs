use rs_codeinsight::lang::{get_language, lang_abbrev};

#[test]
fn extensions_map_to_languages() {
    let cases = [
        (".js", "JavaScript"),
        (".mjs", "JavaScript"),
        (".cjs", "JavaScript"),
        (".jsx", "JavaScript"),
        (".ts", "TypeScript"),
        (".tsx", "TSX"),
        (".py", "Python"),
        (".rs", "Rust"),
        (".go", "Go"),
        (".c", "C"),
        (".h", "C"),
        (".cpp", "C++"),
        (".cc", "C++"),
        (".cxx", "C++"),
        (".hpp", "C++"),
        (".java", "Java"),
        (".rb", "Ruby"),
        (".json", "JSON"),
        (".php", "PHP"),
        (".cs", "C#"),
    ];
    for (ext, name) in cases {
        let def = get_language(ext).expect(ext);
        assert_eq!(def.name, name);
    }
}

#[test]
fn unknown_extensions_have_no_language() {
    for ext in ["", "js", ".JS", ".md", ".PHP", ".csx", ".tsx.bak"] {
        assert!(get_language(ext).is_none(), "{}", ext);
    }
}

#[test]
fn grammars_load_into_a_parser() {
    for ext in [".js", ".ts", ".tsx", ".py", ".rs", ".go", ".c", ".cpp", ".java", ".rb", ".json", ".php", ".cs"] {
        let def = get_language(ext).unwrap();
        let mut parser = tree_sitter::Parser::new();
        assert!(parser.set_language(&def.language).is_ok(), "{}", ext);
    }
}

#[test]
fn the_typescript_grammars_differ() {
    let ts = get_language(".ts").unwrap();
    let tsx = get_language(".tsx").unwrap();
    let mut parser = tree_sitter::Parser::new();
    parser.set_language(&ts.language).unwrap();
    let tree = parser.parse("let a = <T>b;", None).unwrap();
    assert!(!tree.root_node().has_error());
    parser.set_language(&tsx.language).unwrap();
    let tree = parser.parse("let a = <T>b;", None).unwrap();
    assert!(tree.root_node().has_error());
}

#[test]
fn known_languages_have_fixed_labels() {
    let cases = [
        ("JavaScript", "JS"),
        ("TypeScript", "TS"),
        ("TSX", "TSX"),
        ("Python", "Py"),
        ("Rust", "Rs"),
        ("Go", "Go"),
        ("C", "C"),
        ("C++", "C++"),
        ("Java", "Java"),
        ("Ruby", "Rb"),
        ("JSON", "JSON"),
        ("PHP", "PHP"),
        ("C#", "C#"),
    ];
    for (name, label) in cases {
        assert_eq!(lang_abbrev(name), label);
    }
}

#[test]
fn other_names_are_cut_to_four_bytes() {
    assert_eq!(lang_abbrev("Kotlin"), "Kotl");
    assert_eq!(lang_abbrev("Zig"), "Zig");
    assert_eq!(lang_abbrev(""), "");
    assert_eq!(lang_abbrev("Élan"), "Éla");
}

#[test]
fn php_and_c_sharp_sources_parse() {
    let mut parser = tree_sitter::Parser::new();
    parser.set_language(&get_language(".php").unwrap().language).unwrap();
    let tree = parser.parse("<?php function f($a) { return $a; }", None).unwrap();
    assert!(!tree.root_node().has_error());
    parser.set_language(&get_language(".cs").unwrap().language).unwrap();
    let tree = parser.parse("class A { int F() { return 1; } }", None).unwrap();
    assert!(!tree.root_node().has_error());
}
