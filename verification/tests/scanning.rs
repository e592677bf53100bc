use rs_codeinsight::scanner::{map_tests, scan_source, ScanResults};

#[test]
fn new_results_are_empty() {
    let r = ScanResults::new();
    assert!(r.todos.is_empty() && r.fixmes.is_empty() && r.hacks.is_empty() && r.security.is_empty());
}

#[test]
fn notes_in_comments_are_collected() {
    let src = "fn a() {}\n// TODO: handle errors\n  # FIXME - broken on windows\n/* HACK */\nlet todo = \"TODO later\";\n";
    let r = scan_source("src/a.rs", src);
    assert_eq!(r.todos.len(), 1);
    assert_eq!(r.todos[0].line, 2);
    assert_eq!(r.todos[0].text, "handle errors");
    assert_eq!(r.todos[0].kind, "TODO");
    assert_eq!(r.todos[0].file, "src/a.rs");
    assert_eq!(r.fixmes.len(), 1);
    assert_eq!(r.fixmes[0].line, 3);
    assert_eq!(r.fixmes[0].text, "broken on windows");
    assert_eq!(r.hacks.len(), 1);
    assert_eq!(r.hacks[0].text, "*/");
}

#[test]
fn note_text_is_cut_at_eighty_characters() {
    let long = "x".repeat(100);
    let r = scan_source("a.js", &format!("// TODO {}", long));
    assert_eq!(r.todos[0].text.chars().count(), 80);
}

#[test]
fn eval_is_flagged_unless_commented_or_json() {
    let src = "eval(code);\n// eval(code)\nconst v = eval(JSON.parse(x));\n";
    let r = scan_source("app.js", src);
    let evals: Vec<u32> = r.security.iter().filter(|s| s.kind == "eval").map(|s| s.line).collect();
    assert_eq!(evals, vec![1]);
    assert_eq!(r.security[0].detail, "eval() usage");
}

#[test]
fn hardcoded_secrets_are_flagged_in_any_case() {
    let src = "const PASSWORD = \"hunter2\";\nconst apiKey = process.env.API_KEY || 'x';\nconst token = 'abc123';\n";
    let r = scan_source("src/config.js", src);
    let lines: Vec<u32> = r.security.iter().filter(|s| s.kind == "secret").map(|s| s.line).collect();
    assert_eq!(lines, vec![1, 3]);
}

#[test]
fn secrets_in_test_files_are_not_flagged() {
    let r = scan_source("src/auth.test.js", "const password = \"hunter2\";\n");
    assert!(r.security.is_empty());
}

#[test]
fn sql_interpolation_is_flagged() {
    let src = "db.query(`SELECT * FROM users WHERE id = ${id}`);\ndb.query('SELECT 1');\n";
    let r = scan_source("repo.ts", src);
    let lines: Vec<u32> = r.security.iter().filter(|s| s.kind == "sql_injection").map(|s| s.line).collect();
    assert_eq!(lines, vec![1]);
}

#[test]
fn tests_are_paired_with_sources() {
    let files: Vec<String> = ["src/a.ts", "src/a.test.ts", "src/b.ts", "pkg/tests/c.rs", "src/c.rs", "lib/d.spec.js", "lib/d.js"]
        .iter()
        .map(|s| s.to_string())
        .collect();
    let m = map_tests(&files);
    assert_eq!(m.test_count, 3);
    assert_eq!(m.source_count, 4);
    assert_eq!(
        m.covered,
        vec![
            ("src/a.ts".to_string(), "src/a.test.ts".to_string()),
            ("src/c.rs".to_string(), "pkg/tests/c.rs".to_string()),
            ("lib/d.js".to_string(), "lib/d.spec.js".to_string()),
        ]
    );
    assert_eq!(m.uncovered, vec!["src/b.ts".to_string()]);
    assert_eq!(m.covered.len() + m.uncovered.len(), m.source_count as usize);
}

#[test]
fn the_last_test_for_a_name_wins() {
    let files: Vec<String> = ["x/a.test.js", "y/a.spec.js", "z/a.js"].iter().map(|s| s.to_string()).collect();
    let m = map_tests(&files);
    assert_eq!(m.covered, vec![("z/a.js".to_string(), "y/a.spec.js".to_string())]);
}
