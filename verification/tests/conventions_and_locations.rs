use rs_codeinsight::analyzer::{FileAnalysis, FileStats};
use rs_codeinsight::conventions::{detect_conventions, detect_file_naming, LanguageConventions};
use rs_codeinsight::locations::detect_key_locations_from_paths;

fn blank() -> FileAnalysis {
    FileAnalysis {
        stats: FileStats { lines: 0, functions: 0, classes: 0, complexity: 0 },
        func_names: vec![],
        exported_names: vec![],
        class_names: vec![],
        func_hashes: vec![],
        indent_2space: 0,
        indent_4space: 0,
        indent_tab: 0,
        single_quote_count: 0,
        double_quote_count: 0,
        semicolon_lines: 0,
        no_semicolon_lines: 0,
        arrow_fn_count: 0,
        regular_fn_count: 0,
        default_export_count: 0,
        named_export_count: 0,
        async_count: 0,
        await_count: 0,
        promise_count: 0,
        callback_count: 0,
        try_catch_count: 0,
        throw_count: 0,
        constants: vec![],
        global_state: vec![],
        env_vars: vec![],
        urls: vec![],
        http_routes: vec![],
        file_io_count: 0,
        json_op_count: 0,
        sql_count: 0,
        fetch_count: 0,
        event_listeners: 0,
        event_emitters: 0,
        import_paths: vec![],
        call_patterns: vec![],
    }
}

fn js_style() -> FileAnalysis {
    let mut a = blank();
    a.indent_2space = 10;
    a.single_quote_count = 7;
    a.double_quote_count = 3;
    a.semicolon_lines = 8;
    a.no_semicolon_lines = 2;
    a.arrow_fn_count = 4;
    a.regular_fn_count = 1;
    a.named_export_count = 5;
    a.import_paths = vec!["./a".to_string(), "../b".to_string(), "react".to_string()];
    a
}

fn chars(paths: &[&str]) -> Vec<Vec<char>> {
    paths.iter().map(|p| p.chars().collect()).collect()
}

fn view(r: &[LanguageConventions]) -> Vec<(String, Vec<String>)> {
    r.iter().map(|c| (c.language.clone(), c.conventions.clone())).collect()
}

#[test]
fn file_naming_majority() {
    assert_eq!(detect_file_naming(&chars(&["src/my-file.ts", "src/other-file.ts", "src/Button.tsx"])), Some("kebab-case files".to_string()));
    assert_eq!(detect_file_naming(&chars(&["a/Button.tsx", "a/Card.tsx", "a/my_util.ts"])), Some("PascalCase files".to_string()));
    assert_eq!(detect_file_naming(&chars(&["a/useThing.ts"])), Some("camelCase files".to_string()));
    assert_eq!(detect_file_naming(&chars(&["a/my_mod.rs"])), Some("snake_case files".to_string()));
    assert_eq!(detect_file_naming(&chars(&["index.ts", "main.rs", "x.py", "plain.go"])), None);
}

#[test]
fn ties_prefer_kebab_then_pascal_then_camel() {
    assert_eq!(detect_file_naming(&chars(&["a-b.ts", "Ab.ts"])), Some("kebab-case files".to_string()));
    assert_eq!(detect_file_naming(&chars(&["aB.ts", "Ab.ts"])), Some("PascalCase files".to_string()));
    assert_eq!(detect_file_naming(&chars(&["aB.ts", "a_b.ts"])), Some("camelCase files".to_string()));
}

#[test]
fn javascript_conventions() {
    let fm = vec![("src/app-shell.js".to_string(), js_style())];
    let fl = vec![("src/app-shell.js".to_string(), "JavaScript".to_string())];
    let r = detect_conventions(&fm, &fl);
    assert_eq!(
        view(&r),
        vec![(
            "JS".to_string(),
            vec![
                "2-space".to_string(),
                "single quotes".to_string(),
                "semicolons".to_string(),
                "arrow functions".to_string(),
                "named exports".to_string(),
                "relative imports".to_string(),
                "kebab-case files".to_string(),
            ]
        )]
    );
}

#[test]
fn ratios_at_the_threshold_decide_nothing() {
    let mut a = blank();
    a.single_quote_count = 3;
    a.double_quote_count = 2;
    a.semicolon_lines = 7;
    a.no_semicolon_lines = 3;
    let fm = vec![("x.js".to_string(), a)];
    let fl = vec![("x.js".to_string(), "JavaScript".to_string())];
    assert!(detect_conventions(&fm, &fl).is_empty());
}

#[test]
fn equal_js_and_ts_conventions_merge() {
    let fm = vec![
        ("a/one-x.js".to_string(), js_style()),
        ("a/two-x.ts".to_string(), js_style()),
        ("main.go".to_string(), blank()),
    ];
    let fl = vec![
        ("a/one-x.js".to_string(), "JavaScript".to_string()),
        ("a/two-x.ts".to_string(), "TypeScript".to_string()),
        ("main.go".to_string(), "Go".to_string()),
    ];
    let r = detect_conventions(&fm, &fl);
    let labels: Vec<String> = r.iter().map(|c| c.language.clone()).collect();
    assert_eq!(labels, vec!["Go".to_string(), "JS/TS".to_string()]);
    assert_eq!(r[0].conventions, vec!["tabs".to_string()]);
}

#[test]
fn python_and_rust_conventions() {
    let mut py = blank();
    py.indent_4space = 3;
    py.double_quote_count = 9;
    py.single_quote_count = 1;
    let mut rs = blank();
    rs.call_patterns = vec![("x.unwrap".to_string(), 3), ("y.expect".to_string(), 1)];
    let fm = vec![("pkg/data_io.py".to_string(), py), ("src/my_lib.rs".to_string(), rs)];
    let fl = vec![("pkg/data_io.py".to_string(), "Python".to_string()), ("src/my_lib.rs".to_string(), "Rust".to_string())];
    let r = detect_conventions(&fm, &fl);
    assert_eq!(
        view(&r),
        vec![
            ("Py".to_string(), vec!["4-space".to_string(), "double quotes".to_string(), "snake_case files".to_string()]),
            ("Rs".to_string(), vec![".unwrap()".to_string(), "snake_case files".to_string()]),
        ]
    );
}

#[test]
fn go_error_checks_are_noticed() {
    let mut g = blank();
    g.call_patterns = vec![("errors.New".to_string(), 2)];
    let fm = vec![("svc/handler.go".to_string(), g)];
    let fl = vec![("svc/handler.go".to_string(), "Go".to_string())];
    let r = detect_conventions(&fm, &fl);
    assert_eq!(view(&r), vec![("Go".to_string(), vec!["tabs".to_string(), "if err != nil".to_string()])]);
}

#[test]
fn key_locations_are_counted_and_sorted() {
    let paths: Vec<String> = [
        "src/components/Button.tsx",
        "src/components/Card.tsx",
        "src/components/forms/Input.tsx",
        "src/hooks/useX.ts",
        "src/utils/a.ts",
        "src/utils/b.ts",
        "src/utils/c.ts",
        "README.md",
    ]
    .iter()
    .map(|s| s.to_string())
    .collect();
    let r = detect_key_locations_from_paths(&paths);
    let got: Vec<(String, String, u32)> =
        r.locations.iter().map(|l| (l.label.clone(), l.path.clone(), l.count)).collect();
    assert_eq!(got.len(), 3);
    assert!(got.contains(&("Utilities".to_string(), "src/utils".to_string(), 3)));
    assert!(got.contains(&("Components".to_string(), "src/components".to_string(), 3)));
    assert_eq!(got[2], ("Hooks".to_string(), "src/hooks".to_string(), 1));
    for w in got.windows(2) {
        assert!(w[0].2 >= w[1].2);
    }
}
