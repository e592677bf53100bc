use rs_codeinsight::aggregate::{aggregate, assemble_report, AnalysisRow};
use rs_codeinsight::analyzer::{analyse_source, file_result, FileAnalysis, FileStats, FuncInfo};
use rs_codeinsight::depgraph::{DeadCode, DepGraph};
use rs_codeinsight::formatter::{format_compact, AggregatedStats, LangStats};
use rs_codeinsight::git::GitContext;
use rs_codeinsight::locations::KeyLocations;
use rs_codeinsight::models::DataLayer;
use rs_codeinsight::overview::{format_file_index, format_header, format_langs, Shares};
use rs_codeinsight::features::format_features;
use rs_codeinsight::patterns::format_patterns;
use rs_codeinsight::integration::format_io;
use rs_codeinsight::issues::format_issues;
use rs_codeinsight::organization::{format_api, format_organization};
use rs_codeinsight::scanner::{DevNote, ScanResults, TestMap};

const LEGEND: &str = "Legend: f=files L=lines fn=functions cls=classes cx=avg-complexity | file:line:name(NL)=location Np=params | ↑N=imports-from ↓N=imported-by (N)=occurrences (+N)=more | [circular] [isolated] [complex] [large]=file flags\n\n";

fn analysis(lines: u32, functions: u32, classes: u32, complexity: u32) -> FileAnalysis {
    FileAnalysis {
        stats: FileStats { lines, functions, classes, complexity },
        func_names: vec![],
        exported_names: vec![],
        class_names: vec![],
        func_hashes: vec![],
        indent_2space: 0,
        indent_4space: 0,
        indent_tab: 0,
        single_quote_count: 0,
        double_quote_count: 0,
        semicolon_lines: 0,
        no_semicolon_lines: 0,
        arrow_fn_count: 0,
        regular_fn_count: 0,
        default_export_count: 0,
        named_export_count: 0,
        async_count: 0,
        await_count: 0,
        promise_count: 0,
        callback_count: 0,
        try_catch_count: 0,
        throw_count: 0,
        constants: vec![],
        global_state: vec![],
        env_vars: vec![],
        urls: vec![],
        http_routes: vec![],
        file_io_count: 0,
        json_op_count: 0,
        sql_count: 0,
        fetch_count: 0,
        event_listeners: 0,
        event_emitters: 0,
        import_paths: vec![],
        call_patterns: vec![],
    }
}

fn func(name: &str, lines: u32) -> FuncInfo {
    FuncInfo { name: name.to_string(), start_line: 1, params: 0, lines }
}

fn lang(name: &str, files: u32, lines: u32, functions: u32, classes: u32, complexity: u32) -> (String, LangStats) {
    (name.to_string(), LangStats { files, lines, functions, classes, complexity })
}

fn no_shares(n: usize) -> Shares {
    Shares { lines_k_tenths: 0, complexity_tenths: 0, language_percents: vec![0; n], test_percent: 0 }
}

fn empty_graph() -> DepGraph {
    DepGraph {
        nodes: vec![],
        orphans: vec![],
        entry_points: vec![],
        coupling: vec![],
        circular: vec![],
        cross_module_deps: vec![],
        external_imports: vec![],
        modules: vec![],
    }
}

fn nothing_dead() -> DeadCode {
    DeadCode { orphaned_files: vec![], unused_exports: vec![], test_files: vec![], possibly_dead: vec![] }
}

fn no_tests() -> TestMap {
    TestMap { source_count: 0, test_count: 0, covered: vec![], uncovered: vec![] }
}

fn no_data() -> DataLayer {
    DataLayer { model_names: vec![], schema_files: vec![], migration_dirs: vec![], orm: None }
}

#[test]
fn header_shows_totals_thousands_and_mean_complexity() {
    let stats = AggregatedStats {
        files: 3,
        total_lines: 12345,
        by_language: vec![lang("Rust", 2, 12000, 3, 1, 7), lang("Go", 1, 345, 1, 1, 3)],
    };
    let shares = Shares { lines_k_tenths: 123, complexity_tenths: 25, language_percents: vec![97, 2], test_percent: 0 };
    assert_eq!(format_header(&stats, &shares), format!("3f 12.3kL 4fn 2cls cx2.5\n{}", LEGEND));
}

#[test]
fn header_without_functions_shows_zero_complexity() {
    let stats = AggregatedStats { files: 1, total_lines: 999, by_language: vec![lang("JSON", 1, 999, 0, 0, 0)] };
    assert_eq!(format_header(&stats, &no_shares(1)), format!("1f 999L 0fn 0cls cx0\n{}", LEGEND));
}

#[test]
fn langs_line_shows_four_main_languages_with_percentages() {
    let stats = AggregatedStats {
        files: 6,
        total_lines: 200,
        by_language: vec![
            lang("JSON", 1, 10, 0, 0, 0),
            lang("TypeScript", 1, 80, 0, 0, 0),
            lang("Kotlin", 1, 20, 0, 0, 0),
            lang("Python", 1, 80, 0, 0, 0),
            lang("C#", 1, 5, 0, 0, 0),
            lang("Go", 1, 5, 0, 0, 0),
        ],
    };
    let shares = Shares {
        lines_k_tenths: 0,
        complexity_tenths: 0,
        language_percents: vec![5, 40, 10, 40, 2, 2],
        test_percent: 0,
    };
    assert_eq!(format_langs(&stats, &shares), "Langs: TS:40% Py:40% Kotl:10% JSON:5%\n\n");
}

#[test]
fn file_index_lists_the_longest_files_first() {
    let mut big = analysis(600, 2, 0, 0);
    big.func_names = vec![func("a", 60), func("b", 3), func("c", 1), func("d", 1), func("e", 1), func("f", 1), func("g", 1)];
    let mut small = analysis(20, 0, 0, 0);
    small.exported_names = vec!["X".to_string(), "Y".to_string()];
    let fm = vec![("src/small.ts".to_string(), small), ("src/big.ts".to_string(), big)];
    let mut graph = empty_graph();
    graph.coupling = vec![("src/big.ts".to_string(), (2, 1)), ("src/small.ts".to_string(), (1, 0))];
    let stats = AggregatedStats { files: 2, total_lines: 620, by_language: vec![] };
    assert_eq!(
        format_file_index(&stats, &fm, &graph),
        "[File Index]\nbig.ts 600L ↑1 ↓2 [complex][large] fn: a, b, c, d, e, (+2)\nsmall.ts 20L exports: X, Y\n\n"
    );
    let many = AggregatedStats { files: 31, total_lines: 620, by_language: vec![] };
    assert_eq!(format_file_index(&many, &fm, &graph), "");
}

#[test]
fn a_report_of_nothing_still_has_its_header() {
    let stats = AggregatedStats { files: 0, total_lines: 0, by_language: vec![] };
    let text = format_compact(
        &stats,
        &vec![],
        &vec![],
        &vec![],
        &empty_graph(),
        &nothing_dead(),
        &vec![],
        &GitContext::default(),
        &ScanResults::new(),
        &no_tests(),
        &no_data(),
        &KeyLocations { locations: vec![] },
        &no_shares(0),
    );
    assert_eq!(text, format!("0f 0L 0fn 0cls cx0\n{}Langs: \n\n[File Index]", LEGEND));
}

fn note(file: &str, line: u32) -> DevNote {
    DevNote { file: file.to_string(), line, kind: "TODO".to_string(), text: String::new() }
}

fn rows() -> Vec<AnalysisRow> {
    let mut a = analysis(100, 2, 1, 5);
    a.func_hashes = vec![("fn x()".to_string(), "h1".to_string()), ("fn y()".to_string(), "h2".to_string())];
    a.import_paths = vec!["./b".to_string()];
    a.exported_names = vec!["run".to_string()];
    let mut b = analysis(50, 1, 0, 2);
    b.func_hashes = vec![("fn z()".to_string(), "h1".to_string())];
    let mut c = analysis(30, 3, 0, 4);
    c.func_hashes = vec![("def w()".to_string(), "h1".to_string()), ("def v()".to_string(), "h3".to_string())];
    let mut sa = ScanResults::new();
    sa.todos.push(note("src/a.ts", 1));
    let mut sc = ScanResults::new();
    sc.todos.push(note("lib/c.py", 7));
    sc.hacks.push(note("lib/c.py", 9));
    vec![
        ("src/a.ts".to_string(), "TypeScript".to_string(), a, sa),
        ("lib/c.py".to_string(), "Python".to_string(), c, sc),
        ("src/b.ts".to_string(), "TypeScript".to_string(), b, ScanResults::new()),
    ]
}

#[test]
fn aggregate_adds_up_files_languages_and_findings() {
    let agg = aggregate(rows());
    assert_eq!(agg.stats.files, 3);
    assert_eq!(agg.stats.total_lines, 180);
    let langs: Vec<(String, u32, u32, u32, u32, u32)> = agg
        .stats
        .by_language
        .iter()
        .map(|(n, l)| (n.clone(), l.files, l.lines, l.functions, l.classes, l.complexity))
        .collect();
    assert_eq!(
        langs,
        vec![("TypeScript".to_string(), 2, 150, 3, 1, 7), ("Python".to_string(), 1, 30, 3, 0, 4)]
    );
    let paths: Vec<&str> = agg.file_metrics.iter().map(|(p, _)| p.as_str()).collect();
    assert_eq!(paths, vec!["src/a.ts", "lib/c.py", "src/b.ts"]);
    assert_eq!(agg.file_languages[1], ("lib/c.py".to_string(), "Python".to_string()));
    assert_eq!(agg.dep_data[0], ("src/a.ts".to_string(), (vec!["./b".to_string()], vec!["run".to_string()])));
    assert_eq!(agg.scans.todos.len(), 2);
    assert_eq!(agg.scans.todos[1].file, "lib/c.py");
    assert_eq!(agg.scans.hacks.len(), 1);
    assert_eq!(
        agg.duplicates,
        vec![(
            "h1".to_string(),
            vec![
                ("src/a.ts".to_string(), "fn x()".to_string()),
                ("lib/c.py".to_string(), "def w()".to_string()),
                ("src/b.ts".to_string(), "fn z()".to_string()),
            ]
        )]
    );
}

#[test]
fn issues_list_cycles_duplicates_and_long_code() {
    let mut long = analysis(700, 1, 0, 0);
    long.func_names = vec![func("big", 80), func("small", 10)];
    let fm = vec![("src/long.ts".to_string(), long), ("src/b.ts".to_string(), analysis(10, 0, 0, 0))];
    let group = |h: &str, files: &[&str]| -> (String, Vec<(String, String)>) {
        (h.to_string(), files.iter().map(|f| (f.to_string(), "f()".to_string())).collect())
    };
    let dups = vec![
        group("h1", &["src/a.ts", "lib/b.ts", "c.ts", "d.ts"]),
        group("h2", &["x.ts", "y.ts"]),
        group("h3", &["x.ts", "y.ts"]),
        group("h4", &["p.ts", "q.ts"]),
    ];
    assert_eq!(
        format_issues(2, &dups, &fm),
        "[Issues]\n2 circular dependency chain(s)\nDuplication: a.ts, b.ts, c.ts(4×) | x.ts, y.ts(2×) | x.ts, y.ts(2×) (+1)\n1 file(s) over 500 lines\n1 function(s) over 50 lines\n\n"
    );
    assert_eq!(format_issues(0, &vec![], &vec![]), "");
}

#[test]
fn assembled_report_uses_the_graph_of_the_files() {
    let agg = aggregate(rows());
    let shares = Shares { lines_k_tenths: 0, complexity_tenths: 18, language_percents: vec![83, 16], test_percent: 0 };
    let out = assemble_report(
        &agg,
        &vec![],
        &vec![],
        &GitContext::default(),
        &no_tests(),
        &no_data(),
        &KeyLocations { locations: vec![] },
        &shares,
    );
    assert_eq!(out.graph.nodes.len(), 3);
    assert_eq!(out.graph.coupling, vec![("src/a.ts".to_string(), (0, 1)), ("src/b.ts".to_string(), (1, 0))]);
    assert!(out.text.starts_with(&format!("3f 180L 6fn 1cls cx1.8\n{}Langs: TS:83% Py:16%\n\n", LEGEND)));
    assert!(out.text.contains("[Issues]\nDuplication: a.ts, c.py, b.ts(3×)\n\n"));
    assert!(out.text.ends_with("[File Index]\na.ts 100L ↑1 exports: run\nb.ts 50L ↓1\nc.py 30L [isolated]"));
}

fn strings(v: &[&str]) -> Vec<String> {
    v.iter().map(|s| s.to_string()).collect()
}

#[test]
fn io_section_lists_every_env_var_and_route() {
    let mut a = analysis(10, 0, 0, 0);
    a.env_vars = strings(&["A", "B", "C", "D", "E", "F", "G", "H", "I"]);
    a.urls = strings(&["https://example.com/a", "https://example.com/a/very/long/path/that/goes/on/and/on"]);
    a.http_routes = strings(&["GET /a", "POST /b", "GET /c", "GET /d", "GET /e", "GET /f", "GET /g", "GET /h", "GET /i", "GET /j", "GET /k"]);
    a.file_io_count = 2;
    a.sql_count = 1;
    a.event_emitters = 3;
    let mut b = analysis(10, 0, 0, 0);
    b.env_vars = strings(&["B", "J"]);
    b.urls = strings(&["u3", "u4", "u5", "u6"]);
    b.json_op_count = 4;
    b.event_listeners = 1;
    let fm = vec![("a.ts".to_string(), a), ("b.ts".to_string(), b)];
    assert_eq!(
        format_io(&fm),
        "[I/O & Integration]\nEnv vars: A, B, C, D, E, F, G, H, I, J\nURLs: https://example.com/a, https://example.com/a/very/long/path/..., u3, u4, u5 (+1)\nRoutes: GET /a, POST /b, GET /c, GET /d, GET /e, GET /f, GET /g, GET /h, GET /i, GET /j, GET /k\nStorage: files(2), JSON(4), SQL(1)\nEvents: emit(3), listen(1)\n\n"
    );
}

#[test]
fn io_section_needs_env_urls_routes_files_or_fetches() {
    let mut a = analysis(10, 0, 0, 0);
    a.http_routes = strings(&["GET /a"]);
    a.json_op_count = 2;
    assert_eq!(
        format_io(&vec![("a.ts".to_string(), a)]),
        "[I/O & Integration]\nRoutes: GET /a\nStorage: JSON(2)\n\n"
    );
    let mut j = analysis(10, 0, 0, 0);
    j.json_op_count = 2;
    j.event_emitters = 1;
    assert_eq!(format_io(&vec![("j.ts".to_string(), j)]), "");
    let mut b = analysis(10, 0, 0, 0);
    b.fetch_count = 1;
    assert_eq!(format_io(&vec![("b.ts".to_string(), b)]), "[I/O & Integration]\n\n");
}

fn with_params(name: &str, start_line: u32, params: u32) -> FuncInfo {
    FuncInfo { name: name.to_string(), start_line, params, lines: 3 }
}

#[test]
fn organization_shows_long_files_and_many_parameters() {
    let mut a = analysis(250, 1, 0, 0);
    a.func_names = vec![with_params("wide", 12, 7), with_params("narrow", 30, 2)];
    let b = analysis(900, 0, 0, 0);
    let c = analysis(150, 0, 0, 0);
    let mut d = analysis(201, 0, 0, 0);
    d.func_names = vec![with_params("huge", 3, 6)];
    let fm = vec![
        ("src/a.ts".to_string(), a),
        ("src/b.ts".to_string(), b),
        ("src/c.ts".to_string(), c),
        ("lib/d.ts".to_string(), d),
    ];
    assert_eq!(
        format_organization(&fm),
        "[Code Organization]\nLarge files: src/b.ts:900L, src/a.ts:250L, lib/d.ts:201L\nMany params: a.ts:12:wide(7p), d.ts:3:huge(6p)\n\n"
    );
    assert_eq!(format_organization(&vec![("x.ts".to_string(), analysis(200, 0, 0, 0))]), "");
}

#[test]
fn api_surface_lists_exported_functions_classes_and_entries() {
    let mut a = analysis(10, 2, 1, 0);
    a.func_names = vec![with_params("run", 4, 1), with_params("helper", 9, 0)];
    a.exported_names = strings(&["run", "Config"]);
    a.class_names = strings(&["Config"]);
    let fm = vec![("src/main.ts".to_string(), a)];
    let mut graph = empty_graph();
    graph.entry_points = strings(&["src/index.ts", "lib/util.js"]);
    assert_eq!(
        format_api(&fm, &graph),
        "[API Surface]\nExported fns: main.ts:4:run(1p)\nClasses: Config\nEntry files: index, util\n\n"
    );
    assert_eq!(format_api(&vec![("b.ts".to_string(), analysis(1, 0, 0, 0))], &graph), "");
}

#[test]
fn features_group_files_by_top_folder() {
    let fm = vec![
        ("src/a.ts".to_string(), analysis(1, 2, 0, 0)),
        ("lib\\x.ts".to_string(), analysis(1, 1, 0, 0)),
        ("src/deep/b.ts".to_string(), analysis(1, 3, 0, 0)),
        ("top.ts".to_string(), analysis(1, 9, 0, 0)),
        ("lib/y.ts".to_string(), analysis(1, 0, 0, 0)),
        ("src/c.ts".to_string(), analysis(1, 1, 0, 0)),
        ("src/d.ts".to_string(), analysis(1, 0, 0, 0)),
        ("one/z.ts".to_string(), analysis(1, 5, 0, 0)),
    ];
    assert_eq!(
        format_features(&fm),
        "[Features]\nsrc: 4f, 6fn (a.ts, b.ts, c.ts)\nlib: 2f, 1fn (x.ts, y.ts)\n\n"
    );
    assert_eq!(format_features(&vec![("a/b.ts".to_string(), analysis(1, 0, 0, 0))]), "");
}

#[test]
fn code_patterns_merge_calls_and_cap_constants() {
    let mut a = analysis(1, 0, 0, 0);
    a.async_count = 2;
    a.await_count = 3;
    a.callback_count = 1;
    a.try_catch_count = 4;
    a.call_patterns = vec![
        ("parse".to_string(), 2),
        ("console.log".to_string(), 9),
        ("Build".to_string(), 5),
        ("émit".to_string(), 1),
        ("render".to_string(), 1),
    ];
    a.constants = (1..=8).map(|i| (format!("K{}", i), "1".to_string())).collect();
    a.global_state = strings(&["cache"]);
    let mut b = analysis(1, 0, 0, 0);
    b.call_patterns = vec![("render".to_string(), 4), ("parse".to_string(), 1)];
    let fm = vec![("a.ts".to_string(), a), ("b.ts".to_string(), b)];
    assert_eq!(
        format_patterns(&fm),
        "[Code Patterns]\nAsync: async(2), await(3), callbacks(1)\nErrors: try/catch(4)\nInternal calls: render(5), parse(3), émit(1)\nConstants: K1, K2, K3, K4, K5, K6 (+2)\nGlobal state: cache\n\n"
    );
    let mut c = analysis(1, 0, 0, 0);
    c.await_count = 2;
    c.throw_count = 1;
    assert_eq!(format_patterns(&vec![("c.ts".to_string(), c)]), "");
}

#[test]
fn the_report_carries_no_markdown_or_emoji() {
    let agg = aggregate(rows());
    let shares = Shares { lines_k_tenths: 0, complexity_tenths: 18, language_percents: vec![83, 16], test_percent: 0 };
    let out = assemble_report(
        &agg,
        &vec![],
        &vec![],
        &GitContext::default(),
        &no_tests(),
        &no_data(),
        &KeyLocations { locations: vec![] },
        &shares,
    );
    assert!(!out.text.contains("**"));
    assert!(!out.text.contains('#'));
    assert!(out.text.chars().all(|c| (c as u32) < 0x2600 || c == '×'));
}

#[test]
fn a_file_with_only_routes_still_shows_them() {
    let mut a = analysis(10, 0, 0, 0);
    a.http_routes = strings(&["GET /health"]);
    assert_eq!(format_io(&vec![("r.ts".to_string(), a)]), "[I/O & Integration]\nRoutes: GET /health\n\n");
}

#[test]
fn sources_are_parsed_by_their_language() {
    let (a, s) = analyse_source("src/a.ts", ".ts", "// TODO tidy\nconst x = 1;\n").unwrap();
    assert_eq!(a.stats.lines, 2);
    assert_eq!(a.stats.functions, 0);
    assert_eq!(s.todos.len(), 1);
    assert!(analyse_source("notes.md", ".md", "# hi\n").is_none());
    let (p, _) = analyse_source("x.php", ".php", "<?php echo 1;\n").unwrap();
    assert_eq!(p.stats.lines, 1);
}

#[test]
fn file_results_follow_the_parse_outcome() {
    assert!(file_result("a.rs", ".rs", "fn f() {}\n", false).is_none());
    assert!(file_result("a.xyz", ".xyz", "x\n", true).is_none());
    let (a, _) = file_result("a.rs", ".rs", "a\nb\r\nc", true).unwrap();
    assert_eq!(a.stats.lines, 3);
}

#[test]
fn every_grammar_keeps_a_file_of_its_language() {
    let cases = [
        ("a.js", ".js", "let a = 1;\n"),
        ("a.mjs", ".mjs", "export const a = 1;\n"),
        ("a.cjs", ".cjs", "module.exports = {};\n"),
        ("a.jsx", ".jsx", "const e = <div />;\n"),
        ("a.ts", ".ts", "let a: number = 1;\n"),
        ("a.tsx", ".tsx", "const e = <div />;\n"),
        ("a.py", ".py", "def f():\n    return 1\n"),
        ("a.rs", ".rs", "fn main() {}\n"),
        ("a.go", ".go", "package main\n"),
        ("a.c", ".c", "int main(void) { return 0; }\n"),
        ("a.h", ".h", "int f(void);\n"),
        ("a.cpp", ".cpp", "int main() { return 0; }\n"),
        ("a.cc", ".cc", "int f();\n"),
        ("a.cxx", ".cxx", "int f();\n"),
        ("a.hpp", ".hpp", "class A {};\n"),
        ("A.java", ".java", "class A {}\n"),
        ("a.rb", ".rb", "def f; end\n"),
        ("a.json", ".json", "{\"a\": 1}\n"),
        ("a.php", ".php", "<?php echo 1;\n"),
        ("a.cs", ".cs", "class A {}\n"),
    ];
    for (path, ext, src) in cases {
        let (a, _) = analyse_source(path, ext, src).expect(ext);
        assert_eq!(a.stats.lines, src.lines().count() as u32, "{}", ext);
    }
    let (r, s) = analyse_source("src/main.rs", ".rs", "// FIXME later\nfn main() {}\n").unwrap();
    assert_eq!(r.stats.lines, 2);
    assert_eq!(s.fixmes.len(), 1);
    assert!(analyse_source("a.txt", ".txt", "fn main() {}\n").is_none());
}
