use rs_codeinsight::config::{parse_config, Config};
use rs_codeinsight::depgraph::{DeadCode, DepGraph, ModuleInfo};
use rs_codeinsight::formatter::{
    build_flags, finish_report, format_architecture, format_compact, format_data_layer, format_dead_code,
    format_dev_notes, format_git, format_key_locations, format_modules, format_security,
    format_tech_stack, format_test_map, AggregatedStats, LangStats,
};
use rs_codeinsight::git::GitContext;
use rs_codeinsight::locations::{KeyLocation, KeyLocations};
use rs_codeinsight::models::DataLayer;
use rs_codeinsight::features::format_features;
use rs_codeinsight::patterns::format_patterns;
use rs_codeinsight::integration::format_io;
use rs_codeinsight::issues::format_issues;
use rs_codeinsight::organization::{format_api, format_organization};
use rs_codeinsight::overview::{format_file_index, format_header, format_langs, Shares};
use rs_codeinsight::scanner::{DevNote, ScanResults, SecurityIssue, TestMap};
use rs_codeinsight::{file_language, normalize_separators, walk_skips, AnalysisOutput, AnalyzeOptions};

fn strings(v: &[&str]) -> Vec<String> {
    v.iter().map(|s| s.to_string()).collect()
}

fn note(file: &str, line: u32, text: &str) -> DevNote {
    DevNote { file: file.to_string(), line, kind: "TODO".to_string(), text: text.to_string() }
}

fn issue(file: &str, line: u32, kind: &str) -> SecurityIssue {
    SecurityIssue { file: file.to_string(), line, kind: kind.to_string(), detail: String::new() }
}

#[test]
fn walks_skip_tool_folders_and_configured_directories() {
    let extra = strings(&["generated"]);
    assert!(walk_skips("node_modules", false, &extra));
    assert!(walk_skips(".git", true, &extra));
    assert!(walk_skips("generated", true, &extra));
    assert!(!walk_skips("generated", false, &extra));
    assert!(!walk_skips("src", true, &extra));
}

#[test]
fn separators_are_normalized() {
    assert_eq!(normalize_separators("a\\b\\c.rs"), "a/b/c.rs");
    assert_eq!(normalize_separators("a/b"), "a/b");
}

#[test]
fn files_are_collected_by_language_size_and_pattern() {
    let cfg = parse_config("[ignore]\nfiles = [\"*.min.js\"]\n[limits]\nmax_file_size = 1000\n");
    assert_eq!(file_language("app.ts", Some(10), &cfg), Some("TypeScript".to_string()));
    assert_eq!(file_language("app.min.js", Some(10), &cfg), None);
    assert_eq!(file_language("big.ts", Some(1001), &cfg), None);
    assert_eq!(file_language("big.ts", Some(1000), &cfg), Some("TypeScript".to_string()));
    assert_eq!(file_language("unknown.ts", None, &cfg), Some("TypeScript".to_string()));
    assert_eq!(file_language("README.md", Some(1), &cfg), None);
    assert_eq!(file_language(".rs", Some(1), &cfg), None);
    assert_eq!(file_language("Makefile", Some(1), &Config::default()), None);
    assert_eq!(file_language("x.test.jsx", Some(1), &Config::default()), Some("JavaScript".to_string()));
}

#[test]
fn options_and_outputs_hold_their_values() {
    let o = AnalyzeOptions { json_mode: true };
    assert!(o.json_mode);
    let out = AnalysisOutput { text: "x".to_string(), skipped_files: vec!["a.rs".to_string()] };
    assert_eq!(out.text, "x");
    assert_eq!(out.skipped_files, vec!["a.rs".to_string()]);
    assert_eq!(out.text, "x");
    let s = AggregatedStats { files: 1, total_lines: 2, by_language: vec![("Rust".to_string(), LangStats::default())] };
    assert_eq!(s.by_language[0].1.lines, 0);
}

#[test]
fn dev_notes_section() {
    let mut scans = ScanResults::new();
    assert_eq!(format_dev_notes(&scans), "");
    for i in 1..=7 {
        scans.todos.push(note("src/a.rs", i, if i == 2 { "" } else { "fix" }));
    }
    scans.hacks.push(note("lib/b.ts", 9, "quick"));
    let text = format_dev_notes(&scans);
    assert_eq!(
        text,
        "[Developer Notes]\nTODO(7): a.rs:1 \"fix\", a.rs:2, a.rs:3 \"fix\", a.rs:4 \"fix\", a.rs:5 \"fix\" (+2)\nHACK(1): b.ts:9 \"quick\"\n\n"
    );
}

#[test]
fn data_layer_section() {
    let d = DataLayer {
        model_names: strings(&["User", "Post"]),
        schema_files: strings(&["prisma/schema.prisma"]),
        migration_dirs: vec![],
        orm: Some("Prisma".to_string()),
    };
    assert_eq!(
        format_data_layer(&d),
        "[Data Layer]\nModels: User, Post\nSchema: prisma/schema.prisma\nORM: Prisma\n\n"
    );
    let empty = DataLayer { model_names: vec![], schema_files: vec![], migration_dirs: vec![], orm: None };
    assert_eq!(format_data_layer(&empty), "");
}

#[test]
fn key_locations_section_shows_busy_folders_only() {
    let k = KeyLocations {
        locations: vec![
            KeyLocation { label: "Utilities".to_string(), path: "src/utils".to_string(), count: 3 },
            KeyLocation { label: "Hooks".to_string(), path: "src/hooks".to_string(), count: 1 },
        ],
    };
    assert_eq!(format_key_locations(&k), "[Key Locations]\nUtilities: src/utils (3 files)\n\n");
    let quiet = KeyLocations { locations: vec![KeyLocation { label: "Hooks".to_string(), path: "h".to_string(), count: 1 }] };
    assert_eq!(format_key_locations(&quiet), "");
}

#[test]
fn git_section() {
    let g = GitContext {
        is_repo: true,
        branch: Some("main".to_string()),
        recent_commits: strings(&["a1 one", "b2 two"]),
        uncommitted: strings(&["a", "b", "c", "d", "e", "f"]),
        hot_files: vec![("src/lib.rs".to_string(), 4)],
    };
    assert_eq!(
        format_git(&g),
        "[Recent Activity]\nBranch: main\nLast commits: a1 one | b2 two\nUncommitted: 6 file(s): a, b, c, d, e (+1)\nHot files: lib.rs(4)\n\n"
    );
    let mut outside = GitContext::default();
    outside.branch = Some("x".to_string());
    assert_eq!(format_git(&outside), "");
}

#[test]
fn dead_code_section() {
    let d = DeadCode {
        orphaned_files: strings(&["src/old.ts"]),
        unused_exports: vec![("src/old.ts".to_string(), strings(&["a", "b"]))],
        test_files: strings(&["x.test.ts", "y.test.ts"]),
        possibly_dead: vec![("src/leaf.ts".to_string(), "page.ts".to_string())],
    };
    assert_eq!(
        format_dead_code(&d),
        "[Dead Code & Tests]\nUnused exports: old.ts(a,b)\nOrphaned: old.ts\nTest files: 2\nPossibly dead: leaf.ts (only used by page.ts)\n\n"
    );
}

#[test]
fn test_map_section() {
    let t = TestMap {
        source_count: 3,
        test_count: 1,
        covered: vec![("src/a.ts".to_string(), "src/a.test.ts".to_string())],
        uncovered: strings(&["src/b.ts", "src/c.ts"]),
    };
    assert_eq!(
        format_test_map(&t, 33),
        "[Test Map]\nCovered: a.ts → a.test.ts\nUncovered: b.ts, c.ts\nTest ratio: 1 test / 3 source (33%)\n\n"
    );
    let none = TestMap { source_count: 0, test_count: 0, covered: vec![], uncovered: vec![] };
    assert_eq!(format_test_map(&none, 50), "");
}

#[test]
fn security_section_groups_by_kind_in_order_of_appearance() {
    let mut scans = ScanResults::new();
    scans.security = vec![
        issue("src/a.js", 3, "secret"),
        issue("src/b.js", 1, "eval"),
        issue("src/c.js", 7, "secret"),
        issue("src/d.js", 2, "custom"),
    ];
    assert_eq!(
        format_security(&scans),
        "[Security]\nPossible hardcoded secrets: a.js:3, c.js:7\neval() usage: b.js:1\ncustom: d.js:2\n\n"
    );
}

#[test]
fn report_ends_without_trailing_white_space() {
    let parts = strings(&["[A]\nx\n\n", "", "[B]\n"]);
    assert_eq!(finish_report(&parts), "[A]\nx\n\n[B]");
    assert_eq!(finish_report(&vec![]), "");
}

fn sample_graph() -> DepGraph {
    DepGraph {
        nodes: vec![],
        orphans: vec![],
        entry_points: vec![],
        coupling: vec![
            ("src/index.ts".to_string(), (1, 2)),
            ("src/utils.ts".to_string(), (2, 0)),
            ("src/api.ts".to_string(), (1, 1)),
            ("app.ts".to_string(), (0, 2)),
            ("lib/helper.ts".to_string(), (1, 0)),
        ],
        circular: vec![strings(&["a/x.ts", "a/y.ts", "a/x.ts"])],
        cross_module_deps: vec![
            ("app.ts".to_string(), "src".to_string()),
            ("app.ts".to_string(), "lib".to_string()),
            ("app.ts".to_string(), "src".to_string()),
        ],
        external_imports: vec![
            ("fs".to_string(), 3),
            ("react".to_string(), 2),
            ("axios".to_string(), 5),
            ("express".to_string(), 2),
            ("path".to_string(), 1),
        ],
        modules: vec![
            ("src".to_string(), ModuleInfo { files: 3, connections: 7, imports: 3, exports: 4 }),
            ("lib".to_string(), ModuleInfo { files: 1, connections: 1, imports: 0, exports: 1 }),
            ("web".to_string(), ModuleInfo { files: 2, connections: 5, imports: 4, exports: 1 }),
        ],
    }
}

#[test]
fn architecture_section() {
    let stats = AggregatedStats { files: 5, total_lines: 0, by_language: vec![] };
    assert_eq!(
        format_architecture(&stats, &sample_graph()),
        "[Architecture]\nKey files: index(↑2↓1), utils(↑0↓2), api(↑1↓1), app(↑2↓0), helper(↑0↓1)\nCircular: x.ts→y.ts→x.ts\nExternal deps: axios(5), react(2), express(2)\nCross-module: app.ts→src, app.ts→lib\nModule flow: providers: src, lib | consumers: web\n\n"
    );
    let small = AggregatedStats { files: 2, total_lines: 0, by_language: vec![] };
    assert_eq!(format_architecture(&small, &sample_graph()), "");
}

#[test]
fn modules_section() {
    let stats = AggregatedStats { files: 5, total_lines: 0, by_language: vec![] };
    assert_eq!(
        format_modules(&stats, &sample_graph()),
        "[Modules]\nsrc: 3f, 7cx, 3↑, 4↓\nweb: 2f, 5cx, 4↑, 1↓\nlib: 1f, 1cx, 0↑, 1↓\n\n"
    );
    let small = AggregatedStats { files: 4, total_lines: 0, by_language: vec![] };
    assert_eq!(format_modules(&small, &sample_graph()), "");
}

#[test]
fn compact_report_joins_the_sections() {
    let stats = AggregatedStats { files: 5, total_lines: 0, by_language: vec![] };
    let graph = sample_graph();
    let dead = DeadCode { orphaned_files: vec![], unused_exports: vec![], test_files: vec![], possibly_dead: vec![] };
    let git = GitContext::default();
    let mut scans = ScanResults::new();
    scans.todos.push(note("a.rs", 1, "x"));
    let tm = TestMap { source_count: 1, test_count: 0, covered: vec![], uncovered: vec![] };
    let dl = DataLayer { model_names: vec![], schema_files: vec![], migration_dirs: vec![], orm: None };
    let kl = KeyLocations { locations: vec![] };
    let shares = Shares { lines_k_tenths: 0, complexity_tenths: 0, language_percents: vec![], test_percent: 0 };
    let text = format_compact(&stats, &vec![], &vec![], &vec![], &graph, &dead, &vec![], &git, &scans, &tm, &dl, &kl, &shares);
    let expected = format!(
        "{}{}{}{}{}{}{}{}{}{}{}{}",
        format_header(&stats, &shares),
        format_langs(&stats, &shares),
        format_patterns(&vec![]),
        format_io(&vec![]),
        format_features(&vec![]),
        format_dev_notes(&scans),
        format_organization(&vec![]),
        format_architecture(&stats, &graph),
        format_api(&vec![], &graph),
        format_issues(graph.circular.len(), &vec![], &vec![]),
        format_modules(&stats, &graph),
        format_file_index(&stats, &vec![], &graph)
    );
    assert_eq!(text, expected.trim_end());
    assert!(text.starts_with("5f 0L 0fn 0cls cx0\nLegend:"));
    assert!(text.contains("Langs: \n\n[Developer Notes]"));
    assert!(text.contains("[Issues]\n1 circular dependency chain(s)\n\n[Modules]"));
    assert!(text.ends_with("lib: 1f, 1cx, 0↑, 1↓\n\n[File Index]"));
}

fn lang(name: &str, lines: u32) -> (String, LangStats) {
    let mut l = LangStats::default();
    l.lines = lines;
    (name.to_string(), l)
}

#[test]
fn tech_stack_section() {
    let stats = AggregatedStats {
        files: 9,
        total_lines: 135,
        by_language: vec![lang("Rust", 10), lang("TypeScript", 50), lang("Go", 50), lang("JSON", 5), lang("Python", 20)],
    };
    let mut graph = sample_graph();
    graph.external_imports = vec![
        ("stripe".to_string(), 1),
        ("ioredis".to_string(), 2),
        ("vite".to_string(), 1),
        ("@sentry".to_string(), 1),
        ("zod".to_string(), 3),
    ];
    let frameworks = strings(&["Next.js", "React", "Next.js"]);
    let go_modules = strings(&["github.com/go-redis/redis", "google.golang.org/grpc", "github.com/lib/pq"]);
    assert_eq!(
        format_tech_stack(&stats, &graph, &frameworks, &go_modules),
        "[Tech Stack]\nStack: Next.js, React, Stripe, Redis, Vite, Sentry, Zod, gRPC\nLanguages: TypeScript, Go, Python, Rust\n\n"
    );
    let empty = AggregatedStats { files: 0, total_lines: 0, by_language: vec![] };
    assert_eq!(format_tech_stack(&empty, &sample_graph(), &vec![], &vec![]), "");
}

#[test]
fn file_flags() {
    let mut graph = sample_graph();
    graph.orphans = strings(&["lone.ts"]);
    assert_eq!(build_flags(10, &vec![3, 4], &graph, "a/x.ts"), "[circular]");
    assert_eq!(build_flags(501, &vec![51], &graph, "lone.ts"), "[isolated][complex][large]");
    assert_eq!(build_flags(500, &vec![50], &graph, "b.ts"), "");
}

#[test]
fn every_model_is_listed() {
    let names: Vec<String> = (1..=17).map(|i| format!("M{}", i)).collect();
    let d = DataLayer { model_names: names.clone(), schema_files: vec![], migration_dirs: vec![], orm: None };
    assert_eq!(format_data_layer(&d), format!("[Data Layer]\nModels: {}\n\n", names.join(", ")));
}
