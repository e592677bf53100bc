use rs_codeinsight::depgraph::{build_dep_graph, detect_dead_code, dir_of_chars, path_file_name, DepGraph, FileEntry};
use std::path::Path;

fn entry(path: &str, imports: &[&str], exports: &[&str]) -> FileEntry {
    (
        path.to_string(),
        (
            imports.iter().map(|s| s.to_string()).collect(),
            exports.iter().map(|s| s.to_string()).collect(),
        ),
    )
}

fn node<'a>(g: &'a DepGraph, path: &str) -> &'a rs_codeinsight::depgraph::DepNode {
    &g.nodes.iter().find(|(p, _)| p == path).unwrap().1
}

fn sample() -> Vec<FileEntry> {
    vec![
        entry("src/index.ts", &["./utils", "react", "@scope/pkg/sub", "./missing"], &["main"]),
        entry("src/utils.ts", &[], &["helper"]),
        entry("src/orphan.ts", &[], &["lonely"]),
        entry("api/server.ts", &["../src/utils", "express", "src/utils"], &[]),
    ]
}

#[test]
fn imports_resolve_with_extensions() {
    let g = build_dep_graph(&sample());
    assert_eq!(node(&g, "src/index.ts").imports_from, vec!["src/utils.ts".to_string()]);
    assert_eq!(node(&g, "src/utils.ts").imported_by, vec!["src/index.ts".to_string()]);
    assert!(node(&g, "src/orphan.ts").imported_by.is_empty());
    assert!(node(&g, "api/server.ts").imports_from.is_empty());
}

#[test]
fn orphans_entries_and_coupling() {
    let g = build_dep_graph(&sample());
    assert_eq!(g.orphans, vec!["src/orphan.ts".to_string()]);
    assert_eq!(g.entry_points, vec!["src/utils.ts".to_string()]);
    assert_eq!(
        g.coupling,
        vec![("src/index.ts".to_string(), (0, 1)), ("src/utils.ts".to_string(), (1, 0))]
    );
    assert!(g.circular.is_empty());
}

#[test]
fn external_packages_are_counted() {
    let g = build_dep_graph(&sample());
    let mut ext = g.external_imports.clone();
    ext.sort();
    assert_eq!(
        ext,
        vec![("@scope/pkg".to_string(), 1), ("express".to_string(), 1), ("react".to_string(), 1)]
    );
}

#[test]
fn modules_group_by_first_directory() {
    let g = build_dep_graph(&sample());
    let src = &g.modules.iter().find(|(m, _)| m == "src").unwrap().1;
    assert_eq!((src.files, src.connections, src.imports, src.exports), (3, 2, 1, 1));
    let api = &g.modules.iter().find(|(m, _)| m == "api").unwrap().1;
    assert_eq!((api.files, api.connections), (1, 0));
    assert!(g.cross_module_deps.is_empty());
}

#[test]
fn cross_module_imports_are_listed_once() {
    let files = vec![
        entry("web/a.ts", &["./b"], &[]),
        entry("web/b.ts", &[], &["b"]),
        entry("web/c.ts", &["./b"], &[]),
        entry("app.ts", &["./web/b", "./web/c"], &[]),
    ];
    let g = build_dep_graph(&files);
    assert_eq!(g.cross_module_deps, vec![("app.ts".to_string(), "web".to_string())]);
    assert_eq!(node(&g, "web/b.ts").imported_by.len(), 3);
    assert!(g.modules.iter().all(|(m, _)| m == "web"));
}

#[test]
fn circular_imports_are_found() {
    let files = vec![
        entry("a.js", &["./b"], &["a"]),
        entry("b.js", &["./c.js"], &["b"]),
        entry("c.js", &["./a"], &["c"]),
    ];
    let g = build_dep_graph(&files);
    assert_eq!(g.circular.len(), 1);
    let cycle = &g.circular[0];
    assert_eq!(cycle.len(), 4);
    assert_eq!(cycle.first(), cycle.last());
}

#[test]
fn index_files_resolve() {
    let files = vec![entry("main.ts", &["./lib/"], &[]), entry("lib/index.ts", &[], &["x"])];
    let g = build_dep_graph(&files);
    assert_eq!(node(&g, "main.ts").imports_from, vec!["lib/index.ts".to_string()]);
}

#[test]
fn dead_code_report() {
    let files = vec![
        entry("src/index.ts", &["./utils"], &["main"]),
        entry("src/utils.ts", &[], &["helper"]),
        entry("src/orphan.ts", &[], &["lonely", "alone"]),
        entry("src/unused.ts", &["./utils"], &["u"]),
        entry("src/a.test.ts", &[], &[]),
        entry("src/app.config.ts", &[], &["cfg"]),
        entry("cmd/tool.go", &[], &["Run"]),
    ];
    let g = build_dep_graph(&files);
    let dead = detect_dead_code(&g);
    assert_eq!(dead.test_files, vec!["src/a.test.ts".to_string()]);
    assert_eq!(
        dead.unused_exports,
        vec![
            ("src/orphan.ts".to_string(), vec!["lonely".to_string(), "alone".to_string()]),
            ("src/unused.ts".to_string(), vec!["u".to_string()]),
        ]
    );
    assert_eq!(dead.orphaned_files, vec!["src/orphan.ts".to_string()]);
    assert!(dead.possibly_dead.is_empty());
}

#[test]
fn single_importer_leaves_are_possibly_dead() {
    let files = vec![entry("src/page.ts", &["./leaf"], &[]), entry("src/leaf.ts", &[], &["x"])];
    let g = build_dep_graph(&files);
    let dead = detect_dead_code(&g);
    assert_eq!(dead.possibly_dead, vec![("src/leaf.ts".to_string(), "page.ts".to_string())]);
}

fn chars(s: &str) -> Vec<char> {
    s.chars().collect()
}

fn text(v: Vec<char>) -> String {
    v.into_iter().collect()
}

#[test]
fn directories_and_file_names_follow_std_path() {
    let cases = [
        "", "a", "a.ts", "/", "/a.ts", "//b", "a/b", "a//b", "a/b/", "a/b//", "a/./b", "a/.",
        "./a", ".", "./", ".//x", "..", "a/..", "../b", "/./x", "a/b/c.ts", "x/./", "a./", ".x/y",
        "///", "a/b/../c", "./.", "src//lib.rs/",
    ];
    for p in cases {
        let parent = Path::new(p).parent().map(|q| q.to_string_lossy().to_string()).unwrap_or_default();
        let name = Path::new(p).file_name().map(|f| f.to_string_lossy().to_string()).unwrap_or_default();
        assert_eq!(text(dir_of_chars(&chars(p))), parent, "parent of {:?}", p);
        assert_eq!(text(path_file_name(&chars(p))), name, "file name of {:?}", p);
    }
}

#[test]
fn imports_from_a_rooted_path_resolve_under_the_root() {
    let g = build_dep_graph(&vec![entry("/a.ts", &["./b"], &[]), entry("//b", &[], &["x"])]);
    assert_eq!(node(&g, "/a.ts").imports_from, vec!["//b".to_string()]);
    assert_eq!(node(&g, "//b").imported_by, vec!["/a.ts".to_string()]);
}
