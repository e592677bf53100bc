use rs_codeinsight::git::{analyze_git, GitContext};

fn s(x: &str) -> Option<String> {
    Some(x.to_string())
}

#[test]
fn outside_a_repository_nothing_is_read() {
    let ctx = analyze_git(false, s("main"), s("abc fix\n"), s(" M a.rs\n"), s("a.rs\n"));
    assert!(!ctx.is_repo);
    assert!(ctx.branch.is_none());
    assert!(ctx.recent_commits.is_empty());
    assert!(ctx.uncommitted.is_empty());
    assert!(ctx.hot_files.is_empty());
}

#[test]
fn default_context_is_empty() {
    let ctx = GitContext::default();
    assert!(!ctx.is_repo);
    assert!(ctx.branch.is_none());
}

#[test]
fn branch_is_trimmed_and_commits_are_lines() {
    let ctx = analyze_git(true, s("feature/x\n"), s("a1b2c3 first\r\nd4e5f6 second\n"), None, None);
    assert!(ctx.is_repo);
    assert_eq!(ctx.branch.as_deref(), Some("feature/x"));
    assert_eq!(ctx.recent_commits, vec!["a1b2c3 first".to_string(), "d4e5f6 second".to_string()]);
    assert!(ctx.uncommitted.is_empty());
    assert!(ctx.hot_files.is_empty());
}

#[test]
fn failed_calls_leave_fields_empty() {
    let ctx = analyze_git(true, None, None, None, None);
    assert!(ctx.is_repo);
    assert!(ctx.branch.is_none());
    assert!(ctx.recent_commits.is_empty());
}

#[test]
fn status_lines_name_the_changed_paths() {
    let status = "?? new.rs\nM  staged.rs\n M src/lib.rs\n\nab\n";
    let ctx = analyze_git(true, None, None, s(status), None);
    assert_eq!(
        ctx.uncommitted,
        vec!["new.rs".to_string(), "staged.rs".to_string(), "src/lib.rs".to_string(), "ab".to_string()]
    );
}

#[test]
fn status_example_of_two_changes() {
    let ctx = analyze_git(true, None, None, s(" M src/a.rs\n?? new.txt\n"), None);
    assert_eq!(ctx.uncommitted, vec!["src/a.rs".to_string(), "new.txt".to_string()]);
}

#[test]
fn short_status_lines_are_trimmed() {
    let ctx = analyze_git(true, None, None, s(" ab\n"), None);
    assert_eq!(ctx.uncommitted, vec!["ab".to_string()]);
}

#[test]
fn status_cut_counts_bytes_not_characters() {
    // "é" takes two bytes, so "éAB" is cut after "éA".
    let ctx = analyze_git(true, None, None, s("éABCD\n"), None);
    assert_eq!(ctx.uncommitted, vec!["BCD".to_string()]);
}

#[test]
fn hot_files_are_counted_and_ordered() {
    let hash = "0123456789abcdef0123456789abcdef01234567";
    let log = format!("{h}\n\na.rs\nb.rs\n{h}\n\nb.rs\nc.rs\n{h}\n\nb.rs\na.rs\n", h = hash);
    let ctx = analyze_git(true, None, None, None, Some(log));
    assert_eq!(
        ctx.hot_files,
        vec![("b.rs".to_string(), 3), ("a.rs".to_string(), 2), ("c.rs".to_string(), 1)]
    );
}

#[test]
fn at_most_eight_hot_files_and_the_most_changed_first() {
    let mut log = String::new();
    for i in 0..12u32 {
        for _ in 0..=i {
            log.push_str(&format!("f{}.rs\n", i));
        }
    }
    let ctx = analyze_git(true, None, None, None, Some(log));
    assert_eq!(ctx.hot_files.len(), 8);
    assert_eq!(ctx.hot_files[0], ("f11.rs".to_string(), 12));
    assert_eq!(ctx.hot_files[7], ("f4.rs".to_string(), 5));
    for w in ctx.hot_files.windows(2) {
        assert!(w[0].1 >= w[1].1);
    }
}

#[test]
fn a_last_line_without_newline_keeps_its_carriage_return() {
    let ctx = analyze_git(true, None, s("a1 one\r\nb2 two\r"), None, None);
    assert_eq!(ctx.recent_commits, vec!["a1 one".to_string(), "b2 two\r".to_string()]);
}
