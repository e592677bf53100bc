use rs_codeinsight::config::{parse_config, Config};
use rs_codeinsight::matches_ignore_pattern;

fn strings(v: &[&str]) -> Vec<String> {
    v.iter().map(|s| s.to_string()).collect()
}

#[test]
fn default_config_has_200_kib_limit() {
    let c = Config::default();
    assert!(c.ignore_dirs.is_empty());
    assert!(c.ignore_files.is_empty());
    assert_eq!(c.max_file_size, 204800);
}

#[test]
fn empty_text_gives_default_settings() {
    let c = parse_config("");
    assert!(c.ignore_dirs.is_empty());
    assert!(c.ignore_files.is_empty());
    assert_eq!(c.max_file_size, 200 * 1024);
}

#[test]
fn full_settings_file_is_read() {
    let text = "# project settings\n\n[ignore]\ndirs = [\"generated\", \"fixtures\"]\nfiles = [\"*.min.js\", \"bundle.js\"]\n\n[limits]\nmax_file_size = 1048576\n";
    let c = parse_config(text);
    assert_eq!(c.ignore_dirs, strings(&["generated", "fixtures"]));
    assert_eq!(c.ignore_files, strings(&["*.min.js", "bundle.js"]));
    assert_eq!(c.max_file_size, 1048576);
}

#[test]
fn keys_outside_their_section_are_ignored() {
    let text = "dirs = [\"a\"]\nmax_file_size = 10\n[other]\nfiles = [\"b\"]\n[limits]\ndirs = [\"c\"]\n";
    let c = parse_config(text);
    assert!(c.ignore_dirs.is_empty());
    assert!(c.ignore_files.is_empty());
    assert_eq!(c.max_file_size, 204800);
}

#[test]
fn later_settings_replace_earlier_ones() {
    let text = "[ignore]\ndirs = [\"a\"]\ndirs = [\"b\", \"c\"]\n[limits]\nmax_file_size = 5\nmax_file_size = 7\n";
    let c = parse_config(text);
    assert_eq!(c.ignore_dirs, strings(&["b", "c"]));
    assert_eq!(c.max_file_size, 7);
}

#[test]
fn bad_sizes_keep_the_previous_limit() {
    let c = parse_config("[limits]\nmax_file_size = big\n");
    assert_eq!(c.max_file_size, 204800);
    let c = parse_config("[limits]\nmax_file_size = -5\n");
    assert_eq!(c.max_file_size, 204800);
    let c = parse_config("[limits]\nmax_file_size = 18446744073709551616\n");
    assert_eq!(c.max_file_size, 204800);
    let c = parse_config("[limits]\nmax_file_size = \n");
    assert_eq!(c.max_file_size, 204800);
    let c = parse_config("[limits]\nmax_file_size = +\n");
    assert_eq!(c.max_file_size, 204800);
}

#[test]
fn sizes_take_a_plus_sign_and_the_largest_u64() {
    let c = parse_config("[limits]\nmax_file_size = +42\n");
    assert_eq!(c.max_file_size, 42);
    let c = parse_config("[limits]\nmax_file_size = 18446744073709551615\n");
    assert_eq!(c.max_file_size, u64::MAX);
}

#[test]
fn arrays_keep_only_quoted_items() {
    let c = parse_config("[ignore]\ndirs = [ \"x\" , y, \"\", \"z\" ]\n");
    assert_eq!(c.ignore_dirs, strings(&["x", "", "z"]));
    let c = parse_config("[ignore]\ndirs = \"x\"\n");
    assert!(c.ignore_dirs.is_empty());
    let c = parse_config("[ignore]\ndirs = []\n");
    assert!(c.ignore_dirs.is_empty());
}

#[test]
fn section_names_and_keys_are_trimmed_and_crlf_is_accepted() {
    let c = parse_config("  [ ignore ]  \r\n  dirs   =   [\"out\"]  \r\n");
    assert_eq!(c.ignore_dirs, strings(&["out"]));
}

#[test]
fn value_with_equals_sign_splits_at_the_first() {
    let c = parse_config("[ignore]\nfiles = [\"a=b\"]\n");
    assert_eq!(c.ignore_files, strings(&["a=b"]));
}

#[test]
fn star_patterns_match_by_suffix() {
    let pats = strings(&["*.min.js", "package-lock.json"]);
    assert!(matches_ignore_pattern("app.min.js", &pats));
    assert!(matches_ignore_pattern(".min.js", &pats));
    assert!(!matches_ignore_pattern("app.js", &pats));
    assert!(matches_ignore_pattern("package-lock.json", &pats));
    assert!(!matches_ignore_pattern("my-package-lock.json", &pats));
}

#[test]
fn no_patterns_match_nothing() {
    assert!(!matches_ignore_pattern("anything.rs", &[]));
    let pats = strings(&["*"]);
    assert!(!matches_ignore_pattern("x", &pats));
    assert!(matches_ignore_pattern("*", &pats));
}
