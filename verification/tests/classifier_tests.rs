//! Classification: categories, module paths, and the ordered, filtered
//! listing of walked entries.

use git2pdf::classifier::{
    classify_file, classify_paths, compute_module_path, content_contains_tests, FileCategory,
};

#[test]
fn test_classify_source() {
    assert_eq!(classify_file("src/lib.rs"), FileCategory::Source);
    assert_eq!(classify_file("src/foo/mod.rs"), FileCategory::Source);
    assert_eq!(classify_file("src/bar.rs"), FileCategory::Source);
}

#[test]
fn test_classify_tests() {
    assert_eq!(classify_file("tests/integration.rs"), FileCategory::IntegrationTest);
    assert_eq!(classify_file("src/tests/unit.rs"), FileCategory::Test);
}

#[test]
fn test_classify_examples() {
    assert_eq!(classify_file("examples/demo.rs"), FileCategory::Example);
}

#[test]
fn test_module_path() {
    assert_eq!(compute_module_path("src/lib.rs"), "crate");
    assert_eq!(compute_module_path("src/foo.rs"), "crate::foo");
    assert_eq!(compute_module_path("src/foo/mod.rs"), "crate::foo");
    assert_eq!(compute_module_path("src/foo/bar.rs"), "crate::foo::bar");
}

#[test]
fn classify_build_script_only_at_root() {
    assert_eq!(classify_file("build.rs"), FileCategory::BuildScript);
    assert_eq!(classify_file("sub/build.rs"), FileCategory::Other);
}

#[test]
fn classify_benches_and_other() {
    assert_eq!(classify_file("benches/bench.rs"), FileCategory::Benchmark);
    assert_eq!(classify_file("tools/gen.rs"), FileCategory::Other);
}

#[test]
fn module_path_of_entry_points() {
    assert_eq!(compute_module_path("src/main.rs"), "crate");
    assert_eq!(compute_module_path("build.rs"), "crate::build");
}

#[test]
fn module_path_keeps_index_names_mid_path() {
    // Only the final segment names the module file; a directory that
    // happens to carry such a name stays in the path.
    assert_eq!(compute_module_path("src/lib/foo.rs"), "crate::lib::foo");
    assert_eq!(compute_module_path("src/main/mod.rs"), "crate::main");
    assert_eq!(compute_module_path("src/mod/lib.rs"), "crate::mod");
}

#[test]
fn content_test_markers() {
    assert!(content_contains_tests("fn a() {}\n#[test]\nfn t() {}"));
    assert!(content_contains_tests("#[cfg(test)]\nmod tests {}"));
    assert!(!content_contains_tests("fn main() {}"));
}

#[test]
fn classify_paths_orders_and_filters() {
    let entries = vec![
        ("/repo/src/zeta.rs".to_string(), true),
        ("/repo/src".to_string(), false),
        ("/repo/src/alpha.rs".to_string(), true),
        ("/repo/tests/it.rs".to_string(), true),
        ("/repo/target/debug/gen.rs".to_string(), true),
        ("/repo/README.md".to_string(), true),
    ];
    let files = classify_paths(&entries, "/repo", false);
    let rels: Vec<&str> = files.iter().map(|f| f.relative_path.as_str()).collect();
    assert_eq!(rels, vec!["src/alpha.rs", "src/zeta.rs"]);
    assert_eq!(files[0].category, FileCategory::Source);
    assert_eq!(files[0].mod_path, "crate::alpha");
    assert_eq!(files[0].path, "/repo/src/alpha.rs");

    let with_tests = classify_paths(&entries, "/repo", true);
    let rels2: Vec<&str> = with_tests.iter().map(|f| f.relative_path.as_str()).collect();
    assert_eq!(rels2, vec!["src/alpha.rs", "src/zeta.rs", "tests/it.rs"]);
    assert_eq!(with_tests[2].category, FileCategory::IntegrationTest);
}

#[test]
fn classify_paths_idempotent() {
    let entries = vec![
        ("/r/src/b.rs".to_string(), true),
        ("/r/src/a.rs".to_string(), true),
        ("/r/examples/e.rs".to_string(), true),
    ];
    let once = classify_paths(&entries, "/r", true);
    let twice = classify_paths(&entries, "/r", true);
    let a: Vec<(String, String)> = once
        .iter()
        .map(|f| (f.relative_path.clone(), f.mod_path.clone()))
        .collect();
    let b: Vec<(String, String)> = twice
        .iter()
        .map(|f| (f.relative_path.clone(), f.mod_path.clone()))
        .collect();
    assert_eq!(a, b);
}

#[test]
fn classify_paths_skips_hidden_extension() {
    let entries = vec![
        ("/r/src/.rs".to_string(), true),
        ("/r/src/ok.rs".to_string(), true),
        ("/r/src/no_ext".to_string(), true),
        ("/r/src/upper.RS".to_string(), true),
    ];
    let files = classify_paths(&entries, "/r", true);
    let rels: Vec<&str> = files.iter().map(|f| f.relative_path.as_str()).collect();
    assert_eq!(rels, vec!["src/ok.rs"]);
}
