//! The pipeline's bookkeeping: cache keys, the work list, the bounded
//! scheduler, the merge plan, and the parsed configuration values.

use git2pdf::classifier::{classify_paths};
use git2pdf::config::{
    extract_repo_name, parse_margins, parse_paper_size, rustfmt_config_line,
    single_file_output_name, pdf_output_name, ConfigError,
};
use git2pdf::gitrefs::{candidate_ref_names, default_branch_candidates, plan_clone, CloneAction};
use git2pdf::pipeline::{
    cache_file_name, merge_order, plan_render_tasks, worker_count, RenderScheduler,
    StagedArtifact,
};

#[test]
fn cache_keys_replace_separators() {
    assert_eq!(cache_file_name("src/lib.rs"), "src__lib.rs.pdf");
    assert_eq!(cache_file_name("a\\b/c.rs"), "a__b__c.rs.pdf");
}

#[test]
fn render_tasks_carry_positions() {
    let entries = vec![
        ("/r/src/b.rs".to_string(), true),
        ("/r/src/a.rs".to_string(), true),
    ];
    let files = classify_paths(&entries, "/r", false);
    let tasks = plan_render_tasks(&files);
    assert_eq!(tasks.len(), 2);
    assert_eq!(tasks[0].position, 0);
    assert_eq!(tasks[0].relative_path, "src/a.rs");
    assert_eq!(tasks[0].cache_key, "src__a.rs.pdf");
    assert_eq!(tasks[1].position, 1);
    assert_eq!(tasks[1].relative_path, "src/b.rs");
}

fn staged(position: usize, key: &str) -> StagedArtifact {
    StagedArtifact { position, cache_key: key.to_string() }
}

/// Workers may finish in any order; the merge plan is always the
/// classification order, identical to what a sequential run yields.
#[test]
fn merge_plan_ignores_completion_order() {
    let shuffled = merge_order(vec![staged(2, "c"), staged(0, "a"), staged(3, "d"), staged(1, "b")]);
    let sequential = merge_order(vec![
        staged(0, "a"),
        staged(1, "b"),
        staged(2, "c"),
        staged(3, "d"),
    ]);
    let keys: Vec<&str> = shuffled.iter().map(|a| a.cache_key.as_str()).collect();
    let seq_keys: Vec<&str> = sequential.iter().map(|a| a.cache_key.as_str()).collect();
    assert_eq!(keys, seq_keys);
    assert_eq!(keys, vec!["a", "b", "c", "d"]);
}

/// When rendering one file of four fails, the other three keep their
/// order and exactly one warning is counted.
#[test]
fn merge_plan_resilient_to_one_failure() {
    let mut scheduler = RenderScheduler::new(4, 2);
    // Drive the tasks, completing them out of order; task 2 fails.
    let p0 = scheduler.start();
    let p1 = scheduler.start();
    scheduler.finish(p1, Some("k1".to_string()));
    let p2 = scheduler.start();
    scheduler.finish(p0, Some("k0".to_string()));
    let p3 = scheduler.start();
    scheduler.finish(p3, Some("k3".to_string()));
    scheduler.finish(p2, None);
    assert_eq!(scheduler.warnings, 1);

    let plan = merge_order(scheduler.completed());
    let keys: Vec<&str> = plan.iter().map(|a| a.cache_key.as_str()).collect();
    assert_eq!(keys, vec!["k0", "k1", "k3"]);
    let positions: Vec<usize> = plan.iter().map(|a| a.position).collect();
    assert_eq!(positions, vec![0, 1, 3]);
}

/// The scheduler never lets more renders run than the pool has workers.
#[test]
fn scheduler_bounds_in_flight() {
    let mut scheduler = RenderScheduler::new(5, 2);
    let a = scheduler.start();
    let _b = scheduler.start();
    assert_eq!(scheduler.in_flight, 2);
    assert!(!scheduler.can_start());
    scheduler.finish(a, Some("ka".to_string()));
    assert_eq!(scheduler.in_flight, 1);
    assert!(scheduler.can_start());
}

#[test]
fn worker_count_leaves_one_core() {
    assert_eq!(worker_count(8, true), 7);
    assert_eq!(worker_count(1, true), 1);
    assert_eq!(worker_count(0, true), 1);
    assert_eq!(worker_count(8, false), 1);
}

#[test]
fn paper_size_parsing() {
    assert_eq!(parse_paper_size("210x297"), Ok((2100, 2970)));
    assert_eq!(parse_paper_size(" 210 x 297 "), Ok((2100, 2970)));
    assert_eq!(parse_paper_size("215.9x279.4"), Ok((2159, 2794)));
    assert_eq!(parse_paper_size("210"), Err(ConfigError::PaperSizeFormat));
    assert_eq!(parse_paper_size("ax297"), Err(ConfigError::PaperWidth));
    assert_eq!(parse_paper_size("210x"), Err(ConfigError::PaperHeight));
}

#[test]
fn margins_parsing() {
    assert_eq!(parse_margins("5"), Ok((50, 50, 50, 50)));
    assert_eq!(parse_margins("10 20"), Ok((100, 200, 100, 200)));
    assert_eq!(parse_margins("1 2 3 4"), Ok((10, 20, 30, 40)));
    assert_eq!(parse_margins("2.5"), Ok((25, 25, 25, 25)));
    assert_eq!(parse_margins("1 2 3"), Err(ConfigError::MarginsFormat));
    assert_eq!(parse_margins("abc"), Err(ConfigError::MarginValue));
    assert_eq!(parse_margins(""), Err(ConfigError::MarginsFormat));
}

#[test]
fn repo_names() {
    assert_eq!(
        extract_repo_name("https://github.com/user/repo.git").as_deref(),
        Some("repo"),
    );
    assert_eq!(
        extract_repo_name("git@github.com:user/repo.git").as_deref(),
        Some("repo"),
    );
    assert_eq!(
        extract_repo_name("ssh://git@github.com/user/repo.git").as_deref(),
        Some("repo"),
    );
    assert_eq!(extract_repo_name("plain").as_deref(), Some("plain"));
}

#[test]
fn derived_names_and_settings() {
    assert_eq!(rustfmt_config_line(80), "max_width = 80\n");
    assert_eq!(pdf_output_name("demo"), "demo.pdf");
    assert_eq!(single_file_output_name("big.rs"), "big.pdf");
}

#[test]
fn reference_fallback_chain() {
    let names = candidate_ref_names("v1.0");
    assert_eq!(
        names,
        vec![
            "refs/heads/v1.0".to_string(),
            "refs/remotes/origin/v1.0".to_string(),
            "refs/tags/v1.0".to_string(),
            "v1.0".to_string(),
        ],
    );
    assert_eq!(
        default_branch_candidates(),
        vec!["main".to_string(), "master".to_string()],
    );
}

#[test]
fn clone_planning() {
    assert_eq!(plan_clone(true, true), CloneAction::OpenAndFetch);
    assert_eq!(plan_clone(true, false), CloneAction::RemoveThenClone);
    assert_eq!(plan_clone(false, false), CloneAction::CloneFresh);
}
