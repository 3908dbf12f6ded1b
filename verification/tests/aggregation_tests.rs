use treeherder_cli::compare::compare_failures;
use treeherder_cli::grouping::group_failures_by_test;
use treeherder_cli::models::{ErrorLine, Job, JobWithLogs};
use treeherder_cli::similar::{summarize_similar_jobs, SimilarJobStats};
use treeherder_cli::models::SimilarJob;

fn job(id: u64, platform: &str, result: &str) -> Job {
    Job {
        id,
        job_type_name: format!("type-{}", id),
        job_type_symbol: "T".to_string(),
        platform: platform.to_string(),
        platform_option: "opt".to_string(),
        result: result.to_string(),
        state: "completed".to_string(),
        failure_classification_id: None,
        duration: None,
    }
}

fn err(test: Option<&str>) -> ErrorLine {
    ErrorLine {
        action: "test_result".to_string(),
        line: 1,
        test: test.map(|s| s.to_string()),
        subtest: None,
        status: Some("FAIL".to_string()),
        message: Some("boom".to_string()),
        stack: None,
    }
}

fn jwl(j: Job, errors: Vec<ErrorLine>) -> JobWithLogs {
    JobWithLogs { job: j, errors, log_matches: vec![], log_dir: None }
}

#[test]
fn grouping_collects_two_groups_sorted_by_platform_count() {
    let jobs = vec![
        jwl(job(1, "linux", "testfailed"), vec![err(Some("t1"))]),
        jwl(job(2, "win", "testfailed"), vec![err(Some("t1"))]),
        jwl(job(3, "linux", "testfailed"), vec![err(Some("t2"))]),
    ];
    let grouped = group_failures_by_test(&jobs);
    assert_eq!(grouped.len(), 2);
    assert_eq!(grouped[0].test_name, "t1");
    assert_eq!(grouped[0].platforms.len(), 2);
    assert_eq!(grouped[1].test_name, "t2");
    assert_eq!(grouped[1].platforms.len(), 1);
    assert_eq!(grouped[0].jobs.len(), 2);
    assert_eq!(grouped[1].jobs.len(), 1);
}

#[test]
fn grouping_deduplicates_platforms_and_skips_unnamed_errors() {
    let jobs = vec![
        jwl(job(1, "linux", "testfailed"), vec![err(Some("t1")), err(Some("t1")), err(None)]),
        jwl(job(2, "linux", "testfailed"), vec![err(Some("t1"))]),
    ];
    let grouped = group_failures_by_test(&jobs);
    assert_eq!(grouped.len(), 1);
    assert_eq!(grouped[0].platforms, vec!["linux".to_string()]);
    // Every named occurrence is kept, even from the same platform.
    assert_eq!(grouped[0].jobs.len(), 3);
}

#[test]
fn grouping_empty_input_gives_no_groups() {
    let grouped = group_failures_by_test(&vec![]);
    assert_eq!(grouped.len(), 0);
}

#[test]
fn grouping_ties_keep_first_occurrence_order() {
    let jobs = vec![
        jwl(job(1, "linux", "testfailed"), vec![err(Some("b_test")), err(Some("a_test"))]),
    ];
    let grouped = group_failures_by_test(&jobs);
    assert_eq!(grouped.len(), 2);
    assert_eq!(grouped[0].test_name, "b_test");
    assert_eq!(grouped[1].test_name, "a_test");
}

#[test]
fn comparison_classifies_new_and_fixed() {
    let base = vec![jwl(job(1, "linux", "testfailed"), vec![err(Some("t1"))])];
    let compare = vec![jwl(job(2, "linux", "testfailed"), vec![err(Some("t2"))])];
    let r = compare_failures(&base, &compare, "revA", "revB", 10, 11);
    assert_eq!(r.base_revision, "revA");
    assert_eq!(r.compare_revision, "revB");
    assert_eq!(r.base_push_id, 10);
    assert_eq!(r.compare_push_id, 11);
    assert_eq!(r.new_failures.len(), 1);
    assert_eq!(r.new_failures[0].test_name, "t1");
    assert_eq!(r.new_failures[0].platforms, vec!["linux".to_string()]);
    assert_eq!(r.new_failures[0].job_type, "");
    assert_eq!(r.fixed_failures.len(), 1);
    assert_eq!(r.fixed_failures[0].test_name, "t2");
    assert_eq!(r.still_failing.len(), 0);
}

#[test]
fn comparison_equal_batches_yield_only_still_failing() {
    let mk = || {
        vec![
            jwl(job(1, "linux", "testfailed"), vec![err(Some("t1"))]),
            jwl(job(2, "win", "busted"), vec![err(Some("t2"))]),
        ]
    };
    let r = compare_failures(&mk(), &mk(), "revA", "revA", 10, 10);
    assert_eq!(r.new_failures.len(), 0);
    assert_eq!(r.fixed_failures.len(), 0);
    assert_eq!(r.still_failing.len(), 2);
}

#[test]
fn comparison_counts_any_non_success_result() {
    // A result of `unknown` is not a success, so its errors contribute.
    let base = vec![jwl(job(1, "linux", "unknown"), vec![err(Some("t1"))])];
    let compare: Vec<JobWithLogs> = vec![];
    let r = compare_failures(&base, &compare, "a", "b", 1, 2);
    assert_eq!(r.new_failures.len(), 1);
}

#[test]
fn comparison_ignores_success_jobs() {
    let base = vec![jwl(job(1, "linux", "success"), vec![err(Some("t1"))])];
    let compare: Vec<JobWithLogs> = vec![];
    let r = compare_failures(&base, &compare, "a", "b", 1, 2);
    assert_eq!(r.new_failures.len(), 0);
}

#[test]
fn comparison_same_test_different_platforms_are_distinct() {
    let base = vec![
        jwl(job(1, "linux", "testfailed"), vec![err(Some("t1"))]),
        jwl(job(2, "win", "testfailed"), vec![err(Some("t1"))]),
    ];
    let compare = vec![jwl(job(3, "linux", "testfailed"), vec![err(Some("t1"))])];
    let r = compare_failures(&base, &compare, "a", "b", 1, 2);
    // (t1, win) is new; (t1, linux) still fails.
    assert_eq!(r.new_failures.len(), 1);
    assert_eq!(r.new_failures[0].platforms, vec!["win".to_string()]);
    assert_eq!(r.still_failing.len(), 1);
    assert_eq!(r.still_failing[0].platforms, vec!["linux".to_string()]);
}

fn similar(result: &str) -> SimilarJob {
    SimilarJob {
        id: 1,
        job_type_name: "test-job".to_string(),
        platform: "linux".to_string(),
        result: result.to_string(),
        state: "completed".to_string(),
        push_id: 1,
        start_timestamp: None,
        end_timestamp: None,
    }
}

#[test]
fn similar_history_tallies_passes_and_failures() {
    let mut results: Vec<SimilarJob> = vec![];
    for _ in 0..7 {
        results.push(similar("success"));
    }
    for _ in 0..3 {
        results.push(similar("testfailed"));
    }
    let stats: SimilarJobStats = summarize_similar_jobs(77, "try".to_string(), results);
    assert_eq!(stats.job_id, 77);
    assert_eq!(stats.repo, "try");
    assert_eq!(stats.total_jobs, 10);
    assert_eq!(stats.pass_count, 7);
    assert_eq!(stats.fail_count, 3);
    assert_eq!(stats.job_type_name, "test-job");
    // The rendered pass rate over these tallies is 70.0 percent.
    let rate = (stats.pass_count as f64 / stats.total_jobs as f64) * 100.0;
    assert_eq!(rate, 70.0);
}

#[test]
fn similar_history_of_nothing_is_all_zero() {
    let stats = summarize_similar_jobs(5, "try".to_string(), vec![]);
    assert_eq!(stats.total_jobs, 0);
    assert_eq!(stats.pass_count, 0);
    assert_eq!(stats.fail_count, 0);
    assert_eq!(stats.job_type_name, "");
    // Rendering guards the division: zero total reads as a zero rate.
    let rate = if stats.total_jobs > 0 {
        (stats.pass_count as f64 / stats.total_jobs as f64) * 100.0
    } else {
        0.0
    };
    assert_eq!(rate, 0.0);
}

#[test]
fn similar_history_busted_counts_as_failure() {
    let stats = summarize_similar_jobs(1, "mozilla-central".to_string(), vec![
        similar("busted"),
        similar("retry"),
    ]);
    assert_eq!(stats.total_jobs, 2);
    assert_eq!(stats.pass_count, 0);
    assert_eq!(stats.fail_count, 1);
}
