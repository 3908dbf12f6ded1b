use treeherder_cli::batch::{
    collect_successes, BatchState, ARTIFACT_FETCH_CONCURRENCY, DETAIL_FETCH_CONCURRENCY,
    LOG_FETCH_CONCURRENCY, PERF_FETCH_CONCURRENCY,
};
use treeherder_cli::jsonval::{
    classify_perf_payload, is_error_summary_url, parse_error_summary, select_error_logs,
};
use treeherder_cli::models::LogReference;
use treeherder_cli::pattern::{filter_artifacts, search_log_content, SearchPattern};
use treeherder_cli::models::TaskclusterArtifact;

#[test]
fn log_scan_records_matching_lines_one_based() {
    let p = SearchPattern::compile("ERROR").unwrap();
    let content = "first line\nsecond ERROR here\nthird\nERROR again";
    let matches = search_log_content("live_backing", content, &p);
    assert_eq!(matches.len(), 2);
    assert_eq!(matches[0].log_name, "live_backing");
    assert_eq!(matches[0].line_number, 2);
    assert_eq!(matches[0].line_content, "second ERROR here");
    assert_eq!(matches[1].line_number, 4);
    assert_eq!(matches[1].line_content, "ERROR again");
}

#[test]
fn log_scan_regex_is_really_applied() {
    let p = SearchPattern::compile("^TEST-UNEXPECTED-[A-Z]+").unwrap();
    let content = "TEST-UNEXPECTED-FAIL | x\nsome TEST-UNEXPECTED-FAIL not at start\nTEST-OK";
    let matches = search_log_content("log", content, &p);
    assert_eq!(matches.len(), 1);
    assert_eq!(matches[0].line_number, 1);
}

#[test]
fn error_summary_parsing_retains_failed_test_results() {
    let mut text = String::new();
    text.push_str("{\"action\": \"test_result\", \"line\": 1, \"test\": \"t1\", \"status\": \"FAIL\", \"message\": \"m\"}\n");
    text.push_str("{\"action\": \"test_result\", \"line\": 2, \"test\": \"t2\", \"status\": \"PASS\"}\n");
    text.push_str("{\"action\": \"log\", \"line\": 3, \"status\": \"FAIL\"}\n");
    text.push_str("not json at all\n");
    text.push_str("{\"action\": \"test_result\", \"line\": 4, \"test\": \"t3\", \"status\": \"FAIL\", \"subtest\": \"s\", \"stack\": \"st\"}");
    let text = text.as_str();
    let errors = parse_error_summary(text);
    assert_eq!(errors.len(), 2);
    assert_eq!(errors[0].test, Some("t1".to_string()));
    assert_eq!(errors[0].line, 1);
    assert_eq!(errors[0].message, Some("m".to_string()));
    assert_eq!(errors[1].test, Some("t3".to_string()));
    assert_eq!(errors[1].subtest, Some("s".to_string()));
    assert_eq!(errors[1].stack, Some("st".to_string()));
}

#[test]
fn error_summary_null_fields_read_as_absent() {
    let text = "{\"action\": \"test_result\", \"line\": 9, \"test\": null, \"status\": \"FAIL\"}";
    let errors = parse_error_summary(text);
    assert_eq!(errors.len(), 1);
    assert_eq!(errors[0].test, None);
}

#[test]
fn error_summary_wrong_typed_field_drops_the_line() {
    let text = "{\"action\": \"test_result\", \"line\": 9, \"test\": 5, \"status\": \"FAIL\"}";
    assert_eq!(parse_error_summary(text).len(), 0);
    // A missing required field drops the line too.
    let text2 = "{\"action\": \"test_result\", \"test\": \"t\", \"status\": \"FAIL\"}";
    assert_eq!(parse_error_summary(text2).len(), 0);
}

#[test]
fn error_log_selection_by_name() {
    let logs = vec![
        LogReference { name: "errorsummary_json".to_string(), url: "u1".to_string() },
        LogReference { name: "live_backing_log".to_string(), url: "u2".to_string() },
        LogReference { name: "wpt_summary".to_string(), url: "u3".to_string() },
    ];
    let selected = select_error_logs(&logs);
    assert_eq!(selected.len(), 2);
    assert_eq!(selected[0].url, "u1");
    assert_eq!(selected[1].url, "u3");
}

#[test]
fn error_summary_url_heuristic() {
    assert!(is_error_summary_url("https://q/abc_errorsummary.log"));
    assert!(!is_error_summary_url("https://q/live_backing.log"));
}

#[test]
fn perf_payload_redirect_detection() {
    assert_eq!(
        classify_perf_payload("{\"url\": \"https://real/payload.json\"}"),
        Some("https://real/payload.json".to_string())
    );
    assert_eq!(classify_perf_payload("{\"framework\": {\"name\": \"x\"}, \"suites\": []}"), None);
    assert_eq!(classify_perf_payload("not json"), None);
}

#[test]
fn artifact_filter_by_pattern() {
    let art = |name: &str| TaskclusterArtifact {
        name: name.to_string(),
        storage_type: "s3".to_string(),
        expires: "2030-01-01".to_string(),
        content_type: None,
    };
    let artifacts = vec![art("public/screenshot.png"), art("public/logs/live.log"), art(
        "public/test_info/errorsummary.log",
    )];
    let p = SearchPattern::compile("screenshot|errorsummary").unwrap();
    let kept = filter_artifacts(artifacts, Some(&p));
    assert_eq!(kept.len(), 2);
    assert_eq!(kept[0].name, "public/screenshot.png");
    assert_eq!(kept[1].name, "public/test_info/errorsummary.log");
}

#[test]
fn artifact_filter_without_pattern_keeps_all() {
    let art = TaskclusterArtifact {
        name: "a".to_string(),
        storage_type: "s3".to_string(),
        expires: "e".to_string(),
        content_type: Some("text/plain".to_string()),
    };
    assert_eq!(filter_artifacts(vec![art.clone(), art], None).len(), 2);
}

#[test]
fn batch_output_length_is_inputs_minus_failures() {
    // Five items, two of which failed.
    let results: Vec<Option<u64>> = vec![Some(1), None, Some(3), None, Some(5)];
    let n = results.len();
    let failures = results.iter().filter(|r| r.is_none()).count();
    let collected = collect_successes(results);
    assert_eq!(collected.len(), n - failures);
    assert_eq!(collected, vec![1, 3, 5]);
}

#[test]
fn batch_of_all_failures_completes_empty() {
    let results: Vec<Option<String>> = vec![None, None, None];
    assert_eq!(collect_successes(results).len(), 0);
}

#[test]
fn batch_state_respects_the_cap() {
    let mut b = BatchState::new(5, 3);
    let mut started = 0;
    while b.can_start() {
        b.start();
        started += 1;
    }
    // The cap bounds what runs at once.
    assert_eq!(started, 3);
    b.complete(true);
    assert!(b.can_start());
    b.start();
    b.complete(false);
    b.start();
    b.complete(true);
    b.complete(true);
    b.complete(true);
    assert!(b.is_done());
    assert_eq!(b.failed, 1);
    assert_eq!(b.completed - b.failed, 4);
}

#[test]
fn concurrency_caps_match_the_operations() {
    assert_eq!(DETAIL_FETCH_CONCURRENCY, 10);
    assert_eq!(LOG_FETCH_CONCURRENCY, 5);
    assert_eq!(PERF_FETCH_CONCURRENCY, 5);
    assert_eq!(ARTIFACT_FETCH_CONCURRENCY, 3);
}
