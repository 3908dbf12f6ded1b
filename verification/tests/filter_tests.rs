use treeherder_cli::filters::{
    apply_match_filter, are_all_jobs_complete, count_failed_completed, count_job_states,
    filter_by_duration, filter_by_job_type, filter_by_platform, filter_intermittent,
    validate_args, ArgsError,
};
use treeherder_cli::models::{Args, Job, MatchFilter};
use treeherder_cli::pattern::SearchPattern;

fn job(id: u64, name: &str, platform: &str, result: &str, state: &str) -> Job {
    Job {
        id,
        job_type_name: name.to_string(),
        job_type_symbol: "S".to_string(),
        platform: platform.to_string(),
        platform_option: "opt".to_string(),
        result: result.to_string(),
        state: state.to_string(),
        failure_classification_id: None,
        duration: None,
    }
}

fn sample() -> Vec<Job> {
    vec![
        job(1, "mochitest-1", "linux1804-64", "testfailed", "completed"),
        job(2, "xpcshell", "windows11-64", "success", "completed"),
        job(3, "mochitest-2", "linux1804-64", "busted", "completed"),
        job(4, "crashtest", "macosx1015-64", "unknown", "running"),
    ]
}

#[test]
fn match_filter_failure_keeps_testfailed_and_busted() {
    let kept = apply_match_filter(sample(), &MatchFilter::Failure);
    let ids: Vec<u64> = kept.iter().map(|j| j.id).collect();
    assert_eq!(ids, vec![1, 3]);
}

#[test]
fn match_filter_success_keeps_success() {
    let kept = apply_match_filter(sample(), &MatchFilter::Success);
    let ids: Vec<u64> = kept.iter().map(|j| j.id).collect();
    assert_eq!(ids, vec![2]);
}

#[test]
fn match_filter_all_keeps_everything() {
    assert_eq!(apply_match_filter(sample(), &MatchFilter::All).len(), 4);
}

#[test]
fn job_type_filter_uses_substring() {
    let kept = filter_by_job_type(sample(), "mochitest");
    let ids: Vec<u64> = kept.iter().map(|j| j.id).collect();
    assert_eq!(ids, vec![1, 3]);
    assert_eq!(filter_by_job_type(sample(), "").len(), 4);
    assert_eq!(filter_by_job_type(sample(), "nothing").len(), 0);
}

#[test]
fn platform_filter_uses_the_compiled_pattern() {
    let p = SearchPattern::compile("linux.*64").unwrap();
    let kept = filter_by_platform(sample(), &p);
    let ids: Vec<u64> = kept.iter().map(|j| j.id).collect();
    assert_eq!(ids, vec![1, 3]);
    // An alternation matches across both names.
    let p2 = SearchPattern::compile("windows|macosx").unwrap();
    let kept2 = filter_by_platform(sample(), &p2);
    let ids2: Vec<u64> = kept2.iter().map(|j| j.id).collect();
    assert_eq!(ids2, vec![2, 4]);
}

#[test]
fn invalid_pattern_does_not_compile() {
    assert!(SearchPattern::compile("[invalid").is_none());
    assert!(SearchPattern::compile("linux").is_some());
}

#[test]
fn duration_filter_keeps_long_jobs_only() {
    let mut jobs = sample();
    jobs[0].duration = Some(100);
    jobs[1].duration = Some(400);
    jobs[2].duration = None;
    jobs[3].duration = Some(250);
    let kept = filter_by_duration(jobs, 200);
    let ids: Vec<u64> = kept.iter().map(|j| j.id).collect();
    assert_eq!(ids, vec![2, 4]);
}

#[test]
fn intermittent_filter_drops_classification_four() {
    let mut jobs = sample();
    jobs[0].failure_classification_id = Some(4);
    jobs[1].failure_classification_id = Some(2);
    let kept = filter_intermittent(jobs);
    let ids: Vec<u64> = kept.iter().map(|j| j.id).collect();
    assert_eq!(ids, vec![2, 3, 4]);
}

#[test]
fn all_jobs_complete_checks_every_state() {
    let mut jobs = sample();
    assert!(!are_all_jobs_complete(&jobs));
    jobs[3].state = "completed".to_string();
    assert!(are_all_jobs_complete(&jobs));
    assert!(are_all_jobs_complete(&vec![]));
}

#[test]
fn job_state_counts() {
    let mut jobs = sample();
    jobs.push(job(5, "a", "linux", "unknown", "pending"));
    let (completed, running, pending) = count_job_states(&jobs);
    assert_eq!(completed, 3);
    assert_eq!(running, 1);
    assert_eq!(pending, 1);
}

#[test]
fn failed_completed_count() {
    assert_eq!(count_failed_completed(&sample()), 2);
}

fn base_args() -> Args {
    Args {
        input: Some("abc".to_string()),
        repo: "try".to_string(),
        show_stack_traces: true,
        filter: None,
        fetch_logs: false,
        match_filter: MatchFilter::Failure,
        pattern: None,
        cache_dir: None,
        use_cache: false,
        include_intermittent: false,
        json: false,
        watch: false,
        watch_interval: 300,
        notify: false,
        platform: None,
        duration_min: None,
        group_by: None,
        compare: None,
        download_artifacts: false,
        artifact_pattern: None,
        perf: false,
        similar_history: None,
        similar_count: 50,
        lando_job_id: None,
    }
}

#[test]
fn args_require_an_input_source() {
    let mut a = base_args();
    a.input = None;
    assert_eq!(validate_args(&a), Err(ArgsError::MissingInput));
    a.use_cache = true;
    assert_eq!(validate_args(&a), Ok(()));
    a.use_cache = false;
    a.similar_history = Some(1);
    assert_eq!(validate_args(&a), Ok(()));
}

#[test]
fn args_notify_requires_watch() {
    let mut a = base_args();
    a.notify = true;
    assert_eq!(validate_args(&a), Err(ArgsError::NotifyWithoutWatch));
    a.watch = true;
    assert_eq!(validate_args(&a), Ok(()));
}

#[test]
fn args_watch_conflicts_with_use_cache() {
    let mut a = base_args();
    a.watch = true;
    a.use_cache = true;
    assert_eq!(validate_args(&a), Err(ArgsError::WatchWithUseCache));
}

#[test]
fn args_compare_conflicts_with_use_cache_and_watch() {
    let mut a = base_args();
    a.compare = Some("other".to_string());
    a.use_cache = true;
    assert_eq!(validate_args(&a), Err(ArgsError::CompareWithUseCache));
    a.use_cache = false;
    a.watch = true;
    assert_eq!(validate_args(&a), Err(ArgsError::CompareWithWatch));
    a.watch = false;
    assert_eq!(validate_args(&a), Ok(()));
}
