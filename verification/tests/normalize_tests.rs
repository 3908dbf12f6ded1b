use treeherder_cli::models::{JobsResponse, RawValue};
use treeherder_cli::normalize::normalize_jobs;

fn names(v: &[&str]) -> Vec<String> {
    v.iter().map(|s| s.to_string()).collect()
}

fn full_row() -> Vec<RawValue> {
    vec![
        RawValue::UInt(7),
        RawValue::Text("build-linux".to_string()),
        RawValue::Text("B".to_string()),
        RawValue::Text("linux64".to_string()),
        RawValue::Text("testfailed".to_string()),
        RawValue::Text("completed".to_string()),
        RawValue::Text("opt".to_string()),
        RawValue::UInt(120),
        RawValue::UInt(4),
    ]
}

fn full_names() -> Vec<String> {
    names(&[
        "id",
        "job_type_name",
        "job_type_symbol",
        "platform",
        "result",
        "state",
        "platform_option",
        "duration",
        "failure_classification_id",
    ])
}

#[test]
fn normalize_reads_fields_by_name() {
    let resp = JobsResponse { job_property_names: full_names(), results: vec![full_row()] };
    let jobs = normalize_jobs(&resp);
    assert_eq!(jobs.len(), 1);
    let j = &jobs[0];
    assert_eq!(j.id, 7);
    assert_eq!(j.job_type_name, "build-linux");
    assert_eq!(j.job_type_symbol, "B");
    assert_eq!(j.platform, "linux64");
    assert_eq!(j.result, "testfailed");
    assert_eq!(j.state, "completed");
    assert_eq!(j.platform_option, "opt");
    assert_eq!(j.duration, Some(120));
    assert_eq!(j.failure_classification_id, Some(4));
}

#[test]
fn normalize_is_column_order_independent() {
    let resp1 = JobsResponse { job_property_names: full_names(), results: vec![full_row()] };
    // The same row with its columns permuted, and the name list permuted
    // identically.
    let perm: Vec<usize> = vec![3, 0, 8, 1, 5, 2, 7, 4, 6];
    let n1 = full_names();
    let r1 = full_row();
    let n2: Vec<String> = perm.iter().map(|&k| n1[k].clone()).collect();
    let r2: Vec<RawValue> = perm.iter().map(|&k| r1[k].clone()).collect();
    let resp2 = JobsResponse { job_property_names: n2, results: vec![r2] };
    let jobs1 = normalize_jobs(&resp1);
    let jobs2 = normalize_jobs(&resp2);
    assert_eq!(jobs1, jobs2);
}

#[test]
fn normalize_skips_rows_missing_required_fields() {
    let nm = names(&["id", "job_type_name", "job_type_symbol", "platform", "result", "state"]);
    let good = vec![
        RawValue::UInt(1),
        RawValue::Text("a".to_string()),
        RawValue::Text("A".to_string()),
        RawValue::Text("linux".to_string()),
        RawValue::Text("success".to_string()),
        RawValue::Text("completed".to_string()),
    ];
    // Wrong type for id.
    let bad_type = vec![
        RawValue::Text("1".to_string()),
        RawValue::Text("a".to_string()),
        RawValue::Text("A".to_string()),
        RawValue::Text("linux".to_string()),
        RawValue::Text("success".to_string()),
        RawValue::Text("completed".to_string()),
    ];
    // Too short: state missing.
    let short = vec![
        RawValue::UInt(2),
        RawValue::Text("b".to_string()),
        RawValue::Text("B".to_string()),
        RawValue::Text("win".to_string()),
        RawValue::Text("success".to_string()),
    ];
    let good2 = vec![
        RawValue::UInt(3),
        RawValue::Text("c".to_string()),
        RawValue::Text("C".to_string()),
        RawValue::Text("mac".to_string()),
        RawValue::Text("busted".to_string()),
        RawValue::Text("completed".to_string()),
    ];
    let resp = JobsResponse {
        job_property_names: nm,
        results: vec![good, bad_type, short, good2],
    };
    let jobs = normalize_jobs(&resp);
    // The count of output jobs equals the count of well-formed input rows.
    assert_eq!(jobs.len(), 2);
    assert_eq!(jobs[0].id, 1);
    assert_eq!(jobs[1].id, 3);
}

#[test]
fn normalize_defaults_optional_fields() {
    let nm = names(&["id", "job_type_name", "job_type_symbol", "platform", "result", "state"]);
    let row = vec![
        RawValue::UInt(9),
        RawValue::Text("t".to_string()),
        RawValue::Text("T".to_string()),
        RawValue::Text("android".to_string()),
        RawValue::Text("unknown".to_string()),
        RawValue::Text("running".to_string()),
    ];
    let resp = JobsResponse { job_property_names: nm, results: vec![row] };
    let jobs = normalize_jobs(&resp);
    assert_eq!(jobs.len(), 1);
    assert_eq!(jobs[0].platform_option, "");
    assert_eq!(jobs[0].duration, None);
    assert_eq!(jobs[0].failure_classification_id, None);
}

#[test]
fn normalize_empty_table() {
    let resp = JobsResponse { job_property_names: full_names(), results: vec![] };
    assert_eq!(normalize_jobs(&resp).len(), 0);
}
