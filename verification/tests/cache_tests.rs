use treeherder_cli::codec::{encode_metadata, parse_metadata};
use treeherder_cli::models::{CachedPushMetadata, Job};

fn job(id: u64, name: &str) -> Job {
    Job {
        id,
        job_type_name: name.to_string(),
        job_type_symbol: "S".to_string(),
        platform: "linux1804-64".to_string(),
        platform_option: "debug".to_string(),
        result: "testfailed".to_string(),
        state: "completed".to_string(),
        failure_classification_id: Some(4),
        duration: Some(360),
    }
}

#[test]
fn cache_round_trip_reproduces_metadata() {
    let m = CachedPushMetadata {
        revision: "a13b9fc22101b1e7a44ba1392eb275d9bdf202a2".to_string(),
        push_id: 12345,
        repo: "try".to_string(),
        jobs: vec![job(1, "mochitest"), job(2, "xpcshell")],
    };
    let text = encode_metadata(&m);
    let loaded = parse_metadata(text.as_str());
    assert_eq!(loaded, Some(m));
}

#[test]
fn cache_round_trip_with_empty_job_list() {
    let m = CachedPushMetadata {
        revision: "deadbeef".to_string(),
        push_id: 0,
        repo: "mozilla-central".to_string(),
        jobs: vec![],
    };
    let text = encode_metadata(&m);
    assert_eq!(parse_metadata(text.as_str()), Some(m));
}

#[test]
fn cache_round_trip_escapes_special_characters() {
    let mut j = job(9, "weird \"name\" with \\ and \nnewline\ttab\rcr");
    j.platform = "".to_string();
    j.failure_classification_id = None;
    j.duration = None;
    let m = CachedPushMetadata {
        revision: "r\"e\\v".to_string(),
        push_id: u64::MAX,
        repo: "try".to_string(),
        jobs: vec![j],
    };
    let text = encode_metadata(&m);
    assert_eq!(parse_metadata(text.as_str()), Some(m));
}

#[test]
fn encoded_metadata_is_valid_json() {
    let m = CachedPushMetadata {
        revision: "abc".to_string(),
        push_id: 7,
        repo: "try".to_string(),
        jobs: vec![job(3, "a \"quoted\" name")],
    };
    let text = encode_metadata(&m);
    let v: serde_json::Value = serde_json::from_str(&text).unwrap();
    assert_eq!(v["revision"], "abc");
    assert_eq!(v["push_id"], 7);
    assert_eq!(v["repo"], "try");
    assert_eq!(v["jobs"].as_array().unwrap().len(), 1);
    assert_eq!(v["jobs"][0]["id"], 3);
    assert_eq!(v["jobs"][0]["job_type_name"], "a \"quoted\" name");
    assert_eq!(v["jobs"][0]["failure_classification_id"], 4);
    assert_eq!(v["jobs"][0]["duration"], 360);
}

#[test]
fn parse_metadata_rejects_garbage() {
    assert_eq!(parse_metadata(""), None);
    assert_eq!(parse_metadata("not json"), None);
    assert_eq!(parse_metadata("{\"revision\": \"x\"}"), None);
    assert_eq!(parse_metadata("[1, 2, 3]"), None);
}

#[test]
fn parse_metadata_rejects_trailing_content() {
    let m = CachedPushMetadata {
        revision: "abc".to_string(),
        push_id: 1,
        repo: "try".to_string(),
        jobs: vec![],
    };
    let mut text = encode_metadata(&m);
    text.push_str("garbage");
    assert_eq!(parse_metadata(text.as_str()), None);
    // Trailing whitespace, though, is accepted.
    let mut ok = encode_metadata(&m);
    ok.push_str("\n  \n");
    assert_eq!(parse_metadata(ok.as_str()), Some(m));
}

#[test]
fn parse_metadata_accepts_null_optionals() {
    let mut j = job(1, "n");
    j.failure_classification_id = None;
    j.duration = None;
    let m = CachedPushMetadata {
        revision: "r".to_string(),
        push_id: 2,
        repo: "try".to_string(),
        jobs: vec![j],
    };
    let text = encode_metadata(&m);
    assert!(text.contains("null"));
    assert_eq!(parse_metadata(text.as_str()), Some(m));
}

#[test]
fn parse_metadata_rejects_oversized_numbers() {
    let m = CachedPushMetadata {
        revision: "r".to_string(),
        push_id: 3,
        repo: "try".to_string(),
        jobs: vec![],
    };
    let text = encode_metadata(&m);
    let huge = text.replace("\"push_id\": 3", "\"push_id\": 99999999999999999999999");
    assert_eq!(parse_metadata(huge.as_str()), None);
}
