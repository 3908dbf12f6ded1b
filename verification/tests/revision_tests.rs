use treeherder_cli::models::{LandoJobResponse, PushResponse, PushResult};
use treeherder_cli::revision::{
    extract_revision, find_revision_pair, first_push_id, landed_commit, validate_lando_job_id,
    LandoError, PushError, RevisionError,
};

#[test]
fn extract_revision_from_url() {
    let r = extract_revision("https://x/?revision=abc123");
    assert_eq!(r, Ok("abc123".to_string()));
}

#[test]
fn extract_revision_raw_hash() {
    let r = extract_revision("abc123");
    assert_eq!(r, Ok("abc123".to_string()));
}

#[test]
fn extract_revision_url_without_revision_fails() {
    let r = extract_revision("https://x/?count=10");
    assert_eq!(r, Err(RevisionError::NoRevisionInUrl));
}

#[test]
fn extract_revision_unparsable_url_fails() {
    let r = extract_revision("http://[bad");
    assert_eq!(r, Err(RevisionError::InvalidUrl));
}

#[test]
fn extract_revision_takes_first_revision_parameter() {
    let r = extract_revision("https://x/?revision=first&revision=second");
    assert_eq!(r, Ok("first".to_string()));
}

#[test]
fn extract_revision_decodes_percent_escapes() {
    let r = extract_revision("https://x/?revision=a%20b");
    assert_eq!(r, Ok("a b".to_string()));
}

#[test]
fn find_revision_pair_picks_first_match() {
    let pairs = vec![
        ("count".to_string(), "10".to_string()),
        ("revision".to_string(), "abc".to_string()),
        ("revision".to_string(), "def".to_string()),
    ];
    assert_eq!(find_revision_pair(&pairs), Some("abc".to_string()));
    let none: Vec<(String, String)> = vec![("a".to_string(), "b".to_string())];
    assert_eq!(find_revision_pair(&none), None);
}

#[test]
fn lando_id_mismatch_is_rejected() {
    let resp = LandoJobResponse { id: 5, status: "LANDED".to_string(), commit_id: None };
    assert_eq!(validate_lando_job_id(4, &resp), Err(LandoError::IdMismatch));
    assert_eq!(validate_lando_job_id(5, &resp), Ok(()));
}

#[test]
fn landed_commit_requires_landed_status() {
    let pending = LandoJobResponse {
        id: 1,
        status: "IN_PROGRESS".to_string(),
        commit_id: Some("c".to_string()),
    };
    assert_eq!(landed_commit(&pending), Err(LandoError::NotLanded));
}

#[test]
fn landed_commit_requires_commit_id() {
    let landed_no_commit = LandoJobResponse {
        id: 1,
        status: "LANDED".to_string(),
        commit_id: None,
    };
    assert_eq!(landed_commit(&landed_no_commit), Err(LandoError::MissingCommitId));
    let landed = LandoJobResponse {
        id: 1,
        status: "LANDED".to_string(),
        commit_id: Some("deadbeef".to_string()),
    };
    assert_eq!(landed_commit(&landed), Ok("deadbeef".to_string()));
}

#[test]
fn first_push_id_takes_first_result() {
    let resp = PushResponse {
        results: vec![
            PushResult { id: 42, revision: "aaa".to_string() },
            PushResult { id: 43, revision: "bbb".to_string() },
        ],
    };
    assert_eq!(first_push_id(&resp), Ok(42));
    let empty = PushResponse { results: vec![] };
    assert_eq!(first_push_id(&empty), Err(PushError::NoPushFound));
}
