//! Revision and identity resolution: extracting a revision from a URL or
//! raw hash, resolving a landing job to its commit, and picking the push
//! id out of a push lookup.

use vstd::prelude::*;

use crate::models::{LandoJobResponse, PushResponse};
use crate::text::str_starts_with;

verus! {

/// The decoded query pairs of `s` when it parses as an absolute URL,
/// in order; nothing when it does not parse. Parsing and percent
/// decoding are deterministic in the input text.
pub uninterp spec fn url_query_pairs(s: Seq<char>) -> Option<Seq<(Seq<char>, Seq<char>)>>;

/// Relies on `url::Url::parse` and `url::Url::query_pairs`: both are
/// deterministic functions of the input text; the pairs come back
/// percent-decoded, in the order they stand in the query.
#[verifier::external_body]
fn parse_query_pairs(input: &str) -> (r: Option<Vec<(String, String)>>)
    ensures
        r is Some <==> url_query_pairs(input@) is Some,
        r is Some ==> r.unwrap().deep_view() == url_query_pairs(input@).unwrap(),
{
    match url::Url::parse(input) {
        Ok(u) => Some(u.query_pairs().map(|(k, v)| (k.to_string(), v.to_string())).collect()),
        Err(_) => None,
    }
}

/// The value of the first pair whose key equals `key`.
pub open spec fn first_value_for(pairs: Seq<(Seq<char>, Seq<char>)>, key: Seq<char>) -> Option<
    Seq<char>,
>
    decreases pairs.len(),
{
    if pairs.len() == 0 {
        None
    } else if pairs[0].0 == key {
        Some(pairs[0].1)
    } else {
        first_value_for(pairs.drop_first(), key)
    }
}

/// The value of the first `revision` query pair, if any.
pub fn find_revision_pair(pairs: &Vec<(String, String)>) -> (r: Option<String>)
    ensures
        r.deep_view() == first_value_for(pairs.deep_view(), "revision"@),
{
    let ghost pv = pairs.deep_view();
    let mut i: usize = 0;
    proof {
        assert(pv.skip(0) =~= pv);
    }
    while i < pairs.len()
        invariant
            0 <= i <= pairs@.len(),
            pv == pairs.deep_view(),
            pv.len() == pairs@.len(),
            first_value_for(pv, "revision"@) == first_value_for(pv.skip(i as int), "revision"@),
        decreases pairs@.len() - i,
    {
        proof {
            assert(pv.skip(i as int)[0] == pv[i as int]);
            assert(pv[i as int] == pairs@[i as int].deep_view());
        }
        if crate::text::str_eq(pairs[i].0.as_str(), "revision") {
            proof {
                assert(first_value_for(pv.skip(i as int), "revision"@) == Some(pv[i as int].1));
            }
            return Some(pairs[i].1.clone());
        }
        proof {
            assert(pv.skip(i as int).drop_first() =~= pv.skip(i + 1));
        }
        i += 1;
    }
    proof {
        assert(pv.skip(pairs@.len() as int) =~= Seq::<(Seq<char>, Seq<char>)>::empty());
    }
    None
}

/// Why a revision could not be extracted from the input token.
#[derive(Debug, Clone, Copy, PartialEq, Eq)]
pub enum RevisionError {
    InvalidUrl,
    NoRevisionInUrl,
}

/// True when the input token is treated as a URL rather than a raw hash.
pub open spec fn is_url_input(s: Seq<char>) -> bool {
    "http"@.len() <= s.len() && s.subrange(0, "http"@.len() as int) == "http"@
}

/// What `extract_revision` returns for a given input.
pub open spec fn spec_extract_revision(s: Seq<char>) -> Result<Seq<char>, RevisionError> {
    if !is_url_input(s) {
        Ok(s)
    } else {
        match url_query_pairs(s) {
            None => Err(RevisionError::InvalidUrl),
            Some(pairs) => match first_value_for(pairs, "revision"@) {
                Some(v) => Ok(v),
                None => Err(RevisionError::NoRevisionInUrl),
            },
        }
    }
}

/// Produces the canonical revision of an input token: a token that does
/// not begin with `http` is itself the revision; otherwise the token
/// must parse as a URL and carry a `revision` query parameter, whose
/// first value is the revision.
pub fn extract_revision(input: &str) -> (r: Result<String, RevisionError>)
    ensures
        match r {
            Ok(rev) => spec_extract_revision(input@) is Ok && rev@ == spec_extract_revision(
                input@,
            ).unwrap(),
            Err(e) => spec_extract_revision(input@) == Err::<Seq<char>, RevisionError>(e),
        },
{
    if !str_starts_with(input, "http") {
        return Ok(String::from_str(input));
    }
    match parse_query_pairs(input) {
        None => Err(RevisionError::InvalidUrl),
        Some(pairs) => match find_revision_pair(&pairs) {
            Some(v) => Ok(v),
            None => Err(RevisionError::NoRevisionInUrl),
        },
    }
}

/// Why a landing job did not yield a commit.
#[derive(Debug, Clone, Copy, PartialEq, Eq)]
pub enum LandoError {
    IdMismatch,
    NotLanded,
    MissingCommitId,
}

/// Checks that the landing-job service echoed the requested job id.
pub fn validate_lando_job_id(expected: u64, resp: &LandoJobResponse) -> (r: Result<
    (),
    LandoError,
>)
    ensures
        match r {
            Ok(()) => resp.id == expected,
            Err(e) => resp.id != expected && e == LandoError::IdMismatch,
        },
{
    if resp.id == expected {
        Ok(())
    } else {
        Err(LandoError::IdMismatch)
    }
}

/// The commit id of a landed landing job: the job must have status
/// exactly `LANDED` and carry a commit id.
pub fn landed_commit(resp: &LandoJobResponse) -> (r: Result<String, LandoError>)
    ensures
        match r {
            Ok(c) => resp.status@ == "LANDED"@ && resp.commit_id is Some && c@
                == resp.commit_id.unwrap()@,
            Err(e) => match e {
                LandoError::NotLanded => resp.status@ != "LANDED"@,
                LandoError::MissingCommitId => resp.status@ == "LANDED"@
                    && resp.commit_id is None,
                LandoError::IdMismatch => false,
            },
        },
{
    if !crate::text::str_eq(resp.status.as_str(), "LANDED") {
        return Err(LandoError::NotLanded);
    }
    match &resp.commit_id {
        Some(c) => Ok(c.clone()),
        None => Err(LandoError::MissingCommitId),
    }
}

/// Why a push lookup yielded no push.
#[derive(Debug, Clone, Copy, PartialEq, Eq)]
pub enum PushError {
    NoPushFound,
}

/// The id of the first push of a push-lookup reply; a reply with no
/// results is an upstream error.
pub fn first_push_id(resp: &PushResponse) -> (r: Result<u64, PushError>)
    ensures
        match r {
            Ok(id) => resp.results@.len() > 0 && id == resp.results@[0].id,
            Err(e) => resp.results@.len() == 0 && e == PushError::NoPushFound,
        },
{
    if resp.results.len() > 0 {
        Ok(resp.results[0].id)
    } else {
        Err(PushError::NoPushFound)
    }
}

} // verus!
