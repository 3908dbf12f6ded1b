//! Pass-rate statistics over a list of historically similar job
//! executions: pure counting, no concurrency or persistence.

use vstd::prelude::*;

use crate::models::{SimilarJob, SimilarJobView};
use crate::text::str_eq;

verus! {

/// How many similar jobs succeeded.
pub open spec fn spec_pass_count(jobs: Seq<SimilarJobView>) -> int
    decreases jobs.len(),
{
    if jobs.len() == 0 {
        0
    } else {
        spec_pass_count(jobs.drop_last()) + if jobs.last().result == "success"@ {
            1int
        } else {
            0int
        }
    }
}

/// How many similar jobs failed (`testfailed` or `busted`).
pub open spec fn spec_fail_count(jobs: Seq<SimilarJobView>) -> int
    decreases jobs.len(),
{
    if jobs.len() == 0 {
        0
    } else {
        spec_fail_count(jobs.drop_last()) + if jobs.last().result == "testfailed"@
            || jobs.last().result == "busted"@ {
            1int
        } else {
            0int
        }
    }
}

/// The tallies stay within the number of jobs.
pub proof fn lemma_similar_counts_bounded(jobs: Seq<SimilarJobView>)
    ensures
        0 <= spec_pass_count(jobs) <= jobs.len(),
        0 <= spec_fail_count(jobs) <= jobs.len(),
        spec_pass_count(jobs) + spec_fail_count(jobs) <= jobs.len(),
    decreases jobs.len(),
{
    reveal_strlit("success");
    reveal_strlit("testfailed");
    reveal_strlit("busted");
    assert("success"@.len() != "testfailed"@.len());
    assert("success"@.len() != "busted"@.len());
    if jobs.len() > 0 {
        lemma_similar_counts_bounded(jobs.drop_last());
    }
}

/// The history summary of one job: its identity, the tally over its
/// similar executions, and the executions themselves. The pass rate is
/// a rendering of `pass_count` over `total_jobs` and is computed where
/// the summary is displayed.
#[derive(Debug, Clone, PartialEq, Eq)]
pub struct SimilarJobStats {
    pub job_id: u64,
    pub job_type_name: String,
    pub repo: String,
    pub total_jobs: usize,
    pub pass_count: usize,
    pub fail_count: usize,
    pub jobs: Vec<SimilarJob>,
}

/// Tallies a list of similar job executions: the total, how many
/// succeeded, how many failed, and the type name taken from the first
/// execution (empty when there is none).
pub fn summarize_similar_jobs(job_id: u64, repository: String, results: Vec<SimilarJob>) -> (r:
    SimilarJobStats)
    ensures
        r.job_id == job_id,
        r.repo@ == repository@,
        r.total_jobs == results.deep_view().len(),
        r.pass_count == spec_pass_count(results.deep_view()),
        r.fail_count == spec_fail_count(results.deep_view()),
        r.job_type_name@ == if results.deep_view().len() > 0 {
            results.deep_view()[0].job_type_name
        } else {
            Seq::<char>::empty()
        },
        r.jobs.deep_view() == results.deep_view(),
{
    let ghost rv = results.deep_view();
    let job_type_name = if results.len() > 0 {
        results[0].job_type_name.clone()
    } else {
        String::new()
    };
    let mut pass: usize = 0;
    let mut fail: usize = 0;
    let mut i: usize = 0;
    proof {
        lemma_similar_counts_bounded(rv.take(0));
    }
    while i < results.len()
        invariant
            0 <= i <= results@.len(),
            rv == results.deep_view(),
            rv.len() == results@.len(),
            pass == spec_pass_count(rv.take(i as int)),
            fail == spec_fail_count(rv.take(i as int)),
        decreases results@.len() - i,
    {
        proof {
            assert(rv.take(i + 1).drop_last() =~= rv.take(i as int));
            assert(rv.take(i + 1).last() == rv[i as int]);
            assert(rv[i as int] == results@[i as int].deep_view());
            lemma_similar_counts_bounded(rv.take(i as int));
        }
        if str_eq(results[i].result.as_str(), "success") {
            pass += 1;
        }
        if str_eq(results[i].result.as_str(), "testfailed") || str_eq(
            results[i].result.as_str(),
            "busted",
        ) {
            fail += 1;
        }
        i += 1;
    }
    proof {
        assert(rv.take(results@.len() as int) =~= rv);
    }
    let total = results.len();
    SimilarJobStats {
        job_id,
        job_type_name,
        repo: repository,
        total_jobs: total,
        pass_count: pass,
        fail_count: fail,
        jobs: results,
    }
}

} // verus!
