//! The filter chain over a fetched job list, job-state tallies, and the
//! validity rules over resolved command-line arguments.

use vstd::prelude::*;

use crate::models::{Args, Job, JobView, MatchFilter};
use crate::pattern::{regex_match, SearchPattern};
use crate::seqs::{lemma_filter_len_le, lemma_filter_take_step};
use crate::text::{contains_substr, spec_contains, str_eq};

verus! {

/// The failure classification id that marks a known-intermittent outcome.
pub const INTERMITTENT_CLASSIFICATION: u64 = 4;

/// True of a result string that counts as a failure.
pub open spec fn is_failure_result(r: Seq<char>) -> bool {
    r == "testfailed"@ || r == "busted"@
}

/// True of a result string that counts as a success.
pub open spec fn is_success_result(r: Seq<char>) -> bool {
    r == "success"@
}

/// Whether the result filter keeps a job.
pub open spec fn match_filter_keeps(f: MatchFilter, j: JobView) -> bool {
    match f {
        MatchFilter::Failure => is_failure_result(j.result),
        MatchFilter::Success => is_success_result(j.result),
        MatchFilter::All => true,
    }
}

/// True of a job whose result counts as a failure.
pub fn is_failure_job(job: &Job) -> (r: bool)
    ensures
        r == is_failure_result(job@.result),
{
    str_eq(job.result.as_str(), "testfailed") || str_eq(job.result.as_str(), "busted")
}

/// Keeps the jobs the result filter selects, in order.
pub fn apply_match_filter(jobs: Vec<Job>, f: &MatchFilter) -> (r: Vec<Job>)
    ensures
        r.deep_view() == jobs.deep_view().filter(|j: JobView| match_filter_keeps(*f, j)),
{
    let ghost pred = |j: JobView| match_filter_keeps(*f, j);
    let mut out: Vec<Job> = Vec::new();
    let mut i: usize = 0;
    proof {
        assert(jobs.deep_view().take(0).filter(pred) =~= Seq::<JobView>::empty());
        assert(out.deep_view() =~= Seq::<JobView>::empty());
        reveal(Seq::filter);
    }
    while i < jobs.len()
        invariant
            0 <= i <= jobs@.len(),
            jobs.deep_view().len() == jobs@.len(),
            out.deep_view() == jobs.deep_view().take(i as int).filter(pred),
            forall|j: JobView| #[trigger] pred(j) == match_filter_keeps(*f, j),
        decreases jobs@.len() - i,
    {
        let keep = match f {
            MatchFilter::Failure => is_failure_job(&jobs[i]),
            MatchFilter::Success => str_eq(jobs[i].result.as_str(), "success"),
            MatchFilter::All => true,
        };
        let ghost prev = out.deep_view();
        if keep {
            out.push(jobs[i].clone());
            proof {
                assert(out.deep_view() =~= prev.push(jobs@[i as int].deep_view()));
            }
        }
        proof {
            assert(jobs.deep_view()[i as int] == jobs@[i as int].deep_view());
            assert(keep == pred(jobs.deep_view()[i as int]));
            lemma_filter_take_step(jobs.deep_view(), pred, i as int);
        }
        i += 1;
    }
    proof {
        assert(jobs.deep_view().take(jobs@.len() as int) =~= jobs.deep_view());
    }
    out
}

/// Keeps the jobs whose type name contains `needle`.
pub fn filter_by_job_type(jobs: Vec<Job>, needle: &str) -> (r: Vec<Job>)
    ensures
        r.deep_view() == jobs.deep_view().filter(
            |j: JobView| spec_contains(j.job_type_name, needle@),
        ),
{
    let ghost pred = |j: JobView| spec_contains(j.job_type_name, needle@);
    let mut out: Vec<Job> = Vec::new();
    let mut i: usize = 0;
    proof {
        assert(jobs.deep_view().take(0).filter(pred) =~= Seq::<JobView>::empty());
        assert(out.deep_view() =~= Seq::<JobView>::empty());
    }
    while i < jobs.len()
        invariant
            0 <= i <= jobs@.len(),
            jobs.deep_view().len() == jobs@.len(),
            out.deep_view() == jobs.deep_view().take(i as int).filter(pred),
            forall|j: JobView| #[trigger] pred(j) == spec_contains(j.job_type_name, needle@),
        decreases jobs@.len() - i,
    {
        let keep = contains_substr(jobs[i].job_type_name.as_str(), needle);
        let ghost prev = out.deep_view();
        if keep {
            out.push(jobs[i].clone());
            proof {
                assert(out.deep_view() =~= prev.push(jobs@[i as int].deep_view()));
            }
        }
        proof {
            assert(jobs.deep_view()[i as int] == jobs@[i as int].deep_view());
            assert(keep == pred(jobs.deep_view()[i as int]));
            lemma_filter_take_step(jobs.deep_view(), pred, i as int);
        }
        i += 1;
    }
    proof {
        assert(jobs.deep_view().take(jobs@.len() as int) =~= jobs.deep_view());
    }
    out
}

/// Keeps the jobs whose platform the compiled pattern matches.
pub fn filter_by_platform(jobs: Vec<Job>, pattern: &SearchPattern) -> (r: Vec<Job>)
    ensures
        r.deep_view() == jobs.deep_view().filter(
            |j: JobView| regex_match(pattern.source_view(), j.platform),
        ),
{
    let ghost pred = |j: JobView| regex_match(pattern.source_view(), j.platform);
    let mut out: Vec<Job> = Vec::new();
    let mut i: usize = 0;
    proof {
        assert(jobs.deep_view().take(0).filter(pred) =~= Seq::<JobView>::empty());
        assert(out.deep_view() =~= Seq::<JobView>::empty());
    }
    while i < jobs.len()
        invariant
            0 <= i <= jobs@.len(),
            jobs.deep_view().len() == jobs@.len(),
            out.deep_view() == jobs.deep_view().take(i as int).filter(pred),
            forall|j: JobView| #[trigger] pred(j) == regex_match(pattern.source_view(), j.platform),
        decreases jobs@.len() - i,
    {
        let keep = pattern.is_match(jobs[i].platform.as_str());
        let ghost prev = out.deep_view();
        if keep {
            out.push(jobs[i].clone());
            proof {
                assert(out.deep_view() =~= prev.push(jobs@[i as int].deep_view()));
            }
        }
        proof {
            assert(jobs.deep_view()[i as int] == jobs@[i as int].deep_view());
            assert(keep == pred(jobs.deep_view()[i as int]));
            lemma_filter_take_step(jobs.deep_view(), pred, i as int);
        }
        i += 1;
    }
    proof {
        assert(jobs.deep_view().take(jobs@.len() as int) =~= jobs.deep_view());
    }
    out
}

/// Keeps the jobs that ran at least `min_duration` seconds.
pub fn filter_by_duration(jobs: Vec<Job>, min_duration: u64) -> (r: Vec<Job>)
    ensures
        r.deep_view() == jobs.deep_view().filter(
            |j: JobView| j.duration is Some && j.duration.unwrap() >= min_duration,
        ),
{
    let ghost pred = |j: JobView| j.duration is Some && j.duration.unwrap() >= min_duration;
    let mut out: Vec<Job> = Vec::new();
    let mut i: usize = 0;
    proof {
        assert(jobs.deep_view().take(0).filter(pred) =~= Seq::<JobView>::empty());
        assert(out.deep_view() =~= Seq::<JobView>::empty());
    }
    while i < jobs.len()
        invariant
            0 <= i <= jobs@.len(),
            jobs.deep_view().len() == jobs@.len(),
            out.deep_view() == jobs.deep_view().take(i as int).filter(pred),
            forall|j: JobView| #[trigger] pred(j) == (j.duration is Some && j.duration.unwrap() >= min_duration),
        decreases jobs@.len() - i,
    {
        let keep = match jobs[i].duration {
            Some(d) => d >= min_duration,
            None => false,
        };
        let ghost prev = out.deep_view();
        if keep {
            out.push(jobs[i].clone());
            proof {
                assert(out.deep_view() =~= prev.push(jobs@[i as int].deep_view()));
            }
        }
        proof {
            assert(jobs.deep_view()[i as int] == jobs@[i as int].deep_view());
            assert(keep == pred(jobs.deep_view()[i as int]));
            lemma_filter_take_step(jobs.deep_view(), pred, i as int);
        }
        i += 1;
    }
    proof {
        assert(jobs.deep_view().take(jobs@.len() as int) =~= jobs.deep_view());
    }
    out
}

/// Drops the jobs classified as intermittent.
pub fn filter_intermittent(jobs: Vec<Job>) -> (r: Vec<Job>)
    ensures
        r.deep_view() == jobs.deep_view().filter(
            |j: JobView| j.failure_classification_id != Some(INTERMITTENT_CLASSIFICATION),
        ),
{
    let ghost pred = |j: JobView| j.failure_classification_id != Some(
        INTERMITTENT_CLASSIFICATION,
    );
    let mut out: Vec<Job> = Vec::new();
    let mut i: usize = 0;
    proof {
        assert(jobs.deep_view().take(0).filter(pred) =~= Seq::<JobView>::empty());
        assert(out.deep_view() =~= Seq::<JobView>::empty());
    }
    while i < jobs.len()
        invariant
            0 <= i <= jobs@.len(),
            jobs.deep_view().len() == jobs@.len(),
            out.deep_view() == jobs.deep_view().take(i as int).filter(pred),
            forall|j: JobView| #[trigger] pred(j) == (j.failure_classification_id != Some(INTERMITTENT_CLASSIFICATION)),
        decreases jobs@.len() - i,
    {
        let keep = match jobs[i].failure_classification_id {
            Some(c) => c != INTERMITTENT_CLASSIFICATION,
            None => true,
        };
        let ghost prev = out.deep_view();
        if keep {
            out.push(jobs[i].clone());
            proof {
                assert(out.deep_view() =~= prev.push(jobs@[i as int].deep_view()));
            }
        }
        proof {
            assert(jobs.deep_view()[i as int] == jobs@[i as int].deep_view());
            assert(keep == pred(jobs.deep_view()[i as int]));
            lemma_filter_take_step(jobs.deep_view(), pred, i as int);
        }
        i += 1;
    }
    proof {
        assert(jobs.deep_view().take(jobs@.len() as int) =~= jobs.deep_view());
    }
    out
}

/// True when every job has reached the `completed` state.
pub fn are_all_jobs_complete(jobs: &Vec<Job>) -> (r: bool)
    ensures
        r == forall|i: int|
            0 <= i < jobs.deep_view().len() ==> (#[trigger] jobs.deep_view()[i]).state
                == "completed"@,
{
    let mut k: usize = 0;
    while k < jobs.len()
        invariant
            0 <= k <= jobs@.len(),
            jobs.deep_view().len() == jobs@.len(),
            forall|i: int| 0 <= i < k ==> (#[trigger] jobs.deep_view()[i]).state == "completed"@,
        decreases jobs@.len() - k,
    {
        if !str_eq(jobs[k].state.as_str(), "completed") {
            proof {
                assert(jobs.deep_view()[k as int] == jobs@[k as int].deep_view());
                assert(jobs.deep_view()[k as int].state != "completed"@);
            }
            return false;
        }
        proof {
            assert(jobs.deep_view()[k as int] == jobs@[k as int].deep_view());
        }
        k += 1;
    }
    true
}

/// The number of jobs whose state equals `state`.
pub open spec fn count_in_state(jobs: Seq<JobView>, state: Seq<char>) -> nat {
    jobs.filter(|j: JobView| j.state == state).len()
}

/// Counts the completed, running, and pending jobs, in that order.
pub fn count_job_states(jobs: &Vec<Job>) -> (r: (usize, usize, usize))
    ensures
        r.0 == count_in_state(jobs.deep_view(), "completed"@),
        r.1 == count_in_state(jobs.deep_view(), "running"@),
        r.2 == count_in_state(jobs.deep_view(), "pending"@),
{
    let mut completed: usize = 0;
    let mut running: usize = 0;
    let mut pending: usize = 0;
    let ghost jv = jobs.deep_view();
    let ghost pc = |j: JobView| j.state == "completed"@;
    let ghost pr = |j: JobView| j.state == "running"@;
    let ghost pp = |j: JobView| j.state == "pending"@;
    let mut i: usize = 0;
    proof {
        reveal(Seq::filter);
        assert(jv.take(0).filter(pc) =~= Seq::<JobView>::empty());
        assert(jv.take(0).filter(pr) =~= Seq::<JobView>::empty());
        assert(jv.take(0).filter(pp) =~= Seq::<JobView>::empty());
    }
    while i < jobs.len()
        invariant
            0 <= i <= jobs@.len(),
            jv == jobs.deep_view(),
            jv.len() == jobs@.len(),
            completed == jv.take(i as int).filter(pc).len(),
            running == jv.take(i as int).filter(pr).len(),
            pending == jv.take(i as int).filter(pp).len(),
            forall|j: JobView| #[trigger] pc(j) == (j.state == "completed"@),
            forall|j: JobView| #[trigger] pr(j) == (j.state == "running"@),
            forall|j: JobView| #[trigger] pp(j) == (j.state == "pending"@),
        decreases jobs@.len() - i,
    {
        proof {
            lemma_filter_take_step(jv, pc, i as int);
            lemma_filter_take_step(jv, pr, i as int);
            lemma_filter_take_step(jv, pp, i as int);
            lemma_filter_len_le(jv.take(i as int), pc);
            lemma_filter_len_le(jv.take(i as int), pr);
            lemma_filter_len_le(jv.take(i as int), pp);
        }
        if str_eq(jobs[i].state.as_str(), "completed") {
            completed += 1;
        }
        if str_eq(jobs[i].state.as_str(), "running") {
            running += 1;
        }
        if str_eq(jobs[i].state.as_str(), "pending") {
            pending += 1;
        }
        i += 1;
    }
    proof {
        assert(jv.take(jobs@.len() as int) =~= jv);
    }
    (completed, running, pending)
}

/// The number of completed jobs whose result counts as a failure.
pub open spec fn count_completed_failures(jobs: Seq<JobView>) -> nat {
    jobs.filter(|j: JobView| j.state == "completed"@ && is_failure_result(j.result)).len()
}

/// Counts the completed jobs whose result counts as a failure.
pub fn count_failed_completed(jobs: &Vec<Job>) -> (r: usize)
    ensures
        r == count_completed_failures(jobs.deep_view()),
{
    let ghost jv = jobs.deep_view();
    let ghost pred = |j: JobView| j.state == "completed"@ && is_failure_result(j.result);
    let mut n: usize = 0;
    let mut i: usize = 0;
    proof {
        reveal(Seq::filter);
        assert(jv.take(0).filter(pred) =~= Seq::<JobView>::empty());
    }
    while i < jobs.len()
        invariant
            0 <= i <= jobs@.len(),
            jv == jobs.deep_view(),
            jv.len() == jobs@.len(),
            n == jv.take(i as int).filter(pred).len(),
            forall|j: JobView| #[trigger] pred(j) == (j.state == "completed"@
                && is_failure_result(j.result)),
        decreases jobs@.len() - i,
    {
        proof {
            lemma_filter_take_step(jv, pred, i as int);
            lemma_filter_len_le(jv.take(i as int), pred);
        }
        if str_eq(jobs[i].state.as_str(), "completed") && is_failure_job(&jobs[i]) {
            n += 1;
        }
        i += 1;
    }
    proof {
        assert(jv.take(jobs@.len() as int) =~= jv);
    }
    n
}

/// A combination of arguments that the tool rejects before any fetch.
#[derive(Debug, Clone, PartialEq, Eq)]
pub enum ArgsError {
    MissingInput,
    NotifyWithoutWatch,
    WatchWithUseCache,
    CompareWithUseCache,
    CompareWithWatch,
}

/// True when some input source is available.
pub open spec fn args_have_input(a: &Args) -> bool {
    a.use_cache || a.input is Some || a.similar_history is Some
}

/// Checks the mutual-exclusion rules over the resolved arguments: an
/// input source must exist, notification requires watch mode, and watch,
/// compare, and cache-only modes are pairwise incompatible where noted.
/// The first violated rule, in the order above, names the error.
pub fn validate_args(a: &Args) -> (r: Result<(), ArgsError>)
    ensures
        match r {
            Ok(()) => args_have_input(a) && !(a.notify && !a.watch) && !(a.watch && a.use_cache)
                && !(a.compare is Some && a.use_cache) && !(a.compare is Some && a.watch),
            Err(e) => match e {
                ArgsError::MissingInput => !args_have_input(a),
                ArgsError::NotifyWithoutWatch => args_have_input(a) && a.notify && !a.watch,
                ArgsError::WatchWithUseCache => args_have_input(a) && !(a.notify && !a.watch)
                    && a.watch && a.use_cache,
                ArgsError::CompareWithUseCache => args_have_input(a) && !(a.notify && !a.watch)
                    && !(a.watch && a.use_cache) && a.compare is Some && a.use_cache,
                ArgsError::CompareWithWatch => args_have_input(a) && !(a.notify && !a.watch) && !(
                a.watch && a.use_cache) && !(a.compare is Some && a.use_cache)
                    && a.compare is Some && a.watch,
            },
        },
{
    if !a.use_cache && a.input.is_none() && a.similar_history.is_none() {
        return Err(ArgsError::MissingInput);
    }
    if a.notify && !a.watch {
        return Err(ArgsError::NotifyWithoutWatch);
    }
    if a.watch && a.use_cache {
        return Err(ArgsError::WatchWithUseCache);
    }
    if a.compare.is_some() && a.use_cache {
        return Err(ArgsError::CompareWithUseCache);
    }
    if a.compare.is_some() && a.watch {
        return Err(ArgsError::CompareWithWatch);
    }
    Ok(())
}

} // verus!
