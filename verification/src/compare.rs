//! Two-revision comparison: the (test, platform) failure pairs of each
//! batch, their differences and intersection, and the per-test grouping
//! of each outcome class.

use vstd::prelude::*;

use crate::models::{
    ComparisonFailure, ComparisonFailureView, ComparisonResult, ErrorLineView, JobWithLogs,
    JobWithLogsView,
};
use crate::seqs::{dedup_firsts, keys_of, vals_for};
use crate::text::{str_eq, vec_contains_string};

verus! {

/// The (test, platform) pairs one job's error lines contribute.
pub open spec fn error_test_pairs(j: JobWithLogsView, errors: Seq<ErrorLineView>) -> Seq<
    (Seq<char>, Seq<char>),
>
    decreases errors.len(),
{
    if errors.len() == 0 {
        Seq::empty()
    } else {
        let init = error_test_pairs(j, errors.drop_last());
        if errors.last().test is Some {
            init.push((errors.last().test.unwrap(), j.job.platform))
        } else {
            init
        }
    }
}

/// Every (test, platform) pair of the non-success jobs of a batch, in
/// scan order. Any result other than `success` contributes, not only
/// the explicit failure results.
pub open spec fn failure_pairs(jobs: Seq<JobWithLogsView>) -> Seq<(Seq<char>, Seq<char>)>
    decreases jobs.len(),
{
    if jobs.len() == 0 {
        Seq::empty()
    } else {
        failure_pairs(jobs.drop_last()) + if jobs.last().job.result != "success"@ {
            error_test_pairs(jobs.last(), jobs.last().errors)
        } else {
            Seq::empty()
        }
    }
}

/// The pairs of `pairs` that do not occur in `other`, in order.
pub open spec fn diff_pairs(
    pairs: Seq<(Seq<char>, Seq<char>)>,
    other: Seq<(Seq<char>, Seq<char>)>,
) -> Seq<(Seq<char>, Seq<char>)>
    decreases pairs.len(),
{
    if pairs.len() == 0 {
        Seq::empty()
    } else {
        let init = diff_pairs(pairs.drop_last(), other);
        if !other.contains(pairs.last()) {
            init.push(pairs.last())
        } else {
            init
        }
    }
}

/// The pairs of `pairs` that also occur in `other`, in order.
pub open spec fn inter_pairs(
    pairs: Seq<(Seq<char>, Seq<char>)>,
    other: Seq<(Seq<char>, Seq<char>)>,
) -> Seq<(Seq<char>, Seq<char>)>
    decreases pairs.len(),
{
    if pairs.len() == 0 {
        Seq::empty()
    } else {
        let init = inter_pairs(pairs.drop_last(), other);
        if other.contains(pairs.last()) {
            init.push(pairs.last())
        } else {
            init
        }
    }
}

/// One comparison group per test of a pair list, in first-occurrence
/// order; the job type is left empty by design.
pub open spec fn comp_groups_for_tests(
    pairs: Seq<(Seq<char>, Seq<char>)>,
    tests: Seq<Seq<char>>,
) -> Seq<ComparisonFailureView>
    decreases tests.len(),
{
    if tests.len() == 0 {
        Seq::empty()
    } else {
        comp_groups_for_tests(pairs, tests.drop_last()).push(
            ComparisonFailureView {
                test_name: tests.last(),
                platforms: vals_for(pairs, tests.last()),
                job_type: Seq::empty(),
            },
        )
    }
}

/// The grouped view of a pair list.
pub open spec fn comparison_groups(pairs: Seq<(Seq<char>, Seq<char>)>) -> Seq<
    ComparisonFailureView,
> {
    comp_groups_for_tests(pairs, dedup_firsts(keys_of(pairs)))
}

/// The deduplicated failure pairs unique to the base batch.
pub open spec fn new_failure_pairs(
    base: Seq<JobWithLogsView>,
    compare: Seq<JobWithLogsView>,
) -> Seq<(Seq<char>, Seq<char>)> {
    diff_pairs(dedup_firsts(failure_pairs(base)), failure_pairs(compare))
}

/// The deduplicated failure pairs unique to the compare batch.
pub open spec fn fixed_failure_pairs(
    base: Seq<JobWithLogsView>,
    compare: Seq<JobWithLogsView>,
) -> Seq<(Seq<char>, Seq<char>)> {
    diff_pairs(dedup_firsts(failure_pairs(compare)), failure_pairs(base))
}

/// The deduplicated failure pairs present in both batches.
pub open spec fn still_failing_pairs(
    base: Seq<JobWithLogsView>,
    compare: Seq<JobWithLogsView>,
) -> Seq<(Seq<char>, Seq<char>)> {
    inter_pairs(dedup_firsts(failure_pairs(base)), failure_pairs(compare))
}

/// A pair is in the difference exactly when it is in the first sequence
/// and not in the second.
pub proof fn lemma_diff_pairs_contains(
    pairs: Seq<(Seq<char>, Seq<char>)>,
    other: Seq<(Seq<char>, Seq<char>)>,
    x: (Seq<char>, Seq<char>),
)
    ensures
        diff_pairs(pairs, other).contains(x) == (pairs.contains(x) && !other.contains(x)),
    decreases pairs.len(),
{
    lemma_select_pairs_contains(pairs, other, x, false);
}

/// A pair is in the intersection exactly when it is in both sequences.
pub proof fn lemma_inter_pairs_contains(
    pairs: Seq<(Seq<char>, Seq<char>)>,
    other: Seq<(Seq<char>, Seq<char>)>,
    x: (Seq<char>, Seq<char>),
)
    ensures
        inter_pairs(pairs, other).contains(x) == (pairs.contains(x) && other.contains(x)),
    decreases pairs.len(),
{
    lemma_select_pairs_contains(pairs, other, x, true);
}

/// Shared induction for the difference and the intersection: membership
/// in the selection is membership in `pairs` with the required
/// membership polarity in `other`.
proof fn lemma_select_pairs_contains(
    pairs: Seq<(Seq<char>, Seq<char>)>,
    other: Seq<(Seq<char>, Seq<char>)>,
    x: (Seq<char>, Seq<char>),
    keep_present: bool,
)
    ensures
        keep_present ==> inter_pairs(pairs, other).contains(x) == (pairs.contains(x)
            && other.contains(x)),
        !keep_present ==> diff_pairs(pairs, other).contains(x) == (pairs.contains(x)
            && !other.contains(x)),
    decreases pairs.len(),
{
    let out = if keep_present {
        inter_pairs(pairs, other)
    } else {
        diff_pairs(pairs, other)
    };
    if pairs.len() == 0 {
        assert(!pairs.contains(x)) by {
            if pairs.contains(x) {
                let w = choose|i: int| 0 <= i < pairs.len() && pairs[i] == x;
            }
        }
        assert(!out.contains(x)) by {
            if out.contains(x) {
                let w = choose|i: int| 0 <= i < out.len() && out[i] == x;
            }
        }
    } else {
        lemma_select_pairs_contains(pairs.drop_last(), other, x, keep_present);
        let init = if keep_present {
            inter_pairs(pairs.drop_last(), other)
        } else {
            diff_pairs(pairs.drop_last(), other)
        };
        let kept = if keep_present {
            other.contains(pairs.last())
        } else {
            !other.contains(pairs.last())
        };
        assert(pairs.contains(x) == (pairs.drop_last().contains(x) || pairs.last() == x)) by {
            if pairs.contains(x) {
                let w = choose|i: int| 0 <= i < pairs.len() && pairs[i] == x;
                if w < pairs.len() - 1 {
                    assert(pairs.drop_last()[w] == x);
                }
            }
            if pairs.drop_last().contains(x) {
                let w = choose|i: int| 0 <= i < pairs.len() - 1 && pairs.drop_last()[i] == x;
                assert(pairs[w] == x);
            }
            if pairs.last() == x {
                assert(pairs[pairs.len() - 1] == x);
            }
        }
        if kept {
            assert(out == init.push(pairs.last()));
            assert(out.contains(x) == (init.contains(x) || pairs.last() == x)) by {
                if out.contains(x) {
                    let w = choose|i: int| 0 <= i < out.len() && out[i] == x;
                    if w < init.len() {
                        assert(init[w] == x);
                    }
                }
                if init.contains(x) {
                    let w = choose|i: int| 0 <= i < init.len() && init[i] == x;
                    assert(out[w] == x);
                }
                if pairs.last() == x {
                    assert(out[out.len() - 1] == x);
                }
            }
        } else {
            assert(out == init);
        }
    }
}

/// The comparison classes follow set semantics: as sets of pairs, the
/// new failures are the base failures minus the compare failures, the
/// fixed failures are the compare failures minus the base failures, and
/// the still-failing pairs are the intersection.
pub proof fn lemma_comparison_set_semantics(
    base: Seq<JobWithLogsView>,
    compare: Seq<JobWithLogsView>,
)
    ensures
        new_failure_pairs(base, compare).to_set() == failure_pairs(base).to_set().difference(
            failure_pairs(compare).to_set(),
        ),
        fixed_failure_pairs(base, compare).to_set() == failure_pairs(compare).to_set().difference(
            failure_pairs(base).to_set(),
        ),
        still_failing_pairs(base, compare).to_set() == failure_pairs(base).to_set().intersect(
            failure_pairs(compare).to_set(),
        ),
{
    let fb = failure_pairs(base);
    let fc = failure_pairs(compare);
    assert forall|x: (Seq<char>, Seq<char>)|
        new_failure_pairs(base, compare).to_set().contains(x) == fb.to_set().difference(
            fc.to_set(),
        ).contains(x) by {
        lemma_diff_pairs_contains(dedup_firsts(fb), fc, x);
        crate::seqs::lemma_dedup_firsts_contains(fb, x);
    }
    assert(new_failure_pairs(base, compare).to_set() =~= fb.to_set().difference(fc.to_set()));
    assert forall|x: (Seq<char>, Seq<char>)|
        fixed_failure_pairs(base, compare).to_set().contains(x) == fc.to_set().difference(
            fb.to_set(),
        ).contains(x) by {
        lemma_diff_pairs_contains(dedup_firsts(fc), fb, x);
        crate::seqs::lemma_dedup_firsts_contains(fc, x);
    }
    assert(fixed_failure_pairs(base, compare).to_set() =~= fc.to_set().difference(fb.to_set()));
    assert forall|x: (Seq<char>, Seq<char>)|
        still_failing_pairs(base, compare).to_set().contains(x) == fb.to_set().intersect(
            fc.to_set(),
        ).contains(x) by {
        lemma_inter_pairs_contains(dedup_firsts(fb), fc, x);
        crate::seqs::lemma_dedup_firsts_contains(fb, x);
    }
    assert(still_failing_pairs(base, compare).to_set() =~= fb.to_set().intersect(fc.to_set()));
}

/// When both batches fail the same pairs, nothing is new and nothing is
/// fixed, and the still-failing pairs are exactly the shared set.
pub proof fn lemma_comparison_equal_batches(
    base: Seq<JobWithLogsView>,
    compare: Seq<JobWithLogsView>,
)
    requires
        failure_pairs(base).to_set() == failure_pairs(compare).to_set(),
    ensures
        new_failure_pairs(base, compare) == Seq::<(Seq<char>, Seq<char>)>::empty(),
        fixed_failure_pairs(base, compare) == Seq::<(Seq<char>, Seq<char>)>::empty(),
        still_failing_pairs(base, compare).to_set() == failure_pairs(base).to_set(),
{
    lemma_comparison_set_semantics(base, compare);
    let fb = failure_pairs(base);
    let fc = failure_pairs(compare);
    assert(fb.to_set().difference(fc.to_set()) =~= Set::<(Seq<char>, Seq<char>)>::empty());
    lemma_pairs_empty(new_failure_pairs(base, compare));
    assert(fc.to_set().difference(fb.to_set()) =~= Set::<(Seq<char>, Seq<char>)>::empty());
    lemma_pairs_empty(fixed_failure_pairs(base, compare));
    assert(fb.to_set().intersect(fc.to_set()) =~= fb.to_set());
}

/// A pair sequence with an empty membership set is empty.
proof fn lemma_pairs_empty(pairs: Seq<(Seq<char>, Seq<char>)>)
    requires
        pairs.to_set() == Set::<(Seq<char>, Seq<char>)>::empty(),
    ensures
        pairs == Seq::<(Seq<char>, Seq<char>)>::empty(),
{
    if pairs.len() > 0 {
        assert(pairs.contains(pairs[0]));
        assert(pairs.to_set().contains(pairs[0]));
    }
    assert(pairs =~= Seq::<(Seq<char>, Seq<char>)>::empty());
}

/// True when some element of `v` reads as the pair `(a, b)`.
fn vec_contains_pair(v: &Vec<(String, String)>, a: &str, b: &str) -> (r: bool)
    ensures
        r == v.deep_view().contains((a@, b@)),
{
    let mut k: usize = 0;
    while k < v.len()
        invariant
            0 <= k <= v@.len(),
            v.deep_view().len() == v@.len(),
            forall|i: int| 0 <= i < k ==> v.deep_view()[i] != (a@, b@),
        decreases v@.len() - k,
    {
        proof {
            assert(v.deep_view()[k as int] == v@[k as int].deep_view());
        }
        if str_eq(v[k].0.as_str(), a) && str_eq(v[k].1.as_str(), b) {
            proof {
                assert(v.deep_view()[k as int] == (a@, b@));
            }
            return true;
        }
        k += 1;
    }
    proof {
        if v.deep_view().contains((a@, b@)) {
            let w = choose|i: int|
                0 <= i < v.deep_view().len() && v.deep_view()[i] == (a@, b@);
            assert(v.deep_view()[w] != (a@, b@));
        }
    }
    false
}

/// Collects the (test, platform) pairs of the non-success jobs.
fn collect_failure_pairs(jobs: &Vec<JobWithLogs>) -> (r: Vec<(String, String)>)
    ensures
        r.deep_view() == failure_pairs(jobs.deep_view()),
{
    let mut pairs: Vec<(String, String)> = Vec::new();
    let mut i: usize = 0;
    proof {
        assert(pairs.deep_view() =~= failure_pairs(jobs.deep_view().take(0)));
    }
    while i < jobs.len()
        invariant
            0 <= i <= jobs@.len(),
            jobs.deep_view().len() == jobs@.len(),
            pairs.deep_view() == failure_pairs(jobs.deep_view().take(i as int)),
        decreases jobs@.len() - i,
    {
        let ghost jv = jobs.deep_view()[i as int];
        proof {
            assert(jv == jobs@[i as int].deep_view());
        }
        let job = &jobs[i];
        let ghost before = pairs.deep_view();
        if !str_eq(job.job.result.as_str(), "success") {
            let mut k: usize = 0;
            proof {
                assert(pairs.deep_view() =~= before + error_test_pairs(jv, jv.errors.take(0)));
            }
            while k < job.errors.len()
                invariant
                    0 <= k <= job.errors@.len(),
                    jv.errors.len() == job.errors@.len(),
                    jv == job.deep_view(),
                    pairs.deep_view() == before + error_test_pairs(jv, jv.errors.take(k as int)),
                decreases job.errors@.len() - k,
            {
                let ghost prev = pairs.deep_view();
                proof {
                    assert(jv.errors.take(k + 1).drop_last() =~= jv.errors.take(k as int));
                    assert(jv.errors.take(k + 1).last() == jv.errors[k as int]);
                    assert(jv.errors[k as int] == job.errors@[k as int].deep_view());
                }
                match &job.errors[k].test {
                    Some(t) => {
                        pairs.push((t.clone(), job.job.platform.clone()));
                        proof {
                            assert(pairs.deep_view() =~= prev.push(
                                (jv.errors[k as int].test.unwrap(), jv.job.platform),
                            ));
                        }
                    },
                    None => {},
                }
                k += 1;
            }
            proof {
                assert(jv.errors.take(jv.errors.len() as int) =~= jv.errors);
            }
        }
        proof {
            assert(jobs.deep_view().take(i + 1).drop_last() =~= jobs.deep_view().take(i as int));
            assert(jobs.deep_view().take(i + 1).last() == jv);
            if jv.job.result == "success"@ {
                assert(pairs.deep_view() =~= before + Seq::<(Seq<char>, Seq<char>)>::empty());
            }
            assert(pairs.deep_view() =~= failure_pairs(jobs.deep_view().take(i + 1)));
        }
        i += 1;
    }
    proof {
        assert(jobs.deep_view().take(jobs@.len() as int) =~= jobs.deep_view());
    }
    pairs
}

/// Keeps the first occurrence of each pair.
fn dedup_pairs(pairs: &Vec<(String, String)>) -> (r: Vec<(String, String)>)
    ensures
        r.deep_view() == dedup_firsts(pairs.deep_view()),
{
    let ghost pv = pairs.deep_view();
    let mut out: Vec<(String, String)> = Vec::new();
    let mut i: usize = 0;
    proof {
        assert(out.deep_view() =~= dedup_firsts(pv.take(0)));
    }
    while i < pairs.len()
        invariant
            0 <= i <= pairs@.len(),
            pv == pairs.deep_view(),
            pv.len() == pairs@.len(),
            out.deep_view() == dedup_firsts(pv.take(i as int)),
        decreases pairs@.len() - i,
    {
        let ghost prev = out.deep_view();
        proof {
            assert(pv.take(i + 1).drop_last() =~= pv.take(i as int));
            assert(pv.take(i + 1).last() == pv[i as int]);
            assert(pv[i as int] == pairs@[i as int].deep_view());
        }
        if !vec_contains_pair(&out, pairs[i].0.as_str(), pairs[i].1.as_str()) {
            out.push((pairs[i].0.clone(), pairs[i].1.clone()));
            proof {
                assert(out.deep_view() =~= prev.push(pv[i as int]));
            }
        }
        i += 1;
    }
    proof {
        assert(pv.take(pairs@.len() as int) =~= pv);
    }
    out
}

/// Keeps the pairs of `pairs` by their presence in `other`: those absent
/// when `keep_present` is false, those present when it is true.
fn select_pairs(pairs: &Vec<(String, String)>, other: &Vec<(String, String)>, keep_present: bool) -> (r:
    Vec<(String, String)>)
    ensures
        keep_present ==> r.deep_view() == inter_pairs(pairs.deep_view(), other.deep_view()),
        !keep_present ==> r.deep_view() == diff_pairs(pairs.deep_view(), other.deep_view()),
{
    let ghost pv = pairs.deep_view();
    let ghost ov = other.deep_view();
    let mut out: Vec<(String, String)> = Vec::new();
    let mut i: usize = 0;
    proof {
        assert(Seq::<(Seq<char>, Seq<char>)>::empty() =~= inter_pairs(pv.take(0), ov));
        assert(Seq::<(Seq<char>, Seq<char>)>::empty() =~= diff_pairs(pv.take(0), ov));
        assert(out.deep_view() =~= Seq::<(Seq<char>, Seq<char>)>::empty());
    }
    while i < pairs.len()
        invariant
            0 <= i <= pairs@.len(),
            pv == pairs.deep_view(),
            ov == other.deep_view(),
            pv.len() == pairs@.len(),
            keep_present ==> out.deep_view() == inter_pairs(pv.take(i as int), ov),
            !keep_present ==> out.deep_view() == diff_pairs(pv.take(i as int), ov),
        decreases pairs@.len() - i,
    {
        let ghost prev = out.deep_view();
        proof {
            assert(pv.take(i + 1).drop_last() =~= pv.take(i as int));
            assert(pv.take(i + 1).last() == pv[i as int]);
            assert(pv[i as int] == pairs@[i as int].deep_view());
        }
        let present = vec_contains_pair(other, pairs[i].0.as_str(), pairs[i].1.as_str());
        if present == keep_present {
            out.push((pairs[i].0.clone(), pairs[i].1.clone()));
            proof {
                assert(out.deep_view() =~= prev.push(pv[i as int]));
            }
        }
        i += 1;
    }
    proof {
        assert(pv.take(pairs@.len() as int) =~= pv);
    }
    out
}

/// Groups a pair list by test name into comparison entries.
fn group_pairs(pairs: &Vec<(String, String)>) -> (r: Vec<ComparisonFailure>)
    ensures
        r.deep_view() == comparison_groups(pairs.deep_view()),
{
    let ghost pv = pairs.deep_view();
    let mut tests: Vec<String> = Vec::new();
    let mut i: usize = 0;
    proof {
        assert(keys_of(pv.take(0)) =~= Seq::<Seq<char>>::empty());
        assert(tests.deep_view() =~= dedup_firsts(keys_of(pv.take(0))));
    }
    while i < pairs.len()
        invariant
            0 <= i <= pairs@.len(),
            pv == pairs.deep_view(),
            pv.len() == pairs@.len(),
            tests.deep_view() == dedup_firsts(keys_of(pv.take(i as int))),
        decreases pairs@.len() - i,
    {
        let ghost prev = tests.deep_view();
        proof {
            assert(pv.take(i + 1).drop_last() =~= pv.take(i as int));
            assert(pv.take(i + 1).last() == pv[i as int]);
            assert(keys_of(pv.take(i + 1)).drop_last() =~= keys_of(pv.take(i as int)));
            assert(keys_of(pv.take(i + 1)).last() == pv[i as int].0);
            assert(pv[i as int] == pairs@[i as int].deep_view());
        }
        if !vec_contains_string(&tests, pairs[i].0.as_str()) {
            tests.push(pairs[i].0.clone());
            proof {
                assert(tests.deep_view() =~= prev.push(pv[i as int].0));
            }
        }
        i += 1;
    }
    proof {
        assert(pv.take(pairs@.len() as int) =~= pv);
    }
    let ghost tv = tests.deep_view();
    let mut out: Vec<ComparisonFailure> = Vec::new();
    let mut gi: usize = 0;
    proof {
        assert(out.deep_view() =~= comp_groups_for_tests(pv, tv.take(0)));
    }
    while gi < tests.len()
        invariant
            0 <= gi <= tests@.len(),
            pv == pairs.deep_view(),
            tv == tests.deep_view(),
            tv.len() == tests@.len(),
            out.deep_view() == comp_groups_for_tests(pv, tv.take(gi as int)),
        decreases tests@.len() - gi,
    {
        let ghost prev = out.deep_view();
        let mut platforms: Vec<String> = Vec::new();
        let mut k: usize = 0;
        proof {
            assert(platforms.deep_view() =~= vals_for(pv.take(0), tv[gi as int]));
        }
        while k < pairs.len()
            invariant
                0 <= k <= pairs@.len(),
                0 <= gi < tests@.len(),
                pv == pairs.deep_view(),
                tv == tests.deep_view(),
                tv.len() == tests@.len(),
                platforms.deep_view() == vals_for(pv.take(k as int), tv[gi as int]),
            decreases pairs@.len() - k,
        {
            let ghost pprev = platforms.deep_view();
            proof {
                assert(pv.take(k + 1).drop_last() =~= pv.take(k as int));
                assert(pv.take(k + 1).last() == pv[k as int]);
                assert(pv[k as int] == pairs@[k as int].deep_view());
                assert(tv[gi as int] == tests@[gi as int]@);
            }
            if str_eq(pairs[k].0.as_str(), tests[gi].as_str()) {
                platforms.push(pairs[k].1.clone());
                proof {
                    assert(platforms.deep_view() =~= pprev.push(pv[k as int].1));
                }
            }
            k += 1;
        }
        proof {
            assert(pv.take(pairs@.len() as int) =~= pv);
        }
        let group = ComparisonFailure {
            test_name: tests[gi].clone(),
            platforms,
            job_type: String::new(),
        };
        proof {
            assert(tv[gi as int] == tests@[gi as int]@);
            assert(group.deep_view() =~= (ComparisonFailureView {
                test_name: tv[gi as int],
                platforms: vals_for(pv, tv[gi as int]),
                job_type: Seq::empty(),
            }));
        }
        out.push(group);
        proof {
            assert(tv.take(gi + 1).drop_last() =~= tv.take(gi as int));
            assert(tv.take(gi + 1).last() == tv[gi as int]);
            assert(out.deep_view() =~= prev.push(
                (ComparisonFailureView {
                    test_name: tv[gi as int],
                    platforms: vals_for(pv, tv[gi as int]),
                    job_type: Seq::empty(),
                }),
            ));
        }
        gi += 1;
    }
    proof {
        assert(tv.take(tests@.len() as int) =~= tv);
    }
    out
}

/// Compares two batches' failure pairs and groups each outcome class by
/// test name: new failures are pairs only in the base batch, fixed ones
/// only in the compare batch, still-failing ones in both.
pub fn compare_failures(
    base_jobs: &Vec<JobWithLogs>,
    compare_jobs: &Vec<JobWithLogs>,
    base_revision: &str,
    compare_revision: &str,
    base_push_id: u64,
    compare_push_id: u64,
) -> (r: ComparisonResult)
    ensures
        r.base_revision@ == base_revision@,
        r.compare_revision@ == compare_revision@,
        r.base_push_id == base_push_id,
        r.compare_push_id == compare_push_id,
        r.new_failures.deep_view() == comparison_groups(
            new_failure_pairs(base_jobs.deep_view(), compare_jobs.deep_view()),
        ),
        r.fixed_failures.deep_view() == comparison_groups(
            fixed_failure_pairs(base_jobs.deep_view(), compare_jobs.deep_view()),
        ),
        r.still_failing.deep_view() == comparison_groups(
            still_failing_pairs(base_jobs.deep_view(), compare_jobs.deep_view()),
        ),
{
    let base_pairs = collect_failure_pairs(base_jobs);
    let compare_pairs = collect_failure_pairs(compare_jobs);
    let base_dedup = dedup_pairs(&base_pairs);
    let compare_dedup = dedup_pairs(&compare_pairs);
    let new_pairs = select_pairs(&base_dedup, &compare_pairs, false);
    let fixed_pairs = select_pairs(&compare_dedup, &base_pairs, false);
    let still_pairs = select_pairs(&base_dedup, &compare_pairs, true);
    ComparisonResult {
        base_revision: String::from_str(base_revision),
        compare_revision: String::from_str(compare_revision),
        base_push_id,
        compare_push_id,
        new_failures: group_pairs(&new_pairs),
        fixed_failures: group_pairs(&fixed_pairs),
        still_failing: group_pairs(&still_pairs),
    }
}

} // verus!
