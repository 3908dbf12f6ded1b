//! Group-by-test aggregation: collects every error line that names a
//! test into per-test groups, deduplicates the platforms each test
//! failed on, and orders the groups by how many platforms they touch.

use vstd::prelude::*;

use crate::models::{
    ErrorLineView, GroupedJobInfo, GroupedJobInfoView, GroupedTestFailure, GroupedTestFailureView,
    JobWithLogs, JobWithLogsView,
};
use crate::seqs::{dedup_firsts, keys_of, vals_for};
use crate::text::{clone_opt_string, str_eq, vec_contains_string};

verus! {

/// The group entry one error line contributes for its job.
pub open spec fn job_info_of(j: JobWithLogsView, e: ErrorLineView) -> GroupedJobInfoView {
    GroupedJobInfoView {
        job_id: j.job.id,
        platform: j.job.platform,
        job_type_name: j.job.job_type_name,
        subtest: e.subtest,
        message: e.message,
    }
}

/// The (test name, group entry) pairs one job's error lines contribute,
/// in order; error lines without a test name contribute nothing.
pub open spec fn pairs_of_errors(j: JobWithLogsView, errors: Seq<ErrorLineView>) -> Seq<
    (Seq<char>, GroupedJobInfoView),
>
    decreases errors.len(),
{
    if errors.len() == 0 {
        Seq::empty()
    } else {
        let init = pairs_of_errors(j, errors.drop_last());
        if errors.last().test is Some {
            init.push((errors.last().test.unwrap(), job_info_of(j, errors.last())))
        } else {
            init
        }
    }
}

/// Every (test name, group entry) pair of a job batch, in scan order.
pub open spec fn all_pairs(jobs: Seq<JobWithLogsView>) -> Seq<(Seq<char>, GroupedJobInfoView)>
    decreases jobs.len(),
{
    if jobs.len() == 0 {
        Seq::empty()
    } else {
        all_pairs(jobs.drop_last()) + pairs_of_errors(jobs.last(), jobs.last().errors)
    }
}

/// The group of one test: its entries in scan order and its platforms
/// deduplicated in first-occurrence order.
pub open spec fn group_for(
    pairs: Seq<(Seq<char>, GroupedJobInfoView)>,
    test: Seq<char>,
) -> GroupedTestFailureView {
    let infos = vals_for(pairs, test);
    GroupedTestFailureView {
        test_name: test,
        platforms: dedup_firsts(platforms_of(infos)),
        jobs: infos,
    }
}

/// The platform of each group entry, in order.
pub open spec fn platforms_of(infos: Seq<GroupedJobInfoView>) -> Seq<Seq<char>>
    decreases infos.len(),
{
    if infos.len() == 0 {
        Seq::empty()
    } else {
        platforms_of(infos.drop_last()).push(infos.last().platform)
    }
}

/// One group per test name, in first-occurrence order.
pub open spec fn groups_for_tests(
    pairs: Seq<(Seq<char>, GroupedJobInfoView)>,
    tests: Seq<Seq<char>>,
) -> Seq<GroupedTestFailureView>
    decreases tests.len(),
{
    if tests.len() == 0 {
        Seq::empty()
    } else {
        groups_for_tests(pairs, tests.drop_last()).push(group_for(pairs, tests.last()))
    }
}

/// The unsorted groups of a pair sequence.
pub open spec fn test_groups(pairs: Seq<(Seq<char>, GroupedJobInfoView)>) -> Seq<
    GroupedTestFailureView,
> {
    groups_for_tests(pairs, dedup_firsts(keys_of(pairs)))
}

/// Inserts a group behind every group with at least as many platforms,
/// so that equally wide groups keep their earlier order.
pub open spec fn insert_desc(g: GroupedTestFailureView, s: Seq<GroupedTestFailureView>) -> Seq<
    GroupedTestFailureView,
>
    decreases s.len(),
{
    if s.len() == 0 {
        seq![g]
    } else if s[0].platforms.len() >= g.platforms.len() {
        seq![s[0]] + insert_desc(g, s.drop_first())
    } else {
        seq![g] + s
    }
}

/// Stable insertion sort, descending by platform count.
pub open spec fn sort_desc(s: Seq<GroupedTestFailureView>) -> Seq<GroupedTestFailureView>
    decreases s.len(),
{
    if s.len() == 0 {
        Seq::empty()
    } else {
        insert_desc(s.last(), sort_desc(s.drop_last()))
    }
}

/// Inserting keeps the length and adds the group.
pub proof fn lemma_insert_desc_len(g: GroupedTestFailureView, s: Seq<GroupedTestFailureView>)
    ensures
        insert_desc(g, s).len() == s.len() + 1,
    decreases s.len(),
{
    if s.len() > 0 && s[0].platforms.len() >= g.platforms.len() {
        lemma_insert_desc_len(g, s.drop_first());
    }
}

/// Inserting at the first position whose group is strictly narrower is
/// exactly what `insert_desc` does.
pub proof fn lemma_insert_desc_at(
    g: GroupedTestFailureView,
    s: Seq<GroupedTestFailureView>,
    pos: int,
)
    requires
        0 <= pos <= s.len(),
        forall|x: int| 0 <= x < pos ==> (#[trigger] s[x]).platforms.len() >= g.platforms.len(),
        pos < s.len() ==> s[pos].platforms.len() < g.platforms.len(),
    ensures
        insert_desc(g, s) == s.take(pos) + seq![g] + s.skip(pos),
    decreases s.len(),
{
    if s.len() == 0 {
        assert(insert_desc(g, s) =~= s.take(0) + seq![g] + s.skip(0));
    } else if pos == 0 {
        assert(insert_desc(g, s) =~= s.take(0) + seq![g] + s.skip(0));
    } else {
        assert(s[0].platforms.len() >= g.platforms.len());
        assert forall|x: int| 0 <= x < pos - 1 implies (#[trigger] s.drop_first()[x]).platforms.len()
            >= g.platforms.len() by {
            assert(s.drop_first()[x] == s[x + 1]);
        }
        if pos - 1 < s.drop_first().len() {
            assert(s.drop_first()[pos - 1] == s[pos]);
        }
        lemma_insert_desc_at(g, s.drop_first(), pos - 1);
        assert(insert_desc(g, s) =~= s.take(pos) + seq![g] + s.skip(pos));
    }
}

/// After a descending insertion into a descending sequence, the whole
/// sequence is descending in platform count.
pub proof fn lemma_insert_desc_sorted(g: GroupedTestFailureView, s: Seq<GroupedTestFailureView>)
    requires
        forall|i: int, j: int|
            0 <= i <= j < s.len() ==> (#[trigger] s[i]).platforms.len() >= (
            #[trigger] s[j]).platforms.len(),
    ensures
        forall|i: int, j: int|
            0 <= i <= j < insert_desc(g, s).len() ==> (#[trigger] insert_desc(g, s)[i]).platforms.len()
                >= (#[trigger] insert_desc(g, s)[j]).platforms.len(),
    decreases s.len(),
{
    if s.len() == 0 {
    } else if s[0].platforms.len() >= g.platforms.len() {
        assert forall|i: int, j: int|
            0 <= i <= j < s.drop_first().len() implies (#[trigger] s.drop_first()[i]).platforms.len()
            >= (#[trigger] s.drop_first()[j]).platforms.len() by {
            assert(s.drop_first()[i] == s[i + 1]);
            assert(s.drop_first()[j] == s[j + 1]);
        }
        lemma_insert_desc_sorted(g, s.drop_first());
        let out = insert_desc(g, s);
        let sub = insert_desc(g, s.drop_first());
        lemma_insert_desc_len(g, s.drop_first());
        assert forall|i: int, j: int|
            0 <= i <= j < out.len() implies (#[trigger] out[i]).platforms.len() >= (
        #[trigger] out[j]).platforms.len() by {
            if i == 0 {
                if j > 0 {
                    assert(out[j] == sub[j - 1]);
                    lemma_insert_desc_elems(g, s.drop_first(), j - 1);
                }
            } else {
                assert(out[i] == sub[i - 1]);
                assert(out[j] == sub[j - 1]);
            }
        }
    } else {
        let out = insert_desc(g, s);
        assert forall|i: int, j: int|
            0 <= i <= j < out.len() implies (#[trigger] out[i]).platforms.len() >= (
        #[trigger] out[j]).platforms.len() by {
            if i == 0 {
                if j > 0 {
                    assert(out[j] == s[j - 1]);
                    assert(s[0].platforms.len() <= g.platforms.len());
                }
            } else {
                assert(out[i] == s[i - 1]);
                assert(out[j] == s[j - 1]);
            }
        }
    }
}

/// Every element of an insertion is the inserted group or an element of
/// the sequence; in particular each element's platform count is bounded
/// by the maximum of both.
proof fn lemma_insert_desc_elems(g: GroupedTestFailureView, s: Seq<GroupedTestFailureView>, k: int)
    requires
        0 <= k < insert_desc(g, s).len(),
    ensures
        insert_desc(g, s)[k] == g || s.contains(insert_desc(g, s)[k]),
    decreases s.len(),
{
    if s.len() == 0 {
    } else if s[0].platforms.len() >= g.platforms.len() {
        if k == 0 {
            assert(s[0] == insert_desc(g, s)[0]);
        } else {
            lemma_insert_desc_elems(g, s.drop_first(), k - 1);
            let x = insert_desc(g, s)[k];
            assert(x == insert_desc(g, s.drop_first())[k - 1]);
            if x != g {
                let w = choose|i: int| 0 <= i < s.drop_first().len() && s.drop_first()[i] == x;
                assert(s[w + 1] == x);
            }
        }
    } else {
        if k > 0 {
            assert(insert_desc(g, s)[k] == s[k - 1]);
        }
    }
}

/// The groups of a job batch: one group per test named by an error line,
/// ordered descending by the number of distinct platforms, ties keeping
/// their first-occurrence order.
pub open spec fn spec_grouped_failures(jobs: Seq<JobWithLogsView>) -> Seq<GroupedTestFailureView> {
    sort_desc(test_groups(all_pairs(jobs)))
}

/// A sorted grouping is descending in platform count.
pub proof fn lemma_sort_desc_sorted(s: Seq<GroupedTestFailureView>)
    ensures
        forall|i: int, j: int|
            0 <= i <= j < sort_desc(s).len() ==> (#[trigger] sort_desc(s)[i]).platforms.len() >= (
            #[trigger] sort_desc(s)[j]).platforms.len(),
    decreases s.len(),
{
    if s.len() > 0 {
        lemma_sort_desc_sorted(s.drop_last());
        lemma_insert_desc_sorted(s.last(), sort_desc(s.drop_last()));
    }
}

/// The groups surface cross-platform failures first: the result of
/// grouping is descending in the number of distinct platforms.
pub proof fn lemma_grouped_failures_sorted(jobs: Seq<JobWithLogsView>)
    ensures
        forall|i: int, j: int|
            0 <= i <= j < spec_grouped_failures(jobs).len() ==> (
            #[trigger] spec_grouped_failures(jobs)[i]).platforms.len() >= (
            #[trigger] spec_grouped_failures(jobs)[j]).platforms.len(),
{
    lemma_sort_desc_sorted(test_groups(all_pairs(jobs)));
}

/// Builds the (test name, group entry) pairs of a job batch in scan
/// order.
fn collect_pairs(jobs: &Vec<JobWithLogs>) -> (r: Vec<(String, GroupedJobInfo)>)
    ensures
        r.deep_view() == all_pairs(jobs.deep_view()),
{
    let mut pairs: Vec<(String, GroupedJobInfo)> = Vec::new();
    let mut i: usize = 0;
    proof {
        assert(pairs.deep_view() =~= all_pairs(jobs.deep_view().take(0)));
    }
    while i < jobs.len()
        invariant
            0 <= i <= jobs@.len(),
            jobs.deep_view().len() == jobs@.len(),
            pairs.deep_view() == all_pairs(jobs.deep_view().take(i as int)),
        decreases jobs@.len() - i,
    {
        let ghost jv = jobs.deep_view()[i as int];
        proof {
            assert(jv == jobs@[i as int].deep_view());
        }
        let job = &jobs[i];
        let mut k: usize = 0;
        proof {
            assert(pairs.deep_view() =~= all_pairs(jobs.deep_view().take(i as int))
                + pairs_of_errors(jv, jv.errors.take(0)));
        }
        while k < job.errors.len()
            invariant
                0 <= k <= job.errors@.len(),
                jv.errors.len() == job.errors@.len(),
                jv == job.deep_view(),
                pairs.deep_view() == all_pairs(jobs.deep_view().take(i as int)) + pairs_of_errors(
                    jv,
                    jv.errors.take(k as int),
                ),
            decreases job.errors@.len() - k,
        {
            let ghost prev = pairs.deep_view();
            proof {
                assert(jv.errors.take(k + 1).drop_last() =~= jv.errors.take(k as int));
                assert(jv.errors.take(k + 1).last() == jv.errors[k as int]);
                assert(jv.errors[k as int] == job.errors@[k as int].deep_view());
            }
            match &job.errors[k].test {
                Some(t) => {
                    let info = GroupedJobInfo {
                        job_id: job.job.id,
                        platform: job.job.platform.clone(),
                        job_type_name: job.job.job_type_name.clone(),
                        subtest: clone_opt_string(&job.errors[k].subtest),
                        message: clone_opt_string(&job.errors[k].message),
                    };
                    pairs.push((t.clone(), info));
                    proof {
                        assert(pairs.deep_view() =~= prev.push(
                            (jv.errors[k as int].test.unwrap(), job_info_of(jv, jv.errors[k as int])),
                        ));
                    }
                },
                None => {},
            }
            k += 1;
        }
        proof {
            assert(jv.errors.take(jv.errors.len() as int) =~= jv.errors);
            assert(jobs.deep_view().take(i + 1).drop_last() =~= jobs.deep_view().take(i as int));
            assert(jobs.deep_view().take(i + 1).last() == jv);
        }
        i += 1;
    }
    proof {
        assert(jobs.deep_view().take(jobs@.len() as int) =~= jobs.deep_view());
    }
    pairs
}

/// The distinct test names of a pair list, in first-occurrence order.
fn distinct_tests(pairs: &Vec<(String, GroupedJobInfo)>) -> (r: Vec<String>)
    ensures
        r.deep_view() == dedup_firsts(keys_of(pairs.deep_view())),
{
    let ghost pv = pairs.deep_view();
    let mut tests: Vec<String> = Vec::new();
    let mut i: usize = 0;
    proof {
        assert(keys_of(pv.take(0)) =~= Seq::<Seq<char>>::empty());
        assert(tests.deep_view() =~= dedup_firsts(keys_of(pv.take(0))));
    }
    while i < pairs.len()
        invariant
            0 <= i <= pairs@.len(),
            pv == pairs.deep_view(),
            pv.len() == pairs@.len(),
            tests.deep_view() == dedup_firsts(keys_of(pv.take(i as int))),
        decreases pairs@.len() - i,
    {
        let ghost prev = tests.deep_view();
        proof {
            assert(pv.take(i + 1).drop_last() =~= pv.take(i as int));
            assert(pv.take(i + 1).last() == pv[i as int]);
            assert(keys_of(pv.take(i + 1)).drop_last() =~= keys_of(pv.take(i as int)));
            assert(keys_of(pv.take(i + 1)).last() == pv[i as int].0);
            assert(pv[i as int] == pairs@[i as int].deep_view());
            assert(pv[i as int].0 == pairs@[i as int].0@);
        }
        if !vec_contains_string(&tests, pairs[i].0.as_str()) {
            tests.push(pairs[i].0.clone());
            proof {
                assert(tests.deep_view() =~= prev.push(pv[i as int].0));
            }
        }
        i += 1;
    }
    proof {
        assert(pv.take(pairs@.len() as int) =~= pv);
    }
    tests
}

/// The group entries of one test, in scan order.
fn infos_for_test(pairs: &Vec<(String, GroupedJobInfo)>, test: &str) -> (r: Vec<GroupedJobInfo>)
    ensures
        r.deep_view() == vals_for(pairs.deep_view(), test@),
{
    let ghost pv = pairs.deep_view();
    let mut out: Vec<GroupedJobInfo> = Vec::new();
    let mut i: usize = 0;
    proof {
        assert(out.deep_view() =~= vals_for(pv.take(0), test@));
    }
    while i < pairs.len()
        invariant
            0 <= i <= pairs@.len(),
            pv == pairs.deep_view(),
            pv.len() == pairs@.len(),
            out.deep_view() == vals_for(pv.take(i as int), test@),
        decreases pairs@.len() - i,
    {
        let ghost prev = out.deep_view();
        proof {
            assert(pv.take(i + 1).drop_last() =~= pv.take(i as int));
            assert(pv.take(i + 1).last() == pv[i as int]);
            assert(pv[i as int] == pairs@[i as int].deep_view());
        }
        if str_eq(pairs[i].0.as_str(), test) {
            let info = clone_info(&pairs[i].1);
            out.push(info);
            proof {
                assert(out.deep_view() =~= prev.push(pv[i as int].1));
            }
        }
        i += 1;
    }
    proof {
        assert(pv.take(pairs@.len() as int) =~= pv);
    }
    out
}

/// Clones one group entry, keeping its model unchanged.
fn clone_info(info: &GroupedJobInfo) -> (r: GroupedJobInfo)
    ensures
        r.deep_view() == info.deep_view(),
{
    let r = GroupedJobInfo {
        job_id: info.job_id,
        platform: info.platform.clone(),
        job_type_name: info.job_type_name.clone(),
        subtest: clone_opt_string(&info.subtest),
        message: clone_opt_string(&info.message),
    };
    proof {
        assert(r.deep_view() =~= info.deep_view());
    }
    r
}

/// The distinct platforms of a group's entries, in first-occurrence
/// order.
fn dedup_platforms(infos: &Vec<GroupedJobInfo>) -> (r: Vec<String>)
    ensures
        r.deep_view() == dedup_firsts(platforms_of(infos.deep_view())),
{
    let ghost iv = infos.deep_view();
    let mut plats: Vec<String> = Vec::new();
    let mut k: usize = 0;
    proof {
        assert(platforms_of(iv.take(0)) =~= Seq::<Seq<char>>::empty());
        assert(plats.deep_view() =~= dedup_firsts(platforms_of(iv.take(0))));
    }
    while k < infos.len()
        invariant
            0 <= k <= infos@.len(),
            iv == infos.deep_view(),
            iv.len() == infos@.len(),
            plats.deep_view() == dedup_firsts(platforms_of(iv.take(k as int))),
        decreases infos@.len() - k,
    {
        let ghost prev = plats.deep_view();
        proof {
            assert(iv.take(k + 1).drop_last() =~= iv.take(k as int));
            assert(iv.take(k + 1).last() == iv[k as int]);
            assert(platforms_of(iv.take(k + 1)).drop_last() =~= platforms_of(iv.take(k as int)));
            assert(platforms_of(iv.take(k + 1)).last() == iv[k as int].platform);
            assert(iv[k as int] == infos@[k as int].deep_view());
        }
        if !vec_contains_string(&plats, infos[k].platform.as_str()) {
            plats.push(infos[k].platform.clone());
            proof {
                assert(plats.deep_view() =~= prev.push(iv[k as int].platform));
            }
        }
        k += 1;
    }
    proof {
        assert(iv.take(infos@.len() as int) =~= iv);
    }
    plats
}

/// Inserts a group behind every at-least-as-wide group of a descending
/// list, as `insert_desc` describes.
fn insert_group(g: GroupedTestFailure, sorted: &mut Vec<GroupedTestFailure>)
    ensures
        final(sorted).deep_view() == insert_desc(g@, old(sorted).deep_view()),
{
    let ghost sv = old(sorted).deep_view();
    let ghost gv = g@;
    let mut pos: usize = 0;
    while pos < sorted.len() && sorted[pos].platforms.len() >= g.platforms.len()
        invariant
            *sorted == *old(sorted),
            sv == old(sorted).deep_view(),
            gv == g@,
            0 <= pos <= sorted@.len(),
            sv.len() == sorted@.len(),
            forall|x: int| 0 <= x < pos ==> (#[trigger] sv[x]).platforms.len() >= gv.platforms.len(),
        decreases sorted@.len() - pos,
    {
        proof {
            assert(sv[pos as int] == old(sorted)@[pos as int].deep_view());
        }
        pos += 1;
    }
    proof {
        if (pos as int) < sv.len() {
            assert(sv[pos as int] == old(sorted)@[pos as int].deep_view());
        }
        lemma_insert_desc_at(gv, sv, pos as int);
    }
    sorted.insert(pos, g);
    proof {
        assert(sorted.deep_view() =~= sv.take(pos as int) + seq![gv] + sv.skip(pos as int));
    }
}

/// Groups every error line that names a test by test name: one group per
/// test, its entries in scan order, its platforms deduplicated, the
/// groups ordered descending by platform count with ties keeping their
/// first-occurrence order.
pub fn group_failures_by_test(jobs: &Vec<JobWithLogs>) -> (r: Vec<GroupedTestFailure>)
    ensures
        r.deep_view() == spec_grouped_failures(jobs.deep_view()),
{
    let pairs = collect_pairs(jobs);
    let ghost pv = pairs.deep_view();
    let tests = distinct_tests(&pairs);
    let ghost tv = tests.deep_view();
    let mut groups: Vec<GroupedTestFailure> = Vec::new();
    let mut gi: usize = 0;
    proof {
        assert(groups.deep_view() =~= groups_for_tests(pv, tv.take(0)));
    }
    while gi < tests.len()
        invariant
            0 <= gi <= tests@.len(),
            pv == pairs.deep_view(),
            tv == tests.deep_view(),
            tv.len() == tests@.len(),
            groups.deep_view() == groups_for_tests(pv, tv.take(gi as int)),
        decreases tests@.len() - gi,
    {
        let ghost prev = groups.deep_view();
        let infos = infos_for_test(&pairs, tests[gi].as_str());
        let plats = dedup_platforms(&infos);
        let group = GroupedTestFailure {
            test_name: tests[gi].clone(),
            platforms: plats,
            jobs: infos,
        };
        proof {
            assert(tv[gi as int] == tests@[gi as int]@);
            assert(group.deep_view() =~= group_for(pv, tv[gi as int]));
        }
        groups.push(group);
        proof {
            assert(tv.take(gi + 1).drop_last() =~= tv.take(gi as int));
            assert(tv.take(gi + 1).last() == tv[gi as int]);
            assert(groups.deep_view() =~= prev.push(group_for(pv, tv[gi as int])));
        }
        gi += 1;
    }
    proof {
        assert(tv.take(tests@.len() as int) =~= tv);
    }
    let mut sorted: Vec<GroupedTestFailure> = Vec::new();
    let mut si: usize = 0;
    let ghost gv = groups.deep_view();
    proof {
        assert(sorted.deep_view() =~= sort_desc(gv.take(0)));
    }
    while si < groups.len()
        invariant
            0 <= si <= groups@.len(),
            gv == groups.deep_view(),
            gv.len() == groups@.len(),
            sorted.deep_view() == sort_desc(gv.take(si as int)),
        decreases groups@.len() - si,
    {
        let g = clone_group(&groups[si]);
        proof {
            assert(g@ == gv[si as int]);
            assert(gv.take(si + 1).drop_last() =~= gv.take(si as int));
            assert(gv.take(si + 1).last() == gv[si as int]);
        }
        insert_group(g, &mut sorted);
        si += 1;
    }
    proof {
        assert(gv.take(groups@.len() as int) =~= gv);
    }
    sorted
}

/// Clones one group, keeping its model unchanged.
fn clone_group(g: &GroupedTestFailure) -> (r: GroupedTestFailure)
    ensures
        r@ == g@,
{
    let mut platforms: Vec<String> = Vec::new();
    let mut i: usize = 0;
    while i < g.platforms.len()
        invariant
            0 <= i <= g.platforms@.len(),
            platforms.deep_view() == g.platforms.deep_view().take(i as int),
        decreases g.platforms@.len() - i,
    {
        let ghost prev = platforms.deep_view();
        platforms.push(g.platforms[i].clone());
        proof {
            assert(platforms.deep_view() =~= prev.push(g.platforms.deep_view()[i as int]));
            assert(g.platforms.deep_view().take(i + 1) =~= prev.push(
                g.platforms.deep_view()[i as int],
            ));
        }
        i += 1;
    }
    let mut jobs: Vec<GroupedJobInfo> = Vec::new();
    let mut k: usize = 0;
    while k < g.jobs.len()
        invariant
            0 <= k <= g.jobs@.len(),
            jobs.deep_view() == g.jobs.deep_view().take(k as int),
        decreases g.jobs@.len() - k,
    {
        let ghost prev = jobs.deep_view();
        let info = clone_info(&g.jobs[k]);
        jobs.push(info);
        proof {
            assert(jobs.deep_view() =~= prev.push(g.jobs.deep_view()[k as int]));
            assert(g.jobs.deep_view().take(k + 1) =~= prev.push(g.jobs.deep_view()[k as int]));
        }
        k += 1;
    }
    let r = GroupedTestFailure { test_name: g.test_name.clone(), platforms, jobs };
    proof {
        assert(g.platforms.deep_view().take(g.platforms@.len() as int) =~= g.platforms.deep_view());
        assert(g.jobs.deep_view().take(g.jobs@.len() as int) =~= g.jobs.deep_view());
        assert(r@ =~= g@);
    }
    r
}

/// Platforms are deduplicated: each group lists every platform its test
/// failed on exactly once.
pub proof fn lemma_group_platforms_distinct(
    pairs: Seq<(Seq<char>, GroupedJobInfoView)>,
    test: Seq<char>,
)
    ensures
        forall|i: int, j: int|
            0 <= i < j < group_for(pairs, test).platforms.len() ==> group_for(
                pairs,
                test,
            ).platforms[i] != group_for(pairs, test).platforms[j],
{
    crate::seqs::lemma_dedup_firsts_unique(platforms_of(vals_for(pairs, test)));
}

/// Inserting adds exactly the inserted group to the collection.
proof fn lemma_insert_desc_multiset(g: GroupedTestFailureView, s: Seq<GroupedTestFailureView>)
    ensures
        insert_desc(g, s).to_multiset() == s.to_multiset().insert(g),
    decreases s.len(),
{
    broadcast use vstd::seq_lib::group_to_multiset_ensures;

    if s.len() == 0 {
        assert(seq![g] =~= Seq::<GroupedTestFailureView>::empty().push(g));
        assert(insert_desc(g, s).to_multiset() =~= s.to_multiset().insert(g));
    } else if s[0].platforms.len() >= g.platforms.len() {
        lemma_insert_desc_multiset(g, s.drop_first());
        let sub = insert_desc(g, s.drop_first());
        vstd::seq_lib::lemma_multiset_commutative(seq![s[0]], sub);
        assert(seq![s[0]] + sub =~= insert_desc(g, s));
        vstd::seq_lib::lemma_multiset_commutative(seq![s[0]], s.drop_first());
        assert(seq![s[0]] + s.drop_first() =~= s);
        assert(insert_desc(g, s).to_multiset() =~= s.to_multiset().insert(g));
    } else {
        vstd::seq_lib::lemma_multiset_commutative(seq![g], s);
        assert(seq![g] =~= Seq::<GroupedTestFailureView>::empty().push(g));
        assert(insert_desc(g, s).to_multiset() =~= s.to_multiset().insert(g));
    }
}

/// Sorting reorders the groups and neither adds, drops, nor changes any:
/// the sorted sequence is a permutation of the unsorted one.
pub proof fn lemma_sort_desc_permutes(s: Seq<GroupedTestFailureView>)
    ensures
        sort_desc(s).to_multiset() == s.to_multiset(),
    decreases s.len(),
{
    broadcast use vstd::seq_lib::group_to_multiset_ensures;

    if s.len() > 0 {
        lemma_sort_desc_permutes(s.drop_last());
        lemma_insert_desc_multiset(s.last(), sort_desc(s.drop_last()));
        assert(s =~= s.drop_last().push(s.last()));
        assert(sort_desc(s).to_multiset() =~= s.to_multiset());
    }
}

} // verus!
