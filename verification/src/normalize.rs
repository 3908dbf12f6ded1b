//! Job-table normalization: the upstream job list is a table of
//! positional rows whose column meanings come from a name list, with no
//! stable column order. Fields are resolved by name; a row missing a
//! required field, or carrying it with the wrong primitive type, is
//! skipped rather than failing the batch.

use vstd::prelude::*;

use crate::models::{Job, JobView, JobsResponse, RawValue, RawValueView};
use crate::text::str_eq;

verus! {

/// The index of the first name equal to `name`, if any.
pub open spec fn index_of_name(names: Seq<Seq<char>>, name: Seq<char>) -> Option<int>
    decreases names.len(),
{
    if names.len() == 0 {
        None
    } else if names[0] == name {
        Some(0)
    } else {
        match index_of_name(names.drop_first(), name) {
            Some(i) => Some(i + 1),
            None => None,
        }
    }
}

/// `index_of_name` finds the least index holding `name`, or nothing when
/// no index holds it.
pub proof fn lemma_index_of_name(names: Seq<Seq<char>>, name: Seq<char>)
    ensures
        match index_of_name(names, name) {
            Some(i) => 0 <= i < names.len() && names[i] == name && forall|j: int|
                0 <= j < i ==> names[j] != name,
            None => forall|j: int| 0 <= j < names.len() ==> names[j] != name,
        },
    decreases names.len(),
{
    if names.len() == 0 {
    } else if names[0] == name {
    } else {
        let tail = names.drop_first();
        lemma_index_of_name(tail, name);
        match index_of_name(names, name) {
            Some(i) => {
                assert(names[i] == tail[i - 1]);
                assert forall|j: int| 0 <= j < i implies names[j] != name by {
                    if j > 0 {
                        assert(names[j] == tail[j - 1]);
                    }
                }
            },
            None => {
                assert forall|j: int| 0 <= j < names.len() implies names[j] != name by {
                    if j > 0 {
                        assert(names[j] == tail[j - 1]);
                    }
                }
            },
        }
    }
}

/// A least index holding `name` is what `index_of_name` returns.
pub proof fn lemma_index_of_name_unique(names: Seq<Seq<char>>, name: Seq<char>, k: int)
    requires
        0 <= k < names.len(),
        names[k] == name,
        forall|j: int| 0 <= j < k ==> names[j] != name,
    ensures
        index_of_name(names, name) == Some(k),
{
    lemma_index_of_name(names, name);
    match index_of_name(names, name) {
        Some(i) => {
            if i < k {
                assert(names[i] != name);
            } else if k < i {
                assert(names[k] != name);
            }
        },
        None => {
            assert(names[k] != name);
        },
    }
}

/// The raw value a row holds for a named column, if the name list knows
/// the column and the row is long enough.
pub open spec fn lookup_field(
    names: Seq<Seq<char>>,
    row: Seq<RawValueView>,
    name: Seq<char>,
) -> Option<RawValueView> {
    match index_of_name(names, name) {
        None => None,
        Some(i) => if 0 <= i < row.len() {
            Some(row[i])
        } else {
            None
        },
    }
}

/// A named column read as an unsigned integer.
pub open spec fn field_u64(
    names: Seq<Seq<char>>,
    row: Seq<RawValueView>,
    name: Seq<char>,
) -> Option<u64> {
    match lookup_field(names, row, name) {
        Some(RawValueView::UInt(u)) => Some(u),
        _ => None,
    }
}

/// A named column read as text.
pub open spec fn field_text(
    names: Seq<Seq<char>>,
    row: Seq<RawValueView>,
    name: Seq<char>,
) -> Option<Seq<char>> {
    match lookup_field(names, row, name) {
        Some(RawValueView::Text(s)) => Some(s),
        _ => None,
    }
}

/// The job a row normalizes to: all six required fields must be present
/// with the right type, the optional fields are read permissively, and
/// a missing platform option reads as the empty string.
pub open spec fn spec_row_job(names: Seq<Seq<char>>, row: Seq<RawValueView>) -> Option<JobView> {
    match (
        field_u64(names, row, "id"@),
        field_text(names, row, "job_type_name"@),
        field_text(names, row, "job_type_symbol"@),
        field_text(names, row, "platform"@),
        field_text(names, row, "result"@),
        field_text(names, row, "state"@),
    ) {
        (Some(id), Some(jtn), Some(jts), Some(platform), Some(result), Some(state)) => Some(
            JobView {
                id: id,
                job_type_name: jtn,
                job_type_symbol: jts,
                platform: platform,
                platform_option: match field_text(names, row, "platform_option"@) {
                    Some(o) => o,
                    None => Seq::empty(),
                },
                result: result,
                state: state,
                failure_classification_id: field_u64(names, row, "failure_classification_id"@),
                duration: field_u64(names, row, "duration"@),
            },
        ),
        _ => None,
    }
}

/// The jobs of a table: each well-formed row's job, in row order.
pub open spec fn spec_normalize(names: Seq<Seq<char>>, rows: Seq<Seq<RawValueView>>) -> Seq<
    JobView,
>
    decreases rows.len(),
{
    if rows.len() == 0 {
        Seq::empty()
    } else {
        spec_normalize(names, rows.drop_last()) + match spec_row_job(names, rows.last()) {
            Some(j) => seq![j],
            None => Seq::empty(),
        }
    }
}

/// How many rows of a table are well formed.
pub open spec fn well_formed_row_count(names: Seq<Seq<char>>, rows: Seq<Seq<RawValueView>>) -> int
    decreases rows.len(),
{
    if rows.len() == 0 {
        0
    } else {
        well_formed_row_count(names, rows.drop_last()) + if spec_row_job(names, rows.last())
            is Some {
            1int
        } else {
            0int
        }
    }
}

/// Normalization yields exactly one job per well-formed row: the output
/// count equals the count of rows with all six required fields present
/// and correctly typed.
pub proof fn lemma_normalize_count(names: Seq<Seq<char>>, rows: Seq<Seq<RawValueView>>)
    ensures
        spec_normalize(names, rows).len() == well_formed_row_count(names, rows),
    decreases rows.len(),
{
    if rows.len() > 0 {
        lemma_normalize_count(names, rows.drop_last());
    }
}

/// The index of the first name equal to `name`, if any.
fn find_name_index(names: &Vec<String>, name: &str) -> (r: Option<usize>)
    ensures
        match r {
            Some(i) => index_of_name(names.deep_view(), name@) == Some(i as int),
            None => index_of_name(names.deep_view(), name@) is None,
        },
{
    let ghost nv = names.deep_view();
    let mut k: usize = 0;
    while k < names.len()
        invariant
            0 <= k <= names@.len(),
            nv == names.deep_view(),
            nv.len() == names@.len(),
            forall|j: int| 0 <= j < k ==> nv[j] != name@,
        decreases names@.len() - k,
    {
        proof {
            assert(nv[k as int] == names@[k as int]@);
        }
        if str_eq(names[k].as_str(), name) {
            proof {
                lemma_index_of_name_unique(nv, name@, k as int);
            }
            return Some(k);
        }
        k += 1;
    }
    proof {
        lemma_index_of_name(nv, name@);
        if index_of_name(nv, name@) is Some {
            let i = index_of_name(nv, name@).unwrap();
            assert(nv[i] != name@);
        }
    }
    None
}

/// Reads a named column of a row as an unsigned integer.
fn get_field_u64(names: &Vec<String>, row: &Vec<RawValue>, name: &str) -> (r: Option<u64>)
    ensures
        r == field_u64(names.deep_view(), row.deep_view(), name@),
{
    match find_name_index(names, name) {
        None => None,
        Some(i) => {
            if i < row.len() {
                proof {
                    assert(row.deep_view()[i as int] == row@[i as int].deep_view());
                }
                match &row[i] {
                    RawValue::UInt(u) => Some(*u),
                    _ => None,
                }
            } else {
                None
            }
        },
    }
}

/// Reads a named column of a row as text.
fn get_field_text(names: &Vec<String>, row: &Vec<RawValue>, name: &str) -> (r: Option<String>)
    ensures
        r.deep_view() == field_text(names.deep_view(), row.deep_view(), name@),
{
    match find_name_index(names, name) {
        None => None,
        Some(i) => {
            if i < row.len() {
                proof {
                    assert(row.deep_view()[i as int] == row@[i as int].deep_view());
                }
                match &row[i] {
                    RawValue::Text(s) => Some(s.clone()),
                    _ => None,
                }
            } else {
                None
            }
        },
    }
}

/// Normalizes a raw job table: resolves every field by name, skips any
/// row missing a required field or holding it with the wrong type, and
/// reads the optional fields permissively.
pub fn normalize_jobs(resp: &JobsResponse) -> (r: Vec<Job>)
    ensures
        r.deep_view() == spec_normalize(
            resp.job_property_names.deep_view(),
            resp.results.deep_view(),
        ),
{
    let names = &resp.job_property_names;
    let ghost nv = names.deep_view();
    let ghost rows = resp.results.deep_view();
    let mut jobs: Vec<Job> = Vec::new();
    let mut i: usize = 0;
    proof {
        assert(jobs.deep_view() =~= spec_normalize(nv, rows.take(0)));
    }
    while i < resp.results.len()
        invariant
            0 <= i <= resp.results@.len(),
            nv == resp.job_property_names.deep_view(),
            nv == names.deep_view(),
            rows == resp.results.deep_view(),
            rows.len() == resp.results@.len(),
            jobs.deep_view() == spec_normalize(nv, rows.take(i as int)),
        decreases resp.results@.len() - i,
    {
        let ghost prev = jobs.deep_view();
        let row = &resp.results[i];
        proof {
            assert(rows.take(i + 1).drop_last() =~= rows.take(i as int));
            assert(rows.take(i + 1).last() == rows[i as int]);
            assert(rows[i as int] == resp.results@[i as int].deep_view());
            assert(row.deep_view() == rows[i as int]);
        }
        let id = get_field_u64(names, row, "id");
        let job_type_name = get_field_text(names, row, "job_type_name");
        let job_type_symbol = get_field_text(names, row, "job_type_symbol");
        let platform = get_field_text(names, row, "platform");
        let result = get_field_text(names, row, "result");
        let state = get_field_text(names, row, "state");
        match (id, job_type_name, job_type_symbol, platform, result, state) {
            (Some(idv), Some(jtn), Some(jts), Some(platformv), Some(resultv), Some(statev)) => {
                let platform_option = match get_field_text(names, row, "platform_option") {
                    Some(o) => o,
                    None => String::new(),
                };
                let duration = get_field_u64(names, row, "duration");
                let failure_classification_id = get_field_u64(
                    names,
                    row,
                    "failure_classification_id",
                );
                let job = Job {
                    id: idv,
                    job_type_name: jtn,
                    job_type_symbol: jts,
                    platform: platformv,
                    platform_option,
                    result: resultv,
                    state: statev,
                    failure_classification_id,
                    duration,
                };
                proof {
                    assert(field_u64(nv, rows[i as int], "id"@) == Some(idv));
                    assert(field_text(nv, rows[i as int], "job_type_name"@) == Some(jtn@));
                    assert(field_text(nv, rows[i as int], "job_type_symbol"@) == Some(jts@));
                    assert(field_text(nv, rows[i as int], "platform"@) == Some(platformv@));
                    assert(field_text(nv, rows[i as int], "result"@) == Some(resultv@));
                    assert(field_text(nv, rows[i as int], "state"@) == Some(statev@));
                    assert(spec_row_job(nv, rows[i as int]) is Some);
                    assert(job@ =~= spec_row_job(nv, rows[i as int]).unwrap());
                }
                jobs.push(job);
                proof {
                    assert(jobs.deep_view() =~= prev.push(
                        spec_row_job(nv, rows[i as int]).unwrap(),
                    ));
                    assert(jobs.deep_view() =~= spec_normalize(nv, rows.take(i + 1)));
                }
            },
            _ => {
                proof {
                    assert(spec_row_job(nv, rows[i as int]) is None);
                    assert(prev + Seq::<JobView>::empty() =~= prev);
                    assert(jobs.deep_view() =~= spec_normalize(nv, rows.take(i + 1)));
                }
            },
        }
        i += 1;
    }
    proof {
        assert(rows.take(resp.results@.len() as int) =~= rows);
    }
    jobs
}

/// Normalization resolves fields by name, not position: permuting the
/// columns of a row, with the name list permuted identically, normalizes
/// to the same job, provided the column names are distinct. `p` carries
/// the permutation: position `k` of the permuted table holds what stood
/// at position `p[k]`.
pub proof fn lemma_row_job_permutation(
    names1: Seq<Seq<char>>,
    row1: Seq<RawValueView>,
    names2: Seq<Seq<char>>,
    row2: Seq<RawValueView>,
    p: Seq<int>,
    q: Seq<int>,
)
    requires
        names1.len() == row1.len(),
        names2.len() == names1.len(),
        row2.len() == row1.len(),
        p.len() == names1.len(),
        q.len() == names1.len(),
        forall|k: int| 0 <= k < p.len() ==> 0 <= #[trigger] p[k] < p.len(),
        forall|i: int| 0 <= i < q.len() ==> 0 <= #[trigger] q[i] < q.len(),
        forall|i: int| 0 <= i < q.len() ==> p[#[trigger] q[i]] == i,
        forall|k: int| 0 <= k < p.len() ==> names2[k] == names1[#[trigger] p[k]],
        forall|k: int| 0 <= k < p.len() ==> row2[k] == row1[#[trigger] p[k]],
        forall|i: int, j: int| 0 <= i < j < names1.len() ==> names1[i] != names1[j],
    ensures
        spec_row_job(names2, row2) == spec_row_job(names1, row1),
{
    assert forall|name: Seq<char>|
        #[trigger] lookup_field(names2, row2, name) == lookup_field(names1, row1, name) by {
        lemma_lookup_permutation(names1, row1, names2, row2, p, q, name);
    }
    assert(field_u64(names2, row2, "id"@) == field_u64(names1, row1, "id"@));
    assert(field_text(names2, row2, "job_type_name"@) == field_text(
        names1,
        row1,
        "job_type_name"@,
    ));
    assert(field_text(names2, row2, "job_type_symbol"@) == field_text(
        names1,
        row1,
        "job_type_symbol"@,
    ));
    assert(field_text(names2, row2, "platform"@) == field_text(names1, row1, "platform"@));
    assert(field_text(names2, row2, "result"@) == field_text(names1, row1, "result"@));
    assert(field_text(names2, row2, "state"@) == field_text(names1, row1, "state"@));
    assert(field_text(names2, row2, "platform_option"@) == field_text(
        names1,
        row1,
        "platform_option"@,
    ));
    assert(field_u64(names2, row2, "duration"@) == field_u64(names1, row1, "duration"@));
    assert(field_u64(names2, row2, "failure_classification_id"@) == field_u64(
        names1,
        row1,
        "failure_classification_id"@,
    ));
}

/// Name-based lookup is invariant under a simultaneous permutation of
/// the name list and the row, when names are distinct.
proof fn lemma_lookup_permutation(
    names1: Seq<Seq<char>>,
    row1: Seq<RawValueView>,
    names2: Seq<Seq<char>>,
    row2: Seq<RawValueView>,
    p: Seq<int>,
    q: Seq<int>,
    name: Seq<char>,
)
    requires
        names1.len() == row1.len(),
        names2.len() == names1.len(),
        row2.len() == row1.len(),
        p.len() == names1.len(),
        q.len() == names1.len(),
        forall|k: int| 0 <= k < p.len() ==> 0 <= #[trigger] p[k] < p.len(),
        forall|i: int| 0 <= i < q.len() ==> 0 <= #[trigger] q[i] < q.len(),
        forall|i: int| 0 <= i < q.len() ==> p[#[trigger] q[i]] == i,
        forall|k: int| 0 <= k < p.len() ==> names2[k] == names1[#[trigger] p[k]],
        forall|k: int| 0 <= k < p.len() ==> row2[k] == row1[#[trigger] p[k]],
        forall|i: int, j: int| 0 <= i < j < names1.len() ==> names1[i] != names1[j],
    ensures
        lookup_field(names2, row2, name) == lookup_field(names1, row1, name),
{
    lemma_index_of_name(names1, name);
    lemma_index_of_name(names2, name);
    match index_of_name(names2, name) {
        Some(k) => {
            assert(names1[p[k]] == name);
            match index_of_name(names1, name) {
                Some(i) => {
                    assert(names1[i] == name);
                    assert(i == p[k]) by {
                        if i < p[k] {
                            assert(names1[i] != names1[p[k]]);
                        } else if p[k] < i {
                            assert(names1[p[k]] != names1[i]);
                        }
                    }
                    assert(row2[k] == row1[i]);
                },
                None => {
                    assert(names1[p[k]] != name);
                },
            }
        },
        None => {
            match index_of_name(names1, name) {
                Some(i) => {
                    let k = q[i];
                    assert(p[k] == i);
                    assert(names2[k] == names1[i]);
                    assert(names2[k] != name);
                },
                None => {},
            }
        },
    }
}

} // verus!
