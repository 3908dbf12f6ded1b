//! Error-stream parsing and the redirect-or-payload decision for the
//! performance endpoint. The JSON decoding of one line is an outside
//! call whose result is named; everything that reads the decoded fields
//! is verified.

use vstd::prelude::*;

use crate::models::{ErrorLine, ErrorLineView, LogReference, LogReferenceView};
use crate::seqs::lemma_filter_take_step;
use crate::text::{clone_opt_string, contains_substr, spec_contains, spec_lines, split_lines, str_eq};

verus! {

/// One top-level field value of a decoded JSON object: the scalar kinds
/// the pipeline reads, with everything else folded into `Other`.
#[derive(Debug, PartialEq, Eq)]
pub enum JsonScalar {
    Str(String),
    UInt(u64),
    Null,
    Other,
}

/// Mathematical model of a `JsonScalar`.
#[verifier::ext_equal]
pub enum JsonScalarView {
    Str(Seq<char>),
    UInt(u64),
    Null,
    Other,
}

impl View for JsonScalar {
    type V = JsonScalarView;

    open spec fn view(&self) -> JsonScalarView {
        match self {
            JsonScalar::Str(s) => JsonScalarView::Str(s@),
            JsonScalar::UInt(u) => JsonScalarView::UInt(*u),
            JsonScalar::Null => JsonScalarView::Null,
            JsonScalar::Other => JsonScalarView::Other,
        }
    }
}

impl DeepView for JsonScalar {
    type V = JsonScalarView;

    open spec fn deep_view(&self) -> JsonScalarView {
        self.view()
    }
}

impl Clone for JsonScalar {
    /// Cloning keeps the model unchanged.
    fn clone(&self) -> (res: JsonScalar)
        ensures
            res@ == self@,
    {
        match self {
            JsonScalar::Str(s) => JsonScalar::Str(s.clone()),
            JsonScalar::UInt(u) => JsonScalar::UInt(*u),
            JsonScalar::Null => JsonScalar::Null,
            JsonScalar::Other => JsonScalar::Other,
        }
    }
}

/// The top-level fields of `s` decoded as a JSON object, in the decoder's
/// key order, with each value reduced to a scalar kind; nothing when `s`
/// is not valid JSON or not an object. Decoding is deterministic in the
/// text.
pub uninterp spec fn json_fields_of(s: Seq<char>) -> Option<Seq<(Seq<char>, JsonScalarView)>>;

/// Relies on `serde_json::from_str::<Value>` and `Number::as_u64`: both
/// are deterministic functions of the text; the fields come back in the
/// decoder's key order, strings and unsigned integers kept, `null` kept
/// apart, and every other value folded into `Other`.
#[verifier::external_body]
fn decode_json_object(line: &str) -> (r: Option<Vec<(String, JsonScalar)>>)
    ensures
        r is Some <==> json_fields_of(line@) is Some,
        r is Some ==> r.unwrap().deep_view() == json_fields_of(line@).unwrap(),
{
    let v: serde_json::Value = serde_json::from_str(line).ok()?;
    let obj = match v {
        serde_json::Value::Object(m) => m,
        _ => return None,
    };
    Some(obj.into_iter().map(|(k, val)| (k, match val {
        serde_json::Value::String(s) => JsonScalar::Str(s),
        serde_json::Value::Number(n) => n.as_u64().map_or(JsonScalar::Other, JsonScalar::UInt),
        serde_json::Value::Null => JsonScalar::Null,
        _ => JsonScalar::Other,
    })).collect())
}

/// The value of the first field named `key`.
pub open spec fn field_scalar(
    fields: Seq<(Seq<char>, JsonScalarView)>,
    key: Seq<char>,
) -> Option<JsonScalarView>
    decreases fields.len(),
{
    if fields.len() == 0 {
        None
    } else if fields[0].0 == key {
        Some(fields[0].1)
    } else {
        field_scalar(fields.drop_first(), key)
    }
}

/// An optional text field: absent or `null` reads as nothing, text reads
/// as itself, and any other kind makes the record ill-shaped.
pub open spec fn opt_text_field(
    fields: Seq<(Seq<char>, JsonScalarView)>,
    key: Seq<char>,
) -> Option<Option<Seq<char>>> {
    match field_scalar(fields, key) {
        None => Some(None),
        Some(JsonScalarView::Null) => Some(None),
        Some(JsonScalarView::Str(s)) => Some(Some(s)),
        Some(_) => None,
    }
}

/// The error record a decoded object carries: `action` must be text and
/// `line` an unsigned integer; the five optional fields must each be
/// text, `null`, or absent.
pub open spec fn spec_error_line_of_fields(fields: Seq<(Seq<char>, JsonScalarView)>) -> Option<
    ErrorLineView,
> {
    match (
        field_scalar(fields, "action"@),
        field_scalar(fields, "line"@),
        opt_text_field(fields, "test"@),
        opt_text_field(fields, "subtest"@),
        opt_text_field(fields, "status"@),
        opt_text_field(fields, "message"@),
        opt_text_field(fields, "stack"@),
    ) {
        (
            Some(JsonScalarView::Str(action)),
            Some(JsonScalarView::UInt(line)),
            Some(test),
            Some(subtest),
            Some(status),
            Some(message),
            Some(stack),
        ) => Some(
            ErrorLineView { action, line, test, subtest, status, message, stack },
        ),
        _ => None,
    }
}

/// The value of the first field named `key`, cloned.
fn find_scalar(fields: &Vec<(String, JsonScalar)>, key: &str) -> (r: Option<JsonScalar>)
    ensures
        r.deep_view() == field_scalar(fields.deep_view(), key@),
{
    let ghost fv = fields.deep_view();
    let mut i: usize = 0;
    proof {
        assert(fv.skip(0) =~= fv);
    }
    while i < fields.len()
        invariant
            0 <= i <= fields@.len(),
            fv == fields.deep_view(),
            fv.len() == fields@.len(),
            field_scalar(fv, key@) == field_scalar(fv.skip(i as int), key@),
        decreases fields@.len() - i,
    {
        proof {
            assert(fv.skip(i as int)[0] == fv[i as int]);
            assert(fv[i as int] == fields@[i as int].deep_view());
        }
        if str_eq(fields[i].0.as_str(), key) {
            proof {
                assert(field_scalar(fv.skip(i as int), key@) == Some(fv[i as int].1));
            }
            return Some(fields[i].1.clone());
        }
        proof {
            assert(fv.skip(i as int).drop_first() =~= fv.skip(i + 1));
        }
        i += 1;
    }
    proof {
        assert(fv.skip(fields@.len() as int) =~= Seq::<(Seq<char>, JsonScalarView)>::empty());
    }
    None
}

/// An optional text field, as `opt_text_field` describes; the outer
/// `None` marks an ill-shaped record.
fn get_opt_text(fields: &Vec<(String, JsonScalar)>, key: &str) -> (r: Option<Option<String>>)
    ensures
        match r {
            Some(o) => opt_text_field(fields.deep_view(), key@) == Some(o.deep_view()),
            None => opt_text_field(fields.deep_view(), key@) is None,
        },
{
    match find_scalar(fields, key) {
        None => Some(None),
        Some(JsonScalar::Null) => Some(None),
        Some(JsonScalar::Str(s)) => Some(Some(s)),
        Some(_) => None,
    }
}

/// The error record of one decoded object, as
/// `spec_error_line_of_fields` describes.
pub fn error_line_from_fields(fields: &Vec<(String, JsonScalar)>) -> (r: Option<ErrorLine>)
    ensures
        r.deep_view() == spec_error_line_of_fields(fields.deep_view()),
{
    let action = match find_scalar(fields, "action") {
        Some(JsonScalar::Str(s)) => s,
        _ => {
            return None;
        },
    };
    let line = match find_scalar(fields, "line") {
        Some(JsonScalar::UInt(u)) => u,
        _ => {
            return None;
        },
    };
    let test = match get_opt_text(fields, "test") {
        Some(o) => o,
        None => {
            return None;
        },
    };
    let subtest = match get_opt_text(fields, "subtest") {
        Some(o) => o,
        None => {
            return None;
        },
    };
    let status = match get_opt_text(fields, "status") {
        Some(o) => o,
        None => {
            return None;
        },
    };
    let message = match get_opt_text(fields, "message") {
        Some(o) => o,
        None => {
            return None;
        },
    };
    let stack = match get_opt_text(fields, "stack") {
        Some(o) => o,
        None => {
            return None;
        },
    };
    let e = ErrorLine { action, line, test, subtest, status, message, stack };
    proof {
        assert(e@ =~= spec_error_line_of_fields(fields.deep_view()).unwrap());
    }
    Some(e)
}

/// Whether a parsed error record is retained: only completed test
/// results that failed.
pub open spec fn spec_retained(e: ErrorLineView) -> bool {
    e.action == "test_result"@ && e.status == Some("FAIL"@)
}

/// The retained error record of one line of an error-summary stream,
/// if the line decodes to a well-shaped record that is retained.
pub open spec fn spec_line_error(line: Seq<char>) -> Option<ErrorLineView> {
    match json_fields_of(line) {
        None => None,
        Some(fields) => match spec_error_line_of_fields(fields) {
            None => None,
            Some(e) => if spec_retained(e) {
                Some(e)
            } else {
                None
            },
        },
    }
}

/// The retained error records of a line sequence, in order.
pub open spec fn spec_error_summary(lines: Seq<Seq<char>>) -> Seq<ErrorLineView>
    decreases lines.len(),
{
    if lines.len() == 0 {
        Seq::empty()
    } else {
        spec_error_summary(lines.drop_last()) + match spec_line_error(lines.last()) {
            Some(e) => seq![e],
            None => Seq::empty(),
        }
    }
}

/// Parses an error-summary stream: each line is decoded independently,
/// lines that are not valid JSON or not the expected shape are dropped,
/// and only `test_result` records with status `FAIL` are retained.
pub fn parse_error_summary(text: &str) -> (r: Vec<ErrorLine>)
    ensures
        r.deep_view() == spec_error_summary(spec_lines(text@)),
{
    let lines = split_lines(text);
    let ghost lv = spec_lines(text@);
    let mut out: Vec<ErrorLine> = Vec::new();
    let mut i: usize = 0;
    proof {
        assert(out.deep_view() =~= spec_error_summary(lv.take(0)));
    }
    while i < lines.len()
        invariant
            0 <= i <= lines@.len(),
            lines.deep_view() == lv,
            lv.len() == lines@.len(),
            out.deep_view() == spec_error_summary(lv.take(i as int)),
        decreases lines@.len() - i,
    {
        let ghost prev = out.deep_view();
        proof {
            assert(lv.take(i + 1).drop_last() =~= lv.take(i as int));
            assert(lv.take(i + 1).last() == lv[i as int]);
            assert(lines@[i as int]@ == lv[i as int]);
        }
        match decode_json_object(lines[i].as_str()) {
            Some(fields) => {
                match error_line_from_fields(&fields) {
                    Some(e) => {
                        let retained = str_eq(e.action.as_str(), "test_result") && match &e.status {
                            Some(s) => str_eq(s.as_str(), "FAIL"),
                            None => false,
                        };
                        proof {
                            assert(retained == spec_retained(e@));
                        }
                        if retained {
                            out.push(e);
                            proof {
                                assert(out.deep_view() =~= prev.push(
                                    spec_line_error(lv[i as int]).unwrap(),
                                ));
                            }
                        }
                    },
                    None => {},
                }
            },
            None => {},
        }
        proof {
            assert(out.deep_view() =~= spec_error_summary(lv.take(i + 1)));
        }
        i += 1;
    }
    proof {
        assert(lv.take(lines@.len() as int) =~= lv);
    }
    out
}

/// Whether a log's name marks it as an error summary.
pub open spec fn spec_error_log_name(name: Seq<char>) -> bool {
    spec_contains(name, "error"@) || spec_contains(name, "summary"@)
}

/// Keeps the log references whose name suggests an error summary.
pub fn select_error_logs(logs: &Vec<LogReference>) -> (r: Vec<LogReference>)
    ensures
        r.deep_view() == logs.deep_view().filter(
            |l: LogReferenceView| spec_error_log_name(l.name),
        ),
{
    let ghost pred = |l: LogReferenceView| spec_error_log_name(l.name);
    let mut out: Vec<LogReference> = Vec::new();
    let mut i: usize = 0;
    proof {
        reveal(Seq::filter);
        assert(logs.deep_view().take(0).filter(pred) =~= Seq::<LogReferenceView>::empty());
        assert(out.deep_view() =~= Seq::<LogReferenceView>::empty());
    }
    while i < logs.len()
        invariant
            0 <= i <= logs@.len(),
            logs.deep_view().len() == logs@.len(),
            out.deep_view() == logs.deep_view().take(i as int).filter(pred),
            forall|l: LogReferenceView| #[trigger] pred(l) == spec_error_log_name(l.name),
        decreases logs@.len() - i,
    {
        let keep = contains_substr(logs[i].name.as_str(), "error") || contains_substr(
            logs[i].name.as_str(),
            "summary",
        );
        let ghost prev = out.deep_view();
        if keep {
            let l = LogReference { name: logs[i].name.clone(), url: logs[i].url.clone() };
            out.push(l);
            proof {
                assert(out.deep_view() =~= prev.push(logs@[i as int].deep_view()));
            }
        }
        proof {
            assert(logs.deep_view()[i as int] == logs@[i as int].deep_view());
            assert(keep == pred(logs.deep_view()[i as int]));
            lemma_filter_take_step(logs.deep_view(), pred, i as int);
        }
        i += 1;
    }
    proof {
        assert(logs.deep_view().take(logs@.len() as int) =~= logs.deep_view());
    }
    out
}

/// Whether a log URL names an error-summary resource.
pub fn is_error_summary_url(url: &str) -> (r: bool)
    ensures
        r == spec_contains(url@, "errorsummary"@),
{
    contains_substr(url, "errorsummary")
}

/// The redirect target of a performance payload: the performance
/// endpoint may answer with a pointer object whose `url` field names
/// the real payload, which must then be fetched again.
pub open spec fn spec_perf_redirect(s: Seq<char>) -> Option<Seq<char>> {
    match json_fields_of(s) {
        None => None,
        Some(fields) => match field_scalar(fields, "url"@) {
            Some(JsonScalarView::Str(u)) => Some(u),
            _ => None,
        },
    }
}

/// Detects the redirect-or-payload shape of a performance reply: the
/// redirect target when the reply is a pointer object, nothing when the
/// reply is to be parsed as the payload itself.
pub fn classify_perf_payload(text: &str) -> (r: Option<String>)
    ensures
        r.deep_view() == spec_perf_redirect(text@),
{
    match decode_json_object(text) {
        None => None,
        Some(fields) => match find_scalar(&fields, "url") {
            Some(JsonScalar::Str(u)) => Some(u),
            _ => None,
        },
    }
}

} // verus!
