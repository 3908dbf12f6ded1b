//! Compiled search patterns and the verified line scan over saved logs.
//!
//! The regex engine is an outside crate; compilation and matching stand
//! behind trusted items whose results are named, and everything built on
//! them (the per-line scan, the artifact filter) is verified.

use vstd::prelude::*;

use crate::models::{LogMatch, LogMatchView, TaskclusterArtifact, TaskclusterArtifactView};
use crate::seqs::lemma_filter_take_step;
use crate::text::{spec_lines, split_lines};

verus! {

/// The regex type of the outside engine, opaque to the verifier.
#[verifier::external_type_specification]
#[verifier::external_body]
pub struct ExRegex(regex::Regex);

/// Whether the outside engine accepts `pattern` as valid syntax.
/// Compilation is a deterministic function of the pattern text.
pub uninterp spec fn regex_ok(pattern: Seq<char>) -> bool;

/// Whether the pattern compiled from `pattern` matches somewhere in
/// `text`. Matching is a deterministic function of the two texts.
pub uninterp spec fn regex_match(pattern: Seq<char>, text: Seq<char>) -> bool;

/// A compiled pattern paired with the text it was compiled from.
/// The fields are private: every value goes through `compile`, so the
/// engine state always corresponds to `source`.
pub struct SearchPattern {
    re: regex::Regex,
    source: String,
}

impl SearchPattern {
    /// The pattern text this value was compiled from.
    pub closed spec fn source_view(&self) -> Seq<char> {
        self.source@
    }

    /// Relies on `regex::Regex::new`: it compiles exactly the patterns
    /// the engine's syntax accepts, deterministically in the pattern.
    #[verifier::external_body]
    pub fn compile(pattern: &str) -> (r: Option<SearchPattern>)
        ensures
            r is Some <==> regex_ok(pattern@),
            r is Some ==> r.unwrap().source_view() == pattern@,
    {
        match regex::Regex::new(pattern) {
            Ok(re) => Some(SearchPattern { re, source: pattern.to_owned() }),
            Err(_) => None,
        }
    }

    /// Relies on `regex::Regex::is_match`: a deterministic function of
    /// the compiled pattern (always `self.source` here) and the text.
    #[verifier::external_body]
    pub fn is_match(&self, text: &str) -> (r: bool)
        ensures
            r == regex_match(self.source_view(), text@),
    {
        self.re.is_match(text)
    }
}

/// The matches a pattern produces over the lines of one log: one record
/// per matching line, with the log's name and the 1-based line number.
pub open spec fn spec_log_matches(
    log_name: Seq<char>,
    lines: Seq<Seq<char>>,
    pattern: Seq<char>,
) -> Seq<LogMatchView> {
    Seq::new(lines.len(), |i: int| i).filter(|i: int| regex_match(pattern, lines[i])).map_values(
        |i: int|
            LogMatchView { log_name: log_name, line_number: (i + 1) as usize, line_content: lines[i] },
    )
}

/// Scans one log's text line by line and records every line the pattern
/// matches, with its 1-based line number and full text.
pub fn search_log_content(log_name: &str, content: &str, pattern: &SearchPattern) -> (r: Vec<
    LogMatch,
>)
    ensures
        r.deep_view() == spec_log_matches(
            log_name@,
            spec_lines(content@),
            pattern.source_view(),
        ),
{
    let lines = split_lines(content);
    let ghost lv = spec_lines(content@);
    let ghost idxs = Seq::new(lv.len(), |i: int| i);
    let ghost pred = |i: int| regex_match(pattern.source_view(), lv[i]);
    let ghost to_match = |i: int|
        LogMatchView {
            log_name: log_name@,
            line_number: (i + 1) as usize,
            line_content: lv[i],
        };
    let mut out: Vec<LogMatch> = Vec::new();
    let mut k: usize = 0;
    proof {
        reveal(Seq::filter);
        assert(idxs.take(0).filter(pred) =~= Seq::<int>::empty());
        assert(out.deep_view() =~= idxs.take(0).filter(pred).map_values(to_match));
    }
    while k < lines.len()
        invariant
            0 <= k <= lines@.len(),
            lines.deep_view() == lv,
            lv.len() == lines@.len(),
            idxs == Seq::new(lv.len(), |i: int| i),
            out.deep_view() == idxs.take(k as int).filter(pred).map_values(to_match),
            forall|i: int| #[trigger] pred(i) == regex_match(pattern.source_view(), lv[i]),
            forall|i: int|
                #[trigger] to_match(i) == (LogMatchView {
                    log_name: log_name@,
                    line_number: (i + 1) as usize,
                    line_content: lv[i],
                }),
        decreases lines@.len() - k,
    {
        let ghost prev = out.deep_view();
        proof {
            assert(lines@[k as int]@ == lines.deep_view()[k as int]);
        }
        if pattern.is_match(lines[k].as_str()) {
            let m = LogMatch {
                log_name: String::from_str(log_name),
                line_number: k + 1,
                line_content: lines[k].clone(),
            };
            out.push(m);
            proof {
                assert(out.deep_view() =~= prev.push(to_match(k as int)));
            }
        }
        proof {
            lemma_filter_take_step(idxs, pred, k as int);
            assert(idxs.take(k + 1).filter(pred).map_values(to_match) =~= if pred(k as int) {
                prev.push(to_match(k as int))
            } else {
                prev
            });
        }
        k += 1;
    }
    proof {
        assert(idxs.take(lv.len() as int) =~= idxs);
    }
    out
}

/// Whether an artifact passes the optional name filter.
pub open spec fn artifact_selected(name: Seq<char>, pattern: Option<Seq<char>>) -> bool {
    match pattern {
        Some(p) => regex_match(p, name),
        None => true,
    }
}

/// The pattern text of an optional compiled pattern.
pub open spec fn spec_pattern_view(pattern: Option<&SearchPattern>) -> Option<Seq<char>> {
    match pattern {
        Some(p) => Some(p.source_view()),
        None => None,
    }
}

/// Keeps the artifacts whose name the optional pattern matches; with no
/// pattern, keeps them all.
pub fn filter_artifacts(artifacts: Vec<TaskclusterArtifact>, pattern: Option<&SearchPattern>) -> (r:
    Vec<TaskclusterArtifact>)
    ensures
        r.deep_view() == artifacts.deep_view().filter(
            |a: TaskclusterArtifactView| artifact_selected(a.name, spec_pattern_view(pattern)),
        ),
{
    let mut out: Vec<TaskclusterArtifact> = Vec::new();
    let mut i: usize = 0;
    proof {
        reveal(Seq::filter);
        assert(artifacts.deep_view().take(0).filter(
            |a: TaskclusterArtifactView| artifact_selected(a.name, spec_pattern_view(pattern)),
        ) =~= Seq::<TaskclusterArtifactView>::empty());
        assert(out.deep_view() =~= Seq::<TaskclusterArtifactView>::empty());
    }
    while i < artifacts.len()
        invariant
            0 <= i <= artifacts@.len(),
            artifacts.deep_view().len() == artifacts@.len(),
            out.deep_view() == artifacts.deep_view().take(i as int).filter(
                |a: TaskclusterArtifactView| artifact_selected(a.name, spec_pattern_view(pattern)),
            ),
        decreases artifacts@.len() - i,
    {
        let keep = match pattern {
            Some(p) => p.is_match(artifacts[i].name.as_str()),
            None => true,
        };
        let ghost prev = out.deep_view();
        if keep {
            out.push(artifacts[i].clone());
            proof {
                assert(out.deep_view() =~= prev.push(artifacts@[i as int].deep_view()));
            }
        }
        proof {
            assert(artifacts.deep_view()[i as int] == artifacts@[i as int].deep_view());
            assert(keep == artifact_selected(
                artifacts.deep_view()[i as int].name,
                spec_pattern_view(pattern),
            ));
            lemma_filter_take_step(
                artifacts.deep_view(),
                |a: TaskclusterArtifactView| artifact_selected(a.name, spec_pattern_view(pattern)),
                i as int,
            );
        }
        i += 1;
    }
    proof {
        assert(artifacts.deep_view().take(artifacts@.len() as int) =~= artifacts.deep_view());
    }
    out
}

} // verus!
