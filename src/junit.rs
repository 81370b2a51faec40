use vstd::prelude::*;

use crate::step::{dependency_not_met_text, str_eq};
use crate::submitter::StepResult;
use crate::text::push_char;

verus! {

/// The characters that XML 1.0 text may hold.
pub open spec fn is_xml_char(c: char) -> bool {
    ('\u{20}' <= c && c <= '\u{D7FF}') || ('\u{E000}' <= c && c <= '\u{FFFD}') || c == '\t' || c
        == '\n' || c == '\r'
}

/// `s` without the characters that XML text cannot hold.
pub open spec fn xml_chars(s: Seq<char>) -> Seq<char>
    decreases s.len(),
{
    if s.len() == 0 {
        s
    } else if is_xml_char(s.last()) {
        xml_chars(s.drop_last()).push(s.last())
    } else {
        xml_chars(s.drop_last())
    }
}

/// Drops the characters that XML text cannot hold, keeping the rest in order.
pub fn filter_invalid_chars(input: &str) -> (r: String)
    ensures
        r@ == xml_chars(input@),
{
    let mut output = String::new();
    for c in it: input.chars()
        invariant
            it.seq() == input@,
            output@ == xml_chars(input@.subrange(0, it.index() as int)),
    {
        let ghost i = it.index();
        assert(input@.subrange(0, i + 1).drop_last() =~= input@.subrange(0, i as int));
        if ('\u{20}' <= c && c <= '\u{D7FF}') || ('\u{E000}' <= c && c <= '\u{FFFD}') || c == '\t'
            || c == '\n' || c == '\r' {
            push_char(&mut output, c);
        }
    }
    assert(input@.subrange(0, input@.len() as int) =~= input@);
    output
}

/// How a result appears in a report.
#[derive(Clone, Copy, Debug, PartialEq, Eq, Structural)]
pub enum CaseKind {
    Passed,
    /// Not run because a step it depends on failed.
    Skipped,
    Failed,
}

pub open spec fn is_skip(r: StepResult) -> bool {
    r.error matches Some(e) && e@ == dependency_not_met_text()
}

pub open spec fn case_kind_of(r: StepResult) -> CaseKind {
    if r.pass {
        CaseKind::Passed
    } else if is_skip(r) {
        CaseKind::Skipped
    } else {
        CaseKind::Failed
    }
}

/// Whether a result passed, was skipped, or failed.
pub fn case_kind(r: &StepResult) -> (k: CaseKind)
    ensures
        k == case_kind_of(*r),
{
    if r.pass {
        CaseKind::Passed
    } else {
        match &r.error {
            Some(e) => if str_eq(e.as_str(), "Dependency Not Met") {
                CaseKind::Skipped
            } else {
                CaseKind::Failed
            },
            None => CaseKind::Failed,
        }
    }
}

/// The counts at the head of a report.
#[derive(Clone, Copy, Debug, PartialEq, Eq)]
pub struct JunitSummary {
    pub tests: usize,
    pub failures: usize,
    pub skipped: usize,
}

/// How many results are skipped.
pub open spec fn skip_count(rs: Seq<StepResult>) -> nat
    decreases rs.len(),
{
    if rs.len() == 0 {
        0
    } else {
        skip_count(rs.drop_last()) + if is_skip(rs.last()) {
            1nat
        } else {
            0nat
        }
    }
}

/// How many results failed without being skipped.
pub open spec fn failure_count(rs: Seq<StepResult>) -> nat
    decreases rs.len(),
{
    if rs.len() == 0 {
        0
    } else {
        failure_count(rs.drop_last()) + if !rs.last().pass && !is_skip(rs.last()) {
            1nat
        } else {
            0nat
        }
    }
}

proof fn lemma_counts_bounded(rs: Seq<StepResult>)
    ensures
        skip_count(rs) <= rs.len(),
        failure_count(rs) <= rs.len(),
    decreases rs.len(),
{
    if rs.len() > 0 {
        lemma_counts_bounded(rs.drop_last());
    }
}

/// Counts the results: all, failed, and skipped.
pub fn junit_summary(results: &[StepResult]) -> (r: JunitSummary)
    ensures
        r.tests == results@.len(),
        r.failures == failure_count(results@),
        r.skipped == skip_count(results@),
{
    let mut failures: usize = 0;
    let mut skipped: usize = 0;
    let mut i: usize = 0;
    while i < results.len()
        invariant
            i <= results@.len(),
            failures == failure_count(results@.subrange(0, i as int)),
            skipped == skip_count(results@.subrange(0, i as int)),
        decreases results@.len() - i,
    {
        let ghost p = results@.subrange(0, i + 1);
        assert(p.drop_last() =~= results@.subrange(0, i as int));
        proof {
            lemma_counts_bounded(p);
        }
        let skip = match &results[i].error {
            Some(e) => str_eq(e.as_str(), "Dependency Not Met"),
            None => false,
        };
        if skip {
            skipped = skipped + 1;
        } else if !results[i].pass {
            failures = failures + 1;
        }
        i = i + 1;
    }
    assert(results@.subrange(0, results@.len() as int) =~= results@);
    JunitSummary { tests: results.len(), failures, skipped }
}

} // verus!
