use vstd::prelude::*;

use crate::filter::{check_result, filter_result};
use crate::matching::result_view;
use crate::step::{ExpectType, FilterType, Outcome, RetryPolicy};

verus! {

/// What the party that runs a step's pipeline does next.
#[derive(Clone, Copy, Debug, PartialEq, Eq)]
pub enum PipelineAction {
    /// Wait `delay_ms` milliseconds, then run the step's action once and
    /// report its result with `record_action`.
    Run { delay_ms: usize },
    /// Run the step's `on_fail` action once and report its result with
    /// `record_on_fail`.
    RunOnFail,
    /// The pipeline is done: take its `outcome`.
    Finish,
}

#[derive(Clone, Copy, Debug, PartialEq, Eq, Structural)]
pub enum Phase {
    /// The next attempt, or the end, is due.
    Ready,
    AwaitingAction,
    /// The `on_fail` action is due.
    OnFailDue,
    AwaitingOnFail,
    Finished,
}

/// Applies `filters` left to right to `input`: the last output reached,
/// and the error of the first filter that failed, if one did.
pub open spec fn filter_chain(filters: Seq<FilterType>, input: Seq<char>) -> (
    Seq<char>,
    Option<Seq<char>>,
)
    decreases filters.len(),
{
    if filters.len() == 0 {
        (input, None)
    } else {
        match filter_result(filters[0], input) {
            Ok(o) => filter_chain(filters.drop_first(), o),
            Err(e) => (input, Some(e)),
        }
    }
}

/// One attempt: the action's result, filtered, then checked. Gives the
/// output, the error, and whether the attempt succeeded.
pub open spec fn attempt_result(
    result: Result<Seq<char>, Seq<char>>,
    filters: Seq<FilterType>,
    expect: ExpectType,
) -> (Seq<char>, Seq<char>, bool) {
    match result {
        Err(e) => (Seq::empty(), e, false),
        Ok(o) => {
            let (out, err) = filter_chain(filters, o);
            match err {
                Some(e) => (out, e, false),
                None => match check_result(expect, out) {
                    Ok(_) => (out, Seq::empty(), true),
                    Err(e) => (out, e, false),
                },
            }
        },
    }
}

/// Runs `filters` over `input`, stopping at the first that fails.
pub fn run_filters(filters: &Vec<FilterType>, input: String) -> (r: (String, Option<String>))
    ensures
        (r.0@, match r.1 {
            Some(e) => Some(e@),
            None => None,
        }) == filter_chain(filters@, input@),
{
    let mut cur = input;
    let mut k: usize = 0;
    assert(filters@.subrange(0, filters@.len() as int) =~= filters@);
    while k < filters.len()
        invariant
            k <= filters@.len(),
            filter_chain(filters@.subrange(k as int, filters@.len() as int), cur@)
                == filter_chain(filters@, input@),
        decreases filters@.len() - k,
    {
        let ghost rest = filters@.subrange(k as int, filters@.len() as int);
        assert(rest[0] == filters@[k as int]);
        assert(rest.drop_first() =~= filters@.subrange(k + 1, filters@.len() as int));
        match filters[k].filter(cur.as_str()) {
            Ok(o) => {
                cur = o;
            },
            Err(e) => {
                return (cur, Some(e));
            },
        }
        k = k + 1;
    }
    assert(filters@.subrange(k as int, filters@.len() as int).len() == 0);
    (cur, None)
}

/// One attempt of a step: the action's result, filtered, then checked.
pub fn run_attempt(result: Result<String, String>, filters: &Vec<FilterType>, expect: &ExpectType) -> (r: (
    String,
    String,
    bool,
))
    ensures
        (r.0@, r.1@, r.2) == attempt_result(result_view(result), filters@, *expect),
{
    match result {
        Err(e) => (String::new(), e, false),
        Ok(o) => {
            let (out, err) = run_filters(filters, o);
            match err {
                Some(e) => (out, e, false),
                None => match expect.check(out.as_str()) {
                    Ok(()) => (out, String::new(), true),
                    Err(e) => (out, e, false),
                },
            }
        },
    }
}

/// The decisions of one step's run: an initial delay, then up to
/// `retry_count + 1` attempts of the action, each after `retry_delay_ms`
/// but the first, each filtered and checked; after each failed attempt
/// the `on_fail` action, if the step has one. The party that owns the
/// clock and the action runs them as told by `next_action`.
pub struct Pipeline {
    retry: RetryPolicy,
    has_on_fail: bool,
    attempts: u128,
    phase: Phase,
    output: String,
    error: String,
    successful: bool,
    on_fail_output: Option<String>,
    on_fail_error: Option<String>,
}

impl Pipeline {
    pub closed spec fn retry(&self) -> RetryPolicy {
        self.retry
    }

    pub closed spec fn has_on_fail(&self) -> bool {
        self.has_on_fail
    }

    /// How often the action has been run.
    pub closed spec fn attempts(&self) -> nat {
        self.attempts as nat
    }

    pub closed spec fn phase(&self) -> Phase {
        self.phase
    }

    pub closed spec fn successful(&self) -> bool {
        self.successful
    }

    pub closed spec fn output(&self) -> Seq<char> {
        self.output@
    }

    pub closed spec fn error(&self) -> Seq<char> {
        self.error@
    }

    pub closed spec fn on_fail_output(&self) -> Option<Seq<char>> {
        match self.on_fail_output {
            Some(s) => Some(s@),
            None => None,
        }
    }

    pub closed spec fn on_fail_error(&self) -> Option<Seq<char>> {
        match self.on_fail_error {
            Some(s) => Some(s@),
            None => None,
        }
    }

    pub closed spec fn wf(&self) -> bool {
        &&& self.attempts <= self.retry.retry_count as int + 1
        &&& self.phase != Phase::Ready ==> self.attempts >= 1 || self.phase == Phase::Finished
    }

    /// A pipeline before its first attempt.
    pub fn new(retry: RetryPolicy, has_on_fail: bool) -> (r: Pipeline)
        ensures
            r.wf(),
            r.retry() == retry,
            r.has_on_fail() == has_on_fail,
            r.attempts() == 0,
            r.phase() == Phase::Ready,
            !r.successful(),
    {
        Pipeline {
            retry,
            has_on_fail,
            attempts: 0,
            phase: Phase::Ready,
            output: String::new(),
            error: String::new(),
            successful: false,
            on_fail_output: None,
            on_fail_error: None,
        }
    }

    /// Decides what comes next: the `on_fail` action after a failed
    /// attempt of a step that has one; otherwise another attempt while the
    /// step has not succeeded and attempts are left, else the end. The
    /// action runs at most `retry_count + 1` times.
    pub fn next_action(&mut self) -> (r: PipelineAction)
        requires
            old(self).wf(),
            old(self).phase() == Phase::Ready || old(self).phase() == Phase::OnFailDue,
        ensures
            final(self).wf(),
            final(self).retry() == old(self).retry(),
            final(self).has_on_fail() == old(self).has_on_fail(),
            final(self).successful() == old(self).successful(),
            final(self).output() == old(self).output(),
            final(self).error() == old(self).error(),
            final(self).on_fail_output() == old(self).on_fail_output(),
            final(self).on_fail_error() == old(self).on_fail_error(),
            final(self).attempts() <= final(self).retry().retry_count + 1,
            if old(self).phase() == Phase::OnFailDue {
                &&& r == PipelineAction::RunOnFail
                &&& final(self).phase() == Phase::AwaitingOnFail
                &&& final(self).attempts() == old(self).attempts()
            } else if old(self).successful() || old(self).attempts() > old(self).retry().retry_count {
                &&& r == PipelineAction::Finish
                &&& final(self).phase() == Phase::Finished
                &&& final(self).attempts() == old(self).attempts()
            } else {
                &&& r == PipelineAction::Run {
                    delay_ms: if old(self).attempts() == 0 {
                        old(self).retry().initial_delay_ms
                    } else {
                        old(self).retry().retry_delay_ms
                    },
                }
                &&& final(self).phase() == Phase::AwaitingAction
                &&& final(self).attempts() == old(self).attempts() + 1
            },
    {
        if self.phase == Phase::OnFailDue {
            self.phase = Phase::AwaitingOnFail;
            return PipelineAction::RunOnFail;
        }
        if self.successful || self.attempts > self.retry.retry_count as u128 {
            self.phase = Phase::Finished;
            PipelineAction::Finish
        } else {
            let delay_ms = if self.attempts == 0 {
                self.retry.initial_delay_ms
            } else {
                self.retry.retry_delay_ms
            };
            self.attempts = self.attempts + 1;
            self.phase = Phase::AwaitingAction;
            PipelineAction::Run { delay_ms }
        }
    }

    /// Takes the result of one run of the action: it is filtered and
    /// checked. After a failed attempt of a step with an `on_fail` action,
    /// that action is due next.
    pub fn record_action(
        &mut self,
        result: Result<String, String>,
        filters: &Vec<FilterType>,
        expect: &ExpectType,
    )
        requires
            old(self).wf(),
            old(self).phase() == Phase::AwaitingAction,
        ensures
            final(self).wf(),
            final(self).retry() == old(self).retry(),
            final(self).has_on_fail() == old(self).has_on_fail(),
            final(self).attempts() == old(self).attempts(),
            (final(self).output(), final(self).error(), final(self).successful())
                == attempt_result(result_view(result), filters@, *expect),
            final(self).on_fail_output() is None,
            final(self).on_fail_error() is None,
            final(self).phase() == if !final(self).successful() && old(self).has_on_fail() {
                Phase::OnFailDue
            } else {
                Phase::Ready
            },
    {
        let (output, error, successful) = run_attempt(result, filters, expect);
        self.output = output;
        self.error = error;
        self.successful = successful;
        self.on_fail_output = None;
        self.on_fail_error = None;
        self.phase = if !successful && self.has_on_fail {
            Phase::OnFailDue
        } else {
            Phase::Ready
        };
    }

    /// Takes the result of the `on_fail` action.
    pub fn record_on_fail(&mut self, result: Result<String, String>)
        requires
            old(self).wf(),
            old(self).phase() == Phase::AwaitingOnFail,
        ensures
            final(self).wf(),
            final(self).retry() == old(self).retry(),
            final(self).has_on_fail() == old(self).has_on_fail(),
            final(self).attempts() == old(self).attempts(),
            final(self).successful() == old(self).successful(),
            final(self).output() == old(self).output(),
            final(self).error() == old(self).error(),
            final(self).phase() == Phase::Ready,
            match result {
                Ok(o) => final(self).on_fail_output() == Some(o@) && final(self).on_fail_error()
                    is None,
                Err(e) => final(self).on_fail_error() == Some(e@)
                    && final(self).on_fail_output() is None,
            },
    {
        match result {
            Ok(o) => {
                self.on_fail_output = Some(o);
                self.on_fail_error = None;
            },
            Err(e) => {
                self.on_fail_output = None;
                self.on_fail_error = Some(e);
            },
        }
        self.phase = Phase::Ready;
    }

    /// The outcome of the finished pipeline, which took `duration_nanos`:
    /// the last output if not empty, and the last error unless the step
    /// succeeded.
    pub fn outcome(&self, duration_nanos: u128) -> (r: Outcome)
        requires
            self.phase() == Phase::Finished,
        ensures
            r.output matches Some(o) ==> o@ == self.output() && o@.len() > 0,
            r.output is None <==> self.output().len() == 0,
            r.error matches Some(e) ==> e@ == self.error(),
            r.error is None <==> self.successful(),
            match r.on_fail_output {
                Some(s) => self.on_fail_output() == Some(s@),
                None => self.on_fail_output() is None,
            },
            match r.on_fail_error {
                Some(s) => self.on_fail_error() == Some(s@),
                None => self.on_fail_error() is None,
            },
            r.duration_nanos == duration_nanos,
    {
        let output = if self.output.as_str().unicode_len() == 0 {
            None
        } else {
            Some(self.output.clone())
        };
        let error = if self.successful {
            None
        } else {
            Some(self.error.clone())
        };
        Outcome {
            output,
            error,
            on_fail_output: self.on_fail_output.clone(),
            on_fail_error: self.on_fail_error.clone(),
            duration_nanos,
        }
    }
}

} // verus!
