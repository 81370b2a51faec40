use std::collections::VecDeque;

use lorikeet::bash::shell_result;
use lorikeet::number::parse_number;
use lorikeet::pipeline::{Pipeline, PipelineAction};
use lorikeet::runner::{prepare_run, PlanRun};
use lorikeet::step::{ExpectType, FilterType, RetryPolicy, RunType, Step};
use lorikeet::submitter::StepResult;

fn step(name: &str, run: RunType) -> Step {
    Step {
        name: name.to_string(),
        description: None,
        run,
        on_fail: None,
        filters: vec![],
        expect: ExpectType::Anything,
        do_output: true,
        outcome: None,
        retry: RetryPolicy::default(),
        require: vec![],
        required_by: vec![],
    }
}

fn value(name: &str, v: &str) -> Step {
    step(name, RunType::Value(v.to_string()))
}

/// Runs a plan one step at a time; `outside` performs the actions that the
/// library leaves to its caller, given the step's name and the attempt.
/// Each record comes with the number of times its action ran.
fn run_plan(
    steps: Vec<Step>,
    outside: &mut dyn FnMut(&str, u32) -> Result<String, String>,
) -> Result<Vec<(StepResult, u32)>, StepResult> {
    let mut run = PlanRun::new(steps)?;
    let mut emitted = Vec::new();
    let mut queue: VecDeque<usize> = run.start().into_iter().collect();
    while let Some(idx) = queue.pop_front() {
        let current = run.step(idx).clone();
        let snapshot = run.outputs().snapshot();
        let mut pipeline = Pipeline::new(current.retry, current.on_fail.is_some());
        let mut runs: u32 = 0;
        loop {
            match pipeline.next_action() {
                PipelineAction::Run { .. } => {
                    runs += 1;
                    let result = match current.run.run_local(&snapshot) {
                        Some(r) => r,
                        None => outside(&current.name, runs),
                    };
                    pipeline.record_action(result, &current.filters, &current.expect);
                }
                PipelineAction::RunOnFail => {
                    let on_fail = current.on_fail.as_ref().unwrap();
                    let result = on_fail.run_local(&snapshot).unwrap_or_else(|| outside("on_fail", runs));
                    pipeline.record_on_fail(result);
                }
                PipelineAction::Finish => break,
            }
        }
        let (record, next) = run.finish(idx, pipeline.outcome(0));
        emitted.push((record, runs));
        queue.extend(next);
    }
    for (_, record) in run.sweep() {
        emitted.push((record, 0));
    }
    Ok(emitted)
}

fn no_outside(_: &str, _: u32) -> Result<String, String> {
    panic!("no outside action expected")
}

fn result_of(emitted: &[(StepResult, u32)], name: &str) -> StepResult {
    emitted.iter().find(|(s, _)| s.name == name).unwrap().0.clone()
}

fn position(emitted: &[(StepResult, u32)], name: &str) -> usize {
    emitted.iter().position(|(s, _)| s.name == name).unwrap()
}

#[test]
fn linear_chain() {
    let mut b = value("b", "y");
    b.require = vec!["a".to_string()];
    let emitted = run_plan(vec![value("a", "x"), b], &mut no_outside).unwrap();
    assert_eq!(emitted.len(), 2);
    let a = result_of(&emitted, "a");
    let b = result_of(&emitted, "b");
    assert!(a.pass);
    assert_eq!(a.output, "x");
    assert!(b.pass);
    assert_eq!(b.output, "y");
    assert!(position(&emitted, "b") > position(&emitted, "a"));
}

#[test]
fn fan_out_failure_skip() {
    let mut b = value("b", "ok");
    b.require = vec!["a".to_string()];
    let a = step("a", RunType::Bash(lorikeet::step::BashVariant::CmdOnly("false".to_string())));
    let mut outside = |_: &str, _: u32| shell_result(false, Some(1), String::new(), String::new(), false);
    let emitted = run_plan(vec![a, b], &mut outside).unwrap();
    assert_eq!(emitted.len(), 2);
    let a = result_of(&emitted, "a");
    let b = result_of(&emitted, "b");
    assert!(!a.pass);
    assert!(!b.pass);
    assert_eq!(b.error.as_deref(), Some("Dependency Not Met"));
    assert_eq!(b.duration_nanos, 0);
    let (_, runs) = emitted.iter().find(|(s, _)| s.name == "b").unwrap();
    assert_eq!(*runs, 0);
}

#[test]
fn skipped_step_never_runs_on_fail() {
    let a = step("a", RunType::Bash(lorikeet::step::BashVariant::CmdOnly("false".to_string())));
    let mut b = value("b", "ok");
    b.require = vec!["a".to_string()];
    b.on_fail = Some(RunType::Bash(lorikeet::step::BashVariant::CmdOnly("touch marker".to_string())));
    let mut calls: Vec<String> = vec![];
    let mut outside = |name: &str, _: u32| {
        calls.push(name.to_string());
        Err("boom".to_string())
    };
    let emitted = run_plan(vec![a, b], &mut outside).unwrap();
    assert_eq!(calls, vec!["a".to_string()]);
    let b = result_of(&emitted, "b");
    assert_eq!(b.on_fail_output, None);
    assert_eq!(b.on_fail_error, None);
}

#[test]
fn cycle_is_rejected() {
    let mut a = value("a", "1");
    a.require = vec!["b".to_string()];
    let mut b = value("b", "2");
    b.require = vec!["a".to_string()];
    let record = run_plan(vec![a, b], &mut no_outside).unwrap_err();
    assert_eq!(record.name, "lorikeet");
    assert!(!record.pass);
    let err = record.error.unwrap();
    assert!(err.contains("circular dependency"));
    assert!(err.contains("`a`") || err.contains("`b`"));
}

#[test]
fn self_requirement_is_a_cycle() {
    let mut a = value("a", "1");
    a.require = vec!["a".to_string()];
    let err = run_plan(vec![a], &mut no_outside).unwrap_err().error.unwrap();
    assert_eq!(err, "Could not build step graph: `a` has a circular dependency");
}

#[test]
fn retry_then_succeed() {
    let mut a = step(
        "a",
        RunType::Bash(lorikeet::step::BashVariant::CmdOnly("test -f /tmp/x && echo ok".to_string())),
    );
    a.retry = RetryPolicy { retry_count: 3, retry_delay_ms: 10, initial_delay_ms: 0 };
    let mut outside = |_: &str, attempt: u32| {
        if attempt >= 2 {
            shell_result(true, Some(0), "ok\n".to_string(), String::new(), false)
        } else {
            shell_result(false, Some(1), String::new(), String::new(), false)
        }
    };
    let emitted = run_plan(vec![a], &mut outside).unwrap();
    let (r, runs) = &emitted[0];
    assert!(r.pass);
    assert!(r.output.contains("ok"));
    assert_eq!(*runs, 2);
}

#[test]
fn retry_delays_follow_policy() {
    let mut p = Pipeline::new(RetryPolicy { retry_count: 3, retry_delay_ms: 10, initial_delay_ms: 5 }, false);
    let none: Vec<FilterType> = vec![];
    let mut delays = vec![];
    loop {
        match p.next_action() {
            PipelineAction::Run { delay_ms } => {
                delays.push(delay_ms);
                p.record_action(Err("no".to_string()), &none, &ExpectType::Anything);
            }
            PipelineAction::RunOnFail => unreachable!(),
            PipelineAction::Finish => break,
        }
    }
    assert_eq!(delays, vec![5, 10, 10, 10]);
    let o = p.outcome(7);
    assert_eq!(o.error.as_deref(), Some("no"));
    assert_eq!(o.output, None);
    assert_eq!(o.duration_nanos, 7);
}

#[test]
fn on_fail_runs_after_each_failed_attempt() {
    let mut p = Pipeline::new(RetryPolicy { retry_count: 1, retry_delay_ms: 0, initial_delay_ms: 0 }, true);
    let none: Vec<FilterType> = vec![];
    let mut on_fail_runs = 0;
    loop {
        match p.next_action() {
            PipelineAction::Run { .. } => p.record_action(Err("bad".to_string()), &none, &ExpectType::Anything),
            PipelineAction::RunOnFail => {
                on_fail_runs += 1;
                p.record_on_fail(Ok(format!("cleanup {}", on_fail_runs)));
            }
            PipelineAction::Finish => break,
        }
    }
    assert_eq!(on_fail_runs, 2);
    let o = p.outcome(0);
    assert_eq!(o.on_fail_output.as_deref(), Some("cleanup 2"));
}

#[test]
fn ref_uses_predecessor_output() {
    let mut b = step("b", RunType::Step("a".to_string()));
    b.expect = ExpectType::Matches("^hello$".to_string());
    b.require = vec!["a".to_string()];
    let emitted = run_plan(vec![value("a", "hello"), b], &mut no_outside).unwrap();
    let b = result_of(&emitted, "b");
    assert!(b.pass);
    assert_eq!(b.output, "hello");
}

#[test]
fn ref_without_require_still_waits() {
    let b = step("b", RunType::Step("a".to_string()));
    let emitted = run_plan(vec![b, value("a", "first")], &mut no_outside).unwrap();
    assert_eq!(result_of(&emitted, "b").output, "first");
    assert!(position(&emitted, "b") > position(&emitted, "a"));
}

#[test]
fn filter_and_expect() {
    let mut a = value("a", "{\"k\":\"42\"}");
    a.filters = vec![FilterType::JmesPath("k".to_string())];
    a.expect = ExpectType::GreaterThan(parse_number("10").unwrap());
    let emitted = run_plan(vec![a.clone()], &mut no_outside).unwrap();
    let r = result_of(&emitted, "a");
    assert!(r.pass);
    assert_eq!(r.output, "42");

    a.expect = ExpectType::GreaterThan(parse_number("100").unwrap());
    let emitted = run_plan(vec![a], &mut no_outside).unwrap();
    let r = result_of(&emitted, "a");
    assert!(!r.pass);
    assert!(r.error.unwrap().contains("not greater than"));
}

#[test]
fn every_step_emitted_once() {
    let a = step("a", RunType::Bash(lorikeet::step::BashVariant::CmdOnly("false".to_string())));
    let mut b = value("b", "1");
    b.require = vec!["a".to_string()];
    let mut c = value("c", "2");
    c.require = vec!["b".to_string()];
    let d = value("d", "3");
    let mut e = value("e", "4");
    e.required_by = vec!["d".to_string()];
    let mut outside = |_: &str, _: u32| Err("failed".to_string());
    let emitted = run_plan(vec![a, b, c, d, e], &mut outside).unwrap();
    let mut names: Vec<String> = emitted.iter().map(|(s, _)| s.name.clone()).collect();
    names.sort();
    assert_eq!(names, vec!["a", "b", "c", "d", "e"]);
    assert_eq!(result_of(&emitted, "c").error.as_deref(), Some("Dependency Not Met"));
    assert!(result_of(&emitted, "d").pass);
    assert!(position(&emitted, "d") > position(&emitted, "e"));
}

#[test]
fn missing_dependency_is_reported() {
    let mut a = value("a", "1");
    a.require = vec!["nope".to_string()];
    let err = run_plan(vec![a], &mut no_outside).unwrap_err().error.unwrap();
    assert_eq!(
        err,
        "Could not build step graph: `nope` can not be found. defined from `require` on `a`"
    );
    let b = step("b", RunType::Step("ghost".to_string()));
    let err = run_plan(vec![b], &mut no_outside).unwrap_err().error.unwrap();
    assert_eq!(
        err,
        "Could not build step graph: `ghost` can not be found. defined from step run type on `b`"
    );
    let mut c = value("c", "1");
    c.required_by = vec!["zz".to_string()];
    let err = run_plan(vec![c], &mut no_outside).unwrap_err().error.unwrap();
    assert_eq!(
        err,
        "Could not build step graph: `zz` can not be found. defined from `required_by` on `c`"
    );
}

#[test]
fn failed_output_is_not_shared() {
    let mut a = value("a", "5");
    a.expect = ExpectType::GreaterThan(parse_number("10").unwrap());
    let mut run = PlanRun::new(vec![a.clone()]).ok().unwrap();
    assert_eq!(run.start(), vec![0]);
    let mut pipeline = Pipeline::new(a.retry, false);
    let none: Vec<FilterType> = vec![];
    assert!(matches!(pipeline.next_action(), PipelineAction::Run { .. }));
    pipeline.record_action(Ok("5".to_string()), &none, &a.expect);
    assert!(matches!(pipeline.next_action(), PipelineAction::Finish));
    let outcome = pipeline.outcome(0);
    assert_eq!(outcome.output.as_deref(), Some("5"));
    let (record, next) = run.finish(0, outcome);
    assert!(!record.pass);
    assert_eq!(record.output, "5");
    assert!(next.is_empty());
    assert_eq!(run.outputs().get("a"), Err("Step a could not be found".to_string()));
    assert!(!run.has_running());
    assert!(run.sweep().is_empty());
}

#[test]
fn scheduler_admits_in_dependency_order() {
    let a = value("a", "1");
    let mut b = value("b", "2");
    b.require = vec!["a".to_string()];
    let mut c = value("c", "3");
    c.require = vec!["a".to_string()];
    let mut d = value("d", "4");
    d.require = vec!["b".to_string(), "c".to_string()];
    let mut s = prepare_run(&[a, b, c, d]).ok().unwrap();
    assert_eq!(s.start(), vec![0]);
    assert!(s.can_start(0));
    assert!(!s.can_start(3));
    let mut next = s.complete(0, false);
    next.sort();
    assert_eq!(next, vec![1, 2]);
    assert_eq!(s.complete(1, false), Vec::<usize>::new());
    assert!(s.has_running());
    assert_eq!(s.complete(2, false), vec![3]);
    assert_eq!(s.complete(3, false), Vec::<usize>::new());
    assert!(!s.has_running());
    assert!(s.skip_unreached().is_empty());
}

#[test]
fn scheduler_skips_after_failure() {
    let a = value("a", "1");
    let mut b = value("b", "2");
    b.require = vec!["a".to_string()];
    let c = value("c", "3");
    let mut d = value("d", "4");
    d.required_by = vec!["b".to_string()];
    let mut s = prepare_run(&[a, b, c, d]).ok().unwrap();
    assert_eq!(s.start(), vec![0, 2, 3]);
    assert_eq!(s.complete(3, false), Vec::<usize>::new());
    assert_eq!(s.complete(0, true), Vec::<usize>::new());
    assert_eq!(s.complete(2, false), Vec::<usize>::new());
    assert!(!s.has_running());
    assert_eq!(s.skip_unreached(), vec![1]);
}
