use vstd::prelude::*;

use crate::number::{number_of_text, parse_number, parses_as_number};
use crate::step::{
    requirement_names, BashVariant, DiskVariant, ExpectType, FilterType, HttpVariant, RegexVariant,
    Requirement, RetryPolicy, RunType, Step, SystemVariant,
};

verus! {

/// One entry of a plan as written: every recognised key, each optional.
#[derive(Clone, Debug, PartialEq, Eq)]
pub struct StepYaml {
    pub description: Option<String>,
    pub value: Option<String>,
    pub bash: Option<BashVariant>,
    pub step: Option<String>,
    pub http: Option<HttpVariant>,
    pub system: Option<SystemVariant>,
    pub disk: Option<DiskVariant>,
    pub matches: Option<String>,
    pub matches_not: Option<String>,
    pub filters: Vec<FilterType>,
    pub jmespath: Option<String>,
    pub regex: Option<RegexVariant>,
    pub do_output: Option<bool>,
    pub less_than: Option<String>,
    pub greater_than: Option<String>,
    pub retry_count: Option<usize>,
    pub retry_delay_ms: Option<usize>,
    pub delay_ms: Option<usize>,
    pub on_fail: Option<RunType>,
    pub require: Option<Requirement>,
    pub required_by: Option<Requirement>,
}

/// The retry policy an entry asks for; an absent key is zero.
pub open spec fn retry_policy_of(y: StepYaml) -> RetryPolicy {
    RetryPolicy {
        retry_count: match y.retry_count {
            Some(n) => n,
            None => 0,
        },
        retry_delay_ms: match y.retry_delay_ms {
            Some(n) => n,
            None => 0,
        },
        initial_delay_ms: match y.delay_ms {
            Some(n) => n,
            None => 0,
        },
    }
}

fn get_retry_policy(y: &StepYaml) -> (r: RetryPolicy)
    ensures
        r == retry_policy_of(*y),
{
    RetryPolicy {
        retry_count: match y.retry_count {
            Some(n) => n,
            None => 0,
        },
        retry_delay_ms: match y.retry_delay_ms {
            Some(n) => n,
            None => 0,
        },
        initial_delay_ms: match y.delay_ms {
            Some(n) => n,
            None => 0,
        },
    }
}

/// The action of an entry: the first of `step`, `bash`, `http`, `system`,
/// `disk` that is present, else the literal `value` (empty when absent).
pub open spec fn runtype_matches(r: RunType, y: StepYaml) -> bool {
    if y.step is Some {
        r == RunType::Step(y.step->0)
    } else if y.bash is Some {
        r == RunType::Bash(y.bash->0)
    } else if y.http is Some {
        r == RunType::Http(y.http->0)
    } else if y.system is Some {
        r == RunType::System(y.system->0)
    } else if y.disk is Some {
        r == RunType::Disk(y.disk->0)
    } else {
        r matches RunType::Value(v) && v@ == match y.value {
            Some(s) => s@,
            None => Seq::empty(),
        }
    }
}

/// The expectation of an entry: the first of `matches`, `matches_not`,
/// `greater_than`, `less_than` that is present, else anything passes. A
/// threshold must be decimal notation.
pub open spec fn expect_matches(r: Result<ExpectType, String>, y: StepYaml) -> bool {
    if y.matches is Some {
        r == Ok::<ExpectType, String>(ExpectType::Matches(y.matches->0))
    } else if y.matches_not is Some {
        r == Ok::<ExpectType, String>(ExpectType::MatchesNot(y.matches_not->0))
    } else if y.greater_than is Some {
        if parses_as_number(y.greater_than->0@) {
            r == Ok::<ExpectType, String>(
                ExpectType::GreaterThan(number_of_text(y.greater_than->0@)),
            )
        } else {
            r matches Err(e) && e@ == "Could not parse number `"@ + y.greater_than->0@ + "`"@
        }
    } else if y.less_than is Some {
        if parses_as_number(y.less_than->0@) {
            r == Ok::<ExpectType, String>(ExpectType::LessThan(number_of_text(y.less_than->0@)))
        } else {
            r matches Err(e) && e@ == "Could not parse number `"@ + y.less_than->0@ + "`"@
        }
    } else {
        r == Ok::<ExpectType, String>(ExpectType::Anything)
    }
}

/// The filters of an entry: its `filters` list, then its `jmespath`, then
/// its `regex`.
pub open spec fn filters_of(y: StepYaml) -> Seq<FilterType> {
    let a = y.filters@;
    let b = match y.jmespath {
        Some(j) => a.push(FilterType::JmesPath(j)),
        None => a,
    };
    match y.regex {
        Some(v) => b.push(FilterType::Regex(v)),
        None => b,
    }
}

pub open spec fn names_of(r: Option<Requirement>) -> Seq<Seq<char>> {
    match r {
        Some(r) => requirement_names(r),
        None => Seq::empty(),
    }
}

fn threshold(text: String) -> (r: Result<crate::number::Number, String>)
    ensures
        parses_as_number(text@) ==> r == Ok::<crate::number::Number, String>(
            number_of_text(text@),
        ),
        !parses_as_number(text@) ==> (r matches Err(e) && e@ == "Could not parse number `"@
            + text@ + "`"@),
{
    match parse_number(text.as_str()) {
        Some(n) => Ok(n),
        None => {
            let mut e = String::from_str("Could not parse number `");
            e.append(text.as_str());
            e.append("`");
            Err(e)
        },
    }
}

fn requirement_vec(r: &Option<Requirement>) -> (v: Vec<String>)
    ensures
        v@.map_values(|s: String| s@) == names_of(*r),
{
    match r {
        Some(r) => r.to_vec(),
        None => {
            let v: Vec<String> = Vec::new();
            assert(v@.map_values(|s: String| s@) =~= Seq::<Seq<char>>::empty());
            v
        },
    }
}

/// The step that the plan entry `y` under `name` defines; fails only on a
/// threshold that is no decimal notation.
pub fn step_from_yaml(name: String, y: StepYaml) -> (r: Result<Step, String>)
    ensures
        match r {
            Ok(s) => {
                &&& s.name == name
                &&& s.description == y.description
                &&& runtype_matches(s.run, y)
                &&& s.on_fail == y.on_fail
                &&& s.filters@ == filters_of(y)
                &&& expect_matches(Ok::<ExpectType, String>(s.expect), y)
                &&& s.do_output == match y.do_output {
                    Some(b) => b,
                    None => true,
                }
                &&& s.outcome is None
                &&& s.retry == retry_policy_of(y)
                &&& s.require@.map_values(|n: String| n@) == names_of(y.require)
                &&& s.required_by@.map_values(|n: String| n@) == names_of(y.required_by)
            },
            Err(e) => expect_matches(Err::<ExpectType, String>(e), y),
        },
{
    let ghost y0 = y;
    let retry = get_retry_policy(&y);
    let require = requirement_vec(&y.require);
    let required_by = requirement_vec(&y.required_by);
    let StepYaml {
        description,
        value,
        bash,
        step,
        http,
        system,
        disk,
        matches,
        matches_not,
        filters,
        jmespath,
        regex,
        do_output,
        less_than,
        greater_than,
        on_fail,
        ..
    } = y;
    let expect = if let Some(m) = matches {
        ExpectType::Matches(m)
    } else if let Some(m) = matches_not {
        ExpectType::MatchesNot(m)
    } else if let Some(g) = greater_than {
        match threshold(g) {
            Ok(n) => ExpectType::GreaterThan(n),
            Err(e) => {
                return Err(e);
            },
        }
    } else if let Some(l) = less_than {
        match threshold(l) {
            Ok(n) => ExpectType::LessThan(n),
            Err(e) => {
                return Err(e);
            },
        }
    } else {
        ExpectType::Anything
    };
    let run = if let Some(s) = step {
        RunType::Step(s)
    } else if let Some(v) = bash {
        RunType::Bash(v)
    } else if let Some(v) = http {
        RunType::Http(v)
    } else if let Some(v) = system {
        RunType::System(v)
    } else if let Some(v) = disk {
        RunType::Disk(v)
    } else {
        match value {
            Some(v) => RunType::Value(v),
            None => RunType::Value(String::new()),
        }
    };
    let mut filters = filters;
    if let Some(j) = jmespath {
        filters.push(FilterType::JmesPath(j));
    }
    if let Some(v) = regex {
        filters.push(FilterType::Regex(v));
    }
    let do_output = match do_output {
        Some(b) => b,
        None => true,
    };
    Ok(
        Step {
            name,
            description,
            run,
            on_fail,
            filters,
            expect,
            do_output,
            outcome: None,
            retry,
            require,
            required_by,
        },
    )
}

} // verus!
