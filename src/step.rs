use vstd::prelude::*;

use crate::number::Number;

verus! {

/// The terminal record of one step's run.
#[derive(Clone, Debug, PartialEq, Eq)]
pub struct Outcome {
    pub output: Option<String>,
    pub error: Option<String>,
    pub on_fail_output: Option<String>,
    pub on_fail_error: Option<String>,
    /// Wall-clock time from pipeline entry to exit, in nanoseconds.
    pub duration_nanos: u128,
}

/// Error text of a step skipped because one of its ancestors failed.
pub open spec fn dependency_not_met_text() -> Seq<char> {
    "Dependency Not Met"@
}

impl Outcome {
    /// The outcome recorded for a step that never ran because a step it
    /// depends on failed.
    pub fn dependency_not_met() -> (r: Outcome)
        ensures
            r.output matches Some(o) && o@.len() == 0,
            r.error matches Some(e) && e@ == dependency_not_met_text(),
            r.on_fail_output.is_none(),
            r.on_fail_error.is_none(),
            r.duration_nanos == 0,
    {
        Outcome {
            output: Some(String::new()),
            error: Some(String::from_str("Dependency Not Met")),
            on_fail_output: None,
            on_fail_error: None,
            duration_nanos: 0,
        }
    }

    /// Whether the outcome marks a skipped step rather than a failed one.
    pub fn is_dependency_not_met(&self) -> (r: bool)
        ensures
            r == (self.error matches Some(e) && e@ == dependency_not_met_text()),
    {
        match &self.error {
            Some(e) => str_eq(e.as_str(), "Dependency Not Met"),
            None => false,
        }
    }
}

/// Character-wise equality of two strings.
pub fn str_eq(a: &str, b: &str) -> (r: bool)
    ensures
        r == (a@ == b@),
{
    let n = a.unicode_len();
    if n != b.unicode_len() {
        return false;
    }
    let mut i: usize = 0;
    while i < n
        invariant
            n == a@.len(),
            n == b@.len(),
            i <= n,
            forall|j: int| 0 <= j < i ==> a@[j] == b@[j],
        decreases n - i,
    {
        if a.get_char(i) != b.get_char(i) {
            return false;
        }
        i = i + 1;
    }
    assert(a@ =~= b@);
    true
}

/// How often and how slowly a step's action is retried.
#[derive(Default, Copy, Clone, Debug, PartialEq, Eq)]
pub struct RetryPolicy {
    pub retry_count: usize,
    pub retry_delay_ms: usize,
    pub initial_delay_ms: usize,
}


/// A step's dependency list as written in a plan: one name or several.
#[derive(Clone, Debug, PartialEq, Eq)]
pub enum Requirement {
    One(String),
    Many(Vec<String>),
}

/// The names that a requirement lists, in order.
pub open spec fn requirement_names(r: Requirement) -> Seq<Seq<char>> {
    match r {
        Requirement::One(s) => seq![s@],
        Requirement::Many(v) => v@.map_values(|s: String| s@),
    }
}

impl Requirement {
    /// The listed names, as a vector.
    pub fn to_vec(&self) -> (r: Vec<String>)
        ensures
            r@.map_values(|s: String| s@) == requirement_names(*self),
    {
        match self {
            Requirement::One(s) => {
                let mut v = Vec::new();
                v.push(s.clone());
                assert(v@.map_values(|s: String| s@) =~= seq![s@]);
                v
            },
            Requirement::Many(names) => clone_names(names),
        }
    }
}

/// A copy of a list of names.
pub fn clone_names(names: &Vec<String>) -> (r: Vec<String>)
    ensures
        r@.map_values(|s: String| s@) == names@.map_values(|s: String| s@),
{
    let mut out: Vec<String> = Vec::new();
    let mut i: usize = 0;
    while i < names.len()
        invariant
            i <= names@.len(),
            out@.map_values(|s: String| s@) == names@.subrange(0, i as int).map_values(
                |s: String| s@,
            ),
        decreases names@.len() - i,
    {
        out.push(names[i].clone());
        assert(names@.subrange(0, i + 1).map_values(|s: String| s@) =~= names@.subrange(
            0,
            i as int,
        ).map_values(|s: String| s@).push(names@[i as int]@));
        i = i + 1;
    }
    assert(names@.subrange(0, names@.len() as int) =~= names@);
    out
}

/// The probe a step performs.
#[derive(Clone, Debug, PartialEq, Eq)]
pub enum RunType {
    /// The current output of another step.
    Step(String),
    /// A literal value.
    Value(String),
    Bash(BashVariant),
    Http(HttpVariant),
    System(SystemVariant),
    Disk(DiskVariant),
}

/// A reading of the host's system information.
#[derive(Clone, Copy, Debug, PartialEq, Eq)]
pub enum SystemVariant {
    MemTotal,
    MemFree,
    MemAvailable,
    LoadAvg1m,
    LoadAvg5m,
    LoadAvg15m,
    DiskTotal,
    DiskFree,
}

/// A shell command, bare or with options.
#[derive(Clone, Debug, PartialEq, Eq)]
pub enum BashVariant {
    CmdOnly(String),
    Options(BashOptions),
}

#[derive(Clone, Debug, PartialEq, Eq)]
pub struct BashOptions {
    pub cmd: String,
    pub full_error: bool,
}

impl BashVariant {
    /// The command with its options made explicit.
    pub fn options(&self) -> (r: BashOptions)
        ensures
            match *self {
                BashVariant::CmdOnly(c) => r.cmd@ == c@ && !r.full_error,
                BashVariant::Options(o) => r.cmd@ == o.cmd@ && r.full_error == o.full_error,
            },
    {
        match self {
            BashVariant::CmdOnly(c) => BashOptions { cmd: c.clone(), full_error: false },
            BashVariant::Options(o) => BashOptions { cmd: o.cmd.clone(), full_error: o.full_error },
        }
    }
}

/// An HTTP request, by URL alone or with options.
#[derive(Clone, Debug, PartialEq, Eq)]
pub enum HttpVariant {
    UrlOnly(String),
    Options(Box<HttpOptions>),
}

/// Whether cookies are kept when a plan does not say.
pub fn default_cookies() -> (r: bool)
    ensures
        r,
{
    true
}

/// The expected response status when a plan does not say.
pub fn default_status() -> (r: u16)
    ensures
        r == 200,
{
    200
}

#[derive(Clone, Debug, PartialEq, Eq)]
pub struct HttpOptions {
    pub url: String,
    /// The request method's name, as written in the plan.
    pub method: String,
    pub save_cookies: bool,
    pub status: u16,
    pub headers: Option<Vec<(String, String)>>,
    pub user: Option<String>,
    pub body: Option<String>,
    pub pass: Option<String>,
    pub form: Option<Vec<(String, String)>>,
    pub multipart: Option<Vec<(String, MultipartValue)>>,
    pub verify_ssl: Option<bool>,
}

/// One part of a multipart body.
#[derive(Clone, Debug, PartialEq, Eq)]
pub enum MultipartValue {
    Value(String),
    Path(PathStruct),
    Step(StepStruct),
}

/// A value given literally or read from a file.
#[derive(Clone, Debug, PartialEq, Eq)]
pub enum PathOrValue {
    Value(String),
    Path(PathStruct),
}

#[derive(Clone, Debug, PartialEq, Eq)]
pub struct PathStruct {
    pub file: String,
}

#[derive(Clone, Debug, PartialEq, Eq)]
pub struct StepStruct {
    pub step: String,
}

/// A reading of the file system statistics of one mount point.
#[derive(Clone, Debug, PartialEq, Eq)]
pub enum DiskVariant {
    MountPointOnly(String),
    Options(DiskOptions),
}

#[derive(Clone, Debug, PartialEq, Eq)]
pub struct DiskOptions {
    pub mount: String,
    pub disk_type: DiskType,
    pub output_type: OutputType,
}

#[derive(Clone, Copy, Debug, PartialEq, Eq)]
pub enum DiskType {
    Size,
    Used,
    Free,
}

#[derive(Clone, Copy, Debug, PartialEq, Eq)]
pub enum OutputType {
    Bytes,
    Human,
    Percent,
}

impl DiskVariant {
    /// The mount point with its options made explicit: a bare mount point
    /// reads free space in bytes.
    pub fn options(&self) -> (r: DiskOptions)
        ensures
            match *self {
                DiskVariant::MountPointOnly(m) => r.mount@ == m@ && r.disk_type == DiskType::Free
                    && r.output_type == OutputType::Bytes,
                DiskVariant::Options(o) => r.mount@ == o.mount@ && r.disk_type == o.disk_type
                    && r.output_type == o.output_type,
            },
    {
        match self {
            DiskVariant::MountPointOnly(m) => DiskOptions {
                mount: m.clone(),
                disk_type: DiskType::Free,
                output_type: OutputType::Bytes,
            },
            DiskVariant::Options(o) => DiskOptions {
                mount: o.mount.clone(),
                disk_type: o.disk_type,
                output_type: o.output_type,
            },
        }
    }
}

/// A transform applied to a step's output.
#[derive(Clone, Debug, PartialEq, Eq)]
pub enum FilterType {
    NoOutput,
    Regex(RegexVariant),
    JmesPath(String),
}

/// A regex filter: a pattern alone, or a pattern and a capture group.
#[derive(Clone, Debug, PartialEq, Eq)]
pub enum RegexVariant {
    MatchOnly(String),
    Options(RegexOptions),
}

#[derive(Clone, Debug, PartialEq, Eq)]
pub struct RegexOptions {
    pub matches: String,
    /// A group number, or else a group name.
    pub group: String,
}

impl RegexVariant {
    /// The pattern and group; a bare pattern selects group `0`.
    pub fn options(&self) -> (r: RegexOptions)
        ensures
            match *self {
                RegexVariant::MatchOnly(p) => r.matches@ == p@ && r.group@ == "0"@,
                RegexVariant::Options(o) => r.matches@ == o.matches@ && r.group@ == o.group@,
            },
    {
        match self {
            RegexVariant::MatchOnly(p) => RegexOptions {
                matches: p.clone(),
                group: String::from_str("0"),
            },
            RegexVariant::Options(o) => RegexOptions {
                matches: o.matches.clone(),
                group: o.group.clone(),
            },
        }
    }
}

/// The check that a step's filtered output must pass.
#[derive(Clone, Debug, PartialEq, Eq)]
pub enum ExpectType {
    Anything,
    Matches(String),
    MatchesNot(String),
    GreaterThan(Number),
    LessThan(Number),
}

impl Default for ExpectType {
    /// Anything passes.
    fn default() -> (r: ExpectType)
        ensures
            r == ExpectType::Anything,
    {
        ExpectType::Anything
    }
}

impl Default for DiskType {
    /// Free space.
    fn default() -> (r: DiskType)
        ensures
            r == DiskType::Free,
    {
        DiskType::Free
    }
}

impl Default for OutputType {
    /// Bytes.
    fn default() -> (r: OutputType)
        ensures
            r == OutputType::Bytes,
    {
        OutputType::Bytes
    }
}

/// A step's definition as loaded from a plan, with its outcome once run.
#[derive(Clone, Debug, PartialEq, Eq)]
pub struct Step {
    pub name: String,
    pub description: Option<String>,
    pub run: RunType,
    pub on_fail: Option<RunType>,
    pub filters: Vec<FilterType>,
    pub expect: ExpectType,
    pub do_output: bool,
    pub outcome: Option<Outcome>,
    pub retry: RetryPolicy,
    pub require: Vec<String>,
    pub required_by: Vec<String>,
}

} // verus!
