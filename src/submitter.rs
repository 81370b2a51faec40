use vstd::prelude::*;

use crate::step::{Outcome, Step};
use crate::text::{digits_of, digits_text, push_char};

verus! {

/// The public record of one step's result, as sinks receive it.
#[derive(Clone, Debug, PartialEq, Eq)]
pub struct StepResult {
    pub name: String,
    pub description: Option<String>,
    pub pass: bool,
    pub output: String,
    pub error: Option<String>,
    pub on_fail_output: Option<String>,
    pub on_fail_error: Option<String>,
    /// How long the step took, in nanoseconds.
    pub duration_nanos: u128,
}

pub open spec fn opt_text(o: Option<String>) -> Option<Seq<char>> {
    match o {
        Some(s) => Some(s@),
        None => None,
    }
}

/// The record of a step: passed when its outcome has no error; its output
/// shown only when the step asks for it; a step without an outcome counts
/// as not finished.
pub open spec fn result_matches_step(r: StepResult, step: Step) -> bool {
    &&& r.name@ == step.name@
    &&& opt_text(r.description) == opt_text(step.description)
    &&& match step.outcome {
        Some(o) => {
            &&& r.pass == o.error is None
            &&& r.output@ == if step.do_output {
                match o.output {
                    Some(s) => s@,
                    None => Seq::empty(),
                }
            } else {
                Seq::empty()
            }
            &&& opt_text(r.error) == opt_text(o.error)
            &&& opt_text(r.on_fail_output) == opt_text(o.on_fail_output)
            &&& opt_text(r.on_fail_error) == opt_text(o.on_fail_error)
            &&& r.duration_nanos == o.duration_nanos
        },
        None => {
            &&& !r.pass
            &&& r.output@.len() == 0
            &&& opt_text(r.error) == Some("Not finished"@)
            &&& r.on_fail_output is None
            &&& r.on_fail_error is None
            &&& r.duration_nanos == 0
        },
    }
}

fn clone_opt(o: &Option<String>) -> (r: Option<String>)
    ensures
        opt_text(r) == opt_text(*o),
{
    match o {
        Some(s) => Some(s.clone()),
        None => None,
    }
}

impl StepResult {
    /// The record of a step.
    pub fn from_step(step: &Step) -> (r: StepResult)
        ensures
            result_matches_step(r, *step),
    {
        let name = step.name.clone();
        let description = clone_opt(&step.description);
        match &step.outcome {
            Some(o) => {
                let output = if step.do_output {
                    match &o.output {
                        Some(s) => s.clone(),
                        None => String::new(),
                    }
                } else {
                    String::new()
                };
                StepResult {
                    name,
                    description,
                    pass: o.error.is_none(),
                    output,
                    error: clone_opt(&o.error),
                    on_fail_output: clone_opt(&o.on_fail_output),
                    on_fail_error: clone_opt(&o.on_fail_error),
                    duration_nanos: o.duration_nanos,
                }
            },
            None => StepResult {
                name,
                description,
                pass: false,
                output: String::new(),
                error: Some(String::from_str("Not finished")),
                on_fail_output: None,
                on_fail_error: None,
                duration_nanos: 0,
            },
        }
    }
}

impl Step {
    /// The step with its outcome attached.
    pub fn with_outcome(self, outcome: Outcome) -> (r: Step)
        ensures
            r == (Step { outcome: Some(outcome), ..self }),
    {
        Step { outcome: Some(outcome), ..self }
    }
}

/// The record that stands in for the whole plan when it could not be read,
/// parsed or run: a failed step named `lorikeet` whose error is `message`.
pub fn step_from_error(message: String) -> (r: StepResult)
    ensures
        r.name@ == "lorikeet"@,
        opt_text(r.description) == Some(
            "This step is shown if there was an error when reading, parsing or running steps"@,
        ),
        !r.pass,
        r.output@.len() == 0,
        opt_text(r.error) == Some(message@),
        r.on_fail_output is None,
        r.on_fail_error is None,
        r.duration_nanos == 0,
{
    StepResult {
        name: String::from_str("lorikeet"),
        description: Some(
            String::from_str(
                "This step is shown if there was an error when reading, parsing or running steps",
            ),
        ),
        pass: false,
        output: String::new(),
        error: Some(message),
        on_fail_output: None,
        on_fail_error: None,
        duration_nanos: 0,
    }
}

/// The characters that Rust's `char::is_whitespace` accepts: Unicode's
/// `White_Space`.
pub open spec fn is_white(c: char) -> bool {
    ('\u{9}' <= c && c <= '\u{D}') || c == ' ' || c == '\u{85}' || c == '\u{A0}' || c == '\u{1680}'
        || ('\u{2000}' <= c && c <= '\u{200A}') || c == '\u{2028}' || c == '\u{2029}' || c
        == '\u{202F}' || c == '\u{205F}' || c == '\u{3000}'
}

/// Whether `s` holds nothing but whitespace.
pub open spec fn is_blank(s: Seq<char>) -> bool {
    forall|i: int| 0 <= i < s.len() ==> is_white(s[i])
}

/// `s` with each line break followed by four spaces.
pub open spec fn indented(s: Seq<char>) -> Seq<char>
    decreases s.len(),
{
    if s.len() == 0 {
        s
    } else if s.last() == '\n' {
        indented(s.drop_last()) + "\n    "@
    } else {
        indented(s.drop_last()).push(s.last())
    }
}

fn blank(s: &str) -> (r: bool)
    ensures
        r == is_blank(s@),
{
    for c in it: s.chars()
        invariant
            it.seq() == s@,
            forall|i: int| 0 <= i < it.index() ==> is_white(s@[i]),
    {
        if !(('\u{9}' <= c && c <= '\u{D}') || c == ' ' || c == '\u{85}' || c == '\u{A0}' || c
            == '\u{1680}' || ('\u{2000}' <= c && c <= '\u{200A}') || c == '\u{2028}' || c
            == '\u{2029}' || c == '\u{202F}' || c == '\u{205F}' || c == '\u{3000}') {
            return false;
        }
    }
    true
}

fn push_indented(out: &mut String, s: &str)
    ensures
        final(out)@ == old(out)@ + indented(s@),
{
    let ghost base = out@;
    for c in it: s.chars()
        invariant
            it.seq() == s@,
            out@ == base + indented(s@.subrange(0, it.index() as int)),
    {
        let ghost i = it.index();
        assert(s@.subrange(0, i + 1).drop_last() =~= s@.subrange(0, i as int));
        if c == '\n' {
            out.append("\n    ");
        } else {
            push_char(out, c);
        }
    }
    assert(s@.subrange(0, s@.len() as int) =~= s@);
}

fn contains_newline(s: &str) -> (r: bool)
    ensures
        r == s@.contains('\n'),
{
    for c in it: s.chars()
        invariant
            it.seq() == s@,
            forall|i: int| 0 <= i < it.index() ==> s@[i] != '\n',
    {
        if c == '\n' {
            assert(s@[it.index() as int] == '\n');
            return true;
        }
    }
    false
}

pub open spec fn description_part(r: StepResult) -> Seq<char> {
    match r.description {
        Some(d) => "  description: "@ + d@ + "\n"@,
        None => Seq::empty(),
    }
}

pub open spec fn pass_part(r: StepResult) -> Seq<char> {
    "  pass: "@ + if r.pass {
        "true"@
    } else {
        "false"@
    } + "\n"@
}

pub open spec fn output_part(r: StepResult) -> Seq<char> {
    if r.output@.len() == 0 {
        Seq::empty()
    } else if r.output@.contains('\n') {
        "  output: |\n    "@ + indented(r.output@) + "\n"@
    } else {
        "  output: "@ + r.output@ + "\n"@
    }
}

pub open spec fn error_part(r: StepResult) -> Seq<char> {
    match r.error {
        Some(e) => "  error: "@ + e@ + "\n"@,
        None => Seq::empty(),
    }
}

pub open spec fn on_fail_output_part(r: StepResult) -> Seq<char> {
    match r.on_fail_output {
        Some(o) => if is_blank(o@) {
            Seq::empty()
        } else {
            "  on_fail_output: "@ + o@ + "\n"@
        },
        None => Seq::empty(),
    }
}

pub open spec fn on_fail_error_part(r: StepResult) -> Seq<char> {
    match r.on_fail_error {
        Some(e) => "  on_fail_error: "@ + e@ + "\n"@,
        None => Seq::empty(),
    }
}

/// The text that shows a result on a terminal, its duration given as
/// `duration` milliseconds: its name, description, pass, output (indented
/// when it spans lines), error, non-blank `on_fail` output, `on_fail`
/// error, and duration, each present field on a line of its own.
pub open spec fn terminal_text(r: StepResult, duration: Seq<char>) -> Seq<char> {
    "- name: "@ + r.name@ + "\n"@ + description_part(r) + pass_part(r) + output_part(r)
        + error_part(r) + on_fail_output_part(r) + on_fail_error_part(r) + "  duration: "@
        + duration + "ms\n"@
}

fn push_line(m: &mut String, key: &str, value: &str)
    ensures
        final(m)@ == old(m)@ + key@ + value@ + "\n"@,
{
    m.append(key);
    m.append(value);
    m.append("\n");
    assert(final(m)@ =~= old(m)@ + key@ + value@ + "\n"@);
}

fn push_optional(m: &mut String, key: &str, value: &Option<String>)
    ensures
        final(m)@ == old(m)@ + match *value {
            Some(v) => key@ + v@ + "\n"@,
            None => Seq::empty(),
        },
{
    match value {
        Some(v) => {
            push_line(m, key, v.as_str());
            assert(final(m)@ =~= old(m)@ + (key@ + v@ + "\n"@));
        },
        None => {
            assert(m@ =~= m@ + Seq::<char>::empty());
        },
    }
}

fn push_output(m: &mut String, r: &StepResult)
    ensures
        final(m)@ == old(m)@ + output_part(*r),
{
    if r.output.as_str().unicode_len() > 0 {
        if contains_newline(r.output.as_str()) {
            m.append("  output: |\n    ");
            push_indented(m, r.output.as_str());
            m.append("\n");
            assert(final(m)@ =~= old(m)@ + ("  output: |\n    "@ + indented(r.output@) + "\n"@));
        } else {
            push_line(m, "  output: ", r.output.as_str());
            assert(final(m)@ =~= old(m)@ + ("  output: "@ + r.output@ + "\n"@));
        }
    } else {
        assert(m@ =~= m@ + Seq::<char>::empty());
    }
}

fn push_on_fail_output(m: &mut String, r: &StepResult)
    ensures
        final(m)@ == old(m)@ + on_fail_output_part(*r),
{
    match &r.on_fail_output {
        Some(o) => {
            if !blank(o.as_str()) {
                push_line(m, "  on_fail_output: ", o.as_str());
                assert(final(m)@ =~= old(m)@ + ("  on_fail_output: "@ + o@ + "\n"@));
            } else {
                assert(m@ =~= m@ + Seq::<char>::empty());
            }
        },
        None => {
            assert(m@ =~= m@ + Seq::<char>::empty());
        },
    }
}

impl StepResult {
    /// The text that shows the result on a terminal, with `duration` as
    /// the duration in milliseconds.
    pub fn terminal_message(&self, duration: &str) -> (m: String)
        ensures
            m@ == terminal_text(*self, duration@),
    {
        let mut m = String::new();
        push_line(&mut m, "- name: ", self.name.as_str());
        let ghost m0 = m@;
        push_optional(&mut m, "  description: ", &self.description);
        let ghost m1 = m@;
        push_line(
            &mut m,
            "  pass: ",
            if self.pass {
                "true"
            } else {
                "false"
            },
        );
        let ghost m2 = m@;
        push_output(&mut m, self);
        let ghost m3 = m@;
        push_optional(&mut m, "  error: ", &self.error);
        let ghost m4 = m@;
        push_on_fail_output(&mut m, self);
        let ghost m5 = m@;
        push_optional(&mut m, "  on_fail_error: ", &self.on_fail_error);
        let ghost m6 = m@;
        m.append("  duration: ");
        m.append(duration);
        m.append("ms\n");
        proof {
            assert(m0 =~= "- name: "@ + self.name@ + "\n"@);
            assert(m1 == m0 + description_part(*self));
            assert(m2 =~= m1 + pass_part(*self));
            assert(m4 == m3 + error_part(*self));
            assert(m6 == m5 + on_fail_error_part(*self));
            assert(m@ =~= m6 + "  duration: "@ + duration@ + "ms\n"@);
        }
        m
    }
}

/// How many results did not pass.
pub open spec fn not_passed_count(rs: Seq<StepResult>) -> nat
    decreases rs.len(),
{
    if rs.len() == 0 {
        0
    } else {
        not_passed_count(rs.drop_last()) + if rs.last().pass {
            0nat
        } else {
            1nat
        }
    }
}

proof fn lemma_not_passed_bounded(rs: Seq<StepResult>)
    ensures
        not_passed_count(rs) <= rs.len(),
    decreases rs.len(),
{
    if rs.len() > 0 {
        lemma_not_passed_bounded(rs.drop_last());
    }
}

/// Counts the results that did not pass.
pub fn count_not_passed(results: &[StepResult]) -> (n: usize)
    ensures
        n == not_passed_count(results@),
{
    let mut n: usize = 0;
    let mut i: usize = 0;
    while i < results.len()
        invariant
            i <= results@.len(),
            n == not_passed_count(results@.subrange(0, i as int)),
        decreases results@.len() - i,
    {
        let ghost p = results@.subrange(0, i + 1);
        assert(p.drop_last() =~= results@.subrange(0, i as int));
        proof {
            lemma_not_passed_bounded(p);
        }
        if !results[i].pass {
            n = n + 1;
        }
        i = i + 1;
    }
    assert(results@.subrange(0, results@.len() as int) =~= results@);
    n
}

/// The title of a chat message about failed results:
/// "N Error(s) from `HOST`".
pub open spec fn chat_title_text(n: nat, hostname: Seq<char>) -> Seq<char> {
    digits_of(n) + " Error"@ + if n == 1 {
        Seq::empty()
    } else {
        "s"@
    } + " from `"@ + hostname + "`"@
}

/// The title of a chat message about the results; `None` when all passed,
/// and no message is sent.
pub fn chat_title(results: &[StepResult], hostname: &str) -> (r: Option<String>)
    ensures
        not_passed_count(results@) == 0 <==> r is None,
        r matches Some(t) ==> t@ == chat_title_text(not_passed_count(results@), hostname@),
{
    let n = count_not_passed(results);
    if n == 0 {
        return None;
    }
    let mut t = digits_text(n as u128);
    t.append(" Error");
    if n != 1 {
        t.append("s");
    }
    t.append(" from `");
    t.append(hostname);
    t.append("`");
    assert(t@ =~= chat_title_text(n as nat, hostname@));
    Some(t)
}

/// The text of a chat message's section about one result, its duration
/// given as `duration` milliseconds.
pub open spec fn chat_section_text(r: StepResult, duration: Seq<char>) -> Seq<char> {
    "*Name*: "@ + r.name@ + match r.description {
        Some(d) => ", *Description*: "@ + d@ + "\n\n"@,
        None => "\n\n"@,
    } + match r.error {
        Some(e) => "*Error*: "@ + e@ + "\n\n"@,
        None => Seq::empty(),
    } + if r.output@.len() == 0 {
        "*Duration*: ("@
    } else {
        "*Output*: ("@
    } + duration + "ms)\n\n"@
}

impl StepResult {
    /// The text of a chat message's section about this result.
    pub fn chat_section(&self, duration: &str) -> (t: String)
        ensures
            t@ == chat_section_text(*self, duration@),
    {
        let mut t = String::from_str("*Name*: ");
        t.append(self.name.as_str());
        let ghost t0 = t@;
        match &self.description {
            Some(d) => {
                t.append(", *Description*: ");
                t.append(d.as_str());
                t.append("\n\n");
            },
            None => t.append("\n\n"),
        }
        let ghost t1 = t@;
        match &self.error {
            Some(e) => {
                t.append("*Error*: ");
                t.append(e.as_str());
                t.append("\n\n");
            },
            None => {},
        }
        let ghost t2 = t@;
        if self.output.as_str().unicode_len() == 0 {
            t.append("*Duration*: (");
        } else {
            t.append("*Output*: (");
        }
        t.append(duration);
        t.append("ms)\n\n");
        proof {
            assert(t1 =~= t0 + match self.description {
                Some(d) => ", *Description*: "@ + d@ + "\n\n"@,
                None => "\n\n"@,
            });
            assert(t2 =~= t1 + match self.error {
                Some(e) => "*Error*: "@ + e@ + "\n\n"@,
                None => Seq::<char>::empty(),
            });
        }
        assert(t@ =~= chat_section_text(*self, duration@));
        t
    }
}

/// How many bytes UTF-8 takes for `c`.
pub open spec fn utf8_len(c: char) -> nat {
    if (c as u32) < 0x80 {
        1
    } else if (c as u32) < 0x800 {
        2
    } else if (c as u32) < 0x10000 {
        3
    } else {
        4
    }
}

/// How many bytes UTF-8 takes for `s`.
pub open spec fn byte_len(s: Seq<char>) -> nat
    decreases s.len(),
{
    if s.len() == 0 {
        0
    } else {
        byte_len(s.drop_last()) + utf8_len(s.last())
    }
}

/// How many characters of `s`, from its start, fit in `limit` bytes.
pub open spec fn fit_count(s: Seq<char>, limit: int) -> nat
    decreases s.len(),
{
    if s.len() == 0 {
        0
    } else if byte_len(s) <= limit {
        s.len()
    } else {
        fit_count(s.drop_last(), limit)
    }
}

/// The index of the last whitespace character of `s`.
pub open spec fn last_white(s: Seq<char>) -> Option<nat>
    decreases s.len(),
{
    if s.len() == 0 {
        None
    } else if is_white(s.last()) {
        Some((s.len() - 1) as nat)
    } else {
        last_white(s.drop_last())
    }
}

proof fn lemma_last_white_bound(t: Seq<char>)
    ensures
        last_white(t) matches Some(w) ==> w < t.len(),
    decreases t.len(),
{
    if t.len() > 0 {
        lemma_last_white_bound(t.drop_last());
    }
}

/// `s` cut to at most `len` bytes: whole when it fits; otherwise cut at
/// the last whitespace among the characters that fit in `len + 1` bytes,
/// or else after the characters that fit in `len` bytes, and marked with
/// `...`.
pub open spec fn truncated(s: Seq<char>, len: int) -> Seq<char> {
    if byte_len(s) <= len {
        s
    } else {
        let cut = match last_white(s.subrange(0, fit_count(s, len + 1) as int)) {
            Some(w) => w,
            None => fit_count(s, len),
        };
        s.subrange(0, cut as int) + "..."@
    }
}

/// Cuts `input` to at most `len` bytes of text, as `truncated` says.
pub fn truncate(input: &str, len: usize) -> (r: String)
    ensures
        r@ == truncated(input@, len as int),
{
    let limit1: u128 = len as u128 + 1;
    let mut cum: u128 = 0;
    let mut fit1: usize = 0;
    let mut fit0: usize = 0;
    let mut white: Option<usize> = None;
    let total = input.unicode_len();
    let mut idx: usize = 0;
    for c in it: input.chars()
        invariant
            it.seq() == input@,
            total == input@.len(),
            idx == it.index(),
            limit1 == len + 1,
            cum == byte_len(input@.subrange(0, it.index() as int)),
            cum <= 4 * it.index(),
            fit1 == fit_count(input@.subrange(0, it.index() as int), len + 1),
            fit0 == fit_count(input@.subrange(0, it.index() as int), len as int),
            fit1 <= it.index(),
            fit0 <= it.index(),
            cum <= limit1 ==> fit1 == it.index(),
            white == match last_white(input@.subrange(0, fit1 as int)) {
                Some(w) => Some(w as usize),
                None => None::<usize>,
            },
            forall|w: usize| white == Some(w) ==> w < fit1,
    {
        let ghost i = it.index();
        let ghost p = input@.subrange(0, i + 1);
        assert(p.drop_last() =~= input@.subrange(0, i as int));
        assert(p.last() == c);
        let u = c as u32;
        let n: u128 = if u < 0x80 {
            1
        } else if u < 0x800 {
            2
        } else if u < 0x10000 {
            3
        } else {
            4
        };
        cum = cum + n;
        if cum <= len as u128 {
            fit0 = idx + 1;
        }
        if cum <= limit1 {
            fit1 = idx + 1;
            if ('\u{9}' <= c && c <= '\u{D}') || c == ' ' || c == '\u{85}' || c == '\u{A0}' || c
                == '\u{1680}' || ('\u{2000}' <= c && c <= '\u{200A}') || c == '\u{2028}' || c
                == '\u{2029}' || c == '\u{202F}' || c == '\u{205F}' || c == '\u{3000}' {
                white = Some(idx);
            }
            assert(input@.subrange(0, fit1 as int) =~= p);
        }
        idx = idx + 1;
    }
    assert(input@.subrange(0, input@.len() as int) =~= input@);
    if cum <= len as u128 {
        return String::from_str(input);
    }
    let cut = match white {
        Some(w) => w,
        None => fit0,
    };
    proof {
        let sc = match last_white(input@.subrange(0, fit_count(input@, len + 1) as int)) {
            Some(w) => w,
            None => fit_count(input@, len as int),
        };
        match last_white(input@.subrange(0, fit1 as int)) {
            Some(w) => {
                lemma_last_white_bound(input@.subrange(0, fit1 as int));
                assert(white == Some(w as usize));
                assert(w < fit1);
                assert(cut as int == w);
            },
            None => {},
        }
        assert(cut as int == sc);
    }
    let mut r = String::new();
    let mut k: usize = 0;
    for c in it: input.chars()
        invariant
            it.seq() == input@,
            cut <= input@.len(),
            k == if it.index() < cut { it.index() as usize } else { cut },
            r@ == input@.subrange(0, k as int),
    {
        if k < cut {
            push_char(&mut r, c);
            k = k + 1;
            assert(r@ =~= input@.subrange(0, k as int));
        }
    }
    r.append("...");
    assert(r@ =~= truncated(input@, len as int));
    r
}

/// A step skipped because a step it depends on failed is reported as not
/// passed, with the error `Dependency Not Met` and no time taken.
pub proof fn lemma_skipped_step_result(step: Step, r: StepResult)
    requires
        step.outcome matches Some(o) && o.error matches Some(e) && e@
            == crate::step::dependency_not_met_text() && o.duration_nanos == 0,
        result_matches_step(r, step),
    ensures
        !r.pass,
        opt_text(r.error) == Some(crate::step::dependency_not_met_text()),
        r.duration_nanos == 0,
{
}

} // verus!
