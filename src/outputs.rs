use vstd::prelude::*;

use chashmap::CHashMap;

use crate::filter::regex_error_text;
use crate::matching::{compile_regex, regex_compile_error, regex_replace_all, replace_all};
use crate::step::{Outcome, RunType};

verus! {

/// chashmap's concurrent `CHashMap`, held opaque: what it holds is
/// `stored_outputs`.
#[verifier::external_type_specification]
#[verifier::external_body]
#[verifier::reject_recursive_types(K)]
#[verifier::reject_recursive_types(V)]
pub struct ExCHashMap<K, V>(CHashMap<K, V>);

/// The entries of a concurrent map of step names to outputs.
pub uninterp spec fn stored_outputs(m: CHashMap<String, String>) -> Map<Seq<char>, Seq<char>>;

/// Relies on chashmap's `CHashMap::new`: an empty map.
#[verifier::external_body]
fn new_map() -> (r: CHashMap<String, String>)
    ensures
        (stored_outputs(r) == Map::<Seq<char>, Seq<char>>::empty()),
{
    CHashMap::new()
}

/// Relies on chashmap's `CHashMap::insert`: the key maps to the value,
/// replacing what it mapped to before.
#[verifier::external_body]
fn insert(m: &mut CHashMap<String, String>, key: String, value: String)
    ensures
        stored_outputs(*final(m)) == stored_outputs(*old(m)).insert(key@, value@),
{
    m.insert(key, value);
}

/// Relies on chashmap's `CHashMap::get`: the value under the key, copied.
#[verifier::external_body]
fn lookup(m: &CHashMap<String, String>, key: &str) -> (r: Option<String>)
    ensures
        r is Some <==> stored_outputs(*m).dom().contains(key@),
        r matches Some(v) ==> stored_outputs(*m)[key@] == v@,
{
    m.get(key).map(|v| (*v).clone())
}

/// Relies on chashmap's `Clone for CHashMap`: a map with the same entries.
#[verifier::external_body]
fn copy_map(m: &CHashMap<String, String>) -> (r: CHashMap<String, String>)
    ensures
        stored_outputs(r) == stored_outputs(*m),
{
    m.clone()
}

/// tera's `Tera`, a set of parsed templates, held opaque.
#[verifier::external_type_specification]
#[verifier::external_body]
pub struct ExTera(tera::Tera);

/// Why `text` is no template that tera can parse, as its error's `Display`
/// text gives it; `None` when it parses.
pub uninterp spec fn template_parse_error(name: Seq<char>, text: Seq<char>) -> Option<Seq<char>>;

/// A parsed template set with the text of its one template.
pub struct ParsedTemplate {
    tera: tera::Tera,
    text: String,
}

impl ParsedTemplate {
    pub closed spec fn text(&self) -> Seq<char> {
        self.text@
    }
}

/// Relies on tera's `Tera::add_raw_template` on a `Tera::default()`: the
/// template is parsed under `name`, or the error's `Display` text returned.
#[verifier::external_body]
fn parse_template(name: &str, text: &str) -> (r: Result<ParsedTemplate, String>)
    ensures
        r is Ok <==> template_parse_error(name@, text@) is None,
        r matches Ok(p) ==> p.text() == text@,
        r matches Err(e) ==> template_parse_error(name@, text@) == Some(e@),
{
    let mut t = tera::Tera::default();
    match t.add_raw_template(name, text) {
        Ok(()) => Ok(ParsedTemplate { tera: t, text: text.to_string() }),
        Err(e) => Err(e.to_string()),
    }
}

pub open spec fn is_name_char(c: char) -> bool {
    ('a' <= c && c <= 'z') || ('A' <= c && c <= 'Z') || ('0' <= c && c <= '9') || c == '_'
}

pub open spec fn lookup_marker() -> Seq<char> {
    "{{step_output."@
}

/// At `i` stands `{{step_output.NAME}}`, with `k` name characters in `NAME`.
pub open spec fn lookup_at(t: Seq<char>, i: int, k: int) -> bool {
    &&& k >= 1
    &&& 0 <= i
    &&& i + 16 + k <= t.len()
    &&& t.subrange(i, i + 14) == lookup_marker()
    &&& forall|j: int| 0 <= j < k ==> #[trigger] is_name_char(t[i + 14 + j])
    &&& t[i + 14 + k] == '}'
    &&& t[i + 15 + k] == '}'
}

/// A template whose only template syntax is lookups `{{step_output.NAME}}`:
/// no statement or comment tag, and each expression tag such a lookup.
/// Rendering one does no arithmetic, which in tera can panic on a float
/// that overflows.
pub open spec fn plain_template(t: Seq<char>) -> bool {
    forall|i: int|
        0 <= i < t.len() - 1 && #[trigger] t[i] == '{' ==> t[i + 1] != '%' && t[i + 1] != '#' && (
        t[i + 1] == '{' ==> exists|k: int| lookup_at(t, i, k))
}

/// Relies on tera's `Tera::render` of the template `name`, in a context
/// where `key` holds the map's entries; an error comes back as its `Debug`
/// text. Tera's functions can read the process environment, so nothing is
/// promised of the result. Arithmetic on floats can panic in tera, so only
/// templates without it are admitted.
#[verifier::external_body]
fn render_template(t: &ParsedTemplate, name: &str, key: &str, m: &CHashMap<String, String>) -> (r: Result<
    String,
    String,
>)
    requires
        plain_template(t.text()),
{
    let entries: std::collections::HashMap<String, String> = m.clone().into_iter().collect();
    let mut context = tera::Context::new();
    context.insert(key, &entries);
    t.tera.render(name, &context).map_err(|e| format!("{:?}", e))
}

/// Whether a lookup `{{step_output.NAME}}` stands at `i` of `cs`.
fn lookup_checked(cs: &Vec<char>, i: usize) -> (r: bool)
    ensures
        r == exists|k: int| lookup_at(cs@, i as int, k),
{
    let n = cs.len();
    let p = "{{step_output.";
    proof {
        reveal_strlit("{{step_output.");
    }
    if n < 16 || i > n - 16 {
        proof {
            assert forall|k: int| !lookup_at(cs@, i as int, k) by {}
        }
        return false;
    }
    let mut j: usize = 0;
    while j < 14
        invariant
            j <= 14,
            i + 16 <= n,
            n == cs@.len(),
            p@ == lookup_marker(),
            p@.len() == 14,
            forall|x: int| 0 <= x < j ==> cs@[i + x] == p@[x],
        decreases 14 - j,
    {
        if cs[i + j] != p.get_char(j) {
            proof {
                assert forall|k: int| !lookup_at(cs@, i as int, k) by {
                    if lookup_at(cs@, i as int, k) {
                        assert(cs@.subrange(i as int, i + 14)[j as int] == p@[j as int]);
                    }
                }
            }
            return false;
        }
        j = j + 1;
    }
    assert(cs@.subrange(i as int, i + 14) =~= lookup_marker());
    let start = i + 14;
    let mut e = start;
    while e < n && (('a' <= cs[e] && cs[e] <= 'z') || ('A' <= cs[e] && cs[e] <= 'Z') || ('0'
        <= cs[e] && cs[e] <= '9') || cs[e] == '_')
        invariant
            start <= e <= n,
            n == cs@.len(),
            forall|x: int| start <= x < e ==> is_name_char(cs@[x]),
        decreases n - e,
    {
        e = e + 1;
    }
    let k = e - start;
    if k >= 1 && n - e >= 2 && cs[e] == '}' && cs[e + 1] == '}' {
        assert forall|x: int| 0 <= x < k implies #[trigger] is_name_char(cs@[i + 14 + x]) by {
            assert(is_name_char(cs@[start + x]));
        }
        assert(lookup_at(cs@, i as int, k as int));
        true
    } else {
        proof {
            assert forall|k2: int| !lookup_at(cs@, i as int, k2) by {
                if lookup_at(cs@, i as int, k2) {
                    if k2 < k {
                        assert(is_name_char(cs@[i + 14 + k2]));
                    } else if k2 > k {
                        assert(is_name_char(cs@[i + 14 + k]));
                        assert(e < n);
                    }
                }
            }
        }
        false
    }
}

/// Whether `t` is a plain template, as `plain_template` says.
pub fn plain_template_checked(t: &str) -> (r: bool)
    ensures
        r == plain_template(t@),
{
    let mut cs: Vec<char> = Vec::new();
    for c in it: t.chars()
        invariant
            it.seq() == t@,
            cs@ == t@.subrange(0, it.index() as int),
    {
        cs.push(c);
        assert(cs@ =~= t@.subrange(0, it.index() + 1));
    }
    assert(cs@ =~= t@);
    let n = cs.len();
    let mut i: usize = 0;
    while n > 0 && i < n - 1
        invariant
            n == cs@.len(),
            n > 0 ==> i <= n - 1,
            cs@ == t@,
            forall|x: int|
                0 <= x < i && x < n - 1 && #[trigger] cs@[x] == '{' ==> cs@[x + 1] != '%'
                    && cs@[x + 1] != '#' && (cs@[x + 1] == '{' ==> exists|k: int|
                    lookup_at(cs@, x, k)),
        decreases n - i,
    {
        if cs[i] == '{' {
            if cs[i + 1] == '%' || cs[i + 1] == '#' {
                return false;
            }
            if cs[i + 1] == '{' && !lookup_checked(&cs, i) {
                return false;
            }
        }
        i = i + 1;
    }
    true
}

/// What a rendered request body becomes: the text, or the rendering error
/// marked as such.
pub fn rendering_result(r: Result<String, String>) -> (b: Result<String, String>)
    ensures
        match r {
            Ok(x) => b matches Ok(y) && y@ == x@,
            Err(e) => b matches Err(m) && m@ == "Template Rendering Error: "@ + e@,
        },
{
    match r {
        Ok(x) => Ok(x),
        Err(e) => {
            let mut m = String::from_str("Template Rendering Error: ");
            m.append(e.as_str());
            Err(m)
        },
    }
}

pub open spec fn plain_template_error() -> Seq<char> {
    "Template Error: a request body that refers to a step's output may hold no other template syntax"@
}

/// The pattern of a reference to a step's output in a request body:
/// `${step_output.NAME}`.
pub open spec fn step_output_pattern() -> Seq<char> {
    "\\$\\{(step_output.[^}]+)\\}"@
}

/// The outputs of the steps that succeeded so far, by step name: what a
/// reference action, a multipart part taken from a step, and a templated
/// request body read.
pub struct StepOutputs {
    map: CHashMap<String, String>,
}

impl View for StepOutputs {
    type V = Map<Seq<char>, Seq<char>>;

    closed spec fn view(&self) -> Map<Seq<char>, Seq<char>> {
        stored_outputs(self.map)
    }
}

/// The map after a step named `name` ended with `outcome`: a success with
/// output writes that output under the name; anything else writes nothing.
pub open spec fn recorded(
    m: Map<Seq<char>, Seq<char>>,
    name: Seq<char>,
    outcome: Outcome,
) -> Map<Seq<char>, Seq<char>> {
    match (outcome.error, outcome.output) {
        (None, Some(o)) => m.insert(name, o@),
        _ => m,
    }
}

/// What reading the output of step `name` gives.
pub open spec fn lookup_result(m: Map<Seq<char>, Seq<char>>, name: Seq<char>) -> Result<
    Seq<char>,
    Seq<char>,
> {
    if m.dom().contains(name) {
        Ok(m[name])
    } else {
        Err("Step "@ + name + " could not be found"@)
    }
}

impl StepOutputs {
    /// An empty map.
    pub fn new() -> (r: StepOutputs)
        ensures
            r@ == Map::<Seq<char>, Seq<char>>::empty(),
    {
        StepOutputs { map: new_map() }
    }

    /// A copy with the same entries.
    pub fn snapshot(&self) -> (r: StepOutputs)
        ensures
            r@ == self@,
    {
        StepOutputs { map: copy_map(&self.map) }
    }

    /// The output of step `name`, or the error that it has none.
    pub fn get(&self, name: &str) -> (r: Result<String, String>)
        ensures
            r matches Ok(v) ==> lookup_result(self@, name@) == Ok::<Seq<char>, Seq<char>>(v@),
            r matches Err(e) ==> lookup_result(self@, name@) == Err::<Seq<char>, Seq<char>>(e@),
    {
        match lookup(&self.map, name) {
            Some(v) => Ok(v),
            None => {
                let mut e = String::from_str("Step ");
                e.append(name);
                e.append(" could not be found");
                Err(e)
            },
        }
    }

    /// A request body with each `${step_output.NAME}` replaced by the
    /// output of step `NAME`: each is made a template expression over
    /// `step_output`, and the body is parsed as a template and rendered;
    /// the body as it is when it refers to no output.
    pub fn render_body(&self, body: &str) -> (r: Result<String, String>)
        ensures
            match regex_compile_error(step_output_pattern()) {
                Some(e) => r matches Err(m) && m@ == regex_error_text(step_output_pattern(), e),
                None => match regex_replace_all(step_output_pattern(), body@, "{{$1}}"@) {
                    None => r matches Ok(b) && b@ == body@,
                    Some(t) => if !plain_template(t) {
                        r matches Err(m) && m@ == plain_template_error()
                    } else {
                        match template_parse_error("step_body"@, t) {
                            Some(e) => r matches Err(m) && m@ == "Template Error: "@ + e,
                            None => r is Ok || (r matches Err(m) && exists|e: Seq<char>|
                                m@ == "Template Rendering Error: "@ + e),
                        }
                    },
                },
            },
    {
        let re = match compile_regex("\\$\\{(step_output.[^}]+)\\}") {
            Ok(re) => re,
            Err(e) => {
                let mut m = String::from_str("Could not create regex from `");
                m.append("\\$\\{(step_output.[^}]+)\\}");
                m.append("`.  Error is:");
                m.append(e.as_str());
                return Err(m);
            },
        };
        match replace_all(&re, body, "{{$1}}") {
            None => Ok(String::from_str(body)),
            Some(t) => if !plain_template_checked(t.as_str()) {
                Err(
                    String::from_str(
                        "Template Error: a request body that refers to a step's output may hold no other template syntax",
                    ),
                )
            } else { match parse_template("step_body", t.as_str()) {
                Err(e) => {
                    let mut m = String::from_str("Template Error: ");
                    m.append(e.as_str());
                    Err(m)
                },
                Ok(parsed) => {
                    let b = rendering_result(
                        render_template(&parsed, "step_body", "step_output", &self.map),
                    );
                    let ghost gb = b;
                    proof {
                        if gb is Err {
                            let m = gb->Err_0;
                            reveal_strlit("Template Rendering Error: ");
                            let e = m@.subrange(26, m@.len() as int);
                            assert(m@ =~= "Template Rendering Error: "@ + e);
                        }
                    }
                    b
                },
            } },
        }
    }

    /// Records how step `name` ended: the output of a success is written
    /// under its name, replacing an earlier one.
    pub fn record(&mut self, name: &String, outcome: &Outcome)
        ensures
            final(self)@ == recorded(old(self)@, name@, *outcome),
    {
        if outcome.error.is_none() {
            match &outcome.output {
                Some(o) => insert(&mut self.map, name.clone(), o.clone()),
                None => {},
            }
        }
    }
}

/// After a step succeeds with output `s`, a step that reads its output
/// sees `s`.
pub proof fn lemma_output_visible_after_success(
    m: Map<Seq<char>, Seq<char>>,
    name: Seq<char>,
    outcome: Outcome,
)
    requires
        outcome.error is None,
        outcome.output is Some,
    ensures
        lookup_result(recorded(m, name, outcome), name) == Ok::<Seq<char>, Seq<char>>(
            outcome.output->0@,
        ),
{
}

/// What an action that needs no outside work gives: a literal value, or
/// the recorded output of another step.
pub open spec fn local_result(run: RunType, m: Map<Seq<char>, Seq<char>>) -> Option<
    Result<Seq<char>, Seq<char>>,
> {
    match run {
        RunType::Value(v) => Some(Ok(v@)),
        RunType::Step(n) => Some(lookup_result(m, n@)),
        _ => None,
    }
}

impl RunType {
    /// Runs a literal or reference action; `None` for the actions that
    /// need outside work (a shell, HTTP, system or disk probe).
    pub fn run_local(&self, outputs: &StepOutputs) -> (r: Option<Result<String, String>>)
        ensures
            match (r, local_result(*self, outputs@)) {
                (None, None) => true,
                (Some(Ok(a)), Some(Ok(b))) => a@ == b,
                (Some(Err(a)), Some(Err(b))) => a@ == b,
                _ => false,
            },
    {
        match self {
            RunType::Value(v) => Some(Ok(v.clone())),
            RunType::Step(n) => Some(outputs.get(n.as_str())),
            _ => None,
        }
    }
}

} // verus!
