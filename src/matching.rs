use vstd::prelude::*;

use jmespath::{Expression, Variable};
use regex::Regex;

verus! {

/// regex's compiled `Regex`, held opaque next to its pattern.
#[verifier::external_type_specification]
#[verifier::external_body]
pub struct ExRegex(Regex);

/// jmespath's compiled `Expression`, held opaque next to its text.
#[verifier::external_type_specification]
#[verifier::external_body]
pub struct ExExpression<'a>(Expression<'a>);

/// jmespath's `Variable`, a parsed JSON value, held opaque next to its text.
#[verifier::external_type_specification]
#[verifier::external_body]
pub struct ExVariable(Variable);

/// Why `pattern` is no regular expression, as the regex crate describes
/// it; `None` when it is one.
pub uninterp spec fn regex_compile_error(pattern: Seq<char>) -> Option<Seq<char>>;

/// Whether the regular expression `pattern` matches somewhere in `text`.
pub uninterp spec fn regex_matches(pattern: Seq<char>, text: Seq<char>) -> bool;

/// The text of capture group `group` in the leftmost-first match of
/// `pattern` in `text`; `None` when there is no match, `Some(None)` when
/// the group took part in no match.
pub uninterp spec fn regex_capture(pattern: Seq<char>, text: Seq<char>, group: nat) -> Option<
    Option<Seq<char>>,
>;

/// As `regex_capture`, for a group given by name.
pub uninterp spec fn regex_named_capture(
    pattern: Seq<char>,
    text: Seq<char>,
    name: Seq<char>,
) -> Option<Option<Seq<char>>>;

/// Why `expression` is no JMESPath expression; `None` when it is one.
pub uninterp spec fn jmespath_compile_error(expression: Seq<char>) -> Option<Seq<char>>;

/// Why `text` is no JSON document; `None` when it is one.
pub uninterp spec fn json_parse_error(text: Seq<char>) -> Option<Seq<char>>;

/// What searching the JSON document `json` with `expression` gives: `None`
/// for a null result, a string result bare, any other result as JSON text;
/// or the error's text.
pub uninterp spec fn jmespath_search(expression: Seq<char>, json: Seq<char>) -> Result<
    Option<Seq<char>>,
    Seq<char>,
>;

pub open spec fn is_ascii_digit(c: char) -> bool {
    '0' <= c && c <= '9'
}

/// Where jmespath's lexer stands after a prefix of an expression, as far
/// as its numbers go.
#[derive(Clone, Copy, Debug, PartialEq, Eq, Structural)]
pub enum LexState {
    /// Between tokens.
    Normal,
    /// After `>`, `<` or `!`, which take a following `=`.
    AltEq,
    /// After `=`, which takes the next character, whatever it is.
    EqNext,
    /// Inside an identifier, where digits are no number.
    Ident,
    /// Inside a number whose digits so far have this value, capped above.
    Number(u64),
    /// After a `-`, which a number must follow.
    Dash,
    /// Inside a quoted token closed by this character.
    Quote(char),
    /// After a backslash inside a quoted token.
    QuoteEscape(char),
    /// After a lexing error: nothing more is lexed.
    Stopped,
}

pub open spec fn is_ident_start(c: char) -> bool {
    ('a' <= c && c <= 'z') || ('A' <= c && c <= 'Z') || c == '_'
}

pub open spec fn is_ident_char(c: char) -> bool {
    is_ident_start(c) || is_ascii_digit(c)
}

pub open spec fn digit_of(c: char) -> u64 {
    ((c as u32) - ('0' as u32)) as u64
}

/// The state that `c` starts between tokens.
pub open spec fn start_token(c: char) -> LexState {
    if is_ident_start(c) {
        LexState::Ident
    } else if is_ascii_digit(c) {
        LexState::Number(digit_of(c))
    } else if c == '"' || c == '\'' || c == '`' {
        LexState::Quote(c)
    } else if c == '-' {
        LexState::Dash
    } else if c == '=' {
        LexState::EqNext
    } else if c == '>' || c == '<' || c == '!' {
        LexState::AltEq
    } else {
        LexState::Normal
    }
}

/// A number's value after one more digit, capped at `limit + 1`.
pub open spec fn more_digits(v: u64, c: char, limit: u64) -> u64 {
    if v > limit || v * 10 + digit_of(c) > limit {
        (limit + 1) as u64
    } else {
        (v * 10 + digit_of(c)) as u64
    }
}

/// One character lexed: the next state, and whether lexing it leaves a
/// number above `limit` or meets a `-` before a character outside ASCII.
pub open spec fn lex_step(s: LexState, c: char, limit: u64) -> (LexState, bool) {
    match s {
        LexState::Normal => (start_token(c), false),
        LexState::AltEq => if c == '=' {
            (LexState::Normal, false)
        } else {
            (start_token(c), false)
        },
        LexState::EqNext => if c == '=' {
            (LexState::Normal, false)
        } else {
            (LexState::Stopped, false)
        },
        LexState::Ident => if is_ident_char(c) {
            (LexState::Ident, false)
        } else {
            (start_token(c), false)
        },
        LexState::Number(v) => if is_ascii_digit(c) {
            let w = more_digits(v, c, limit);
            (LexState::Number(w), w > limit)
        } else {
            (start_token(c), false)
        },
        LexState::Dash => if is_ascii_digit(c) && c != '0' {
            (LexState::Number(digit_of(c)), digit_of(c) > limit)
        } else if (c as u32) >= 128 {
            (LexState::Stopped, true)
        } else {
            (LexState::Stopped, false)
        },
        LexState::Quote(q) => if c == q {
            (LexState::Normal, false)
        } else if c == '\\' {
            (LexState::QuoteEscape(q), false)
        } else {
            (LexState::Quote(q), false)
        },
        LexState::QuoteEscape(q) => (LexState::Quote(q), false),
        LexState::Stopped => (LexState::Stopped, false),
    }
}

/// The state after lexing `e`, and whether a number above `limit`, or a
/// `-` before a character outside ASCII, was met on the way.
pub open spec fn lex_run(e: Seq<char>, limit: u64) -> (LexState, bool)
    decreases e.len(),
{
    if e.len() == 0 {
        (LexState::Normal, false)
    } else {
        let (s, bad) = lex_run(e.drop_last(), limit);
        let (t, now) = lex_step(s, e.last(), limit);
        (t, bad || now)
    }
}

/// The number tokens of `e` are at most `limit`, and no `-` stands before
/// a character outside ASCII. jmespath's lexer panics on a number token
/// that does not fit `i32`, and on a `-` before a numeric character that is
/// no ASCII digit; digits inside identifiers and quoted tokens are no
/// number tokens.
pub open spec fn jmespath_numbers_fit(e: Seq<char>, limit: u64) -> bool {
    !lex_run(e, limit).1
}

/// The largest number in an expression that a search is made with.
pub const MAX_SEARCH_NUMBER: u64 = 999_999_999;

/// The largest document, and expression, that a search is made on: with
/// the numbers of the expression below `10^9`, an array index plus a slice
/// step then stays inside `i32`.
pub const MAX_SEARCH_TEXT: usize = 100_000_000;

pub open spec fn opt_view(o: Option<String>) -> Option<Seq<char>> {
    match o {
        Some(s) => Some(s@),
        None => None,
    }
}

pub open spec fn search_view(r: Result<Option<String>, String>) -> Result<
    Option<Seq<char>>,
    Seq<char>,
> {
    match r {
        Ok(o) => Ok(opt_view(o)),
        Err(e) => Err(e@),
    }
}

pub open spec fn result_view(r: Result<String, String>) -> Result<Seq<char>, Seq<char>> {
    match r {
        Ok(s) => Ok(s@),
        Err(e) => Err(e@),
    }
}

/// A compiled regular expression with the pattern it came from.
pub struct CompiledRegex {
    regex: Regex,
    pattern: String,
}

impl CompiledRegex {
    pub closed spec fn pattern(&self) -> Seq<char> {
        self.pattern@
    }
}

/// `text` with every match of `pattern` replaced by `replacement`, in
/// which `$1` stands for the first group; `None` when nothing matched.
pub uninterp spec fn regex_replace_all(
    pattern: Seq<char>,
    text: Seq<char>,
    replacement: Seq<char>,
) -> Option<Seq<char>>;

/// Relies on regex's `Regex::new`: it compiles the pattern, or fails with
/// an error whose `Debug` text is returned.
#[verifier::external_body]
pub(crate) fn compile_regex(pattern: &str) -> (r: Result<CompiledRegex, String>)
    ensures
        r is Ok <==> regex_compile_error(pattern@) is None,
        r matches Ok(re) ==> re.pattern() == pattern@,
        r matches Err(e) ==> regex_compile_error(pattern@) == Some(e@),
{
    match Regex::new(pattern) {
        Ok(regex) => Ok(CompiledRegex { regex, pattern: pattern.to_string() }),
        Err(e) => Err(format!("{:?}", e)),
    }
}

/// Relies on regex's `Regex::is_match`.
#[verifier::external_body]
pub(crate) fn is_match(re: &CompiledRegex, text: &str) -> (r: bool)
    ensures
        r == regex_matches(re.pattern(), text@),
{
    re.regex.is_match(text)
}

/// Relies on regex's `Regex::replace_all`: a borrowed result means that
/// nothing matched.
#[verifier::external_body]
pub(crate) fn replace_all(re: &CompiledRegex, text: &str, replacement: &str) -> (r: Option<String>)
    ensures
        opt_view(r) == regex_replace_all(re.pattern(), text@, replacement@),
{
    match re.regex.replace_all(text, replacement) {
        std::borrow::Cow::Borrowed(_) => None,
        std::borrow::Cow::Owned(s) => Some(s),
    }
}

/// Relies on regex's `Regex::captures` and `Captures::get`: no captures
/// exactly when there is no match.
#[verifier::external_body]
pub(crate) fn capture_at(re: &CompiledRegex, text: &str, group: usize) -> (r: Option<Option<String>>)
    ensures
        r is Some <==> regex_matches(re.pattern(), text@),
        r matches Some(g) ==> regex_capture(re.pattern(), text@, group as nat) == Some(
            opt_view(g),
        ),
{
    re.regex.captures(text).map(|c| c.get(group).map(|m| m.as_str().to_string()))
}

/// Relies on regex's `Regex::captures` and `Captures::name`: no captures
/// exactly when there is no match.
#[verifier::external_body]
pub(crate) fn capture_named(re: &CompiledRegex, text: &str, name: &str) -> (r: Option<Option<String>>)
    ensures
        r is Some <==> regex_matches(re.pattern(), text@),
        r matches Some(g) ==> regex_named_capture(re.pattern(), text@, name@) == Some(
            opt_view(g),
        ),
{
    re.regex.captures(text).map(|c| c.name(name).map(|m| m.as_str().to_string()))
}

/// A compiled JMESPath expression with the text it came from.
pub struct JmesExpression {
    expression: Expression<'static>,
    text: String,
}

impl JmesExpression {
    pub closed spec fn text(&self) -> Seq<char> {
        self.text@
    }

    /// The expression's text.
    pub fn as_str(&self) -> (r: &str)
        ensures
            r@ == self.text(),
    {
        self.text.as_str()
    }
}

/// A parsed JSON document with the text it came from.
pub struct JsonDocument {
    value: Variable,
    text: String,
}

impl JsonDocument {
    pub closed spec fn text(&self) -> Seq<char> {
        self.text@
    }
}

/// Relies on jmespath's `compile`: it compiles the expression, or fails
/// with an error whose `Display` text is returned. It panics on a number
/// that does not fit `i32`, which `requires` leaves out.
#[verifier::external_body]
pub(crate) fn compile_jmespath(expression: &str) -> (r: Result<JmesExpression, String>)
    requires
        jmespath_numbers_fit(expression@, i32::MAX as u64),
    ensures
        r is Ok <==> jmespath_compile_error(expression@) is None,
        r matches Ok(e) ==> e.text() == expression@,
        r matches Err(e) ==> jmespath_compile_error(expression@) == Some(e@),
{
    match jmespath::compile(expression) {
        Ok(e) => Ok(JmesExpression { expression: e, text: expression.to_string() }),
        Err(e) => Err(e.to_string()),
    }
}

/// Relies on jmespath's `Variable::from_json`: it parses the text, or
/// fails with an error text.
#[verifier::external_body]
pub(crate) fn parse_json(text: &str) -> (r: Result<JsonDocument, String>)
    ensures
        r is Ok <==> json_parse_error(text@) is None,
        r matches Ok(d) ==> d.text() == text@,
        r matches Err(e) ==> json_parse_error(text@) == Some(e@),
{
    match Variable::from_json(text) {
        Ok(value) => Ok(JsonDocument { value, text: text.to_string() }),
        Err(e) => Err(e),
    }
}

/// Relies on jmespath's `Expression::search`: a null result is `None`, a
/// string result is returned bare, any other result as its JSON text
/// (`Display`); an error as its `Display` text. Slicing adds the step to an
/// index in `i32`, which overflows only for a step or an array near
/// `i32::MAX`; `requires` keeps both far below it.
#[verifier::external_body]
pub(crate) fn search(expression: &JmesExpression, document: &JsonDocument) -> (r: Result<
    Option<String>,
    String,
>)
    requires
        jmespath_numbers_fit(expression.text(), MAX_SEARCH_NUMBER),
        expression.text().len() <= MAX_SEARCH_TEXT,
        document.text().len() <= MAX_SEARCH_TEXT,
    ensures
        search_view(r) == jmespath_search(expression.text(), document.text()),
{
    match expression.expression.search(document.value.clone()) {
        Ok(v) => Ok(match &*v {
            Variable::Null => None,
            Variable::String(s) => Some(s.clone()),
            other => Some(other.to_string()),
        }),
        Err(e) => Err(e.to_string()),
    }
}

fn lex_step_exec(s: LexState, c: char, limit: u64) -> (r: (LexState, bool))
    requires
        9 <= limit < u64::MAX / 20,
        s matches LexState::Number(v) ==> v <= limit + 1,
    ensures
        r == lex_step(s, c, limit),
        r.0 matches LexState::Number(v) ==> v <= limit + 1,
{
    let digit = '0' <= c && c <= '9';
    let start = if ('a' <= c && c <= 'z') || ('A' <= c && c <= 'Z') || c == '_' {
        LexState::Ident
    } else if digit {
        LexState::Number((c as u32 - '0' as u32) as u64)
    } else if c == '"' || c == '\'' || c == '`' {
        LexState::Quote(c)
    } else if c == '-' {
        LexState::Dash
    } else if c == '=' {
        LexState::EqNext
    } else if c == '>' || c == '<' || c == '!' {
        LexState::AltEq
    } else {
        LexState::Normal
    };
    assert(start == start_token(c));
    match s {
        LexState::Normal => (start, false),
        LexState::AltEq => if c == '=' {
            (LexState::Normal, false)
        } else {
            (start, false)
        },
        LexState::EqNext => if c == '=' {
            (LexState::Normal, false)
        } else {
            (LexState::Stopped, false)
        },
        LexState::Ident => if digit || ('a' <= c && c <= 'z') || ('A' <= c && c <= 'Z') || c
            == '_' {
            (LexState::Ident, false)
        } else {
            (start, false)
        },
        LexState::Number(v) => if digit {
            let d = (c as u32 - '0' as u32) as u64;
            let w = if v > limit || v * 10 + d > limit {
                limit + 1
            } else {
                v * 10 + d
            };
            (LexState::Number(w), w > limit)
        } else {
            (start, false)
        },
        LexState::Dash => if digit && c != '0' {
            let d = (c as u32 - '0' as u32) as u64;
            (LexState::Number(d), d > limit)
        } else if (c as u32) >= 128 {
            (LexState::Stopped, true)
        } else {
            (LexState::Stopped, false)
        },
        LexState::Quote(q) => if c == q {
            (LexState::Normal, false)
        } else if c == '\\' {
            (LexState::QuoteEscape(q), false)
        } else {
            (LexState::Quote(q), false)
        },
        LexState::QuoteEscape(q) => (LexState::Quote(q), false),
        LexState::Stopped => (LexState::Stopped, false),
    }
}

/// Whether the numbers of `e` fit `limit`, as `jmespath_numbers_fit` says.
pub fn jmespath_numbers_checked(e: &str, limit: u64) -> (r: bool)
    requires
        9 <= limit < u64::MAX / 20,
    ensures
        r == jmespath_numbers_fit(e@, limit),
{
    let mut state = LexState::Normal;
    let mut bad = false;
    for c in it: e.chars()
        invariant
            it.seq() == e@,
            9 <= limit < u64::MAX / 20,
            (state, bad) == lex_run(e@.subrange(0, it.index() as int), limit),
            state matches LexState::Number(v) ==> v <= limit + 1,
    {
        let ghost i = it.index();
        assert(e@.subrange(0, i + 1).drop_last() =~= e@.subrange(0, i as int));
        assert(e@.subrange(0, i + 1).last() == c);
        let (next, now) = lex_step_exec(state, c, limit);
        state = next;
        bad = bad || now;
    }
    assert(e@.subrange(0, e@.len() as int) =~= e@);
    !bad
}

} // verus!
