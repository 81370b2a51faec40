use vstd::prelude::*;

use crate::matching::{
    capture_at, capture_named, compile_jmespath, compile_regex, is_match, json_parse_error,
    jmespath_compile_error, jmespath_numbers_checked, jmespath_numbers_fit, jmespath_search,
    parse_json, MAX_SEARCH_NUMBER, MAX_SEARCH_TEXT, regex_capture, regex_compile_error,
    regex_matches, regex_named_capture, search,
};
use crate::number::{
    digits_value, is_digit, lemma_digits_value_nonneg, number_lt, number_of_text, number_text,
    parse_number, parses_as_number,
};
use crate::step::{ExpectType, FilterType, RegexVariant};
use crate::text::{keep_number_chars, number_chars};

verus! {

/// The digits of unsigned decimal text: the text after an optional `+`.
pub open spec fn unsigned_digits(s: Seq<char>) -> Seq<char> {
    if s.len() > 0 && s[0] == '+' {
        s.drop_first()
    } else {
        s
    }
}

/// Unsigned decimal text: an optional `+`, then at least one digit, of a
/// value that fits a `usize`.
pub open spec fn is_usize_text(s: Seq<char>) -> bool {
    &&& unsigned_digits(s).len() > 0
    &&& forall|i: int| 0 <= i < unsigned_digits(s).len() ==> is_digit(unsigned_digits(s)[i])
    &&& digits_value(unsigned_digits(s)) <= usize::MAX
}

/// Reads an unsigned decimal integer.
pub fn parse_usize(s: &str) -> (r: Option<usize>)
    ensures
        r is Some <==> is_usize_text(s@),
        r matches Some(v) ==> v as int == digits_value(unsigned_digits(s@)),
{
    let n = s.unicode_len();
    let mut start: usize = 0;
    if n > 0 && s.get_char(0) == '+' {
        start = 1;
    }
    let ghost b = unsigned_digits(s@);
    assert(b =~= s@.subrange(start as int, n as int));
    if start >= n {
        return None;
    }
    let mut v: usize = 0;
    let mut i: usize = start;
    while i < n
        invariant
            n == s@.len(),
            start <= i <= n,
            b == s@.subrange(start as int, n as int),
            b == unsigned_digits(s@),
            forall|j: int| 0 <= j < i - start ==> is_digit(b[j]),
            v as int == digits_value(b.subrange(0, i - start)),
        decreases n - i,
    {
        let c = s.get_char(i);
        let ghost p = b.subrange(0, i - start);
        let ghost q = b.subrange(0, i + 1 - start);
        assert(q.drop_last() =~= p);
        assert(b[i - start] == c);
        if !('0' <= c && c <= '9') {
            assert(!is_digit(b[i - start]));
            assert(!(forall|j: int| 0 <= j < b.len() ==> is_digit(b[j])));
            assert(!is_usize_text(s@));
            return None;
        }
        let d = (c as u32 - '0' as u32) as usize;
        if v > (usize::MAX - d) / 10 {
            proof {
                assert(q.last() == c);
                assert(digits_value(q) == v * 10 + d);
                assert(v * 10 + d > usize::MAX) by (nonlinear_arith)
                    requires
                        v > (usize::MAX - d) / 10,
                        d <= 9,
                ;
                assert forall|j: int| 0 <= j < i + 1 - start implies is_digit(b[j]) by {
                    if j < i - start {
                    }
                }
                lemma_digits_value_grows(b, (i + 1 - start) as int);
                if forall|j: int| 0 <= j < b.len() ==> is_digit(b[j]) {
                    assert(digits_value(b) > usize::MAX);
                }
                assert(!is_usize_text(s@));
            }
            return None;
        }
        v = v * 10 + d;
        i = i + 1;
    }
    assert(b.subrange(0, n - start) =~= b);
    Some(v)
}

/// Digits only grow the value: a prefix's value bounds the whole's.
proof fn lemma_digits_value_grows(b: Seq<char>, k: int)
    requires
        0 <= k <= b.len(),
        forall|j: int| 0 <= j < k ==> is_digit(b[j]),
    ensures
        (forall|j: int| 0 <= j < b.len() ==> is_digit(b[j])) ==> digits_value(b.subrange(0, k))
            <= digits_value(b),
    decreases b.len() - k,
{
    if k < b.len() && (forall|j: int| 0 <= j < b.len() ==> is_digit(b[j])) {
        lemma_digits_value_grows(b, k + 1);
        let p = b.subrange(0, k);
        let q = b.subrange(0, k + 1);
        assert(q.drop_last() =~= p);
        lemma_digits_value_nonneg(p);
    }
    if k == b.len() {
        assert(b.subrange(0, k) =~= b);
    }
}

pub open spec fn regex_error_text(pattern: Seq<char>, error: Seq<char>) -> Seq<char> {
    "Could not create regex from `"@ + pattern + "`.  Error is:"@ + error
}

/// What a regex filter makes of `val`: the text of group `group` (a
/// number, or else a name) of the first match of `pattern`.
pub open spec fn regex_filter_result(pattern: Seq<char>, group: Seq<char>, val: Seq<char>) -> Result<
    Seq<char>,
    Seq<char>,
> {
    match regex_compile_error(pattern) {
        Some(e) => Err(regex_error_text(pattern, e)),
        None => if !regex_matches(pattern, val) {
            Err("Could not find `"@ + pattern + "` in output"@)
        } else {
            if is_usize_text(group) {
                match regex_capture(pattern, val, digits_value(unsigned_digits(group)) as nat) {
                    Some(Some(t)) => Ok(t),
                    _ => Err(
                        "Could not find group number `"@ + group + "` in regex `"@ + pattern
                            + "`"@,
                    ),
                }
            } else {
                match regex_named_capture(pattern, val, group) {
                    Some(Some(t)) => Ok(t),
                    _ => Err(
                        "Could not find group name `"@ + group + "` in regex `"@ + pattern + "`"@,
                    ),
                }
            }
        },
    }
}

pub open spec fn number_limit_text() -> Seq<char> {
    "Could not compile jmespath:a number in the expression does not fit 32 bits, or `-` is followed by a character outside ASCII"@
}

pub open spec fn size_limit_text() -> Seq<char> {
    "Could not find jmes expression:the expression's numbers must stay below 10^9, and the output and the expression below 10^8 characters"@
}

/// What a JMESPath filter makes of `val`: the search result, a string bare;
/// a null result counts as not found. An expression whose numbers could
/// overflow, and an output or expression too large to search, are refused.
pub open spec fn jmespath_filter_result(expression: Seq<char>, val: Seq<char>) -> Result<
    Seq<char>,
    Seq<char>,
> {
    if !jmespath_numbers_fit(expression, i32::MAX as u64) {
        Err(number_limit_text())
    } else {
        match jmespath_compile_error(expression) {
            Some(e) => Err("Could not compile jmespath:"@ + e),
            None => match json_parse_error(val) {
                Some(e) => Err("Could not format as json:"@ + e),
                None => if !jmespath_numbers_fit(expression, MAX_SEARCH_NUMBER) || expression.len()
                    > MAX_SEARCH_TEXT || val.len() > MAX_SEARCH_TEXT {
                    Err(size_limit_text())
                } else {
                    match jmespath_search(expression, val) {
                        Err(e) => Err("Could not find jmes expression:"@ + e),
                        Ok(None) => Err(
                            "Could not find jmespath expression `"@ + expression
                                + "` in output"@,
                        ),
                        Ok(Some(o)) => Ok(o),
                    }
                },
            },
        }
    }
}

/// The pattern and group of a regex filter; a bare pattern selects group `0`.
pub open spec fn regex_parts(v: RegexVariant) -> (Seq<char>, Seq<char>) {
    match v {
        RegexVariant::MatchOnly(p) => (p@, "0"@),
        RegexVariant::Options(o) => (o.matches@, o.group@),
    }
}

/// What filter `f` makes of `val`.
pub open spec fn filter_result(f: FilterType, val: Seq<char>) -> Result<Seq<char>, Seq<char>> {
    match f {
        FilterType::NoOutput => Ok(Seq::empty()),
        FilterType::JmesPath(e) => jmespath_filter_result(e@, val),
        FilterType::Regex(v) => regex_filter_result(regex_parts(v).0, regex_parts(v).1, val),
    }
}

/// Whether `val` passes expectation `e`, and if not, why.
pub open spec fn check_result(e: ExpectType, val: Seq<char>) -> Result<(), Seq<char>> {
    match e {
        ExpectType::Anything => Ok(()),
        ExpectType::MatchesNot(p) => match regex_compile_error(p@) {
            Some(err) => Err(regex_error_text(p@, err)),
            None => if !regex_matches(p@, val) {
                Ok(())
            } else {
                Err("Matched against `"@ + p@ + "`"@)
            },
        },
        ExpectType::Matches(p) => match regex_compile_error(p@) {
            Some(err) => Err(regex_error_text(p@, err)),
            None => if regex_matches(p@, val) {
                Ok(())
            } else {
                Err("Not matched against `"@ + p@ + "`"@)
            },
        },
        ExpectType::GreaterThan(n) => {
            let f = number_chars(val);
            if parses_as_number(f) {
                let x = number_of_text(f);
                if number_lt(n, x) {
                    Ok(())
                } else {
                    Err(
                        "The value `"@ + number_text(x) + "` is not greater than `"@ + number_text(
                            n,
                        ) + "`"@,
                    )
                }
            } else {
                Err("Could not parse `"@ + val + "` as a number"@)
            }
        },
        ExpectType::LessThan(n) => {
            let f = number_chars(val);
            if parses_as_number(f) {
                let x = number_of_text(f);
                if number_lt(x, n) {
                    Ok(())
                } else {
                    Err(
                        "The value `"@ + number_text(x) + "` is not less than `"@ + number_text(n)
                            + "`"@,
                    )
                }
            } else {
                Err("Could not parse `"@ + val + "` as a number"@)
            }
        },
    }
}

fn regex_error_message(pattern: &str, error: &str) -> (r: String)
    ensures
        r@ == regex_error_text(pattern@, error@),
{
    let mut r = String::from_str("Could not create regex from `");
    r.append(pattern);
    r.append("`.  Error is:");
    r.append(error);
    r
}

fn regex_filter(pattern: &str, group: &str, val: &str) -> (r: Result<String, String>)
    ensures
        r matches Ok(o) ==> regex_filter_result(pattern@, group@, val@) == Ok::<
            Seq<char>,
            Seq<char>,
        >(o@),
        r matches Err(e) ==> regex_filter_result(pattern@, group@, val@) == Err::<
            Seq<char>,
            Seq<char>,
        >(e@),
{
    let re = match compile_regex(pattern) {
        Ok(re) => re,
        Err(e) => {
            return Err(regex_error_message(pattern, e.as_str()));
        },
    };
    let captured = match parse_usize(group) {
        Some(i) => capture_at(&re, val, i),
        None => capture_named(&re, val, group),
    };
    match captured {
        None => {
            let mut r = String::from_str("Could not find `");
            r.append(pattern);
            r.append("` in output");
            Err(r)
        },
        Some(Some(t)) => Ok(t),
        Some(None) => {
            let mut r = if parse_usize(group).is_some() {
                String::from_str("Could not find group number `")
            } else {
                String::from_str("Could not find group name `")
            };
            r.append(group);
            r.append("` in regex `");
            r.append(pattern);
            r.append("`");
            Err(r)
        },
    }
}

fn jmespath_filter(expression: &str, val: &str) -> (r: Result<String, String>)
    ensures
        r matches Ok(o) ==> jmespath_filter_result(expression@, val@) == Ok::<
            Seq<char>,
            Seq<char>,
        >(o@),
        r matches Err(e) ==> jmespath_filter_result(expression@, val@) == Err::<
            Seq<char>,
            Seq<char>,
        >(e@),
{
    if !jmespath_numbers_checked(expression, i32::MAX as u64) {
        return Err(
            String::from_str(
                "Could not compile jmespath:a number in the expression does not fit 32 bits, or `-` is followed by a character outside ASCII",
            ),
        );
    }
    let expr = match compile_jmespath(expression) {
        Ok(e) => e,
        Err(e) => {
            let mut r = String::from_str("Could not compile jmespath:");
            r.append(e.as_str());
            return Err(r);
        },
    };
    let data = match parse_json(val) {
        Ok(d) => d,
        Err(e) => {
            let mut r = String::from_str("Could not format as json:");
            r.append(e.as_str());
            return Err(r);
        },
    };
    if !jmespath_numbers_checked(expression, MAX_SEARCH_NUMBER) || expression.unicode_len()
        > MAX_SEARCH_TEXT || val.unicode_len() > MAX_SEARCH_TEXT {
        return Err(
            String::from_str(
                "Could not find jmes expression:the expression's numbers must stay below 10^9, and the output and the expression below 10^8 characters",
            ),
        );
    }
    match search(&expr, &data) {
        Err(e) => {
            let mut r = String::from_str("Could not find jmes expression:");
            r.append(e.as_str());
            Err(r)
        },
        Ok(None) => {
            let mut r = String::from_str("Could not find jmespath expression `");
            r.append(expr.as_str());
            r.append("` in output");
            Err(r)
        },
        Ok(Some(o)) => Ok(o),
    }
}

impl FilterType {
    /// Applies the filter to `val`.
    pub fn filter(&self, val: &str) -> (r: Result<String, String>)
        ensures
            r matches Ok(o) ==> filter_result(*self, val@) == Ok::<Seq<char>, Seq<char>>(o@),
            r matches Err(e) ==> filter_result(*self, val@) == Err::<Seq<char>, Seq<char>>(e@),
    {
        match self {
            FilterType::NoOutput => Ok(String::new()),
            FilterType::JmesPath(e) => jmespath_filter(e.as_str(), val),
            FilterType::Regex(v) => {
                let opts = v.options();
                regex_filter(opts.matches.as_str(), opts.group.as_str(), val)
            },
        }
    }
}

impl ExpectType {
    /// Checks `val` against the expectation.
    pub fn check(&self, val: &str) -> (r: Result<(), String>)
        ensures
            r is Ok <==> check_result(*self, val@) is Ok,
            r matches Err(e) ==> check_result(*self, val@) == Err::<(), Seq<char>>(e@),
    {
        match self {
            ExpectType::Anything => Ok(()),
            ExpectType::MatchesNot(p) => {
                let re = match compile_regex(p.as_str()) {
                    Ok(re) => re,
                    Err(e) => {
                        return Err(regex_error_message(p.as_str(), e.as_str()));
                    },
                };
                if !is_match(&re, val) {
                    Ok(())
                } else {
                    let mut r = String::from_str("Matched against `");
                    r.append(p.as_str());
                    r.append("`");
                    Err(r)
                }
            },
            ExpectType::Matches(p) => {
                let re = match compile_regex(p.as_str()) {
                    Ok(re) => re,
                    Err(e) => {
                        return Err(regex_error_message(p.as_str(), e.as_str()));
                    },
                };
                if is_match(&re, val) {
                    Ok(())
                } else {
                    let mut r = String::from_str("Not matched against `");
                    r.append(p.as_str());
                    r.append("`");
                    Err(r)
                }
            },
            ExpectType::GreaterThan(n) => {
                let f = keep_number_chars(val);
                match parse_number(f.as_str()) {
                    Some(x) => {
                        if n.less_than(&x) {
                            Ok(())
                        } else {
                            let mut r = String::from_str("The value `");
                            r.append(x.to_text().as_str());
                            r.append("` is not greater than `");
                            r.append(n.to_text().as_str());
                            r.append("`");
                            Err(r)
                        }
                    },
                    None => {
                        let mut r = String::from_str("Could not parse `");
                        r.append(val);
                        r.append("` as a number");
                        Err(r)
                    },
                }
            },
            ExpectType::LessThan(n) => {
                let f = keep_number_chars(val);
                match parse_number(f.as_str()) {
                    Some(x) => {
                        if x.less_than(n) {
                            Ok(())
                        } else {
                            let mut r = String::from_str("The value `");
                            r.append(x.to_text().as_str());
                            r.append("` is not less than `");
                            r.append(n.to_text().as_str());
                            r.append("`");
                            Err(r)
                        }
                    },
                    None => {
                        let mut r = String::from_str("Could not parse `");
                        r.append(val);
                        r.append("` as a number");
                        Err(r)
                    },
                }
            },
        }
    }
}

} // verus!
