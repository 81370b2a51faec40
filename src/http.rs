use vstd::prelude::*;

use crate::step::{default_cookies, default_status, str_eq, HttpVariant};
use crate::text::{digits_of, digits_text};

verus! {

/// The method a request is sent with: `POST` in place of `GET` when it
/// carries a body, a form or a multipart body; a bare URL is a `GET`.
pub open spec fn effective_method(v: HttpVariant) -> Seq<char> {
    match v {
        HttpVariant::UrlOnly(_) => "GET"@,
        HttpVariant::Options(o) => if (o.form is Some || o.multipart is Some || o.body is Some)
            && o.method@ == "GET"@ {
            "POST"@
        } else {
            o.method@
        },
    }
}

pub open spec fn status_mismatch_text(actual: u16, expected: u16) -> Seq<char> {
    "returned status `"@ + digits_of(actual as nat) + "` does not match expected `"@ + digits_of(
        expected as nat,
    ) + "`"@
}

impl HttpVariant {
    /// The URL requested.
    pub fn url(&self) -> (r: &String)
        ensures
            r@ == match *self {
                HttpVariant::UrlOnly(u) => u@,
                HttpVariant::Options(o) => o.url@,
            },
    {
        match self {
            HttpVariant::UrlOnly(u) => u,
            HttpVariant::Options(o) => &o.url,
        }
    }

    /// The method the request is sent with.
    pub fn method(&self) -> (r: String)
        ensures
            r@ == effective_method(*self),
    {
        match self {
            HttpVariant::UrlOnly(_) => String::from_str("GET"),
            HttpVariant::Options(o) => {
                if (o.form.is_some() || o.multipart.is_some() || o.body.is_some()) && str_eq(
                    o.method.as_str(),
                    "GET",
                ) {
                    String::from_str("POST")
                } else {
                    o.method.clone()
                }
            },
        }
    }

    /// The response status the step expects.
    pub fn expected_status(&self) -> (r: u16)
        ensures
            r == match *self {
                HttpVariant::UrlOnly(_) => 200,
                HttpVariant::Options(o) => o.status,
            },
    {
        match self {
            HttpVariant::UrlOnly(_) => default_status(),
            HttpVariant::Options(o) => o.status,
        }
    }

    /// Whether cookies the response sets are kept for its host.
    pub fn save_cookies(&self) -> (r: bool)
        ensures
            r == match *self {
                HttpVariant::UrlOnly(_) => true,
                HttpVariant::Options(o) => o.save_cookies,
            },
    {
        match self {
            HttpVariant::UrlOnly(_) => default_cookies(),
            HttpVariant::Options(o) => o.save_cookies,
        }
    }
}

/// The error for a response whose status is not the expected one.
pub fn check_status(actual: u16, expected: u16) -> (r: Result<(), String>)
    ensures
        r is Ok <==> actual == expected,
        r matches Err(e) ==> e@ == status_mismatch_text(actual, expected),
{
    if actual == expected {
        Ok(())
    } else {
        let mut e = String::from_str("returned status `");
        e.append(digits_text(actual as u128).as_str());
        e.append("` does not match expected `");
        e.append(digits_text(expected as u128).as_str());
        e.append("`");
        Err(e)
    }
}

} // verus!
