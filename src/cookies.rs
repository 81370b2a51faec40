use vstd::prelude::*;

use cookie::{Cookie, CookieJar};

verus! {

/// cookie's `CookieJar`, held opaque: what it holds is `jar_entries`.
#[verifier::external_type_specification]
#[verifier::external_body]
pub struct ExCookieJar(CookieJar);

/// cookie's `Cookie`, held opaque next to its name and text.
#[verifier::external_type_specification]
#[verifier::external_body]
pub struct ExCookie<'c>(Cookie<'c>);

/// The cookies of a jar: each cookie's name mapped to its text, as it is
/// shown in a `Set-Cookie` header (`Display`).
pub uninterp spec fn jar_entries(j: CookieJar) -> Map<Seq<char>, Seq<char>>;

/// The name and the text of the cookie that a `Set-Cookie` header value
/// holds; `None` when it holds none.
pub uninterp spec fn parsed_cookie(header: Seq<char>) -> Option<(Seq<char>, Seq<char>)>;

/// A parsed cookie with its name and its text.
pub struct ParsedCookie {
    cookie: Cookie<'static>,
    name: String,
    text: String,
}

impl ParsedCookie {
    pub closed spec fn name(&self) -> Seq<char> {
        self.name@
    }

    pub closed spec fn text(&self) -> Seq<char> {
        self.text@
    }
}

/// Relies on cookie's `Cookie::parse`, with the cookie's `name` and its
/// `Display` text.
#[verifier::external_body]
fn parse_cookie(header: &str) -> (r: Option<ParsedCookie>)
    ensures
        r is Some <==> parsed_cookie(header@) is Some,
        r matches Some(c) ==> parsed_cookie(header@) == Some((c.name(), c.text())),
{
    Cookie::parse(header.to_string()).ok().map(|c| ParsedCookie {
        name: c.name().to_string(),
        text: c.to_string(),
        cookie: c,
    })
}

/// Relies on cookie's `CookieJar::add`: a cookie replaces the one of the
/// same name.
#[verifier::external_body]
fn jar_add(jar: &mut CookieJar, c: ParsedCookie)
    ensures
        jar_entries(*final(jar)) == jar_entries(*old(jar)).insert(c.name(), c.text()),
{
    jar.add(c.cookie);
}

/// Relies on cookie's `CookieJar::iter`, each cookie shown by `Display`:
/// every cookie of the jar once, in an order that the jar does not fix.
#[verifier::external_body]
fn jar_texts(jar: &CookieJar) -> (r: Vec<String>)
    ensures
        r@.len() == jar_entries(*jar).len(),
        forall|i: int|
            #![trigger r@[i]]
            0 <= i < r@.len() ==> exists|n: Seq<char>|
                #[trigger] jar_entries(*jar).dom().contains(n) && jar_entries(*jar)[n] == r@[i]@,
        forall|n: Seq<char>|
            #[trigger] jar_entries(*jar).dom().contains(n) ==> exists|i: int|
                0 <= i < r@.len() && r@[i]@ == jar_entries(*jar)[n],
{
    jar.iter().map(|c| c.to_string()).collect()
}

/// The jar's entries after the `Set-Cookie` header values `headers`, in
/// order: each that holds a cookie adds it, replacing one of its name.
pub open spec fn after_set_cookies(
    m: Map<Seq<char>, Seq<char>>,
    headers: Seq<Seq<char>>,
) -> Map<Seq<char>, Seq<char>>
    decreases headers.len(),
{
    if headers.len() == 0 {
        m
    } else {
        let before = after_set_cookies(m, headers.drop_last());
        match parsed_cookie(headers.last()) {
            Some((name, text)) => before.insert(name, text),
            None => before,
        }
    }
}

/// Keeps the cookies that a response sets.
pub fn add_set_cookies(jar: &mut CookieJar, headers: &Vec<String>)
    ensures
        jar_entries(*final(jar)) == after_set_cookies(
            jar_entries(*old(jar)),
            headers@.map_values(|h: String| h@),
        ),
{
    let ghost start = jar_entries(*jar);
    let mut i: usize = 0;
    while i < headers.len()
        invariant
            i <= headers@.len(),
            jar_entries(*jar) == after_set_cookies(
                start,
                headers@.subrange(0, i as int).map_values(|h: String| h@),
            ),
        decreases headers@.len() - i,
    {
        let ghost hs = headers@.subrange(0, i + 1).map_values(|h: String| h@);
        assert(hs.drop_last() =~= headers@.subrange(0, i as int).map_values(|h: String| h@));
        assert(hs.last() == headers@[i as int]@);
        match parse_cookie(headers[i].as_str()) {
            Some(c) => jar_add(jar, c),
            None => {},
        }
        i = i + 1;
    }
    assert(headers@.subrange(0, headers@.len() as int) =~= headers@);
}

/// `parts` joined with `"; "` between them.
pub open spec fn joined(parts: Seq<Seq<char>>) -> Seq<char>
    decreases parts.len(),
{
    if parts.len() == 0 {
        Seq::empty()
    } else if parts.len() == 1 {
        parts[0]
    } else {
        joined(parts.drop_last()) + "; "@ + parts.last()
    }
}

/// The `Cookie` header value that sends the jar's cookies: their texts,
/// each once, joined by `"; "`, in an order that the jar does not fix.
pub fn cookie_header(jar: &CookieJar) -> (r: String)
    ensures
        exists|parts: Seq<Seq<char>>|
            {
                &&& r@ == joined(parts)
                &&& parts.len() == jar_entries(*jar).len()
                &&& forall|n: Seq<char>|
                    #[trigger] jar_entries(*jar).dom().contains(n) ==> parts.contains(
                        jar_entries(*jar)[n],
                    )
                &&& forall|i: int|
                    #![trigger parts[i]]
                    0 <= i < parts.len() ==> exists|n: Seq<char>|
                        #[trigger] jar_entries(*jar).dom().contains(n) && jar_entries(*jar)[n]
                            == parts[i]
            },
{
    let texts = jar_texts(jar);
    let ghost parts = texts@.map_values(|t: String| t@);
    let mut r = String::new();
    let mut i: usize = 0;
    while i < texts.len()
        invariant
            i <= texts@.len(),
            parts == texts@.map_values(|t: String| t@),
            r@ == joined(parts.subrange(0, i as int)),
        decreases texts@.len() - i,
    {
        let ghost p = parts.subrange(0, i + 1);
        assert(p.drop_last() =~= parts.subrange(0, i as int));
        if i > 0 {
            r.append("; ");
        }
        r.append(texts[i].as_str());
        proof {
            if i == 0 {
                assert(p.len() == 1);
                assert(r@ =~= p[0]);
            }
        }
        i = i + 1;
    }
    assert(parts.subrange(0, parts.len() as int) =~= parts);
    assert forall|n: Seq<char>|
        #[trigger] jar_entries(*jar).dom().contains(n) implies parts.contains(
        jar_entries(*jar)[n],
    ) by {
        let i = choose|i: int| 0 <= i < texts@.len() && texts@[i]@ == jar_entries(*jar)[n];
        assert(parts[i] == jar_entries(*jar)[n]);
    }
    assert forall|i: int| #![trigger parts[i]] 0 <= i < parts.len() implies exists|n: Seq<char>|
        #[trigger] jar_entries(*jar).dom().contains(n) && jar_entries(*jar)[n] == parts[i] by {
        assert(parts[i] == texts@[i]@);
    }
    r
}

} // verus!
