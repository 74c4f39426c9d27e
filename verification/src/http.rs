//! The HTTP vocabulary the handlers decide in: response statuses, the
//! cookies they set, and the headers added to every response.
use vstd::prelude::*;

verus! {

/// A response status chosen by a handler.
#[derive(Debug, Clone, Copy, PartialEq, Eq, Structural)]
pub enum HttpStatus {
    Success,
    NoContent,
    SeeOther,
    BadRequest,
    Unauthorized,
    Forbidden,
    NotFound,
    Conflict,
    RequestTimeout,
    InternalServerError,
    ServiceUnavailable,
}

impl HttpStatus {
    pub open spec fn spec_code(self) -> u16 {
        match self {
            HttpStatus::Success => 200,
            HttpStatus::NoContent => 204,
            HttpStatus::SeeOther => 303,
            HttpStatus::BadRequest => 400,
            HttpStatus::Unauthorized => 401,
            HttpStatus::Forbidden => 403,
            HttpStatus::NotFound => 404,
            HttpStatus::Conflict => 409,
            HttpStatus::RequestTimeout => 408,
            HttpStatus::InternalServerError => 500,
            HttpStatus::ServiceUnavailable => 503,
        }
    }

    /// The numeric status code.
    pub fn code(&self) -> (c: u16)
        ensures
            c == self.spec_code(),
    {
        match self {
            HttpStatus::Success => 200,
            HttpStatus::NoContent => 204,
            HttpStatus::SeeOther => 303,
            HttpStatus::BadRequest => 400,
            HttpStatus::Unauthorized => 401,
            HttpStatus::Forbidden => 403,
            HttpStatus::NotFound => 404,
            HttpStatus::Conflict => 409,
            HttpStatus::RequestTimeout => 408,
            HttpStatus::InternalServerError => 500,
            HttpStatus::ServiceUnavailable => 503,
        }
    }
}

/// A cookie to set or remove: its name and value and the attributes given
/// to it (`SameSite=Lax` when `same_site_lax`).
pub struct CookieSpec {
    pub name: String,
    pub value: String,
    pub path: Option<String>,
    pub http_only: bool,
    pub secure: bool,
    pub same_site_lax: bool,
}

pub open spec fn opt_str_view(o: Option<String>) -> Option<Seq<char>> {
    match o {
        Some(s) => Some(s@),
        None => None,
    }
}

/// `c` has exactly the given name, value and attributes.
pub open spec fn cookie_is(
    c: CookieSpec,
    name: Seq<char>,
    value: Seq<char>,
    path: Option<Seq<char>>,
    http_only: bool,
    secure: bool,
    same_site_lax: bool,
) -> bool {
    &&& c.name@ == name
    &&& c.value@ == value
    &&& opt_str_view(c.path) == path
    &&& c.http_only == http_only
    &&& c.secure == secure
    &&& c.same_site_lax == same_site_lax
}

/// A cookie with only a name and a value.
pub fn plain_cookie(name: &str, value: &str) -> (c: CookieSpec)
    ensures
        cookie_is(c, name@, value@, None, false, false, false),
{
    CookieSpec {
        name: name.to_owned(),
        value: value.to_owned(),
        path: None,
        http_only: false,
        secure: false,
        same_site_lax: false,
    }
}

/// The headers added to every response: `nosniff`, `same-origin` referrer
/// policy and `SAMEORIGIN` framing, plus a year-long immutable cache for
/// paths under `/static/`.
pub open spec fn response_headers_for(path: Seq<char>) -> Seq<(Seq<char>, Seq<char>)> {
    let base = seq![
        ("x-content-type-options"@, "nosniff"@),
        ("referrer-policy"@, "same-origin"@),
        ("x-frame-options"@, "SAMEORIGIN"@),
    ];
    if path.len() >= 8 && path.take(8) == "/static/"@ {
        base.push(("cache-control"@, "public, max-age=31536000, immutable"@))
    } else {
        base
    }
}

fn header(name: &str, value: &str) -> (h: (String, String))
    ensures
        h.0@ == name@,
        h.1@ == value@,
{
    (name.to_owned(), value.to_owned())
}

/// The headers to add to the response for a request to `path`, as
/// (lowercase name, value) pairs in the order they are inserted.
pub fn response_headers(path: &str) -> (r: Vec<(String, String)>)
    ensures
        r@.len() == response_headers_for(path@).len(),
        forall|i: int|
            0 <= i < r@.len() ==> (#[trigger] r@[i]).0@ == response_headers_for(path@)[i].0 && r@[i].1@
                == response_headers_for(path@)[i].1,
{
    let mut r: Vec<(String, String)> = Vec::new();
    r.push(header("x-content-type-options", "nosniff"));
    r.push(header("referrer-policy", "same-origin"));
    r.push(header("x-frame-options", "SAMEORIGIN"));
    let v = crate::text::chars_of(path);
    let prefix = crate::text::chars_of("/static/");
    let mut is_static = v.len() >= prefix.len();
    let mut i: usize = 0;
    while i < prefix.len() && is_static
        invariant
            i <= prefix.len(),
            prefix@ == "/static/"@,
            is_static ==> v.len() >= prefix.len() && v@.take(i as int) == prefix@.take(i as int),
            !is_static ==> !(v@.len() >= prefix@.len() && v@.take(prefix@.len() as int) == prefix@),
        decreases prefix.len() - i,
    {
        if v[i] != prefix[i] {
            is_static = false;
            assert(v@.take(prefix@.len() as int)[i as int] != prefix@[i as int]);
        } else {
            assert(v@.take(i + 1) == v@.take(i as int).push(v@[i as int]));
            assert(prefix@.take(i + 1) == prefix@.take(i as int).push(prefix@[i as int]));
        }
        i = i + 1;
    }
    proof {
        reveal_strlit("/static/");
        assert(prefix@.take(prefix@.len() as int) == prefix@);
    }
    if is_static {
        r.push(header("cache-control", "public, max-age=31536000, immutable"));
    }
    r
}

} // verus!
