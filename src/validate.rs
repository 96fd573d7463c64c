//! Stateless checks on URLs, methods, headers, JSON text and timeouts.

use vstd::prelude::*;
use vstd::string::*;
use crate::error::TerziError;
use crate::request::opt_view;
use crate::text::{owned, str_eq, to_upper, upper_of};

verus! {

/// What `url::Url::parse` makes of a text: `None` when it is not an absolute
/// URL, else the scheme, the explicit port, the path and the host.
pub uninterp spec fn url_parts_of(s: Seq<char>) -> Option<
    (Seq<char>, Option<u16>, Seq<char>, Option<Seq<char>>),
>;

/// The text parses as an absolute URL.
pub open spec fn url_parses(s: Seq<char>) -> bool {
    url_parts_of(s) is Some
}

/// What `serde_json` prints, pretty or compact, for the value that it parses
/// from a text; `None` when the text is not one complete JSON document.
pub uninterp spec fn json_printed(s: Seq<char>, pretty: bool) -> Option<Seq<char>>;

/// The text is one complete JSON document.
pub open spec fn json_parses(s: Seq<char>) -> bool {
    json_printed(s, false) is Some
}

/// Relies on `url::Url::parse` and the getters `scheme`, `port`, `path` and
/// `host_str`: a function of the text alone.
#[verifier::external_body]
pub(crate) fn url_parts(s: &str) -> (r: Option<(String, Option<u16>, String, Option<String>)>)
    ensures
        match r {
            Some(p) => url_parts_of(s@) == Some((p.0@, p.1, p.2@, opt_view(p.3))),
            None => url_parts_of(s@) is None,
        },
{
    url::Url::parse(s).ok().map(
        |u| (u.scheme().to_string(), u.port(), u.path().to_string(), u.host_str().map(|h| h.to_string())),
    )
}

/// Relies on `serde_json::from_str::<Value>` with `to_string_pretty` or
/// `to_string`: `None` exactly when the text does not parse, since printing a
/// `Value` does not fail; a function of its arguments alone.
#[verifier::external_body]
pub(crate) fn json_print(s: &str, pretty: bool) -> (r: Option<String>)
    ensures
        opt_view(r) == json_printed(s@, pretty),
        r is Some <==> json_parses(s@),
{
    let v: serde_json::Value = serde_json::from_str(s).ok()?;
    if pretty {
        serde_json::to_string_pretty(&v).ok()
    } else {
        serde_json::to_string(&v).ok()
    }
}

/// The supported HTTP verbs, in upper case.
pub open spec fn is_method_name(m: Seq<char>) -> bool {
    m == "GET"@ || m == "POST"@ || m == "PUT"@ || m == "DELETE"@ || m == "PATCH"@ || m == "HEAD"@
        || m == "OPTIONS"@
}

/// A header name: non-empty, ASCII, without `:`, CR or LF.
pub open spec fn header_name_ok(s: Seq<char>) -> bool {
    s.len() > 0 && forall|i: int|
        0 <= i < s.len() ==> (s[i] as u32) < 128 && s[i] != ':' && s[i] != '\n' && s[i] != '\r'
}

/// A header value: without CR or LF.
pub open spec fn header_value_ok(s: Seq<char>) -> bool {
    forall|i: int| 0 <= i < s.len() ==> s[i] != '\n' && s[i] != '\r'
}

/// A timeout in seconds: from 1 to 3600.
pub open spec fn timeout_ok(t: u64) -> bool {
    1 <= t <= 3600
}

/// Whether the text parses as an absolute URL.
pub fn is_valid_url(url: &str) -> (r: bool)
    ensures
        r == url_parses(url@),
{
    url_parts(url).is_some()
}

/// Whether the text is one complete JSON document.
pub fn is_valid_json(json: &str) -> (r: bool)
    ensures
        r == json_parses(json@),
{
    json_print(json, false).is_some()
}

/// Whether `m` is one of the supported verbs, exactly as written.
pub fn is_method_name_exec(m: &str) -> (r: bool)
    ensures
        r == is_method_name(m@),
{
    str_eq(m, "GET") || str_eq(m, "POST") || str_eq(m, "PUT") || str_eq(m, "DELETE") || str_eq(
        m,
        "PATCH",
    ) || str_eq(m, "HEAD") || str_eq(m, "OPTIONS")
}

/// Accepts a method whose upper-case form is a supported verb.
pub fn validate_method(method: &str) -> (r: Result<(), TerziError>)
    ensures
        r is Ok <==> is_method_name(upper_of(method@)),
        r matches Err(TerziError::InvalidInput(_)) || r is Ok,
{
    let up = to_upper(method);
    if is_method_name_exec(up.as_str()) {
        Ok(())
    } else {
        let mut msg = owned("Invalid HTTP method: ");
        msg.append(method);
        Err(TerziError::InvalidInput(msg))
    }
}

/// Accepts a timeout from 1 to 3600 seconds.
pub fn validate_timeout(timeout: u64) -> (r: Result<(), TerziError>)
    ensures
        r is Ok <==> timeout_ok(timeout),
        r matches Err(TerziError::InvalidInput(_)) || r is Ok,
{
    if timeout == 0 {
        return Err(TerziError::InvalidInput(owned("Timeout cannot be zero")));
    }
    if timeout > 3600 {
        return Err(TerziError::InvalidInput(owned("Timeout cannot exceed 1 hour")));
    }
    Ok(())
}

/// Whether `name` may be used as a header name.
pub fn is_valid_header_name(name: &str) -> (r: bool)
    ensures
        r == header_name_ok(name@),
{
    let n = name.unicode_len();
    if n == 0 {
        return false;
    }
    let mut i: usize = 0;
    while i < n
        invariant
            n == name@.len(),
            i <= n,
            forall|j: int|
                0 <= j < i ==> (name@[j] as u32) < 128 && name@[j] != ':' && name@[j] != '\n'
                    && name@[j] != '\r',
        decreases n - i,
    {
        let c = name.get_char(i);
        if !((c as u32) < 128 && c != ':' && c != '\n' && c != '\r') {
            return false;
        }
        i = i + 1;
    }
    true
}

/// Whether `value` may be used as a header value.
pub fn is_valid_header_value(value: &str) -> (r: bool)
    ensures
        r == header_value_ok(value@),
{
    let n = value.unicode_len();
    let mut i: usize = 0;
    while i < n
        invariant
            n == value@.len(),
            i <= n,
            forall|j: int| 0 <= j < i ==> value@[j] != '\n' && value@[j] != '\r',
        decreases n - i,
    {
        let c = value.get_char(i);
        if c == '\n' || c == '\r' {
            return false;
        }
        i = i + 1;
    }
    true
}

/// Number of positions of `s` that hold `c`.
pub open spec fn count_char(s: Seq<char>, c: char) -> nat
    decreases s.len(),
{
    if s.len() == 0 {
        0
    } else {
        count_char(s.drop_last(), c) + if s.last() == c {
            1nat
        } else {
            0nat
        }
    }
}

/// Whether the text has exactly one `@`.
pub fn is_valid_email(email: &str) -> (r: bool)
    ensures
        r == (count_char(email@, '@') == 1),
{
    let n = email.unicode_len();
    let mut count: usize = 0;
    let mut i: usize = 0;
    while i < n
        invariant
            n == email@.len(),
            i <= n,
            count <= i,
            count == count_char(email@.subrange(0, i as int), '@'),
        decreases n - i,
    {
        assert(email@.subrange(0, i + 1).drop_last() =~= email@.subrange(0, i as int));
        if email.get_char(i) == '@' {
            count = count + 1;
        }
        i = i + 1;
    }
    assert(email@.subrange(0, n as int) =~= email@);
    count == 1
}

} // verus!
