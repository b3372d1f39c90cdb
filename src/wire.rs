//! What a concrete request carries on the wire: its URL, with a scheme when
//! it has none, and the header lines sent with it.
use vstd::prelude::*;
use vstd::string::StrSliceExecFns;
use vstd::string::StringExecFns;
use crate::request::Header;

verus! {

/// One header line to send.
pub struct HeaderLine {
    pub name: String,
    pub value: String,
}

/// `p` is a prefix of `s`.
pub open spec fn has_prefix(s: Seq<char>, p: Seq<char>) -> bool {
    p.len() <= s.len() && s.take(p.len() as int) == p
}

/// The URL requested for `url`: as it is when it names the `http` or `https`
/// scheme, else with `http://` in front.
pub open spec fn url_with_scheme(url: Seq<char>) -> Seq<char> {
    if has_prefix(url, "http://"@) || has_prefix(url, "https://"@) {
        url
    } else {
        "http://"@ + url
    }
}

/// A character that may stand in a header name (an HTTP token character).
pub open spec fn is_token_char(c: char) -> bool {
    ||| '0' <= c && c <= '9'
    ||| 'A' <= c && c <= 'Z'
    ||| 'a' <= c && c <= 'z'
    ||| c == '!' || c == '#' || c == '$' || c == '%' || c == '&' || c == '\''
    ||| c == '*' || c == '+' || c == '-' || c == '.' || c == '^' || c == '_'
    ||| c == '`' || c == '|' || c == '~'
}

/// The lower-case form of an ASCII letter; other characters as they are.
pub open spec fn lower_char(c: char) -> char {
    if 'A' <= c && c <= 'Z' {
        ((c as u32) + 32) as char
    } else {
        c
    }
}

/// A header name the http crate accepts: 1 to 65535 token characters.
pub open spec fn header_name_ok(s: Seq<char>) -> bool {
    &&& 1 <= s.len() <= 65535
    &&& forall|i: int| 0 <= i < s.len() ==> is_token_char(#[trigger] s[i])
}

/// A header value the http crate accepts: no control character but tab.
pub open spec fn header_value_ok(s: Seq<char>) -> bool {
    forall|i: int|
        0 <= i < s.len() ==> (#[trigger] s[i] == '\t' || (s[i] as u32 >= 32 && s[i] as u32 != 127))
}

/// Relies on `http::HeaderName::from_str`: it accepts exactly the names of
/// `header_name_ok` and normalises them to lower case (`as_str`).
#[verifier::external_body]
fn parse_header_name(s: &str) -> (r: Option<String>)
    ensures
        r is Some <==> header_name_ok(s@),
        r matches Some(n) ==> n@ == lower_name(s@),
{
    match <http::HeaderName as std::str::FromStr>::from_str(s) {
        Ok(n) => Some(n.as_str().to_string()),
        Err(_) => None,
    }
}

/// Relies on `http::HeaderValue::from_str`: it accepts exactly the values of
/// `header_value_ok` (every byte visible or a tab; the bytes of a non-ASCII
/// character all are).
#[verifier::external_body]
fn header_value_accepted(s: &str) -> (r: bool)
    ensures
        r == header_value_ok(s@),
{
    <http::HeaderValue as std::str::FromStr>::from_str(s).is_ok()
}

/// The enabled headers of `hs` that the http crate accepts, in order, as
/// (lower-case name, value) pairs.
pub open spec fn accepted(hs: Seq<Header>) -> Seq<(Seq<char>, Seq<char>)>
    decreases hs.len(),
{
    if hs.len() == 0 {
        Seq::empty()
    } else {
        let h = hs.last();
        let rest = accepted(hs.drop_last());
        if h.enabled && header_name_ok(h.name@) && header_value_ok(h.value@) {
            rest.push((lower_name(h.name@), h.value@))
        } else {
            rest
        }
    }
}

/// The lower-case form of a name made of ASCII characters.
pub open spec fn lower_name(s: Seq<char>) -> Seq<char> {
    Seq::new(s.len(), |i: int| lower_char(s[i]))
}

/// The header lines sent by default, before a request's own.
pub open spec fn default_lines() -> Seq<(Seq<char>, Seq<char>)> {
    seq![("user-agent"@, "yaak-fuzzer"@), ("accept"@, "*/*"@)]
}

/// `r` holds the lines `l`.
pub open spec fn lines_are(r: Seq<HeaderLine>, l: Seq<(Seq<char>, Seq<char>)>) -> bool {
    &&& r.len() == l.len()
    &&& forall|k: int| 0 <= k < r.len() ==> (#[trigger] r[k]).name@ == l[k].0 && r[k].value@ == l[k].1
}

fn starts_with(s: &str, p: &str) -> (r: bool)
    ensures
        r == has_prefix(s@, p@),
{
    let n = s.unicode_len();
    let m = p.unicode_len();
    if m > n {
        return false;
    }
    let mut i: usize = 0;
    while i < m
        invariant
            m <= n,
            n == s@.len(),
            m == p@.len(),
            i <= m,
            forall|k: int| 0 <= k < i ==> s@[k] == p@[k],
        decreases m - i,
    {
        if s.get_char(i) != p.get_char(i) {
            assert(s@.take(m as int)[i as int] != p@[i as int]);
            return false;
        }
        i = i + 1;
    }
    assert(s@.take(m as int) =~= p@);
    true
}

/// The URL to request for `url`: `http://` is put in front unless it names
/// the `http` or `https` scheme.
pub fn request_url(url: &str) -> (r: String)
    ensures
        r@ == url_with_scheme(url@),
{
    if starts_with(url, "http://") || starts_with(url, "https://") {
        String::from_str(url)
    } else {
        let mut r = String::from_str("http://");
        r.append(url);
        r
    }
}

/// The header lines to insert, in order, into the request sent for a
/// concrete request with headers `headers`: the defaults, then each enabled
/// header whose name and value the http crate accepts, its name in lower
/// case. A later line replaces an earlier one of the same name.
pub fn outgoing_headers(headers: &Vec<Header>) -> (r: Vec<HeaderLine>)
    ensures
        lines_are(r@, default_lines() + accepted(headers@)),
{
    let mut r: Vec<HeaderLine> = Vec::new();
    r.push(HeaderLine { name: String::from_str("user-agent"), value: String::from_str("yaak-fuzzer") });
    r.push(HeaderLine { name: String::from_str("accept"), value: String::from_str("*/*") });
    let mut i: usize = 0;
    while i < headers.len()
        invariant
            i <= headers@.len(),
            lines_are(r@, default_lines() + accepted(headers@.take(i as int))),
        decreases headers@.len() - i,
    {
        let h = &headers[i];
        proof {
            assert(headers@.take(i + 1).drop_last() =~= headers@.take(i as int));
        }
        if h.enabled {
            let name = parse_header_name(h.name.as_str());
            if let Some(n) = name {
                if header_value_accepted(h.value.as_str()) {
                    r.push(HeaderLine { name: n, value: h.value.clone() });
                }
            }
        }
        i = i + 1;
        proof {
            let l = default_lines() + accepted(headers@.take(i as int));
            assert forall|k: int| 0 <= k < r@.len() implies (#[trigger] r@[k]).name@ == l[k].0 && r@[k].value@ == l[k].1 by {}
        }
    }
    assert(headers@.take(i as int) =~= headers@);
    r
}

} // verus!
