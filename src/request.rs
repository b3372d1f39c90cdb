//! Template requests and their materialisation: one concrete request per
//! payload, with markers substituted in the URL, the headers and the body text.
use vstd::prelude::*;
use crate::marker::{replace_markers, substituted};

verus! {

/// One request header.
pub struct Header {
    pub name: String,
    pub value: String,
    pub enabled: bool,
}

/// The request that a run fuzzes. `body_text` is the body's textual field,
/// when the body has one.
pub struct TemplateRequest {
    pub id: String,
    pub url: String,
    pub method: String,
    pub headers: Vec<Header>,
    pub body_text: Option<String>,
}

/// A template request together with the wordlist to substitute into it.
pub struct FuzzRequest {
    pub base_request: TemplateRequest,
    pub wordlist: Vec<String>,
}

/// `h` is `g` with the payload `p` substituted into its name and value.
pub open spec fn header_injected(g: Header, h: Header, p: Seq<char>) -> bool {
    &&& h.name@ == substituted(g.name@, p)
    &&& h.value@ == substituted(g.value@, p)
    &&& h.enabled == g.enabled
}

/// `r` is the template `t` with the payload `p` substituted into its URL,
/// every header and the body text; identifier and method are kept.
pub open spec fn request_injected(t: TemplateRequest, r: TemplateRequest, p: Seq<char>) -> bool {
    &&& r.id@ == t.id@
    &&& r.method@ == t.method@
    &&& r.url@ == substituted(t.url@, p)
    &&& r.headers@.len() == t.headers@.len()
    &&& forall|i: int|
        0 <= i < t.headers@.len() ==> header_injected(#[trigger] t.headers@[i], r.headers@[i], p)
    &&& match t.body_text {
        Some(b) => r.body_text is Some && r.body_text->0@ == substituted(b@, p),
        None => r.body_text is None,
    }
}

fn copy_string(s: &String) -> (r: String)
    ensures
        r@ == s@,
{
    s.clone()
}

fn copy_headers(headers: &Vec<Header>) -> (r: Vec<Header>)
    ensures
        r@.len() == headers@.len(),
        forall|i: int|
            0 <= i < headers@.len() ==> {
                &&& (#[trigger] r@[i]).name@ == headers@[i].name@
                &&& r@[i].value@ == headers@[i].value@
                &&& r@[i].enabled == headers@[i].enabled
            },
{
    let mut r: Vec<Header> = Vec::with_capacity(headers.len());
    let mut i: usize = 0;
    while i < headers.len()
        invariant
            i <= headers@.len(),
            r@.len() == i,
            forall|k: int|
                0 <= k < i ==> {
                    &&& (#[trigger] r@[k]).name@ == headers@[k].name@
                    &&& r@[k].value@ == headers@[k].value@
                    &&& r@[k].enabled == headers@[k].enabled
                },
        decreases headers@.len() - i,
    {
        let h = &headers[i];
        r.push(Header { name: copy_string(&h.name), value: copy_string(&h.value), enabled: h.enabled });
        i = i + 1;
    }
    r
}

fn injected_headers(headers: &Vec<Header>, payload: &str) -> (r: Vec<Header>)
    ensures
        r@.len() == headers@.len(),
        forall|i: int|
            0 <= i < headers@.len() ==> header_injected(#[trigger] headers@[i], r@[i], payload@),
{
    let mut r: Vec<Header> = Vec::with_capacity(headers.len());
    let mut i: usize = 0;
    while i < headers.len()
        invariant
            i <= headers@.len(),
            r@.len() == i,
            forall|k: int| 0 <= k < i ==> header_injected(#[trigger] headers@[k], r@[k], payload@),
        decreases headers@.len() - i,
    {
        let h = &headers[i];
        r.push(
            Header {
                name: replace_markers(h.name.as_str(), payload),
                value: replace_markers(h.value.as_str(), payload),
                enabled: h.enabled,
            },
        );
        i = i + 1;
    }
    r
}

/// Substitutes `payload` into the URL, each header's name and value, and the
/// body text of `req`.
pub fn inject_payload(req: &mut TemplateRequest, payload: &str)
    ensures
        request_injected(*old(req), *final(req), payload@),
{
    req.url = replace_markers(req.url.as_str(), payload);
    req.headers = injected_headers(&req.headers, payload);
    let new_text = match &req.body_text {
        Some(text) => Some(replace_markers(text.as_str(), payload)),
        None => None,
    };
    req.body_text = new_text;
}

/// A fresh concrete request: `template` with `payload` substituted. The
/// template itself is left as it is.
pub fn materialize(template: &TemplateRequest, payload: &str) -> (r: TemplateRequest)
    ensures
        request_injected(*template, r, payload@),
{
    let mut req = TemplateRequest {
        id: copy_string(&template.id),
        url: copy_string(&template.url),
        method: copy_string(&template.method),
        headers: copy_headers(&template.headers),
        body_text: match &template.body_text {
            Some(b) => Some(copy_string(b)),
            None => None,
        },
    };
    let ghost copied = req;
    inject_payload(&mut req, payload);
    assert forall|i: int| 0 <= i < template.headers@.len() implies header_injected(
        #[trigger] template.headers@[i],
        req.headers@[i],
        payload@,
    ) by {
        assert(header_injected(copied.headers@[i], req.headers@[i], payload@));
    }
    req
}

} // verus!
