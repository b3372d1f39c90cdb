use fuzz_engine::marker::replace_markers;
use fuzz_engine::outcome::{decimal_string, Exchange, FuzzResult};
use fuzz_engine::request::{inject_payload, materialize, Header, TemplateRequest};

fn sample_request() -> TemplateRequest {
    TemplateRequest {
        id: "req_1".to_string(),
        url: "http://example.com/ยงidยง".to_string(),
        method: "get".to_string(),
        headers: vec![
            Header { name: "X-ยงnยง".to_string(), value: "v=ยงaยง".to_string(), enabled: true },
            Header { name: "Accept".to_string(), value: "*/*".to_string(), enabled: false },
        ],
        body_text: Some("{\"q\":\"ยงqยง\"}".to_string()),
    }
}

#[test]
fn two_pairs_replaced() {
    assert_eq!(replace_markers("abcยงXยงdefยงYยง", "Z"), "abcZdefZ");
}

#[test]
fn unmatched_marker_kept() {
    assert_eq!(replace_markers("abcยงXdef", "Z"), "abcยงXdef");
}

#[test]
fn no_marker_unchanged() {
    assert_eq!(replace_markers("plain text", "Z"), "plain text");
    assert_eq!(replace_markers("", "Z"), "");
    assert_eq!(replace_markers("ยX งY", "Z"), "ยX งY");
}

#[test]
fn one_pair_keeps_surroundings() {
    assert_eq!(replace_markers("pre/ยงoldยง/post", "new"), "pre/new/post");
    assert_eq!(replace_markers("ยงยง", "p"), "p");
    assert_eq!(replace_markers("aยงxยงb", ""), "ab");
}

#[test]
fn odd_count_keeps_tail() {
    assert_eq!(replace_markers("aยงxยงbยงtail", "P"), "aPbยงtail");
    assert_eq!(replace_markers("ยง", "P"), "ยง");
}

#[test]
fn payload_with_marker_inserted_verbatim() {
    assert_eq!(replace_markers("ยงxยง-ยงyยง", "ยง"), "ยง-ยง");
}

#[test]
fn inject_touches_url_headers_body() {
    let mut req = sample_request();
    inject_payload(&mut req, "7");
    assert_eq!(req.url, "http://example.com/7");
    assert_eq!(req.headers[0].name, "X-7");
    assert_eq!(req.headers[0].value, "v=7");
    assert!(req.headers[0].enabled);
    assert_eq!(req.headers[1].name, "Accept");
    assert_eq!(req.headers[1].value, "*/*");
    assert!(!req.headers[1].enabled);
    assert_eq!(req.body_text, Some("{\"q\":\"7\"}".to_string()));
    assert_eq!(req.id, "req_1");
    assert_eq!(req.method, "get");
}

#[test]
fn materialize_leaves_template() {
    let template = sample_request();
    let req = materialize(&template, "abc");
    assert_eq!(req.url, "http://example.com/abc");
    assert_eq!(template.url, "http://example.com/ยงidยง");
    assert_eq!(template.headers[0].name, "X-ยงnยง");
    let mut no_body = sample_request();
    no_body.body_text = None;
    assert_eq!(materialize(&no_body, "x").body_text, None);
}

#[test]
fn decimal_strings() {
    assert_eq!(decimal_string(0), "0");
    assert_eq!(decimal_string(7), "7");
    assert_eq!(decimal_string(10), "10");
    assert_eq!(decimal_string(4096), "4096");
    assert_eq!(decimal_string(usize::MAX), usize::MAX.to_string());
}

#[test]
fn result_from_response() {
    let r = FuzzResult::from_exchange(12, "admin", Exchange::Response { status: 404, size: 1234 }, 35);
    assert_eq!(r.request_id, "12");
    assert_eq!(r.payload, "admin");
    assert_eq!(r.status, 404);
    assert_eq!(r.time_ms, 35);
    assert_eq!(r.size_bytes, 1234);
    assert_eq!(r.error, None);
}

#[test]
fn result_from_failure() {
    let r = FuzzResult::from_exchange(
        3,
        "x",
        Exchange::Failure { message: "connection refused".to_string() },
        9,
    );
    assert_eq!(r.request_id, "3");
    assert_eq!(r.status, 0);
    assert_eq!(r.size_bytes, 0);
    assert_eq!(r.time_ms, 9);
    assert_eq!(r.error, Some("connection refused".to_string()));
}

#[test]
fn result_caps_large_values() {
    let r = FuzzResult::from_exchange(0, "", Exchange::Response { status: 200, size: 1 << 40 }, u64::MAX);
    assert_eq!(r.size_bytes, i32::MAX);
    assert_eq!(r.time_ms, i32::MAX);
}
