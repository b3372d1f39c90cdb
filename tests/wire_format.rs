use fuzz_engine::request::Header;
use fuzz_engine::wire::{outgoing_headers, request_url, HeaderLine};

fn header(name: &str, value: &str, enabled: bool) -> Header {
    Header { name: name.to_string(), value: value.to_string(), enabled }
}

fn pairs(lines: &[HeaderLine]) -> Vec<(String, String)> {
    lines.iter().map(|l| (l.name.clone(), l.value.clone())).collect()
}

fn pair(n: &str, v: &str) -> (String, String) {
    (n.to_string(), v.to_string())
}

#[test]
fn schemeless_url_gets_http() {
    assert_eq!(request_url("example.com/1"), "http://example.com/1");
    assert_eq!(request_url(""), "http://");
}

#[test]
fn url_with_scheme_kept() {
    assert_eq!(request_url("http://example.com/1"), "http://example.com/1");
    assert_eq!(request_url("https://example.com"), "https://example.com");
    assert_eq!(request_url("ftp://x"), "http://ftp://x");
}

#[test]
fn defaults_only() {
    let lines = outgoing_headers(&Vec::new());
    assert_eq!(pairs(&lines), vec![pair("user-agent", "yaak-fuzzer"), pair("accept", "*/*")]);
}

#[test]
fn enabled_valid_headers_follow_defaults() {
    let hs = vec![
        header("X-Token", "abc", true),
        header("X-Off", "1", false),
        header("bad name", "1", true),
        header("X-Line", "a\nb", true),
        header("User-Agent", "custom\tagent", true),
        header("", "v", true),
    ];
    let lines = outgoing_headers(&hs);
    assert_eq!(
        pairs(&lines),
        vec![
            pair("user-agent", "yaak-fuzzer"),
            pair("accept", "*/*"),
            pair("x-token", "abc"),
            pair("user-agent", "custom\tagent"),
        ]
    );
}

#[test]
fn non_ascii_value_accepted() {
    let lines = outgoing_headers(&vec![header("X-Word", "ยงé", true)]);
    assert_eq!(lines.len(), 3);
    assert_eq!(lines[2].value, "ยงé");
}
