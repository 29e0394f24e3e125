use echo_server::echo::{echo_handler, respond, synthesize, Request, Response};
use echo_server::headers::{Header, HeaderClass, HeaderRules};
use echo_server::trace::{observe, show_headers, ShownHeader};

fn header(name: &str, value: &str) -> Header {
    Header { name: name.to_string(), value: value.as_bytes().to_vec() }
}

fn shown(name: &str, value: &str) -> ShownHeader {
    ShownHeader { name: name.to_string(), value: value.to_string() }
}

fn get(headers: Vec<Header>, body: &[u8]) -> Request {
    Request {
        method: "GET".to_string(),
        path: "/foo".to_string(),
        query: "x=1".to_string(),
        headers,
        body: body.to_vec(),
    }
}

#[test]
fn plain_request_is_mirrored() {
    let rules = HeaderRules::new();
    let response = respond(&rules, &get(vec![header("X-Test", "a")], b"hello"));
    assert_eq!(response.status, 200);
    assert_eq!(response.headers, vec![header("X-Test", "a")]);
    assert_eq!(response.body, "hello");
}

#[test]
fn status_control_header_sets_the_status() {
    let rules = HeaderRules::new();
    let request = get(vec![header("X-Test", "a"), header("internal.status-code", "404")], b"hello");
    let response = respond(&rules, &request);
    assert_eq!(response.status, 404);
    assert_eq!(response.headers, vec![header("X-Test", "a")]);
    assert_eq!(response.body, "hello");
}

#[test]
fn body_control_header_sets_the_body() {
    let rules = HeaderRules::new();
    let request =
        get(vec![header("X-Test", "a"), header("internal.response-body", "override")], b"hello");
    let response = respond(&rules, &request);
    assert_eq!(response.status, 200);
    assert_eq!(response.headers, vec![header("X-Test", "a")]);
    assert_eq!(response.body, "override");
}

#[test]
fn authorization_is_not_mirrored() {
    let rules = HeaderRules::new();
    let request = get(vec![header("Authorization", "Bearer xyz")], b"");
    let response = respond(&rules, &request);
    assert!(response.headers.is_empty());
    assert_eq!(response.status, 200);
    assert_eq!(response.body, "");
}

#[test]
fn status_falls_back_to_200() {
    let rules = HeaderRules::new();
    let mut cases: Vec<(&str, u16)> = Vec::new();
    cases.push(("100", 100));
    cases.push(("999", 999));
    cases.push(("+204", 204));
    cases.push(("0404", 404));
    cases.push(("99", 200));
    cases.push(("1000", 200));
    cases.push(("0", 200));
    cases.push(("65535", 200));
    cases.push(("65536", 200));
    cases.push(("-404", 200));
    cases.push(("4o4", 200));
    cases.push((" 404", 200));
    cases.push(("404 ", 200));
    cases.push(("", 200));
    cases.push(("teapot", 200));
    for (value, expected) in cases {
        let request = get(vec![header("internal.status-code", value)], b"");
        assert_eq!(respond(&rules, &request).status, expected, "value {:?}", value);
    }
}

#[test]
fn status_value_that_is_not_text_is_ignored() {
    let rules = HeaderRules::new();
    let request = get(
        vec![Header { name: "internal.status-code".to_string(), value: vec![b'4', b'0', b'4', 0x80] }],
        b"",
    );
    assert_eq!(respond(&rules, &request).status, 200);
}

#[test]
fn first_control_header_wins() {
    let rules = HeaderRules::new();
    let request = get(
        vec![
            header("internal.status-code", "201"),
            header("Internal.Status-Code", "404"),
            header("INTERNAL.RESPONSE-BODY", "first"),
            header("internal.response-body", "second"),
        ],
        b"ignored",
    );
    let response = respond(&rules, &request);
    assert_eq!(response.status, 201);
    assert_eq!(response.body, "first");
    assert!(response.headers.is_empty());
}

#[test]
fn first_status_header_decides_even_when_it_is_bad() {
    let rules = HeaderRules::new();
    let request = get(
        vec![header("internal.status-code", "bad"), header("internal.status-code", "404")],
        b"",
    );
    assert_eq!(respond(&rules, &request).status, 200);
}

#[test]
fn body_override_may_be_empty() {
    let rules = HeaderRules::new();
    let request = get(vec![header("internal.response-body", "")], b"hello");
    assert_eq!(respond(&rules, &request).body, "");
}

#[test]
fn body_override_that_is_not_text_gives_the_request_body() {
    let rules = HeaderRules::new();
    let request = get(
        vec![Header { name: "internal.response-body".to_string(), value: vec![0xC3, 0xA9] }],
        b"hello",
    );
    assert_eq!(respond(&rules, &request).body, "hello");
}

#[test]
fn body_override_keeps_tabs_and_blanks() {
    let rules = HeaderRules::new();
    let request = get(vec![header("internal.response-body", "a\tb c~")], b"hello");
    assert_eq!(respond(&rules, &request).body, "a\tb c~");
}

#[test]
fn body_is_decoded_leniently() {
    let rules = HeaderRules::new();
    let response = respond(&rules, &get(Vec::new(), &[b'a', 0xFF, b'b']));
    assert_eq!(response.body, "a\u{FFFD}b");
    let response = respond(&rules, &get(Vec::new(), "h\u{e9}llo \u{1F600}".as_bytes()));
    assert_eq!(response.body, "h\u{e9}llo \u{1F600}");
    assert_eq!(response.body.as_bytes(), "h\u{e9}llo \u{1F600}".as_bytes());
}

#[test]
fn reserved_and_control_headers_never_come_back() {
    let rules = HeaderRules::new();
    let names = [
        "content-length", "user-agent", "host", "connection", "accept", "accept-encoding",
        "accept-language", "cache-control", "upgrade-insecure-requests", "sec-fetch-dest",
        "sec-fetch-mode", "sec-fetch-site", "sec-ch-ua", "sec-ch-ua-mobile",
        "sec-ch-ua-platform", "authorization", "cookie", "referer", "origin",
        "x-forwarded-for", "x-forwarded-proto", "x-real-ip", "transfer-encoding", "te",
        "trailer", "proxy-authorization", "proxy-authenticate", "www-authenticate",
    ];
    assert_eq!(names.len(), 28);
    for name in names {
        assert_eq!(rules.classify(name), HeaderClass::Reserved, "{}", name);
        assert_eq!(rules.classify(&name.to_uppercase()), HeaderClass::Reserved, "{}", name);
        let response = respond(&rules, &get(vec![header(name, "v"), header("X-Kept", "k")], b""));
        assert_eq!(response.headers, vec![header("X-Kept", "k")]);
    }
    assert_eq!(rules.classify("internal.status-code"), HeaderClass::Control);
    assert_eq!(rules.classify("Internal.Response-Body"), HeaderClass::Control);
}

#[test]
fn other_names_pass() {
    let rules = HeaderRules::new();
    assert_eq!(rules.classify("X-Test"), HeaderClass::PassThrough);
    assert_eq!(rules.classify("content-type"), HeaderClass::PassThrough);
    assert_eq!(rules.classify("accept-charset"), HeaderClass::PassThrough);
    assert_eq!(rules.classify("x-forwarded-host"), HeaderClass::PassThrough);
    assert_eq!(rules.classify("internal.status-codes"), HeaderClass::PassThrough);
    assert_eq!(rules.classify("internal.status"), HeaderClass::PassThrough);
    assert_eq!(rules.classify(" host"), HeaderClass::PassThrough);
    assert_eq!(rules.classify(""), HeaderClass::PassThrough);
    assert_eq!(rules.classify("coo\u{212A}ie"), HeaderClass::PassThrough);
}

#[test]
fn passing_headers_keep_name_value_order_and_repetition() {
    let rules = HeaderRules::new();
    let request = get(
        vec![
            header("X-B", "1"),
            header("Host", "example.org"),
            header("X-A", "2"),
            header("x-b", "3"),
            header("Cookie", "c=1"),
            header("X-B", "1"),
            header("internal.status-code", "202"),
            header("Content-Type", "text/plain"),
        ],
        b"",
    );
    let response = respond(&rules, &request);
    assert_eq!(
        response.headers,
        vec![
            header("X-B", "1"),
            header("X-A", "2"),
            header("x-b", "3"),
            header("X-B", "1"),
            header("Content-Type", "text/plain"),
        ]
    );
    assert_eq!(response.status, 202);
}

#[test]
fn header_whose_value_is_not_text_is_left_out() {
    let rules = HeaderRules::new();
    let request = get(
        vec![
            header("X-First", "1"),
            Header { name: "X-Bin".to_string(), value: vec![0xFF] },
            Header { name: "X-Ctl".to_string(), value: vec![b'a', 0x07] },
            Header { name: "X-Del".to_string(), value: vec![0x7F] },
            header("X-Tab", "a\tb"),
            header("X-Empty", ""),
        ],
        b"",
    );
    let response = respond(&rules, &request);
    assert_eq!(
        response.headers,
        vec![header("X-First", "1"), header("X-Tab", "a\tb"), header("X-Empty", "")]
    );
}

#[test]
fn same_request_same_response() {
    let rules = HeaderRules::new();
    let request = get(
        vec![header("X-Test", "a"), header("internal.status-code", "418"), header("Host", "h")],
        &[0xC0, b'x'],
    );
    let first = respond(&rules, &request);
    let second = respond(&HeaderRules::new(), &request.clone());
    assert_eq!(first, second);
    assert_eq!(first.status, 418);
    assert_eq!(first.body.as_bytes(), second.body.as_bytes());
}

#[test]
fn synthesize_builds_what_it_is_given() {
    let response = synthesize(
        vec![header("X-A", "1"), Header { name: "X-B".to_string(), value: vec![0x80] }],
        503,
        "down".to_string(),
    );
    assert_eq!(
        response,
        Response { status: 503, headers: vec![header("X-A", "1")], body: "down".to_string() }
    );
    assert_eq!(synthesize(Vec::new(), 99, String::new()).status, 200);
    assert_eq!(synthesize(Vec::new(), 1000, String::new()).status, 200);
    assert_eq!(synthesize(Vec::new(), 100, String::new()).status, 100);
    assert_eq!(synthesize(Vec::new(), 999, String::new()).status, 999);
}

#[test]
fn resolve_gives_status_and_body() {
    let rules = HeaderRules::new();
    let headers = vec![header("internal.status-code", "301"), header("X", "y")];
    assert_eq!(rules.resolve(&headers, b"body"), (301, "body".to_string()));
    assert_eq!(rules.resolve(&Vec::new(), b""), (200, String::new()));
    assert_eq!(
        rules.pass_through(&headers),
        vec![header("X", "y")]
    );
}

#[test]
fn quiet_mode_records_nothing() {
    let rules = HeaderRules::new();
    let request = get(vec![header("X-Test", "a")], b"hello");
    let (response, trace) = echo_handler(&rules, &request, false);
    assert_eq!(response, respond(&rules, &request));
    assert!(trace.is_none());
}

#[test]
fn verbose_mode_records_the_exchange() {
    let rules = HeaderRules::new();
    let request = get(
        vec![
            header("X-Test", "a"),
            header("Authorization", "Bearer xyz"),
            header("internal.status-code", "404"),
        ],
        b"hello",
    );
    let (response, trace) = echo_handler(&rules, &request, true);
    let trace = trace.unwrap();
    assert_eq!(trace, observe(&request, &response));
    assert_eq!(trace.method, "GET");
    assert_eq!(trace.path, "/foo");
    assert_eq!(trace.query, "x=1");
    assert_eq!(
        trace.request_headers,
        vec![
            shown("X-Test", "a"),
            shown("Authorization", "Bearer xyz"),
            shown("internal.status-code", "404"),
        ]
    );
    assert_eq!(trace.request_body, Some("hello".to_string()));
    assert_eq!(trace.status, 404);
    assert_eq!(trace.response_headers, vec![shown("X-Test", "a")]);
    assert_eq!(trace.response_body, "hello");
}

#[test]
fn trace_of_an_empty_body_has_no_request_body() {
    let rules = HeaderRules::new();
    let request = get(vec![header("internal.response-body", "canned")], b"");
    let (_, trace) = echo_handler(&rules, &request, true);
    let trace = trace.unwrap();
    assert_eq!(trace.request_body, None);
    assert_eq!(trace.response_body, "canned");
}

#[test]
fn headers_that_are_not_text_are_not_shown() {
    let headers = vec![
        header("Host", "example.org"),
        Header { name: "X-Bin".to_string(), value: vec![0xE2, 0x82, 0xAC] },
        header("x-tab", "a\tb"),
    ];
    assert_eq!(show_headers(&headers), vec![shown("Host", "example.org"), shown("x-tab", "a\tb")]);
    assert_eq!(show_headers(&Vec::new()), Vec::new());
}

#[test]
fn trace_shows_a_body_that_is_not_utf8() {
    let rules = HeaderRules::new();
    let request = get(Vec::new(), &[0x80]);
    let (response, trace) = echo_handler(&rules, &request, true);
    let trace = trace.unwrap();
    assert_eq!(trace.request_body, Some("\u{FFFD}".to_string()));
    assert_eq!(trace.response_body, "\u{FFFD}");
    assert_eq!(response.body, "\u{FFFD}");
    assert!(trace.request_headers.is_empty());
    assert!(trace.response_headers.is_empty());
    assert_eq!(trace.status, 200);
}
