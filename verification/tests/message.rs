#![allow(non_snake_case)]

use rproxy::error::ErrorKind;
use rproxy::framing::{getRequestBodyMode, BodyMode};
use rproxy::header::HeaderField;
use rproxy::message::{
    buildClientResponseHeader, buildForwardRequestHeader, parseHttpRequest, parseHttpResponse,
    HttpRequest,
};
use rproxy::stream::findHttpHeaderEnd;
use rproxy::target::parseHttpTarget;

#[test]
fn a_request_is_parsed() {
    let request =
        parseHttpRequest(b"GET  http://a/b\tHTTP/1.0 extra\r\nHost: a\r\nX:1\r\n\r\n").unwrap();
    assert_eq!(request.method, "GET");
    assert_eq!(request.target, "http://a/b");
    assert_eq!(request.version, "HTTP/1.0");
    assert_eq!(request.headers.len(), 2);
    assert_eq!(request.headers[1].headerName, "X");
    assert_eq!(request.headers[1].headerValue, "1");
}

#[test]
fn a_request_without_a_version_is_http_1_1() {
    assert_eq!(parseHttpRequest(b"GET /\r\n\r\n").unwrap().version, "HTTP/1.1");
}

#[test]
fn bad_requests_are_refused() {
    let cases: [(&[u8], &str); 4] = [
        (b"\r\n\r\n", "missing HTTP method"),
        (b"  \r\nHost: a\r\n\r\n", "missing HTTP method"),
        (b"GET\r\n\r\n", "missing HTTP target"),
        (b"GET / HTTP/1.1\r\nbroken\r\n\r\n", "invalid HTTP header line"),
    ];
    for (bytes, message) in cases {
        let e = parseHttpRequest(bytes).unwrap_err();
        assert_eq!(e.kind, ErrorKind::InvalidData);
        assert_eq!(e.message, message);
    }
}

#[test]
fn bytes_that_are_no_text_are_refused_in_the_words_of_the_standard_library() {
    let bytes: &[u8] = b"GET /\xff HTTP/1.1\r\n\r\n";
    let reason = std::str::from_utf8(bytes).unwrap_err().to_string();
    assert_eq!(
        parseHttpRequest(bytes).unwrap_err().message,
        format!("invalid HTTP request header encoding: {}", reason)
    );
    let cut: &[u8] = b"HTTP/1.1 200 \xe4\xb8";
    let reason = std::str::from_utf8(cut).unwrap_err().to_string();
    assert_eq!(
        parseHttpResponse(cut).unwrap_err().message,
        format!("invalid HTTP response header encoding: {}", reason)
    );
}

#[test]
fn text_beyond_ascii_gets_through() {
    let request = parseHttpRequest("GET /\u{4e2d} HTTP/1.1\r\nX: \u{e9}\r\n\r\n".as_bytes()).unwrap();
    assert_eq!(request.target, "/\u{4e2d}");
    assert_eq!(request.headers[0].headerValue, "\u{e9}");
}

#[test]
fn a_response_is_parsed() {
    let response =
        parseHttpResponse(b"HTTP/1.1 404 Not  Found\r\nContent-Length: 0\r\n\r\n").unwrap();
    assert_eq!(response.version, "HTTP/1.1");
    assert_eq!(response.statusCode, 404);
    assert_eq!(response.reason, "Not  Found");
    assert_eq!(response.headers.len(), 1);
    assert_eq!(parseHttpResponse(b"HTTP/1.1 200\r\n\r\n").unwrap().reason, "");
    assert_eq!(parseHttpResponse(b"HTTP/1.1 +200 \r\n\r\n").unwrap().statusCode, 200);
}

#[test]
fn bad_responses_are_refused() {
    let cases: [(&[u8], &str); 5] = [
        (b"HTTP/1.1\r\n\r\n", "missing HTTP status code"),
        (
            b"HTTP/1.1  200\r\n\r\n",
            "invalid HTTP status code: cannot parse integer from empty string",
        ),
        (b"HTTP/1.1 2x0\r\n\r\n", "invalid HTTP status code: invalid digit found in string"),
        (
            b"HTTP/1.1 65536 OK\r\n\r\n",
            "invalid HTTP status code: number too large to fit in target type",
        ),
        (b"HTTP/1.1 200 OK\r\nbroken\r\n\r\n", "invalid HTTP header line"),
    ];
    for (bytes, message) in cases {
        let e = parseHttpResponse(bytes).unwrap_err();
        assert_eq!(e.kind, ErrorKind::InvalidData);
        assert_eq!(e.message, message);
    }
}

#[test]
fn a_request_is_passed_on_without_its_hop_by_hop_fields() {
    let request = parseHttpRequest(
        b"POST http://a:8080/x HTTP/1.1\r\nProxy-Connection: keep-alive\r\nAccept:  */*\r\n\
          Connection: keep-alive\r\nContent-Length: 3\r\nUpgrade: h2c\r\n\r\n",
    )
    .unwrap();
    assert_eq!(
        buildForwardRequestHeader(&request, "/x", "a:8080"),
        "POST /x HTTP/1.1\r\nAccept: */*\r\nContent-Length: 3\r\nHost: a:8080\r\n\
         Connection: close\r\n\r\n"
    );
}

#[test]
fn the_clients_host_field_is_kept() {
    let request = parseHttpRequest(b"GET / HTTP/1.1\r\nhost: b\r\n\r\n").unwrap();
    assert_eq!(
        buildForwardRequestHeader(&request, "/", "a:80"),
        "GET / HTTP/1.1\r\nhost: b\r\nConnection: close\r\n\r\n"
    );
}

#[test]
fn a_response_is_passed_on_with_the_decision_on_the_connection() {
    let response = parseHttpResponse(
        b"HTTP/1.1 200 OK\r\nConnection: close\r\nProxy-Authenticate: Basic\r\nX: y\r\n\r\n",
    )
    .unwrap();
    assert_eq!(
        buildClientResponseHeader(&response, true),
        "HTTP/1.1 200 OK\r\nX: y\r\nConnection: keep-alive\r\n\r\n"
    );
    assert_eq!(
        buildClientResponseHeader(&response, false),
        "HTTP/1.1 200 OK\r\nX: y\r\nConnection: close\r\n\r\n"
    );
    let short = parseHttpResponse(b"HTTP/1.0 007\r\n\r\n").unwrap();
    assert_eq!(
        buildClientResponseHeader(&short, false),
        "HTTP/1.0 7\r\nConnection: close\r\n\r\n"
    );
}

#[test]
fn a_built_head_ends_once_and_announces_the_same_body() {
    let field = |name: &str, value: &str| HeaderField {
        headerName: name.to_string(),
        headerValue: value.to_string(),
    };
    for (headers, mode) in [
        (vec![field("Content-Length", "3")], BodyMode::ContentLength(3)),
        (vec![field("Upgrade", "x"), field("Transfer-Encoding", "chunked")], BodyMode::Chunked),
        (vec![field("Connection", "Content-Length")], BodyMode::Empty),
    ] {
        let request = HttpRequest {
            method: "PUT".to_string(),
            target: "*".to_string(),
            version: "HTTP/1.1".to_string(),
            headers,
        };
        let mut head = buildForwardRequestHeader(&request, "/p", " a:80 ").into_bytes();
        let length = head.len();
        head.extend_from_slice(b"\r\n\r\n");
        assert_eq!(findHttpHeaderEnd(&head), Some(length));
        let again = parseHttpRequest(&head[..length]).unwrap();
        assert_eq!(getRequestBodyMode(&again.headers).unwrap(), mode);
        assert_eq!(getRequestBodyMode(&request.headers).unwrap(), mode);
    }
}

#[test]
fn heads_that_are_passed_on_read_back() {
    let request = parseHttpRequest(
        b"GET \x0b http://u@h/p?q=1 HTTP/1.1\r\n  A\n:\t x \r \r\nKeep-Alive: 5\r\n\r\n",
    )
    .unwrap();
    let (address, path) = parseHttpTarget(&request.target, &request.headers).unwrap();
    let text = buildForwardRequestHeader(&request, &path, &address);
    let again = parseHttpRequest(text.as_bytes()).unwrap();
    assert_eq!((again.method, again.target, again.version), (
        "GET".to_string(),
        "/p?q=1".to_string(),
        "HTTP/1.1".to_string(),
    ));
    let pairs: Vec<(String, String)> =
        again.headers.into_iter().map(|f| (f.headerName, f.headerValue)).collect();
    assert_eq!(
        pairs,
        vec![
            ("A".to_string(), "x".to_string()),
            ("Host".to_string(), "h:80".to_string()),
            ("Connection".to_string(), "close".to_string()),
        ]
    );

    let response = parseHttpResponse(b"HTTP/1.1 200 a b \r\r\nX: \r\n\r\n").unwrap();
    let again =
        parseHttpResponse(buildClientResponseHeader(&response, true).as_bytes()).unwrap();
    assert_eq!(again.statusCode, 200);
    assert_eq!(again.reason, "a b \r");
    assert_eq!(again.headers.len(), 2);
    assert_eq!(again.headers[1].headerValue, "keep-alive");
}
