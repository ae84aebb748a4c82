#![allow(non_snake_case)]

use rproxy::error::ErrorKind;
use rproxy::framing::{
    getRequestBodyMode, getResponseBodyMode, parseContentLength, shouldKeepAlive, BodyMode,
};
use rproxy::header::HeaderField;

fn headers(list: &[(&str, &str)]) -> Vec<HeaderField> {
    list.iter()
        .map(|pair| HeaderField {
            headerName: pair.0.to_string(),
            headerValue: pair.1.to_string(),
        })
        .collect()
}

#[test]
fn a_length_may_be_repeated() {
    assert_eq!(parseContentLength(&headers(&[])).unwrap(), None);
    assert_eq!(parseContentLength(&headers(&[("content-length", "12")])).unwrap(), Some(12));
    assert_eq!(
        parseContentLength(&headers(&[("Content-Length", "7, 7"), ("CONTENT-LENGTH", "7")]))
            .unwrap(),
        Some(7)
    );
    assert_eq!(
        parseContentLength(&headers(&[("Content-Length", "18446744073709551615")])).unwrap(),
        Some(u64::MAX)
    );
}

#[test]
fn bad_lengths_are_refused() {
    let cases: [(&[(&str, &str)], &str); 6] = [
        (&[("Content-Length", "")], "empty Content-Length value"),
        (&[("Content-Length", "1,,1")], "empty Content-Length value"),
        (&[("Content-Length", "1"), ("Content-Length", "2")], "conflicting Content-Length values"),
        (&[("Content-Length", "1, 01")], "conflicting Content-Length values"),
        (
            &[("Content-Length", "1x")],
            "invalid Content-Length value: invalid digit found in string",
        ),
        (
            &[("Content-Length", "18446744073709551616")],
            "invalid Content-Length value: number too large to fit in target type",
        ),
    ];
    for (list, message) in cases {
        let e = parseContentLength(&headers(list)).unwrap_err();
        assert_eq!(e.kind, ErrorKind::InvalidData);
        assert_eq!(e.message, message);
        assert_eq!(getRequestBodyMode(&headers(list)).unwrap_err().message, message);
    }
}

#[test]
fn request_bodies_are_announced() {
    assert_eq!(getRequestBodyMode(&headers(&[])).unwrap(), BodyMode::Empty);
    assert_eq!(
        getRequestBodyMode(&headers(&[("Content-Length", "5")])).unwrap(),
        BodyMode::ContentLength(5)
    );
    assert_eq!(
        getRequestBodyMode(&headers(&[
            ("Content-Length", "nonsense"),
            ("Transfer-Encoding", "gzip, Chunked"),
        ]))
        .unwrap(),
        BodyMode::Chunked
    );
}

#[test]
fn response_bodies_depend_on_method_and_status() {
    let sized = headers(&[("Content-Length", "5")]);
    for status in [100, 101, 199, 204, 304] {
        assert_eq!(getResponseBodyMode("GET", status, &sized).unwrap(), BodyMode::Empty);
    }
    assert_eq!(getResponseBodyMode("head", 200, &sized).unwrap(), BodyMode::Empty);
    for status in [99, 200, 205, 303, 500] {
        assert_eq!(
            getResponseBodyMode("GET", status, &sized).unwrap(),
            BodyMode::ContentLength(5)
        );
    }
    assert_eq!(getResponseBodyMode("GET", 200, &[]).unwrap(), BodyMode::UntilClose);
    assert_eq!(
        getResponseBodyMode("GET", 200, &headers(&[("transfer-encoding", "chunked")])).unwrap(),
        BodyMode::Chunked
    );
    assert_eq!(
        getResponseBodyMode("GET", 200, &headers(&[("Content-Length", "")])).unwrap_err().message,
        "empty Content-Length value"
    );
    assert_eq!(
        getResponseBodyMode("GET", 204, &headers(&[("Content-Length", "")])).unwrap(),
        BodyMode::Empty
    );
}

#[test]
fn connections_stay_open_unless_told_otherwise() {
    assert!(shouldKeepAlive("HTTP/1.1", &[]));
    assert!(!shouldKeepAlive("HTTP/1.1", &headers(&[("Connection", "Close")])));
    assert!(!shouldKeepAlive("http/1.0", &[]));
    assert!(shouldKeepAlive("HTTP/1.0", &headers(&[("connection", "Keep-Alive")])));
    assert!(!shouldKeepAlive("HTTP/1.0", &headers(&[("connection", "keep-alive, close")])));
}
