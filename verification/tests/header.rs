#![allow(non_snake_case)]

use rproxy::error::ErrorKind;
use rproxy::header::{
    headerContainsToken, headerValue, isRemovedRequestHeader, isRemovedResponseHeader,
    parseHeaderFields, HeaderField,
};

fn field(name: &str, value: &str) -> HeaderField {
    HeaderField { headerName: name.to_string(), headerValue: value.to_string() }
}

fn lines(list: &[&str]) -> Vec<String> {
    list.iter().map(|line| line.to_string()).collect()
}

#[test]
fn fields_are_trimmed_and_end_at_an_empty_line() {
    let parsed = parseHeaderFields(&lines(&[
        " Host : example.com:80 ",
        "Empty:",
        ": no name",
        "",
        "not a field",
    ]))
    .unwrap();
    let pairs: Vec<(String, String)> =
        parsed.into_iter().map(|f| (f.headerName, f.headerValue)).collect();
    assert_eq!(
        pairs,
        vec![
            ("Host".to_string(), "example.com:80".to_string()),
            ("Empty".to_string(), "".to_string()),
            ("".to_string(), "no name".to_string()),
        ]
    );
}

#[test]
fn a_line_without_a_colon_is_refused() {
    let e = parseHeaderFields(&lines(&["Host: a", "oops"])).unwrap_err();
    assert_eq!(e.kind, ErrorKind::InvalidData);
    assert_eq!(e.message, "invalid HTTP header line");
}

#[test]
fn the_first_field_with_a_name_counts() {
    let headers = vec![field("hOST", "one"), field("Host", "two")];
    assert_eq!(headerValue(&headers, "host"), Some("one".to_string()));
    assert_eq!(headerValue(&headers, "HOST"), headerValue(&headers, "host"));
    assert_eq!(headerValue(&headers, "accept"), None);
    assert_eq!(headers[1].clone().headerValue, "two");
}

#[test]
fn tokens_stand_between_commas() {
    let headers = vec![
        field("Connection", "keep-alive, Upgrade"),
        field("Other", "close"),
        field("connection", " CLOSE "),
    ];
    assert!(headerContainsToken(&headers, "connection", "upgrade"));
    assert!(headerContainsToken(&headers, "Connection", "close"));
    assert!(!headerContainsToken(&headers[..2], "connection", "close"));
    assert!(!headerContainsToken(&headers, "connection", "keep"));
}

#[test]
fn hop_by_hop_fields_are_known() {
    for name in ["Connection", "PROXY-connection", "keep-alive", "Upgrade"] {
        assert!(isRemovedRequestHeader(name) && isRemovedResponseHeader(name), "{}", name);
    }
    assert!(isRemovedRequestHeader("Proxy-Authorization"));
    assert!(!isRemovedResponseHeader("Proxy-Authorization"));
    assert!(isRemovedResponseHeader("Proxy-Authenticate"));
    assert!(!isRemovedRequestHeader("Proxy-Authenticate"));
    assert!(!isRemovedRequestHeader("Host") && !isRemovedResponseHeader("Transfer-Encoding"));
}
