#![allow(non_snake_case)]

use rproxy::error::ErrorKind;
use rproxy::header::HeaderField;
use rproxy::target::{normalizeAuthority, parseHttpTarget};

fn normalized(authority: &str, port: u16) -> String {
    normalizeAuthority(authority, port).unwrap()
}

fn host(value: &str) -> Vec<HeaderField> {
    vec![HeaderField { headerName: "Host".to_string(), headerValue: value.to_string() }]
}

#[test]
fn authorities_get_a_port() {
    assert_eq!(normalized("example.com", 80), "example.com:80");
    assert_eq!(normalized(" example.com ", 443), "example.com:443");
    assert_eq!(normalized("example.com:8080", 80), "example.com:8080");
    assert_eq!(normalized("example.com:", 80), "example.com:80");
    assert_eq!(normalized("user@example.com: ", 443), "example.com:443");
    assert_eq!(normalized("user:secret@example.com", 80), "example.com:80");
    assert_eq!(normalized("a@b@c:1", 80), "c:1");
    assert_eq!(normalized("1.2.3.4", 443), "1.2.3.4:443");
}

#[test]
fn ipv6_authorities_get_brackets() {
    assert_eq!(normalized("[::1]", 443), "[::1]:443");
    assert_eq!(normalized("[::1]:8443", 443), "[::1]:8443");
    assert_eq!(normalized("[::1]:", 443), "[::1]:443");
    assert_eq!(normalized("::1", 443), "[::1]:443");
    assert_eq!(normalized("2001:db8::1", 80), "[2001:db8::1]:80");
    assert_eq!(normalized("host:http", 80), "[host:http]:80");
}

#[test]
fn an_empty_authority_is_refused() {
    for authority in ["", "  ", "\t"] {
        let e = normalizeAuthority(authority, 80).unwrap_err();
        assert_eq!(e.kind, ErrorKind::InvalidData);
        assert_eq!(e.message, "empty authority");
    }
    assert_eq!(normalized("user@", 80), ":80");
}

#[test]
fn an_address_is_left_alone_the_second_time() {
    for authority in [
        "a", "a:", "a:1", "u@a", "::1", "[::1]", "[::1]:", "[::1]:2", "a:b", "", ":", "u@ a:b:c",
    ] {
        if let Ok(once) = normalizeAuthority(authority, 80) {
            assert_eq!(normalized(&once, 443), once, "{:?}", authority);
        }
    }
    assert_eq!(normalized("[abc", 80), "[abc:80");
    assert_eq!(normalized("[abc:80", 80), "[abc:80:80");
}

#[test]
fn what_is_dialled_ends_in_a_port() {
    for authority in ["a", "a:", "a:7", "::1", "[::1]", "[::1]:", "[::1]:7", "a:b", ":", "u@"] {
        let address = normalized(authority, 80);
        let port = address.rsplit_once(':').unwrap().1;
        assert!(!port.is_empty() && port.chars().all(|c| c.is_ascii_digit()), "{}", address);
    }
    assert_eq!(normalized("[::1]:http", 80), "[::1]:http");
}

#[test]
fn absolute_targets_name_their_host() {
    let cases = [
        ("http://a", "a:80", "/"),
        ("http://a/", "a:80", "/"),
        ("http://a:81/b/c?d=/e", "a:81", "/b/c?d=/e"),
        ("http://a?b", "a:80", "/?b"),
        ("http://a:/b", "a:80", "/b"),
        ("http://[::1]:8080/x", "[::1]:8080", "/x"),
        ("http://u:p@a/x", "a:80", "/x"),
    ];
    for (target, address, path) in cases {
        assert_eq!(
            parseHttpTarget(target, &[]).unwrap(),
            (address.to_string(), path.to_string()),
            "{}",
            target
        );
        assert!(path.starts_with('/'));
    }
}

#[test]
fn paths_go_to_the_host_that_is_named() {
    assert_eq!(
        parseHttpTarget("/x?y", &host("b:8080")).unwrap(),
        ("b:8080".to_string(), "/x?y".to_string())
    );
}

#[test]
fn bad_targets_are_refused() {
    let cases = [
        ("/x", "missing Host header"),
        ("https://a/", "unsupported HTTP target"),
        ("HTTP://a/", "unsupported HTTP target"),
        ("*", "unsupported HTTP target"),
        ("", "unsupported HTTP target"),
        ("http:///x", "empty authority"),
    ];
    for (target, message) in cases {
        let e = parseHttpTarget(target, &[]).unwrap_err();
        assert_eq!(e.kind, ErrorKind::InvalidData);
        assert_eq!(e.message, message, "{}", target);
    }
    assert_eq!(parseHttpTarget("/x", &host(" ")).unwrap_err().message, "empty authority");
}
