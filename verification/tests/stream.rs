#![allow(non_snake_case)]

use rproxy::error::ErrorKind;
use rproxy::stream::{
    appendBytes, findCrLf, findHttpHeaderEnd, maxHttpHeaderSize, takeCrLfLine, takeFront,
    takeHttpHeader,
};

#[test]
fn marks_are_found_where_they_end() {
    assert_eq!(findHttpHeaderEnd(b"a\r\n\r\nb\r\n\r\n"), Some(5));
    assert_eq!(findHttpHeaderEnd(b"\r\n\r\n"), Some(4));
    assert_eq!(findHttpHeaderEnd(b"a\r\n\r"), None);
    assert_eq!(findHttpHeaderEnd(b"\r\n\n\r\n"), None);
    assert_eq!(findHttpHeaderEnd(b""), None);
    assert_eq!(findCrLf(b"a\r\r\nb"), Some(4));
    assert_eq!(findCrLf(b"\n\r"), None);
}

#[test]
fn a_head_is_cut_off_and_the_rest_is_kept() {
    let mut buffer = b"head\r\n\r\nbody".to_vec();
    assert_eq!(takeHttpHeader(&mut buffer).unwrap(), Some(b"head\r\n\r\n".to_vec()));
    assert_eq!(buffer, b"body");
    assert_eq!(takeHttpHeader(&mut buffer).unwrap(), None);
    assert_eq!(buffer, b"body");
}

#[test]
fn a_mark_stays_where_it_is_when_more_arrives() {
    let mut buffer = b"line\r".to_vec();
    assert_eq!(takeCrLfLine(&mut buffer).unwrap(), None);
    appendBytes(&mut buffer, b"\nmore\r\n");
    assert_eq!(findCrLf(&buffer), Some(6));
    assert_eq!(takeCrLfLine(&mut buffer).unwrap(), Some(b"line\r\n".to_vec()));
    assert_eq!(buffer, b"more\r\n");
}

#[test]
fn what_grows_too_large_is_refused() {
    let mut buffer = vec![b'a'; maxHttpHeaderSize];
    assert_eq!(takeHttpHeader(&mut buffer).unwrap(), None);
    assert_eq!(takeCrLfLine(&mut buffer).unwrap(), None);
    buffer.push(b'a');
    let e = takeHttpHeader(&mut buffer).unwrap_err();
    assert_eq!((e.kind, e.message), (
        ErrorKind::InvalidData,
        "HTTP header is too large".to_string(),
    ));
    let e = takeCrLfLine(&mut buffer).unwrap_err();
    assert_eq!((e.kind, e.message), (
        ErrorKind::InvalidData,
        "HTTP line is too large".to_string(),
    ));
    assert_eq!(buffer.len(), maxHttpHeaderSize + 1);
    appendBytes(&mut buffer, b"\r\n\r\n");
    assert_eq!(takeHttpHeader(&mut buffer).unwrap().unwrap().len(), maxHttpHeaderSize + 5);
}

#[test]
fn the_front_is_taken() {
    let mut buffer = b"abc".to_vec();
    assert_eq!(takeFront(&mut buffer, 2), b"ab");
    assert_eq!(buffer, b"c");
    assert_eq!(takeFront(&mut buffer, 0), b"");
}
