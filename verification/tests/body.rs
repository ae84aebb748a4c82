#![allow(non_snake_case)]

use rproxy::body::{parseChunkSize, BodyAction, BodyForwarder};
use rproxy::error::ErrorKind;
use rproxy::framing::BodyMode;
use rproxy::stream::maxHttpHeaderSize;

/// Passes a body on from some reads; returns what was written, what is left over and how many
/// reads were made, or the error's kind and text.
fn forward(
    mode: BodyMode,
    buffered: &[u8],
    reads: &[&[u8]],
) -> Result<(Vec<u8>, Vec<u8>, usize), (ErrorKind, String)> {
    let mut forwarder = BodyForwarder::start(mode);
    let mut buffer = buffered.to_vec();
    let mut written = Vec::new();
    let mut made = 0;
    loop {
        match forwarder.step(&mut buffer).map_err(|e| (e.kind, e.message))? {
            BodyAction::Write(bytes) => {
                assert!(!bytes.is_empty());
                written.extend_from_slice(&bytes);
            }
            BodyAction::Read => {
                let data = if made < reads.len() { reads[made] } else { b"" };
                made += 1;
                forwarder.receive(&mut buffer, data).map_err(|e| (e.kind, e.message))?;
            }
            BodyAction::Done => return Ok((written, buffer, made)),
        }
    }
}

#[test]
fn an_empty_body_is_done_at_once() {
    let expected = (Vec::new(), b"next".to_vec(), 0);
    assert_eq!(forward(BodyMode::Empty, b"next", &[]), Ok(expected.clone()));
    assert_eq!(forward(BodyMode::ContentLength(0), b"next", &[]), Ok(expected));
}

#[test]
fn a_counted_body_ends_where_its_bytes_end() {
    assert_eq!(
        forward(BodyMode::ContentLength(5), b"ab", &[b"cd", b"efgh"]),
        Ok((b"abcde".to_vec(), b"fgh".to_vec(), 2))
    );
    assert_eq!(
        forward(BodyMode::ContentLength(2), b"abc", &[]),
        Ok((b"ab".to_vec(), b"c".to_vec(), 0))
    );
}

#[test]
fn a_chunked_body_is_passed_on_with_its_framing() {
    let body: &[u8] = b"4;x=y\r\nWiki\r\nA \r\n0123456789\r\n0\r\nTrailer: t\r\n\r\n";
    let mut stream = body.to_vec();
    stream.extend_from_slice(b"GET");
    for size in 1..stream.len() {
        let pieces: Vec<&[u8]> = stream.chunks(size).collect();
        let (written, mut left, made) = forward(BodyMode::Chunked, b"", &pieces).unwrap();
        assert_eq!(written, body);
        for piece in &pieces[made..] {
            left.extend_from_slice(piece);
        }
        assert_eq!(left, b"GET");
    }
}

#[test]
fn a_body_without_a_boundary_ends_with_the_connection() {
    assert_eq!(
        forward(BodyMode::UntilClose, b"ab", &[b"cd", b"", b"ef"]),
        Ok((b"abcd".to_vec(), b"".to_vec(), 2))
    );
}

#[test]
fn a_connection_that_closes_too_early_is_an_error() {
    assert_eq!(
        forward(BodyMode::ContentLength(3), b"ab", &[]),
        Err((ErrorKind::UnexpectedEof, "connection closed during body forwarding".to_string()))
    );
    assert_eq!(
        forward(BodyMode::Chunked, b"5\r\nab", &[]),
        Err((ErrorKind::UnexpectedEof, "connection closed during body forwarding".to_string()))
    );
    for cut in ["", "5", "1\r\na\r\n", "0\r\n", "0\r\nT: t\r\n"] {
        assert_eq!(
            forward(BodyMode::Chunked, cut.as_bytes(), &[]),
            Err((ErrorKind::UnexpectedEof, "connection closed during line read".to_string())),
            "{:?}",
            cut
        );
    }
}

#[test]
fn chunk_sizes_are_hexadecimal() {
    assert_eq!(parseChunkSize(b"1a\r\n").unwrap(), 26);
    assert_eq!(parseChunkSize(b" FF ; name=value\r\n").unwrap(), 255);
    assert_eq!(parseChunkSize(b"0\r\n").unwrap(), 0);
    let cases: [(&[u8], &str); 4] = [
        (b"\r\n", "invalid chunk size: cannot parse integer from empty string"),
        (b";x\r\n", "invalid chunk size: cannot parse integer from empty string"),
        (b"xyz\r\n", "invalid chunk size: invalid digit found in string"),
        (b"10000000000000000\r\n", "invalid chunk size: number too large to fit in target type"),
    ];
    for (line, message) in cases {
        let e = parseChunkSize(line).unwrap_err();
        assert_eq!((e.kind, e.message), (ErrorKind::InvalidData, message.to_string()));
    }
    let bad: &[u8] = b"\xff\r\n";
    let reason = std::str::from_utf8(bad).unwrap_err().to_string();
    assert_eq!(
        parseChunkSize(bad).unwrap_err().message,
        format!("invalid chunk size line: {}", reason)
    );
}

#[test]
fn a_bad_chunk_line_is_passed_on_before_it_is_refused() {
    let mut forwarder = BodyForwarder::start(BodyMode::Chunked);
    let mut buffer = b"zz\r\n".to_vec();
    match forwarder.step(&mut buffer).unwrap() {
        BodyAction::Write(bytes) => assert_eq!(bytes, b"zz\r\n"),
        other => panic!("{:?}", other),
    }
    assert_eq!(
        forwarder.step(&mut buffer).unwrap_err().message,
        "invalid chunk size: invalid digit found in string"
    );
}

#[test]
fn the_largest_chunk_is_counted_with_its_line_end() {
    let mut forwarder = BodyForwarder::start(BodyMode::Chunked);
    let mut buffer = b"ffffffffffffffff\r\n".to_vec();
    assert!(matches!(forwarder.step(&mut buffer), Ok(BodyAction::Write(_))));
    assert!(matches!(forwarder.step(&mut buffer), Ok(BodyAction::Read)));
    assert!(matches!(
        forwarder,
        BodyForwarder::Chunk { remaining: 0x1_0000_0000_0000_0001 }
    ));
}

#[test]
fn a_line_without_end_is_given_up() {
    let long = vec![b'1'; maxHttpHeaderSize + 1];
    assert_eq!(
        forward(BodyMode::Chunked, b"", &[&long]),
        Err((ErrorKind::InvalidData, "HTTP line is too large".to_string()))
    );
}

#[test]
fn silence_is_reported_by_what_was_due() {
    let cases = [
        (BodyMode::ContentLength(1), "body forwarding timeout: late"),
        (BodyMode::Chunked, "line read timeout: late"),
        (BodyMode::UntilClose, "stream forwarding timeout: late"),
    ];
    for (mode, message) in cases {
        let e = BodyForwarder::start(mode).timedOut("late");
        assert_eq!((e.kind, e.message), (ErrorKind::TimedOut, message.to_string()));
    }
}
