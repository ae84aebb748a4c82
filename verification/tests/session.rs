#![allow(non_snake_case)]

use rproxy::error::ErrorKind;
use rproxy::exchange::{planRequest, planResponseHead, Pending};
use rproxy::message::parseHttpRequest;
use rproxy::session::{HttpAction, HttpSession};
use rproxy::stream::maxHttpHeaderSize;

/// What a driven connection did.
#[derive(Debug, Default, PartialEq)]
struct Record {
    dialled: Vec<String>,
    tunnels: Vec<String>,
    toRemote: Vec<u8>,
    toClient: Vec<u8>,
    summaries: Vec<String>,
    relayed: bool,
    error: Option<(ErrorKind, String)>,
}

fn next<'a>(reads: &mut Vec<&'a [u8]>) -> &'a [u8] {
    if reads.is_empty() {
        b""
    } else {
        reads.remove(0)
    }
}

/// Drives a connection to its end. Reads that are not there find the connection closed; every
/// dialled server offers the next list of reads.
fn drive(client: &[&[u8]], servers: &[&[&[u8]]]) -> Record {
    let mut session = HttpSession::new();
    let mut record = Record::default();
    let mut client: Vec<&[u8]> = client.to_vec();
    let mut remote: Vec<&[u8]> = Vec::new();
    let mut server = 0;
    loop {
        let action = match session.next() {
            Ok(action) => action,
            Err(e) => {
                record.error = Some((e.kind, e.message));
                return record;
            }
        };
        let received = match action {
            HttpAction::ReadClient => session.receive(next(&mut client)),
            HttpAction::ReadRemote => session.receive(next(&mut remote)),
            HttpAction::WriteClient(bytes) => {
                record.toClient.extend_from_slice(&bytes);
                Ok(())
            }
            HttpAction::WriteRemote(bytes) => {
                record.toRemote.extend_from_slice(&bytes);
                Ok(())
            }
            HttpAction::TunnelAsked(target) => {
                record.tunnels.push(target);
                Ok(())
            }
            HttpAction::Connect(address) => {
                record.dialled.push(address);
                if server < servers.len() {
                    remote = servers[server].to_vec();
                    server += 1;
                }
                Ok(())
            }
            HttpAction::Relay => {
                record.relayed = true;
                Ok(())
            }
            HttpAction::Finished(summary) => {
                record.summaries.push(summary);
                Ok(())
            }
            HttpAction::Close => return record,
        };
        if let Err(e) = received {
            record.error = Some((e.kind, e.message));
            return record;
        }
    }
}

fn text(bytes: &[u8]) -> String {
    String::from_utf8(bytes.to_vec()).unwrap()
}

#[test]
fn a_request_is_answered_and_the_connection_stays_open() {
    let record = drive(
        &[b"POST http://a/x HTTP/1.1\r\nContent-Le", b"ngth: 3\r\n\r\nab", b"c"],
        &[&[b"HTTP/1.1 201 Created\r\nContent-Length: 2\r\n\r\no", b"k extra"]],
    );
    assert_eq!(record.error, None);
    assert_eq!(record.dialled, vec!["a:80"]);
    assert_eq!(
        text(&record.toRemote),
        "POST /x HTTP/1.1\r\nContent-Length: 3\r\nHost: a:80\r\nConnection: close\r\n\r\nabc"
    );
    assert_eq!(
        text(&record.toClient),
        "HTTP/1.1 201 Created\r\nContent-Length: 2\r\nConnection: keep-alive\r\n\r\nok"
    );
    assert_eq!(record.summaries, vec!["POST http://a/x -> 201 Created"]);
}

#[test]
fn requests_that_come_together_are_served_one_after_the_other() {
    let record = drive(
        &[b"POST http://a/ HTTP/1.1\r\nContent-Length: 1\r\n\r\nxGET http://b/ HTTP/1.0\r\n\r\nrest"],
        &[
            &[b"HTTP/1.1 204 No Content\r\n\r\n"],
            &[b"HTTP/1.1 200 OK\r\nContent-Length: 1\r\n\r\ny"],
        ],
    );
    assert_eq!(record.error, None);
    assert_eq!(record.dialled, vec!["a:80", "b:80"]);
    assert_eq!(record.summaries, vec![
        "POST http://a/ -> 204 No Content",
        "GET http://b/ -> 200 OK",
    ]);
    assert_eq!(
        text(&record.toClient),
        "HTTP/1.1 204 No Content\r\nConnection: keep-alive\r\n\r\n\
         HTTP/1.1 200 OK\r\nContent-Length: 1\r\nConnection: close\r\n\r\ny"
    );
}

#[test]
fn an_exchange_does_not_depend_on_how_the_streams_are_cut() {
    let request: &[u8] =
        b"PUT http://a/ HTTP/1.1\r\nTransfer-Encoding: chunked\r\n\r\n3\r\nabc\r\n0\r\n\r\n";
    let response: &[u8] = b"HTTP/1.1 200 OK\r\nTransfer-Encoding: chunked\r\n\r\n1\r\nz\r\n0\r\n\r\n";
    let whole = drive(&[request], &[&[response]]);
    assert_eq!(whole.error, None);
    assert_eq!(whole.summaries.len(), 1);
    for size in 1..20 {
        let client: Vec<&[u8]> = request.chunks(size).collect();
        let server: Vec<&[u8]> = response.chunks(size + 1).collect();
        assert_eq!(drive(&client, &[&server]), whole);
    }
}

#[test]
fn a_response_without_a_boundary_ends_the_connection() {
    let record = drive(
        &[b"GET http://a/ HTTP/1.1\r\n\r\n"],
        &[&[b"HTTP/1.1 200 OK\r\n\r\nabc", b"def"]],
    );
    assert_eq!(record.error, None);
    assert_eq!(
        text(&record.toClient),
        "HTTP/1.1 200 OK\r\nConnection: close\r\n\r\nabcdef"
    );
    assert_eq!(record.summaries, vec!["GET http://a/ -> 200 OK"]);
}

#[test]
fn a_tunnel_is_dialled_confirmed_and_relayed() {
    let record = drive(&[b"connect example.com HTTP/1.1\r\n\r\nearly"], &[&[]]);
    assert_eq!(record.error, None);
    assert_eq!(record.tunnels, vec!["example.com"]);
    assert_eq!(record.dialled, vec!["example.com:443"]);
    assert_eq!(
        text(&record.toClient),
        "HTTP/1.1 200 Connection Established\r\nProxy-Agent: rproxy\r\n\r\n"
    );
    assert!(record.relayed);
    assert_eq!(text(&record.toRemote), "early");
    let record = drive(&[b"CONNECT h:1 HTTP/1.1\r\n\r\n"], &[&[]]);
    assert!(record.relayed && record.toRemote.is_empty());
}

#[test]
fn early_bytes_go_to_the_target_before_the_relay() {
    let mut session = HttpSession::new();
    session.receive(b"CONNECT h:443 HTTP/1.1\r\n\r\nxyz").unwrap();
    assert!(matches!(session.next(), Ok(HttpAction::TunnelAsked(_))));
    assert!(matches!(session.next(), Ok(HttpAction::Connect(_))));
    assert!(matches!(session.next(), Ok(HttpAction::WriteClient(_))));
    match session.next().unwrap() {
        HttpAction::WriteRemote(bytes) => assert_eq!(bytes, b"xyz"),
        other => panic!("{:?}", other),
    }
    assert!(session.clientBuffer.is_empty());
    assert!(matches!(session.next(), Ok(HttpAction::Relay)));
    assert!(matches!(session.next(), Ok(HttpAction::Close)));
}

#[test]
fn a_failure_leaves_what_it_did_not_take() {
    let mut session = HttpSession::new();
    session.receive(b"GET\r\n\r\nrest").unwrap();
    assert!(session.next().is_err());
    assert_eq!(session.clientBuffer, b"rest");

    let mut session = HttpSession::new();
    session.receive(b"GET / H").unwrap();
    assert!(session.receive(b"").is_err());
    assert_eq!(session.clientBuffer, b"GET / H");

    let mut session = HttpSession::new();
    session.receive(b"GET http://a/ HTTP/1.1\r\n\r\nnext").unwrap();
    assert!(matches!(session.next(), Ok(HttpAction::Connect(_))));
    assert!(matches!(session.next(), Ok(HttpAction::WriteRemote(_))));
    assert!(matches!(session.next(), Ok(HttpAction::ReadRemote)));
    session.receive(b"HTTP/1.1 x\r\n\r\nbody").unwrap();
    assert!(session.next().is_err());
    assert_eq!(session.clientBuffer, b"next");
    assert_eq!(session.remoteBuffer, b"body");
}

#[test]
fn a_client_may_leave_between_requests_but_not_within_one() {
    assert_eq!(drive(&[], &[]), Record::default());
    assert_eq!(
        drive(&[b"GET / HT"], &[]).error,
        Some((ErrorKind::UnexpectedEof, "connection closed during HTTP header".to_string()))
    );
    assert_eq!(
        drive(&[b"GET http://a/ HTTP/1.1\r\nContent-Length: 1\r\n\r\n"], &[&[]]).error,
        Some((ErrorKind::UnexpectedEof, "connection closed during body forwarding".to_string()))
    );
}

#[test]
fn a_server_that_leaves_too_early_is_an_error() {
    assert_eq!(
        drive(&[b"GET http://a/ HTTP/1.1\r\n\r\n"], &[&[]]).error,
        Some((
            ErrorKind::InvalidData,
            "remote server closed before response header".to_string(),
        ))
    );
    assert_eq!(
        drive(&[b"GET http://a/ HTTP/1.1\r\n\r\n"], &[&[b"HTTP"]]).error,
        Some((ErrorKind::UnexpectedEof, "connection closed during HTTP header".to_string()))
    );
}

#[test]
fn what_does_not_make_sense_ends_the_connection() {
    let cases: [(&[u8], &str); 5] = [
        (b"GET\r\n\r\n", "missing HTTP target"),
        (b"GET ftp://a/ HTTP/1.1\r\n\r\n", "unsupported HTTP target"),
        (b"CONNECT @ HTTP/1.1\r\n\r\n", ""),
        (
            b"GET http://a/ HTTP/1.1\r\nContent-Length: 1,2\r\n\r\n",
            "conflicting Content-Length values",
        ),
        (b"GET ftp:x HTTP/1.1\r\nContent-Length:\r\n\r\n", "unsupported HTTP target"),
    ];
    for (request, message) in cases {
        let record = drive(&[request], &[&[]]);
        if message.is_empty() {
            assert_eq!(record.dialled, vec![":443"]);
        } else {
            assert_eq!(record.error, Some((ErrorKind::InvalidData, message.to_string())));
        }
    }
    let long = vec![b'a'; maxHttpHeaderSize + 1];
    assert_eq!(
        drive(&[&long], &[]).error,
        Some((ErrorKind::InvalidData, "HTTP header is too large".to_string()))
    );
    let record = drive(&[b"GET http://a/ HTTP/1.1\r\n\r\n"], &[&[b"HTTP/1.1 x\r\n\r\n"]]);
    assert_eq!(
        record.error,
        Some((
            ErrorKind::InvalidData,
            "invalid HTTP status code: invalid digit found in string".to_string(),
        ))
    );
    assert!(record.toClient.is_empty());
}

#[test]
fn a_connection_that_failed_is_closed() {
    let mut session = HttpSession::new();
    assert!(matches!(session.next(), Ok(HttpAction::ReadClient)));
    session.receive(b"\r\n\r\n").unwrap();
    assert_eq!(session.next().unwrap_err().message, "missing HTTP method");
    assert!(matches!(session.next(), Ok(HttpAction::Close)));
    assert!(matches!(session.next(), Ok(HttpAction::Close)));
}

#[test]
fn a_silent_peer_is_reported() {
    let mut session = HttpSession::new();
    let e = session.timedOut("deadline has elapsed");
    assert_eq!((e.kind, e.message), (
        ErrorKind::TimedOut,
        "HTTP connection idle timeout: deadline has elapsed".to_string(),
    ));
    session.receive(b"GET http://a/ HTTP/1.1\r\nContent-Length: 9\r\n\r\n").unwrap();
    assert!(matches!(session.next(), Ok(HttpAction::Connect(_))));
    assert!(matches!(session.next(), Ok(HttpAction::WriteRemote(_))));
    assert!(matches!(session.next(), Ok(HttpAction::ReadClient)));
    assert_eq!(session.timedOut("x").message, "body forwarding timeout: x");
}

#[test]
fn an_exchange_is_planned() {
    let request =
        parseHttpRequest(b"GET http://a/p HTTP/1.0\r\nConnection: keep-alive\r\n\r\n").unwrap();
    let plan = planRequest(&request).unwrap();
    assert_eq!(plan.remoteAddress, "a:80");
    assert!(plan.pending.keepAlive);
    let pending = Pending {
        method: "GET".to_string(),
        target: "http://a/p".to_string(),
        keepAlive: false,
    };
    let head: &[u8] = b"HTTP/1.1 304 Not Modified\r\n\r\n";
    assert!(planResponseHead(&pending, head).unwrap().closeAfterResponse);
    let answer = planResponseHead(&plan.pending, head).unwrap();
    assert!(!answer.closeAfterResponse);
    assert_eq!(answer.summary, "GET http://a/p -> 304 Not Modified");
    let open = planResponseHead(&plan.pending, b"HTTP/1.1 200 OK\r\n\r\n").unwrap();
    assert!(open.closeAfterResponse);
    assert_eq!(open.clientHeader, "HTTP/1.1 200 OK\r\nConnection: close\r\n\r\n");
}
