#![allow(non_snake_case)]

use rproxy::address::{ipv4Loopback, ipv6Loopback};
use rproxy::limit::{permitOf, refusalText, ConnectionLimit, Refusal};
use rproxy::log::{currentUnixTimestamp, logLine, timestampOf, Level, Logger};
use rproxy::service::{
    listenOptions, logFilePath, services, startupLines, ListenOptions, Service, ServiceAction,
    ServiceEvent, ServiceKind,
};

fn message(service: &Service, event: ServiceEvent) -> (Option<(Level, String)>, ServiceAction) {
    let (note, action) = service.step(&event);
    (note.map(|n| (n.level, n.message)), action)
}

#[test]
fn the_services_listen_on_loopback_alone() {
    let list = services();
    let names: Vec<&str> = list.iter().map(|s| s.name).collect();
    assert_eq!(
        names,
        vec![
            "HTTP-IPv4-1080",
            "HTTP-IPv6-1080",
            "HTTPS-CONNECT-IPv4-1081",
            "HTTPS-CONNECT-IPv6-1081",
            "SOCKS5-TCP-IPv4-1082",
            "SOCKS5-TCP-IPv6-1082",
            "SOCKS5-UDP-IPv4-1082",
            "SOCKS5-UDP-IPv6-1082",
        ]
    );
    for service in &list {
        assert!(service.address.ip == ipv4Loopback() || service.address.ip == ipv6Loopback());
        assert!(service.name.ends_with(&service.address.port.to_string()));
    }
}

#[test]
fn no_two_services_share_a_socket() {
    let list = services();
    for i in 0..list.len() {
        for j in 0..i {
            let udp = |s: &Service| s.kind == ServiceKind::Socks5Udp;
            assert!(udp(&list[i]) != udp(&list[j]) || list[i].address != list[j].address);
        }
    }
}

#[test]
fn the_log_says_where_the_proxy_listens() {
    assert_eq!(
        startupLines(&services()),
        vec![
            "rproxy starting",
            "HTTP IPv4 proxy listening on 127.0.0.1:1080",
            "HTTP IPv6 proxy listening on [::1]:1080",
            "HTTPS CONNECT IPv4 proxy listening on 127.0.0.1:1081",
            "HTTPS CONNECT IPv6 proxy listening on [::1]:1081",
            "SOCKS5 TCP IPv4 proxy listening on 127.0.0.1:1082",
            "SOCKS5 TCP IPv6 proxy listening on [::1]:1082",
            "SOCKS5 UDP IPv4 proxy listening on 127.0.0.1:1082",
            "SOCKS5 UDP IPv6 proxy listening on [::1]:1082",
            "log file path: rproxy.log",
        ]
    );
    assert_eq!(logFilePath(), "rproxy.log");
}

#[test]
fn ipv6_sockets_leave_ipv4_alone() {
    let list = services();
    for (service, ipv6) in [(&list[0], false), (&list[1], true), (&list[7], true)] {
        assert_eq!(
            listenOptions(&service.address),
            ListenOptions { ipv6, reuseAddress: true, onlyIpv6: ipv6, nonblocking: true }
        );
    }
}

#[test]
fn services_go_on_whatever_comes_in() {
    let list = services();
    let http = &list[0];
    let socks = &list[5];
    let udp = &list[6];
    let reason = || "boom".to_string();
    let client = || "127.0.0.1:9".to_string();
    assert_eq!(
        message(http, ServiceEvent::BindFailed { reason: reason() }),
        (
            Some((Level::Error, "HTTP-IPv4-1080 bind failed on 127.0.0.1:1080: boom".to_string())),
            ServiceAction::Stop,
        )
    );
    assert_eq!(
        message(socks, ServiceEvent::Bound),
        (
            Some((Level::Info, "SOCKS5-TCP-IPv6-1082 ready on [::1]:1082".to_string())),
            ServiceAction::Accept,
        )
    );
    assert_eq!(
        message(http, ServiceEvent::AcceptFailed { reason: reason() }),
        (
            Some((Level::Warn, "HTTP-IPv4-1080 accept failed: boom".to_string())),
            ServiceAction::Accept,
        )
    );
    assert_eq!(
        message(udp, ServiceEvent::AcceptFailed { reason: reason() }),
        (
            Some((Level::Warn, "SOCKS5-UDP-IPv4-1082 UDP receive failed: boom".to_string())),
            ServiceAction::Accept,
        )
    );
    assert_eq!(
        message(http, ServiceEvent::Refused { client: client(), refusal: Refusal::Closed }),
        (
            Some((
                Level::Warn,
                "HTTP-IPv4-1080 rejected 127.0.0.1:9 because connection limit was reached: \
                 semaphore closed"
                    .to_string(),
            )),
            ServiceAction::Accept,
        )
    );
    assert_eq!(
        message(http, ServiceEvent::Admitted { client: client() }),
        (
            Some((Level::Info, "HTTP-IPv4-1080 accepted 127.0.0.1:9".to_string())),
            ServiceAction::Serve,
        )
    );
    assert_eq!(message(udp, ServiceEvent::PacketCame), (None, ServiceAction::Serve));
    for (service, expected) in [
        (http, "HTTP-IPv4-1080 client 127.0.0.1:9 closed with error: boom"),
        (socks, "SOCKS5-TCP-IPv6-1082 client 127.0.0.1:9 error: boom"),
        (udp, "SOCKS5 UDP client 127.0.0.1:9 error: boom"),
    ] {
        assert_eq!(
            message(service, ServiceEvent::ClientFailed { client: client(), reason: reason() }),
            (Some((Level::Warn, expected.to_string())), ServiceAction::Accept)
        );
    }
}

#[test]
fn connections_beyond_the_limit_are_refused() {
    let limit = ConnectionLimit::new(2);
    let first = limit.tryEnter().unwrap();
    let second = limit.tryEnter().unwrap();
    assert_eq!(limit.tryEnter().unwrap_err(), Refusal::NoPermits);
    let http = services()[0];
    let (note, permit) = http.letIn(&limit, "c".to_string());
    assert!(permit.is_none());
    assert_eq!(
        note.unwrap().message,
        "HTTP-IPv4-1080 rejected c because connection limit was reached: no permits available"
    );
    let (note, permit) = http.onEntry(Err(Refusal::Closed), "e".to_string());
    assert!(permit.is_none());
    assert_eq!(
        note.unwrap().message,
        "HTTP-IPv4-1080 rejected e because connection limit was reached: semaphore closed"
    );
    drop(first);
    let (note, permit) = http.letIn(&limit, "d".to_string());
    assert!(permit.is_some());
    assert_eq!(note.unwrap().message, "HTTP-IPv4-1080 accepted d");
    assert!(limit.tryEnter().is_err());
    drop(second);
    drop(permit);
    assert!(limit.tryEnter().is_ok());
    assert!(ConnectionLimit::new(0).tryEnter().is_err());
}

#[test]
fn a_permit_lets_in_and_goes_back_when_dropped() {
    let semaphore = std::sync::Arc::new(tokio::sync::Semaphore::new(1));
    let entered = permitOf(Ok(semaphore.clone().try_acquire_owned().unwrap())).unwrap();
    assert_eq!(semaphore.available_permits(), 0);
    drop(entered);
    assert_eq!(semaphore.available_permits(), 1);
    assert_eq!(permitOf(Err(Refusal::NoPermits)).unwrap_err(), Refusal::NoPermits);
    assert_eq!(permitOf(Err(Refusal::Closed)).unwrap_err(), Refusal::Closed);
}

#[test]
fn refusals_are_worded_as_tokio_words_them() {
    assert_eq!(
        refusalText(Refusal::Closed),
        tokio::sync::TryAcquireError::Closed.to_string()
    );
    assert_eq!(
        refusalText(Refusal::NoPermits),
        tokio::sync::TryAcquireError::NoPermits.to_string()
    );
}

#[test]
fn log_lines_carry_time_and_level() {
    assert_eq!(logLine(17, Level::Info, "hello"), "17 [INFO] hello");
    assert_eq!(logLine(0, Level::Error, ""), "0 [ERROR] ");
    assert_eq!(timestampOf(Some(5)), 5);
    assert_eq!(timestampOf(None), 0);
    let logger = Logger {};
    let now = currentUnixTimestamp();
    assert!(now > 1_600_000_000);
    for (line, level) in [
        (logger.info("m"), "INFO"),
        (logger.warn("m"), "WARN"),
        (logger.error("m"), "ERROR"),
    ] {
        let (time, rest) = line.split_once(' ').unwrap();
        assert!(time.parse::<u64>().unwrap() - now < 60);
        assert_eq!(rest, format!("[{}] m", level));
    }
}
