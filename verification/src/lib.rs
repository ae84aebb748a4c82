//! The decisions of a local proxy for HTTP, HTTPS CONNECT, SOCKS5 TCP and SOCKS5 UDP.
//!
//! Nothing in this crate touches a socket. Sessions ([`session`], [`socks5_session`],
//! [`udp_session`], [`service`]) say what to do next and take in what came of it; a driver reads,
//! writes and dials for them. Contracts state what functions return, and the modules whose names
//! end in `laws`, like the last sections of the others, prove what follows for whole exchanges.

#![allow(non_snake_case)]
#![allow(non_upper_case_globals)]

pub mod error;
pub mod text;
pub mod text_laws;
pub mod number;
pub mod number_laws;
pub mod address;
pub mod address_laws;
pub mod header;
pub mod header_laws;
pub mod message;
pub mod message_laws;
pub mod target;
pub mod target_laws;
pub mod url_laws;
pub mod framing;
pub mod announcement_laws;
pub mod framing_laws;
pub mod stream;
pub mod body;
pub mod body_laws;
pub mod exchange;
pub mod exchange_laws;
pub mod session;
pub mod session_laws;
pub mod connection_laws;
pub mod socks5;
pub mod socks5_session;
pub mod socks5_laws;
pub mod udp_session;
pub mod log;
pub mod limit;
pub mod service;
pub mod service_laws;
pub mod report_laws;
