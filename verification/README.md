# rproxy

A local proxy for HTTP, HTTPS CONNECT, SOCKS5 TCP and SOCKS5 UDP. It listens on loopback addresses
only: 1080 (HTTP), 1081 (HTTPS CONNECT) and 1082 (SOCKS5), each for IPv4 and IPv6. Do not expose it
to the public Internet unless authentication, rate limits and firewall rules are added.

- `src/` is a library of verified decisions, written in Verus: parsing and writing message heads,
  finding where bodies end, the states of a connection, and what goes over the wire. It performs no
  I/O. Its contracts say what its functions return, as far as that does not depend on the clock or
  on how many connections are open; its laws say what whole exchanges amount to, for instance that
  a request is sent on byte for byte up to the end of its body, however the streams are cut into
  reads.
- `app/` is the program: sockets, timeouts, tasks and the log file. It carries out what the library
  decides.
- `tests/` runs the library on concrete values.

What the library takes on trust is little: `String::push`, `std::str::from_utf8`, the system clock
and Tokio's `Semaphore`. It also carries the `std::io::ErrorKind` of a failed connection through,
without looking into it.
