//! Internet addresses: their textual form and the addresses that the proxy itself uses.

use vstd::prelude::*;
use vstd::slice::slice_subrange;

use crate::number::{
    decimal, hexadecimal, is_digit, lemma_number_text, pushDecimal, pushNumber,
};
use crate::text::{charsOf, lemma_before, positionOf};

verus! {

/// An IP address as its bytes in network order.
#[derive(Clone, Copy, Debug, PartialEq, Eq)]
pub enum IpAddress {
    V4([u8; 4]),
    V6([u8; 16]),
}

/// An IP address with a port.
#[derive(Clone, Copy, Debug, PartialEq, Eq)]
pub struct SocketAddress {
    pub ip: IpAddress,
    pub port: u16,
    /// The scope of an IPv6 address; zero where there is none.
    pub scope: u32,
}

impl IpAddress {
    /// The bytes of the address in network order.
    pub open spec fn octets(self) -> Seq<u8> {
        match self {
            IpAddress::V4(bytes) => bytes@,
            IpAddress::V6(bytes) => bytes@,
        }
    }

    /// The loopback address of either family.
    pub open spec fn is_loopback(self) -> bool {
        match self {
            IpAddress::V4(bytes) => bytes@ == seq![127u8, 0, 0, 1],
            IpAddress::V6(bytes) => bytes@ == Seq::new(15, |i: int| 0u8).push(1),
        }
    }

    /// The address that stands for no particular host.
    pub open spec fn is_unspecified(self) -> bool {
        forall|i: int| 0 <= i < self.octets().len() ==> self.octets()[i] == 0
    }
}

// ---------------------------------------------------------------------------------------------
// Addresses that the proxy uses
// ---------------------------------------------------------------------------------------------

/// The IPv4 loopback address.
pub fn ipv4Loopback() -> (ip: IpAddress)
    ensures
        ip is V4,
        ip.is_loopback(),
{
    let bytes: [u8; 4] = [127, 0, 0, 1];
    assert(bytes@ =~= seq![127u8, 0, 0, 1]);
    IpAddress::V4(bytes)
}

/// The IPv6 loopback address.
pub fn ipv6Loopback() -> (ip: IpAddress)
    ensures
        ip is V6,
        ip.is_loopback(),
{
    let bytes: [u8; 16] = [0, 0, 0, 0, 0, 0, 0, 0, 0, 0, 0, 0, 0, 0, 0, 1];
    assert(bytes@ =~= Seq::new(15, |i: int| 0u8).push(1));
    IpAddress::V6(bytes)
}

/// The IPv4 address that stands for no particular host.
pub fn ipv4Unspecified() -> (ip: IpAddress)
    ensures
        ip is V4,
        ip.is_unspecified(),
{
    IpAddress::V4([0, 0, 0, 0])
}

/// The IPv6 address that stands for no particular host.
pub fn ipv6Unspecified() -> (ip: IpAddress)
    ensures
        ip is V6,
        ip.is_unspecified(),
{
    IpAddress::V6([0, 0, 0, 0, 0, 0, 0, 0, 0, 0, 0, 0, 0, 0, 0, 0])
}

/// The placeholder address that failure replies carry.
pub fn unspecifiedSocketAddress() -> (address: SocketAddress)
    ensures
        address.ip is V4,
        address.ip.is_unspecified(),
        address.port == 0,
        address.scope == 0,
{
    SocketAddress { ip: ipv4Unspecified(), port: 0, scope: 0 }
}

// ---------------------------------------------------------------------------------------------
// Ports on the wire
// ---------------------------------------------------------------------------------------------

/// A port as two bytes, the more significant one first.
pub open spec fn port_bytes(port: u16) -> Seq<u8> {
    seq![(port / 256) as u8, (port % 256) as u8]
}

/// The port that two bytes denote, the more significant one first.
pub open spec fn port_of(high: u8, low: u8) -> u16 {
    (high * 256 + low) as u16
}

/// Reads a port from its two bytes.
pub fn portOf(high: u8, low: u8) -> (port: u16)
    ensures
        port == port_of(high, low),
{
    (high as u16) * 256 + (low as u16)
}

// ---------------------------------------------------------------------------------------------
// Text
// ---------------------------------------------------------------------------------------------

/// Four bytes in decimal, separated by dots.
pub open spec fn ipv4_text(octets: Seq<u8>) -> Seq<char> {
    decimal(octets[0] as nat) + "."@ + decimal(octets[1] as nat) + "."@ + decimal(octets[2] as nat)
        + "."@ + decimal(octets[3] as nat)
}

/// The eight 16-bit groups of an IPv6 address.
pub open spec fn ipv6_groups(octets: Seq<u8>) -> Seq<u16> {
    Seq::new(8, |k: int| port_of(octets[2 * k], octets[2 * k + 1]))
}

/// Whether an IPv6 address stands for an IPv4 address.
pub open spec fn is_ipv4_mapped(groups: Seq<u16>) -> bool {
    &&& forall|k: int| 0 <= k < 5 ==> groups[k] == 0
    &&& groups[5] == 0xffff
}

/// How many groups in a row are zero from group `at` on.
pub open spec fn zero_run(groups: Seq<u16>, at: int) -> nat
    decreases groups.len() - at,
{
    if 0 <= at < groups.len() && groups[at] == 0 {
        1 + zero_run(groups, at + 1)
    } else {
        0
    }
}

/// Of the groups before `limit`, the first one where the longest run of zeros starts.
pub open spec fn longest_run_start(groups: Seq<u16>, limit: nat) -> int
    decreases limit,
{
    if limit <= 1 {
        0
    } else {
        let best = longest_run_start(groups, (limit - 1) as nat);
        if zero_run(groups, limit - 1) > zero_run(groups, best) {
            limit - 1
        } else {
            best
        }
    }
}

/// Groups in hexadecimal, separated by colons.
pub open spec fn groups_text(groups: Seq<u16>) -> Seq<char>
    decreases groups.len(),
{
    if groups.len() == 0 {
        Seq::empty()
    } else if groups.len() == 1 {
        hexadecimal(groups[0] as nat)
    } else {
        groups_text(groups.drop_last()) + ":"@ + hexadecimal(groups.last() as nat)
    }
}

/// The canonical text of an IPv6 address: the first of the longest runs of two or more zero
/// groups is left out, and an address that stands for an IPv4 address ends in dotted form.
pub open spec fn ipv6_text(octets: Seq<u8>) -> Seq<char> {
    let groups = ipv6_groups(octets);
    let start = longest_run_start(groups, 8);
    let length = zero_run(groups, start) as int;
    if is_ipv4_mapped(groups) {
        "::ffff:"@ + ipv4_text(octets.skip(12))
    } else if length >= 2 {
        groups_text(groups.take(start)) + "::"@ + groups_text(groups.skip(start + length))
    } else {
        groups_text(groups)
    }
}

/// The text of an IP address.
pub open spec fn ip_text(ip: IpAddress) -> Seq<char> {
    match ip {
        IpAddress::V4(bytes) => ipv4_text(bytes@),
        IpAddress::V6(bytes) => ipv6_text(bytes@),
    }
}

fn pushIpv4(out: &mut String, a: u8, b: u8, c: u8, d: u8)
    ensures
        final(out)@ == old(out)@ + ipv4_text(seq![a, b, c, d]),
{
    let ghost start = out@;
    pushDecimal(out, a as u64);
    out.append(".");
    pushDecimal(out, b as u64);
    out.append(".");
    pushDecimal(out, c as u64);
    out.append(".");
    pushDecimal(out, d as u64);
    assert(out@ =~= start + ipv4_text(seq![a, b, c, d]));
}

fn pushGroups(out: &mut String, groups: &[u16])
    ensures
        final(out)@ == old(out)@ + groups_text(groups@),
{
    let ghost start = out@;
    for i in 0..groups.len()
        invariant
            out@ == start + groups_text(groups@.take(i as int)),
    {
        assert(groups@.take(i + 1).drop_last() =~= groups@.take(i as int));
        if i > 0 {
            out.append(":");
        }
        pushNumber(out, groups[i] as u64, 16);
        assert(out@ =~= start + groups_text(groups@.take(i + 1)));
    }
    assert(groups@.take(groups@.len() as int) =~= groups@);
}

fn zeroRun(groups: &[u16], at: usize) -> (n: usize)
    requires
        at <= groups.len(),
    ensures
        n == zero_run(groups@, at as int),
        at + n <= groups.len(),
{
    let mut end: usize = at;
    while end < groups.len() && groups[end] == 0
        invariant
            at <= end <= groups.len(),
            zero_run(groups@, at as int) == end - at + zero_run(groups@, end as int),
        decreases groups.len() - end,
    {
        end = end + 1;
    }
    end - at
}

fn longestRunStart(groups: &[u16]) -> (best: usize)
    requires
        groups.len() == 8,
    ensures
        best == longest_run_start(groups@, 8),
        best < 8,
{
    let mut best: usize = 0;
    let mut length: usize = zeroRun(groups, 0);
    for i in 1..8usize
        invariant
            groups.len() == 8,
            best < 8,
            best == longest_run_start(groups@, i as nat),
            length == zero_run(groups@, best as int),
    {
        let here = zeroRun(groups, i);
        if here > length {
            best = i;
            length = here;
        }
    }
    best
}

fn isIpv4Mapped(groups: &[u16]) -> (r: bool)
    requires
        groups.len() == 8,
    ensures
        r == is_ipv4_mapped(groups@),
{
    groups[0] == 0 && groups[1] == 0 && groups[2] == 0 && groups[3] == 0 && groups[4] == 0
        && groups[5] == 0xffff
}

fn groupsOf(octets: &[u8; 16]) -> (groups: Vec<u16>)
    ensures
        groups@ == ipv6_groups(octets@),
{
    let mut groups: Vec<u16> = Vec::new();
    for k in 0..8usize
        invariant
            groups@ == ipv6_groups(octets@).take(k as int),
    {
        groups.push(portOf(octets[2 * k], octets[2 * k + 1]));
        assert(groups@ =~= ipv6_groups(octets@).take(k + 1));
    }
    assert(groups@ =~= ipv6_groups(octets@));
    groups
}

/// Writes an IPv4 address as text.
pub fn ipv4Text(octets: &[u8; 4]) -> (text: String)
    ensures
        text@ == ipv4_text(octets@),
{
    let mut out = String::new();
    pushIpv4(&mut out, octets[0], octets[1], octets[2], octets[3]);
    assert(out@ =~= ipv4_text(octets@));
    out
}

/// Writes an IPv6 address as text.
pub fn ipv6Text(octets: &[u8; 16]) -> (text: String)
    ensures
        text@ == ipv6_text(octets@),
{
    let groups = groupsOf(octets);
    let mut out = String::new();
    if isIpv4Mapped(&groups) {
        out.append("::ffff:");
        pushIpv4(&mut out, octets[12], octets[13], octets[14], octets[15]);
        assert(out@ =~= "::ffff:"@ + ipv4_text(octets@.skip(12)));
        return out;
    }
    let start = longestRunStart(&groups);
    let length = zeroRun(&groups, start);
    if length >= 2 {
        pushGroups(&mut out, slice_subrange(&groups, 0, start));
        out.append("::");
        pushGroups(&mut out, slice_subrange(&groups, start + length, 8));
        assert(groups@.subrange(0, start as int) =~= groups@.take(start as int));
        assert(groups@.subrange(start + length, 8) =~= groups@.skip(start + length));
        assert(out@ =~= groups_text(groups@.take(start as int)) + "::"@ + groups_text(
            groups@.skip(start + length),
        ));
    } else {
        pushGroups(&mut out, &groups);
        assert(out@ =~= groups_text(groups@));
    }
    out
}

/// Writes an IP address as text.
pub fn ipText(ip: &IpAddress) -> (text: String)
    ensures
        text@ == ip_text(*ip),
{
    match ip {
        IpAddress::V4(bytes) => ipv4Text(bytes),
        IpAddress::V6(bytes) => ipv6Text(bytes),
    }
}

// ---------------------------------------------------------------------------------------------
// Host and port
// ---------------------------------------------------------------------------------------------

/// Whether a text starts with an opening bracket.
pub open spec fn is_bracketed(host: Seq<char>) -> bool {
    host.len() > 0 && host[0] == '['
}

/// A host with a port behind it.
pub open spec fn with_port(host: Seq<char>, port: u16) -> Seq<char> {
    host + ":"@ + decimal(port as nat)
}

/// A host in brackets with a port behind it.
pub open spec fn bracketed_with_port(host: Seq<char>, port: u16) -> Seq<char> {
    "["@ + host + "]:"@ + decimal(port as nat)
}

/// A host that can be dialled: brackets go round a host that holds a colon and has none yet.
pub open spec fn host_and_port(host: Seq<char>, port: u16) -> Seq<char> {
    if host.contains(':') && !is_bracketed(host) {
        bracketed_with_port(host, port)
    } else {
        with_port(host, port)
    }
}

/// Puts a port behind a host.
pub fn hostWithPort(host: &str, port: u16) -> (text: String)
    ensures
        text@ == with_port(host@, port),
{
    let mut out = host.to_owned();
    out.append(":");
    pushDecimal(&mut out, port as u64);
    out
}

/// Puts brackets round a host and a port behind it.
pub fn bracketedHostWithPort(host: &str, port: u16) -> (text: String)
    ensures
        text@ == bracketed_with_port(host@, port),
{
    let mut out = "[".to_owned();
    out.append(host);
    out.append("]:");
    pushDecimal(&mut out, port as u64);
    out
}

/// Joins a host (IPv4, domain or IPv6 text) and a port into an address to dial.
pub fn formatHostAndPort(host: &str, port: u16) -> (text: String)
    ensures
        text@ == host_and_port(host@, port),
{
    let chars = charsOf(host);
    let colon = positionOf(&chars, ':');
    proof {
        lemma_before(host@, ':');
        if host@.contains(':') {
            let i = choose|i: int| 0 <= i < host@.len() && host@[i] == ':';
            assert(host@[i] == ':');
        }
    }
    if colon < chars.len() && chars[0] != '[' {
        assert(host@[colon as int] == ':');
        bracketedHostWithPort(host, port)
    } else {
        hostWithPort(host, port)
    }
}

// ---------------------------------------------------------------------------------------------
// Laws
// ---------------------------------------------------------------------------------------------

/// A port survives the trip over the wire.
pub proof fn law_port_round_trip(port: u16)
    ensures
        port_of(port_bytes(port)[0], port_bytes(port)[1]) == port,
{
}

proof fn lemma_ipv4_text_holds_no_colon(octets: Seq<u8>)
    requires
        octets.len() == 4,
    ensures
        forall|i: int| 0 <= i < ipv4_text(octets).len() ==> ipv4_text(octets)[i] != ':',
{
    reveal_strlit(".");
    lemma_number_text(octets[0] as nat, 10);
    lemma_number_text(octets[1] as nat, 10);
    lemma_number_text(octets[2] as nat, 10);
    lemma_number_text(octets[3] as nat, 10);
    let s = ipv4_text(octets);
    let a = decimal(octets[0] as nat);
    let b = decimal(octets[1] as nat);
    let c = decimal(octets[2] as nat);
    let d = decimal(octets[3] as nat);
    assert forall|i: int| 0 <= i < s.len() implies s[i] != ':' by {
        let in_b = i - a.len() - 1;
        let in_c = in_b - b.len() - 1;
        let in_d = in_c - c.len() - 1;
        if i < a.len() {
            assert(is_digit(a[i], 10));
        } else if 0 <= in_b < b.len() {
            assert(s[i] == b[in_b]);
            assert(is_digit(b[in_b], 10));
        } else if 0 <= in_c < c.len() {
            assert(s[i] == c[in_c]);
            assert(is_digit(c[in_c], 10));
        } else if 0 <= in_d < d.len() {
            assert(s[i] == d[in_d]);
            assert(is_digit(d[in_d], 10));
        }
    }
}

proof fn lemma_groups_text(groups: Seq<u16>)
    ensures
        groups.len() > 0 ==> groups_text(groups).len() > 0 && groups_text(groups)[0] != '[',
        groups.len() > 1 ==> groups_text(groups).contains(':'),
    decreases groups.len(),
{
    reveal_strlit(":");
    if groups.len() == 1 {
        lemma_number_text(groups[0] as nat, 16);
        assert(is_digit(groups_text(groups)[0], 16));
    } else if groups.len() > 1 {
        let head = groups_text(groups.drop_last());
        lemma_groups_text(groups.drop_last());
        assert(groups_text(groups)[0] == head[0]);
        assert(groups_text(groups)[head.len() as int] == ':');
    }
}

/// The text of an IPv6 address, and of no IPv4 address, is put in brackets before it is dialled.
pub proof fn law_ip_text_is_dialled_in_its_form(ip: IpAddress, port: u16)
    ensures
        host_and_port(ip_text(ip), port) == match ip {
            IpAddress::V4(_) => with_port(ip_text(ip), port),
            IpAddress::V6(_) => bracketed_with_port(ip_text(ip), port),
        },
{
    match ip {
        IpAddress::V4(bytes) => {
            lemma_ipv4_text_holds_no_colon(bytes@);
        },
        IpAddress::V6(bytes) => {
            let text = ipv6_text(bytes@);
            let groups = ipv6_groups(bytes@);
            let start = longest_run_start(groups, 8);
            let length = zero_run(groups, start) as int;
            if is_ipv4_mapped(groups) {
                reveal_strlit("::ffff:");
                assert(text[0] == ':');
            } else if length >= 2 {
                reveal_strlit("::");
                let head = groups_text(groups.take(start));
                lemma_longest_run_start(groups, 8);
                lemma_groups_text(groups.take(start));
                assert(text[head.len() as int] == ':');
                if start == 0 {
                    assert(head.len() == 0);
                    assert(text[0] == ':');
                } else {
                    assert(text[0] == head[0]);
                }
            } else {
                lemma_groups_text(groups);
            }
        },
    }
}

/// What [`longest_run_start`] finds: no run of zeros is longer, and none before it is as long.
pub proof fn lemma_longest_run_start(groups: Seq<u16>, limit: nat)
    requires
        1 <= limit <= groups.len(),
    ensures
        0 <= longest_run_start(groups, limit) < limit,
        forall|i: int|
            0 <= i < limit ==> #[trigger] zero_run(groups, i) <= zero_run(
                groups,
                longest_run_start(groups, limit),
            ),
        forall|i: int|
            0 <= i < longest_run_start(groups, limit) ==> #[trigger] zero_run(groups, i) < zero_run(
                groups,
                longest_run_start(groups, limit),
            ),
    decreases limit,
{
    if limit > 1 {
        lemma_longest_run_start(groups, (limit - 1) as nat);
    }
}

} // verus!
