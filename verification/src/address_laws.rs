//! What the text of an address says: it can be read back, byte by byte and group by group.

use vstd::prelude::*;

use crate::address::{
    bracketed_with_port, groups_text, host_and_port, ipv4_text, ipv6_groups, ipv6_text,
    lemma_longest_run_start, longest_run_start, port_bytes, port_of, with_port, zero_run,
};
use crate::number::{decimal, hexadecimal, parse_number, NumberError};
use crate::number_laws::{
    is_decimal, is_hexadecimal, law_decimal_digits_are_read, law_hexadecimal_digits_are_read,
    law_written_numbers_are_worth_themselves,
};
use crate::text::split;
use crate::text_laws::law_cutting_a_joined_text;

verus! {

// ---------------------------------------------------------------------------------------------
// Ports
// ---------------------------------------------------------------------------------------------

/// A port is sent as two bytes, the first of which counts 256 times as much as the second.
pub proof fn law_a_port_is_two_bytes(port: u16, high: u8, low: u8)
    ensures
        port_bytes(port).len() == 2,
        port_bytes(port)[0] * 256 + port_bytes(port)[1] == port,
        port_of(high, low) == high * 256 + low,
{
}

// ---------------------------------------------------------------------------------------------
// Numbers in an address
// ---------------------------------------------------------------------------------------------

proof fn lemma_decimal_piece(n: nat)
    ensures
        parse_number(decimal(n), 10, n) == Ok::<nat, NumberError>(n),
        !decimal(n).contains('.'),
        !decimal(n).contains(':'),
{
    let s = decimal(n);
    law_written_numbers_are_worth_themselves(n);
    law_decimal_digits_are_read(s, n);
    assert forall|i: int| 0 <= i < s.len() implies s[i] != '.' && s[i] != ':' by {
        assert(is_decimal(s[i]));
    }
}

proof fn lemma_hexadecimal_piece(n: nat)
    ensures
        parse_number(hexadecimal(n), 16, n) == Ok::<nat, NumberError>(n),
        !hexadecimal(n).contains(':'),
{
    let s = hexadecimal(n);
    law_written_numbers_are_worth_themselves(n);
    law_hexadecimal_digits_are_read(s, n);
    assert forall|i: int| 0 <= i < s.len() implies s[i] != ':' by {
        assert(is_hexadecimal(s[i]));
    }
}

proof fn lemma_parse_bound(s: Seq<char>, radix: nat, n: nat, max: nat)
    requires
        parse_number(s, radix, n) == Ok::<nat, NumberError>(n),
        n <= max,
    ensures
        parse_number(s, radix, max) == Ok::<nat, NumberError>(n),
{
}

// ---------------------------------------------------------------------------------------------
// IPv4
// ---------------------------------------------------------------------------------------------

/// The text of an IPv4 address, cut at its dots, has four pieces, and piece by piece they are the
/// bytes of the address in decimal, in their order.
pub proof fn law_ipv4_text_lists_the_bytes(octets: Seq<u8>)
    requires
        octets.len() == 4,
    ensures
        split(ipv4_text(octets), '.').len() == 4,
        forall|k: int|
            0 <= k < 4 ==> parse_number(#[trigger] split(ipv4_text(octets), '.')[k], 10, 255)
                == Ok::<nat, NumberError>(octets[k] as nat) && split(ipv4_text(octets), '.')[k]
                == decimal(octets[k] as nat),
{
    reveal_strlit(".");
    let a = decimal(octets[0] as nat);
    let b = decimal(octets[1] as nat);
    let c = decimal(octets[2] as nat);
    let d = decimal(octets[3] as nat);
    lemma_decimal_piece(octets[0] as nat);
    lemma_decimal_piece(octets[1] as nat);
    lemma_decimal_piece(octets[2] as nat);
    lemma_decimal_piece(octets[3] as nat);
    lemma_parse_bound(a, 10, octets[0] as nat, 255);
    lemma_parse_bound(b, 10, octets[1] as nat, 255);
    lemma_parse_bound(c, 10, octets[2] as nat, 255);
    lemma_parse_bound(d, 10, octets[3] as nat, 255);
    let cd = c + seq!['.'] + d;
    let bcd = b + seq!['.'] + cd;
    law_cutting_a_joined_text(c, d, '.');
    law_cutting_a_joined_text(d, d, '.');
    law_cutting_a_joined_text(b, cd, '.');
    law_cutting_a_joined_text(a, bcd, '.');
    assert(ipv4_text(octets) =~= a + seq!['.'] + bcd);
    assert(split(ipv4_text(octets), '.') =~= seq![a, b, c, d]);
}

/// The text of an IPv4 address determines its bytes and their order.
pub proof fn law_ipv4_text_determines_the_address(one: Seq<u8>, other: Seq<u8>)
    requires
        one.len() == 4,
        other.len() == 4,
        ipv4_text(one) == ipv4_text(other),
    ensures
        one == other,
{
    law_ipv4_text_lists_the_bytes(one);
    law_ipv4_text_lists_the_bytes(other);
    let pieces = split(ipv4_text(one), '.');
    assert forall|k: int| 0 <= k < 4 implies one[k] == other[k] by {
        assert(parse_number(pieces[k], 10, 255) == Ok::<nat, NumberError>(one[k] as nat));
        assert(parse_number(pieces[k], 10, 255) == Ok::<nat, NumberError>(other[k] as nat));
    }
    assert(one =~= other);
}

// ---------------------------------------------------------------------------------------------
// IPv6
// ---------------------------------------------------------------------------------------------

/// Group `k` of an IPv6 address: two bytes, of which the first counts 256 times as much.
pub open spec fn group(octets: Seq<u8>, k: int) -> nat {
    (octets[2 * k] * 256 + octets[2 * k + 1]) as nat
}

/// Whether a text, cut at its colons, lists the groups from `from` up to `to` in hexadecimal.
pub open spec fn lists_groups(text: Seq<char>, octets: Seq<u8>, from: int, to: int) -> bool {
    if from == to {
        text.len() == 0
    } else {
        &&& split(text, ':').len() == to - from
        &&& forall|k: int|
            0 <= k < to - from ==> parse_number(#[trigger] split(text, ':')[k], 16, 0xffff) == Ok::<
                nat,
                NumberError,
            >(group(octets, from + k)) && split(text, ':')[k] == hexadecimal(
                group(octets, from + k),
            )
    }
}

/// Whether all groups from `from` up to `to` are zero.
pub open spec fn are_zero(octets: Seq<u8>, from: int, to: int) -> bool {
    forall|k: int| from <= k < to ==> #[trigger] group(octets, k) == 0
}

/// Whether two or more groups from `start` on are zero, no run of zero groups is longer, and none
/// of that length stands before it.
pub open spec fn is_first_longest_zero_run(octets: Seq<u8>, start: int, length: int) -> bool {
    &&& 0 <= start && 2 <= length && start + length <= 8
    &&& are_zero(octets, start, start + length)
    &&& forall|from: int, to: int|
        0 <= from && to <= 8 && #[trigger] are_zero(octets, from, to) ==> to - from < length || (to
            - from == length && from >= start)
}

proof fn lemma_groups_are_listed(octets: Seq<u8>, from: int, to: int)
    requires
        octets.len() == 16,
        0 <= from <= to <= 8,
    ensures
        lists_groups(groups_text(ipv6_groups(octets).subrange(from, to)), octets, from, to),
    decreases to - from,
{
    let groups = ipv6_groups(octets).subrange(from, to);
    if from < to {
        reveal_strlit(":");
        let text = groups_text(groups);
        let last = hexadecimal(groups.last() as nat);
        assert(groups.last() as nat == group(octets, to - 1));
        lemma_hexadecimal_piece(groups.last() as nat);
        lemma_parse_bound(last, 16, groups.last() as nat, 0xffff);
        law_cutting_a_joined_text(last, last, ':');
        if to - from == 1 {
            assert(groups[0] == groups.last());
            assert(split(text, ':') =~= seq![last]);
        } else {
            lemma_groups_are_listed(octets, from, to - 1);
            let front = groups_text(groups.drop_last());
            assert(groups.drop_last() =~= ipv6_groups(octets).subrange(from, to - 1));
            assert(text =~= front + seq![':'] + last);
            law_cutting_a_joined_text(front, last, ':');
            let pieces = split(text, ':');
            assert(pieces =~= split(front, ':').push(last));
            assert forall|k: int| 0 <= k < to - from implies parse_number(
                #[trigger] pieces[k],
                16,
                0xffff,
            ) == Ok::<nat, NumberError>(group(octets, from + k)) && pieces[k] == hexadecimal(
                group(octets, from + k),
            ) by {
                if k < to - from - 1 {
                    assert(pieces[k] == split(front, ':')[k]);
                }
            }
        }
    }
}

proof fn lemma_zero_run(octets: Seq<u8>, at: int)
    requires
        octets.len() == 16,
        0 <= at <= 8,
    ensures
        ({
            let n = zero_run(ipv6_groups(octets), at);
            &&& at + n <= 8
            &&& are_zero(octets, at, at + n)
            &&& forall|to: int| to <= 8 && #[trigger] are_zero(octets, at, to) ==> to - at <= n
        }),
    decreases 8 - at,
{
    let groups = ipv6_groups(octets);
    let n = zero_run(groups, at);
    if at < 8 {
        assert(groups[at] as nat == group(octets, at));
        if groups[at] == 0 {
            lemma_zero_run(octets, at + 1);
            assert forall|to: int| to <= 8 && #[trigger] are_zero(octets, at, to) implies to - at
                <= n by {
                assert(are_zero(octets, at + 1, to));
            }
            assert forall|k: int| at <= k < at + n implies #[trigger] group(octets, k) == 0 by {
                assert(are_zero(octets, at + 1, at + n));
            }
        } else {
            assert forall|to: int| to <= 8 && #[trigger] are_zero(octets, at, to) implies to - at
                <= n by {
                if to > at {
                    assert(group(octets, at) == 0);
                }
            }
        }
    }
}

/// The text of an IPv6 address says what its groups are. One that stands for an IPv4 address ends
/// in that address with dots. Otherwise, where no two zero groups stand next to each other, the
/// eight groups are listed in hexadecimal between colons; where some do, two colons stand for the
/// first of the longest runs of them, with the groups before it listed on the left and those
/// behind it on the right.
pub proof fn law_ipv6_text_lists_the_groups(octets: Seq<u8>)
    requires
        octets.len() == 16,
    ensures
        are_zero(octets, 0, 5) && group(octets, 5) == 0xffff ==> ipv6_text(octets) == "::ffff:"@
            + ipv4_text(octets.skip(12)),
        !(are_zero(octets, 0, 5) && group(octets, 5) == 0xffff) ==> {
            ||| {
                &&& forall|k: int| 0 <= k < 7 ==> !#[trigger] are_zero(octets, k, k + 2)
                &&& lists_groups(ipv6_text(octets), octets, 0, 8)
            }
            ||| exists|start: int, length: int, left: Seq<char>, right: Seq<char>|
                {
                    &&& #[trigger] is_first_longest_zero_run(octets, start, length)
                    &&& #[trigger] lists_groups(left, octets, 0, start)
                    &&& #[trigger] lists_groups(right, octets, start + length, 8)
                    &&& ipv6_text(octets) == left + seq![':', ':'] + right
                }
        },
{
    let groups = ipv6_groups(octets);
    let start = longest_run_start(groups, 8);
    let length = zero_run(groups, start) as int;
    assert(groups.len() == 8);
    assert forall|k: int| 0 <= k < 8 implies group(octets, k) == #[trigger] groups[k] by {}
    if are_zero(octets, 0, 5) && group(octets, 5) == 0xffff {
        assert forall|k: int| 0 <= k < 5 implies groups[k] == 0 by {
            assert(group(octets, k) == 0);
        }
        assert(groups[5] == 0xffff);
    } else {
        if forall|k: int| 0 <= k < 5 ==> groups[k] == 0 {
            assert forall|k: int| 0 <= k < 5 implies #[trigger] group(octets, k) == 0 by {
                assert(groups[k] == 0);
            }
        }
        assert(groups[5] as nat == group(octets, 5));
        lemma_longest_run_start(groups, 8);
        lemma_zero_run(octets, start);
        assert forall|from: int, to: int|
            0 <= from < 8 && to <= 8 && #[trigger] are_zero(octets, from, to) implies to - from
            <= zero_run(groups, from) by {
            lemma_zero_run(octets, from);
        }
        if length >= 2 {
            reveal_strlit("::");
            let left = groups_text(groups.take(start));
            let right = groups_text(groups.skip(start + length));
            assert(groups.take(start) =~= groups.subrange(0, start));
            assert(groups.skip(start + length) =~= groups.subrange(start + length, 8));
            lemma_groups_are_listed(octets, 0, start);
            lemma_groups_are_listed(octets, start + length, 8);
            assert forall|from: int, to: int|
                0 <= from && to <= 8 && #[trigger] are_zero(octets, from, to) implies to - from
                < length || (to - from == length && from >= start) by {
                if from < 8 {
                    assert(zero_run(groups, from) <= length);
                }
            }
            assert(is_first_longest_zero_run(octets, start, length));
            assert(ipv6_text(octets) =~= left + seq![':', ':'] + right);
        } else {
            assert forall|k: int| 0 <= k < 7 implies !#[trigger] are_zero(octets, k, k + 2) by {
                assert(zero_run(groups, k) <= length);
            }
            assert(groups =~= groups.subrange(0, 8));
            lemma_groups_are_listed(octets, 0, 8);
        }
    }
}

// ---------------------------------------------------------------------------------------------
// Host and port
// ---------------------------------------------------------------------------------------------

/// An address to dial is the host, in brackets if it holds a colon and has none yet, then a colon
/// and the port in decimal.
pub proof fn law_an_address_is_host_colon_port(host: Seq<char>, port: u16)
    ensures
        !host.contains(':') || host[0] == '[' ==> host_and_port(host, port) == host + seq![':']
            + decimal(port as nat),
        host.contains(':') && host[0] != '[' ==> host_and_port(host, port) == seq!['['] + host
            + seq![']', ':'] + decimal(port as nat),
        with_port(host, port) == host + seq![':'] + decimal(port as nat),
        bracketed_with_port(host, port) == seq!['['] + host + seq![']', ':'] + decimal(port as nat),
        parse_number(decimal(port as nat), 10, u16::MAX as nat) == Ok::<nat, NumberError>(
            port as nat,
        ),
        !host.contains(':') ==> split(host_and_port(host, port), ':') == seq![
            host,
            decimal(port as nat),
        ],
{
    reveal_strlit(":");
    reveal_strlit("[");
    reveal_strlit("]:");
    let digits = decimal(port as nat);
    lemma_decimal_piece(port as nat);
    lemma_parse_bound(digits, 10, port as nat, u16::MAX as nat);
    assert(with_port(host, port) =~= host + seq![':'] + digits);
    assert(bracketed_with_port(host, port) =~= seq!['['] + host + seq![']', ':'] + digits);
    if host.contains(':') {
        assert(host.len() > 0);
    } else {
        law_cutting_a_joined_text(host, digits, ':');
        law_cutting_a_joined_text(digits, digits, ':');
        assert(split(host_and_port(host, port), ':') =~= seq![host, digits]);
    }
}

} // verus!
