//! What holds of every address that is dialled and every path that is asked for.

use vstd::prelude::*;

use crate::address::{bracketed_with_port, is_bracketed, with_port};
use crate::error::ErrorView;
use crate::header::FieldView;
use crate::number::decimal;
use crate::target::{
    all_digits, authority_host, bracket_lacks_port, dialable, lemma_authority_ends,
    normalize_authority, parse_target,
};
use crate::text::{after_last, found_at, holds_text, is_white_space, occurrences, trim};
use crate::text_laws::{
    lemma_after_last, lemma_after_last_concat, lemma_decimal_digits, lemma_no_occurrence,
    lemma_occurrences_concat, lemma_trim, lemma_trim_is_done,
};

verus! {

/// Whether a host stays what it is once a port was put behind it: brackets that were opened are
/// closed at the end, and a host that gets no brackets does not start with white space.
pub open spec fn is_settled(host: Seq<char>, port: u16) -> bool {
    if is_bracketed(host) {
        holds_text(host, "]:"@) || host.last() == ']'
    } else {
        is_bracketed(dialable(host, port)) || host.len() == 0 || !is_white_space(host[0])
    }
}

/// An address that an authority was turned into is left alone when it is turned into one again,
/// whatever the default port then is.
pub proof fn law_an_address_stays_what_it_is(authority: Seq<char>, port: u16, other: u16)
    requires
        trim(authority).len() > 0,
        is_settled(authority_host(authority), port),
    ensures
        normalize_authority(dialable(authority_host(authority), port), other) == Ok::<
            Seq<char>,
            ErrorView,
        >(dialable(authority_host(authority), port)),
{
    reveal_strlit(":");
    reveal_strlit("[");
    reveal_strlit("]:");
    let trimmed = trim(authority);
    let host = authority_host(authority);
    let address = dialable(host, port);
    let start = lemma_trim(authority);
    lemma_after_last(trimmed, '@');
    if host.len() > 0 {
        assert(host.last() == trimmed.last());
    }
    if is_bracketed(host) {
        if bracket_lacks_port(host) {
            lemma_port_behind_bracket(host.drop_last(), port, other);
        } else if holds_text(host, "]:"@) {
            lemma_no_occurrence(host, '@');
            lemma_trim_is_done(host);
        } else {
            lemma_port_behind_bracket(host, port, other);
        }
    } else if occurrences(host, ':') == 0 {
        lemma_port_behind_name(host, port, other);
    } else if occurrences(host, ':') == 1 && after_last(host, ':').len() == 0 {
        let name = host.drop_last();
        lemma_after_last(host, ':');
        assert(host.last() == ':') by {
            if host.last() != ':' {
                assert(after_last(host, ':').last() == host.last());
            }
        }
        if name.contains('@') {
            let i = choose|i: int| 0 <= i < name.len() && name[i] == '@';
            assert(host[i] == '@');
        }
        lemma_port_behind_name(name, port, other);
    } else if address == host {
        lemma_no_occurrence(host, '@');
        lemma_trim_is_done(host);
    } else {
        lemma_brackets_are_kept(host, port, other);
    }
}

/// What a host with a port is normalised to is that host with that port, if it holds neither
/// user information nor white space at its start.
proof fn lemma_is_its_own_host(lead: Seq<char>, port: u16, address: Seq<char>)
    requires
        address == lead + decimal(port as nat),
        lead.len() > 0,
        !is_white_space(lead[0]),
        !lead.contains('@'),
    ensures
        authority_host(address) == address,
        trim(address).len() > 0,
        !is_white_space(address.last()),
        '0' <= address.last() <= '9',
{
    let digits = decimal(port as nat);
    lemma_decimal_digits(port as nat);
    assert('0' <= digits[digits.len() - 1] <= '9');
    assert(address.last() == digits.last());
    assert(!address.contains('@')) by {
        if address.contains('@') {
            let i = choose|i: int| 0 <= i < address.len() && address[i] == '@';
            if i < lead.len() {
                assert(lead[i] == '@');
            } else {
                assert('0' <= digits[i - lead.len()] <= '9');
            }
        }
    }
    lemma_no_occurrence(address, '@');
    lemma_trim_is_done(address);
}

proof fn lemma_port_behind_bracket(host: Seq<char>, port: u16, other: u16)
    requires
        is_bracketed(host),
        host.last() == ']',
        !host.contains('@'),
    ensures
        normalize_authority(with_port(host, port), other) == Ok::<Seq<char>, ErrorView>(
            with_port(host, port),
        ),
{
    reveal_strlit(":");
    reveal_strlit("]:");
    let address = with_port(host, port);
    let lead = host + ":"@;
    if lead.contains('@') {
        let i = choose|i: int| 0 <= i < lead.len() && lead[i] == '@';
        assert(host[i] == '@');
    }
    lemma_is_its_own_host(lead, port, address);
    let at = host.len() - 1;
    assert(address.subrange(at, at + 2) =~= "]:"@);
    assert(found_at(address, "]:"@, at));
    assert(!bracket_lacks_port(address));
}

proof fn lemma_port_behind_name(name: Seq<char>, port: u16, other: u16)
    requires
        !is_bracketed(name),
        name.len() > 0 ==> !is_white_space(name[0]),
        !name.contains('@'),
        occurrences(name, ':') == 0,
    ensures
        normalize_authority(with_port(name, port), other) == Ok::<Seq<char>, ErrorView>(
            with_port(name, port),
        ),
{
    reveal_strlit(":");
    let address = with_port(name, port);
    let digits = decimal(port as nat);
    let lead = name + ":"@;
    if lead.contains('@') {
        let i = choose|i: int| 0 <= i < lead.len() && lead[i] == '@';
        assert(name[i] == '@');
    }
    assert(lead[0] == if name.len() > 0 {
        name[0]
    } else {
        ':'
    });
    lemma_is_its_own_host(lead, port, address);
    lemma_decimal_digits(port as nat);
    if digits.contains(':') {
        let i = choose|i: int| 0 <= i < digits.len() && digits[i] == ':';
        assert('0' <= digits[i] <= '9');
    }
    lemma_occurrences_concat(lead, digits, ':');
    lemma_occurrences_concat(name, ":"@, ':');
    lemma_no_occurrence(digits, ':');
    assert(":"@.drop_last() =~= Seq::empty());
    assert(occurrences(":"@.drop_last(), ':') == 0);
    assert(occurrences(":"@, ':') == 1);
    assert(lead =~= name.push(':'));
    lemma_after_last_concat(name, digits, ':');
    assert(all_digits(after_last(address, ':')));
    assert(!is_bracketed(address));
}

proof fn lemma_brackets_are_kept(host: Seq<char>, port: u16, other: u16)
    requires
        !host.contains('@'),
    ensures
        normalize_authority(bracketed_with_port(host, port), other) == Ok::<Seq<char>, ErrorView>(
            bracketed_with_port(host, port),
        ),
{
    reveal_strlit("[");
    reveal_strlit("]:");
    let address = bracketed_with_port(host, port);
    let lead = "["@ + host + "]:"@;
    if lead.contains('@') {
        let i = choose|i: int| 0 <= i < lead.len() && lead[i] == '@';
        assert(host[i - 1] == '@');
    }
    lemma_is_its_own_host(lead, port, address);
    let at = host.len() as int + 1;
    assert(address.subrange(at, at + 2) =~= "]:"@);
    assert(found_at(address, "]:"@, at));
    assert(!bracket_lacks_port(address));
}

/// Whether something other than a port stands behind the bracket of a host.
pub open spec fn bracket_has_no_port(host: Seq<char>) -> bool {
    &&& is_bracketed(host)
    &&& holds_text(host, "]:"@)
    &&& !bracket_lacks_port(host)
    &&& !ends_in_port(host)
}

/// What is dialled for an authority ends in a port, a colon and at least one digit, unless
/// something other than a port stands behind the bracket of its host.
pub proof fn law_an_address_ends_in_a_port(authority: Seq<char>, port: u16)
    requires
        trim(authority).len() > 0,
        !bracket_has_no_port(authority_host(authority)),
    ensures
        normalize_authority(authority, port) matches Ok(address) && ends_in_port(address),
{
    reveal_strlit(":");
    reveal_strlit("]:");
    let host = authority_host(authority);
    let address = dialable(host, port);
    lemma_decimal_digits(port as nat);
    lemma_after_last(host, ':');
    let digits = decimal(port as nat);
    if address == host && !is_bracketed(host) && occurrences(host, ':') == 1 {
        let text = after_last(host, ':');
        let at = host.len() - text.len() - 1;
        lemma_before_last(host, ':');
        assert(is_port_at(host, at));
    } else if address != host {
        let at = address.len() - digits.len() - 1;
        assert(address.skip(at + 1) =~= digits);
        assert(is_port_at(address, at));
    }
}

/// Whether a colon stands at a position and nothing but digits behind it.
pub open spec fn is_port_at(s: Seq<char>, at: int) -> bool {
    &&& 0 <= at < s.len() - 1
    &&& s[at] == ':'
    &&& all_digits(s.skip(at + 1))
}

/// Whether a text ends in a colon and at least one digit.
pub open spec fn ends_in_port(s: Seq<char>) -> bool {
    exists|at: int| is_port_at(s, at)
}

/// What follows the last `c` follows a `c`, where there is one.
proof fn lemma_before_last(s: Seq<char>, c: char)
    requires
        occurrences(s, c) > 0,
    ensures
        after_last(s, c).len() < s.len(),
        s[s.len() - after_last(s, c).len() - 1] == c,
    decreases s.len(),
{
    if s.last() != c {
        lemma_before_last(s.drop_last(), c);
    }
}

/// What is asked of an origin server is a path: it starts with a slash.
pub proof fn law_the_path_starts_with_a_slash(target: Seq<char>, headers: Seq<FieldView>)
    requires
        parse_target(target, headers) is Ok,
    ensures
        (parse_target(target, headers)->Ok_0).1.len() > 0,
        (parse_target(target, headers)->Ok_0).1[0] == '/',
{
    reveal_strlit("/");
    reveal_strlit("http://");
    if found_at(target, "http://"@, 0) {
        lemma_authority_ends(target.skip(7));
    }
}

} // verus!
