//! Which address an authority denotes, and which address and path a request target.

use vstd::prelude::*;

use crate::error::{invalid, ErrorView};
use crate::header::{header_value, FieldView};
use crate::number::decimal;
use crate::number_laws::{are_decimal, is_decimal};
use crate::target::{
    all_digits, authority_host, authority_length, dialable, normalize_authority, parse_target,
};
use crate::text::{found_at, holds_text, occurrences};
use crate::text_laws::{
    is_blank, is_trimmed, law_trimming_takes_white_space_alone, law_what_follows_the_last,
    lemma_no_occurrence, lemma_occurrences_concat,
};

verus! {

// ---------------------------------------------------------------------------------------------
// Authorities
// ---------------------------------------------------------------------------------------------

/// Whether a text can stand before a host: nothing, or user information up to an at sign.
pub open spec fn is_user_information(s: Seq<char>) -> bool {
    s.len() == 0 || s.last() == '@'
}

/// An authority as a client may write it: white space or none, user information or none, the
/// host, and white space or none.
pub open spec fn is_authority_for(
    authority: Seq<char>,
    blanks: (Seq<char>, Seq<char>),
    user: Seq<char>,
    host: Seq<char>,
) -> bool {
    &&& authority == blanks.0 + (user + host) + blanks.1
    &&& is_blank(blanks.0)
    &&& is_blank(blanks.1)
    &&& is_user_information(user)
    &&& !host.contains('@')
    &&& is_trimmed(user + host)
    &&& (user + host).len() > 0
}

proof fn lemma_host_of_authority(
    authority: Seq<char>,
    blanks: (Seq<char>, Seq<char>),
    user: Seq<char>,
    host: Seq<char>,
    port: u16,
)
    requires
        is_authority_for(authority, blanks, user, host),
    ensures
        normalize_authority(authority, port) == Ok::<Seq<char>, ErrorView>(dialable(host, port)),
{
    law_trimming_takes_white_space_alone(blanks.0, user + host, blanks.1);
    if user.len() == 0 {
        assert(user + host =~= host);
        law_what_follows_the_last(user, host, '@');
    } else {
        assert(user + host =~= user.drop_last() + seq!['@'] + host);
        law_what_follows_the_last(user.drop_last(), host, '@');
    }
    assert(authority_host(authority) == host);
}

/// An authority of nothing but white space denotes no address.
pub proof fn law_an_empty_authority_is_refused(authority: Seq<char>, port: u16)
    requires
        is_blank(authority),
    ensures
        normalize_authority(authority, port) == Err::<Seq<char>, ErrorView>(
            invalid("empty authority"@),
        ),
{
    let none = Seq::<char>::empty();
    law_trimming_takes_white_space_alone(authority, none, none);
    assert(authority + none + none =~= authority);
}

/// A host name or IPv4 address gets the port that stands behind it, and the default port where
/// there is none or nothing behind the colon. User information and white space do not count.
pub proof fn law_a_plain_host_keeps_its_port(
    authority: Seq<char>,
    blanks: (Seq<char>, Seq<char>),
    user: Seq<char>,
    host: Seq<char>,
    digits: Seq<char>,
    port: u16,
)
    requires
        !host.contains(':'),
        host.len() == 0 || host[0] != '[',
        are_decimal(digits),
    ensures
        is_authority_for(authority, blanks, user, host) ==> normalize_authority(authority, port)
            == Ok::<Seq<char>, ErrorView>(host + seq![':'] + decimal(port as nat)),
        is_authority_for(authority, blanks, user, host + seq![':'] + digits)
            ==> normalize_authority(authority, port) == Ok::<Seq<char>, ErrorView>(
            host + seq![':'] + if digits.len() > 0 {
                digits
            } else {
                decimal(port as nat)
            },
        ),
{
    reveal_strlit(":");
    lemma_no_occurrence(host, ':');
    assert(dialable(host, port) =~= host + seq![':'] + decimal(port as nat));
    let with = host + seq![':'] + digits;
    if digits.contains(':') {
        let i = choose|i: int| 0 <= i < digits.len() && digits[i] == ':';
        assert(is_decimal(digits[i]));
    }
    lemma_no_occurrence(digits, ':');
    lemma_occurrences_concat(host + seq![':'], digits, ':');
    lemma_occurrences_concat(host, seq![':'], ':');
    lemma_one_occurrence(':');
    law_what_follows_the_last(host, digits, ':');
    assert(with[0] != '[');
    if digits.len() == 0 {
        assert(with.drop_last() =~= host);
        assert(dialable(with, port) =~= host + seq![':'] + decimal(port as nat));
    } else {
        assert(all_digits(digits)) by {
            assert forall|i: int| 0 <= i < digits.len() implies '0' <= #[trigger] digits[i]
                && digits[i] <= '9' by {
                assert(is_decimal(digits[i]));
            }
        }
        assert(dialable(with, port) == with);
    }
    if is_authority_for(authority, blanks, user, host) {
        lemma_host_of_authority(authority, blanks, user, host, port);
    }
    if is_authority_for(authority, blanks, user, with) {
        lemma_host_of_authority(authority, blanks, user, with, port);
    }
}

proof fn lemma_one_occurrence(c: char)
    ensures
        occurrences(seq![c], c) == 1,
{
    assert(seq![c].drop_last() =~= Seq::empty());
    assert(occurrences(Seq::<char>::empty(), c) == 0);
}

/// A host with several colons and no brackets, or with something else than digits behind its
/// colon, is taken for an IPv6 address: it gets brackets and the default port.
pub proof fn law_a_host_with_colons_gets_brackets(
    authority: Seq<char>,
    blanks: (Seq<char>, Seq<char>),
    user: Seq<char>,
    front: Seq<char>,
    back: Seq<char>,
    port: u16,
)
    requires
        (front + seq![':'] + back)[0] != '[',
        front.contains(':') || back.contains(':') || !are_decimal(back),
    ensures
        is_authority_for(authority, blanks, user, front + seq![':'] + back)
            ==> normalize_authority(authority, port) == Ok::<Seq<char>, ErrorView>(
            seq!['['] + (front + seq![':'] + back) + seq![']', ':'] + decimal(port as nat),
        ),
{
    reveal_strlit("[");
    reveal_strlit("]:");
    let host = front + seq![':'] + back;
    lemma_occurrences_concat(front + seq![':'], back, ':');
    lemma_occurrences_concat(front, seq![':'], ':');
    lemma_one_occurrence(':');
    if front.contains(':') {
        lemma_contained_occurs(front, ':');
    } else if back.contains(':') {
        lemma_contained_occurs(back, ':');
    } else {
        law_what_follows_the_last(front, back, ':');
        let i = choose|i: int| 0 <= i < back.len() && !is_decimal(#[trigger] back[i]);
        assert(!('0' <= back[i] && back[i] <= '9'));
    }
    assert(dialable(host, port) =~= seq!['['] + host + seq![']', ':'] + decimal(port as nat));
    if is_authority_for(authority, blanks, user, host) {
        lemma_host_of_authority(authority, blanks, user, host, port);
    }
}

proof fn lemma_contained_occurs(s: Seq<char>, c: char)
    requires
        s.contains(c),
    ensures
        occurrences(s, c) > 0,
    decreases s.len(),
{
    if s.last() != c {
        let i = choose|i: int| 0 <= i < s.len() && s[i] == c;
        assert(s.drop_last()[i] == c);
        lemma_contained_occurs(s.drop_last(), c);
    }
}

/// Whether a closing bracket and a colon stand at place `i`.
pub open spec fn bracket_colon_at(host: Seq<char>, i: int) -> bool {
    0 <= i && i + 1 < host.len() && host[i] == ']' && host[i + 1] == ':'
}

/// A host that starts with a bracket gets the default port where it ends in a closing bracket and
/// a colon, keeps the port that stands behind a closing bracket and a colon elsewhere, and gets
/// the default port otherwise.
pub proof fn law_a_host_in_brackets_keeps_its_port(
    authority: Seq<char>,
    blanks: (Seq<char>, Seq<char>),
    user: Seq<char>,
    host: Seq<char>,
    port: u16,
)
    requires
        is_authority_for(authority, blanks, user, host),
        host.len() > 0,
        host[0] == '[',
    ensures
        normalize_authority(authority, port) == Ok::<Seq<char>, ErrorView>(
            if bracket_colon_at(host, host.len() - 2) {
                host + decimal(port as nat)
            } else if exists|i: int| bracket_colon_at(host, i) {
                host
            } else {
                host + seq![':'] + decimal(port as nat)
            },
        ),
{
    reveal_strlit(":");
    reveal_strlit("]:");
    lemma_host_of_authority(authority, blanks, user, host, port);
    if bracket_colon_at(host, host.len() - 2) {
        assert(dialable(host, port) =~= host + decimal(port as nat));
    } else if exists|i: int| bracket_colon_at(host, i) {
        let i = choose|i: int| bracket_colon_at(host, i);
        assert(host.subrange(i, i + 2) =~= "]:"@);
        assert(found_at(host, "]:"@, i));
        assert(dialable(host, port) == host);
    } else {
        if holds_text(host, "]:"@) {
            let at = choose|at: int| found_at(host, "]:"@, at);
            assert(host.subrange(at, at + 2)[0] == host[at]);
            assert(host.subrange(at, at + 2)[1] == host[at + 1]);
            assert(bracket_colon_at(host, at));
        }
        assert(dialable(host, port) =~= host + seq![':'] + decimal(port as nat));
    }
}

// ---------------------------------------------------------------------------------------------
// Request targets
// ---------------------------------------------------------------------------------------------

proof fn lemma_authority_length(authority: Seq<char>, tail: Seq<char>)
    requires
        !authority.contains('/'),
        !authority.contains('?'),
        tail.len() == 0 || tail[0] == '/' || tail[0] == '?',
    ensures
        authority_length(authority + tail) == authority.len(),
    decreases authority.len(),
{
    if authority.len() > 0 {
        let rest = authority.drop_first();
        assert(authority.contains(authority[0]));
        assert forall|c: char| rest.contains(c) implies authority.contains(c) by {
            let i = choose|i: int| 0 <= i < rest.len() && rest[i] == c;
            assert(authority[i + 1] == c);
        }
        lemma_authority_length(rest, tail);
        assert((authority + tail).drop_first() =~= rest + tail);
    } else {
        assert(authority + tail =~= tail);
    }
}

/// A request for an absolute URL goes to the address that its authority denotes, with 80 as the
/// default port, and asks for what follows the authority: a path as it is, a query alone behind a
/// slash, and the slash where nothing follows. The fields do not count.
pub proof fn law_an_absolute_url_names_its_server(
    authority: Seq<char>,
    tail: Seq<char>,
    headers: Seq<FieldView>,
)
    requires
        !authority.contains('/'),
        !authority.contains('?'),
        tail.len() == 0 || tail[0] == '/' || tail[0] == '?',
    ensures
        parse_target("http://"@ + authority + tail, headers) == match normalize_authority(
            authority,
            80,
        ) {
            Ok(address) => Ok::<(Seq<char>, Seq<char>), ErrorView>(
                (
                    address,
                    if tail.len() == 0 {
                        seq!['/']
                    } else if tail[0] == '?' {
                        seq!['/'] + tail
                    } else {
                        tail
                    },
                ),
            ),
            Err(e) => Err(e),
        },
{
    reveal_strlit("http://");
    reveal_strlit("/");
    let target = "http://"@ + authority + tail;
    let rest = authority + tail;
    assert(target.skip(7) =~= rest);
    assert(target.subrange(0, 7) =~= "http://"@);
    lemma_authority_length(authority, tail);
    assert(rest.take(authority.len() as int) =~= authority);
    assert(rest.skip(authority.len() as int) =~= tail);
    assert("/"@ =~= seq!['/']);
    assert("/"@ + tail =~= seq!['/'] + tail);
}

/// A request for a path goes to the address that its Host field denotes, with 80 as the default
/// port, and asks for that path. Any other target is refused, and so is a path without a Host.
pub proof fn law_a_path_is_asked_for_at_its_host(target: Seq<char>, headers: Seq<FieldView>)
    ensures
        target.len() > 0 && target[0] == '/' ==> parse_target(
            target,
            headers,
        ) == match header_value(headers, "host"@) {
            None => Err::<(Seq<char>, Seq<char>), ErrorView>(invalid("missing Host header"@)),
            Some(host) => match normalize_authority(host, 80) {
                Ok(address) => Ok((address, target)),
                Err(e) => Err(e),
            },
        },
        (target.len() == 0 || target[0] != '/') && !"http://"@.is_prefix_of(target)
            ==> parse_target(target, headers) == Err::<(Seq<char>, Seq<char>), ErrorView>(
            invalid("unsupported HTTP target"@),
        ),
{
    reveal_strlit("http://");
    if found_at(target, "http://"@, 0) {
        assert(target.subrange(0, 7)[0] == target[0]);
    }
}

} // verus!
