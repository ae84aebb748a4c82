//! Where a request goes: the upstream address and the path to ask for there.

use vstd::prelude::*;
use vstd::slice::slice_subrange;

use crate::address::{
    bracketed_with_port, bracketedHostWithPort, hostWithPort, is_bracketed, with_port,
};
use crate::error::{invalid, invalidData, ErrorView, ProxyError};
use crate::header::{fields, header_value, headerValue, FieldView, HeaderField};
use crate::text::{
    after_last, afterLast, charsOf, countOf, found_at, holds_text, holdsText, occurrences,
    startsWith, stringOf, trim, trimmed,
};

verus! {

// ---------------------------------------------------------------------------------------------
// Authorities
// ---------------------------------------------------------------------------------------------

/// Whether every character is a decimal digit.
pub open spec fn all_digits(s: Seq<char>) -> bool {
    forall|i: int| 0 <= i < s.len() ==> '0' <= #[trigger] s[i] && s[i] <= '9'
}

/// The host part of an authority: what follows the user information.
pub open spec fn authority_host(authority: Seq<char>) -> Seq<char> {
    after_last(trim(authority), '@')
}

/// Whether a host in brackets ends in a colon with no port behind it.
pub open spec fn bracket_lacks_port(host: Seq<char>) -> bool {
    host.len() >= 2 && host[host.len() - 2] == ']' && host.last() == ':'
}

/// A host with a port that can be dialled. A port that is there is kept; otherwise, also where a
/// colon has nothing behind it, the default port is added, and brackets go round a host that holds
/// colons.
pub open spec fn dialable(host: Seq<char>, default_port: u16) -> Seq<char> {
    let colons = occurrences(host, ':');
    let port = after_last(host, ':');
    if is_bracketed(host) {
        if bracket_lacks_port(host) {
            with_port(host.drop_last(), default_port)
        } else if holds_text(host, "]:"@) {
            host
        } else {
            with_port(host, default_port)
        }
    } else if colons == 0 {
        with_port(host, default_port)
    } else if colons == 1 && port.len() == 0 {
        with_port(host.drop_last(), default_port)
    } else if colons == 1 && all_digits(port) {
        host
    } else {
        bracketed_with_port(host, default_port)
    }
}

/// The address that an authority denotes.
pub open spec fn normalize_authority(authority: Seq<char>, default_port: u16) -> Result<
    Seq<char>,
    ErrorView,
> {
    if trim(authority).len() == 0 {
        Err(invalid("empty authority"@))
    } else {
        Ok(dialable(authority_host(authority), default_port))
    }
}

fn allDigits(s: &[char]) -> (r: bool)
    ensures
        r == all_digits(s@),
{
    for i in 0..s.len()
        invariant
            forall|j: int| 0 <= j < i ==> '0' <= #[trigger] s@[j] && s@[j] <= '9',
    {
        if !('0' <= s[i] && s[i] <= '9') {
            return false;
        }
    }
    true
}

fn withoutLast(host: &[char], port: u16) -> (address: String)
    requires
        host.len() > 0,
    ensures
        address@ == with_port(host@.drop_last(), port),
{
    let shorter = slice_subrange(host, 0, host.len() - 1);
    assert(shorter@ =~= host@.drop_last());
    hostWithPort(&stringOf(shorter), port)
}

/// Turns an authority (host name, IPv4 or IPv6 text, with or without a port and user
/// information) into an address to dial.
pub fn normalizeAuthority(authority: &str, defaultPort: u16) -> (r: Result<String, ProxyError>)
    ensures
        match r {
            Ok(address) => normalize_authority(authority@, defaultPort) == Ok::<
                Seq<char>,
                ErrorView,
            >(address@),
            Err(e) => normalize_authority(authority@, defaultPort) == Err::<Seq<char>, ErrorView>(
                e@,
            ),
        },
{
    let all = charsOf(authority);
    let trimmedAuthority = trimmed(&all);
    if trimmedAuthority.len() == 0 {
        return Err(invalidData("empty authority"));
    }
    let host = afterLast(trimmedAuthority, '@');
    let hostText = stringOf(host);
    if host.len() > 0 && host[0] == '[' {
        if host.len() >= 2 && host[host.len() - 2] == ']' && host[host.len() - 1] == ':' {
            return Ok(withoutLast(host, defaultPort));
        }
        if holdsText(host, &charsOf("]:")) {
            return Ok(hostText);
        }
        return Ok(hostWithPort(&hostText, defaultPort));
    }
    let colonCount = countOf(host, ':');
    if colonCount == 0 {
        return Ok(hostWithPort(&hostText, defaultPort));
    }
    if colonCount == 1 {
        let port = afterLast(host, ':');
        if port.len() == 0 {
            return Ok(withoutLast(host, defaultPort));
        }
        if allDigits(port) {
            return Ok(hostText);
        }
    }
    Ok(bracketedHostWithPort(&hostText, defaultPort))
}

// ---------------------------------------------------------------------------------------------
// Request targets
// ---------------------------------------------------------------------------------------------

/// How many characters of an absolute URL belong to the authority: those before the first slash
/// or question mark.
pub open spec fn authority_length(s: Seq<char>) -> nat
    decreases s.len(),
{
    if s.len() == 0 || s[0] == '/' || s[0] == '?' {
        0
    } else {
        1 + authority_length(s.drop_first())
    }
}

/// The path to ask the origin server for: what follows the authority, with a slash in front.
pub open spec fn origin_path(rest: Seq<char>) -> Seq<char> {
    let tail = rest.skip(authority_length(rest) as int);
    if tail.len() == 0 {
        "/"@
    } else if tail[0] == '?' {
        "/"@ + tail
    } else {
        tail
    }
}

/// The upstream address and the path that a request target denotes. An absolute URL names its
/// host; a path alone is looked up at the host that the Host field names.
pub open spec fn parse_target(target: Seq<char>, headers: Seq<FieldView>) -> Result<
    (Seq<char>, Seq<char>),
    ErrorView,
> {
    let rest = target.skip("http://"@.len() as int);
    let authority = rest.take(authority_length(rest) as int);
    if found_at(target, "http://"@, 0) {
        match normalize_authority(authority, 80) {
            Ok(address) => Ok((address, origin_path(rest))),
            Err(e) => Err(e),
        }
    } else if target.len() > 0 && target[0] == '/' {
        match header_value(headers, "host"@) {
            None => Err(invalid("missing Host header"@)),
            Some(host) => match normalize_authority(host, 80) {
                Ok(address) => Ok((address, target)),
                Err(e) => Err(e),
            },
        }
    } else {
        Err(invalid("unsupported HTTP target"@))
    }
}

/// An authority ends at the first slash or question mark.
pub proof fn lemma_authority_ends(s: Seq<char>)
    ensures
        authority_length(s) <= s.len(),
        authority_length(s) < s.len() ==> s[authority_length(s) as int] == '/'
            || s[authority_length(s) as int] == '?',
    decreases s.len(),
{
    if s.len() > 0 {
        lemma_authority_ends(s.drop_first());
    }
}

fn authorityLength(s: &[char]) -> (n: usize)
    ensures
        n == authority_length(s@),
        n <= s.len(),
{
    let mut n: usize = 0;
    assert(s@.skip(0) =~= s@);
    while n < s.len() && s[n] != '/' && s[n] != '?'
        invariant
            n <= s.len(),
            authority_length(s@) == n + authority_length(s@.skip(n as int)),
        decreases s.len() - n,
    {
        assert(s@.skip(n as int).drop_first() =~= s@.skip(n + 1));
        n = n + 1;
    }
    n
}

/// Finds the upstream address and the origin-form path of a request.
pub fn parseHttpTarget(target: &str, headers: &[HeaderField]) -> (r: Result<
    (String, String),
    ProxyError,
>)
    ensures
        match r {
            Ok(pair) => parse_target(target@, fields(headers@)) == Ok::<
                (Seq<char>, Seq<char>),
                ErrorView,
            >((pair.0@, pair.1@)),
            Err(e) => parse_target(target@, fields(headers@)) == Err::<
                (Seq<char>, Seq<char>),
                ErrorView,
            >(e@),
        },
{
    let chars = charsOf(target);
    let scheme = charsOf("http://");
    if startsWith(&chars, &scheme) {
        let rest = slice_subrange(&chars, scheme.len(), chars.len());
        assert(rest@ =~= target@.skip("http://"@.len() as int));
        let n = authorityLength(rest);
        let authority = stringOf(slice_subrange(rest, 0, n));
        assert(authority@ =~= rest@.take(n as int));
        let tail = slice_subrange(rest, n, rest.len());
        assert(tail@ =~= rest@.skip(n as int));
        let originPath = if tail.len() == 0 {
            "/".to_owned()
        } else if tail[0] == '?' {
            let mut path = "/".to_owned();
            path.append(&stringOf(tail));
            path
        } else {
            stringOf(tail)
        };
        return match normalizeAuthority(&authority, 80) {
            Ok(address) => Ok((address, originPath)),
            Err(e) => Err(e),
        };
    }
    if chars.len() > 0 && chars[0] == '/' {
        return match headerValue(headers, "host") {
            None => Err(invalidData("missing Host header")),
            Some(host) => match normalizeAuthority(&host, 80) {
                Ok(address) => Ok((address, target.to_owned())),
                Err(e) => Err(e),
            },
        };
    }
    Err(invalidData("unsupported HTTP target"))
}

} // verus!
