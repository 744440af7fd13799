//! Where a request is to go.

use crate::text;
use crate::text::{
    decimal, law_after_last, law_before_first, law_decimal_is_read_back, law_port_is_read_back,
    law_stripped, parsed_u16, split_at_first, split_at_last, stripped,
};
use vstd::prelude::*;

verus! {

/// The port of `https`.
pub const HTTPS_PORT: u16 = 443;

/// An origin that is reached over TLS, and what to ask it for.
#[derive(Debug)]
pub struct Target {
    /// Host and port, as they stand in the URI.
    pub authority: String,
    pub host: String,
    pub port: u16,
    /// Path and query.
    pub path: String,
}

/// What a target says.
pub struct TargetView {
    pub authority: Seq<char>,
    pub host: Seq<char>,
    pub port: u16,
    pub path: Seq<char>,
}

impl View for Target {
    type V = TargetView;

    open spec fn view(&self) -> TargetView {
        TargetView {
            authority: self.authority@,
            host: self.host@,
            port: self.port,
            path: self.path@,
        }
    }
}

/// The host and the port of an authority: what stands before and behind its last colon. Without
/// a colon, or with something else than a port behind it, the port is that of `https`.
pub open spec fn host_port(authority: Seq<char>) -> (Seq<char>, u16) {
    match split_at_last(authority, ':') {
        Some((host, port)) => (
            host,
            match parsed_u16(port) {
                Some(p) => p,
                None => HTTPS_PORT,
            },
        ),
        None => (authority, HTTPS_PORT),
    }
}

/// The host and the port of an authority.
pub fn split_authority(authority: &str) -> (r: (String, u16))
    ensures
        (r.0@, r.1) == host_port(authority@),
{
    match text::rsplit_once(authority, ':') {
        Some((host, port)) => {
            let p: u16 = match text::parse_u16(port.as_str()) {
                Some(p) => p,
                None => HTTPS_PORT,
            };
            (host, p)
        },
        None => (authority.to_string(), HTTPS_PORT),
    }
}

/// The target with a given authority and path.
pub open spec fn target_at(authority: Seq<char>, path: Seq<char>) -> TargetView {
    TargetView {
        authority,
        host: host_port(authority).0,
        port: host_port(authority).1,
        path,
    }
}

impl Target {
    /// The target with a given authority and path.
    pub fn at(authority: &str, path: &str) -> (r: Self)
        ensures
            r@ == target_at(authority@, path@),
    {
        let (host, port) = split_authority(authority);
        Target { authority: authority.to_string(), host, port, path: path.to_string() }
    }
}

/// The URI of what was asked of an origin over TLS.
pub open spec fn https_uri(authority: Seq<char>, path: Seq<char>) -> Seq<char> {
    "https://"@ + authority + path
}

/// The URI of what was asked of an origin over TLS.
pub fn display_uri(authority: &str, path: &str) -> (r: String)
    ensures
        r@ == https_uri(authority@, path@),
{
    let mut s = "https://".to_string();
    s.push_str(authority);
    s.push_str(path);
    s
}

/// The target of a URI: none unless it begins with `https://`; the authority ends at the first
/// slash, and the path is a slash if there is none.
pub open spec fn target_of(uri: Seq<char>) -> Option<TargetView> {
    match stripped(uri, "https://"@) {
        Some(rest) => Some(
            match split_at_first(rest, '/') {
                Some((authority, path)) => target_at(authority, seq!['/'] + path),
                None => target_at(rest, seq!['/']),
            },
        ),
        None => None,
    }
}

/// What an optional target says.
pub open spec fn opt_target(t: Option<Target>) -> Option<TargetView> {
    match t {
        Some(x) => Some(x@),
        None => None,
    }
}

/// The target of a URI.
pub fn find_target(uri: &str) -> (r: Option<Target>)
    ensures
        opt_target(r) == target_of(uri@),
{
    match text::strip_prefix(uri, "https://") {
        Some(rest) => {
            match text::split_once(rest.as_str(), '/') {
                Some((authority, tail)) => {
                    let mut path = String::new();
                    path.push('/');
                    path.push_str(tail.as_str());
                    assert(path@ =~= seq!['/'] + tail@);
                    Some(Target::at(authority.as_str(), path.as_str()))
                },
                None => {
                    let mut path = String::new();
                    path.push('/');
                    assert(path@ =~= seq!['/']);
                    Some(Target::at(rest.as_str(), path.as_str()))
                },
            }
        },
        None => None,
    }
}

// ---------------------------------------------------------------- laws

/// The URI that is shown for an origin and a path leads back to both.
pub proof fn law_https_uri_leads_back(authority: Seq<char>, path: Seq<char>)
    requires
        !authority.contains('/'),
        path.len() > 0,
        path[0] == '/',
    ensures
        target_of(https_uri(authority, path)) == Some(target_at(authority, path)),
{
    let uri = https_uri(authority, path);
    let rest = authority + path;
    assert(uri =~= "https://"@ + rest);
    assert("https://"@.is_prefix_of(uri));
    assert(uri.skip("https://"@.len() as int) =~= rest);
    rest.index_of_first_ensures('/');
    assert(rest[authority.len() as int] == '/');
    assert(rest.contains('/'));
    let i = rest.index_of_first('/')->Some_0;
    if i < authority.len() {
        assert(authority[i] == '/');
        assert(authority.contains('/'));
    }
    assert(i == authority.len());
    assert(rest.take(i) =~= authority);
    assert(seq!['/'] + rest.skip(i + 1) =~= path);
}

/// An authority is a host, or a host and a port behind a colon; the port is then the number that
/// stands there, and 443 where none does.
pub proof fn law_authority_names_host_and_port(host: Seq<char>, port: u16, other: Seq<char>)
    ensures
        host_port(host + seq![':'] + decimal(port as nat)) == (host, port),
        !host.contains(':') ==> host_port(host) == (host, 443u16),
        !other.contains(':') && parsed_u16(other) is None ==> host_port(
            host + seq![':'] + other,
        ) == (host, 443u16),
{
    let d = decimal(port as nat);
    law_decimal_is_read_back(port as nat);
    law_port_is_read_back(port);
    assert(!d.contains(':')) by {
        if d.contains(':') {
            let i = choose|i: int| 0 <= i < d.len() && d[i] == ':';
            assert('0' <= d[i] <= '9');
        }
    }
    law_after_last(host, ':', d);
    if !host.contains(':') {
        law_after_last(host, ':', host);
    }
    if !other.contains(':') {
        law_after_last(host, ':', other);
    }
}

/// A target has the authority and the path that it was made of, and the host and the port that
/// the authority names.
pub proof fn law_target_keeps_its_parts(authority: Seq<char>, path: Seq<char>)
    ensures
        target_at(authority, path).authority == authority,
        target_at(authority, path).path == path,
        (target_at(authority, path).host, target_at(authority, path).port) == host_port(authority),
{
}

/// What is asked for over TLS is `https://`, the authority and all behind it from the first slash
/// on, or a slash; nothing else is asked for over TLS.
pub proof fn law_target_of(authority: Seq<char>, tail: Seq<char>, uri: Seq<char>)
    requires
        !authority.contains('/'),
    ensures
        target_of("https://"@ + authority + seq!['/'] + tail) == Some(
            target_at(authority, seq!['/'] + tail),
        ),
        target_of("https://"@ + authority) == Some(target_at(authority, seq!['/'])),
        target_of(uri) is Some <==> "https://"@.is_prefix_of(uri),
{
    law_before_first(authority, '/', tail);
    let rest = authority + seq!['/'] + tail;
    law_stripped("https://"@, rest, uri);
    assert("https://"@ + authority + seq!['/'] + tail =~= "https://"@ + rest);
    law_stripped("https://"@, authority, uri);
}

/// What is said of a target is what its fields hold.
pub proof fn law_targets_are_seen(t: Target)
    ensures
        t@.authority == t.authority@,
        t@.host == t.host@,
        t@.port == t.port,
        t@.path == t.path@,
        opt_target(Some(t)) == Some(t@),
        opt_target(None) is None,
{
}

} // verus!
