//! What a client is connected to: a forward target, a reverse-proxy
//! service to visit, or a reverse-proxy service to provide.

use crate::addr::{parse_text, push_ascii, push_number, decimal_text, SockAddr};
use crate::text::{ascii_to_string, bytes_equal, is_ascii_bytes, lowercase_of, to_lowercase};
use vstd::prelude::*;
use vstd::string::StringSliceAdditionalSpecFns;
use vstd::utf8::encode_utf8;

verus! {

/// Where a proxied connection ends.
#[derive(PartialEq, Eq, Debug, Copy, Clone)]
pub enum Target {
    /// The SOCKS5 engine built into the proxying side.
    Socks5,
    /// A socket address.
    Addr(SockAddr),
}

/// The policy of a client.
#[derive(PartialEq, Eq, Debug, Copy, Clone)]
pub enum Remote {
    /// Forward proxy to a target.
    Proxy(Target),
    /// Visitor of the reverse-proxy service with this id.
    Service(usize),
    /// Provider of the reverse-proxy service with this id, exposing a target.
    RProxy(Target, usize),
}

/// Why no policy could be made of what was given.
#[derive(PartialEq, Eq, Debug, Copy, Clone, Structural)]
pub enum RemoteError {
    /// The target is neither the SOCKS5 token nor a socket address.
    InvalidAddress,
    /// Neither a target nor a service id was given.
    Missing,
}

/// The token `socks5`.
pub open spec fn socks5_token() -> Seq<u8> {
    seq![115u8, 111, 99, 107, 115, 53]
}

/// The target that a text names, given its lowercase form: the SOCKS5
/// engine where the lowercase form is the token, else the socket address
/// that the text writes.
pub open spec fn classify(lowered: Seq<u8>, text: Seq<u8>) -> Option<Target> {
    if lowered == socks5_token() {
        Some(Target::Socks5)
    } else {
        match parse_text(text) {
            Some(a) => Some(Target::Addr(a)),
            None => None,
        }
    }
}

/// The target that a text names, whatever its case.
pub open spec fn target_of(text: Seq<char>) -> Option<Target> {
    classify(encode_utf8(lowercase_of(text)), encode_utf8(text))
}

/// The text of a target: the token, or the address.
pub open spec fn target_text(t: Target) -> Seq<u8> {
    match t {
        Target::Socks5 => socks5_token(),
        Target::Addr(a) => a.text(),
    }
}

/// The text `service (id: `.
pub open spec fn service_prefix() -> Seq<u8> {
    seq![115u8, 101, 114, 118, 105, 99, 101, 32, 40, 105, 100, 58, 32]
}

/// The text of a policy: its target, or `service (id: N)` for a visitor.
pub open spec fn remote_text(r: Remote) -> Seq<u8> {
    match r {
        Remote::Proxy(t) => target_text(t),
        Remote::Service(id) => service_prefix() + decimal_text(id as nat) + seq![41u8],
        Remote::RProxy(t, _) => target_text(t),
    }
}

/// The policy made of an optional target and an optional service id.
pub open spec fn remote_of(target: Option<Seq<char>>, id: Option<usize>) -> Result<
    Remote,
    RemoteError,
> {
    match (target, id) {
        (None, None) => Err(RemoteError::Missing),
        (None, Some(id)) => Ok(Remote::Service(id)),
        (Some(text), None) => match target_of(text) {
            Some(t) => Ok(Remote::Proxy(t)),
            None => Err(RemoteError::InvalidAddress),
        },
        (Some(text), Some(id)) => match target_of(text) {
            Some(t) => Ok(Remote::RProxy(t, id)),
            None => Err(RemoteError::InvalidAddress),
        },
    }
}

/// The text of an optional string.
pub open spec fn opt_text(s: Option<&str>) -> Option<Seq<char>> {
    match s {
        Some(t) => Some(t@),
        None => None,
    }
}

/// Whether `text` is the SOCKS5 token.
pub fn is_socks5_token(text: &str) -> (r: bool)
    ensures
        r == (text.spec_bytes() == socks5_token()),
{
    let token: [u8; 6] = [115, 111, 99, 107, 115, 53];
    assert(token@ =~= socks5_token());
    bytes_equal(text.as_bytes(), token.as_slice())
}

/// Names the target of `text`, given the lowercase form of `text`.
pub fn classify_target(lowered: &str, text: &str) -> (r: Option<Target>)
    ensures
        r == classify(lowered.spec_bytes(), text.spec_bytes()),
{
    if is_socks5_token(lowered) {
        Some(Target::Socks5)
    } else {
        match SockAddr::parse(text) {
            Some(a) => Some(Target::Addr(a)),
            None => None,
        }
    }
}

impl Target {
    /// Names the target of `text`: the SOCKS5 token in any case, or a
    /// socket address.
    pub fn parse(text: &str) -> (r: Option<Target>)
        ensures
            r == target_of(text@),
    {
        let lowered = to_lowercase(text);
        classify_target(lowered.as_str(), text)
    }

    /// Writes the target as ASCII text.
    pub fn to_bytes(&self) -> (out: Vec<u8>)
        ensures
            out@ == target_text(*self),
            is_ascii_bytes(out@),
    {
        match self {
            Target::Socks5 => {
                let out: Vec<u8> = vec![115u8, 111, 99, 107, 115, 53];
                assert(out@ =~= socks5_token());
                out
            },
            Target::Addr(a) => a.to_bytes(),
        }
    }

    /// Writes the target as text.
    pub fn to_string(&self) -> (out: String)
        ensures
            encode_utf8(out@) == target_text(*self),
    {
        ascii_to_string(self.to_bytes())
    }
}

impl Remote {
    /// The policy of a client that is given a target only: a forward proxy.
    pub fn from_target(target: &str) -> (r: Result<Remote, RemoteError>)
        ensures
            r == remote_of(Some(target@), None),
    {
        match Target::parse(target) {
            Some(t) => Ok(Remote::Proxy(t)),
            None => Err(RemoteError::InvalidAddress),
        }
    }

    /// The policy of a client that is given a service id only: a visitor.
    pub fn from_id(id: usize) -> (r: Remote)
        ensures
            r == Remote::Service(id),
    {
        Remote::Service(id)
    }

    /// The policy of a client that is given a target and a service id: a
    /// reverse-proxy provider.
    pub fn from_target_and_id(target: &str, id: usize) -> (r: Result<Remote, RemoteError>)
        ensures
            r == remote_of(Some(target@), Some(id)),
    {
        match Target::parse(target) {
            Some(t) => Ok(Remote::RProxy(t, id)),
            None => Err(RemoteError::InvalidAddress),
        }
    }

    /// Makes a policy of an optional target and an optional service id.
    pub fn try_parse(target: Option<&str>, id: Option<usize>) -> (r: Result<Remote, RemoteError>)
        ensures
            r == remote_of(opt_text(target), id),
    {
        match target {
            None => match id {
                Some(id) => Ok(Remote::from_id(id)),
                None => Err(RemoteError::Missing),
            },
            Some(target) => match id {
                None => Remote::from_target(target),
                Some(id) => Remote::from_target_and_id(target, id),
            },
        }
    }

    /// The policy is that of a reverse-proxy provider.
    pub fn is_reverse(&self) -> (r: bool)
        ensures
            r == (*self is RProxy),
    {
        match self {
            Remote::RProxy(_, _) => true,
            _ => false,
        }
    }

    /// Writes the policy as ASCII text.
    pub fn to_bytes(&self) -> (out: Vec<u8>)
        ensures
            out@ == remote_text(*self),
            is_ascii_bytes(out@),
    {
        match self {
            Remote::Proxy(t) => t.to_bytes(),
            Remote::Service(id) => {
                let mut out: Vec<u8> = vec![
                    115u8,
                    101,
                    114,
                    118,
                    105,
                    99,
                    101,
                    32,
                    40,
                    105,
                    100,
                    58,
                    32,
                ];
                assert(out@ =~= service_prefix());
                push_number(&mut out, *id as u64);
                push_ascii(&mut out, 41);
                assert(out@ =~= remote_text(*self));
                out
            },
            Remote::RProxy(t, _) => t.to_bytes(),
        }
    }

    /// Writes the policy as text.
    pub fn to_string(&self) -> (out: String)
        ensures
            encode_utf8(out@) == remote_text(*self),
    {
        ascii_to_string(self.to_bytes())
    }
}

} // verus!
