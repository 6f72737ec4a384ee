//! Constants shared by the client and the server side.

use vstd::prelude::*;

verus! {

/// Name of the Noise handshake pattern spoken between client and server.
pub const PATTERN: &'static str = "Noise_IK_25519_ChaChaPoly_BLAKE2s";

/// Size in bytes of the section reserved for the embedded client configuration.
pub const CONF_BUF_LEN: usize = 1024;

/// Length in bytes of the symmetric key obtained from a passphrase.
pub const KEYPASS_LEN: usize = 32;

/// Length in bytes of the nonce of the cipher that seals a private key.
pub const NONCE_LEN: usize = 12;

/// Length in bytes of a BLAKE2s-256 digest.
pub const FILEHASH_LEN: usize = 32;

/// Length in bytes of a Curve25519 key.
pub const KEY_LEN: usize = 32;

/// Reply byte: the provider is accepted and the multiplexer may start.
pub const REPLY_ACCEPTED: u8 = 66;

/// Reply byte: a provider for this service id is already online.
pub const REPLY_ALREADY_ONLINE: u8 = 88;

/// Reply byte: the provider's digest does not match the recorded one.
pub const REPLY_HASH_MISMATCH: u8 = 0;

/// Port on which the server listens when its configuration names none.
pub const DEFAULT_PORT: u16 = 8022;

/// Largest Noise message on the wire, in bytes.
pub const MAX_MESSAGE_LEN: usize = 65535;

/// Length in bytes of the authentication tag that closes a Noise message.
pub const TAG_LEN: usize = 16;

/// How many of `remaining` bytes go into the next Noise message: as many
/// as fit beside the tag.
pub fn fragment_len(remaining: usize) -> (n: usize)
    ensures
        n == if remaining <= MAX_MESSAGE_LEN - TAG_LEN {
            remaining
        } else {
            (MAX_MESSAGE_LEN - TAG_LEN) as usize
        },
        n + TAG_LEN <= MAX_MESSAGE_LEN,
        n <= remaining,
        remaining > 0 ==> n > 0,
{
    if remaining <= MAX_MESSAGE_LEN - TAG_LEN {
        remaining
    } else {
        MAX_MESSAGE_LEN - TAG_LEN
    }
}

} // verus!
