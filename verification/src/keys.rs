//! Static keys: generating them, sealing a private key with a passphrase,
//! deriving a public key, and the base64 text of a key.
//!
//! A passphrase is turned into a key by cutting or zero-padding its bytes
//! to `KEYPASS_LEN`; the private key is sealed with ChaCha20-Poly1305 under
//! the all-zero nonce. This hides a key at rest and is no defence against
//! an attacker who can guess passphrases.

use crate::consts::{FILEHASH_LEN, KEYPASS_LEN, KEY_LEN, NONCE_LEN, PATTERN};
use crate::text::{bytes_equal, opt_bytes};
use blake2::Digest;
use chacha20poly1305::aead::{Aead, NewAead};
use vstd::prelude::*;
use vstd::string::StringSliceAdditionalSpecFns;
use vstd::utf8::encode_utf8;

verus! {

/// A static Noise keypair.
#[derive(Clone, Debug, PartialEq, Eq)]
pub struct Keypair {
    /// The private key, sealed where a passphrase protects it.
    pub private: Vec<u8>,
    /// The public key.
    pub public: Vec<u8>,
}

/// Why a key operation failed.
#[derive(Clone, Copy, Debug, PartialEq, Eq, Structural)]
pub enum KeyError {
    /// No keypair could be generated.
    Generate,
    /// The private key could not be sealed.
    Seal,
    /// The sealed key does not open under this passphrase.
    Open,
    /// The private key has not the length of a Curve25519 key.
    InvalidLength,
}

/// `snow::Error`: why no keypair was generated. Opaque here.
#[verifier::external_type_specification]
#[verifier::external_body]
pub struct ExSnowError(snow::Error);

/// What sealing `plain` under `key` with the nonce `nonce` gives.
pub uninterp spec fn sealed_with(key: Seq<u8>, nonce: Seq<u8>, plain: Seq<u8>) -> Option<Seq<u8>>;

/// What opening `sealed` under `key` with the nonce `nonce` gives.
pub uninterp spec fn opened_with(key: Seq<u8>, nonce: Seq<u8>, sealed: Seq<u8>) -> Option<
    Seq<u8>,
>;

/// The nonce under which private keys are sealed: twelve zero bytes.
pub open spec fn zero_nonce() -> Seq<u8> {
    Seq::new(NONCE_LEN as nat, |i: int| 0u8)
}

/// What sealing the private key `plain` under `key` gives.
pub open spec fn sealed_key(key: Seq<u8>, plain: Seq<u8>) -> Option<Seq<u8>> {
    sealed_with(key, zero_nonce(), plain)
}

/// What opening the sealed private key `sealed` under `key` gives.
pub open spec fn opened_key(key: Seq<u8>, sealed: Seq<u8>) -> Option<Seq<u8>> {
    opened_with(key, zero_nonce(), sealed)
}

/// The nonce under which private keys are sealed.
pub fn make_zero_nonce() -> (nonce: Vec<u8>)
    ensures
        nonce@ == zero_nonce(),
{
    let mut nonce: Vec<u8> = Vec::new();
    let mut i: usize = 0;
    while i < NONCE_LEN
        invariant
            i <= NONCE_LEN,
            nonce@ == Seq::new(i as nat, |j: int| 0u8),
        decreases NONCE_LEN - i,
    {
        nonce.push(0);
        assert(nonce@ =~= Seq::new((i + 1) as nat, |j: int| 0u8));
        i += 1;
    }
    nonce
}

/// The Curve25519 public key of the private key `private`.
pub uninterp spec fn public_of(private: Seq<u8>) -> Seq<u8>;

/// The base64 text of `bytes`.
pub uninterp spec fn base64_of(bytes: Seq<u8>) -> Seq<char>;

/// The bytes that the base64 text `text` writes, if it is well-formed.
pub uninterp spec fn base64_bytes(text: Seq<u8>) -> Option<Seq<u8>>;

/// The BLAKE2s-256 digest of `bytes`.
pub uninterp spec fn blake2s_of(bytes: Seq<u8>) -> Seq<u8>;

/// `Blake2s256`, fed with `bytes` once and finalized: the 32-byte digest
/// of `bytes`, a function of the bytes.
#[verifier::external_body]
pub(crate) fn blake2s(bytes: &[u8]) -> (digest: [u8; 32])
    ensures
        digest@ == blake2s_of(bytes@),
{
    let mut hasher = blake2::Blake2s256::new();
    hasher.update(bytes);
    hasher.finalize().into()
}

/// The digest by which a client executable is recognized.
pub fn file_digest(image: &[u8]) -> (digest: Vec<u8>)
    ensures
        digest@ == blake2s_of(image@),
        digest@.len() == FILEHASH_LEN,
{
    let d = blake2s(image);
    let mut digest: Vec<u8> = Vec::new();
    let mut i: usize = 0;
    while i < 32
        invariant
            i <= 32,
            digest@ == d@.take(i as int),
        decreases 32 - i,
    {
        digest.push(d[i]);
        assert(d@.take(i + 1) =~= d@.take(i as int).push(d@[i as int]));
        i += 1;
    }
    assert(d@.take(32) =~= d@);
    digest
}

/// `snow::Builder::generate_keypair` for the handshake pattern named
/// `pattern`: a fresh random keypair, or why none was generated. Nothing
/// is promised of the pair.
#[verifier::external_body]
pub(crate) fn fresh_keypair(pattern: &str) -> (r: Result<Keypair, snow::Error>) {
    let pair = snow::Builder::new(pattern.parse()?).generate_keypair()?;
    Ok(Keypair { private: pair.private, public: pair.public })
}

/// `ChaCha20Poly1305::encrypt`: the ciphertext with its tag, a function
/// of key, nonce and plaintext. What it returns opens again, under the
/// same key and nonce, to the plaintext.
#[verifier::external_body]
pub(crate) fn seal(key: &[u8], nonce: &[u8], plain: &[u8]) -> (r: Option<Vec<u8>>)
    requires
        key@.len() == KEYPASS_LEN,
        nonce@.len() == NONCE_LEN,
    ensures
        opt_bytes(r) == sealed_with(key@, nonce@, plain@),
        r matches Some(sealed) ==> opened_with(key@, nonce@, sealed@) == Some(plain@),
{
    let cipher = chacha20poly1305::ChaCha20Poly1305::new(chacha20poly1305::Key::from_slice(key));
    cipher.encrypt(chacha20poly1305::Nonce::from_slice(nonce), plain).ok()
}

/// `ChaCha20Poly1305::decrypt`: the plaintext, or nothing where the tag
/// does not verify; a function of key, nonce and ciphertext.
#[verifier::external_body]
pub(crate) fn open(key: &[u8], nonce: &[u8], sealed: &[u8]) -> (r: Option<Vec<u8>>)
    requires
        key@.len() == KEYPASS_LEN,
        nonce@.len() == NONCE_LEN,
    ensures
        opt_bytes(r) == opened_with(key@, nonce@, sealed@),
{
    let cipher = chacha20poly1305::ChaCha20Poly1305::new(chacha20poly1305::Key::from_slice(key));
    cipher.decrypt(chacha20poly1305::Nonce::from_slice(nonce), sealed).ok()
}

/// `EdwardsPoint::mul_base_clamped` and `to_montgomery`: the Curve25519
/// public key that belongs to a private key, a function of the private key.
#[verifier::external_body]
pub(crate) fn montgomery_public(private: [u8; 32]) -> (public: [u8; 32])
    ensures
        public@ == public_of(private@),
{
    curve25519_dalek::EdwardsPoint::mul_base_clamped(private).to_montgomery().to_bytes()
}

/// `base64::encode`: the standard base64 text of `bytes`, with padding.
/// `base64::decode` reads that text back to `bytes`.
#[verifier::external_body]
pub(crate) fn base64_encode(bytes: &[u8]) -> (text: String)
    ensures
        text@ == base64_of(bytes@),
        base64_bytes(encode_utf8(text@)) == Some(bytes@),
{
    base64::encode(bytes)
}

/// `base64::decode`: the bytes that a standard base64 text writes, or
/// nothing where the text is not well-formed.
#[verifier::external_body]
pub(crate) fn base64_decode(text: &str) -> (bytes: Option<Vec<u8>>)
    ensures
        opt_bytes(bytes) == base64_bytes(text.spec_bytes()),
{
    base64::decode(text).ok()
}

/// The key made of a passphrase: its bytes, cut or padded with zeros to
/// `KEYPASS_LEN`.
pub open spec fn passphrase_key(pass: Seq<u8>) -> Seq<u8> {
    Seq::new(
        KEYPASS_LEN as nat,
        |i: int|
            if i < pass.len() {
                pass[i]
            } else {
                0u8
            },
    )
}

/// Makes the key of a passphrase.
pub fn pad_passphrase(pass: &str) -> (key: Vec<u8>)
    ensures
        key@ == passphrase_key(pass.spec_bytes()),
{
    let bytes = pass.as_bytes();
    let mut key: Vec<u8> = Vec::new();
    let mut i: usize = 0;
    while i < KEYPASS_LEN
        invariant
            i <= KEYPASS_LEN,
            key@.len() == i,
            bytes@ == pass.spec_bytes(),
            forall|j: int| 0 <= j < i ==> key@[j] == passphrase_key(bytes@)[j],
        decreases KEYPASS_LEN - i,
    {
        if i < bytes.len() {
            key.push(bytes[i]);
        } else {
            key.push(0);
        }
        i += 1;
    }
    assert(key@ =~= passphrase_key(pass.spec_bytes()));
    key
}

/// Seals a private key with a passphrase.
pub fn seal_private_key(private: &[u8], pass: &str) -> (r: Result<Vec<u8>, KeyError>)
    ensures
        match r {
            Ok(sealed) => sealed_key(passphrase_key(pass.spec_bytes()), private@) == Some(sealed@)
                && opened_key(passphrase_key(pass.spec_bytes()), sealed@) == Some(private@),
            Err(e) => e == KeyError::Seal && sealed_key(
                passphrase_key(pass.spec_bytes()),
                private@,
            ).is_none(),
        },
{
    let key = pad_passphrase(pass);
    let nonce = make_zero_nonce();
    match seal(key.as_slice(), nonce.as_slice(), private) {
        Some(sealed) => Ok(sealed),
        None => Err(KeyError::Seal),
    }
}

/// Opens a sealed private key with a passphrase. It fails, with `Open`,
/// exactly where the sealed key does not open under the passphrase.
pub fn decrypt_client_prikey(key: Vec<u8>, pass: &str) -> (r: Result<Vec<u8>, KeyError>)
    ensures
        match r {
            Ok(private) => opened_key(passphrase_key(pass.spec_bytes()), key@) == Some(private@),
            Err(e) => e == KeyError::Open && opened_key(
                passphrase_key(pass.spec_bytes()),
                key@,
            ).is_none(),
        },
{
    let pass_key = pad_passphrase(pass);
    let nonce = make_zero_nonce();
    match open(pass_key.as_slice(), nonce.as_slice(), key.as_slice()) {
        Some(private) => Ok(private),
        None => Err(KeyError::Open),
    }
}

/// Protects a generated keypair: with a passphrase, the private key is
/// replaced by its sealed form; without one, the pair stays as it is.
pub fn protect_keypair(pair: Keypair, passphrase: Option<&str>) -> (r: Result<Keypair, KeyError>)
    ensures
        match passphrase {
            None => r == Ok::<Keypair, KeyError>(pair),
            Some(pass) => match sealed_key(passphrase_key(pass.spec_bytes()), pair.private@) {
                Some(sealed) => r matches Ok(k) && k.private@ == sealed && k.public == pair.public
                    && opened_key(passphrase_key(pass.spec_bytes()), sealed) == Some(
                    pair.private@,
                ),
                None => r == Err::<Keypair, KeyError>(KeyError::Seal),
            },
        },
{
    match passphrase {
        None => Ok(pair),
        Some(pass) => {
            let sealed = seal_private_key(pair.private.as_slice(), pass)?;
            Ok(Keypair { private: sealed, public: pair.public })
        },
    }
}

/// The private key `private` is what a fresh 32-byte key looks like under
/// the protection asked for: the key itself, or its sealed form.
pub open spec fn is_protected_key(private: Seq<u8>, passphrase: Option<Seq<u8>>) -> bool {
    match passphrase {
        None => private.len() == KEY_LEN,
        Some(pass) => exists|raw: Seq<u8>|
            raw.len() == KEY_LEN && #[trigger] sealed_key(passphrase_key(pass), raw) == Some(
                private,
            ) && opened_key(passphrase_key(pass), private) == Some(raw),
    }
}

/// The bytes of an optional passphrase.
pub open spec fn pass_bytes(passphrase: Option<&str>) -> Option<Seq<u8>> {
    match passphrase {
        Some(p) => Some(p.spec_bytes()),
        None => None,
    }
}

/// The two keys are the halves of one raw keypair: a private key of 32
/// bytes and the public key that belongs to it.
pub open spec fn is_pair(private: Seq<u8>, public: Seq<u8>) -> bool {
    private.len() == KEY_LEN && public.len() == KEY_LEN && public == public_of(private)
}

/// The two keys are what generation gives under the protection asked for:
/// the halves of one pair, the private half sealed where a passphrase is given.
pub open spec fn is_generated_pair(
    private: Seq<u8>,
    public: Seq<u8>,
    passphrase: Option<Seq<u8>>,
) -> bool {
    match passphrase {
        None => is_pair(private, public),
        Some(pass) => exists|raw: Seq<u8>| #[trigger]
            is_pair(raw, public) && sealed_key(passphrase_key(pass), raw) == Some(private)
                && opened_key(passphrase_key(pass), private) == Some(raw),
    }
}

/// Whether the two keys of `pair` are the halves of one raw keypair.
pub fn check_keypair(pair: &Keypair) -> (r: bool)
    ensures
        r == is_pair(pair.private@, pair.public@),
{
    match derive_public_key(pair.private.as_slice()) {
        Ok(public) => bytes_equal(public.as_slice(), pair.public.as_slice()),
        Err(_) => false,
    }
}

/// Generates a static keypair, its private key sealed where a passphrase
/// is given. A pair whose halves do not belong together is not handed
/// out. Whatever pair comes out is one pair, protected as asked.
pub fn gen_keypair(passphrase: Option<&str>) -> (r: Result<Keypair, KeyError>)
    ensures
        r matches Ok(pair) ==> pair.public@.len() == KEY_LEN && is_protected_key(
            pair.private@,
            pass_bytes(passphrase),
        ) && is_generated_pair(pair.private@, pair.public@, pass_bytes(passphrase)),
        r matches Err(e) ==> e == KeyError::Generate || e == KeyError::Seal,
{
    let pair = match fresh_keypair(PATTERN) {
        Ok(pair) => pair,
        Err(_) => { return Err(KeyError::Generate); },
    };
    if !check_keypair(&pair) {
        return Err(KeyError::Generate);
    }
    let ghost raw = pair.private@;
    let ghost public = pair.public@;
    let r = protect_keypair(pair, passphrase);
    proof {
        if passphrase.is_some() && r.is_ok() {
            let key = passphrase_key(passphrase.unwrap().spec_bytes());
            assert(is_pair(raw, public) && sealed_key(key, raw) == Some(r.unwrap().private@)
                && opened_key(key, r.unwrap().private@) == Some(raw));
        }
    }
    r
}

/// Derives the Curve25519 public key of a raw private key. It fails,
/// with `InvalidLength`, exactly where the key is not 32 bytes long.
pub fn derive_public_key(private: &[u8]) -> (r: Result<[u8; 32], KeyError>)
    ensures
        match r {
            Ok(public) => private@.len() == KEY_LEN && public@ == public_of(private@),
            Err(e) => e == KeyError::InvalidLength && private@.len() != KEY_LEN,
        },
{
    if private.len() != KEY_LEN {
        return Err(KeyError::InvalidLength);
    }
    let mut bits: [u8; 32] = [0u8; 32];
    let mut i: usize = 0;
    while i < 32
        invariant
            i <= 32,
            private@.len() == 32,
            forall|j: int| 0 <= j < i ==> bits@[j] == private@[j],
        decreases 32 - i,
    {
        bits[i] = private[i];
        i += 1;
    }
    assert(bits@ =~= private@);
    Ok(montgomery_public(bits))
}

/// The base64 text of a key.
pub fn encode_key(key: &[u8]) -> (text: String)
    ensures
        text@ == base64_of(key@),
        base64_bytes(encode_utf8(text@)) == Some(key@),
{
    base64_encode(key)
}

/// The key that a base64 text writes, if the text is well-formed.
pub fn decode_key(text: &str) -> (key: Option<Vec<u8>>)
    ensures
        opt_bytes(key) == base64_bytes(text.spec_bytes()),
{
    base64_decode(text)
}

} // verus!
