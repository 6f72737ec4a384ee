//! The configuration that every client carries inside its own executable.

use crate::addr::SockAddr;
use crate::codec::{
    addr_at, bool_at, bytes_at, encode_addr, encode_bool, encode_bytes, holds_at,
    lemma_addr_read_unscoped, lemma_addr_roundtrip, lemma_addr_shortest, lemma_bool_roundtrip,
    lemma_bytes_roundtrip, unscoped,
    lemma_bytes_shortest, lemma_holds_at_split,
    lemma_varint_len, push_addr, push_bool, push_bytes, read_addr, read_bool, read_bytes,
    read_text, text_at, varint_len, CodecError,
};
use crate::consts::{CONF_BUF_LEN, REPLY_ACCEPTED, REPLY_ALREADY_ONLINE};
use crate::keys::{
    base64_encode, base64_of, decrypt_client_prikey, derive_public_key, opened_key,
    passphrase_key, public_of, KeyError,
};
use crate::remote::{target_of, Target};
use vstd::prelude::*;
use vstd::string::StringSliceAdditionalSpecFns;
use vstd::utf8::{
    decode_utf8_encode_utf8, encode_utf8, encode_utf8_decode_utf8, encode_utf8_valid_utf8,
};

verus! {

/// The embedded configuration of a client.
#[derive(Debug, Clone, PartialEq, Eq)]
pub struct ClientConfig {
    /// Address of the server to dial.
    pub server_addr: SockAddr,
    /// What the client reaches or exposes: a socket address as text, or the
    /// SOCKS5 token.
    pub target_addr: String,
    /// The client provides a reverse-proxy service.
    pub reverse: bool,
    /// Static public key of the server.
    pub server_pubkey: Vec<u8>,
    /// Static private key of the client, sealed where `has_keypass` is set.
    pub client_prikey: Vec<u8>,
    /// The private key is sealed with a passphrase.
    pub has_keypass: bool,
}

/// A client configuration as mathematical values.
pub struct ConfigModel {
    pub server_addr: SockAddr,
    pub target_addr: Seq<char>,
    pub reverse: bool,
    pub server_pubkey: Seq<u8>,
    pub client_prikey: Seq<u8>,
    pub has_keypass: bool,
}

impl View for ClientConfig {
    type V = ConfigModel;

    open spec fn view(&self) -> ConfigModel {
        ConfigModel {
            server_addr: self.server_addr,
            target_addr: self.target_addr@,
            reverse: self.reverse,
            server_pubkey: self.server_pubkey@,
            client_prikey: self.client_prikey@,
            has_keypass: self.has_keypass,
        }
    }
}

/// The configuration as its encoding keeps it: the server address
/// without its zone, all else as it is.
pub open spec fn stored(c: ConfigModel) -> ConfigModel {
    ConfigModel {
        server_addr: unscoped(c.server_addr),
        target_addr: c.target_addr,
        reverse: c.reverse,
        server_pubkey: c.server_pubkey,
        client_prikey: c.client_prikey,
        has_keypass: c.has_keypass,
    }
}

/// The encoding of a configuration: its six fields in order.
pub open spec fn encode_config(c: ConfigModel) -> Seq<u8> {
    encode_addr(c.server_addr) + encode_bytes(encode_utf8(c.target_addr)) + encode_bool(c.reverse)
        + encode_bytes(c.server_pubkey) + encode_bytes(c.client_prikey) + encode_bool(
        c.has_keypass,
    )
}

/// The configuration that the first `CONF_BUF_LEN` bytes of `s` encode;
/// what follows the last field is not read. Where the fields would end
/// beyond those bytes, the configuration is too long: `SizeLimit`.
pub open spec fn decode_config(s: Seq<u8>) -> Result<ConfigModel, CodecError> {
    if s.len() <= CONF_BUF_LEN {
        decode_fields(s)
    } else {
        match decode_fields(s.take(CONF_BUF_LEN as int)) {
            Err(CodecError::UnexpectedEnd) => Err(CodecError::SizeLimit),
            r => r,
        }
    }
}

/// The six fields that the front of `s` encodes; what follows them is not read.
pub open spec fn decode_fields(s: Seq<u8>) -> Result<ConfigModel, CodecError> {
    match addr_at(s, 0) {
        Err(e) => Err(e),
        Ok((server_addr, p1)) => match text_at(s, p1) {
            Err(e) => Err(e),
            Ok((target_addr, p2)) => match bool_at(s, p2) {
                Err(e) => Err(e),
                Ok((reverse, p3)) => match bytes_at(s, p3) {
                    Err(e) => Err(e),
                    Ok((server_pubkey, p4)) => match bytes_at(s, p4) {
                        Err(e) => Err(e),
                        Ok((client_prikey, p5)) => match bool_at(s, p5) {
                            Err(e) => Err(e),
                            Ok((has_keypass, _)) => Ok(
                                ConfigModel {
                                    server_addr,
                                    target_addr,
                                    reverse,
                                    server_pubkey,
                                    client_prikey,
                                    has_keypass,
                                },
                            ),
                        },
                    },
                },
            },
        },
    }
}

/// Where the encodings of the six fields stand one behind the other in `s`,
/// reading `s` gives the six fields.
#[verifier::rlimit(50)]
proof fn lemma_fields_decode(s: Seq<u8>, c: ConfigModel)
    requires
        encode_utf8(c.target_addr).len() <= usize::MAX,
        c.server_pubkey.len() <= usize::MAX,
        c.client_prikey.len() <= usize::MAX,
        holds_at(s, 0, encode_addr(c.server_addr)),
        holds_at(s, field_start(c, 1), encode_bytes(encode_utf8(c.target_addr))),
        holds_at(s, field_start(c, 2), encode_bool(c.reverse)),
        holds_at(s, field_start(c, 3), encode_bytes(c.server_pubkey)),
        holds_at(s, field_start(c, 4), encode_bytes(c.client_prikey)),
        holds_at(s, field_start(c, 5), encode_bool(c.has_keypass)),
    ensures
        decode_fields(s) == Ok::<ConfigModel, CodecError>(stored(c)),
{
    let p1 = field_start(c, 1);
    let p2 = field_start(c, 2);
    let p3 = field_start(c, 3);
    let p4 = field_start(c, 4);
    let p5 = field_start(c, 5);
    lemma_addr_roundtrip(s, 0, c.server_addr);
    assert(addr_at(s, 0) == Ok::<(SockAddr, int), CodecError>((unscoped(c.server_addr), p1)));
    assert(text_at(s, p1) == Ok::<(Seq<char>, int), CodecError>((c.target_addr, p2))) by {
        lemma_bytes_roundtrip(s, p1, encode_utf8(c.target_addr));
        encode_utf8_valid_utf8(c.target_addr);
        encode_utf8_decode_utf8(c.target_addr);
    }
    assert(bool_at(s, p2) == Ok::<(bool, int), CodecError>((c.reverse, p3))) by {
        lemma_bool_roundtrip(s, p2, c.reverse);
    }
    assert(bytes_at(s, p3) == Ok::<(Seq<u8>, int), CodecError>((c.server_pubkey, p4))) by {
        lemma_bytes_roundtrip(s, p3, c.server_pubkey);
    }
    assert(bytes_at(s, p4) == Ok::<(Seq<u8>, int), CodecError>((c.client_prikey, p5))) by {
        lemma_bytes_roundtrip(s, p4, c.client_prikey);
    }
    assert(bool_at(s, p5) == Ok::<(bool, int), CodecError>((c.has_keypass, p5 + 1))) by {
        lemma_bool_roundtrip(s, p5, c.has_keypass);
    }
}

/// The position at which field number `k` of the encoding of `c` starts.
pub open spec fn field_start(c: ConfigModel, k: int) -> int {
    let l1 = encode_addr(c.server_addr).len() as int;
    let l2 = encode_bytes(encode_utf8(c.target_addr)).len() as int;
    let l4 = encode_bytes(c.server_pubkey).len() as int;
    let l5 = encode_bytes(c.client_prikey).len() as int;
    if k <= 0 {
        0
    } else if k == 1 {
        l1
    } else if k == 2 {
        l1 + l2
    } else if k == 3 {
        l1 + l2 + 1
    } else if k == 4 {
        l1 + l2 + 1 + l4
    } else {
        l1 + l2 + 1 + l4 + l5
    }
}

/// Reading the fields of an encoded configuration gives the configuration
/// back as it is stored, whatever bytes follow the encoding.
#[verifier::rlimit(50)]
pub proof fn lemma_config_roundtrip(c: ConfigModel, rest: Seq<u8>)
    requires
        encode_utf8(c.target_addr).len() <= usize::MAX,
        c.server_pubkey.len() <= usize::MAX,
        c.client_prikey.len() <= usize::MAX,
    ensures
        decode_fields(encode_config(c) + rest) == Ok::<ConfigModel, CodecError>(stored(c)),
{
    let e1 = encode_addr(c.server_addr);
    let e2 = encode_bytes(encode_utf8(c.target_addr));
    let e3 = encode_bool(c.reverse);
    let e4 = encode_bytes(c.server_pubkey);
    let e5 = encode_bytes(c.client_prikey);
    let e6 = encode_bool(c.has_keypass);
    let all = e1 + e2 + e3 + e4 + e5 + e6;
    let s = all + rest;
    assert(encode_config(c) == all);
    assert(holds_at(s, 0, all)) by {
        assert forall|j: int| 0 <= j < all.len() implies s[0 + j] == #[trigger] all[j] by {}
    }
    lemma_holds_at_split(s, 0, e1 + e2 + e3 + e4 + e5, e6);
    lemma_holds_at_split(s, 0, e1 + e2 + e3 + e4, e5);
    lemma_holds_at_split(s, 0, e1 + e2 + e3, e4);
    lemma_holds_at_split(s, 0, e1 + e2, e3);
    lemma_holds_at_split(s, 0, e1, e2);
    assert(e3.len() == 1);
    lemma_fields_decode(s, c);
}

/// The length of the encoding of a byte string of `len` bytes.
pub open spec fn bytes_size(len: nat) -> nat {
    varint_len(len) + len
}

/// The length of the encoding of a configuration.
pub open spec fn config_size(c: ConfigModel) -> nat {
    encode_addr(c.server_addr).len() + bytes_size(encode_utf8(c.target_addr).len()) + 1
        + bytes_size(c.server_pubkey.len()) + bytes_size(c.client_prikey.len()) + 1
}

/// The encoding of a configuration is as long as its fields say.
pub proof fn lemma_config_size(c: ConfigModel)
    ensures
        encode_config(c).len() == config_size(c),
{
    lemma_varint_len(encode_utf8(c.target_addr).len());
    lemma_varint_len(c.server_pubkey.len());
    lemma_varint_len(c.client_prikey.len());
}

/// The fields that were read can be written again in no more bytes than
/// they were read from.
#[verifier::rlimit(50)]
pub proof fn lemma_decoded_fields_fit(s: Seq<u8>)
    requires
        decode_fields(s) is Ok,
    ensures
        encode_config(decode_fields(s)->Ok_0).len() <= s.len(),
{
    let c = decode_fields(s)->Ok_0;
    lemma_config_size(c);
    lemma_addr_shortest(s, 0);
    let p1 = addr_at(s, 0)->Ok_0.1;
    assert(text_at(s, p1) is Ok);
    lemma_bytes_shortest(s, p1);
    let raw = bytes_at(s, p1)->Ok_0.0;
    decode_utf8_encode_utf8(raw);
    assert(encode_utf8(c.target_addr) == raw);
    let p2 = bytes_at(s, p1)->Ok_0.1;
    let p3 = p2 + 1;
    assert(bool_at(s, p2) is Ok);
    assert(bytes_at(s, p3) is Ok);
    lemma_bytes_shortest(s, p3);
    let p4 = bytes_at(s, p3)->Ok_0.1;
    assert(bytes_at(s, p4) is Ok);
    lemma_bytes_shortest(s, p4);
    let p5 = bytes_at(s, p4)->Ok_0.1;
    assert(bool_at(s, p5) is Ok);
    assert(p5 + 1 <= s.len());
    lemma_varint_len(raw.len());
    lemma_varint_len(c.server_pubkey.len());
    lemma_varint_len(c.client_prikey.len());
}

/// Adds the encoded size of a byte string of `len` bytes to `total`, as
/// long as the sum stays within the reserved section.
fn add_bytes_size(total: usize, len: usize) -> (r: Option<usize>)
    requires
        total <= CONF_BUF_LEN,
    ensures
        r == if total + bytes_size(len as nat) <= CONF_BUF_LEN {
            Some((total + bytes_size(len as nat)) as usize)
        } else {
            None
        },
{
    if len > CONF_BUF_LEN {
        return None;
    }
    let head: usize = if len <= 250 {
        1
    } else {
        3
    };
    if total + head + len <= CONF_BUF_LEN {
        Some(total + head + len)
    } else {
        None
    }
}

impl ClientConfig {
    /// The size of the encoding, where it fits the reserved section.
    fn encoded_size(&self) -> (r: Option<usize>)
        ensures
            r == if config_size(self@) <= CONF_BUF_LEN {
                Some(config_size(self@) as usize)
            } else {
                None
            },
    {
        let port = self.server_addr.port();
        let port_len: usize = if port <= 250 {
            1
        } else {
            3
        };
        let addr_len: usize = match self.server_addr {
            SockAddr::V4 { ip, port } => 5 + port_len,
            SockAddr::V6 { ip, port, scope } => 17 + port_len,
        };
        proof {
            lemma_varint_len(0);
            lemma_varint_len(1);
            lemma_varint_len(port as nat);
            match self.server_addr {
                SockAddr::V4 { ip, port } => {
                    assert(ip@.len() == 4);
                },
                SockAddr::V6 { ip, port, scope } => {
                    assert(ip@.len() == 16);
                },
            }
            assert(encode_addr(self.server_addr).len() == addr_len);
        }
        let target = self.target_addr.as_str().as_bytes();
        let t1 = match add_bytes_size(addr_len, target.len()) {
            Some(t) => t,
            None => { return None; },
        };
        let t2 = t1 + 1;
        if t2 > CONF_BUF_LEN {
            return None;
        }
        let t3 = match add_bytes_size(t2, self.server_pubkey.len()) {
            Some(t) => t,
            None => { return None; },
        };
        let t4 = match add_bytes_size(t3, self.client_prikey.len()) {
            Some(t) => t,
            None => { return None; },
        };
        if t4 + 1 > CONF_BUF_LEN {
            return None;
        }
        Some(t4 + 1)
    }

    /// Encodes the configuration. It fails with `SizeLimit`, and only so,
    /// where the encoding would not fit the reserved section.
    pub fn to_vec(&self) -> (r: Result<Vec<u8>, CodecError>)
        ensures
            match r {
                Ok(v) => v@ == encode_config(self@) && v@.len() <= CONF_BUF_LEN,
                Err(e) => e == CodecError::SizeLimit && encode_config(self@).len() > CONF_BUF_LEN,
            },
    {
        proof {
            lemma_config_size(self@);
        }
        let size = match self.encoded_size() {
            Some(size) => size,
            None => { return Err(CodecError::SizeLimit); },
        };
        let mut out: Vec<u8> = Vec::with_capacity(size);
        push_addr(&mut out, &self.server_addr);
        push_bytes(&mut out, self.target_addr.as_str().as_bytes());
        push_bool(&mut out, self.reverse);
        push_bytes(&mut out, self.server_pubkey.as_slice());
        push_bytes(&mut out, self.client_prikey.as_slice());
        push_bool(&mut out, self.has_keypass);
        assert(out@ =~= encode_config(self@));
        Ok(out)
    }

    /// Decodes the six fields from the front of `bytes`.
    fn read_fields(bytes: &[u8]) -> (r: Result<ClientConfig, CodecError>)
        ensures
            match r {
                Ok(c) => decode_fields(bytes@) == Ok::<ConfigModel, CodecError>(c@),
                Err(e) => decode_fields(bytes@) == Err::<ConfigModel, CodecError>(e),
            },
    {
        let (server_addr, p1) = read_addr(bytes, 0)?;
        let (target_addr, p2) = read_text(bytes, p1)?;
        let (reverse, p3) = read_bool(bytes, p2)?;
        let (server_pubkey, p4) = read_bytes(bytes, p3)?;
        let (client_prikey, p5) = read_bytes(bytes, p4)?;
        let (has_keypass, _) = read_bool(bytes, p5)?;
        Ok(
            ClientConfig {
                server_addr,
                target_addr,
                reverse,
                server_pubkey,
                client_prikey,
                has_keypass,
            },
        )
    }

    /// Decodes a configuration from the first `CONF_BUF_LEN` bytes of
    /// `bytes`; what follows the last field is not read. It fails with
    /// `SizeLimit` where the fields would end beyond those bytes.
    pub fn from_slice(bytes: &[u8]) -> (r: Result<ClientConfig, CodecError>)
        ensures
            match r {
                Ok(c) => decode_config(bytes@) == Ok::<ConfigModel, CodecError>(c@),
                Err(e) => decode_config(bytes@) == Err::<ConfigModel, CodecError>(e),
            },
    {
        if bytes.len() <= CONF_BUF_LEN {
            ClientConfig::read_fields(bytes)
        } else {
            let front = vstd::slice::slice_subrange(bytes, 0, CONF_BUF_LEN);
            assert(front@ =~= bytes@.take(CONF_BUF_LEN as int));
            match ClientConfig::read_fields(front) {
                Ok(c) => Ok(c),
                Err(CodecError::UnexpectedEnd) => Err(CodecError::SizeLimit),
                Err(e) => Err(e),
            }
        }
    }
}

/// Reading an encoded configuration that fits the reserved section gives
/// the configuration back, whatever bytes follow the encoding: all of it
/// where its server address has no zone, and else all but the zone.
pub proof fn lemma_fitting_config_roundtrip(c: ConfigModel, rest: Seq<u8>)
    requires
        encode_config(c).len() <= CONF_BUF_LEN,
    ensures
        decode_config(encode_config(c) + rest) == Ok::<ConfigModel, CodecError>(stored(c)),
        unscoped(c.server_addr) == c.server_addr ==> decode_config(encode_config(c) + rest)
            == Ok::<ConfigModel, CodecError>(c),
{
    assert(encode_utf8(c.target_addr).len() <= CONF_BUF_LEN && c.server_pubkey.len()
        <= CONF_BUF_LEN && c.client_prikey.len() <= CONF_BUF_LEN) by {
        lemma_config_size(c);
    }
    let enc = encode_config(c);
    let s = enc + rest;
    if s.len() <= CONF_BUF_LEN {
        lemma_config_roundtrip(c, rest);
    } else {
        let kept = rest.take(CONF_BUF_LEN - enc.len());
        assert(s.take(CONF_BUF_LEN as int) =~= enc + kept);
        lemma_config_roundtrip(c, kept);
    }
}

/// A configuration that was read can be written again in no more bytes
/// than it was read from, and in no more than the reserved section has.
/// It is stored as it is: its server address has no zone.
pub proof fn lemma_decoded_config_fits(s: Seq<u8>)
    requires
        decode_config(s) is Ok,
    ensures
        encode_config(decode_config(s)->Ok_0).len() <= s.len(),
        encode_config(decode_config(s)->Ok_0).len() <= CONF_BUF_LEN,
        stored(decode_config(s)->Ok_0) == decode_config(s)->Ok_0,
{
    if s.len() <= CONF_BUF_LEN {
        lemma_addr_read_unscoped(s, 0);
    } else {
        lemma_addr_read_unscoped(s.take(CONF_BUF_LEN as int), 0);
    }
    if s.len() <= CONF_BUF_LEN {
        lemma_decoded_fields_fit(s);
    } else {
        lemma_decoded_fields_fit(s.take(CONF_BUF_LEN as int));
    }
}

/// The client program.
pub struct Client;

/// Why a client cannot start.
#[derive(Clone, Copy, Debug, PartialEq, Eq, Structural)]
pub enum ClientError {
    /// The embedded configuration cannot be read.
    Config(CodecError),
    /// The private key cannot be opened or used.
    Key(KeyError),
    /// The private key is sealed and no passphrase was given.
    PassphraseMissing,
    /// A reverse-proxy client exposes neither the SOCKS5 engine nor a socket address.
    InvalidTarget,
}

/// What a client does once it has started.
#[derive(Clone, Debug, PartialEq, Eq)]
pub enum ClientPlan {
    /// Listen on `listen` and carry every connection to the server.
    Forward { listen: SockAddr, conf: ClientConfig },
    /// Dial the server, provide the service, and expose `target`.
    Reverse { target: Target, conf: ClientConfig },
}

/// What the server's reply byte tells a reverse-proxy provider.
#[derive(Clone, Copy, Debug, PartialEq, Eq, Structural)]
pub enum ProviderReply {
    /// The provider is admitted and starts the multiplexer.
    Proceed,
    /// The service is online already; this process must give up for good.
    AlreadyOnline,
    /// The server denies the provider; it may try again later.
    Denied,
}

/// The configuration `c` dialling `addr` with the private key `private`.
pub open spec fn readied(c: ConfigModel, addr: Option<SockAddr>, private: Seq<u8>) -> ConfigModel {
    ConfigModel {
        server_addr: match addr {
            Some(a) => a,
            None => c.server_addr,
        },
        target_addr: c.target_addr,
        reverse: c.reverse,
        server_pubkey: c.server_pubkey,
        client_prikey: private,
        has_keypass: c.has_keypass,
    }
}

/// The address `127.0.0.1:port` on which a forward client listens.
pub open spec fn loopback(port: u16) -> SockAddr {
    SockAddr::V4 { ip: [127u8, 0u8, 0u8, 1u8], port }
}

/// The result `r` is the plan of a client with the ready configuration `c`.
pub open spec fn is_plan_of(r: Result<ClientPlan, ClientError>, c: ConfigModel, port: u16) -> bool {
    if c.reverse {
        match target_of(c.target_addr) {
            None => r == Err::<ClientPlan, ClientError>(ClientError::InvalidTarget),
            Some(t) => r matches Ok(ClientPlan::Reverse { target, conf }) && target == t && conf@
                == c,
        }
    } else {
        r matches Ok(ClientPlan::Forward { listen, conf }) && listen == loopback(port) && conf@
            == c
    }
}

/// The result `r` is what starting a client with the embedded bytes
/// `bytes` leads to.
pub open spec fn is_start_of(
    r: Result<ClientPlan, ClientError>,
    bytes: Seq<u8>,
    port: u16,
    addr: Option<SockAddr>,
    pass: Option<Seq<u8>>,
) -> bool {
    match decode_config(bytes) {
        Err(e) => r == Err::<ClientPlan, ClientError>(ClientError::Config(e)),
        Ok(c) => if !c.has_keypass {
            is_plan_of(r, readied(c, addr, c.client_prikey), port)
        } else {
            match pass {
                None => r == Err::<ClientPlan, ClientError>(ClientError::PassphraseMissing),
                Some(p) => match opened_key(passphrase_key(p), c.client_prikey) {
                    None => r == Err::<ClientPlan, ClientError>(
                        ClientError::Key(KeyError::Open),
                    ),
                    Some(raw) => is_plan_of(r, readied(c, addr, raw), port),
                },
            }
        },
    }
}

impl Client {
    /// Plans the run of a client whose configuration is ready.
    pub fn plan(conf: ClientConfig, port: u16) -> (r: Result<ClientPlan, ClientError>)
        ensures
            is_plan_of(r, conf@, port),
    {
        if conf.reverse {
            match Target::parse(conf.target_addr.as_str()) {
                Some(target) => Ok(ClientPlan::Reverse { target, conf }),
                None => Err(ClientError::InvalidTarget),
            }
        } else {
            let ip: [u8; 4] = [127, 0, 0, 1];
            Ok(ClientPlan::Forward { listen: SockAddr::V4 { ip, port }, conf })
        }
    }

    /// Starts a client: reads the embedded configuration `bytes`, dials
    /// `server_addr` instead of the embedded address where one is given,
    /// opens the private key with the passphrase where it is sealed, and
    /// plans the forward or the reverse run.
    pub fn run_client(
        bytes: &[u8],
        port: u16,
        server_addr: Option<SockAddr>,
        passphrase: Option<&str>,
    ) -> (r: Result<ClientPlan, ClientError>)
        ensures
            is_start_of(r, bytes@, port, server_addr, crate::keys::pass_bytes(passphrase)),
    {
        let conf = match ClientConfig::from_slice(bytes) {
            Ok(c) => c,
            Err(e) => { return Err(ClientError::Config(e)); },
        };
        let ghost c = conf@;
        let ClientConfig {
            server_addr: embedded,
            target_addr,
            reverse,
            server_pubkey,
            client_prikey,
            has_keypass,
        } = conf;
        let addr = match server_addr {
            Some(a) => a,
            None => embedded,
        };
        let private = if has_keypass {
            match passphrase {
                None => { return Err(ClientError::PassphraseMissing); },
                Some(p) => match decrypt_client_prikey(client_prikey, p) {
                    Ok(raw) => raw,
                    Err(e) => { return Err(ClientError::Key(e)); },
                },
            }
        } else {
            client_prikey
        };
        let ready = ClientConfig {
            server_addr: addr,
            target_addr,
            reverse,
            server_pubkey,
            client_prikey: private,
            has_keypass,
        };
        assert(ready@ == readied(c, server_addr, private@));
        Client::plan(ready, port)
    }

    /// Reads the server's reply to the digest that a provider sent.
    pub fn provider_reply(reply: u8) -> (r: ProviderReply)
        ensures
            r == if reply == 66 {
                ProviderReply::Proceed
            } else if reply == 88 {
                ProviderReply::AlreadyOnline
            } else {
                ProviderReply::Denied
            },
    {
        if reply == REPLY_ACCEPTED {
            ProviderReply::Proceed
        } else if reply == REPLY_ALREADY_ONLINE {
            ProviderReply::AlreadyOnline
        } else {
            ProviderReply::Denied
        }
    }

    /// The public key of the client in base64, and with it, where asked
    /// for, the public key of its server. The private key must be a raw
    /// key of 32 bytes.
    pub fn list_pubkey(bytes: &[u8], server: bool) -> (r: Result<
        (String, Option<String>),
        ClientError,
    >)
        ensures
            match decode_config(bytes@) {
                Err(e) => r == Err::<(String, Option<String>), ClientError>(ClientError::Config(e)),
                Ok(c) => if c.client_prikey.len() != 32 {
                    r == Err::<(String, Option<String>), ClientError>(
                        ClientError::Key(KeyError::InvalidLength),
                    )
                } else {
                    r matches Ok((own, of_server)) && own@ == base64_of(public_of(c.client_prikey))
                        && match of_server {
                        Some(text) => server && text@ == base64_of(c.server_pubkey),
                        None => !server,
                    }
                },
            },
    {
        let conf = match ClientConfig::from_slice(bytes) {
            Ok(c) => c,
            Err(e) => { return Err(ClientError::Config(e)); },
        };
        let public = match derive_public_key(conf.client_prikey.as_slice()) {
            Ok(p) => p,
            Err(e) => { return Err(ClientError::Key(e)); },
        };
        let own = base64_encode(public.as_slice());
        let of_server = if server {
            Some(base64_encode(conf.server_pubkey.as_slice()))
        } else {
            None
        };
        Ok((own, of_server))
    }
}

} // verus!
