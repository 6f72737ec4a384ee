//! The server: who may connect, what each client is given, and how a
//! reverse-proxy provider is admitted.

use crate::addr::{decimal_text, parse_text, push_decimal, SockAddr, COLON};
use crate::client::{decode_config, ClientConfig, ConfigModel};
use crate::codec::push_all;
use crate::gen::{
    image_result, locate_section, section_bytes, stamp_config, stamped, GenError,
};
use crate::keys::{
    blake2s_of, file_digest, gen_keypair, is_generated_pair, is_pair, is_protected_key,
    pass_bytes, KeyError, Keypair,
};
use crate::consts::{
    DEFAULT_PORT, FILEHASH_LEN, REPLY_ACCEPTED, REPLY_ALREADY_ONLINE, REPLY_HASH_MISMATCH,
};
use crate::registry::Registry;
use crate::remote::{Remote, Target};
use crate::text::{bytes_equal, copy_bytes};
use vstd::prelude::*;
use vstd::string::StringSliceAdditionalSpecFns;
use vstd::utf8::{decode_utf8, encode_utf8, encode_utf8_decode_utf8};

verus! {

/// The digest of a client executable.
#[derive(PartialEq, Eq, Clone, Debug)]
pub struct FileHash {
    pub hash: Vec<u8>,
}

/// A client that the server knows. Two entries with the same public key
/// are the same client.
#[derive(Clone, Debug)]
pub struct ClientEntry {
    /// Name of the user.
    pub name: String,
    /// Static public key by which the client is authorized.
    pub pubkey: Vec<u8>,
    /// Digest of the client executable, for reverse-proxy providers.
    pub filehash: Option<FileHash>,
    /// Policy of this client, where it has one of its own.
    pub remote: Option<Remote>,
}

/// The configuration of a server.
#[derive(Clone, Debug)]
pub struct ServerConfig {
    /// Public address that generated clients dial.
    pub host: String,
    /// Port on which the server listens.
    pub port: u16,
    /// Policy of the clients that have none of their own.
    pub remote: Remote,
    /// Static public key of the server.
    pub pubkey: Vec<u8>,
    /// Static private key of the server.
    pub prikey: Vec<u8>,
    /// The clients, no two of them with the same public key.
    pub clients: Vec<ClientEntry>,
}

/// The port of a configuration that names none.
pub fn default_port() -> (port: u16)
    ensures
        port == 8022,
{
    DEFAULT_PORT
}

/// The host of a configuration that names none.
pub fn default_host() -> (host: String)
    ensures
        host@ == "192.168.1.1"@,
{
    "192.168.1.1".to_string()
}

/// The policy of a configuration that names none: the built-in SOCKS5 engine.
pub fn default_remote() -> (remote: Remote)
    ensures
        remote == Remote::Proxy(Target::Socks5),
{
    Remote::Proxy(Target::Socks5)
}

/// No two of the clients have the same public key.
pub open spec fn distinct_keys(clients: Seq<ClientEntry>) -> bool {
    forall|i: int, j: int|
        0 <= i < j < clients.len() ==> (#[trigger] clients[i]).pubkey@ != (
        #[trigger] clients[j]).pubkey@
}

/// Every client that is itself set to provide a reverse proxy carries the
/// digest of its executable.
pub open spec fn providers_hashed(clients: Seq<ClientEntry>) -> bool {
    forall|i: int|
        0 <= i < clients.len() && provides((#[trigger] clients[i]).remote)
            ==> clients[i].filehash.is_some()
}

/// The policy, where there is one, is that of a reverse-proxy provider.
pub open spec fn provides(remote: Option<Remote>) -> bool {
    match remote {
        Some(Remote::RProxy(_, _)) => true,
        _ => false,
    }
}

/// The index of the entry with public key `key` among the first `upto`
/// clients, or `upto` where there is none.
pub open spec fn index_of_key(clients: Seq<ClientEntry>, key: Seq<u8>, upto: int) -> int
    decreases upto,
{
    if upto <= 0 {
        0
    } else if index_of_key(clients, key, upto - 1) < upto - 1 {
        index_of_key(clients, key, upto - 1)
    } else if clients[upto - 1].pubkey@ == key {
        upto - 1
    } else {
        upto
    }
}

/// Some client has the public key `key`.
pub open spec fn has_key(clients: Seq<ClientEntry>, key: Seq<u8>) -> bool {
    exists|i: int| 0 <= i < clients.len() && (#[trigger] clients[i]).pubkey@ == key
}

impl ServerConfig {
    /// The configuration is well-formed.
    pub open spec fn wf(&self) -> bool {
        distinct_keys(self.clients@)
    }

    /// The position of the client with public key `key`, if there is one.
    pub fn find_client(&self, key: &[u8]) -> (r: Option<usize>)
        ensures
            match r {
                Some(i) => i < self.clients@.len() && self.clients@[i as int].pubkey@ == key@
                    && i == index_of_key(self.clients@, key@, self.clients@.len() as int),
                None => !has_key(self.clients@, key@),
            },
    {
        let mut i: usize = 0;
        while i < self.clients.len()
            invariant
                i <= self.clients.len(),
                index_of_key(self.clients@, key@, i as int) == i,
                forall|j: int| 0 <= j < i ==> (#[trigger] self.clients@[j]).pubkey@ != key@,
            decreases self.clients.len() - i,
        {
            if bytes_equal(self.clients[i].pubkey.as_slice(), key) {
                proof {
                    lemma_index_found(self.clients@, key@, i as int, self.clients@.len() as int);
                }
                return Some(i);
            }
            i += 1;
        }
        None
    }

    /// Whether a client with public key `key` may connect: whether the
    /// server knows such a client.
    pub fn authorize(&self, key: &[u8]) -> (r: bool)
        ensures
            r == has_key(self.clients@, key@),
    {
        self.find_client(key).is_some()
    }

    /// The policy that applies to the client with public key `key`: its
    /// own where it has one, else the server's; none for a stranger.
    pub fn resolve_remote(&self, key: &[u8]) -> (r: Option<Remote>)
        ensures
            r == effective_remote(*self, key@),
    {
        match self.find_client(key) {
            None => None,
            Some(i) => match self.clients[i].remote {
                Some(remote) => Some(remote),
                None => Some(self.remote),
            },
        }
    }

    /// Adds a client, unless the server knows one with the same public
    /// key: then nothing changes and the answer is `false`.
    pub fn insert_client(&mut self, entry: ClientEntry) -> (r: bool)
        requires
            old(self).wf(),
        ensures
            final(self).wf(),
            providers_hashed(old(self).clients@) && (provides(entry.remote)
                ==> entry.filehash.is_some()) ==> providers_hashed(final(self).clients@),
            r == !has_key(old(self).clients@, entry.pubkey@),
            final(self).clients@ == if r {
                old(self).clients@.push(entry)
            } else {
                old(self).clients@
            },
            final(self).host == old(self).host,
            final(self).port == old(self).port,
            final(self).remote == old(self).remote,
            final(self).pubkey == old(self).pubkey,
            final(self).prikey == old(self).prikey,
    {
        match self.find_client(entry.pubkey.as_slice()) {
            Some(_) => false,
            None => {
                self.clients.push(entry);
                true
            },
        }
    }
}

/// Where the first entry with the key stands at `at`, the search over
/// any longer prefix finds `at`.
pub proof fn lemma_index_found(clients: Seq<ClientEntry>, key: Seq<u8>, at: int, upto: int)
    requires
        0 <= at < upto <= clients.len(),
        clients[at].pubkey@ == key,
        index_of_key(clients, key, at) == at,
    ensures
        index_of_key(clients, key, upto) == at,
    decreases upto - at,
{
    if upto > at + 1 {
        lemma_index_found(clients, key, at, upto - 1);
    }
}

/// The policy that applies to the client with public key `key`.
pub open spec fn effective_remote(config: ServerConfig, key: Seq<u8>) -> Option<Remote> {
    let i = index_of_key(config.clients@, key, config.clients@.len() as int);
    if has_key(config.clients@, key) {
        match config.clients@[i].remote {
            Some(remote) => Some(remote),
            None => Some(config.remote),
        }
    } else {
        None
    }
}

/// The clients among the first `upto` of `clients`, each public key kept
/// once, at its first entry.
pub open spec fn deduped(clients: Seq<ClientEntry>, upto: int) -> Seq<ClientEntry>
    decreases upto,
{
    if upto <= 0 {
        Seq::empty()
    } else if has_key(deduped(clients, upto - 1), clients[upto - 1].pubkey@) {
        deduped(clients, upto - 1)
    } else {
        deduped(clients, upto - 1).push(clients[upto - 1])
    }
}

/// The text `host:port` at which generated clients dial the server.
pub open spec fn dial_text(host: Seq<char>, port: u16) -> Seq<u8> {
    encode_utf8(host) + seq![COLON] + decimal_text(port as nat)
}

/// The configuration of a client generated by the server `config` with
/// policy `remote`, dialling `addr`.
pub open spec fn client_conf_of(
    config: ServerConfig,
    addr: SockAddr,
    remote: Remote,
    private: Seq<u8>,
    has_keypass: bool,
) -> ConfigModel {
    ConfigModel {
        server_addr: addr,
        target_addr: decode_utf8(crate::remote::remote_text(remote)),
        reverse: remote is RProxy,
        server_pubkey: config.pubkey@,
        client_prikey: private,
        has_keypass,
    }
}

/// The policy of a new client: its own where one is given, else the server's.
pub open spec fn policy_of(config: ServerConfig, oremote: Option<Remote>) -> Remote {
    match oremote {
        Some(r) => r,
        None => config.remote,
    }
}

/// The image of a client generated from `image`, or why none is generated.
pub open spec fn generated_image(
    config: ServerConfig,
    image: Seq<u8>,
    oremote: Option<Remote>,
    private: Seq<u8>,
    has_keypass: bool,
) -> Result<Seq<u8>, GenError> {
    match parse_text(dial_text(config.host@, config.port)) {
        None => Err(GenError::InvalidHost),
        Some(addr) => match locate_section(image) {
            Err(e) => Err(e),
            Ok(base) => match decode_config(section_bytes(image, base)) {
                Err(e) => Err(GenError::Config(e)),
                Ok(_) => stamped(
                    image,
                    base,
                    client_conf_of(config, addr, policy_of(config, oremote), private, has_keypass),
                ),
            },
        },
    }
}

/// The entry under which a generated client is recorded.
pub open spec fn entry_matches(
    entry: ClientEntry,
    config: ServerConfig,
    name: Seq<char>,
    public: Seq<u8>,
    oremote: Option<Remote>,
    out: Seq<u8>,
) -> bool {
    &&& entry.name@ == name
    &&& entry.pubkey@ == public
    &&& entry.remote == oremote
    &&& match entry.filehash {
        Some(h) => policy_of(config, oremote) is RProxy && h.hash@ == blake2s_of(out),
        None => !(policy_of(config, oremote) is RProxy),
    }
}

/// The clients `after` are the clients of `before` with the generated
/// client recorded: a public key that was known keeps its entry and nothing
/// changes; else the old entries stay, in their order, and one entry
/// follows them, that of the new client.
pub open spec fn enrolled(
    before: ServerConfig,
    after: Seq<ClientEntry>,
    name: Seq<char>,
    public: Seq<u8>,
    oremote: Option<Remote>,
    out: Seq<u8>,
) -> bool {
    if has_key(before.clients@, public) {
        after == before.clients@
    } else {
        &&& after.len() == before.clients@.len() + 1
        &&& after.drop_last() == before.clients@
        &&& entry_matches(after.last(), before, name, public, oremote, out)
    }
}

/// The server: its configuration and the reverse-proxy services online.
pub struct Server {
    pub config: ServerConfig,
    pub conns: Registry,
}

impl Server {
    /// A server with the configuration `config`, no service online. Of
    /// clients with the same public key only the first is kept.
    pub fn build(config: ServerConfig) -> (server: Server)
        ensures
            server.config.wf(),
            server.config.clients@ == deduped(config.clients@, config.clients@.len() as int),
            server.config.host == config.host,
            server.config.port == config.port,
            server.config.remote == config.remote,
            server.config.pubkey == config.pubkey,
            server.config.prikey == config.prikey,
            server.conns@ == Map::<usize, u64>::empty(),
    {
        let ghost all = config.clients@;
        let ServerConfig { host, port, remote, pubkey, prikey, clients } = config;
        let mut rest = clients;
        let mut kept = ServerConfig { host, port, remote, pubkey, prikey, clients: Vec::new() };
        let ghost mut done: int = 0;
        while rest.len() > 0
            invariant
                0 <= done <= all.len(),
                rest@ == all.skip(done),
                kept.wf(),
                kept.clients@ == deduped(all, done),
                kept.host == config.host,
                kept.port == config.port,
                kept.remote == config.remote,
                kept.pubkey == config.pubkey,
                kept.prikey == config.prikey,
            decreases rest.len(),
        {
            let entry = rest.remove(0);
            assert(entry == all[done]);
            kept.insert_client(entry);
            proof {
                assert(rest@ =~= all.skip(done + 1));
                done = done + 1;
            }
        }
        assert(done == all.len());
        Server { config: kept, conns: Registry::new() }
    }

    /// The address at which generated clients dial the server, where host
    /// and port write one.
    pub fn dial_addr(&self) -> (r: Option<SockAddr>)
        ensures
            r == parse_text(dial_text(self.config.host@, self.config.port)),
    {
        let mut dial: Vec<u8> = Vec::new();
        push_all(&mut dial, self.config.host.as_str().as_bytes());
        dial.push(COLON);
        push_decimal(&mut dial, self.config.port as u64);
        assert(dial@ =~= dial_text(self.config.host@, self.config.port));
        SockAddr::parse_bytes(dial.as_slice())
    }

    /// Generates a client with the keypair `keypair`: stamps its
    /// configuration into `image` and records it under its public key,
    /// with the digest of the stamped image where it provides a reverse
    /// proxy. Where generation fails the server stays as it is; a public
    /// key that the server knows already keeps its old entry.
#[verifier::rlimit(50)]
    pub fn enroll_client(
        &mut self,
        image: Vec<u8>,
        username: String,
        oremote: Option<Remote>,
        keypair: Keypair,
        has_keypass: bool,
    ) -> (r: Result<Vec<u8>, GenError>)
        requires
            old(self).config.wf(),
        ensures
            final(self).config.wf(),
            providers_hashed(old(self).config.clients@) ==> providers_hashed(
                final(self).config.clients@,
            ),
            final(self).conns == old(self).conns,
            image_result(r) == generated_image(
                old(self).config,
                image@,
                oremote,
                keypair.private@,
                has_keypass,
            ),
            final(self).config.host == old(self).config.host,
            final(self).config.port == old(self).config.port,
            final(self).config.remote == old(self).config.remote,
            final(self).config.pubkey == old(self).config.pubkey,
            final(self).config.prikey == old(self).config.prikey,
            match r {
                Err(_) => final(self).config.clients == old(self).config.clients,
                Ok(out) => enrolled(
                    old(self).config,
                    final(self).config.clients@,
                    username@,
                    keypair.public@,
                    oremote,
                    out@,
                ),
            },
    {
        let addr = match self.dial_addr() {
            Some(addr) => addr,
            None => { return Err(GenError::InvalidHost); },
        };
        let remote = match oremote {
            Some(r) => r,
            None => self.config.remote,
        };
        let reverse = remote.is_reverse();
        let target_addr = remote.to_string();
        proof {
            encode_utf8_decode_utf8(target_addr@);
        }
        let conf = ClientConfig {
            server_addr: addr,
            target_addr,
            reverse,
            server_pubkey: copy_bytes(self.config.pubkey.as_slice()),
            client_prikey: keypair.private,
            has_keypass,
        };
        assert(conf@ == client_conf_of(
            self.config,
            addr,
            policy_of(self.config, oremote),
            keypair.private@,
            has_keypass,
        ));
        let out = stamp_config(image, conf)?;
        let filehash = if reverse {
            Some(FileHash { hash: file_digest(out.as_slice()) })
        } else {
            None
        };
        let entry = ClientEntry { name: username, pubkey: keypair.public, remote: oremote, filehash };
        let ghost before = self.config.clients@;
        self.config.insert_client(entry);
        proof {
            if !has_key(before, keypair.public@) {
                assert(self.config.clients@.drop_last() =~= before);
            }
        }
        Ok(out)
    }

    /// Generates a client with a fresh keypair, its private key sealed
    /// where a passphrase is given. Whatever key was generated, the
    /// image is the one generated for a key protected as asked.
    pub fn gen_client(
        &mut self,
        image: Vec<u8>,
        username: String,
        oremote: Option<Remote>,
        passphrase: Option<&str>,
    ) -> (r: Result<Vec<u8>, GenError>)
        requires
            old(self).config.wf(),
        ensures
            final(self).config.wf(),
            providers_hashed(old(self).config.clients@) ==> providers_hashed(
                final(self).config.clients@,
            ),
            final(self).conns == old(self).conns,
            (r matches Err(GenError::Key(e)) && (e == KeyError::Generate || e == KeyError::Seal))
                || exists|private: Seq<u8>| #[trigger]
                is_protected_key(private, pass_bytes(passphrase)) && image_result(r)
                    == generated_image(
                    old(self).config,
                    image@,
                    oremote,
                    private,
                    passphrase.is_some(),
                ),
            final(self).config.host == old(self).config.host,
            final(self).config.port == old(self).config.port,
            final(self).config.remote == old(self).config.remote,
            final(self).config.pubkey == old(self).config.pubkey,
            final(self).config.prikey == old(self).config.prikey,
            match r {
                Err(_) => final(self).config.clients == old(self).config.clients,
                Ok(out) => exists|private: Seq<u8>, public: Seq<u8>| #[trigger]
                    is_generated_pair(private, public, pass_bytes(passphrase))
                        && generated_image(
                        old(self).config,
                        image@,
                        oremote,
                        private,
                        passphrase.is_some(),
                    ) == Ok::<Seq<u8>, GenError>(out@) && enrolled(
                        old(self).config,
                        final(self).config.clients@,
                        username@,
                        public,
                        oremote,
                        out@,
                    ),
            },
    {
        let keypair = match gen_keypair(passphrase) {
            Ok(pair) => pair,
            Err(e) => { return Err(GenError::Key(e)); },
        };
        let ghost private = keypair.private@;
        let ghost public = keypair.public@;
        let ghost start = self.config;
        let ghost name = username@;
        let r = self.enroll_client(image, username, oremote, keypair, passphrase.is_some());
        assert(is_protected_key(private, pass_bytes(passphrase)) && image_result(r)
            == generated_image(start, image@, oremote, private, passphrase.is_some()));
        proof {
            if r.is_ok() {
                assert(is_generated_pair(private, public, pass_bytes(passphrase))
                    && generated_image(start, image@, oremote, private, passphrase.is_some())
                    == Ok::<Seq<u8>, GenError>(r.unwrap()@) && enrolled(
                    start,
                    self.config.clients@,
                    name,
                    public,
                    oremote,
                    r.unwrap()@,
                ));
            }
        }
        r
    }

    /// Makes `pair` the keypair of the server: its public key and its
    /// private key, each in its place. Nothing else changes.
    pub fn install_keypair(&mut self, pair: Keypair)
        ensures
            final(self).config.pubkey == pair.public,
            final(self).config.prikey == pair.private,
            final(self).conns == old(self).conns,
            final(self).config.clients == old(self).config.clients,
            final(self).config.host == old(self).config.host,
            final(self).config.port == old(self).config.port,
            final(self).config.remote == old(self).config.remote,
    {
        self.config.pubkey = pair.public;
        self.config.prikey = pair.private;
    }

    /// Gives the server a fresh keypair, raw and unsealed: whatever pair
    /// was generated is installed, its halves each in their place, the
    /// public key being the one that belongs to the private key. Where
    /// none can be generated the server keeps its own.
    pub fn gen_key(&mut self) -> (r: Result<(), KeyError>)
        ensures
            final(self).conns == old(self).conns,
            final(self).config.clients == old(self).config.clients,
            final(self).config.host == old(self).config.host,
            final(self).config.port == old(self).config.port,
            final(self).config.remote == old(self).config.remote,
            match r {
                Ok(_) => is_pair(final(self).config.prikey@, final(self).config.pubkey@),
                Err(e) => e == KeyError::Generate && final(self).config == old(self).config,
            },
    {
        match gen_keypair(None) {
            Ok(pair) => {
                self.install_keypair(pair);
                Ok(())
            },
            Err(_) => Err(KeyError::Generate),
        }
    }
}

/// What the server answers a client that asks to provide a service.
#[derive(Clone, Copy, Debug, PartialEq, Eq, Structural)]
pub enum Admission {
    /// A provider of the service is online already.
    AlreadyOnline,
    /// The client is admitted.
    Accepted,
    /// The digest that the client sent is not the one on record.
    HashMismatch,
}

/// What the server does with an authorized connection.
#[derive(Clone, Copy, Debug, PartialEq, Eq)]
pub enum Dispatch {
    /// Dial the address and splice.
    Forward(SockAddr),
    /// Hand the stream to the built-in SOCKS5 engine.
    Socks5,
    /// Open a sub-stream to the provider of the service and splice.
    Visit(usize),
    /// Run the provider admission for the service.
    Provide(Target, usize),
}

/// The action that a policy asks for.
pub open spec fn dispatch_of(remote: Remote) -> Dispatch {
    match remote {
        Remote::Proxy(Target::Addr(a)) => Dispatch::Forward(a),
        Remote::Proxy(Target::Socks5) => Dispatch::Socks5,
        Remote::Service(id) => Dispatch::Visit(id),
        Remote::RProxy(t, id) => Dispatch::Provide(t, id),
    }
}

/// The digest `sent` is the one on record.
pub open spec fn hash_matches(expected: Option<FileHash>, sent: Seq<u8>) -> bool {
    match expected {
        Some(h) => h.hash@ == sent,
        None => false,
    }
}

/// The answer to a client that asks to provide a service: refused while
/// the service is online, else admitted exactly where its digest matches.
pub open spec fn admission_of(
    online: bool,
    expected: Option<FileHash>,
    sent: Seq<u8>,
) -> Admission {
    if online {
        Admission::AlreadyOnline
    } else if hash_matches(expected, sent) {
        Admission::Accepted
    } else {
        Admission::HashMismatch
    }
}

impl Admission {
    /// The byte that tells the client the answer.
    pub fn reply(&self) -> (b: u8)
        ensures
            b == match *self {
                Admission::AlreadyOnline => 88u8,
                Admission::Accepted => 66u8,
                Admission::HashMismatch => 0u8,
            },
    {
        match self {
            Admission::AlreadyOnline => REPLY_ALREADY_ONLINE,
            Admission::Accepted => REPLY_ACCEPTED,
            Admission::HashMismatch => REPLY_HASH_MISMATCH,
        }
    }
}

/// Whether the digest `sent` is the one on record.
pub fn check_filehash(expected: &Option<FileHash>, sent: &[u8]) -> (r: bool)
    ensures
        r == hash_matches(*expected, sent@),
{
    match expected {
        Some(h) => bytes_equal(h.hash.as_slice(), sent),
        None => false,
    }
}

/// The action that a policy asks for.
pub fn dispatch(remote: Remote) -> (d: Dispatch)
    ensures
        d == dispatch_of(remote),
{
    match remote {
        Remote::Proxy(Target::Addr(a)) => Dispatch::Forward(a),
        Remote::Proxy(Target::Socks5) => Dispatch::Socks5,
        Remote::Service(id) => Dispatch::Visit(id),
        Remote::RProxy(t, id) => Dispatch::Provide(t, id),
    }
}

impl Server {
    /// What to do with a connection whose peer presented the public key
    /// `key`: nothing for a stranger, else what the client's policy asks.
    pub fn handle_connection(&self, key: &[u8]) -> (r: Option<Dispatch>)
        ensures
            r == match effective_remote(self.config, key@) {
                Some(remote) => Some(dispatch_of(remote)),
                None => None,
            },
    {
        match self.config.resolve_remote(key) {
            Some(remote) => Some(dispatch(remote)),
            None => None,
        }
    }

    /// Answers a known client that asks to provide service `id` and sent
    /// the digest `sent` of its executable.
    pub fn try_handshake(&self, key: &[u8], id: usize, sent: &[u8]) -> (r: Admission)
        requires
            has_key(self.config.clients@, key@),
        ensures
            r == admission_of(
                self.conns@.dom().contains(id),
                self.config.clients@[index_of_key(
                    self.config.clients@,
                    key@,
                    self.config.clients@.len() as int,
                )].filehash,
                sent@,
            ),
    {
        if self.conns.is_online(id) {
            return Admission::AlreadyOnline;
        }
        match self.config.find_client(key) {
            Some(i) => {
                if check_filehash(&self.config.clients[i].filehash, sent) {
                    Admission::Accepted
                } else {
                    Admission::HashMismatch
                }
            },
            None => Admission::HashMismatch,
        }
    }

    /// Puts an admitted provider of service `id` online, unless one is
    /// online: then nothing changes and the answer is `false`.
    pub fn start_new_rproxy_conn(&mut self, id: usize, handle: u64) -> (r: bool)
        ensures
            final(self).config == old(self).config,
            r == !old(self).conns@.dom().contains(id),
            final(self).conns@ == crate::registry::registered(old(self).conns@, id, handle),
    {
        self.conns.register(id, handle)
    }

    /// Takes service `id` offline when the connection of its provider
    /// `handle` ended. Where another provider holds the service, or none,
    /// nothing changes and the answer is `false`.
    pub fn end_rproxy_conn(&mut self, id: usize, handle: u64) -> (r: bool)
        ensures
            final(self).config == old(self).config,
            r == (old(self).conns@.dom().contains(id) && old(self).conns@[id] == handle),
            final(self).conns@ == crate::registry::released(old(self).conns@, id, handle),
    {
        self.conns.release(id, handle)
    }

    /// The handle of the provider that a visitor of service `id` is
    /// spliced to; none while the service is offline.
    pub fn start_proxy_to_rproxy_conn(&self, id: usize) -> (r: Option<u64>)
        ensures
            r == if self.conns@.dom().contains(id) {
                Some(self.conns@[id])
            } else {
                None
            },
    {
        self.conns.lookup(id)
    }
}

/// Generation is repeatable: with the same keypair, two servers that
/// agree on host, port, public key and policy generate, from the same
/// image, the same bytes, whatever clients they know and whatever the new
/// client is called.
pub proof fn lemma_generation_repeatable(
    one: ServerConfig,
    two: ServerConfig,
    image: Seq<u8>,
    oremote: Option<Remote>,
    private: Seq<u8>,
    has_keypass: bool,
)
    requires
        one.host@ == two.host@,
        one.port == two.port,
        one.pubkey@ == two.pubkey@,
        policy_of(one, oremote) == policy_of(two, oremote),
    ensures
        generated_image(one, image, oremote, private, has_keypass) == generated_image(
            two,
            image,
            oremote,
            private,
            has_keypass,
        ),
{
}

/// No two clients of a well-formed server have the same public key.
pub proof fn lemma_keys_differ(config: ServerConfig, i: int, j: int)
    requires
        config.wf(),
        0 <= i < config.clients@.len(),
        0 <= j < config.clients@.len(),
        i != j,
    ensures
        config.clients@[i].pubkey@ != config.clients@[j].pubkey@,
{
    if i < j {
        assert(config.clients@[i].pubkey@ != config.clients@[j].pubkey@);
    } else {
        assert(config.clients@[j].pubkey@ != config.clients@[i].pubkey@);
    }
}

/// Where no two clients have the same public key, keeping each key once
/// keeps every client.
pub proof fn lemma_dedup_of_distinct(clients: Seq<ClientEntry>, upto: int)
    requires
        distinct_keys(clients),
        0 <= upto <= clients.len(),
    ensures
        deduped(clients, upto) == clients.take(upto),
    decreases upto,
{
    if upto > 0 {
        lemma_dedup_of_distinct(clients, upto - 1);
        let before = clients.take(upto - 1);
        let key = clients[upto - 1].pubkey@;
        assert(!has_key(before, key)) by {
            if has_key(before, key) {
                let i = choose|i: int| 0 <= i < before.len() && (#[trigger] before[i]).pubkey@ == key;
                assert(before[i] == clients[i]);
                assert(clients[i].pubkey@ != clients[upto - 1].pubkey@);
            }
        }
        assert(clients.take(upto) =~= before.push(clients[upto - 1]));
    } else {
        assert(clients.take(0) =~= Seq::<ClientEntry>::empty());
    }
}

} // verus!
