//! The server configuration as it is written down: keys and digests in
//! base64, and a policy as a text, a number, or a pair of both.

use crate::addr::{lemma_text_roundtrip, lemma_text_starts_unlike_token, parse_text, SockAddr};
use crate::keys::{base64_bytes, decode_key, encode_key};
use crate::remote::{is_socks5_token, socks5_token, target_text, Remote, Target};
use crate::server::{
    deduped, lemma_dedup_of_distinct, ClientEntry, FileHash, ServerConfig,
};
use vstd::prelude::*;
use vstd::string::StringSliceAdditionalSpecFns;
use vstd::utf8::encode_utf8;

verus! {

/// A policy as it is written: a target alone is a forward proxy, a number
/// alone a visitor, both together a provider.
#[derive(Clone, Debug, PartialEq, Eq)]
pub enum RemoteRecord {
    Text(String),
    Id(usize),
    Pair(String, usize),
}

/// A client as it is written.
#[derive(Clone, Debug, PartialEq, Eq)]
pub struct ClientRecord {
    pub name: String,
    pub pubkey: String,
    pub hash: Option<String>,
    pub remote: Option<RemoteRecord>,
}

/// A server configuration as it is written.
#[derive(Clone, Debug, PartialEq, Eq)]
pub struct ServerRecord {
    pub host: String,
    pub port: u16,
    pub remote: RemoteRecord,
    pub pubkey: String,
    pub prikey: String,
    pub clients: Vec<ClientRecord>,
}

/// Why a written configuration cannot be read.
#[derive(Clone, Copy, Debug, PartialEq, Eq, Structural)]
pub enum RecordError {
    /// A key or digest is no base64 text.
    InvalidKey,
    /// A target is neither `socks5` nor a socket address.
    InvalidTarget,
}

/// The target that a written text names: `socks5`, in just this spelling,
/// or a socket address.
pub open spec fn written_target(text: Seq<u8>) -> Option<Target> {
    if text == socks5_token() {
        Some(Target::Socks5)
    } else {
        match parse_text(text) {
            Some(a) => Some(Target::Addr(a)),
            None => None,
        }
    }
}

/// The policy that a written record names.
pub open spec fn written_remote(r: RemoteRecord) -> Option<Remote> {
    match r {
        RemoteRecord::Text(t) => match written_target(encode_utf8(t@)) {
            Some(target) => Some(Remote::Proxy(target)),
            None => None,
        },
        RemoteRecord::Id(id) => Some(Remote::Service(id)),
        RemoteRecord::Pair(t, id) => match written_target(encode_utf8(t@)) {
            Some(target) => Some(Remote::RProxy(target, id)),
            None => None,
        },
    }
}

/// The record `r` writes the policy `remote`.
pub open spec fn writes_remote(r: RemoteRecord, remote: Remote) -> bool {
    match remote {
        Remote::Proxy(t) => r matches RemoteRecord::Text(text) && encode_utf8(text@)
            == target_text(t),
        Remote::Service(id) => r == RemoteRecord::Id(id),
        Remote::RProxy(t, id) => r matches RemoteRecord::Pair(text, n) && n == id && encode_utf8(
            text@,
        ) == target_text(t),
    }
}

/// Reads a written target.
pub fn read_target(text: &str) -> (r: Option<Target>)
    ensures
        r == written_target(text.spec_bytes()),
{
    if is_socks5_token(text) {
        Some(Target::Socks5)
    } else {
        match SockAddr::parse(text) {
            Some(a) => Some(Target::Addr(a)),
            None => None,
        }
    }
}

/// Reads a written policy.
pub fn read_remote(r: &RemoteRecord) -> (remote: Option<Remote>)
    ensures
        remote == written_remote(*r),
{
    match r {
        RemoteRecord::Text(t) => match read_target(t.as_str()) {
            Some(target) => Some(Remote::Proxy(target)),
            None => None,
        },
        RemoteRecord::Id(id) => Some(Remote::Service(*id)),
        RemoteRecord::Pair(t, id) => match read_target(t.as_str()) {
            Some(target) => Some(Remote::RProxy(target, *id)),
            None => None,
        },
    }
}

/// Writes a policy.
pub fn write_remote(remote: &Remote) -> (r: RemoteRecord)
    ensures
        writes_remote(r, *remote),
{
    match remote {
        Remote::Proxy(t) => RemoteRecord::Text(t.to_string()),
        Remote::Service(id) => RemoteRecord::Id(*id),
        Remote::RProxy(t, id) => RemoteRecord::Pair(t.to_string(), *id),
    }
}

/// The text of a target reads back as the target.
#[verifier::rlimit(50)]
pub proof fn lemma_target_reads_back(t: Target)
    ensures
        written_target(target_text(t)) == Some(t),
{
    match t {
        Target::Socks5 => {
            assert(target_text(t) == socks5_token());
        },
        Target::Addr(a) => {
            let text = a.text();
            assert(target_text(t) == text);
            assert(text != socks5_token()) by {
                lemma_text_starts_unlike_token(a);
                assert(socks5_token()[0] == 115);
            }
            assert(parse_text(text) == Some(a)) by {
                lemma_text_roundtrip(a);
            }
        },
    }
}

/// A written policy reads back as the policy that was written: the kind
/// of the policy, its service id and its target are preserved.
pub proof fn lemma_remote_reads_back(remote: Remote, r: RemoteRecord)
    requires
        writes_remote(r, remote),
    ensures
        written_remote(r) == Some(remote),
{
    match remote {
        Remote::Proxy(t) => {
            lemma_target_reads_back(t);
        },
        Remote::Service(_) => {},
        Remote::RProxy(t, _) => {
            lemma_target_reads_back(t);
        },
    }
}

/// Writes a client: its keys and digest in base64.
pub fn write_client(entry: &ClientEntry) -> (r: ClientRecord)
    ensures
        writes_client(r, *entry),
{
    let hash = match &entry.filehash {
        Some(h) => Some(encode_key(h.hash.as_slice())),
        None => None,
    };
    let remote = match &entry.remote {
        Some(remote) => Some(write_remote(remote)),
        None => None,
    };
    ClientRecord {
        name: entry.name.clone(),
        pubkey: encode_key(entry.pubkey.as_slice()),
        hash,
        remote,
    }
}

/// The entry `e` is what the record `r` writes.
pub open spec fn is_written_client(r: ClientRecord, e: ClientEntry) -> bool {
    &&& e.name@ == r.name@
    &&& base64_bytes(encode_utf8(r.pubkey@)) == Some(e.pubkey@)
    &&& match r.hash {
        Some(text) => e.filehash matches Some(h) && base64_bytes(encode_utf8(text@)) == Some(
            h.hash@,
        ),
        None => e.filehash.is_none(),
    }
    &&& match r.remote {
        Some(w) => e.remote.is_some() && written_remote(w) == e.remote,
        None => e.remote.is_none(),
    }
}

/// Why the record `r` cannot be read, if it cannot: the first of its
/// public key, its digest and its policy that is ill-formed.
pub open spec fn client_fault(r: ClientRecord) -> Option<RecordError> {
    if base64_bytes(encode_utf8(r.pubkey@)).is_none() {
        Some(RecordError::InvalidKey)
    } else if r.hash.is_some() && base64_bytes(encode_utf8(r.hash.unwrap()@)).is_none() {
        Some(RecordError::InvalidKey)
    } else if r.remote.is_some() && written_remote(r.remote.unwrap()).is_none() {
        Some(RecordError::InvalidTarget)
    } else {
        None
    }
}

/// The record `r` can be read: its keys are base64 and its policy names a target.
pub open spec fn is_readable_client(r: ClientRecord) -> bool {
    client_fault(r).is_none()
}

/// Reads a written client. It fails exactly on the records that cannot
/// be read, with the fault of the record.
pub fn read_client(r: &ClientRecord) -> (e: Result<ClientEntry, RecordError>)
    ensures
        match e {
            Ok(entry) => client_fault(*r).is_none() && is_written_client(*r, entry),
            Err(fault) => client_fault(*r) == Some(fault),
        },
{
    let pubkey = match decode_key(r.pubkey.as_str()) {
        Some(k) => k,
        None => { return Err(RecordError::InvalidKey); },
    };
    let filehash = match &r.hash {
        Some(text) => match decode_key(text.as_str()) {
            Some(hash) => Some(FileHash { hash }),
            None => { return Err(RecordError::InvalidKey); },
        },
        None => None,
    };
    let remote = match &r.remote {
        Some(w) => match read_remote(w) {
            Some(remote) => Some(remote),
            None => { return Err(RecordError::InvalidTarget); },
        },
        None => None,
    };
    Ok(ClientEntry { name: r.name.clone(), pubkey, filehash, remote })
}

/// The record `r` writes the client `e`.
pub open spec fn writes_client(r: ClientRecord, e: ClientEntry) -> bool {
    &&& r.name@ == e.name@
    &&& base64_bytes(encode_utf8(r.pubkey@)) == Some(e.pubkey@)
    &&& match e.filehash {
        Some(h) => r.hash matches Some(text) && base64_bytes(encode_utf8(text@)) == Some(
            h.hash@,
        ),
        None => r.hash.is_none(),
    }
    &&& match e.remote {
        Some(remote) => r.remote matches Some(w) && writes_remote(w, remote),
        None => r.remote.is_none(),
    }
}

/// The record `r` writes the configuration `c`.
pub open spec fn writes_server(r: ServerRecord, c: ServerConfig) -> bool {
    &&& r.host@ == c.host@
    &&& r.port == c.port
    &&& writes_remote(r.remote, c.remote)
    &&& base64_bytes(encode_utf8(r.pubkey@)) == Some(c.pubkey@)
    &&& base64_bytes(encode_utf8(r.prikey@)) == Some(c.prikey@)
    &&& r.clients@.len() == c.clients@.len()
    &&& forall|i: int|
        0 <= i < r.clients@.len() ==> writes_client(#[trigger] r.clients@[i], c.clients@[i])
}

/// The configuration `c` is what the record `r` writes.
pub open spec fn is_written_server(r: ServerRecord, c: ServerConfig) -> bool {
    &&& c.host@ == r.host@
    &&& c.port == r.port
    &&& written_remote(r.remote) == Some(c.remote)
    &&& base64_bytes(encode_utf8(r.pubkey@)) == Some(c.pubkey@)
    &&& base64_bytes(encode_utf8(r.prikey@)) == Some(c.prikey@)
    &&& c.clients@.len() == r.clients@.len()
    &&& forall|i: int|
        0 <= i < r.clients@.len() ==> is_written_client(#[trigger] r.clients@[i], c.clients@[i])
}

/// The fault of the first client at or behind `from` that cannot be read.
pub open spec fn first_fault(clients: Seq<ClientRecord>, from: int) -> Option<RecordError>
    decreases clients.len() - from,
{
    if from < 0 || from >= clients.len() {
        None
    } else if client_fault(clients[from]).is_some() {
        client_fault(clients[from])
    } else {
        first_fault(clients, from + 1)
    }
}

/// Why the record `r` cannot be read, if it cannot: the first of its
/// policy, its two keys and its clients that is ill-formed.
pub open spec fn server_fault(r: ServerRecord) -> Option<RecordError> {
    if written_remote(r.remote).is_none() {
        Some(RecordError::InvalidTarget)
    } else if base64_bytes(encode_utf8(r.pubkey@)).is_none() {
        Some(RecordError::InvalidKey)
    } else if base64_bytes(encode_utf8(r.prikey@)).is_none() {
        Some(RecordError::InvalidKey)
    } else {
        first_fault(r.clients@, 0)
    }
}

/// Where no client at or behind `from` has a fault, all of them can be read.
pub proof fn lemma_no_fault(clients: Seq<ClientRecord>, from: int)
    requires
        0 <= from,
    ensures
        first_fault(clients, from).is_none() <==> forall|i: int|
            from <= i < clients.len() ==> is_readable_client(#[trigger] clients[i]),
    decreases clients.len() - from,
{
    if from < clients.len() {
        lemma_no_fault(clients, from + 1);
        if first_fault(clients, from).is_none() {
            assert forall|i: int| from <= i < clients.len() implies is_readable_client(
                #[trigger] clients[i],
            ) by {
                if i > from {
                }
            }
        } else if client_fault(clients[from]).is_none() {
            assert(exists|i: int|
                from + 1 <= i < clients.len() && !is_readable_client(#[trigger] clients[i]));
        } else {
            assert(!is_readable_client(clients[from]));
        }
    }
}

/// The record can be read: every key is base64 and every policy names a target.
pub open spec fn is_readable_server(r: ServerRecord) -> bool {
    server_fault(r).is_none()
}

/// Writes a server configuration.
pub fn write_server(c: &ServerConfig) -> (r: ServerRecord)
    ensures
        writes_server(r, *c),
{
    let mut clients: Vec<ClientRecord> = Vec::new();
    let mut i: usize = 0;
    while i < c.clients.len()
        invariant
            i <= c.clients.len(),
            clients@.len() == i,
            forall|j: int| 0 <= j < i ==> writes_client(#[trigger] clients@[j], c.clients@[j]),
        decreases c.clients.len() - i,
    {
        clients.push(write_client(&c.clients[i]));
        i += 1;
    }
    ServerRecord {
        host: c.host.clone(),
        port: c.port,
        remote: write_remote(&c.remote),
        pubkey: encode_key(c.pubkey.as_slice()),
        prikey: encode_key(c.prikey.as_slice()),
        clients,
    }
}

/// Reads written clients, in the order in which they are written. It
/// fails at the first client that cannot be read, with its fault.
#[verifier::rlimit(50)]
pub fn read_clients(records: &Vec<ClientRecord>) -> (r: Result<Vec<ClientEntry>, RecordError>)
    ensures
        match r {
            Ok(clients) => first_fault(records@, 0).is_none() && clients@.len() == records@.len()
                && forall|j: int|
                0 <= j < records@.len() ==> is_written_client(
                    #[trigger] records@[j],
                    clients@[j],
                ),
            Err(fault) => first_fault(records@, 0) == Some(fault),
        },
{
    let mut clients: Vec<ClientEntry> = Vec::new();
    let mut i: usize = 0;
    while i < records.len()
        invariant
            i <= records.len(),
            clients@.len() == i,
            forall|j: int| 0 <= j < i ==> is_written_client(#[trigger] records@[j], clients@[j]),
            first_fault(records@, 0) == first_fault(records@, i as int),
        decreases records.len() - i,
    {
        let ghost before = clients@;
        match read_client(&records[i]) {
            Ok(entry) => {
                clients.push(entry);
                assert(first_fault(records@, i as int) == first_fault(records@, i + 1));
                assert forall|j: int| 0 <= j < i + 1 implies is_written_client(
                    #[trigger] records@[j],
                    clients@[j],
                ) by {
                    if j < i {
                        assert(clients@[j] == before[j]);
                    }
                }
            },
            Err(e) => {
                assert(first_fault(records@, i as int) == Some(e));
                return Err(e);
            },
        }
        i += 1;
    }
    Ok(clients)
}

/// Reads a written server configuration, its clients in the order in
/// which they are written. It fails exactly on the records that cannot be
/// read, with the fault of the record.
#[verifier::rlimit(50)]
pub fn read_server(r: &ServerRecord) -> (c: Result<ServerConfig, RecordError>)
    ensures
        match c {
            Ok(config) => server_fault(*r).is_none() && is_written_server(*r, config),
            Err(fault) => server_fault(*r) == Some(fault),
        },
{
    let remote = match read_remote(&r.remote) {
        Some(remote) => remote,
        None => { return Err(RecordError::InvalidTarget); },
    };
    let pubkey = match decode_key(r.pubkey.as_str()) {
        Some(k) => k,
        None => { return Err(RecordError::InvalidKey); },
    };
    let prikey = match decode_key(r.prikey.as_str()) {
        Some(k) => k,
        None => { return Err(RecordError::InvalidKey); },
    };
    let clients = read_clients(&r.clients)?;
    Ok(ServerConfig { host: r.host.clone(), port: r.port, remote, pubkey, prikey, clients })
}

/// Two configurations cannot be told apart: they agree on host, port,
/// policy and keys, and client by client on name, key, digest and policy.
pub open spec fn same_server(a: ServerConfig, b: ServerConfig) -> bool {
    &&& a.host@ == b.host@
    &&& a.port == b.port
    &&& a.remote == b.remote
    &&& a.pubkey@ == b.pubkey@
    &&& a.prikey@ == b.prikey@
    &&& a.clients@.len() == b.clients@.len()
    &&& forall|i: int|
        0 <= i < a.clients@.len() ==> same_client(#[trigger] a.clients@[i], b.clients@[i])
}

/// Two clients cannot be told apart.
pub open spec fn same_client(a: ClientEntry, b: ClientEntry) -> bool {
    &&& a.name@ == b.name@
    &&& a.pubkey@ == b.pubkey@
    &&& a.remote == b.remote
    &&& match a.filehash {
        Some(h) => b.filehash matches Some(g) && g.hash@ == h.hash@,
        None => b.filehash.is_none(),
    }
}

/// A written configuration can be read, and reads back as a configuration
/// that cannot be told apart from the one that was written: the same
/// clients under the same keys, each policy of the same kind.
#[verifier::rlimit(50)]
pub proof fn lemma_server_reads_back(c: ServerConfig, r: ServerRecord, back: ServerConfig)
    requires
        writes_server(r, c),
        is_written_server(r, back),
    ensures
        is_readable_server(r),
        same_server(c, back),
{
    lemma_remote_reads_back(c.remote, r.remote);
    assert forall|i: int| 0 <= i < c.clients@.len() implies same_client(
        #[trigger] c.clients@[i],
        back.clients@[i],
    ) && is_readable_client(r.clients@[i]) by {
        let e = c.clients@[i];
        let w = r.clients@[i];
        assert(writes_client(w, e));
        assert(is_written_client(w, back.clients@[i]));
        if e.remote.is_some() {
            lemma_remote_reads_back(e.remote.unwrap(), w.remote.unwrap());
        }
    }
    assert forall|i: int| 0 <= i < r.clients@.len() implies is_readable_client(
        #[trigger] r.clients@[i],
    ) by {
        assert(same_client(c.clients@[i], back.clients@[i]) && is_readable_client(r.clients@[i]));
    }
    lemma_no_fault(r.clients@, 0);
}

/// A well-formed configuration that is written, read back and built into
/// a server comes back whole: the server keeps every client that was
/// read, and what was read cannot be told apart from what was written.
pub proof fn lemma_build_after_read_back(c: ServerConfig, r: ServerRecord, back: ServerConfig)
    requires
        c.wf(),
        writes_server(r, c),
        is_written_server(r, back),
    ensures
        same_server(c, back),
        back.wf(),
        deduped(back.clients@, back.clients@.len() as int) == back.clients@,
{
    lemma_server_reads_back(c, r, back);
    assert forall|i: int, j: int| 0 <= i < j < back.clients@.len() implies (
    #[trigger] back.clients@[i]).pubkey@ != (#[trigger] back.clients@[j]).pubkey@ by {
        assert(same_client(c.clients@[i], back.clients@[i]));
        assert(same_client(c.clients@[j], back.clients@[j]));
        assert(c.clients@[i].pubkey@ != c.clients@[j].pubkey@);
    }
    lemma_dedup_of_distinct(back.clients@, back.clients@.len() as int);
    assert(back.clients@.take(back.clients@.len() as int) =~= back.clients@);
}

} // verus!
