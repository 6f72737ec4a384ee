use portguard::addr::SockAddr;
use portguard::client::{Client, ClientConfig, ClientError, ClientPlan, ProviderReply};
use portguard::codec::CodecError;
use portguard::gen::{read_client_conf, GenError};
use portguard::keys::{
    derive_public_key, encode_key, file_digest, seal_private_key, KeyError, Keypair,
};
use portguard::remote::{Remote, Target};
use portguard::server::{
    check_filehash, default_host, default_port, default_remote, dispatch, Admission, ClientEntry,
    Dispatch, FileHash, Server, ServerConfig,
};

const SECTION: usize = 64;

fn put(image: &mut Vec<u8>, at: usize, bytes: &[u8]) {
    image[at..at + bytes.len()].copy_from_slice(bytes);
}

// A 64-bit little-endian ELF image whose only content is the reserved section.
fn client_image() -> Vec<u8> {
    let names = b"\0.portguard\0.shstrtab\0";
    let names_at = SECTION + 1024;
    let headers_at = (names_at + names.len() + 7) / 8 * 8;
    let mut image = vec![0u8; headers_at + 3 * 64];
    put(&mut image, 0, &[0x7f, b'E', b'L', b'F', 2, 1, 1, 0]);
    put(&mut image, 16, &2u16.to_le_bytes());
    put(&mut image, 18, &0x3eu16.to_le_bytes());
    put(&mut image, 20, &1u32.to_le_bytes());
    put(&mut image, 40, &(headers_at as u64).to_le_bytes());
    put(&mut image, 52, &64u16.to_le_bytes());
    put(&mut image, 58, &64u16.to_le_bytes());
    put(&mut image, 60, &3u16.to_le_bytes());
    put(&mut image, 62, &2u16.to_le_bytes());
    put(&mut image, names_at, names);
    let first = headers_at + 64;
    put(&mut image, first, &1u32.to_le_bytes());
    put(&mut image, first + 4, &1u32.to_le_bytes());
    put(&mut image, first + 24, &(SECTION as u64).to_le_bytes());
    put(&mut image, first + 32, &1024u64.to_le_bytes());
    let second = headers_at + 128;
    put(&mut image, second, &12u32.to_le_bytes());
    put(&mut image, second + 4, &3u32.to_le_bytes());
    put(&mut image, second + 24, &(names_at as u64).to_le_bytes());
    put(&mut image, second + 32, &(names.len() as u64).to_le_bytes());
    image
}

fn addr(port: u16) -> SockAddr {
    SockAddr::V4 { ip: [127, 0, 0, 1], port }
}

fn client(name: &str, key: u8, remote: Option<Remote>, hash: Option<Vec<u8>>) -> ClientEntry {
    ClientEntry {
        name: name.to_string(),
        pubkey: vec![key; 32],
        filehash: hash.map(|hash| FileHash { hash }),
        remote,
    }
}

fn config(remote: Remote, clients: Vec<ClientEntry>) -> ServerConfig {
    ServerConfig {
        host: "192.168.1.1".to_string(),
        port: 8022,
        remote,
        pubkey: vec![0xaa; 32],
        prikey: vec![0xbb; 32],
        clients,
    }
}

fn keypair(seed: u8) -> Keypair {
    let private = vec![seed; 32];
    let public = derive_public_key(&private).unwrap().to_vec();
    Keypair { private, public }
}

#[test]
fn defaults() {
    assert_eq!(default_port(), 8022);
    assert_eq!(default_host(), "192.168.1.1");
    assert_eq!(default_remote(), Remote::Proxy(Target::Socks5));
}

#[test]
fn clients_are_told_apart_by_their_public_key() {
    let server = Server::build(config(
        default_remote(),
        vec![
            client("first", 1, None, None),
            client("second", 2, Some(Remote::Service(3)), None),
            client("again", 1, Some(Remote::Service(9)), None),
        ],
    ));
    assert_eq!(server.config.clients.len(), 2);
    assert_eq!(server.config.clients[0].name, "first");
    assert_eq!(server.config.clients[1].name, "second");
    for (i, a) in server.config.clients.iter().enumerate() {
        for b in &server.config.clients[i + 1..] {
            assert_ne!(a.pubkey, b.pubkey);
        }
    }
    assert_eq!(server.config.resolve_remote(&[1u8; 32]), Some(default_remote()));
}

#[test]
fn inserting_a_known_key_changes_nothing() {
    let mut c = config(default_remote(), vec![client("first", 1, None, None)]);
    assert!(!c.insert_client(client("usurper", 1, Some(Remote::Service(1)), None)));
    assert_eq!(c.clients.len(), 1);
    assert_eq!(c.clients[0].name, "first");
    assert!(c.insert_client(client("second", 2, None, None)));
    assert_eq!(c.clients.len(), 2);
    assert_eq!(c.find_client(&[2u8; 32]), Some(1));
    assert_eq!(c.find_client(&[3u8; 32]), None);
}

#[test]
fn only_known_keys_are_authorized() {
    let server = Server::build(config(default_remote(), vec![client("a", 1, None, None)]));
    assert!(server.config.authorize(&[1u8; 32]));
    assert!(!server.config.authorize(&[2u8; 32]));
    assert!(!server.config.authorize(&[1u8; 31]));
    assert!(!server.config.authorize(&[]));
}

#[test]
fn policy_of_a_client_overrides_the_default() {
    let server = Server::build(config(
        Remote::Proxy(Target::Addr(addr(9000))),
        vec![client("plain", 1, None, None), client("visitor", 2, Some(Remote::Service(7)), None)],
    ));
    assert_eq!(server.config.resolve_remote(&[1u8; 32]), Some(Remote::Proxy(Target::Addr(addr(9000)))));
    assert_eq!(server.config.resolve_remote(&[2u8; 32]), Some(Remote::Service(7)));
    assert_eq!(server.config.resolve_remote(&[3u8; 32]), None);
}

#[test]
fn dispatch_by_policy() {
    assert_eq!(dispatch(Remote::Proxy(Target::Addr(addr(1)))), Dispatch::Forward(addr(1)));
    assert_eq!(dispatch(Remote::Proxy(Target::Socks5)), Dispatch::Socks5);
    assert_eq!(dispatch(Remote::Service(4)), Dispatch::Visit(4));
    assert_eq!(dispatch(Remote::RProxy(Target::Socks5, 4)), Dispatch::Provide(Target::Socks5, 4));
}

#[test]
fn reply_bytes() {
    assert_eq!(Admission::Accepted.reply(), 0x42);
    assert_eq!(Admission::AlreadyOnline.reply(), 0x58);
    assert_eq!(Admission::HashMismatch.reply(), 0x00);
    assert_eq!(Client::provider_reply(66), ProviderReply::Proceed);
    assert_eq!(Client::provider_reply(88), ProviderReply::AlreadyOnline);
    assert_eq!(Client::provider_reply(0), ProviderReply::Denied);
    assert_eq!(Client::provider_reply(1), ProviderReply::Denied);
    assert_eq!(Client::provider_reply(255), ProviderReply::Denied);
}

#[test]
fn digest_must_be_the_one_on_record() {
    let hash = Some(FileHash { hash: vec![7u8; 32] });
    assert!(check_filehash(&hash, &[7u8; 32]));
    assert!(!check_filehash(&hash, &[8u8; 32]));
    assert!(!check_filehash(&hash, &[7u8; 31]));
    assert!(!check_filehash(&None, &[7u8; 32]));
    assert!(!check_filehash(&None, &[]));
}

#[test]
fn forward_to_address() {
    let server = Server::build(config(
        Remote::Proxy(Target::Addr(addr(9000))),
        vec![client("user", 1, None, None)],
    ));
    assert_eq!(server.handle_connection(&[1u8; 32]), Some(Dispatch::Forward(addr(9000))));
}

#[test]
fn forward_to_socks5() {
    let server =
        Server::build(config(Remote::Proxy(Target::Socks5), vec![client("user", 1, None, None)]));
    assert_eq!(server.handle_connection(&[1u8; 32]), Some(Dispatch::Socks5));
}

#[test]
fn unauthorized_client() {
    let server =
        Server::build(config(Remote::Proxy(Target::Socks5), vec![client("user", 1, None, None)]));
    assert!(!server.config.authorize(&[9u8; 32]));
    assert_eq!(server.handle_connection(&[9u8; 32]), None);
    assert!(!server.conns.is_online(7));
}

fn reverse_server() -> Server {
    let provide = Remote::RProxy(Target::Addr(addr(9000)), 7);
    Server::build(config(
        Remote::Proxy(Target::Socks5),
        vec![
            client("provider", 1, Some(provide), Some(vec![0x11; 32])),
            client("visitor", 2, Some(Remote::Service(7)), None),
        ],
    ))
}

#[test]
fn reverse_happy_path() {
    let mut server = reverse_server();
    assert_eq!(
        server.handle_connection(&[1u8; 32]),
        Some(Dispatch::Provide(Target::Addr(addr(9000)), 7))
    );
    let answer = server.try_handshake(&[1u8; 32], 7, &[0x11; 32]);
    assert_eq!(answer, Admission::Accepted);
    assert_eq!(answer.reply(), 0x42);
    assert!(server.start_new_rproxy_conn(7, 1000));
    assert!(server.conns.is_online(7));
    assert_eq!(server.handle_connection(&[2u8; 32]), Some(Dispatch::Visit(7)));
    assert_eq!(server.start_proxy_to_rproxy_conn(7), Some(1000));
    assert!(!server.end_rproxy_conn(7, 999));
    assert_eq!(server.start_proxy_to_rproxy_conn(7), Some(1000));
    assert!(server.end_rproxy_conn(7, 1000));
    assert_eq!(server.start_proxy_to_rproxy_conn(7), None);
    assert!(!server.end_rproxy_conn(7, 1000));
}

#[test]
fn visitor_of_an_offline_service() {
    let server = reverse_server();
    assert_eq!(server.start_proxy_to_rproxy_conn(7), None);
    assert_eq!(server.start_proxy_to_rproxy_conn(8), None);
}

#[test]
fn reverse_duplicate_rejection() {
    let mut server = reverse_server();
    assert_eq!(server.try_handshake(&[1u8; 32], 7, &[0x11; 32]), Admission::Accepted);
    assert!(server.start_new_rproxy_conn(7, 1000));
    let second = server.try_handshake(&[1u8; 32], 7, &[0x11; 32]);
    assert_eq!(second, Admission::AlreadyOnline);
    assert_eq!(second.reply(), 0x58);
    assert_eq!(Client::provider_reply(second.reply()), ProviderReply::AlreadyOnline);
    assert!(!server.start_new_rproxy_conn(7, 2000));
    assert_eq!(server.start_proxy_to_rproxy_conn(7), Some(1000));
    // the refused provider goes away: the live one stays
    assert!(!server.end_rproxy_conn(7, 2000));
    assert_eq!(server.start_proxy_to_rproxy_conn(7), Some(1000));
}

#[test]
fn reverse_integrity_failure() {
    let mut server = reverse_server();
    assert_eq!(server.try_handshake(&[1u8; 32], 7, &[0x11; 32]), Admission::Accepted);
    assert!(server.start_new_rproxy_conn(7, 1000));
    assert!(server.end_rproxy_conn(7, 1000));
    let answer = server.try_handshake(&[1u8; 32], 7, &[0x22; 32]);
    assert_eq!(answer, Admission::HashMismatch);
    assert_eq!(answer.reply(), 0x00);
    assert_eq!(Client::provider_reply(answer.reply()), ProviderReply::Denied);
    assert!(!server.conns.is_online(7));
    assert_eq!(server.start_proxy_to_rproxy_conn(7), None);
}

#[test]
fn provider_without_recorded_digest_is_denied() {
    let server = Server::build(config(
        Remote::RProxy(Target::Socks5, 3),
        vec![client("provider", 1, None, None)],
    ));
    assert_eq!(server.try_handshake(&[1u8; 32], 3, &[0u8; 32]), Admission::HashMismatch);
}

#[test]
fn generated_client_dials_the_server_with_the_default_policy() {
    let mut server = Server::build(config(Remote::Proxy(Target::Addr(addr(9000))), vec![]));
    let pair = keypair(5);
    let out = server
        .enroll_client(client_image(), "user".to_string(), None, pair.clone(), false)
        .unwrap();
    assert_eq!(
        read_client_conf(&out),
        Ok(ClientConfig {
            server_addr: SockAddr::V4 { ip: [192, 168, 1, 1], port: 8022 },
            target_addr: "127.0.0.1:9000".to_string(),
            reverse: false,
            server_pubkey: vec![0xaa; 32],
            client_prikey: pair.private.clone(),
            has_keypass: false,
        })
    );
    assert_eq!(server.config.clients.len(), 1);
    let entry = &server.config.clients[0];
    assert_eq!(entry.name, "user");
    assert_eq!(entry.pubkey, pair.public);
    assert_eq!(entry.remote, None);
    assert_eq!(entry.filehash, None);
    assert!(server.config.authorize(&pair.public));
}

#[test]
fn generated_provider_is_recorded_with_the_digest_of_its_image() {
    let mut server = Server::build(config(default_remote(), vec![]));
    let pair = keypair(6);
    let provide = Remote::RProxy(Target::Addr(addr(9000)), 7);
    let out = server
        .enroll_client(client_image(), "p".to_string(), Some(provide), pair.clone(), false)
        .unwrap();
    let conf = read_client_conf(&out).unwrap();
    assert!(conf.reverse);
    assert_eq!(conf.target_addr, "127.0.0.1:9000");
    let entry = &server.config.clients[0];
    assert_eq!(entry.remote, Some(provide));
    assert_eq!(entry.filehash, Some(FileHash { hash: file_digest(&out) }));
    assert_eq!(server.try_handshake(&pair.public, 7, &file_digest(&out)), Admission::Accepted);
    let mut tampered = out.clone();
    tampered[0] ^= 1;
    assert_eq!(
        server.try_handshake(&pair.public, 7, &file_digest(&tampered)),
        Admission::HashMismatch
    );
}

#[test]
fn generated_visitor_and_socks5_targets() {
    let mut server = Server::build(config(default_remote(), vec![]));
    let out = server
        .enroll_client(client_image(), "v".to_string(), Some(Remote::Service(66)), keypair(1), false)
        .unwrap();
    let conf = read_client_conf(&out).unwrap();
    assert_eq!(conf.target_addr, "service (id: 66)");
    assert!(!conf.reverse);
    let out = server
        .enroll_client(
            client_image(),
            "s".to_string(),
            Some(Remote::RProxy(Target::Socks5, 2)),
            keypair(2),
            true,
        )
        .unwrap();
    let conf = read_client_conf(&out).unwrap();
    assert_eq!(conf.target_addr, "socks5");
    assert!(conf.reverse && conf.has_keypass);
    assert_eq!(server.config.clients.len(), 2);
}

#[test]
fn generation_with_a_fixed_keypair_gives_identical_images() {
    let mut one = Server::build(config(default_remote(), vec![]));
    let mut two = Server::build(config(default_remote(), vec![client("x", 9, None, None)]));
    let a = one.enroll_client(client_image(), "a".to_string(), None, keypair(5), false).unwrap();
    let b = one.enroll_client(client_image(), "b".to_string(), None, keypair(5), false).unwrap();
    let c = two.enroll_client(client_image(), "c".to_string(), None, keypair(5), false).unwrap();
    assert_eq!(a, b);
    assert_eq!(a, c);
    // the key was known at the second call: its entry stays
    assert_eq!(one.config.clients.len(), 1);
    assert_eq!(one.config.clients[0].name, "a");
}

#[test]
fn failed_generation_leaves_the_server_as_it_was() {
    let mut server = Server::build(config(default_remote(), vec![]));
    let r = server.enroll_client(b"junk".to_vec(), "u".to_string(), None, keypair(1), false);
    assert_eq!(r, Err(GenError::InvalidImage));
    assert!(server.config.clients.is_empty());
    let mut named = config(default_remote(), vec![]);
    named.host = "example.org".to_string();
    let mut server = Server::build(named);
    let r = server.enroll_client(client_image(), "u".to_string(), None, keypair(1), false);
    assert_eq!(r, Err(GenError::InvalidHost));
    assert!(server.config.clients.is_empty());
    assert_eq!(server.dial_addr(), None);
}

#[test]
fn gen_client_makes_a_fresh_key() {
    let mut server = Server::build(config(default_remote(), vec![]));
    let out = server.gen_client(client_image(), "u".to_string(), None, None).unwrap();
    let conf = read_client_conf(&out).unwrap();
    assert_eq!(conf.client_prikey.len(), 32);
    assert!(!conf.has_keypass);
    let public = derive_public_key(&conf.client_prikey).unwrap().to_vec();
    assert_eq!(server.config.clients[0].pubkey, public);
    let out = server.gen_client(client_image(), "w".to_string(), None, Some("pw")).unwrap();
    let conf = read_client_conf(&out).unwrap();
    assert_eq!(conf.client_prikey.len(), 48);
    assert!(conf.has_keypass);
    assert_eq!(server.config.clients.len(), 2);
}

#[test]
fn gen_key_replaces_the_server_keys() {
    let mut server = Server::build(config(default_remote(), vec![client("a", 1, None, None)]));
    server.gen_key().unwrap();
    assert_eq!(server.config.pubkey.len(), 32);
    assert_ne!(server.config.pubkey, vec![0xaa; 32]);
    assert_eq!(derive_public_key(&server.config.prikey).unwrap().to_vec(), server.config.pubkey);
    assert_eq!(server.config.clients.len(), 1);
}

fn embedded(conf: &ClientConfig) -> Vec<u8> {
    let mut bytes = conf.to_vec().unwrap();
    bytes.resize(1024, 0);
    bytes
}

fn forward_conf() -> ClientConfig {
    ClientConfig {
        server_addr: SockAddr::V4 { ip: [192, 168, 1, 1], port: 8022 },
        target_addr: "socks5".to_string(),
        reverse: false,
        server_pubkey: vec![0xaa; 32],
        client_prikey: vec![3u8; 32],
        has_keypass: false,
    }
}

#[test]
fn forward_client_listens_on_loopback() {
    let conf = forward_conf();
    assert_eq!(
        Client::run_client(&embedded(&conf), 6000, None, None),
        Ok(ClientPlan::Forward { listen: addr(6000), conf: conf.clone() })
    );
    assert_eq!(Client::plan(conf.clone(), 1), Ok(ClientPlan::Forward { listen: addr(1), conf }));
}

#[test]
fn server_address_can_be_overridden() {
    let conf = forward_conf();
    let mut moved = conf.clone();
    moved.server_addr = addr(1);
    assert_eq!(
        Client::run_client(&embedded(&conf), 6000, Some(addr(1)), None),
        Ok(ClientPlan::Forward { listen: addr(6000), conf: moved })
    );
}

#[test]
fn reverse_client_needs_a_valid_target() {
    let mut conf = forward_conf();
    conf.reverse = true;
    conf.target_addr = "127.0.0.1:9000".to_string();
    assert_eq!(
        Client::run_client(&embedded(&conf), 0, None, None),
        Ok(ClientPlan::Reverse { target: Target::Addr(addr(9000)), conf: conf.clone() })
    );
    conf.target_addr = "SOCKS5".to_string();
    assert_eq!(
        Client::run_client(&embedded(&conf), 0, None, None),
        Ok(ClientPlan::Reverse { target: Target::Socks5, conf: conf.clone() })
    );
    conf.target_addr = "service (id: 3)".to_string();
    assert_eq!(Client::run_client(&embedded(&conf), 0, None, None), Err(ClientError::InvalidTarget));
}

#[test]
fn sealed_key_is_opened_at_start() {
    let mut conf = forward_conf();
    conf.has_keypass = true;
    conf.client_prikey = seal_private_key(&[3u8; 32], "pw").unwrap();
    let bytes = embedded(&conf);
    let mut ready = conf.clone();
    ready.client_prikey = vec![3u8; 32];
    assert_eq!(
        Client::run_client(&bytes, 1, None, Some("pw")),
        Ok(ClientPlan::Forward { listen: addr(1), conf: ready })
    );
    assert_eq!(
        Client::run_client(&bytes, 1, None, Some("wrong")),
        Err(ClientError::Key(KeyError::Open))
    );
    assert_eq!(Client::run_client(&bytes, 1, None, None), Err(ClientError::PassphraseMissing));
}

#[test]
fn client_does_not_start_without_configuration() {
    assert_eq!(
        Client::run_client(&[0xff; 1024], 1, None, None),
        Err(ClientError::Config(CodecError::InvalidTag(255)))
    );
    assert_eq!(
        Client::run_client(&[], 1, None, None),
        Err(ClientError::Config(CodecError::UnexpectedEnd))
    );
}

#[test]
fn listing_the_public_keys() {
    let conf = forward_conf();
    let own = encode_key(&derive_public_key(&[3u8; 32]).unwrap());
    assert_eq!(Client::list_pubkey(&embedded(&conf), false), Ok((own.clone(), None)));
    assert_eq!(
        Client::list_pubkey(&embedded(&conf), true),
        Ok((own, Some(encode_key(&[0xaa; 32]))))
    );
    let mut sealed = conf.clone();
    sealed.client_prikey = vec![1u8; 48];
    assert_eq!(
        Client::list_pubkey(&embedded(&sealed), true),
        Err(ClientError::Key(KeyError::InvalidLength))
    );
    assert_eq!(
        Client::list_pubkey(&[9u8; 4], true),
        Err(ClientError::Config(CodecError::InvalidVariant(9)))
    );
}
