use portguard::addr::SockAddr;
use portguard::proxy::{Action, Direction, Event, Flow, Splice};
use portguard::record::{
    read_client, read_remote, read_server, read_target, write_client, write_remote, write_server,
    ClientRecord, RecordError, RemoteRecord, ServerRecord,
};
use portguard::remote::{Remote, Target};
use portguard::server::{ClientEntry, FileHash, ServerConfig};

fn addr(port: u16) -> SockAddr {
    SockAddr::V4 { ip: [127, 0, 0, 1], port }
}

fn sample() -> ServerConfig {
    ServerConfig {
        host: "192.168.1.1".to_string(),
        port: 8022,
        remote: Remote::Proxy(Target::Socks5),
        pubkey: vec![1u8; 32],
        prikey: vec![2u8; 32],
        clients: vec![
            ClientEntry {
                name: "visitor".to_string(),
                pubkey: vec![3u8; 32],
                filehash: None,
                remote: Some(Remote::Service(7)),
            },
            ClientEntry {
                name: "provider".to_string(),
                pubkey: vec![4u8; 32],
                filehash: Some(FileHash { hash: vec![5u8; 32] }),
                remote: Some(Remote::RProxy(Target::Addr(addr(9000)), 7)),
            },
            ClientEntry {
                name: "plain".to_string(),
                pubkey: vec![6u8; 32],
                filehash: None,
                remote: None,
            },
        ],
    }
}

fn same(a: &ServerConfig, b: &ServerConfig) -> bool {
    a.host == b.host
        && a.port == b.port
        && a.remote == b.remote
        && a.pubkey == b.pubkey
        && a.prikey == b.prikey
        && a.clients.len() == b.clients.len()
        && a.clients.iter().zip(&b.clients).all(|(x, y)| {
            x.name == y.name && x.pubkey == y.pubkey && x.filehash == y.filehash && x.remote == y.remote
        })
}

#[test]
fn written_policies() {
    assert_eq!(
        write_remote(&Remote::Proxy(Target::Socks5)),
        RemoteRecord::Text("socks5".to_string())
    );
    assert_eq!(
        write_remote(&Remote::Proxy(Target::Addr(addr(9000)))),
        RemoteRecord::Text("127.0.0.1:9000".to_string())
    );
    assert_eq!(write_remote(&Remote::Service(66)), RemoteRecord::Id(66));
    assert_eq!(
        write_remote(&Remote::RProxy(Target::Addr(addr(1)), 5)),
        RemoteRecord::Pair("127.0.0.1:1".to_string(), 5)
    );
}

#[test]
fn written_policies_read_back() {
    for remote in [
        Remote::Proxy(Target::Socks5),
        Remote::Proxy(Target::Addr(addr(9000))),
        Remote::Service(0),
        Remote::Service(66),
        Remote::RProxy(Target::Socks5, 1),
        Remote::RProxy(Target::Addr(addr(22)), 2),
        Remote::Proxy(Target::Addr(SockAddr::V6 { ip: [0xfe; 16], port: 3, scope: 12 })),
        Remote::RProxy(Target::Addr(SockAddr::V6 { ip: [0, 0, 0, 0, 0, 0, 0, 0, 0, 0, 0, 0, 0, 0, 0, 1], port: 3, scope: 0 }), 2),
    ] {
        assert_eq!(read_remote(&write_remote(&remote)), Some(remote));
    }
}

#[test]
fn written_target_is_spelled_in_lowercase() {
    assert_eq!(read_target("socks5"), Some(Target::Socks5));
    assert_eq!(read_target("SOCKS5"), None);
    assert_eq!(read_target("1.2.3.4:5"), Some(Target::Addr(SockAddr::V4 { ip: [1, 2, 3, 4], port: 5 })));
    assert_eq!(read_target("nowhere"), None);
    assert_eq!(read_remote(&RemoteRecord::Text("nowhere".to_string())), None);
    assert_eq!(read_remote(&RemoteRecord::Pair("nowhere".to_string(), 1)), None);
}

#[test]
fn written_server_reads_back() {
    let config = sample();
    let record = write_server(&config);
    assert_eq!(record.host, "192.168.1.1");
    assert_eq!(record.port, 8022);
    assert_eq!(record.pubkey, "AQEBAQEBAQEBAQEBAQEBAQEBAQEBAQEBAQEBAQEBAQE=");
    assert_eq!(record.clients.len(), 3);
    assert_eq!(record.clients[1].remote, Some(RemoteRecord::Pair("127.0.0.1:9000".to_string(), 7)));
    assert_eq!(record.clients[2].hash, None);
    let back = read_server(&record).unwrap();
    assert!(same(&config, &back));
}

#[test]
fn written_client_reads_back() {
    for entry in sample().clients {
        let back = read_client(&write_client(&entry)).unwrap();
        assert_eq!((back.name, back.pubkey), (entry.name, entry.pubkey));
        assert_eq!((back.filehash, back.remote), (entry.filehash, entry.remote));
    }
}

#[test]
fn what_cannot_be_read() {
    let good = write_server(&sample());
    let mut bad = good.clone();
    bad.pubkey = "***".to_string();
    assert_eq!(read_server(&bad).err(), Some(RecordError::InvalidKey));
    let mut bad = good.clone();
    bad.remote = RemoteRecord::Text("nowhere".to_string());
    assert_eq!(read_server(&bad).err(), Some(RecordError::InvalidTarget));
    let mut bad = good.clone();
    bad.clients[1].hash = Some("?".to_string());
    assert_eq!(read_server(&bad).err(), Some(RecordError::InvalidKey));
    let mut bad = good.clone();
    bad.clients[0].remote = Some(RemoteRecord::Pair("x".to_string(), 1));
    assert_eq!(read_server(&bad).err(), Some(RecordError::InvalidTarget));
    let client = ClientRecord {
        name: "n".to_string(),
        pubkey: "%".to_string(),
        hash: None,
        remote: None,
    };
    assert_eq!(read_client(&client).err(), Some(RecordError::InvalidKey));
    let empty = ServerRecord {
        host: String::new(),
        port: 0,
        remote: RemoteRecord::Id(1),
        pubkey: String::new(),
        prikey: String::new(),
        clients: vec![],
    };
    let config = read_server(&empty).unwrap();
    assert_eq!(config.remote, Remote::Service(1));
    assert!(config.pubkey.is_empty() && config.clients.is_empty());
}

#[test]
fn splice_closes_each_destination_when_its_source_ends() {
    let mut s = Splice::new();
    assert!(!s.is_finished());
    assert_eq!(s.step(Event::Eof(Direction::Forward)), Action::Shutdown(Direction::Forward));
    assert_eq!(s.flow(Direction::Forward), Flow::Closing);
    assert_eq!(s.flow(Direction::Backward), Flow::Copying);
    assert_eq!(s.step(Event::Closed(Direction::Forward)), Action::Continue);
    assert_eq!(s.flow(Direction::Forward), Flow::Done);
    assert!(!s.is_finished());
    assert_eq!(s.step(Event::Eof(Direction::Backward)), Action::Shutdown(Direction::Backward));
    assert_eq!(s.step(Event::Closed(Direction::Backward)), Action::Finish);
    assert!(s.is_finished());
    assert_eq!(s.step(Event::Eof(Direction::Forward)), Action::Finish);
}

#[test]
fn splice_aborts_on_the_first_failure() {
    let mut s = Splice::new();
    assert_eq!(s.step(Event::Eof(Direction::Backward)), Action::Shutdown(Direction::Backward));
    assert_eq!(s.step(Event::Failed(Direction::Forward)), Action::Abort);
    assert!(s.is_finished());
    assert!(s.failed);
    assert_eq!(s.step(Event::Closed(Direction::Backward)), Action::Abort);
    assert_eq!(s.flow(Direction::Backward), Flow::Closing);
}

#[test]
fn splice_ignores_events_out_of_turn() {
    let mut s = Splice::new();
    assert_eq!(s.step(Event::Closed(Direction::Forward)), Action::Continue);
    assert_eq!(s, Splice::new());
    assert_eq!(s.step(Event::Eof(Direction::Forward)), Action::Shutdown(Direction::Forward));
    assert_eq!(s.step(Event::Eof(Direction::Forward)), Action::Continue);
    assert_eq!(s.flow(Direction::Forward), Flow::Closing);
}
