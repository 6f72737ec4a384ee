use bincode::Options;
use portguard::addr::SockAddr;
use portguard::client::ClientConfig;
use portguard::codec::CodecError;

fn sample() -> ClientConfig {
    ClientConfig {
        server_addr: SockAddr::V4 { ip: [192, 168, 1, 1], port: 8022 },
        target_addr: "socks5".to_string(),
        reverse: false,
        server_pubkey: vec![1u8; 32],
        client_prikey: vec![2u8; 32],
        has_keypass: false,
    }
}

// What bincode writes for the same fields. A socket address is written as
// the index of its family, the octets and the port.
fn reference_bytes(c: &ClientConfig) -> Vec<u8> {
    let rest = (
        c.target_addr.clone(),
        c.reverse,
        c.server_pubkey.clone(),
        c.client_prikey.clone(),
        c.has_keypass,
    );
    let codec = bincode::options().with_limit(1024).allow_trailing_bytes();
    match c.server_addr {
        SockAddr::V4 { ip, port } => codec.serialize(&((0u32, ip, port), rest)).unwrap(),
        SockAddr::V6 { ip, port, .. } => codec.serialize(&((1u32, ip, port), rest)).unwrap(),
    }
}

#[test]
fn encoding_has_the_documented_layout() {
    let c = ClientConfig {
        server_addr: SockAddr::V4 { ip: [127, 0, 0, 1], port: 300 },
        target_addr: "ab".to_string(),
        reverse: true,
        server_pubkey: vec![9],
        client_prikey: vec![],
        has_keypass: true,
    };
    let v = c.to_vec().unwrap();
    assert_eq!(v, vec![0, 127, 0, 0, 1, 251, 44, 1, 2, 97, 98, 1, 1, 9, 0, 1]);
}

#[test]
fn encoding_agrees_with_bincode_v4() {
    let c = sample();
    assert_eq!(c.to_vec().unwrap(), reference_bytes(&c));
}

#[test]
fn encoding_agrees_with_bincode_v6_and_long_fields() {
    let mut ip = [0u8; 16];
    ip[15] = 1;
    ip[0] = 0xfe;
    let c = ClientConfig {
        server_addr: SockAddr::V6 { ip, port: 65535, scope: 0 },
        target_addr: "h\u{e9}llo \u{4e16}\u{754c}".to_string(),
        reverse: true,
        server_pubkey: vec![7u8; 300],
        client_prikey: vec![8u8; 251],
        has_keypass: true,
    };
    assert_eq!(c.to_vec().unwrap(), reference_bytes(&c));
}

#[test]
fn decoding_agrees_with_bincode() {
    let c = sample();
    let bytes = reference_bytes(&c);
    assert_eq!(ClientConfig::from_slice(&bytes).unwrap(), c);
}

#[test]
fn roundtrip_with_zero_padding() {
    let c = sample();
    let mut buf = c.to_vec().unwrap();
    buf.resize(1024, 0);
    assert_eq!(ClientConfig::from_slice(&buf).unwrap(), c);
}

#[test]
fn roundtrip_with_other_trailing_bytes() {
    let c = sample();
    let mut buf = c.to_vec().unwrap();
    buf.extend_from_slice(&[0xff, 0xfe, 0x01]);
    assert_eq!(ClientConfig::from_slice(&buf).unwrap(), c);
}

#[test]
fn zero_filled_section_decodes_to_the_empty_configuration() {
    let c = ClientConfig::from_slice(&[0u8; 1024]).unwrap();
    assert_eq!(c.server_addr, SockAddr::V4 { ip: [0, 0, 0, 0], port: 0 });
    assert_eq!(c.target_addr, "");
    assert!(!c.reverse && !c.has_keypass);
    assert!(c.server_pubkey.is_empty() && c.client_prikey.is_empty());
}

#[test]
fn encoding_of_exactly_the_reserved_length_fits() {
    let mut c = sample();
    c.client_prikey = vec![];
    c.server_pubkey = vec![];
    let fixed = c.to_vec().unwrap().len();
    // the key's length prefix grows from one byte to three
    c.server_pubkey = vec![5u8; 1024 - fixed - 2];
    let v = c.to_vec().unwrap();
    assert_eq!(v.len(), 1024);
    assert_eq!(v, reference_bytes(&c));
    assert_eq!(ClientConfig::from_slice(&v).unwrap(), c);
}

#[test]
fn encoding_beyond_the_reserved_length_is_refused() {
    let mut c = sample();
    c.client_prikey = vec![];
    c.server_pubkey = vec![];
    let fixed = c.to_vec().unwrap().len();
    c.server_pubkey = vec![5u8; 1024 - fixed - 1];
    assert_eq!(c.to_vec(), Err(CodecError::SizeLimit));
    c.server_pubkey = vec![5u8; 70000];
    assert_eq!(c.to_vec(), Err(CodecError::SizeLimit));
}

#[test]
fn decoding_tolerates_wide_markers() {
    // family 0 written with the two-byte marker, port with the eight-byte one
    let bytes = vec![
        251, 0, 0, 10, 0, 0, 1, 253, 80, 0, 0, 0, 0, 0, 0, 0, 0, 0, 0, 0, 0,
    ];
    let c = ClientConfig::from_slice(&bytes).unwrap();
    assert_eq!(c.server_addr, SockAddr::V4 { ip: [10, 0, 0, 1], port: 80 });
}

#[test]
fn decoding_errors() {
    assert_eq!(ClientConfig::from_slice(&[]), Err(CodecError::UnexpectedEnd));
    assert_eq!(ClientConfig::from_slice(&[2]), Err(CodecError::InvalidVariant(2)));
    assert_eq!(ClientConfig::from_slice(&[254]), Err(CodecError::InvalidTag(254)));
    assert_eq!(ClientConfig::from_slice(&[255]), Err(CodecError::InvalidTag(255)));
    assert_eq!(ClientConfig::from_slice(&[0, 1, 2, 3]), Err(CodecError::UnexpectedEnd));
    // port 65536 does not fit
    assert_eq!(
        ClientConfig::from_slice(&[0, 1, 2, 3, 4, 252, 0, 0, 1, 0]),
        Err(CodecError::InvalidNumber)
    );
    // family beyond 32 bits
    assert_eq!(
        ClientConfig::from_slice(&[253, 0, 0, 0, 0, 1, 0, 0, 0]),
        Err(CodecError::InvalidNumber)
    );
    // text of two bytes that are no UTF-8
    assert_eq!(
        ClientConfig::from_slice(&[0, 1, 2, 3, 4, 80, 2, 0xff, 0xfe]),
        Err(CodecError::InvalidUtf8)
    );
    // boolean 2
    assert_eq!(
        ClientConfig::from_slice(&[0, 1, 2, 3, 4, 80, 0, 2]),
        Err(CodecError::InvalidBool(2))
    );
    // key longer than what is left
    assert_eq!(
        ClientConfig::from_slice(&[0, 1, 2, 3, 4, 80, 0, 0, 5, 1, 2]),
        Err(CodecError::UnexpectedEnd)
    );
}

#[test]
fn decoding_errors_agree_with_bincode() {
    let cases: Vec<Vec<u8>> = vec![
        vec![],
        vec![2],
        vec![254],
        vec![0, 1, 2, 3],
        vec![0, 1, 2, 3, 4, 252, 0, 0, 1, 0],
        vec![0, 1, 2, 3, 4, 80, 2, 0xff, 0xfe],
        vec![0, 1, 2, 3, 4, 80, 0, 2],
        vec![0, 1, 2, 3, 4, 80, 0, 0, 5, 1, 2],
        vec![0, 1, 2, 3, 4, 80, 0, 0, 0, 0, 0],
        vec![1, 0, 0, 0, 0, 0, 0, 0, 0, 0, 0, 0, 0, 0, 0, 0, 1, 80, 0, 1, 0, 0, 1],
    ];
    for bytes in cases {
        let codec = bincode::options().with_limit(1024).allow_trailing_bytes();
        let ours = ClientConfig::from_slice(&bytes);
        if bytes.first() == Some(&1) {
            let theirs: Result<((u32, [u8; 16], u16), String, bool, Vec<u8>, Vec<u8>, bool), _> =
                codec.deserialize(&bytes);
            assert_eq!(theirs.is_ok(), ours.is_ok(), "{:?}", bytes);
            if let (Ok(t), Ok(o)) = (theirs, ours) {
                assert_eq!(
                    SockAddr::V6 { ip: (t.0).1, port: (t.0).2, scope: 0 },
                    o.server_addr
                );
                assert_eq!((t.1, t.2, t.3), (o.target_addr, o.reverse, o.server_pubkey));
                assert_eq!((t.4, t.5), (o.client_prikey, o.has_keypass));
            }
        } else {
            let theirs: Result<((u32, [u8; 4], u16), String, bool, Vec<u8>, Vec<u8>, bool), _> =
                codec.deserialize(&bytes);
            let family_ok = bytes.first() == Some(&0);
            assert_eq!(theirs.is_ok() && family_ok, ours.is_ok(), "{:?}", bytes);
            if let (Ok(t), Ok(o)) = (theirs, ours) {
                assert_eq!(SockAddr::V4 { ip: (t.0).1, port: (t.0).2 }, o.server_addr);
                assert_eq!((t.1, t.2, t.3), (o.target_addr, o.reverse, o.server_pubkey));
                assert_eq!((t.4, t.5), (o.client_prikey, o.has_keypass));
            }
        }
    }
}

#[test]
fn decoding_reads_the_reserved_length_only() {
    let c = sample();
    let mut bytes = c.to_vec().unwrap();
    bytes.resize(5000, 0xff);
    assert_eq!(ClientConfig::from_slice(&bytes).unwrap(), c);
    // fields that end beyond the reserved length
    let mut long = vec![0, 1, 2, 3, 4, 80, 0, 0];
    long.extend_from_slice(&[251, 0x4c, 0x04]);
    long.resize(8 + 3 + 1100 + 2, 7);
    assert_eq!(ClientConfig::from_slice(&long), Err(CodecError::SizeLimit));
    // the same fields cut short end too early instead
    assert_eq!(ClientConfig::from_slice(&long[..1000]), Err(CodecError::UnexpectedEnd));
    assert_eq!(ClientConfig::from_slice(&long[..1024]), Err(CodecError::UnexpectedEnd));
    assert_eq!(ClientConfig::from_slice(&long[..1025]), Err(CodecError::SizeLimit));
    // an ill-formed field within the reserved length keeps its own error
    let mut bad = vec![0, 1, 2, 3, 4, 80, 0, 9];
    bad.resize(3000, 0);
    assert_eq!(ClientConfig::from_slice(&bad), Err(CodecError::InvalidBool(9)));
}

#[test]
fn the_zone_of_the_server_address_is_not_stored() {
    let mut c = sample();
    c.server_addr = SockAddr::V6 { ip: [1; 16], port: 9, scope: 3 };
    let mut plain = c.clone();
    plain.server_addr = SockAddr::V6 { ip: [1; 16], port: 9, scope: 0 };
    let bytes = c.to_vec().unwrap();
    assert_eq!(bytes, plain.to_vec().unwrap());
    assert_eq!(bytes, reference_bytes(&c));
    assert_eq!(ClientConfig::from_slice(&bytes), Ok(plain));
}
