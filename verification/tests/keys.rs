use portguard::keys::{
    check_keypair, make_zero_nonce,
    decode_key, decrypt_client_prikey, derive_public_key, encode_key, file_digest, gen_keypair,
    pad_passphrase, protect_keypair, seal_private_key, KeyError, Keypair,
};

fn hex(s: &str) -> Vec<u8> {
    (0..s.len()).step_by(2).map(|i| u8::from_str_radix(&s[i..i + 2], 16).unwrap()).collect()
}

#[test]
fn passphrase_is_cut_or_padded() {
    assert_eq!(pad_passphrase(""), vec![0u8; 32]);
    let mut expected = vec![0u8; 32];
    expected[..3].copy_from_slice(b"abc");
    assert_eq!(pad_passphrase("abc"), expected);
    let long = "0123456789abcdef0123456789abcdefXYZ";
    assert_eq!(pad_passphrase(long), long.as_bytes()[..32].to_vec());
    let exact = "0123456789abcdef0123456789abcdef";
    assert_eq!(pad_passphrase(exact), exact.as_bytes().to_vec());
}

#[test]
fn sealed_key_opens_with_the_same_passphrase() {
    let private = vec![7u8; 32];
    let sealed = seal_private_key(&private, "secret").unwrap();
    assert_eq!(sealed.len(), 48);
    assert_ne!(&sealed[..32], &private[..]);
    assert_eq!(decrypt_client_prikey(sealed, "secret"), Ok(private));
}

#[test]
fn sealing_is_a_function_of_key_and_passphrase() {
    let private = vec![9u8; 32];
    assert_eq!(seal_private_key(&private, "pw"), seal_private_key(&private, "pw"));
    assert_ne!(seal_private_key(&private, "pw"), seal_private_key(&private, "pW"));
}

#[test]
fn sealed_key_has_the_known_bytes() {
    // ChaCha20-Poly1305, key and nonce all zero, empty plaintext: the tag alone.
    let sealed = seal_private_key(&[], "").unwrap();
    assert_eq!(sealed, hex("4eb972c9a8fb3a1b382bb4d36f5ffad1"));
}

#[test]
fn sealed_key_does_not_open_otherwise() {
    let sealed = seal_private_key(&[1u8; 32], "secret").unwrap();
    assert_eq!(decrypt_client_prikey(sealed.clone(), "Secret"), Err(KeyError::Open));
    let mut bent = sealed.clone();
    bent[0] ^= 1;
    assert_eq!(decrypt_client_prikey(bent, "secret"), Err(KeyError::Open));
    assert_eq!(decrypt_client_prikey(vec![1, 2, 3], "secret"), Err(KeyError::Open));
    assert_eq!(decrypt_client_prikey(vec![], "secret"), Err(KeyError::Open));
}

#[test]
fn generated_keypair_without_passphrase() {
    let pair = gen_keypair(None).unwrap();
    assert_eq!(pair.private.len(), 32);
    assert_eq!(pair.public.len(), 32);
    assert_eq!(derive_public_key(&pair.private).unwrap().to_vec(), pair.public);
    let other = gen_keypair(None).unwrap();
    assert_ne!(pair.private, other.private);
}

#[test]
fn generated_keypair_with_passphrase() {
    let pair = gen_keypair(Some("pass")).unwrap();
    assert_eq!(pair.private.len(), 48);
    assert_eq!(pair.public.len(), 32);
    let raw = decrypt_client_prikey(pair.private.clone(), "pass").unwrap();
    assert_eq!(derive_public_key(&raw).unwrap().to_vec(), pair.public);
}

#[test]
fn protecting_a_keypair() {
    let pair = Keypair { private: vec![3u8; 32], public: vec![4u8; 32] };
    assert_eq!(protect_keypair(pair.clone(), None), Ok(pair.clone()));
    let sealed = protect_keypair(pair.clone(), Some("pw")).unwrap();
    assert_eq!(sealed.public, pair.public);
    assert_eq!(sealed.private, seal_private_key(&pair.private, "pw").unwrap());
}

#[test]
fn public_key_of_a_known_private_key() {
    let private = hex("77076d0a7318a57d3c16c17251b26645df4c2f87ebc0992ab177fba51db92c2a");
    let public = hex("8520f0098930a754748b7ddcb43ef75a0dbf3a0d26381af4eba4a98eaa9b4e6a");
    assert_eq!(derive_public_key(&private).unwrap().to_vec(), public);
}

#[test]
fn public_key_needs_32_bytes() {
    assert_eq!(derive_public_key(&[0u8; 31]), Err(KeyError::InvalidLength));
    assert_eq!(derive_public_key(&[0u8; 48]), Err(KeyError::InvalidLength));
    assert_eq!(derive_public_key(&[]), Err(KeyError::InvalidLength));
}

#[test]
fn digest_of_known_inputs() {
    assert_eq!(
        file_digest(b""),
        hex("69217a3079908094e11121d042354a7c1f55b6482ca1a51e1b250dfd1ed0eef9")
    );
    assert_eq!(
        file_digest(b"abc"),
        hex("508c5e8c327c14e2e1a72ba34eeb452f37458b209ed63a294d999b4c86675982")
    );
    assert_ne!(file_digest(b"abc"), b"abc".to_vec());
}

#[test]
fn base64_text_of_keys() {
    assert_eq!(encode_key(b"hello world"), "aGVsbG8gd29ybGQ=");
    assert_eq!(encode_key(b""), "");
    assert_eq!(decode_key("aGVsbG8gd29ybGQ="), Some(b"hello world".to_vec()));
    assert_eq!(decode_key(""), Some(vec![]));
    assert_eq!(decode_key("not base64!"), None);
    assert_eq!(decode_key("aGVsbG8gd29ybGQ=="), None);
    let key: Vec<u8> = (0u8..32).collect();
    assert_eq!(decode_key(&encode_key(&key)), Some(key));
}

#[test]
fn halves_of_one_pair() {
    let private = hex("77076d0a7318a57d3c16c17251b26645df4c2f87ebc0992ab177fba51db92c2a");
    let public = hex("8520f0098930a754748b7ddcb43ef75a0dbf3a0d26381af4eba4a98eaa9b4e6a");
    assert!(check_keypair(&Keypair { private: private.clone(), public: public.clone() }));
    assert!(!check_keypair(&Keypair { private: public.clone(), public: private.clone() }));
    assert!(!check_keypair(&Keypair { private: private.clone(), public: vec![] }));
    assert!(!check_keypair(&Keypair { private: vec![1; 31], public }));
    assert!(check_keypair(&gen_keypair(None).unwrap()));
}

#[test]
fn nonce_is_twelve_zero_bytes() {
    assert_eq!(make_zero_nonce(), vec![0u8; 12]);
}
