use portguard::addr::SockAddr;
use portguard::client::ClientConfig;
use portguard::codec::CodecError;
use portguard::gen::{
    clone_client, gen_client_binary, get_client_config_section, locate_config_section,
    modify_client_keypair, patch_section, read_client_conf, read_section_conf, rekey_client,
    serialize_conf_to_buf, stamp_config, GenError, ImageInfo, ObjectFormat, SectionEntry,
};
use portguard::keys::decrypt_client_prikey;

const CODE: usize = 64;
const SECTION: usize = 64 + 16;

fn put(image: &mut Vec<u8>, at: usize, bytes: &[u8]) {
    image[at..at + bytes.len()].copy_from_slice(bytes);
}

fn section_header(name: u32, kind: u32, offset: u64, size: u64) -> Vec<u8> {
    let mut h = vec![0u8; 64];
    put(&mut h, 0, &name.to_le_bytes());
    put(&mut h, 4, &kind.to_le_bytes());
    put(&mut h, 24, &offset.to_le_bytes());
    put(&mut h, 32, &size.to_le_bytes());
    put(&mut h, 48, &1u64.to_le_bytes());
    h
}

// A 64-bit little-endian ELF image with 16 bytes of "code" and one named
// section of `len` bytes that follows it.
fn elf_with_section(name: &str, len: usize, fill: u8) -> Vec<u8> {
    let mut names = vec![0u8];
    names.extend_from_slice(name.as_bytes());
    names.push(0);
    let shstrtab_name = names.len() as u32;
    names.extend_from_slice(b".shstrtab\0");
    let names_at = SECTION + len;
    let headers_at = (names_at + names.len() + 7) / 8 * 8;
    let mut image = vec![0u8; headers_at + 3 * 64];
    put(&mut image, 0, &[0x7f, b'E', b'L', b'F', 2, 1, 1, 0]);
    put(&mut image, 16, &2u16.to_le_bytes());
    put(&mut image, 18, &0x3eu16.to_le_bytes());
    put(&mut image, 20, &1u32.to_le_bytes());
    put(&mut image, 40, &(headers_at as u64).to_le_bytes());
    put(&mut image, 52, &64u16.to_le_bytes());
    put(&mut image, 58, &64u16.to_le_bytes());
    put(&mut image, 60, &3u16.to_le_bytes());
    put(&mut image, 62, &2u16.to_le_bytes());
    for i in 0..16 {
        image[CODE + i] = 0x90 + i as u8;
    }
    for i in 0..len {
        image[SECTION + i] = fill;
    }
    put(&mut image, names_at, &names);
    put(&mut image, headers_at + 64, &section_header(1, 1, SECTION as u64, len as u64));
    put(
        &mut image,
        headers_at + 128,
        &section_header(shstrtab_name, 3, names_at as u64, names.len() as u64),
    );
    image
}

fn client_image() -> Vec<u8> {
    elf_with_section(".portguard", 1024, 0)
}

fn sample() -> ClientConfig {
    ClientConfig {
        server_addr: SockAddr::V4 { ip: [192, 168, 1, 1], port: 8022 },
        target_addr: "127.0.0.1:9000".to_string(),
        reverse: true,
        server_pubkey: vec![1u8; 32],
        client_prikey: vec![2u8; 32],
        has_keypass: false,
    }
}

fn entry(name: &str, segment: Option<&str>, range: Option<(u64, u64)>) -> SectionEntry {
    SectionEntry {
        name: Some(name.as_bytes().to_vec()),
        segment: segment.map(|s| s.as_bytes().to_vec()),
        range,
    }
}

#[test]
fn reserved_section_is_found_in_an_elf_image() {
    assert_eq!(locate_config_section(&client_image()), Ok(SECTION));
}

#[test]
fn image_without_reserved_section() {
    let image = elf_with_section(".data", 1024, 0);
    assert_eq!(locate_config_section(&image), Err(GenError::SectionMissing));
    assert_eq!(read_client_conf(&image), Err(GenError::SectionMissing));
    assert_eq!(stamp_config(image, sample()), Err(GenError::SectionMissing));
}

#[test]
fn reserved_section_of_another_length() {
    let image = elf_with_section(".portguard", 512, 0);
    assert_eq!(locate_config_section(&image), Err(GenError::SectionLength(512)));
    let image = elf_with_section(".portguard", 1025, 0);
    assert_eq!(locate_config_section(&image), Err(GenError::SectionLength(1025)));
}

#[test]
fn reserved_section_beyond_the_image() {
    let mut image = client_image();
    image.truncate(SECTION + 1024 - 1);
    // the section headers are gone with the tail: no object file any more
    assert_eq!(locate_config_section(&image), Err(GenError::InvalidImage));
}

#[test]
fn what_is_no_object_file() {
    assert_eq!(locate_config_section(b"not an executable"), Err(GenError::InvalidImage));
    assert_eq!(locate_config_section(&[]), Err(GenError::InvalidImage));
}

#[test]
fn section_lookup_by_format() {
    let sections = vec![
        entry(".text", None, Some((10, 20))),
        entry("pgmodify", None, Some((30, 1024))),
        entry(".portguard", None, Some((2000, 1024))),
        entry("__portguard", Some("__TEXT"), Some((4000, 1024))),
        entry("__portguard", Some("__DATA"), Some((5000, 1024))),
        entry(".portguard", None, Some((9000, 7))),
    ];
    let elf = ImageInfo { format: ObjectFormat::Elf, sections: sections.clone() };
    assert_eq!(get_client_config_section(&elf), Some((2000, 1024)));
    let pe = ImageInfo { format: ObjectFormat::Pe, sections: sections.clone() };
    assert_eq!(get_client_config_section(&pe), Some((30, 1024)));
    let macho = ImageInfo { format: ObjectFormat::MachO, sections: sections.clone() };
    assert_eq!(get_client_config_section(&macho), Some((5000, 1024)));
}

#[test]
fn section_lookup_takes_the_first_match_even_without_range() {
    let sections = vec![
        SectionEntry { name: None, segment: None, range: Some((1, 1024)) },
        entry(".portguard", None, None),
        entry(".portguard", None, Some((2000, 1024))),
    ];
    let elf = ImageInfo { format: ObjectFormat::Elf, sections };
    assert_eq!(get_client_config_section(&elf), None);
    let empty = ImageInfo { format: ObjectFormat::Pe, sections: vec![] };
    assert_eq!(get_client_config_section(&empty), None);
}

#[test]
fn buffer_is_the_encoding_padded_with_zeros() {
    let c = sample();
    let enc = c.to_vec().unwrap();
    let buf = serialize_conf_to_buf(&c).unwrap();
    assert_eq!(&buf[..enc.len()], &enc[..]);
    assert!(buf[enc.len()..].iter().all(|b| *b == 0));
    let mut big = sample();
    big.server_pubkey = vec![0u8; 2000];
    assert_eq!(serialize_conf_to_buf(&big), Err(CodecError::SizeLimit));
}

#[test]
fn stamping_changes_the_section_and_nothing_else() {
    let image = client_image();
    let out = stamp_config(image.clone(), sample()).unwrap();
    assert_eq!(out.len(), image.len());
    assert_eq!(&out[..SECTION], &image[..SECTION]);
    assert_eq!(&out[SECTION + 1024..], &image[SECTION + 1024..]);
    assert_eq!(&out[SECTION..SECTION + 1024], &serialize_conf_to_buf(&sample()).unwrap()[..]);
    assert_eq!(read_client_conf(&out), Ok(sample()));
    assert_eq!(read_section_conf(&out, SECTION), Ok(sample()));
}

#[test]
fn generation_is_repeatable_and_idempotent() {
    let first = stamp_config(client_image(), sample()).unwrap();
    let second = stamp_config(client_image(), sample()).unwrap();
    assert_eq!(first, second);
    assert_eq!(stamp_config(first.clone(), sample()).unwrap(), first);
}

#[test]
fn generation_hands_the_old_configuration_to_the_callback() {
    let stamped = stamp_config(client_image(), sample()).unwrap();
    let out = gen_client_binary(stamped, |old| ClientConfig { reverse: !old.reverse, ..old }).unwrap();
    let mut expected = sample();
    expected.reverse = false;
    assert_eq!(read_client_conf(&out), Ok(expected));
}

#[test]
fn generation_fails_on_a_section_that_holds_no_configuration() {
    let image = elf_with_section(".portguard", 1024, 0xff);
    assert_eq!(
        stamp_config(image.clone(), sample()),
        Err(GenError::Config(CodecError::InvalidTag(255)))
    );
    assert_eq!(read_client_conf(&image), Err(GenError::Config(CodecError::InvalidTag(255))));
}

#[test]
fn generation_fails_on_a_configuration_that_does_not_fit() {
    let mut big = sample();
    big.client_prikey = vec![0u8; 1024];
    assert_eq!(
        stamp_config(client_image(), big.clone()),
        Err(GenError::Config(CodecError::SizeLimit))
    );
    assert_eq!(patch_section(client_image(), SECTION, &big), Err(CodecError::SizeLimit));
}

#[test]
fn clone_copies_the_configuration_and_keeps_the_code() {
    let dna = stamp_config(client_image(), sample()).unwrap();
    let mut egg = client_image();
    egg[CODE] = 0xcc;
    let out = clone_client(&dna, egg.clone()).unwrap();
    assert_eq!(read_client_conf(&out), read_client_conf(&dna));
    assert_eq!(&out[..SECTION], &egg[..SECTION]);
    assert_eq!(&out[SECTION + 1024..], &egg[SECTION + 1024..]);
    assert_ne!(&out[..SECTION], &dna[..SECTION]);
}

#[test]
fn clone_needs_both_images() {
    let dna = stamp_config(client_image(), sample()).unwrap();
    assert_eq!(clone_client(b"junk", client_image()), Err(GenError::InvalidImage));
    assert_eq!(clone_client(&dna, b"junk".to_vec()), Err(GenError::InvalidImage));
    assert_eq!(
        clone_client(&elf_with_section(".text", 1024, 0), client_image()),
        Err(GenError::SectionMissing)
    );
}

#[test]
fn rekeying_changes_key_and_flag_only() {
    let image = stamp_config(client_image(), sample()).unwrap();
    let out = rekey_client(image.clone(), vec![5u8; 48], true).unwrap();
    let mut expected = sample();
    expected.client_prikey = vec![5u8; 48];
    expected.has_keypass = true;
    assert_eq!(read_client_conf(&out), Ok(expected));
    assert_eq!(&out[..SECTION], &image[..SECTION]);
}

#[test]
fn modified_client_has_a_fresh_key() {
    let image = stamp_config(client_image(), sample()).unwrap();
    let out = modify_client_keypair(image.clone(), None).unwrap();
    let conf = read_client_conf(&out).unwrap();
    assert_eq!(conf.client_prikey.len(), 32);
    assert_ne!(conf.client_prikey, sample().client_prikey);
    assert!(!conf.has_keypass);
    assert_eq!(conf.server_pubkey, sample().server_pubkey);
    assert_eq!(conf.target_addr, sample().target_addr);

    let out = modify_client_keypair(image, Some("pw")).unwrap();
    let conf = read_client_conf(&out).unwrap();
    assert!(conf.has_keypass);
    assert_eq!(conf.client_prikey.len(), 48);
    assert_eq!(decrypt_client_prikey(conf.client_prikey, "pw").unwrap().len(), 32);
}

#[test]
fn reserved_section_that_points_beyond_the_image() {
    let mut image = client_image();
    let headers_at = image.len() - 3 * 64;
    let beyond = (image.len() - 10) as u64;
    put(&mut image, headers_at + 64 + 24, &beyond.to_le_bytes());
    assert_eq!(locate_config_section(&image), Err(GenError::SectionOutOfRange));
    assert_eq!(read_client_conf(&image), Err(GenError::SectionOutOfRange));
    put(&mut image, headers_at + 64 + 24, &u64::MAX.to_le_bytes());
    assert_eq!(locate_config_section(&image), Err(GenError::SectionOutOfRange));
}

#[test]
fn image_of_a_format_without_reserved_section() {
    // a COFF object for x86-64 without sections or symbols
    let mut coff = vec![0u8; 20];
    put(&mut coff, 0, &0x8664u16.to_le_bytes());
    assert_eq!(locate_config_section(&coff), Err(GenError::UnknownFormat));
    assert_eq!(stamp_config(coff, sample()), Err(GenError::UnknownFormat));
}
