//! Stamping a configuration into a client image.
//!
//! A client executable reserves a zero-filled section of `CONF_BUF_LEN`
//! bytes: `.portguard` in ELF, `pgmodify` in PE, `__portguard` of segment
//! `__DATA` in Mach-O. Generating a client overwrites that section, and
//! nothing else, in a copy of the image.

use crate::client::{
    decode_config, encode_config, lemma_decoded_config_fits, lemma_fitting_config_roundtrip,
    stored, ClientConfig,
    ConfigModel,
};
use crate::codec::CodecError;
use crate::consts::CONF_BUF_LEN;
pub use crate::keys::gen_keypair;
use crate::keys::{is_protected_key, pass_bytes, KeyError};
use crate::text::{bytes_equal, opt_bytes};
use object::{Object, ObjectSection};
use vstd::prelude::*;

verus! {

/// The object file formats that a client image may have.
#[derive(Clone, Copy, Debug, PartialEq, Eq, Structural)]
pub enum ObjectFormat {
    Elf,
    Pe,
    MachO,
    /// A format in which no section is reserved.
    Other,
}

/// One section of an object file.
#[derive(Clone, Debug, PartialEq, Eq)]
pub struct SectionEntry {
    /// The section's name, where it is readable text.
    pub name: Option<Vec<u8>>,
    /// The name of the segment that holds the section, in formats that have segments.
    pub segment: Option<Vec<u8>>,
    /// Offset and length of the section's bytes in the file.
    pub range: Option<(u64, u64)>,
}

/// A section as mathematical values.
pub struct SectionModel {
    pub name: Option<Seq<u8>>,
    pub segment: Option<Seq<u8>>,
    pub range: Option<(u64, u64)>,
}

/// What the headers of an object file say: its format and its sections in order.
#[derive(Clone, Debug, PartialEq, Eq)]
pub struct ImageInfo {
    pub format: ObjectFormat,
    pub sections: Vec<SectionEntry>,
}

/// The headers of an object file as mathematical values.
pub struct ImageModel {
    pub format: ObjectFormat,
    pub sections: Seq<SectionModel>,
}

impl View for SectionEntry {
    type V = SectionModel;

    open spec fn view(&self) -> SectionModel {
        SectionModel {
            name: opt_bytes(self.name),
            segment: opt_bytes(self.segment),
            range: self.range,
        }
    }
}

impl View for ImageInfo {
    type V = ImageModel;

    open spec fn view(&self) -> ImageModel {
        ImageModel {
            format: self.format,
            sections: Seq::new(self.sections@.len(), |i: int| self.sections@[i]@),
        }
    }
}

/// Why a client image could not be generated or read.
#[derive(Clone, Copy, Debug, PartialEq, Eq, Structural)]
pub enum GenError {
    /// The image is no object file that can be read.
    InvalidImage,
    /// The image is of a format in which no section is reserved.
    UnknownFormat,
    /// The image has no reserved section.
    SectionMissing,
    /// The reserved section has not the reserved length.
    SectionLength(u64),
    /// The reserved section does not lie within the image.
    SectionOutOfRange,
    /// The configuration could not be read or written.
    Config(CodecError),
    /// No key could be made for the client.
    Key(KeyError),
    /// Host and port of the server write no socket address.
    InvalidHost,
}

/// `object::read::Error`: why an image was refused. Opaque here.
#[verifier::external_type_specification]
#[verifier::external_body]
pub struct ExObjectError(object::read::Error);

/// What `object::File::parse` reads from the headers of an image: nothing
/// where it refuses the image, else the format and the sections.
pub uninterp spec fn image_layout(image: Seq<u8>) -> Option<ImageModel>;

/// `object::File::parse`, with `format`, `sections`, and each section's
/// `name`, `segment_name` and `file_range`: the format and the sections
/// that the headers of `image` declare, a function of the image's bytes.
#[verifier::external_body]
pub(crate) fn parse_image(image: &[u8]) -> (r: Result<ImageInfo, object::read::Error>)
    ensures
        match r {
            Ok(info) => image_layout(image@) == Some(info@),
            Err(_) => image_layout(image@).is_none(),
        },
{
    let file = object::File::parse(image)?;
    let format = match file.format() {
        object::BinaryFormat::Elf => ObjectFormat::Elf,
        object::BinaryFormat::Pe => ObjectFormat::Pe,
        object::BinaryFormat::MachO => ObjectFormat::MachO,
        _ => ObjectFormat::Other,
    };
    let mut sections = Vec::new();
    for s in file.sections() {
        let name = s.name().ok().map(|n| n.as_bytes().to_vec());
        let segment = s.segment_name().ok().flatten().map(|n| n.as_bytes().to_vec());
        sections.push(SectionEntry { name, segment, range: s.file_range() });
    }
    Ok(ImageInfo { format, sections })
}

/// The name of the reserved section in each format.
pub open spec fn section_name(format: ObjectFormat) -> Seq<u8> {
    match format {
        ObjectFormat::Elf => seq![46u8, 112, 111, 114, 116, 103, 117, 97, 114, 100],
        ObjectFormat::Pe => seq![112u8, 103, 109, 111, 100, 105, 102, 121],
        ObjectFormat::MachO => seq![95u8, 95, 112, 111, 114, 116, 103, 117, 97, 114, 100],
        ObjectFormat::Other => Seq::empty(),
    }
}

/// The name `__DATA` of the Mach-O segment that holds the reserved section.
pub open spec fn data_segment() -> Seq<u8> {
    seq![95u8, 95, 68, 65, 84, 65]
}

/// The section is the reserved one of the format.
pub open spec fn is_config_section(format: ObjectFormat, s: SectionModel) -> bool {
    &&& s.name == Some(section_name(format))
    &&& format == ObjectFormat::MachO ==> s.segment == Some(data_segment())
}

/// The index of the first reserved section at or behind `from`, or the
/// number of sections where there is none.
pub open spec fn first_config_section(m: ImageModel, from: int) -> int
    decreases m.sections.len() - from,
{
    if from >= m.sections.len() || (from >= 0 && is_config_section(m.format, m.sections[from])) {
        from
    } else {
        first_config_section(m, from + 1)
    }
}

/// The file range of the first reserved section, if there is one and it has a range.
pub open spec fn config_section_range(m: ImageModel) -> Option<(u64, u64)> {
    let i = first_config_section(m, 0);
    if 0 <= i < m.sections.len() {
        m.sections[i].range
    } else {
        None
    }
}

/// The name of the reserved section in `format`.
fn expected_name(format: ObjectFormat) -> (name: Vec<u8>)
    ensures
        name@ == section_name(format),
{
    let name: Vec<u8> = match format {
        ObjectFormat::Elf => vec![46u8, 112, 111, 114, 116, 103, 117, 97, 114, 100],
        ObjectFormat::Pe => vec![112u8, 103, 109, 111, 100, 105, 102, 121],
        ObjectFormat::MachO => vec![95u8, 95, 112, 111, 114, 116, 103, 117, 97, 114, 100],
        ObjectFormat::Other => Vec::new(),
    };
    assert(name@ =~= section_name(format));
    name
}

/// Whether an optional name is the name `expected`.
fn name_is(name: &Option<Vec<u8>>, expected: &Vec<u8>) -> (r: bool)
    ensures
        r == (opt_bytes(*name) == Some(expected@)),
{
    match name {
        Some(n) => bytes_equal(n.as_slice(), expected.as_slice()),
        None => false,
    }
}

/// Finds the reserved section of an image: the file range of the first
/// section that bears the format's reserved name.
pub fn get_client_config_section(info: &ImageInfo) -> (r: Option<(u64, u64)>)
    requires
        info.format != ObjectFormat::Other,
    ensures
        r == config_section_range(info@),
{
    let name = expected_name(info.format);
    let segment: Vec<u8> = vec![95u8, 95, 68, 65, 84, 65];
    assert(segment@ =~= data_segment());
    let mut i: usize = 0;
    while i < info.sections.len()
        invariant
            i <= info.sections.len(),
            name@ == section_name(info.format),
            segment@ == data_segment(),
            first_config_section(info@, 0) == first_config_section(info@, i as int),
        decreases info.sections.len() - i,
    {
        let section = &info.sections[i];
        assert(info@.sections[i as int] == section@);
        let named = name_is(&section.name, &name);
        let placed = match info.format {
            ObjectFormat::MachO => name_is(&section.segment, &segment),
            _ => true,
        };
        if named && placed {
            return section.range;
        }
        i += 1;
    }
    None
}

/// Where the reserved section of `image` starts, or why it cannot be used.
pub open spec fn locate_section(image: Seq<u8>) -> Result<int, GenError> {
    match image_layout(image) {
        None => Err(GenError::InvalidImage),
        Some(m) => if m.format == ObjectFormat::Other {
            Err(GenError::UnknownFormat)
        } else {
            match config_section_range(m) {
                None => Err(GenError::SectionMissing),
                Some((offset, len)) => if len != CONF_BUF_LEN {
                    Err(GenError::SectionLength(len))
                } else if offset + CONF_BUF_LEN > image.len() {
                    Err(GenError::SectionOutOfRange)
                } else {
                    Ok(offset as int)
                },
            }
        },
    }
}

/// Locates the reserved section of `image` and checks that it has the
/// reserved length and lies within the image.
pub fn locate_config_section(image: &[u8]) -> (r: Result<usize, GenError>)
    ensures
        match r {
            Ok(base) => locate_section(image@) == Ok::<int, GenError>(base as int) && base
                + CONF_BUF_LEN <= image.len(),
            Err(e) => locate_section(image@) == Err::<int, GenError>(e),
        },
{
    let info = match parse_image(image) {
        Ok(info) => info,
        Err(_) => { return Err(GenError::InvalidImage); },
    };
    if let ObjectFormat::Other = info.format {
        return Err(GenError::UnknownFormat);
    }
    match get_client_config_section(&info) {
        None => Err(GenError::SectionMissing),
        Some((offset, len)) => {
            let size = image.len();
            if len != CONF_BUF_LEN as u64 {
                Err(GenError::SectionLength(len))
            } else if offset > size as u64 || size - (offset as usize) < CONF_BUF_LEN {
                Err(GenError::SectionOutOfRange)
            } else {
                Ok(offset as usize)
            }
        },
    }
}

/// `enc` followed by zeros up to the length of the reserved section.
pub open spec fn padded(enc: Seq<u8>) -> Seq<u8> {
    enc + Seq::new((CONF_BUF_LEN - enc.len()) as nat, |i: int| 0u8)
}

/// The content of the reserved section for a configuration: its encoding,
/// padded with zeros; none where the encoding does not fit.
pub open spec fn conf_buf(c: ConfigModel) -> Result<Seq<u8>, CodecError> {
    if encode_config(c).len() <= CONF_BUF_LEN {
        Ok(padded(encode_config(c)))
    } else {
        Err(CodecError::SizeLimit)
    }
}

/// The bytes of the reserved section that starts at `base`.
pub open spec fn section_bytes(image: Seq<u8>, base: int) -> Seq<u8> {
    image.subrange(base, base + CONF_BUF_LEN)
}

/// The image with the reserved section at `base` replaced by `buf`.
pub open spec fn with_section(image: Seq<u8>, base: int, buf: Seq<u8>) -> Seq<u8> {
    image.subrange(0, base) + buf + image.subrange(base + CONF_BUF_LEN, image.len() as int)
}

/// Encodes a configuration and pads it with zeros to the length of the
/// reserved section.
pub fn serialize_conf_to_buf(conf: &ClientConfig) -> (r: Result<[u8; 1024], CodecError>)
    ensures
        match r {
            Ok(buf) => conf_buf(conf@) == Ok::<Seq<u8>, CodecError>(buf@),
            Err(e) => conf_buf(conf@) == Err::<Seq<u8>, CodecError>(e),
        },
{
    let v = conf.to_vec()?;
    let mut bytes: [u8; 1024] = [0u8; 1024];
    let mut i: usize = 0;
    while i < v.len()
        invariant
            i <= v.len() <= CONF_BUF_LEN,
            forall|j: int| 0 <= j < i ==> bytes@[j] == v@[j],
            forall|j: int| i <= j < CONF_BUF_LEN ==> bytes@[j] == 0,
        decreases v.len() - i,
    {
        bytes[i] = v[i];
        i += 1;
    }
    assert(bytes@ =~= padded(v@));
    Ok(bytes)
}

/// Reads the configuration that the reserved section at `base` holds.
pub fn read_section_conf(image: &[u8], base: usize) -> (r: Result<ClientConfig, CodecError>)
    requires
        base + CONF_BUF_LEN <= image.len(),
    ensures
        match r {
            Ok(c) => decode_config(section_bytes(image@, base as int)) == Ok::<
                ConfigModel,
                CodecError,
            >(c@),
            Err(e) => decode_config(section_bytes(image@, base as int)) == Err::<
                ConfigModel,
                CodecError,
            >(e),
        },
{
    let section = vstd::slice::slice_subrange(image, base, base + CONF_BUF_LEN);
    ClientConfig::from_slice(section)
}

/// Overwrites the reserved section at `base` with the padded encoding of
/// `conf`. Every byte outside the section stays as it is.
pub fn patch_section(image: Vec<u8>, base: usize, conf: &ClientConfig) -> (r: Result<
    Vec<u8>,
    CodecError,
>)
    requires
        base + CONF_BUF_LEN <= image.len(),
    ensures
        match r {
            Ok(out) => conf_buf(conf@) matches Ok(buf) && out@ == with_section(
                image@,
                base as int,
                buf,
            ),
            Err(e) => conf_buf(conf@) == Err::<Seq<u8>, CodecError>(e),
        },
{
    let buf = serialize_conf_to_buf(conf)?;
    let mut out = image;
    let mut i: usize = 0;
    while i < CONF_BUF_LEN
        invariant
            i <= CONF_BUF_LEN,
            out.len() == image.len(),
            base + CONF_BUF_LEN <= image.len(),
            forall|j: int| 0 <= j < i ==> out@[base + j] == buf@[j],
            forall|j: int|
                0 <= j < image.len() && !(base <= j < base + i) ==> out@[j] == image@[j],
        decreases CONF_BUF_LEN - i,
    {
        out.set(base + i, buf[i]);
        i += 1;
    }
    assert(out@ =~= with_section(image@, base as int, buf@));
    Ok(out)
}

/// The image that generation gives for the new configuration `c`, with the
/// reserved section at `base`.
pub open spec fn stamped(image: Seq<u8>, base: int, c: ConfigModel) -> Result<Seq<u8>, GenError> {
    match conf_buf(c) {
        Ok(buf) => Ok(with_section(image, base, buf)),
        Err(e) => Err(GenError::Config(e)),
    }
}

/// The views of a result of images.
pub open spec fn image_result(r: Result<Vec<u8>, GenError>) -> Result<Seq<u8>, GenError> {
    match r {
        Ok(v) => Ok(v@),
        Err(e) => Err(e),
    }
}

/// Generates a client image: reads the configuration that the reserved
/// section of `image` holds, hands it to `mod_conf`, and overwrites the
/// section with what `mod_conf` returns. It fails where the section cannot
/// be located, where its bytes decode to no configuration, and where the
/// new configuration does not fit.
#[verifier::rlimit(50)]
pub fn gen_client_binary<F>(image: Vec<u8>, mod_conf: F) -> (r: Result<Vec<u8>, GenError>) where
    F: FnOnce(ClientConfig) -> ClientConfig,

    requires
        forall|c: ClientConfig| mod_conf.requires((c,)),
    ensures
        match locate_section(image@) {
            Err(e) => r == Err::<Vec<u8>, GenError>(e),
            Ok(base) => match decode_config(section_bytes(image@, base)) {
                Err(e) => r == Err::<Vec<u8>, GenError>(GenError::Config(e)),
                Ok(old) => exists|before: ClientConfig, after: ClientConfig|
                    before@ == old && mod_conf.ensures((before,), after) && image_result(r)
                        == stamped(image@, base, after@),
            },
        },
{
    let base = locate_config_section(image.as_slice())?;
    let old_conf = match read_section_conf(image.as_slice(), base) {
        Ok(c) => c,
        Err(e) => { return Err(GenError::Config(e)); },
    };
    let ghost before = old_conf;
    let new_conf = mod_conf(old_conf);
    let r = match patch_section(image, base, &new_conf) {
        Ok(out) => Ok(out),
        Err(e) => Err(GenError::Config(e)),
    };
    assert(mod_conf.ensures((before,), new_conf) && image_result(r) == stamped(
        image@,
        base as int,
        new_conf@,
    ));
    r
}

/// Stamps the configuration `conf` into `image`, whatever configuration
/// the image held before.
pub fn stamp_config(image: Vec<u8>, conf: ClientConfig) -> (r: Result<Vec<u8>, GenError>)
    ensures
        match locate_section(image@) {
            Err(e) => r == Err::<Vec<u8>, GenError>(e),
            Ok(base) => match decode_config(section_bytes(image@, base)) {
                Err(e) => r == Err::<Vec<u8>, GenError>(GenError::Config(e)),
                Ok(_) => image_result(r) == stamped(image@, base, conf@),
            },
        },
{
    let replace = |old: ClientConfig| -> (new: ClientConfig)
        ensures
            new == conf,
        { conf };
    gen_client_binary(image, replace)
}

/// Reads the configuration that a client image holds.
pub fn read_client_conf(image: &[u8]) -> (r: Result<ClientConfig, GenError>)
    ensures
        match locate_section(image@) {
            Err(e) => r == Err::<ClientConfig, GenError>(e),
            Ok(base) => match decode_config(section_bytes(image@, base)) {
                Err(e) => r == Err::<ClientConfig, GenError>(GenError::Config(e)),
                Ok(conf) => r matches Ok(c) && c@ == conf,
            },
        },
{
    let base = locate_config_section(image)?;
    match read_section_conf(image, base) {
        Ok(c) => Ok(c),
        Err(e) => Err(GenError::Config(e)),
    }
}

/// Clones a client: the configuration of the image `dna`, stamped into a
/// copy of the image `egg`.
pub fn clone_client(dna: &[u8], egg: Vec<u8>) -> (r: Result<Vec<u8>, GenError>)
    ensures
        image_result(r) == cloned_image(dna@, egg@),
{
    let conf = read_client_conf(dna)?;
    stamp_config(egg, conf)
}

/// The configuration `old` with another private key.
pub open spec fn rekeyed(old: ConfigModel, private: Seq<u8>, has_keypass: bool) -> ConfigModel {
    ConfigModel {
        server_addr: old.server_addr,
        target_addr: old.target_addr,
        reverse: old.reverse,
        server_pubkey: old.server_pubkey,
        client_prikey: private,
        has_keypass,
    }
}

/// What giving the client in `image` the private key `private` results in.
pub open spec fn rekeyed_image(image: Seq<u8>, private: Seq<u8>, has_keypass: bool) -> Result<
    Seq<u8>,
    GenError,
> {
    match locate_section(image) {
        Err(e) => Err(e),
        Ok(base) => match decode_config(section_bytes(image, base)) {
            Err(e) => Err(GenError::Config(e)),
            Ok(old) => stamped(image, base, rekeyed(old, private, has_keypass)),
        },
    }
}

/// Gives the client in `image` another private key: only the key and the
/// passphrase flag of its configuration change.
pub fn rekey_client(image: Vec<u8>, private: Vec<u8>, has_keypass: bool) -> (r: Result<
    Vec<u8>,
    GenError,
>)
    ensures
        image_result(r) == rekeyed_image(image@, private@, has_keypass),
{
    let rekey = |old: ClientConfig| -> (new: ClientConfig)
        ensures
            new@ == rekeyed(old@, private@, has_keypass),
        {
            ClientConfig {
                server_addr: old.server_addr,
                target_addr: old.target_addr,
                reverse: old.reverse,
                server_pubkey: old.server_pubkey,
                client_prikey: private,
                has_keypass,
            }
        };
    gen_client_binary(image, rekey)
}

/// Gives the client in `image` a freshly generated keypair, its private
/// key sealed where a passphrase is given. Whatever key was generated, the
/// result is the image rekeyed with a key protected as asked.
pub fn modify_client_keypair(image: Vec<u8>, passphrase: Option<&str>) -> (r: Result<
    Vec<u8>,
    GenError,
>)
    ensures
        (r matches Err(GenError::Key(e)) && (e == KeyError::Generate || e == KeyError::Seal))
            || exists|private: Seq<u8>| #[trigger]
            is_protected_key(private, pass_bytes(passphrase)) && image_result(r) == rekeyed_image(
                image@,
                private,
                passphrase.is_some(),
            ),
{
    let keypair = match gen_keypair(passphrase) {
        Ok(pair) => pair,
        Err(e) => { return Err(GenError::Key(e)); },
    };
    let ghost private = keypair.private@;
    let r = rekey_client(image, keypair.private, passphrase.is_some());
    assert(is_protected_key(private, pass_bytes(passphrase)) && image_result(r) == rekeyed_image(
        image@,
        private,
        passphrase.is_some(),
    ));
    r
}

/// Replacing the reserved section changes the section and nothing else.
pub proof fn lemma_with_section(image: Seq<u8>, base: int, buf: Seq<u8>)
    requires
        0 <= base,
        base + CONF_BUF_LEN <= image.len(),
        buf.len() == CONF_BUF_LEN,
    ensures
        with_section(image, base, buf).len() == image.len(),
        forall|j: int|
            0 <= j < image.len() && !(base <= j < base + CONF_BUF_LEN) ==> with_section(
                image,
                base,
                buf,
            )[j] == image[j],
        section_bytes(with_section(image, base, buf), base) == buf,
{
    assert(section_bytes(with_section(image, base, buf), base) =~= buf);
}

/// A stamped image is the old image outside the reserved section, and its
/// section holds the stamped configuration: reading it gives that
/// configuration back, as it is stored.
#[verifier::rlimit(50)]
pub proof fn lemma_stamped_image(image: Seq<u8>, base: int, c: ConfigModel, out: Seq<u8>)
    requires
        0 <= base,
        base + CONF_BUF_LEN <= image.len(),
        stamped(image, base, c) == Ok::<Seq<u8>, GenError>(out),
    ensures
        out.len() == image.len(),
        forall|j: int|
            0 <= j < image.len() && !(base <= j < base + CONF_BUF_LEN) ==> out[j] == image[j],
        section_bytes(out, base) == padded(encode_config(c)),
        decode_config(section_bytes(out, base)) == Ok::<ConfigModel, CodecError>(stored(c)),
{
    let enc = encode_config(c);
    lemma_with_section(image, base, padded(enc));
    lemma_fitting_config_roundtrip(c, Seq::new((CONF_BUF_LEN - enc.len()) as nat, |i: int| 0u8));
}

/// Stamping is idempotent: stamping the same configuration into a stamped
/// image changes nothing.
pub proof fn lemma_stamp_idempotent(image: Seq<u8>, base: int, c: ConfigModel, out: Seq<u8>)
    requires
        0 <= base,
        base + CONF_BUF_LEN <= image.len(),
        stamped(image, base, c) == Ok::<Seq<u8>, GenError>(out),
    ensures
        stamped(out, base, c) == Ok::<Seq<u8>, GenError>(out),
{
    assert(with_section(out, base, padded(encode_config(c))) =~= out);
}

/// The image that stamping gives depends on the old image only outside
/// its reserved section: two images that differ only there are stamped to
/// the same bytes.
pub proof fn lemma_stamp_forgets_section(a: Seq<u8>, b: Seq<u8>, base: int, c: ConfigModel)
    requires
        0 <= base,
        base + CONF_BUF_LEN <= a.len(),
        a.len() == b.len(),
        forall|j: int| 0 <= j < a.len() && !(base <= j < base + CONF_BUF_LEN) ==> a[j] == b[j],
    ensures
        stamped(a, base, c) == stamped(b, base, c),
{
    if encode_config(c).len() <= CONF_BUF_LEN {
        let buf = padded(encode_config(c));
        assert(with_section(a, base, buf) =~= with_section(b, base, buf));
    }
}

/// What cloning results in, as a function of the two images.
pub open spec fn cloned_image(dna: Seq<u8>, egg: Seq<u8>) -> Result<Seq<u8>, GenError> {
    match locate_section(dna) {
        Err(e) => Err(e),
        Ok(dna_base) => match decode_config(section_bytes(dna, dna_base)) {
            Err(e) => Err(GenError::Config(e)),
            Ok(conf) => match locate_section(egg) {
                Err(e) => Err(e),
                Ok(base) => match decode_config(section_bytes(egg, base)) {
                    Err(e) => Err(GenError::Config(e)),
                    Ok(_) => stamped(egg, base, conf),
                },
            },
        },
    }
}

/// Cloning is a pure copy: the clone holds the configuration of `dna`,
/// and outside its reserved section it is `egg`, byte for byte.
pub proof fn lemma_clone_is_a_copy(dna: Seq<u8>, egg: Seq<u8>, out: Seq<u8>)
    requires
        cloned_image(dna, egg) == Ok::<Seq<u8>, GenError>(out),
    ensures
        locate_section(dna) matches Ok(dna_base) && locate_section(egg) matches Ok(base)
            && out.len() == egg.len() && decode_config(section_bytes(out, base))
            == decode_config(section_bytes(dna, dna_base)) && forall|j: int|
            0 <= j < egg.len() && !(base <= j < base + CONF_BUF_LEN) ==> out[j] == egg[j],
{
    let dna_base = locate_section(dna)->Ok_0;
    let base = locate_section(egg)->Ok_0;
    let conf = decode_config(section_bytes(dna, dna_base))->Ok_0;
    lemma_located(egg);
    lemma_stamped_image(egg, base, conf, out);
    lemma_decoded_config_fits(section_bytes(dna, dna_base));
}

/// A located section lies within the image.
pub proof fn lemma_located(image: Seq<u8>)
    requires
        locate_section(image) is Ok,
    ensures
        0 <= locate_section(image)->Ok_0,
        locate_section(image)->Ok_0 + CONF_BUF_LEN <= image.len(),
{
}

/// Cloning fails only where one of the two images cannot be read: the
/// configuration of `dna` always fits the reserved section of `egg`.
pub proof fn lemma_clone_fits(dna: Seq<u8>, egg: Seq<u8>)
    requires
        locate_section(dna) matches Ok(dna_base) && decode_config(section_bytes(dna, dna_base))
            is Ok,
        locate_section(egg) matches Ok(base) && decode_config(section_bytes(egg, base)) is Ok,
    ensures
        cloned_image(dna, egg) is Ok,
{
    let dna_base = locate_section(dna)->Ok_0;
    lemma_located(dna);
    lemma_decoded_config_fits(section_bytes(dna, dna_base));
}

} // verus!
