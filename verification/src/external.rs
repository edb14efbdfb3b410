//! What this crate takes from std and from other crates without proof.
//!
//! Every function here makes one kind of outside call and turns its result into plain
//! values. The contracts say what is believed of those calls; nothing else in the crate is
//! taken on trust.
use base64::Engine;
use sha2::Digest;
use std::io::{Read, Write};
use vstd::prelude::*;
use vstd::utf8;

verus! {

// ---------------------------------------------------------------------------
// Text of std
// ---------------------------------------------------------------------------

/// `String::push` appends one character.
pub assume_specification[ String::push ](s: &mut String, c: char)
    ensures
        final(s)@ == old(s)@.push(c),
;

/// The text that `String::from_utf8_lossy` makes of bytes.
pub uninterp spec fn utf8_lossy(bytes: Seq<u8>) -> Seq<char>;

/// The text made of the bytes is what they encode, where they are valid UTF-8.
pub open spec fn decodes(bytes: Seq<u8>) -> bool {
    utf8::valid_utf8(bytes) ==> utf8_lossy(bytes) == utf8::decode_utf8(bytes)
}

/// `String::from_utf8_lossy`: a function of the bytes, which decodes bytes that are valid
/// UTF-8 and puts replacement characters where they are not.
#[verifier::external_body]
pub(crate) fn from_utf8_lossy(bytes: &[u8]) -> (r: String)
    ensures
        r@ == utf8_lossy(bytes@),
        utf8::valid_utf8(bytes@) ==> r@ == utf8::decode_utf8(bytes@),
{
    String::from_utf8_lossy(bytes).into_owned()
}

/// The lowercase equivalent that `str::to_lowercase` gives of a text.
pub uninterp spec fn lowercase(s: Seq<char>) -> Seq<char>;

/// The lowercase equivalent of an ASCII character.
pub open spec fn ascii_lowercase(c: char) -> char {
    if 'A' <= c && c <= 'Z' {
        (c as u8 + 32) as char
    } else {
        c
    }
}

/// The lowercase equivalent of the text is that of its characters, where they are ASCII.
pub open spec fn lowers(s: Seq<char>) -> bool {
    utf8::is_ascii_chars(s) ==> lowercase(s) == s.map_values(|c: char| ascii_lowercase(c))
}

/// `str::to_lowercase`: a function of the text, which on ASCII text maps each letter by
/// itself.
#[verifier::external_body]
pub(crate) fn to_lowercase(s: &str) -> (r: String)
    ensures
        r@ == lowercase(s@),
        utf8::is_ascii_chars(s@) ==> r@ == s@.map_values(|c: char| ascii_lowercase(c)),
{
    s.to_lowercase()
}

// ---------------------------------------------------------------------------
// zstd and tar: the members of a package
// ---------------------------------------------------------------------------

/// The error type of std's readers.
#[verifier::external_type_specification]
#[verifier::external_body]
pub struct ExIoError(std::io::Error);

/// A member of a package archive.
pub struct PkgEntry {
    /// The path, as the bytes that the archive gives.
    pub path: Vec<u8>,
    /// The type flag of the tar format: `0` for a regular file.
    pub kind: u8,
    /// The mode, where the header holds a readable one.
    pub mode: Option<u32>,
    /// The path that a link points to.
    pub link: Option<Vec<u8>>,
    /// The content.
    pub content: Vec<u8>,
}

/// What a [`PkgEntry`] holds.
pub struct EntryModel {
    pub path: Seq<u8>,
    pub kind: u8,
    pub mode: Option<u32>,
    pub link: Option<Seq<u8>>,
    pub content: Seq<u8>,
}

impl View for PkgEntry {
    type V = EntryModel;

    open spec fn view(&self) -> EntryModel {
        EntryModel {
            path: self.path@,
            kind: self.kind,
            mode: self.mode,
            link: match self.link {
                Some(l) => Some(l@),
                None => None,
            },
            content: self.content@,
        }
    }
}

/// What a walk over an archive yields: members, and `None` where reading one failed.
pub open spec fn item_models(items: Seq<Result<PkgEntry, std::io::Error>>) -> Seq<
    Option<EntryModel>,
> {
    items.map_values(
        |item: Result<PkgEntry, std::io::Error>|
            match item {
                Ok(e) => Some(e@),
                Err(_) => None,
            },
    )
}

/// The members of a zstd-compressed tar archive, in order, with `None` where the archive
/// could not be read on; or nothing at all where no decoder could be set up.
pub uninterp spec fn package_items(data: Seq<u8>) -> Option<Seq<Option<EntryModel>>>;

/// `zstd::stream::read::Decoder::new` over the bytes, read by `tar::Archive::entries`: what
/// the walk yields is a function of the bytes. The archive takes from the decoder as much as
/// it needs, so that what follows its end is never decoded. What a path, a mode or a content
/// is for given bytes is not said.
#[verifier::external_body]
pub(crate) fn read_package(data: &[u8]) -> (r: Result<
    Vec<Result<PkgEntry, std::io::Error>>,
    std::io::Error,
>)
    ensures
        match r {
            Ok(items) => package_items(data@) == Some(item_models(items@)),
            Err(_) => package_items(data@) is None,
        },
{
    let mut archive = tar::Archive::new(zstd::stream::read::Decoder::new(data)?);
    let items = archive.entries()?.map(|entry| -> std::io::Result<PkgEntry> {
        let mut entry = entry?;
        let mut content = Vec::new();
        entry.read_to_end(&mut content)?;
        let path = entry.path_bytes().into_owned();
        let link = entry.link_name_bytes().map(|b| b.into_owned());
        let header = entry.header();
        Ok(PkgEntry { path, kind: header.entry_type().as_byte(), mode: header.mode().ok(), link, content })
    });
    Ok(items.collect())
}

// ---------------------------------------------------------------------------
// serde_json: manifests
// ---------------------------------------------------------------------------

/// The error type of `serde_json`.
#[verifier::external_type_specification]
#[verifier::external_body]
pub struct ExJsonError(serde_json::Error);

/// A JSON value of `serde_json`.
#[verifier::external_type_specification]
#[verifier::external_body]
pub struct ExJsonValue(serde_json::Value);

/// A JSON value.
pub enum Json {
    Null,
    Bool(bool),
    /// A number, in decimal.
    Number(String),
    Text(String),
    List(Vec<Json>),
    /// The members of an object, each key once.
    Object(Vec<(String, Json)>),
}

/// What a [`Json`] value holds.
pub enum JsonModel {
    Null,
    Bool(bool),
    Number(Seq<char>),
    Text(Seq<char>),
    List(Seq<JsonModel>),
    Object(Seq<(Seq<char>, JsonModel)>),
}

impl Json {
    /// What the value holds.
    pub open spec fn model(self) -> JsonModel
        decreases self,
    {
        match self {
            Json::Null => JsonModel::Null,
            Json::Bool(b) => JsonModel::Bool(b),
            Json::Number(n) => JsonModel::Number(n@),
            Json::Text(s) => JsonModel::Text(s@),
            Json::List(v) => JsonModel::List(
                Seq::new(
                    v@.len(),
                    |i: int|
                        if 0 <= i < v@.len() {
                            v@[i].model()
                        } else {
                            JsonModel::Null
                        },
                ),
            ),
            Json::Object(v) => JsonModel::Object(
                Seq::new(
                    v@.len(),
                    |i: int|
                        if 0 <= i < v@.len() {
                            (v@[i].0@, v@[i].1.model())
                        } else {
                            (seq![], JsonModel::Null)
                        },
                ),
            ),
        }
    }
}

/// What a value of `serde_json` holds.
pub uninterp spec fn json_content(value: serde_json::Value) -> JsonModel;

/// The JSON document that bytes hold, where they hold one.
pub uninterp spec fn json_document(bytes: Seq<u8>) -> Option<JsonModel>;

/// `serde_json::from_slice`: whether the bytes are a JSON document, and which, is a
/// function of the bytes.
#[verifier::external_body]
pub(crate) fn parse_json(bytes: &[u8]) -> (r: Result<serde_json::Value, serde_json::Error>)
    ensures
        match r {
            Ok(value) => json_document(bytes@) == Some(json_content(value)),
            Err(_) => json_document(bytes@) is None,
        },
{
    serde_json::from_slice(bytes)
}

/// The variants of `serde_json::Value`, one for one.
#[verifier::external_body]
pub(crate) fn json_of_value(value: serde_json::Value) -> (r: Json)
    ensures
        r.model() == json_content(value),
{
    match value {
        serde_json::Value::Null => Json::Null,
        serde_json::Value::Bool(b) => Json::Bool(b),
        serde_json::Value::Number(n) => Json::Number(n.to_string()),
        serde_json::Value::String(s) => Json::Text(s),
        serde_json::Value::Array(v) => Json::List(v.into_iter().map(json_of_value).collect()),
        serde_json::Value::Object(m) => Json::Object(
            m.into_iter().map(|(k, v)| (k, json_of_value(v))).collect(),
        ),
    }
}

// ---------------------------------------------------------------------------
// sha2 and base64: digests
// ---------------------------------------------------------------------------

/// The SHA-256 digest of bytes.
pub uninterp spec fn sha256(data: Seq<u8>) -> Seq<u8>;

/// `sha2::Sha256::digest`: 32 bytes, a function of the data.
#[verifier::external_body]
pub(crate) fn sha256_digest(data: &[u8]) -> (r: Vec<u8>)
    ensures
        r@ == sha256(data@),
        r@.len() == 32,
{
    sha2::Sha256::digest(data).to_vec()
}

/// The characters of the URL-safe base64 alphabet.
pub open spec fn base64_char(n: int) -> char {
    if n < 26 {
        ('A' as int + n) as char
    } else if n < 52 {
        ('a' as int + n - 26) as char
    } else if n < 62 {
        ('0' as int + n - 52) as char
    } else if n == 62 {
        '-'
    } else {
        '_'
    }
}

/// The `i`-th group of six bits of `data`, zeros standing for the bits past its end.
pub open spec fn sextet(data: Seq<u8>, i: int) -> int {
    let first = 6 * i / 8;
    let word = data[first] as int * 256 + if first + 1 < data.len() {
        data[first + 1] as int
    } else {
        0
    };
    let shift = 6 * i % 8;
    if shift == 0 {
        word / 1024
    } else if shift == 2 {
        word / 256 % 64
    } else if shift == 4 {
        word / 64 % 64
    } else {
        word / 16 % 64
    }
}

/// `data` in URL-safe base64 without padding: one character for each group of six bits.
pub open spec fn base64_url(data: Seq<u8>) -> Seq<char> {
    Seq::new(((data.len() * 8 + 5) / 6) as nat, |i: int| base64_char(sextet(data, i)))
}

/// `base64::engine::general_purpose::URL_SAFE_NO_PAD.encode`: the URL-safe alphabet, no
/// padding.
#[verifier::external_body]
pub(crate) fn base64_encode(data: &[u8]) -> (r: String)
    requires
        data@.len() <= usize::MAX / 4,
    ensures
        r@ == base64_url(data@),
{
    base64::engine::general_purpose::URL_SAFE_NO_PAD.encode(data)
}

// ---------------------------------------------------------------------------
// zip: writing an archive
// ---------------------------------------------------------------------------

/// The error type of `zip`.
#[verifier::external_type_specification]
#[verifier::external_body]
pub struct ExZipError(zip::result::ZipError);

/// An archive that is being written, in memory.
#[verifier::external_body]
pub struct ZipBuilder {
    inner: zip::ZipWriter<std::io::Cursor<Vec<u8>>>,
}

/// The members written so far: their names, compression methods, permission bits and contents.
pub uninterp spec fn zip_written(archive: ZipBuilder) -> Seq<(Seq<char>, u16, u32, Seq<u8>)>;

/// The members that the bytes of a zip archive hold: their names, compression methods,
/// permission bits and contents.
pub uninterp spec fn zip_members(archive: Seq<u8>) -> Seq<(Seq<char>, u16, u32, Seq<u8>)>;

/// `zip::ZipWriter::new`: an archive without members.
#[verifier::external_body]
pub(crate) fn zip_new() -> (r: ZipBuilder)
    ensures
        zip_written(r) == Seq::<(Seq<char>, u16, u32, Seq<u8>)>::empty(),
{
    ZipBuilder { inner: zip::ZipWriter::new(std::io::Cursor::new(Vec::new())) }
}

/// Whether an archive with the members written so far takes in one more: its name, compression
/// method, permission bits and content.
pub uninterp spec fn zip_accepts(
    written: Seq<(Seq<char>, u16, u32, Seq<u8>)>,
    name: Seq<char>,
    method: u16,
    permissions: u32,
    data: Seq<u8>,
) -> bool;

/// Whether an archive with the members written can be brought to its end.
pub uninterp spec fn zip_completes(written: Seq<(Seq<char>, u16, u32, Seq<u8>)>) -> bool;

/// `zip::ZipWriter::start_file` and `write_all`: whether both succeed is a function of what was
/// written before, which `start_file` first brings to its end, and of what is to be written;
/// the archive is in memory, so nothing else decides. Where they succeed, the archive has one
/// member more, compressed by the method that `zip::CompressionMethod::from_u16` gives for the
/// number of the zip format. A name that is there already is refused. On which other inputs they
/// fail is not said. A name of more than 65535 bytes makes `start_file` panic.
#[allow(deprecated)]
#[verifier::external_body]
pub(crate) fn zip_add(
    archive: ZipBuilder,
    name: &str,
    method: u16,
    permissions: u32,
    data: &[u8],
) -> (r: Result<ZipBuilder, zip::result::ZipError>)
    requires
        utf8::encode_utf8(name@).len() <= 0xffff,
        permissions <= 0o777,
    ensures
        match r {
            Ok(a) => {
                &&& zip_accepts(zip_written(archive), name@, method, permissions, data@)
                &&& zip_written(a) == zip_written(archive).push(
                    (name@, method, permissions, data@),
                )
                &&& forall|i: int|
                    0 <= i < zip_written(archive).len() ==> (#[trigger] zip_written(archive)[i]).0
                        != name@
            },
            Err(_) => !zip_accepts(zip_written(archive), name@, method, permissions, data@),
        },
{
    let mut inner = archive.inner;
    let options = zip::write::SimpleFileOptions::default()
        .compression_method(zip::CompressionMethod::from_u16(method))
        .unix_permissions(permissions);
    inner.start_file(name, options)?;
    inner.write_all(data)?;
    Ok(ZipBuilder { inner })
}

/// `zip::ZipWriter::finish`: whether it succeeds is a function of the members written, and where
/// it does, the bytes hold those members. For which members it fails is not said.
#[verifier::external_body]
pub(crate) fn zip_finish(archive: ZipBuilder) -> (r: Result<Vec<u8>, zip::result::ZipError>)
    ensures
        match r {
            Ok(bytes) => zip_completes(zip_written(archive)) && zip_members(bytes@)
                == zip_written(archive),
            Err(_) => !zip_completes(zip_written(archive)),
        },
{
    Ok(archive.inner.finish()?.into_inner())
}

} // verus!
