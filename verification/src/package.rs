//! Reading a FreeBSD package: its manifest, and what it installs under `site-packages`.
use crate::chars;
use crate::external;
use crate::external::{Json, PkgEntry};
use crate::sorted_map::SortedMap;
use crate::text;
use vstd::prelude::*;
use vstd::slice::slice_to_vec;

verus! {

// ---------------------------------------------------------------------------
// What a package holds
// ---------------------------------------------------------------------------

/// What the manifest of a package says.
pub struct PkgInfo {
    pub name: String,
    pub version: String,
    /// The names of the packages that it depends on, with their versions, from
    /// `+COMPACT_MANIFEST` where there is one.
    pub deps: SortedMap<String>,
}

/// What a [`PkgInfo`] holds.
pub struct InfoModel {
    pub name: Seq<char>,
    pub version: Seq<char>,
    pub deps: Map<Seq<char>, Seq<char>>,
}

impl View for PkgInfo {
    type V = InfoModel;

    open spec fn view(&self) -> InfoModel {
        InfoModel { name: self.name@, version: self.version@, deps: self.deps@ }
    }
}

/// An installed file.
pub struct FileEntry {
    pub mode: u32,
    pub data: Vec<u8>,
}

/// What a [`FileEntry`] holds.
pub struct FileModel {
    pub mode: u32,
    pub data: Seq<u8>,
}

impl View for FileEntry {
    type V = FileModel;

    open spec fn view(&self) -> FileModel {
        FileModel { mode: self.mode, data: self.data@ }
    }
}

/// What a package installs.
pub struct Payload {
    /// The files under `site-packages`, by their paths relative to it.
    pub files: SortedMap<FileEntry>,
    /// The paths of files that are not under `site-packages`, but for those whose loss is
    /// expected.
    pub skipped: Vec<String>,
    /// What could not be taken in under `site-packages`: paths, each with the reason.
    pub lost: Vec<String>,
    /// The version `X.Y` of the python that the package is for.
    pub pyver: Option<String>,
}

/// What a [`Payload`] holds.
pub struct PayloadModel {
    pub files: Map<Seq<char>, FileModel>,
    pub skipped: Seq<Seq<char>>,
    pub lost: Seq<Seq<char>>,
    pub pyver: Option<Seq<char>>,
}

/// The text of an optional string.
pub open spec fn option_text(s: Option<String>) -> Option<Seq<char>> {
    match s {
        Some(t) => Some(t@),
        None => None,
    }
}

impl View for Payload {
    type V = PayloadModel;

    open spec fn view(&self) -> PayloadModel {
        PayloadModel {
            files: self.files@,
            skipped: text::strings(self.skipped@),
            lost: text::strings(self.lost@),
            pyver: option_text(self.pyver),
        }
    }
}

/// A payload without files.
pub open spec fn empty_payload() -> PayloadModel {
    PayloadModel { files: Map::empty(), skipped: seq![], lost: seq![], pyver: None }
}

// ---------------------------------------------------------------------------
// Manifests
// ---------------------------------------------------------------------------

/// The member of an object, from the `i`-th on, that has the given name.
pub open spec fn member_from(
    members: Seq<(Seq<char>, external::JsonModel)>,
    name: Seq<char>,
    i: int,
) -> external::JsonModel
    decreases members.len() - i,
{
    if i < 0 || i >= members.len() {
        external::JsonModel::Null
    } else if members[i].0 == name {
        members[i].1
    } else {
        member_from(members, name, i + 1)
    }
}

/// The member of a JSON value that has the given name; null where there is none.
pub open spec fn member(value: external::JsonModel, name: Seq<char>) -> external::JsonModel {
    match value {
        external::JsonModel::Object(members) => member_from(members, name, 0),
        _ => external::JsonModel::Null,
    }
}

/// The text that a JSON value is; empty for a value of another kind.
pub open spec fn text_value(value: external::JsonModel) -> Seq<char> {
    match value {
        external::JsonModel::Text(s) => s,
        _ => seq![],
    }
}

/// The versions that the members of an object name.
pub open spec fn dep_versions(members: Seq<(Seq<char>, external::JsonModel)>) -> Map<
    Seq<char>,
    Seq<char>,
>
    decreases members.len(),
{
    if members.len() == 0 {
        Map::empty()
    } else {
        dep_versions(members.drop_last()).insert(
            members.last().0,
            text_value(member(members.last().1, "version"@)),
        )
    }
}

/// What a manifest says.
pub open spec fn info_of(doc: external::JsonModel) -> InfoModel {
    InfoModel {
        name: text_value(member(doc, "name"@)),
        version: text_value(member(doc, "version"@)),
        deps: match member(doc, "deps"@) {
            external::JsonModel::Object(members) => dep_versions(members),
            _ => Map::empty(),
        },
    }
}

/// See [`member`].
fn json_member<'a>(value: &'a Json, name: &str) -> (r: Option<&'a Json>)
    ensures
        match r {
            Some(v) => v.model() == member(value.model(), name@),
            None => member(value.model(), name@) == external::JsonModel::Null,
        },
{
    match value {
        Json::Object(members) => {
            let ghost models = value.model()->Object_0;
            let wanted = chars::chars_of(name);
            let mut i: usize = 0;
            while i < members.len()
                invariant
                    i <= members.len(),
                    wanted@ == name@,
                    models.len() == members@.len(),
                    forall|k: int|
                        0 <= k < members@.len() ==> #[trigger] models[k] == (
                            members@[k].0@,
                            members@[k].1.model(),
                        ),
                    value.model() == external::JsonModel::Object(models),
                    member(value.model(), name@) == member_from(models, name@, i as int),
                decreases members.len() - i,
            {
                let key = chars::chars_of(&members[i].0);
                proof {
                    assert(models[i as int].0 == key@);
                }
                if chars::same(&key, &wanted) {
                    return Some(&members[i].1);
                }
                i = i + 1;
            }
            None
        },
        _ => None,
    }
}

/// See [`text_value`].
fn json_text(value: Option<&Json>) -> (r: String)
    ensures
        match value {
            Some(v) => r@ == text_value(v.model()),
            None => r@ == Seq::<char>::empty(),
        },
{
    match value {
        Some(Json::Text(s)) => s.clone(),
        _ => String::new(),
    }
}

/// What a manifest says: its name and version, and the versions of its dependencies. What is
/// missing, or not text, is empty.
pub fn manifest_info(doc: &Json) -> (r: PkgInfo)
    ensures
        r@ == info_of(doc.model()),
{
    let name = json_text(json_member(doc, "name"));
    let version = json_text(json_member(doc, "version"));
    let mut deps: SortedMap<String> = SortedMap::new();
    if let Some(Json::Object(members)) = json_member(doc, "deps") {
        let ghost models = Json::Object(*members).model()->Object_0;
        let mut i: usize = 0;
        while i < members.len()
            invariant
                i <= members.len(),
                models.len() == members@.len(),
                forall|k: int|
                    0 <= k < members@.len() ==> #[trigger] models[k] == (
                        members@[k].0@,
                        members@[k].1.model(),
                    ),
                deps@ == dep_versions(models.take(i as int)),
            decreases members.len() - i,
        {
            let key = chars::chars_of(&members[i].0);
            let version = json_text(json_member(&members[i].1, "version"));
            proof {
                assert(models.take(i + 1).drop_last() =~= models.take(i as int));
                assert(models.take(i + 1).last() == models[i as int]);
            }
            deps.insert(key, version);
            i = i + 1;
        }
        proof {
            assert(models.take(members.len() as int) =~= models);
        }
    }
    PkgInfo { name, version, deps }
}

// ---------------------------------------------------------------------------
// Members of the archive
// ---------------------------------------------------------------------------

/// The type flag of a regular file.
pub const REGULAR: u8 = 0x30;

/// The type flag of a hard link.
pub const LINK: u8 = 0x31;

/// The type flag of a directory.
pub const DIRECTORY: u8 = 0x35;

/// What stands before and after the `site-packages` directory in a path.
pub open spec fn site_split(path: Seq<char>) -> Option<(Seq<char>, Seq<char>)> {
    text::split_once(path, "/site-packages/"@)
}

/// The part of a path after its last slash.
pub open spec fn last_segment(path: Seq<char>) -> Seq<char> {
    match text::rsplit_once(path, '/') {
        Some((_, last)) => last,
        None => path,
    }
}

/// The python version that a path names: `X.Y` in `.../pythonX.Y/site-packages/...`.
pub open spec fn python_version(path: Seq<char>) -> Option<Seq<char>> {
    match site_split(path) {
        Some((before, _)) => text::strip_prefix(last_segment(before), "python"@),
        None => None,
    }
}

/// Bytecode, which wheels normally omit.
pub open spec fn is_bytecode(path: Seq<char>) -> bool {
    text::contains(path, "__pycache__/"@) || text::ends_with(path, ".pyc"@)
}

/// Documentation, licenses, manual pages and examples, which never belong in a wheel.
pub open spec fn is_expected_loss(path: Seq<char>) -> bool {
    ||| text::contains(path, "/share/doc/"@)
    ||| text::contains(path, "/share/licenses/"@)
    ||| text::contains(path, "/share/man/"@)
    ||| text::contains(path, "/share/examples/"@)
}

/// The name of a type flag.
pub open spec fn kind_label(kind: u8) -> Seq<char> {
    if kind == 0x30 {
        "Regular"@
    } else if kind == 0x31 {
        "Link"@
    } else if kind == 0x32 {
        "Symlink"@
    } else if kind == 0x33 {
        "Char"@
    } else if kind == 0x34 {
        "Block"@
    } else if kind == 0x35 {
        "Directory"@
    } else if kind == 0x36 {
        "Fifo"@
    } else if kind == 0x37 {
        "Continuous"@
    } else if kind == 0x4c {
        "GNULongName"@
    } else if kind == 0x4b {
        "GNULongLink"@
    } else if kind == 0x53 {
        "GNUSparse"@
    } else if kind == 0x67 {
        "XGlobalHeader"@
    } else if kind == 0x78 {
        "XHeader"@
    } else {
        "__Nonexhaustive("@ + text::decimal(kind as nat) + ")"@
    }
}

/// A payload with one more file that is not under `site-packages`.
pub open spec fn with_skipped(payload: PayloadModel, path: Seq<char>) -> PayloadModel {
    PayloadModel { skipped: payload.skipped.push(path), ..payload }
}

/// A payload with one more note of what could not be taken in under `site-packages`.
pub open spec fn with_lost(payload: PayloadModel, note: Seq<char>) -> PayloadModel {
    PayloadModel { lost: payload.lost.push(note), ..payload }
}

/// A payload with a file.
pub open spec fn with_file(
    payload: PayloadModel,
    path: Seq<char>,
    file: FileModel,
) -> PayloadModel {
    PayloadModel { files: payload.files.insert(path, file), ..payload }
}

/// A payload that knows the python version that a path names, unless it knew one before.
pub open spec fn with_version(payload: PayloadModel, path: Seq<char>) -> PayloadModel {
    PayloadModel {
        pyver: if payload.pyver is None {
            python_version(path)
        } else {
            payload.pyver
        },
        ..payload
    }
}

/// A payload with a hard link at `rel`, resolved against the files that were read before.
pub open spec fn with_link(
    payload: PayloadModel,
    path: Seq<char>,
    rel: Seq<char>,
    target: Seq<char>,
) -> PayloadModel {
    match site_split(target) {
        None => with_lost(payload, path + " (hardlink -> "@ + target + ")"@),
        Some((_, target_rel)) => if payload.files.contains_key(target_rel) {
            with_file(payload, rel, payload.files[target_rel])
        } else {
            with_lost(payload, path + " (hardlink -> unread "@ + target + ")"@)
        },
    }
}

/// A payload after one member of the archive: its path, type flag, mode, link target and
/// content.
pub open spec fn placed(
    payload: PayloadModel,
    path: Seq<char>,
    kind: u8,
    mode: Option<u32>,
    target: Seq<char>,
    content: Seq<u8>,
    keep_pyc: bool,
) -> PayloadModel {
    let known = with_version(payload, path);
    match site_split(path) {
        None => if kind == REGULAR && !is_expected_loss(path) {
            with_skipped(known, path)
        } else {
            known
        },
        Some((_, rel)) => if rel.len() == 0 || (!keep_pyc && is_bytecode(rel)) {
            known
        } else if kind == REGULAR {
            let mode = match mode {
                Some(m) => m,
                None => 0o644,
            };
            with_file(known, rel, FileModel { mode, data: content })
        } else if kind == LINK {
            with_link(known, path, rel, target)
        } else if kind == DIRECTORY {
            known
        } else {
            with_lost(known, path + " ("@ + kind_label(kind) + ")"@)
        },
    }
}

/// See [`site_split`].
fn split_at_site<'a>(path: &'a [char]) -> (r: Option<(&'a [char], &'a [char])>)
    ensures
        match r {
            Some((a, b)) => site_split(path@) == Some((a@, b@)),
            None => site_split(path@) is None,
        },
{
    let site = chars::chars_of("/site-packages/");
    chars::split_once(path, &site)
}

/// See [`python_version`].
fn version_in(path: &[char]) -> (r: Option<String>)
    ensures
        option_text(r) == python_version(path@),
{
    match split_at_site(path) {
        Some((before, _)) => {
            let last: &[char] = match chars::rsplit_once(before, '/') {
                Some((_, last)) => last,
                None => before,
            };
            let python = chars::chars_of("python");
            match chars::strip_prefix(last, &python) {
                Some(v) => Some(chars::string_of(v)),
                None => None,
            }
        },
        None => None,
    }
}

/// The text holds the pattern.
fn holds(s: &[char], pattern: &str) -> (r: bool)
    ensures
        r == text::contains(s@, pattern@),
{
    let p = chars::chars_of(pattern);
    chars::contains(s, &p)
}

/// See [`is_bytecode`].
fn bytecode(path: &[char]) -> (r: bool)
    ensures
        r == is_bytecode(path@),
{
    let pyc = chars::chars_of(".pyc");
    holds(path, "__pycache__/") || chars::ends_with(path, &pyc)
}

/// See [`is_expected_loss`].
fn expected_loss(path: &[char]) -> (r: bool)
    ensures
        r == is_expected_loss(path@),
{
    holds(path, "/share/doc/") || holds(path, "/share/licenses/") || holds(path, "/share/man/")
        || holds(path, "/share/examples/")
}

/// See [`kind_label`].
fn label(kind: u8) -> (r: Vec<char>)
    ensures
        r@ == kind_label(kind),
{
    if kind == 0x30 {
        chars::chars_of("Regular")
    } else if kind == 0x31 {
        chars::chars_of("Link")
    } else if kind == 0x32 {
        chars::chars_of("Symlink")
    } else if kind == 0x33 {
        chars::chars_of("Char")
    } else if kind == 0x34 {
        chars::chars_of("Block")
    } else if kind == 0x35 {
        chars::chars_of("Directory")
    } else if kind == 0x36 {
        chars::chars_of("Fifo")
    } else if kind == 0x37 {
        chars::chars_of("Continuous")
    } else if kind == 0x4c {
        chars::chars_of("GNULongName")
    } else if kind == 0x4b {
        chars::chars_of("GNULongLink")
    } else if kind == 0x53 {
        chars::chars_of("GNUSparse")
    } else if kind == 0x67 {
        chars::chars_of("XGlobalHeader")
    } else if kind == 0x78 {
        chars::chars_of("XHeader")
    } else {
        let mut out = chars::chars_of("__Nonexhaustive(");
        let number = chars::decimal(kind as u64);
        chars::extend(&mut out, &number);
        chars::extend_str(&mut out, ")");
        out
    }
}

/// `head`, `open`, `middle` and a closing bracket.
fn note(head: &[char], open: &str, middle: &[char]) -> (r: String)
    ensures
        r@ == head@ + open@ + middle@ + ")"@,
{
    let mut out = chars::copy_of(head);
    chars::extend_str(&mut out, open);
    chars::extend(&mut out, middle);
    chars::extend_str(&mut out, ")");
    chars::string_of(&out)
}

impl Payload {
    /// A payload without files.
    pub fn new() -> (r: Self)
        ensures
            r@ == empty_payload(),
    {
        let r = Payload {
            files: SortedMap::new(),
            skipped: Vec::new(),
            lost: Vec::new(),
            pyver: None,
        };
        proof {
            assert(r@.lost =~= empty_payload().lost);
            assert(r@.skipped =~= empty_payload().skipped);
        }
        r
    }

    /// Notes a file that is not under `site-packages`.
    fn skip(&mut self, path: String)
        ensures
            final(self)@ == with_skipped(old(self)@, path@),
    {
        self.skipped.push(path);
        proof {
            assert(self@.skipped =~= old(self)@.skipped.push(path@));
        }
    }

    /// Notes what could not be taken in under `site-packages`.
    fn lose(&mut self, note: String)
        ensures
            final(self)@ == with_lost(old(self)@, note@),
    {
        self.lost.push(note);
        proof {
            assert(self@.lost =~= old(self)@.lost.push(note@));
        }
    }

    /// Takes in one member of the archive.
    pub fn place(
        &mut self,
        path: &str,
        kind: u8,
        mode: Option<u32>,
        target: &str,
        content: Vec<u8>,
        keep_pyc: bool,
    )
        ensures
            final(self)@ == placed(old(self)@, path@, kind, mode, target@, content@, keep_pyc),
    {
        let raw = chars::chars_of(path);
        if self.pyver.is_none() {
            self.pyver = version_in(&raw);
        }
        match split_at_site(&raw) {
            None => {
                if kind == REGULAR && !expected_loss(&raw) {
                    self.skip(chars::string_of(&raw));
                }
            },
            Some((_, rel)) => {
                if rel.len() == 0 || (!keep_pyc && bytecode(rel)) {
                    return;
                }
                if kind == REGULAR {
                    let mode: u32 = match mode {
                        Some(m) => m,
                        None => 0o644,
                    };
                    self.files.insert(chars::copy_of(rel), FileEntry { mode, data: content });
                } else if kind == LINK {
                    self.place_link(&raw, rel, target);
                } else if kind != DIRECTORY {
                    let kind_text = label(kind);
                    self.lose(note(&raw, " (", &kind_text));
                }
            },
        }
    }

    /// Takes in a hard link.
    fn place_link(&mut self, raw: &[char], rel: &[char], target: &str)
        ensures
            final(self)@ == with_link(old(self)@, raw@, rel@, target@),
    {
        let target_chars = chars::chars_of(target);
        match split_at_site(&target_chars) {
            None => {
                self.lose(note(raw, " (hardlink -> ", &target_chars));
            },
            Some((_, target_rel)) => {
                let copy: Option<FileEntry> = match self.files.get(target_rel) {
                    Some(f) => Some(FileEntry { mode: f.mode, data: slice_to_vec(&f.data) }),
                    None => None,
                };
                match copy {
                    Some(f) => {
                        self.files.insert(chars::copy_of(rel), f);
                    },
                    None => {
                        self.lose(note(raw, " (hardlink -> unread ", &target_chars));
                    },
                }
            },
        }
    }
}

// ---------------------------------------------------------------------------
// The whole archive
// ---------------------------------------------------------------------------

/// Why a package cannot be read.
#[derive(Debug)]
pub enum ReadError {
    /// Fewer than four bytes.
    TooShort,
    /// The first four bytes, which are not the mark of zstd.
    NotZstd(Vec<u8>),
    /// The archive cannot be decoded.
    Archive(std::io::Error),
    /// A manifest, by its name, is not a JSON document.
    Manifest(String, serde_json::Error),
    /// There is no manifest.
    NoManifest,
}

/// What a [`ReadError`] says.
pub enum ReadFault {
    TooShort,
    NotZstd(Seq<u8>),
    Archive,
    Manifest(Seq<char>),
    NoManifest,
}

impl View for ReadError {
    type V = ReadFault;

    open spec fn view(&self) -> ReadFault {
        match self {
            ReadError::TooShort => ReadFault::TooShort,
            ReadError::NotZstd(magic) => ReadFault::NotZstd(magic@),
            ReadError::Archive(_) => ReadFault::Archive,
            ReadError::Manifest(name, _) => ReadFault::Manifest(name@),
            ReadError::NoManifest => ReadFault::NoManifest,
        }
    }
}

/// What is known of a package after some of its members.
pub struct ScanModel {
    pub info: Option<InfoModel>,
    /// A `+COMPACT_MANIFEST` was there.
    pub compact: bool,
    pub payload: PayloadModel,
}

/// What is known of a package after a manifest. The name and the version are those of the first
/// manifest; the dependencies are those of the first compact one, or else of the first.
pub open spec fn with_manifest(
    info: Option<InfoModel>,
    doc: external::JsonModel,
) -> InfoModel {
    match info {
        Some(known) => InfoModel { deps: info_of(doc).deps, ..known },
        None => info_of(doc),
    }
}

/// The target of a link as text; empty where there is none.
pub open spec fn link_target(entry: external::EntryModel) -> Seq<char> {
    match entry.link {
        Some(l) => external::utf8_lossy(l),
        None => seq![],
    }
}

/// What is known of a package after one more member. The first manifest counts, and the first
/// compact one for its dependencies; other members whose names begin with a plus sign are no
/// payload.
pub open spec fn scan_entry(
    scan: ScanModel,
    entry: external::EntryModel,
    keep_pyc: bool,
) -> Result<ScanModel, ReadFault> {
    let path = external::utf8_lossy(entry.path);
    if path == "+COMPACT_MANIFEST"@ && scan.compact || path == "+MANIFEST"@ && scan.info is Some {
        Ok(scan)
    } else if path == "+COMPACT_MANIFEST"@ || path == "+MANIFEST"@ {
        match external::json_document(entry.content) {
            Some(doc) => Ok(
                ScanModel {
                    info: Some(with_manifest(scan.info, doc)),
                    compact: path == "+COMPACT_MANIFEST"@,
                    ..scan
                },
            ),
            None => Err(ReadFault::Manifest(path)),
        }
    } else if text::starts_with(path, "+"@) {
        Ok(scan)
    } else {
        Ok(
            ScanModel {
                payload: placed(
                    scan.payload,
                    path,
                    entry.kind,
                    entry.mode,
                    link_target(entry),
                    entry.content,
                    keep_pyc,
                ),
                ..scan
            },
        )
    }
}

/// What is known of a package after its members; or what went wrong first.
pub open spec fn scan_items(items: Seq<Option<external::EntryModel>>, keep_pyc: bool) -> Result<
    ScanModel,
    ReadFault,
>
    decreases items.len(),
{
    if items.len() == 0 {
        Ok(ScanModel { info: None, compact: false, payload: empty_payload() })
    } else {
        match scan_items(items.drop_last(), keep_pyc) {
            Ok(scan) => match items.last() {
                Some(entry) => scan_entry(scan, entry, keep_pyc),
                None => Err(ReadFault::Archive),
            },
            Err(fault) => Err(fault),
        }
    }
}

/// What the members of a package make of it.
pub open spec fn package_of(items: Seq<Option<external::EntryModel>>, keep_pyc: bool) -> Result<
    (InfoModel, PayloadModel),
    ReadFault,
> {
    match scan_items(items, keep_pyc) {
        Ok(scan) => match scan.info {
            Some(info) => Ok((info, scan.payload)),
            None => Err(ReadFault::NoManifest),
        },
        Err(fault) => Err(fault),
    }
}

/// The path and the link target of a member are the texts that they encode, where they are
/// valid UTF-8.
pub open spec fn names_decode(item: Option<external::EntryModel>) -> bool {
    match item {
        Some(entry) => {
            let path = external::utf8_lossy(entry.path);
            &&& external::decodes(entry.path)
            &&& !text::starts_with(path, "+"@) && entry.link is Some ==> external::decodes(
                entry.link->0,
            )
        },
        None => true,
    }
}

/// As [`names_decode`], of all members.
pub open spec fn all_names_decode(items: Seq<Option<external::EntryModel>>) -> bool {
    forall|i: int| 0 <= i < items.len() ==> names_decode(#[trigger] items[i])
}

/// The mark that zstd-compressed data begins with.
pub open spec fn zstd_magic() -> Seq<u8> {
    seq![0x28u8, 0xb5u8, 0x2fu8, 0xfdu8]
}

/// What the bytes of a package file make of it.
pub open spec fn package_in(data: Seq<u8>, keep_pyc: bool) -> Result<
    (InfoModel, PayloadModel),
    ReadFault,
> {
    if data.len() < 4 {
        Err(ReadFault::TooShort)
    } else if data.take(4) != zstd_magic() {
        Err(ReadFault::NotZstd(data.take(4)))
    } else {
        match external::package_items(data) {
            Some(items) => package_of(items, keep_pyc),
            None => Err(ReadFault::Archive),
        }
    }
}

/// A failed step after a good beginning makes the whole fail so.
proof fn lemma_scan_stops(items: Seq<Option<external::EntryModel>>, n: int, keep_pyc: bool)
    requires
        0 <= n <= items.len(),
        scan_items(items.take(n), keep_pyc) is Err,
    ensures
        scan_items(items, keep_pyc) == scan_items(items.take(n), keep_pyc),
    decreases items.len(),
{
    if n == items.len() {
        assert(items.take(n) =~= items);
    } else {
        assert(items.drop_last().take(n) =~= items.take(n));
        lemma_scan_stops(items.drop_last(), n, keep_pyc);
    }
}

/// Reads the members of a package: the manifest, and the payload under `site-packages`.
pub fn collect_package(
    items: Vec<Result<PkgEntry, std::io::Error>>,
    keep_pyc: bool,
) -> (r: Result<(PkgInfo, Payload), ReadError>)
    ensures
        match r {
            Ok((info, payload)) => package_of(external::item_models(items@), keep_pyc) == Ok::<
                _,
                ReadFault,
            >((info@, payload@)),
            Err(e) => package_of(external::item_models(items@), keep_pyc) == Err::<
                (InfoModel, PayloadModel),
                _,
            >(e@),
        },
        r is Ok ==> all_names_decode(external::item_models(items@)),
{
    let mut info: Option<PkgInfo> = None;
    let mut has_compact: bool = false;
    let mut payload = Payload::new();
    let compact = chars::chars_of("+COMPACT_MANIFEST");
    let full = chars::chars_of("+MANIFEST");
    let plus = chars::chars_of("+");
    let ghost models = external::item_models(items@);
    let mut rest = items;
    let mut done: usize = 0;
    let total: usize = rest.len();
    // The members are taken from the end of a reversed list, so that each can be moved out.
    reverse(&mut rest);
    while done < total
        invariant
            done <= total,
            total == items@.len(),
            models == external::item_models(items@),
            rest@.len() == total - done,
            forall|k: int| 0 <= k < rest@.len() ==> #[trigger] rest@[k] == items@[total - 1 - k],
            compact@ == "+COMPACT_MANIFEST"@,
            full@ == "+MANIFEST"@,
            plus@ == "+"@,
            forall|i: int| 0 <= i < done ==> names_decode(#[trigger] models[i]),
            scan_items(models.take(done as int), keep_pyc) == Ok::<_, ReadFault>(
                ScanModel {
                    info: match info {
                        Some(i) => Some(i@),
                        None => None,
                    },
                    compact: has_compact,
                    payload: payload@,
                },
            ),
        decreases total - done,
    {
        let item = rest.pop();
        proof {
            assert(models.take(done + 1).drop_last() =~= models.take(done as int));
            assert(models.take(done + 1).last() == models[done as int]);
        }
        match item {
            Some(Ok(entry)) => {
                let path = external::from_utf8_lossy(&entry.path);
                let raw = chars::chars_of(&path);
                let is_compact = chars::same(&raw, &compact);
                if is_compact || chars::same(&raw, &full) {
                    proof {
                        reveal_strlit("+COMPACT_MANIFEST");
                        reveal_strlit("+MANIFEST");
                        assert("+COMPACT_MANIFEST"@.len() != "+MANIFEST"@.len());
                        reveal_strlit("+");
                        assert(raw@.take(1) =~= "+"@);
                    }
                    if (is_compact && !has_compact) || (!is_compact && info.is_none()) {
                        match external::parse_json(&entry.content) {
                            Ok(value) => {
                                let doc = external::json_of_value(value);
                                let said = manifest_info(&doc);
                                info = Some(
                                    match info {
                                        Some(known) => PkgInfo {
                                            name: known.name,
                                            version: known.version,
                                            deps: said.deps,
                                        },
                                        None => said,
                                    },
                                );
                                has_compact = is_compact;
                            },
                            Err(e) => {
                                proof {
                                    lemma_scan_stops(models, done + 1, keep_pyc);
                                }
                                return Err(ReadError::Manifest(path, e));
                            },
                        }
                    }
                } else if !chars::starts_with(&raw, &plus) {
                    let target = match &entry.link {
                        Some(l) => external::from_utf8_lossy(l),
                        None => String::new(),
                    };
                    payload.place(
                        &path,
                        entry.kind,
                        entry.mode,
                        &target,
                        entry.content,
                        keep_pyc,
                    );
                }
            },
            Some(Err(e)) => {
                proof {
                    lemma_scan_stops(models, done + 1, keep_pyc);
                }
                return Err(ReadError::Archive(e));
            },
            None => {},
        }
        done = done + 1;
    }
    proof {
        assert(models.take(total as int) =~= models);
    }
    match info {
        Some(i) => Ok((i, payload)),
        None => Err(ReadError::NoManifest),
    }
}

/// Reverses a vector.
pub(crate) fn reverse<T>(v: &mut Vec<T>)
    ensures
        final(v)@ == old(v)@.reverse(),
{
    let mut from: Vec<T> = Vec::new();
    std::mem::swap(v, &mut from);
    let ghost all = from@;
    while from.len() > 0
        invariant
            all == old(v)@,
            from@.len() + v@.len() == all.len(),
            from@ == all.take(from@.len() as int),
            forall|k: int| 0 <= k < v@.len() ==> #[trigger] v@[k] == all[all.len() - 1 - k],
        decreases from.len(),
    {
        if let Some(x) = from.pop() {
            v.push(x);
        }
    }
    proof {
        assert(v@ =~= all.reverse());
    }
}

/// Reads a package file from its bytes.
pub fn read_pkg(data: &[u8], keep_pyc: bool) -> (r: Result<(PkgInfo, Payload), ReadError>)
    ensures
        match r {
            Ok((info, payload)) => package_in(data@, keep_pyc) == Ok::<_, ReadFault>(
                (info@, payload@),
            ),
            Err(e) => package_in(data@, keep_pyc) == Err::<(InfoModel, PayloadModel), _>(e@),
        },
        r is Ok ==> all_names_decode(external::package_items(data@)->0),
{
    if data.len() < 4 {
        return Err(ReadError::TooShort);
    }
    let magic = slice_to_vec(vstd::slice::slice_subrange(data, 0, 4));
    if !(magic[0] == 0x28 && magic[1] == 0xb5 && magic[2] == 0x2f && magic[3] == 0xfd) {
        proof {
            assert(magic@ == data@.take(4));
            assert(magic@[0] != zstd_magic()[0] || magic@[1] != zstd_magic()[1] || magic@[2]
                != zstd_magic()[2] || magic@[3] != zstd_magic()[3]);
        }
        return Err(ReadError::NotZstd(magic));
    }
    proof {
        assert(data@.take(4) =~= zstd_magic());
    }
    match external::read_package(data) {
        Ok(items) => collect_package(items, keep_pyc),
        Err(e) => Err(ReadError::Archive(e)),
    }
}

} // verus!
