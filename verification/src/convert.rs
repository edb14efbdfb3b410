//! Making a wheel of a package.
use crate::chars;
use crate::egg;
use crate::egg::EggError;
use crate::external;
use crate::laws::eggs;
use crate::laws::members;
use crate::package;
use crate::package::{FileEntry, Payload, PkgInfo, ReadError};
use crate::paths;
use crate::sorted_map::SortedMap;
use crate::text;
use crate::wheel;
use crate::wheel::WheelError;
use vstd::prelude::*;
use vstd::slice::slice_to_vec;
use vstd::utf8;

verus! {

/// Why a package cannot be made into a wheel.
#[derive(Debug)]
pub enum ConvertError {
    Read(ReadError),
    /// Nothing is installed under `site-packages`.
    NoPayload,
    Egg(EggError),
    /// No `.dist-info` directory.
    NoDistInfo,
    /// More than one `.dist-info` directory.
    ManyDistInfo(Vec<String>),
    /// The `.dist-info` directory does not name a project and a version.
    BadDistInfoName,
    /// The `.dist-info` directory has no `WHEEL` file.
    NoWheelFile,
    Wheel(WheelError),
    /// The path of a file is longer than a zip archive can hold.
    NameTooLong(String),
    Zip(zip::result::ZipError),
}

/// What a [`ConvertError`] says.
pub enum ConvertFault {
    Read(package::ReadFault),
    NoPayload,
    Egg(egg::EggFault),
    NoDistInfo,
    ManyDistInfo(Seq<Seq<char>>),
    BadDistInfoName,
    NoWheelFile,
    Wheel(wheel::WheelFault),
    NameTooLong(Seq<char>),
    Zip,
}

impl View for ConvertError {
    type V = ConvertFault;

    open spec fn view(&self) -> ConvertFault {
        match self {
            ConvertError::Read(e) => ConvertFault::Read(e@),
            ConvertError::NoPayload => ConvertFault::NoPayload,
            ConvertError::Egg(e) => ConvertFault::Egg(e@),
            ConvertError::NoDistInfo => ConvertFault::NoDistInfo,
            ConvertError::ManyDistInfo(dirs) => ConvertFault::ManyDistInfo(text::strings(dirs@)),
            ConvertError::BadDistInfoName => ConvertFault::BadDistInfoName,
            ConvertError::NoWheelFile => ConvertFault::NoWheelFile,
            ConvertError::Wheel(e) => ConvertFault::Wheel(e@),
            ConvertError::NameTooLong(path) => ConvertFault::NameTooLong(path@),
            ConvertError::Zip(_) => ConvertFault::Zip,
        }
    }
}

// ---------------------------------------------------------------------------
// The dist-info directory
// ---------------------------------------------------------------------------

/// Without the members that repeat the one before them.
pub open spec fn dedup(parts: Seq<Seq<char>>) -> Seq<Seq<char>>
    decreases parts.len(),
{
    if parts.len() == 0 {
        seq![]
    } else {
        let before = dedup(parts.drop_last());
        if before.len() > 0 && before.last() == parts.last() {
            before
        } else {
            before.push(parts.last())
        }
    }
}

/// The dist-info directories of a payload, in the order of its paths.
pub open spec fn dist_info_dirs(files: Map<Seq<char>, package::FileModel>) -> Seq<Seq<char>> {
    dedup(paths::dirs_with(text::in_order(files.dom()), ".dist-info"@))
}

/// See [`dist_info_dirs`].
fn find_dist_info_dirs(files: &SortedMap<FileEntry>) -> (r: Vec<String>)
    ensures
        text::strings(r@) == dist_info_dirs(files@),
{
    let suffix = chars::chars_of(".dist-info");
    let total: usize = files.len();
    let mut out: Vec<String> = Vec::new();
    let mut last: Vec<char> = Vec::new();
    let mut i: usize = 0;
    let ghost order = files.order();
    proof {
        assert(text::strings(out@) =~= dedup(paths::dirs_with(order.take(0), ".dist-info"@)));
    }
    while i < total
        invariant
            i <= total,
            total == order.len(),
            order == files.order(),
            suffix@ == ".dist-info"@,
            text::strings(out@) == dedup(
                paths::dirs_with(order.take(i as int), ".dist-info"@),
            ),
            out@.len() > 0 ==> last@ == text::strings(out@).last(),
        decreases total - i,
    {
        proof {
            assert(order.take(i + 1).drop_last() =~= order.take(i as int));
            assert(order.take(i + 1).last() == order[i as int]);
        }
        if let Some(d) = paths::find_dir_with(files.key_at(i), &suffix) {
            let ghost before = text::strings(out@);
            proof {
                let found = paths::dirs_with(order.take(i as int), ".dist-info"@);
                assert(found.push(d@).drop_last() =~= found);
            }
            if out.len() == 0 || !chars::same(&last, d) {
                out.push(chars::string_of(d));
                last = chars::copy_of(d);
                proof {
                    assert(text::strings(out@) =~= before.push(d@));
                }
            }
        }
        i = i + 1;
    }
    proof {
        assert(order.take(total as int) =~= order);
    }
    out
}

// ---------------------------------------------------------------------------
// The members of the wheel
// ---------------------------------------------------------------------------

/// A file of a wheel.
pub struct Member {
    pub path: String,
    pub permissions: u32,
    pub data: Vec<u8>,
}

/// What the members of a wheel are: their paths, permissions and contents.
pub open spec fn member_models(members: Seq<Member>) -> Seq<(Seq<char>, u32, Seq<u8>)> {
    members.map_values(|m: Member| (m.path@, m.permissions, m.data@))
}

/// The files of a dist-info directory that belong to the installer, or that are written
/// anew.
pub open spec fn is_replaced_name(name: Seq<char>) -> bool {
    ||| name == "RECORD"@
    ||| name == "RECORD.jws"@
    ||| name == "RECORD.p7s"@
    ||| name == "INSTALLER"@
    ||| name == "REQUESTED"@
    ||| name == "direct_url.json"@
    ||| name == "WHEEL"@
}

/// See [`is_replaced_name`], of a path.
pub open spec fn is_replaced(path: Seq<char>, dist: Seq<char>) -> bool {
    match text::strip_prefix(path, dist + "/"@) {
        Some(name) => is_replaced_name(name),
        None => false,
    }
}

/// The permissions of a file of a wheel: executable for all, or for none.
pub open spec fn permissions(mode: u32) -> u32 {
    if mode & 0o111 != 0 {
        0o755
    } else {
        0o644
    }
}

/// The members that the files of a payload, in the order of their paths, become.
pub open spec fn payload_members(
    files: Map<Seq<char>, package::FileModel>,
    order: Seq<Seq<char>>,
    dist: Seq<char>,
) -> Seq<(Seq<char>, u32, Seq<u8>)>
    decreases order.len(),
{
    if order.len() == 0 {
        seq![]
    } else {
        let before = payload_members(files, order.drop_last(), dist);
        let path = order.last();
        if is_replaced(path, dist) {
            before
        } else {
            before.push((path, permissions(files[path].mode), files[path].data))
        }
    }
}

/// What `RECORD` says of a file with the given digest and size.
pub open spec fn record_fields(path: Seq<char>, digest: Seq<u8>, size: nat) -> Seq<char> {
    path + ",sha256="@ + external::base64_url(digest) + ","@ + text::decimal(size)
}

/// What `RECORD` says of a file.
pub open spec fn record_entry(path: Seq<char>, data: Seq<u8>) -> Seq<char> {
    record_fields(path, external::sha256(data), data.len())
}

/// The line of `RECORD` for a file.
pub open spec fn record_line(path: Seq<char>, data: Seq<u8>) -> Seq<char> {
    record_entry(path, data) + "\n"@
}

/// The lines of `RECORD` for some members.
pub open spec fn record_lines(members: Seq<(Seq<char>, u32, Seq<u8>)>) -> Seq<char>
    decreases members.len(),
{
    if members.len() == 0 {
        seq![]
    } else {
        record_lines(members.drop_last()) + record_line(members.last().0, members.last().2)
    }
}

/// The members that `RECORD` lists with a digest: the files of the payload and the new
/// `WHEEL` file.
pub open spec fn listed_members(
    files: Map<Seq<char>, package::FileModel>,
    dist: Seq<char>,
    wheel_file: Seq<char>,
) -> Seq<(Seq<char>, u32, Seq<u8>)> {
    payload_members(files, text::in_order(files.dom()), dist).push(
        (paths::path_in(dist, "WHEEL"@), 0o644u32, utf8::encode_utf8(wheel_file)),
    )
}

/// The `RECORD` file of a wheel, which lists itself without a digest.
pub open spec fn record_text(
    listed: Seq<(Seq<char>, u32, Seq<u8>)>,
    dist: Seq<char>,
) -> Seq<char> {
    record_lines(listed) + dist + "/RECORD,,\n"@
}

/// The members of a wheel.
pub open spec fn wheel_members(
    files: Map<Seq<char>, package::FileModel>,
    dist: Seq<char>,
    wheel_file: Seq<char>,
) -> Seq<(Seq<char>, u32, Seq<u8>)> {
    let listed = listed_members(files, dist, wheel_file);
    listed.push(
        (paths::path_in(dist, "RECORD"@), 0o644u32, utf8::encode_utf8(record_text(listed, dist))),
    )
}

/// The file name of a wheel.
pub open spec fn wheel_name(name: Seq<char>, version: Seq<char>, tag: Seq<char>) -> Seq<char> {
    text::replace_char(name, '-', '_') + "-"@ + version + "-"@ + tag + ".whl"@
}

/// See [`is_replaced_name`].
fn replaced_name(name: &[char]) -> (r: bool)
    ensures
        r == is_replaced_name(name@),
{
    is_text(name, "RECORD") || is_text(name, "RECORD.jws") || is_text(name, "RECORD.p7s")
        || is_text(name, "INSTALLER") || is_text(name, "REQUESTED") || is_text(
        name,
        "direct_url.json",
    ) || is_text(name, "WHEEL")
}

/// The characters are those of the string.
fn is_text(s: &[char], t: &str) -> (r: bool)
    ensures
        r == (s@ == t@),
{
    let cs = chars::chars_of(t);
    chars::same(s, &cs)
}

/// See [`permissions`].
fn permissions_of(mode: u32) -> (r: u32)
    ensures
        r == permissions(mode),
{
    if mode & 0o111 != 0 {
        0o755
    } else {
        0o644
    }
}

/// Writes what `RECORD` says of a file with the given SHA-256 digest and size.
pub fn describe_file(path: &[char], digest: &[u8], size: u64) -> (r: Vec<char>)
    requires
        digest@.len() <= usize::MAX / 4,
    ensures
        r@ == record_fields(path@, digest@, size as nat),
{
    let mut out = chars::copy_of(path);
    chars::extend_str(&mut out, ",sha256=");
    chars::extend_str(&mut out, &external::base64_encode(digest));
    chars::extend_str(&mut out, ",");
    chars::extend(&mut out, &chars::decimal(size));
    out
}

/// Appends the line of `RECORD` for a file.
fn push_record_line(out: &mut Vec<char>, path: &[char], data: &[u8])
    ensures
        final(out)@ == old(out)@ + record_line(path@, data@),
{
    let digest = external::sha256_digest(data);
    let entry = describe_file(path, &digest, data.len() as u64);
    chars::extend(out, &entry);
    chars::extend_str(out, "\n");
    proof {
        assert(out@ =~= old(out)@ + record_line(path@, data@));
    }
}

/// Lays out the members of a wheel.
pub fn lay_out(files: SortedMap<FileEntry>, dist: &str, wheel_file: &str) -> (r: Vec<Member>)
    ensures
        member_models(r@) == wheel_members(files@, dist@, wheel_file@),
{
    let ghost order = files.order();
    let ghost model = files@;
    let dist_chars = chars::chars_of(dist);
    let prefix = paths::make_path(&dist_chars, "");
    proof {
        reveal_strlit("");
        assert(prefix@ =~= dist@ + "/"@);
    }
    let mut members: Vec<Member> = Vec::new();
    let mut record: Vec<char> = Vec::new();
    let mut rest = files.into_entries();
    let total: usize = rest.len();
    let ghost entries = rest@;
    package::reverse(&mut rest);
    let mut done: usize = 0;
    proof {
        assert(member_models(members@) =~= payload_members(model, order.take(0), dist@));
        assert(record@ =~= record_lines(member_models(members@)));
    }
    while done < total
        invariant
            done <= total,
            total == order.len(),
            total == entries.len(),
            rest@.len() == total - done,
            forall|k: int| 0 <= k < rest@.len() ==> #[trigger] rest@[k] == entries[total - 1 - k],
            forall|i: int|
                0 <= i < entries.len() ==> {
                    &&& (#[trigger] entries[i]).0@ == order[i]
                    &&& entries[i].1@ == model[order[i]]
                },
            prefix@ == dist@ + "/"@,
            member_models(members@) == payload_members(model, order.take(done as int), dist@),
            record@ == record_lines(member_models(members@)),
        decreases total - done,
    {
        proof {
            assert(order.take(done + 1).drop_last() =~= order.take(done as int));
            assert(order.take(done + 1).last() == order[done as int]);
            assert(rest@.last() == entries[done as int]);
        }
        if let Some((path, file)) = rest.pop() {
            let replaced = match chars::strip_prefix(&path, &prefix) {
                Some(name) => replaced_name(name),
                None => false,
            };
            if !replaced {
                push_record_line(&mut record, &path, &file.data);
                let ghost before = member_models(members@);
                let member = Member {
                    path: chars::string_of(&path),
                    permissions: permissions_of(file.mode),
                    data: file.data,
                };
                members.push(member);
                proof {
                    let now = before.push((member.path@, member.permissions, member.data@));
                    assert(member_models(members@) =~= now);
                    assert(now.drop_last() =~= before);
                }
            }
        }
        done = done + 1;
    }
    proof {
        assert(order.take(total as int) =~= order);
    }
    let wheel_path = paths::make_path(&dist_chars, "WHEEL");
    let wheel_data = slice_to_vec(wheel_file.as_bytes());
    push_record_line(&mut record, &wheel_path, &wheel_data);
    let ghost listed = listed_members(model, dist@, wheel_file@);
    let ghost before = member_models(members@);
    members.push(
        Member { path: chars::string_of(&wheel_path), permissions: 0o644, data: wheel_data },
    );
    proof {
        assert(member_models(members@) =~= listed);
        assert(listed.drop_last() =~= before);
        assert(record@ == record_lines(listed));
    }
    chars::extend(&mut record, &dist_chars);
    chars::extend_str(&mut record, "/RECORD,,\n");
    let record_file = chars::string_of(&record);
    let record_path = paths::make_path(&dist_chars, "RECORD");
    members.push(
        Member {
            path: chars::string_of(&record_path),
            permissions: 0o644,
            data: slice_to_vec(record_file.as_str().as_bytes()),
        },
    );
    proof {
        assert(member_models(members@) =~= wheel_members(model, dist@, wheel_file@));
    }
    members
}

// ---------------------------------------------------------------------------
// The wheel
// ---------------------------------------------------------------------------

/// What a wheel is to be.
pub struct WheelPlan {
    pub file_name: String,
    pub members: Vec<Member>,
    /// The files of the package that are not under `site-packages`.
    pub skipped: Vec<String>,
    /// What could not be taken in under `site-packages`.
    pub lost: Vec<String>,
}

/// What a [`WheelPlan`] holds.
pub struct PlanModel {
    pub file_name: Seq<char>,
    pub members: Seq<(Seq<char>, u32, Seq<u8>)>,
    pub skipped: Seq<Seq<char>>,
    pub lost: Seq<Seq<char>>,
}

impl View for WheelPlan {
    type V = PlanModel;

    open spec fn view(&self) -> PlanModel {
        PlanModel {
            file_name: self.file_name@,
            members: member_models(self.members@),
            skipped: text::strings(self.skipped@),
            lost: text::strings(self.lost@),
        }
    }
}

/// There is a dist-info directory.
pub open spec fn has_dist_info(files: Map<Seq<char>, package::FileModel>) -> bool {
    exists|p: Seq<char>|
        files.contains_key(p) && paths::dir_with(p, ".dist-info"@) is Some
}

/// The files of a payload in the dist-info layout.
pub open spec fn dist_info_layout(payload: package::PayloadModel) -> Result<
    Map<Seq<char>, package::FileModel>,
    ConvertFault,
> {
    if has_dist_info(payload.files) {
        Ok(payload.files)
    } else {
        match egg::egg_converted(payload).1 {
            Ok(_) => Ok(egg::egg_converted(payload).0),
            Err(fault) => Err(ConvertFault::Egg(fault)),
        }
    }
}

/// The project name and version that a dist-info directory names.
pub open spec fn name_and_version(dist: Seq<char>) -> Option<(Seq<char>, Seq<char>)> {
    text::rsplit_once(text::trim_end_matches(dist, ".dist-info"@), '-')
}

/// The file name and the members of the wheel of a dist-info payload.
pub open spec fn wheel_of(files: Map<Seq<char>, package::FileModel>, platform: Seq<char>) -> Result<
    (Seq<char>, Seq<(Seq<char>, u32, Seq<u8>)>),
    ConvertFault,
> {
    let dirs = dist_info_dirs(files);
    if dirs.len() == 0 {
        Err(ConvertFault::NoDistInfo)
    } else if dirs.len() > 1 {
        Err(ConvertFault::ManyDistInfo(dirs))
    } else {
        let dist = dirs[0];
        let wheel_path = paths::path_in(dist, "WHEEL"@);
        match name_and_version(dist) {
            None => Err(ConvertFault::BadDistInfoName),
            Some((name, version)) => if !files.contains_key(wheel_path) {
                Err(ConvertFault::NoWheelFile)
            } else {
                match wheel::restamped(external::utf8_lossy(files[wheel_path].data), platform) {
                    Err(fault) => Err(ConvertFault::Wheel(fault)),
                    Ok((wheel_file, tag)) => Ok(
                        (
                            wheel_name(name, version, tag),
                            wheel_members(files, dist, wheel_file),
                        ),
                    ),
                }
            },
        }
    }
}

/// The `WHEEL` file of a dist-info payload is the text that it encodes, where it is valid UTF-8.
pub open spec fn wheel_file_decodes(files: Map<Seq<char>, package::FileModel>) -> bool {
    let dirs = dist_info_dirs(files);
    let wheel_path = paths::path_in(dirs[0], "WHEEL"@);
    dirs.len() == 1 && name_and_version(dirs[0]) is Some && files.contains_key(wheel_path)
        ==> external::decodes(files[wheel_path].data)
}

/// The files of a payload that are read as text are the texts that they encode, where they are
/// valid UTF-8.
pub open spec fn payload_decodes(payload: package::PayloadModel) -> bool {
    payload.files != Map::<Seq<char>, package::FileModel>::empty() ==> {
        &&& !has_dist_info(payload.files) ==> egg::metadata_decodes(payload.files)
        &&& match dist_info_layout(payload) {
            Ok(files) => wheel_file_decodes(files),
            Err(_) => true,
        }
    }
}

/// An egg-info payload that can be converted: the python version that extension modules are for
/// can stand in a tag, and the directory still names a project and a version once it ends with
/// `.dist-info`.
pub open spec fn is_good_egg(payload: package::PayloadModel) -> bool {
    &&& !has_dist_info(payload.files)
    &&& exists|dir: Seq<char>, dist: Seq<char>, tag: Seq<char>|
        {
            &&& #[trigger] egg::converts(payload, dir, dist, tag)
            &&& name_and_version(dist) is Some
            &&& egg::is_compiled(egg::without_metadata(payload.files, dir)) ==> egg::fits_tag(
                payload.pyver->0,
            )
        }
}

/// The wheel that a payload becomes.
pub open spec fn planned(payload: package::PayloadModel, platform: Seq<char>) -> Result<
    PlanModel,
    ConvertFault,
> {
    if payload.files == Map::<Seq<char>, package::FileModel>::empty() {
        Err(ConvertFault::NoPayload)
    } else {
        match dist_info_layout(payload) {
            Err(fault) => Err(fault),
            Ok(files) => match wheel_of(files, platform) {
                Err(fault) => Err(fault),
                Ok((file_name, members)) => Ok(
                    PlanModel {
                        file_name,
                        members,
                        skipped: payload.skipped,
                        lost: payload.lost,
                    },
                ),
            },
        }
    }
}

/// See [`has_dist_info`].
fn finds_dist_info(files: &SortedMap<FileEntry>) -> (r: bool)
    ensures
        r == has_dist_info(files@),
{
    let suffix = chars::chars_of(".dist-info");
    let total: usize = files.len();
    let mut i: usize = 0;
    while i < total
        invariant
            i <= total,
            total == files.order().len(),
            text::is_order(files.order(), files@.dom()),
            suffix@ == ".dist-info"@,
            forall|k: int|
                0 <= k < i ==> paths::dir_with(
                    #[trigger] files.order()[k],
                    ".dist-info"@,
                ) is None,
        decreases total - i,
    {
        if let Some(_) = paths::find_dir_with(files.key_at(i), &suffix) {
            proof {
                assert(files.order().contains(files.order()[i as int]));
            }
            return true;
        }
        i = i + 1;
    }
    proof {
        if has_dist_info(files@) {
            let p = choose|p: Seq<char>|
                files@.contains_key(p) && paths::dir_with(p, ".dist-info"@) is Some;
            assert(files.order().contains(p));
        }
    }
    false
}

/// See [`wheel_name`].
fn make_wheel_name(name: &[char], version: &[char], tag: &str) -> (r: String)
    ensures
        r@ == wheel_name(name@, version@, tag@),
{
    let mut out = chars::replace_char(name, '-', '_');
    chars::extend_str(&mut out, "-");
    chars::extend(&mut out, version);
    chars::extend_str(&mut out, "-");
    chars::extend_str(&mut out, tag);
    chars::extend_str(&mut out, ".whl");
    chars::string_of(&out)
}

/// See [`wheel_of`].
fn make_wheel(files: SortedMap<FileEntry>, platform_tag: &str) -> (r: Result<
    (String, Vec<Member>),
    ConvertError,
>)
    ensures
        match r {
            Ok((name, members)) => wheel_of(files@, platform_tag@) == Ok::<_, ConvertFault>(
                (name@, member_models(members@)),
            ),
            Err(e) => wheel_of(files@, platform_tag@) == Err::<
                (Seq<char>, Seq<(Seq<char>, u32, Seq<u8>)>),
                _,
            >(e@),
        },
        wheel_file_decodes(files@),
{
    let mut dirs = find_dist_info_dirs(&files);
    proof {
        assert(dirs@.len() == dist_info_dirs(files@).len());
    }
    if dirs.len() > 1 {
        return Err(ConvertError::ManyDistInfo(dirs));
    }
    let dist = match dirs.pop() {
        Some(d) => d,
        None => {
            return Err(ConvertError::NoDistInfo);
        },
    };
    proof {
        assert(text::strings(seq![dist])[0] == dist@);
        assert(dist_info_dirs(files@)[0] == dist@);
    }
    let dist_chars = chars::chars_of(&dist);
    let suffix = chars::chars_of(".dist-info");
    let stem = chars::trim_end_matches(&dist_chars, &suffix);
    match chars::rsplit_once(stem, '-') {
        None => Err(ConvertError::BadDistInfoName),
        Some((name, version)) => {
            let wheel_path = paths::make_path(&dist_chars, "WHEEL");
            let content = match files.get(&wheel_path) {
                Some(f) => external::from_utf8_lossy(&f.data),
                None => {
                    return Err(ConvertError::NoWheelFile);
                },
            };
            match wheel::restamp_wheel(&content, platform_tag) {
                Err(e) => Err(ConvertError::Wheel(e)),
                Ok((wheel_file, tag)) => {
                    let file_name = make_wheel_name(name, version, &tag);
                    Ok((file_name, lay_out(files, &dist, &wheel_file)))
                },
            }
        },
    }
}

/// Plans the wheel of a payload for a platform. An egg-info payload that can be converted
/// becomes a wheel.
pub fn plan_wheel(payload: Payload, platform_tag: &str) -> (r: Result<WheelPlan, ConvertError>)
    ensures
        match r {
            Ok(plan) => planned(payload@, platform_tag@) == Ok::<_, ConvertFault>(plan@),
            Err(e) => planned(payload@, platform_tag@) == Err::<PlanModel, _>(e@),
        },
        payload_decodes(payload@),
        is_good_egg(payload@) ==> r is Ok,
{
    let ghost model = payload@;
    let mut payload = payload;
    let total: usize = payload.files.len();
    proof {
        if total == 0 {
            assert(payload.files@ =~= Map::empty()) by {
                assert forall|p: Seq<char>| !payload.files@.contains_key(p) by {
                    assert(!payload.files.order().contains(p));
                }
            }
        } else {
            assert(payload.files.order().contains(payload.files.order()[0]));
        }
    }
    if total == 0 {
        return Err(ConvertError::NoPayload);
    }
    if !finds_dist_info(&payload.files) {
        match egg::egg_info_to_dist_info(&mut payload) {
            Ok(_) => {},
            Err(e) => {
                return Err(ConvertError::Egg(e));
            },
        }
    }
    let Payload { files, skipped, lost, pyver: _ } = payload;
    proof {
        text::lemma_order_finite(text::in_order(model.files.dom()), model.files.dom());
        if is_good_egg(model) {
            lemma_good_egg(model, platform_tag@);
        }
    }
    match make_wheel(files, platform_tag) {
        Ok((file_name, members)) => Ok(WheelPlan { file_name, members, skipped, lost }),
        Err(e) => Err(e),
    }
}

/// The wheel of an egg-info payload that can be converted, once its `WHEEL` file is the text
/// that it encodes.
proof fn lemma_good_egg(payload: package::PayloadModel, platform: Seq<char>)
    requires
        payload.files.dom().finite(),
        is_good_egg(payload),
    ensures
        payload.files != Map::<Seq<char>, package::FileModel>::empty(),
        dist_info_layout(payload) matches Ok(files) && (wheel_file_decodes(files) ==> wheel_of(
            files,
            platform,
        ) is Ok),
{
    let (dir, dist, tag) = choose|dir: Seq<char>, dist: Seq<char>, tag: Seq<char>|
        {
            &&& #[trigger] egg::converts(payload, dir, dist, tag)
            &&& name_and_version(dist) is Some
            &&& egg::is_compiled(egg::without_metadata(payload.files, dir)) ==> egg::fits_tag(
                payload.pyver->0,
            )
        };
    let compiled = egg::is_compiled(egg::without_metadata(payload.files, dir));
    let content = egg::wheel_text(compiled, tag);
    eggs::lemma_dist_info_made(payload, dir, dist, tag);
    eggs::lemma_one_dist_info(payload, dir, dist, tag);
    eggs::lemma_made_wheel_restamps(compiled, payload.pyver, tag, platform);
    utf8::encode_utf8_valid_utf8(content);
    utf8::encode_utf8_decode_utf8(content);
}

/// The path is short enough for a zip archive.
pub open spec fn fits(path: Seq<char>) -> bool {
    utf8::encode_utf8(path).len() <= 0xffff
}

/// The number that the zip format has for deflate.
pub const DEFLATED: u16 = 8;

/// The members as a zip archive holds them: deflated.
pub open spec fn deflated(members: Seq<(Seq<char>, u32, Seq<u8>)>) -> Seq<
    (Seq<char>, u16, u32, Seq<u8>),
> {
    members.map_values(|m: (Seq<char>, u32, Seq<u8>)| (m.0, DEFLATED, m.1, m.2))
}

/// A zip archive takes in the member after those before it.
pub open spec fn is_accepted(members: Seq<(Seq<char>, u32, Seq<u8>)>, k: int) -> bool {
    external::zip_accepts(
        deflated(members).take(k),
        members[k].0,
        DEFLATED,
        members[k].1,
        members[k].2,
    )
}

/// The members can be packed: a zip archive takes in each of them in turn, and can be brought to
/// its end with all of them.
pub open spec fn can_be_packed(members: Seq<(Seq<char>, u32, Seq<u8>)>) -> bool {
    &&& forall|k: int| 0 <= k < members.len() ==> #[trigger] is_accepted(members, k)
    &&& external::zip_completes(deflated(members))
}

/// Packs the members of a wheel into a zip archive, deflated. Members that cannot be packed, two with the
/// same path among them, are an error, and nothing else is.
pub fn pack_wheel(members: &Vec<Member>) -> (r: Result<Vec<u8>, zip::result::ZipError>)
    requires
        forall|i: int|
            0 <= i < members@.len() ==> fits((#[trigger] members@[i]).path@)
                && members@[i].permissions <= 0o777,
    ensures
        match r {
            Ok(archive) => {
                &&& can_be_packed(member_models(members@))
                &&& text::all_different(members::member_paths(member_models(members@)))
                &&& external::zip_members(archive@) == deflated(member_models(members@))
            },
            Err(_) => !can_be_packed(member_models(members@)),
        },
{
    let mut archive = external::zip_new();
    let mut i: usize = 0;
    let ghost all = member_models(members@);
    let ghost packed = deflated(all);
    proof {
        assert(external::zip_written(archive) =~= packed.take(0));
    }
    while i < members.len()
        invariant
            i <= members.len(),
            all == member_models(members@),
            packed == deflated(all),
            forall|k: int|
                0 <= k < members@.len() ==> fits((#[trigger] members@[k]).path@)
                    && members@[k].permissions <= 0o777,
            external::zip_written(archive) == packed.take(i as int),
            forall|k: int| 0 <= k < i ==> #[trigger] is_accepted(all, k),
            forall|j: int, k: int| 0 <= j < k < i ==> (#[trigger] all[j]).0 != (#[trigger] all[k]).0,
        decreases members.len() - i,
    {
        let m = &members[i];
        let ghost written = packed.take(i as int);
        proof {
            assert(all[i as int] == (m.path@, m.permissions, m.data@));
            assert(is_accepted(all, i as int) == external::zip_accepts(
                written,
                m.path@,
                DEFLATED,
                m.permissions,
                m.data@,
            ));
        }
        match external::zip_add(archive, &m.path, DEFLATED, m.permissions, &m.data) {
            Ok(a) => {
                archive = a;
            },
            Err(e) => {
                return Err(e);
            },
        }
        proof {
            assert(packed.take(i + 1) =~= written.push(packed[i as int]));
            assert forall|j: int| 0 <= j < i implies (#[trigger] all[j]).0 != all[i as int].0 by {
                assert(written[j].0 == all[j].0);
            }
        }
        i = i + 1;
    }
    proof {
        assert(packed.take(members.len() as int) =~= packed);
        let names = members::member_paths(all);
        assert forall|j: int, k: int| 0 <= j < k < names.len() implies names[j] != names[k] by {
            assert(all[j].0 != all[k].0);
        }
    }
    external::zip_finish(archive)
}

/// The member is the first whose path is too long for a zip archive.
pub open spec fn first_too_long(members: Seq<(Seq<char>, u32, Seq<u8>)>, i: int) -> bool {
    &&& 0 <= i < members.len()
    &&& !fits(members[i].0)
    &&& forall|k: int| 0 <= k < i ==> fits((#[trigger] members[k]).0)
}

/// The path is the first that is too long for a zip archive.
pub open spec fn is_first_too_long(
    members: Seq<(Seq<char>, u32, Seq<u8>)>,
    path: Seq<char>,
) -> bool {
    exists|i: int| #[trigger] first_too_long(members, i) && members[i].0 == path
}

/// All paths are short enough for a zip archive.
pub open spec fn all_fit(members: Seq<(Seq<char>, u32, Seq<u8>)>) -> bool {
    forall|k: int| 0 <= k < members.len() ==> fits((#[trigger] members[k]).0)
}

/// Finds the first path that is too long for a zip archive.
fn find_too_long(members: &Vec<Member>) -> (r: Option<usize>)
    ensures
        match r {
            Some(i) => first_too_long(member_models(members@), i as int),
            None => all_fit(member_models(members@)),
        },
{
    let ghost all = member_models(members@);
    let mut i: usize = 0;
    while i < members.len()
        invariant
            i <= members.len(),
            all == member_models(members@),
            forall|k: int| 0 <= k < i ==> fits((#[trigger] all[k]).0),
        decreases members.len() - i,
    {
        proof {
            assert(all[i as int].0 == members@[i as int].path@);
        }
        if members[i].path.as_str().as_bytes().len() > 0xffff {
            return Some(i);
        }
        i = i + 1;
    }
    None
}

/// A package made into a wheel.
pub struct Converted {
    pub info: PkgInfo,
    /// The files of the package that are not under `site-packages`.
    pub skipped: Vec<String>,
    /// What could not be taken in under `site-packages`.
    pub lost: Vec<String>,
    pub file_name: String,
    /// The wheel: a zip archive.
    pub archive: Vec<u8>,
}

/// The wheel that the bytes of a package file become.
pub open spec fn conversion(data: Seq<u8>, platform: Seq<char>, keep_pyc: bool) -> Result<
    (package::InfoModel, PlanModel),
    ConvertFault,
> {
    match package::package_in(data, keep_pyc) {
        Err(fault) => Err(ConvertFault::Read(fault)),
        Ok((info, payload)) => match planned(payload, platform) {
            Err(fault) => Err(fault),
            Ok(plan) => Ok((info, plan)),
        },
    }
}

/// Makes a wheel of the bytes of a package file.
///
/// Where the wheel can be planned and its paths fit, it is made exactly where its members can
/// be packed.
pub fn convert(data: &[u8], platform_tag: &str, keep_pyc: bool) -> (r: Result<
    Converted,
    ConvertError,
>)
    ensures
        match r {
            Ok(c) => {
                &&& conversion(data@, platform_tag@, keep_pyc) matches Ok((info, plan))
                &&& all_fit(plan.members)
                &&& can_be_packed(plan.members)
                &&& c.info@ == info
                &&& text::strings(c.skipped@) == plan.skipped
                &&& text::strings(c.lost@) == plan.lost
                &&& c.file_name@ == plan.file_name
                &&& external::zip_members(c.archive@) == deflated(plan.members)
            },
            Err(ConvertError::Zip(_)) => {
                &&& conversion(data@, platform_tag@, keep_pyc) matches Ok((_, plan))
                &&& all_fit(plan.members)
                &&& !can_be_packed(plan.members)
            },
            Err(ConvertError::NameTooLong(path)) => {
                &&& conversion(data@, platform_tag@, keep_pyc) matches Ok((_, plan))
                &&& is_first_too_long(plan.members, path@)
            },
            Err(e) => conversion(data@, platform_tag@, keep_pyc) == Err::<
                (package::InfoModel, PlanModel),
                _,
            >(e@),
        },
        match package::package_in(data@, keep_pyc) {
            Ok((_, payload)) => {
                &&& package::all_names_decode(external::package_items(data@)->0)
                &&& payload_decodes(payload)
            },
            Err(_) => true,
        },
{
    let (info, payload) = match package::read_pkg(data, keep_pyc) {
        Ok(p) => p,
        Err(e) => {
            return Err(ConvertError::Read(e));
        },
    };
    let plan = match plan_wheel(payload, platform_tag) {
        Ok(p) => p,
        Err(e) => {
            proof {
                lemma_planned_faults(payload@, platform_tag@);
            }
            return Err(e);
        },
    };
    if let Some(i) = find_too_long(&plan.members) {
        let path = plan.members[i].path.clone();
        proof {
            assert(first_too_long(plan@.members, i as int));
            assert(plan@.members[i as int].0 == path@);
            assert(is_first_too_long(plan@.members, path@));
        }
        return Err(ConvertError::NameTooLong(path));
    }
    proof {
        lemma_planned_permissions(payload@, platform_tag@);
        assert forall|i: int| 0 <= i < plan.members@.len() implies fits(
            (#[trigger] plan.members@[i]).path@,
        ) && plan.members@[i].permissions <= 0o777 by {
            assert(plan@.members[i] == (
                plan.members@[i].path@,
                plan.members@[i].permissions,
                plan.members@[i].data@,
            ));
        }
    }
    match pack_wheel(&plan.members) {
        Ok(archive) => Ok(
            Converted {
                info,
                skipped: plan.skipped,
                lost: plan.lost,
                file_name: plan.file_name,
                archive,
            },
        ),
        Err(e) => Err(ConvertError::Zip(e)),
    }
}

/// Planning a wheel fails neither for its paths nor for its archive.
proof fn lemma_planned_faults(payload: package::PayloadModel, platform: Seq<char>)
    ensures
        match planned(payload, platform) {
            Err(fault) => !(fault is Zip) && !(fault is NameTooLong),
            Ok(_) => true,
        },
{
}

/// A wheel gives its files one of two permissions.
proof fn lemma_planned_permissions(payload: package::PayloadModel, platform: Seq<char>)
    ensures
        match planned(payload, platform) {
            Ok(plan) => forall|i: int|
                0 <= i < plan.members.len() ==> (#[trigger] plan.members[i]).1 == 0o644
                    || plan.members[i].1 == 0o755,
            Err(_) => true,
        },
{
    if let Ok(files) = dist_info_layout(payload) {
        let dirs = dist_info_dirs(files);
        if dirs.len() == 1 {
            lemma_payload_permissions(files, text::in_order(files.dom()), dirs[0]);
        }
    }
}

proof fn lemma_payload_permissions(
    files: Map<Seq<char>, package::FileModel>,
    order: Seq<Seq<char>>,
    dist: Seq<char>,
)
    ensures
        forall|i: int|
            0 <= i < payload_members(files, order, dist).len() ==> (#[trigger] payload_members(
                files,
                order,
                dist,
            )[i]).1 == 0o644 || payload_members(files, order, dist)[i].1 == 0o755,
    decreases order.len(),
{
    if order.len() > 0 {
        let before = payload_members(files, order.drop_last(), dist);
        let all = payload_members(files, order, dist);
        lemma_payload_permissions(files, order.drop_last(), dist);
        assert forall|i: int| 0 <= i < all.len() implies (#[trigger] all[i]).1 == 0o644
            || all[i].1 == 0o755 by {
            if i < before.len() {
                assert(all[i] == before[i]);
            }
        }
    }
}

// ---------------------------------------------------------------------------
// What the wheel leaves out
// ---------------------------------------------------------------------------

/// How many left-out files a report names.
pub const NAMED: usize = 10;

/// The first line of a report on files that are not under `site-packages`.
pub open spec fn skipped_head(count: nat) -> Seq<char> {
    "note: "@ + text::decimal(count)
        + " non-site-packages payload file(s) not included (bin/ wrappers are regenerated by the installer):"@
}

/// The first line of a report on what could not be taken in under `site-packages`.
pub open spec fn lost_head(count: nat) -> Seq<char> {
    "note: "@ + text::decimal(count)
        + " site-packages entries not included (neither files nor links to files of the payload):"@
}

/// A report on left-out files: a first line, the first of them, and how many more there are.
pub open spec fn report_of(head: Seq<char>, names: Seq<Seq<char>>) -> Seq<Seq<char>> {
    if names.len() == 0 {
        seq![]
    } else if names.len() <= NAMED {
        seq![head] + names.map_values(|s: Seq<char>| "  "@ + s)
    } else {
        (seq![head] + names.take(NAMED as int).map_values(|s: Seq<char>| "  "@ + s)).push(
            "  ... and "@ + text::decimal((names.len() - NAMED) as nat) + " more"@,
        )
    }
}

/// The lines to print about the files that a wheel leaves out because they are not under
/// `site-packages`.
pub fn skipped_report(skipped: &Vec<String>) -> (r: Vec<String>)
    ensures
        text::strings(r@) == report_of(skipped_head(skipped@.len()), text::strings(skipped@)),
{
    let mut head = chars::chars_of("note: ");
    chars::extend(&mut head, &chars::decimal(skipped.len() as u64));
    chars::extend_str(
        &mut head,
        " non-site-packages payload file(s) not included (bin/ wrappers are regenerated by the installer):",
    );
    report(&head, skipped)
}

/// The lines to print about what a wheel leaves out because it could not be taken in.
pub fn lost_report(lost: &Vec<String>) -> (r: Vec<String>)
    ensures
        text::strings(r@) == report_of(lost_head(lost@.len()), text::strings(lost@)),
{
    let mut head = chars::chars_of("note: ");
    chars::extend(&mut head, &chars::decimal(lost.len() as u64));
    chars::extend_str(
        &mut head,
        " site-packages entries not included (neither files nor links to files of the payload):",
    );
    report(&head, lost)
}

/// See [`report_of`].
fn report(head: &[char], names: &Vec<String>) -> (r: Vec<String>)
    ensures
        text::strings(r@) == report_of(head@, text::strings(names@)),
{
    let mut out: Vec<String> = Vec::new();
    let ghost all = text::strings(names@);
    let total: usize = names.len();
    if total == 0 {
        proof {
            assert(text::strings(out@) =~= seq![]);
        }
        return out;
    }
    out.push(chars::string_of(head));
    let named: usize = if total <= NAMED {
        total
    } else {
        NAMED
    };
    let ghost line = |s: Seq<char>| "  "@ + s;
    let mut i: usize = 0;
    proof {
        assert(text::strings(out@) =~= seq![head@] + all.take(0).map_values(line));
    }
    while i < named
        invariant
            i <= named <= total,
            total == names.len(),
            all == text::strings(names@),
            line == (|s: Seq<char>| "  "@ + s),
            text::strings(out@) == seq![head@] + all.take(i as int).map_values(line),
        decreases named - i,
    {
        let mut entry = chars::chars_of("  ");
        chars::extend_str(&mut entry, &names[i]);
        let ghost before = text::strings(out@);
        out.push(chars::string_of(&entry));
        proof {
            assert(all[i as int] == names@[i as int]@);
            assert(text::strings(out@) =~= before.push(line(all[i as int])));
            assert(all.take(i + 1).map_values(line) =~= all.take(i as int).map_values(line).push(
                line(all[i as int]),
            ));
            assert(text::strings(out@) =~= seq![head@] + all.take(i + 1).map_values(line));
        }
        i = i + 1;
    }
    if total > NAMED {
        let mut rest = chars::chars_of("  ... and ");
        let left: usize = total - NAMED;
        chars::extend(&mut rest, &chars::decimal(left as u64));
        chars::extend_str(&mut rest, " more");
        let ghost before = text::strings(out@);
        out.push(chars::string_of(&rest));
        proof {
            assert(text::strings(out@) =~= before.push(
                "  ... and "@ + text::decimal(left as nat) + " more"@,
            ));
        }
    } else {
        proof {
            assert(all.take(total as int) =~= all);
        }
    }
    out
}

} // verus!
