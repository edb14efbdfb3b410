//! What a wheel is of a payload: its name, its members, their permissions, and `RECORD`.
use crate::convert;
use crate::egg;
use crate::external;
use crate::laws::eggs;
use crate::laws::members;
use crate::laws::texts;
use crate::package;
use crate::paths;
use crate::text;
use crate::wheel;
use vstd::prelude::*;
use vstd::utf8;

verus! {

// ---------------------------------------------------------------------------
// Directories
// ---------------------------------------------------------------------------

/// A path in a directory, as a text.
proof fn lemma_path_text(dir: Seq<char>, rest: Seq<char>)
    requires
        !dir.contains('/'),
    ensures
        paths::dir_of(dir + "/"@ + rest) == Some(dir),
{
    reveal_strlit("/");
    assert("/"@ =~= seq!['/']);
    texts::lemma_split_once_char(dir, '/', rest);
}

/// The first directory of a path, as a text.
proof fn lemma_dir_text(path: Seq<char>)
    ensures
        match paths::dir_of(path) {
            Some(dir) => !dir.contains('/') && exists|rest: Seq<char>|
                path == #[trigger] (dir + "/"@ + rest),
            None => true,
        },
{
    paths::lemma_dir_of(path);
    texts::lemma_split_once(path, "/"@);
}

/// A path in a dist-info directory.
proof fn lemma_dist_path(stem: Seq<char>, name: Seq<char>)
    requires
        !stem.contains('/'),
    ensures
        paths::dir_with(stem + ".dist-info/"@ + name, ".dist-info"@) == Some(
            stem + ".dist-info"@,
        ),
        !(stem + ".dist-info"@).contains('/'),
{
    reveal_strlit(".dist-info/");
    reveal_strlit(".dist-info");
    reveal_strlit("/");
    let dist = stem + ".dist-info"@;
    text::lemma_add_contains(stem, ".dist-info"@, '/');
    assert(stem + ".dist-info/"@ + name =~= dist + "/"@ + name);
    lemma_path_text(dist, name);
    texts::lemma_ends_with(dist, ".dist-info"@);
}

/// A path whose directory is a dist-info directory.
proof fn lemma_dist_path_is(path: Seq<char>, dir: Seq<char>)
    requires
        paths::dir_with(path, ".dist-info"@) == Some(dir),
    ensures
        exists|stem: Seq<char>, name: Seq<char>|
            {
                &&& !stem.contains('/')
                &&& dir == stem + ".dist-info"@
                &&& path == #[trigger] (stem + ".dist-info/"@ + name)
            },
{
    reveal_strlit(".dist-info/");
    reveal_strlit(".dist-info");
    reveal_strlit("/");
    lemma_dir_text(path);
    texts::lemma_ends_with(dir, ".dist-info"@);
    let rest = choose|rest: Seq<char>| path == #[trigger] (dir + "/"@ + rest);
    let stem = choose|stem: Seq<char>| dir == #[trigger] (stem + ".dist-info"@);
    text::lemma_add_contains(stem, ".dist-info"@, '/');
    assert(path =~= stem + ".dist-info/"@ + rest);
}

/// The only dist-info directory of a payload.
proof fn lemma_only_dir(
    files: Map<Seq<char>, package::FileModel>,
    stem: Seq<char>,
    name: Seq<char>,
)
    requires
        files.dom().finite(),
        !stem.contains('/'),
        files.contains_key(stem + ".dist-info/"@ + name),
    ensures
        convert::has_dist_info(files),
        convert::dist_info_dirs(files).contains(stem + ".dist-info"@),
        convert::dist_info_dirs(files).len() == 1 ==> convert::dist_info_dirs(files)[0] == stem
            + ".dist-info"@,
{
    lemma_dist_path(stem, name);
    members::lemma_dist_info_dirs(files);
    let p = stem + ".dist-info/"@ + name;
    assert(files.contains_key(p) && paths::dir_with(p, ".dist-info"@) == Some(
        stem + ".dist-info"@,
    ));
    let dirs = convert::dist_info_dirs(files);
    if dirs.len() == 1 {
        let k = choose|k: int| 0 <= k < dirs.len() && dirs[k] == stem + ".dist-info"@;
    }
}

// ---------------------------------------------------------------------------
// Members
// ---------------------------------------------------------------------------

/// What is written anew or is the installer's own, by its paths.
proof fn lemma_replaced_is(path: Seq<char>, dist: Seq<char>)
    ensures
        convert::is_replaced(path, dist) <==> {
            ||| path == dist + "/RECORD"@
            ||| path == dist + "/RECORD.jws"@
            ||| path == dist + "/RECORD.p7s"@
            ||| path == dist + "/INSTALLER"@
            ||| path == dist + "/REQUESTED"@
            ||| path == dist + "/direct_url.json"@
            ||| path == dist + "/WHEEL"@
        },
{
    reveal_strlit("/");
    reveal_strlit("RECORD");
    reveal_strlit("/RECORD");
    reveal_strlit("RECORD.jws");
    reveal_strlit("/RECORD.jws");
    reveal_strlit("RECORD.p7s");
    reveal_strlit("/RECORD.p7s");
    reveal_strlit("INSTALLER");
    reveal_strlit("/INSTALLER");
    reveal_strlit("REQUESTED");
    reveal_strlit("/REQUESTED");
    reveal_strlit("direct_url.json");
    reveal_strlit("/direct_url.json");
    reveal_strlit("WHEEL");
    reveal_strlit("/WHEEL");
    let prefix = dist + "/"@;
    assert(prefix + "RECORD"@ =~= dist + "/RECORD"@);
    assert(prefix + "RECORD.jws"@ =~= dist + "/RECORD.jws"@);
    assert(prefix + "RECORD.p7s"@ =~= dist + "/RECORD.p7s"@);
    assert(prefix + "INSTALLER"@ =~= dist + "/INSTALLER"@);
    assert(prefix + "REQUESTED"@ =~= dist + "/REQUESTED"@);
    assert(prefix + "direct_url.json"@ =~= dist + "/direct_url.json"@);
    assert(prefix + "WHEEL"@ =~= dist + "/WHEEL"@);
    texts::lemma_starts_with(path, prefix);
    assert forall|name: Seq<char>| path == #[trigger] (prefix + name) implies text::strip_prefix(
        path,
        prefix,
    ) == Some(name) by {
        assert(path.take(prefix.len() as int) =~= prefix);
        assert(path.skip(prefix.len() as int) =~= name);
    }
}

/// The members made of paths in order stand in that order.
proof fn lemma_members_increase(
    files: Map<Seq<char>, package::FileModel>,
    order: Seq<Seq<char>>,
    dist: Seq<char>,
)
    requires
        text::increasing(order),
    ensures
        ({
            let all = convert::payload_members(files, order, dist);
            &&& forall|i: int, j: int|
                0 <= i < j < all.len() ==> text::lt((#[trigger] all[i]).0, (#[trigger] all[j]).0)
            &&& forall|i: int| 0 <= i < all.len() ==> order.contains((#[trigger] all[i]).0)
        }),
    decreases order.len(),
{
    if order.len() > 0 {
        let head = order.drop_last();
        let before = convert::payload_members(files, head, dist);
        let all = convert::payload_members(files, order, dist);
        assert forall|i: int, j: int| 0 <= i < j < head.len() implies text::lt(
            #[trigger] head[i],
            #[trigger] head[j],
        ) by {
            assert(text::lt(order[i], order[j]));
        }
        lemma_members_increase(files, head, dist);
        assert(order =~= head.push(order.last()));
        assert forall|i: int| 0 <= i < all.len() implies order.contains((#[trigger] all[i]).0) by {
            text::lemma_push_contains(head, order.last(), all[i].0);
            if i < before.len() {
                assert(all[i] == before[i]);
            }
        }
        assert forall|i: int, j: int| 0 <= i < j < all.len() implies text::lt(
            (#[trigger] all[i]).0,
            (#[trigger] all[j]).0,
        ) by {
            assert(all[i] == before[i]);
            if j < before.len() {
                assert(all[j] == before[j]);
            } else {
                assert(head.contains(before[i].0));
                let k = choose|k: int| 0 <= k < head.len() && head[k] == before[i].0;
                assert(text::lt(order[k], order[order.len() - 1]));
            }
        }
    }
}

/// The lines of `RECORD` one after the other.
proof fn lemma_record_lines_flat(listed: Seq<(Seq<char>, u32, Seq<u8>)>)
    ensures
        convert::record_lines(listed) == Seq::new(
            listed.len(),
            |i: int|
                listed[i].0 + ",sha256="@ + external::base64_url(external::sha256(listed[i].2))
                    + ","@ + text::decimal(listed[i].2.len()) + "\n"@,
        ).flatten(),
    decreases listed.len(),
{
    let lines = Seq::new(
        listed.len(),
        |i: int|
            listed[i].0 + ",sha256="@ + external::base64_url(external::sha256(listed[i].2)) + ","@
                + text::decimal(listed[i].2.len()) + "\n"@,
    );
    lines.lemma_flatten_and_flatten_alt_are_equivalent();
    if listed.len() > 0 {
        let head = listed.drop_last();
        let before = Seq::new(
            head.len(),
            |i: int|
                head[i].0 + ",sha256="@ + external::base64_url(external::sha256(head[i].2)) + ","@
                    + text::decimal(head[i].2.len()) + "\n"@,
        );
        lemma_record_lines_flat(head);
        before.lemma_flatten_and_flatten_alt_are_equivalent();
        assert(lines.drop_last() =~= before);
        assert(lines.last() == convert::record_line(listed.last().0, listed.last().2));
    } else {
        assert(convert::record_lines(listed) =~= lines.flatten_alt());
    }
}

/// What follows the last comma of what `RECORD` says of a file is, read as a number, its size;
/// what stands before is its path and its digest.
pub proof fn lemma_record_says_size(path: Seq<char>, digest: Seq<u8>, size: nat)
    ensures
        text::rsplit_once(convert::record_fields(path, digest, size), ',') matches Some(
            (head, digits),
        ) && {
            &&& head == path + ",sha256="@ + external::base64_url(digest)
            &&& texts::number(digits) == size
            &&& digits.len() > 0
            &&& forall|k: int|
                0 <= k < digits.len() ==> '0' <= #[trigger] digits[k] && digits[k] <= '9'
        },
{
    let head = path + ",sha256="@ + external::base64_url(digest);
    let digits = text::decimal(size);
    reveal_strlit(",");
    texts::lemma_decimal_number(size);
    assert(convert::record_fields(path, digest, size) =~= head + seq![','] + digits);
    if digits.contains(',') {
        let k = choose|k: int| 0 <= k < digits.len() && digits[k] == ',';
        assert('0' <= digits[k]);
    }
    texts::lemma_rsplit_once_char(head, ',', digits);
}

/// What `RECORD` says of a file is that of its content: the digest and the number of its bytes.
pub proof fn lemma_record_entry_says(path: Seq<char>, data: Seq<u8>)
    ensures
        convert::record_entry(path, data) == path + ",sha256="@ + external::base64_url(
            external::sha256(data),
        ) + ","@ + text::decimal(data.len()),
        convert::record_line(path, data) == path + ",sha256="@ + external::base64_url(
            external::sha256(data),
        ) + ","@ + text::decimal(data.len()) + "\n"@,
{
}

/// The members of a wheel: every file of the payload under its own path, with its content, and
/// executable for all where it was for anyone, but for the seven files of the dist-info
/// directory that are the installer's or written anew; then the stamped `WHEEL` file, and
/// `RECORD` with a line for each member.
pub proof fn lemma_wheel_members(
    payload: package::PayloadModel,
    platform: Seq<char>,
    stem: Seq<char>,
    name: Seq<char>,
)
    requires
        payload.files.dom().finite(),
        convert::planned(payload, platform) is Ok,
        !stem.contains('/'),
        payload.files.contains_key(stem + ".dist-info/"@ + name),
    ensures
        ({
            let dist = stem + ".dist-info"@;
            let files = payload.files;
            let plan = convert::planned(payload, platform)->Ok_0;
            let members = plan.members;
            let n = members.len();
            &&& n >= 2
            &&& forall|p: Seq<char>| #[trigger]
                files.contains_key(p) && p != dist + "/RECORD"@ && p != dist + "/RECORD.jws"@ && p
                    != dist + "/RECORD.p7s"@ && p != dist + "/INSTALLER"@ && p != dist
                    + "/REQUESTED"@ && p != dist + "/direct_url.json"@ && p != dist + "/WHEEL"@
                    ==> members.take(n - 2).contains(
                    (
                        p,
                        if files[p].mode & 0o111 != 0 {
                            0o755u32
                        } else {
                            0o644u32
                        },
                        files[p].data,
                    ),
                )
            &&& forall|i: int|
                0 <= i < n - 2 ==> {
                    let p = (#[trigger] members[i]).0;
                    &&& files.contains_key(p)
                    &&& p != dist + "/RECORD"@ && p != dist + "/RECORD.jws"@
                    &&& p != dist + "/RECORD.p7s"@ && p != dist + "/INSTALLER"@
                    &&& p != dist + "/REQUESTED"@ && p != dist + "/direct_url.json"@
                    &&& p != dist + "/WHEEL"@
                    &&& members[i].1 == if files[p].mode & 0o111 != 0 {
                        0o755u32
                    } else {
                        0o644u32
                    }
                    &&& members[i].2 == files[p].data
                }
            &&& forall|i: int, j: int|
                0 <= i < j < n - 2 ==> text::lt(
                    (#[trigger] members[i]).0,
                    (#[trigger] members[j]).0,
                )
            &&& files.contains_key(dist + "/WHEEL"@)
            &&& wheel::restamped(
                external::utf8_lossy(files[dist + "/WHEEL"@].data),
                platform,
            ) matches Ok((stamped, _)) && members[n - 2] == (
                dist + "/WHEEL"@,
                0o644u32,
                utf8::encode_utf8(stamped),
            )
            &&& members[n - 1] == (
                dist + "/RECORD"@,
                0o644u32,
                utf8::encode_utf8(
                    Seq::new(
                        (n - 1) as nat,
                        |i: int|
                            members[i].0 + ",sha256="@ + external::base64_url(
                                external::sha256(members[i].2),
                            ) + ","@ + text::decimal(members[i].2.len()) + "\n"@,
                    ).flatten() + dist + "/RECORD,,\n"@,
                ),
            )
            &&& plan.skipped == payload.skipped
            &&& plan.lost == payload.lost
        }),
{
    let dist = stem + ".dist-info"@;
    let files = payload.files;
    let plan = convert::planned(payload, platform)->Ok_0;
    let all = plan.members;
    let n = all.len();
    lemma_only_dir(files, stem, name);
    reveal_strlit("/");
    reveal_strlit("WHEEL");
    reveal_strlit("/WHEEL");
    reveal_strlit("RECORD");
    reveal_strlit("/RECORD");
    assert(paths::path_in(dist, "WHEEL"@) =~= dist + "/WHEEL"@);
    assert(paths::path_in(dist, "RECORD"@) =~= dist + "/RECORD"@);
    let content = external::utf8_lossy(files[dist + "/WHEEL"@].data);
    let wheel_file = wheel::restamped(content, platform)->Ok_0.0;
    let order = text::in_order(files.dom());
    text::lemma_in_order(files.dom());
    let carried = convert::payload_members(files, order, dist);
    let listed = convert::listed_members(files, dist, wheel_file);
    assert(all == convert::wheel_members(files, dist, wheel_file));
    assert(all.take(n - 2) =~= carried);
    members::lemma_payload_members(files, order, dist);
    lemma_members_increase(files, order, dist);
    assert forall|p: Seq<char>| #[trigger]
        files.contains_key(p) && p != dist + "/RECORD"@ && p != dist + "/RECORD.jws"@ && p != dist
            + "/RECORD.p7s"@ && p != dist + "/INSTALLER"@ && p != dist + "/REQUESTED"@ && p != dist
            + "/direct_url.json"@ && p != dist + "/WHEEL"@ implies all.take(n - 2).contains(
        (
            p,
            if files[p].mode & 0o111 != 0 {
                0o755u32
            } else {
                0o644u32
            },
            files[p].data,
        ),
    ) by {
        lemma_replaced_is(p, dist);
        assert(order.contains(p));
        let k = choose|k: int| 0 <= k < order.len() && order[k] == p;
        assert(carried.contains(members::member_of(files, order[k])));
    }
    assert forall|i: int| 0 <= i < n - 2 implies {
        let p = (#[trigger] all[i]).0;
        &&& files.contains_key(p)
        &&& p != dist + "/RECORD"@ && p != dist + "/RECORD.jws"@
        &&& p != dist + "/RECORD.p7s"@ && p != dist + "/INSTALLER"@
        &&& p != dist + "/REQUESTED"@ && p != dist + "/direct_url.json"@
        &&& p != dist + "/WHEEL"@
        &&& all[i].1 == if files[p].mode & 0o111 != 0 {
            0o755u32
        } else {
            0o644u32
        }
        &&& all[i].2 == files[p].data
    } by {
        assert(all[i] == carried[i]);
        assert(carried.contains(carried[i]));
        lemma_replaced_is(all[i].0, dist);
        assert(order.contains(all[i].0));
    }
    assert forall|i: int, j: int| 0 <= i < j < n - 2 implies text::lt(
        (#[trigger] all[i]).0,
        (#[trigger] all[j]).0,
    ) by {
        assert(all[i] == carried[i] && all[j] == carried[j]);
    }
    lemma_record_lines_flat(listed);
    let lines = Seq::new(
        (n - 1) as nat,
        |i: int|
            all[i].0 + ",sha256="@ + external::base64_url(external::sha256(all[i].2)) + ","@
                + text::decimal(all[i].2.len()) + "\n"@,
    );
    assert(Seq::new(
        listed.len(),
        |i: int|
            listed[i].0 + ",sha256="@ + external::base64_url(external::sha256(listed[i].2)) + ","@
                + text::decimal(listed[i].2.len()) + "\n"@,
    ) =~= lines) by {
        assert forall|i: int| 0 <= i < listed.len() implies listed[i] == all[i] by {}
    }
}

/// The file name of a wheel: the project with underscores for its dashes, the version, and the
/// tag of the stamped `WHEEL` file.
pub proof fn lemma_wheel_file_name(
    payload: package::PayloadModel,
    platform: Seq<char>,
    project: Seq<char>,
    version: Seq<char>,
    name: Seq<char>,
)
    requires
        payload.files.dom().finite(),
        convert::planned(payload, platform) is Ok,
        !project.contains('/') && !version.contains('/') && !version.contains('-'),
        forall|rest: Seq<char>| project + "-"@ + version != #[trigger] (rest + ".dist-info"@),
        payload.files.contains_key(project + "-"@ + version + ".dist-info/"@ + name),
    ensures
        wheel::restamped(
            external::utf8_lossy(
                payload.files[project + "-"@ + version + ".dist-info"@ + "/WHEEL"@].data,
            ),
            platform,
        ) matches Ok((_, tag)) && convert::planned(payload, platform)->Ok_0.file_name == Seq::new(
            project.len(),
            |k: int|
                if project[k] == '-' {
                    '_'
                } else {
                    project[k]
                },
        ) + "-"@ + version + "-"@ + tag + ".whl"@,
{
    let stem = project + "-"@ + version;
    let dist = stem + ".dist-info"@;
    reveal_strlit("-");
    reveal_strlit("/");
    reveal_strlit("WHEEL");
    reveal_strlit("/WHEEL");
    reveal_strlit(".dist-info");
    text::lemma_add_contains(project, "-"@, '/');
    text::lemma_add_contains(project + "-"@, version, '/');
    lemma_only_dir(payload.files, stem, name);
    texts::lemma_trim_end_matches_twice(stem, ".dist-info"@);
    assert(stem =~= project + seq!['-'] + version);
    texts::lemma_rsplit_once_char(project, '-', version);
    assert(paths::path_in(dist, "WHEEL"@) =~= dist + "/WHEEL"@);
    assert(text::replace_char(project, '-', '_') =~= Seq::new(
        project.len(),
        |k: int|
            if project[k] == '-' {
                '_'
            } else {
                project[k]
            },
    ));
}

/// A payload with one dist-info directory, which names a project and a version and holds a
/// `WHEEL` file, becomes a wheel exactly where that file can be stamped.
pub proof fn lemma_wheel_is_planned(
    payload: package::PayloadModel,
    platform: Seq<char>,
    project: Seq<char>,
    version: Seq<char>,
)
    requires
        payload.files.dom().finite(),
        !project.contains('/') && !version.contains('/') && !version.contains('-'),
        forall|rest: Seq<char>| project + "-"@ + version != #[trigger] (rest + ".dist-info"@),
        payload.files.contains_key(project + "-"@ + version + ".dist-info/"@ + "WHEEL"@),
        forall|stem: Seq<char>, name: Seq<char>|
            !stem.contains('/') && payload.files.contains_key(
                #[trigger] (stem + ".dist-info/"@ + name),
            ) ==> stem == project + "-"@ + version,
    ensures
        match wheel::restamped(
            external::utf8_lossy(
                payload.files[project + "-"@ + version + ".dist-info/"@ + "WHEEL"@].data,
            ),
            platform,
        ) {
            Ok(_) => convert::planned(payload, platform) is Ok,
            Err(fault) => convert::planned(payload, platform) == Err::<convert::PlanModel, _>(
                convert::ConvertFault::Wheel(fault),
            ),
        },
{
    let stem = project + "-"@ + version;
    let dist = stem + ".dist-info"@;
    let files = payload.files;
    reveal_strlit("-");
    reveal_strlit("/");
    reveal_strlit(".dist-info");
    reveal_strlit(".dist-info/");
    text::lemma_add_contains(project, "-"@, '/');
    text::lemma_add_contains(project + "-"@, version, '/');
    lemma_only_dir(files, stem, "WHEEL"@);
    lemma_single_dir(files, stem);
    texts::lemma_trim_end_matches_twice(stem, ".dist-info"@);
    assert(stem =~= project + seq!['-'] + version);
    texts::lemma_rsplit_once_char(project, '-', version);
    assert(paths::path_in(dist, "WHEEL"@) =~= stem + ".dist-info/"@ + "WHEEL"@);
}

/// Where all dist-info paths have the same directory there is one.
proof fn lemma_single_dir(files: Map<Seq<char>, package::FileModel>, stem: Seq<char>)
    requires
        files.dom().finite(),
        convert::dist_info_dirs(files).contains(stem + ".dist-info"@),
        forall|other: Seq<char>, name: Seq<char>|
            !other.contains('/') && files.contains_key(
                #[trigger] (other + ".dist-info/"@ + name),
            ) ==> other == stem,
    ensures
        convert::dist_info_dirs(files).len() == 1,
{
    let dirs = convert::dist_info_dirs(files);
    members::lemma_dist_info_dirs(files);
    assert forall|d: Seq<char>| #[trigger] dirs.contains(d) implies d == stem + ".dist-info"@ by {
        let p = choose|p: Seq<char>|
            files.contains_key(p) && #[trigger] paths::dir_with(p, ".dist-info"@) == Some(d);
        lemma_dist_path_is(p, d);
    }
    if dirs.len() > 1 {
        assert(dirs.contains(dirs[0]));
        assert(dirs.contains(dirs[1]));
    }
}

/// A payload with two dist-info directories does not become a wheel.
pub proof fn lemma_two_dist_infos(
    payload: package::PayloadModel,
    platform: Seq<char>,
    stem: Seq<char>,
    name: Seq<char>,
    other: Seq<char>,
    other_name: Seq<char>,
)
    requires
        payload.files.dom().finite(),
        !stem.contains('/') && !other.contains('/') && stem != other,
        payload.files.contains_key(stem + ".dist-info/"@ + name),
        payload.files.contains_key(other + ".dist-info/"@ + other_name),
    ensures
        convert::planned(payload, platform) matches Err(convert::ConvertFault::ManyDistInfo(dirs))
            && dirs.contains(stem + ".dist-info"@) && dirs.contains(other + ".dist-info"@),
{
    let files = payload.files;
    lemma_only_dir(files, stem, name);
    lemma_only_dir(files, other, other_name);
    let dirs = convert::dist_info_dirs(files);
    assert(stem + ".dist-info"@ != other + ".dist-info"@) by {
        if stem + ".dist-info"@ == other + ".dist-info"@ {
            assert((stem + ".dist-info"@).len() == (other + ".dist-info"@).len());
            assert(stem =~= (stem + ".dist-info"@).take(stem.len() as int));
            assert(other =~= (other + ".dist-info"@).take(other.len() as int));
        }
    }
    if dirs.len() == 0 {
        assert(!dirs.contains(stem + ".dist-info"@));
    }
}

/// A dist-info directory without a dash names no project and version.
pub proof fn lemma_nameless_dist_info(
    payload: package::PayloadModel,
    platform: Seq<char>,
    stem: Seq<char>,
    name: Seq<char>,
)
    requires
        payload.files.dom().finite(),
        !stem.contains('/') && !stem.contains('-'),
        payload.files.contains_key(stem + ".dist-info/"@ + name),
        forall|other: Seq<char>, other_name: Seq<char>|
            !other.contains('/') && payload.files.contains_key(
                #[trigger] (other + ".dist-info/"@ + other_name),
            ) ==> other == stem,
    ensures
        convert::planned(payload, platform) == Err::<convert::PlanModel, _>(
            convert::ConvertFault::BadDistInfoName,
        ),
{
    let dist = stem + ".dist-info"@;
    reveal_strlit(".dist-info");
    lemma_only_dir(payload.files, stem, name);
    lemma_single_dir(payload.files, stem);
    texts::lemma_trim_end_matches_twice(stem, ".dist-info"@);
    text::lemma_trim_end_matches(stem, ".dist-info"@);
    let trimmed = text::trim_end_matches(stem, ".dist-info"@);
    text::lemma_rsplit_once(trimmed, '-');
    if text::rsplit_once(trimmed, '-') is Some {
        let (a, b) = text::rsplit_once(trimmed, '-')->0;
        assert(trimmed[a.len() as int] == '-');
        assert(stem[a.len() as int] == '-');
        assert(stem.contains(stem[a.len() as int]));
    }
}

/// A dist-info directory without a `WHEEL` file makes no wheel.
pub proof fn lemma_no_wheel_file(
    payload: package::PayloadModel,
    platform: Seq<char>,
    project: Seq<char>,
    version: Seq<char>,
    name: Seq<char>,
)
    requires
        payload.files.dom().finite(),
        !project.contains('/') && !version.contains('/') && !version.contains('-'),
        forall|rest: Seq<char>| project + "-"@ + version != #[trigger] (rest + ".dist-info"@),
        payload.files.contains_key(project + "-"@ + version + ".dist-info/"@ + name),
        !payload.files.contains_key(project + "-"@ + version + ".dist-info/"@ + "WHEEL"@),
        forall|stem: Seq<char>, other: Seq<char>|
            !stem.contains('/') && payload.files.contains_key(
                #[trigger] (stem + ".dist-info/"@ + other),
            ) ==> stem == project + "-"@ + version,
    ensures
        convert::planned(payload, platform) == Err::<convert::PlanModel, _>(
            convert::ConvertFault::NoWheelFile,
        ),
{
    let stem = project + "-"@ + version;
    let dist = stem + ".dist-info"@;
    reveal_strlit("-");
    reveal_strlit("/");
    reveal_strlit(".dist-info");
    reveal_strlit(".dist-info/");
    text::lemma_add_contains(project, "-"@, '/');
    text::lemma_add_contains(project + "-"@, version, '/');
    lemma_only_dir(payload.files, stem, name);
    lemma_single_dir(payload.files, stem);
    texts::lemma_trim_end_matches_twice(stem, ".dist-info"@);
    assert(stem =~= project + seq!['-'] + version);
    texts::lemma_rsplit_once_char(project, '-', version);
    assert(paths::path_in(dist, "WHEEL"@) =~= stem + ".dist-info/"@ + "WHEEL"@);
}

/// A payload without files makes no wheel, and that is said of no other.
pub proof fn lemma_no_payload(payload: package::PayloadModel, platform: Seq<char>)
    ensures
        convert::planned(payload, platform) == Err::<convert::PlanModel, _>(
            convert::ConvertFault::NoPayload,
        ) <==> payload.files.dom() == Set::<Seq<char>>::empty(),
{
    if payload.files.dom() == Set::<Seq<char>>::empty() {
        assert(payload.files =~= Map::empty());
    }
}

/// A payload without a dist-info directory becomes the wheel that its converted egg-info layout
/// becomes, or fails as that conversion does.
pub proof fn lemma_egg_wheel(payload: package::PayloadModel, platform: Seq<char>)
    requires
        payload.files.dom().finite(),
        payload.files.dom() != Set::<Seq<char>>::empty(),
        forall|stem: Seq<char>, name: Seq<char>|
            !stem.contains('/') ==> !payload.files.contains_key(
                #[trigger] (stem + ".dist-info/"@ + name),
            ),
    ensures
        match egg::egg_converted(payload) {
            (files, Ok(_)) => convert::planned(payload, platform) == convert::planned(
                package::PayloadModel { files, ..payload },
                platform,
            ),
            (_, Err(fault)) => convert::planned(payload, platform) == Err::<
                convert::PlanModel,
                _,
            >(convert::ConvertFault::Egg(fault)),
        },
{
    let files = payload.files;
    assert(!convert::has_dist_info(files)) by {
        if convert::has_dist_info(files) {
            let p = choose|p: Seq<char>|
                files.contains_key(p) && paths::dir_with(p, ".dist-info"@) is Some;
            let d = paths::dir_with(p, ".dist-info"@)->0;
            lemma_dist_path_is(p, d);
        }
    }
    if egg::egg_converted(payload).1 is Ok {
        let dir = egg::egg_dir(files)->0;
        let dist = egg::dist_info_for(dir)->0;
        let tag = egg::payload_tag(
            egg::is_compiled(egg::without_metadata(files, dir)),
            payload.pyver,
        )->0;
        assert(egg::converts(payload, dir, dist, tag));
        eggs::lemma_one_dist_info(payload, dir, dist, tag);
        eggs::lemma_dist_info_made(payload, dir, dist, tag);
        eggs::lemma_directories(files);
        let after = egg::egg_converted(payload).0;
        let p = paths::path_in(dist, "WHEEL"@);
        paths::lemma_path_in_under(dist, "WHEEL"@);
        paths::lemma_dir_of_under(p, dist);
        assert(paths::dir_with(p, ".dist-info"@) is Some);
        assert(after.contains_key(p));
        assert(after != Map::<Seq<char>, package::FileModel>::empty());
    }
}

/// The path takes more bytes than the zip format has for it.
pub open spec fn is_long(path: Seq<char>) -> bool {
    utf8::encode_utf8(path).len() > 65535
}

/// A path is too long for an archive where it takes more bytes than fit in sixteen bits, and the
/// first such path counts.
pub proof fn lemma_too_long(
    members: Seq<(Seq<char>, u32, Seq<u8>)>,
    path: Seq<char>,
)
    ensures
        convert::all_fit(members) <==> forall|k: int|
            0 <= k < members.len() ==> !is_long((#[trigger] members[k]).0),
        convert::is_first_too_long(members, path) <==> exists|i: int|
            {
                &&& 0 <= i < members.len()
                &&& (#[trigger] members[i]).0 == path
                &&& is_long(path)
                &&& forall|k: int| 0 <= k < i ==> !is_long((#[trigger] members[k]).0)
            },
        convert::all_fit(members) <==> forall|p: Seq<char>| !#[trigger]
            convert::is_first_too_long(members, p),
{
    assert forall|k: int| 0 <= k < members.len() && !is_long((#[trigger] members[k]).0) implies
        convert::fits(members[k].0) by {}
    assert forall|k: int| 0 <= k < members.len() && convert::fits((#[trigger] members[k]).0)
        implies !is_long(members[k].0) by {}
    if convert::is_first_too_long(members, path) {
        let i = choose|i: int| #[trigger]
            convert::first_too_long(members, i) && members[i].0 == path;
        assert(members[i].0 == path);
    }
    if exists|i: int|
        {
            &&& 0 <= i < members.len()
            &&& (#[trigger] members[i]).0 == path
            &&& is_long(path)
            &&& forall|k: int| 0 <= k < i ==> !is_long((#[trigger] members[k]).0)
        } {
        let i = choose|i: int|
            {
                &&& 0 <= i < members.len()
                &&& (#[trigger] members[i]).0 == path
                &&& is_long(path)
                &&& forall|k: int| 0 <= k < i ==> !is_long((#[trigger] members[k]).0)
            };
        assert(convert::first_too_long(members, i));
    }
    if !convert::all_fit(members) {
        let k = choose|k: int| 0 <= k < members.len() && !convert::fits((#[trigger] members[k]).0);
        let i = lemma_first_long(members, k);
        assert(convert::first_too_long(members, i));
        assert(convert::is_first_too_long(members, members[i].0));
    }
}

/// Where there is a path that is too long, there is a first one.
proof fn lemma_first_long(members: Seq<(Seq<char>, u32, Seq<u8>)>, k: int) -> (i: int)
    requires
        0 <= k < members.len(),
        !convert::fits(members[k].0),
    ensures
        convert::first_too_long(members, i),
    decreases k,
{
    if exists|j: int| 0 <= j < k && !convert::fits((#[trigger] members[j]).0) {
        let j = choose|j: int| 0 <= j < k && !convert::fits((#[trigger] members[j]).0);
        lemma_first_long(members, j)
    } else {
        k
    }
}

/// Members can be packed where an archive takes in each, deflated, after those before it, and can
/// then be brought to its end.
pub proof fn lemma_can_be_packed(members: Seq<(Seq<char>, u32, Seq<u8>)>)
    ensures
        convert::can_be_packed(members) <==> external::zip_completes(convert::deflated(members))
            && forall|k: int|
            0 <= k < members.len() ==> external::zip_accepts(
                convert::deflated(members).take(k),
                (#[trigger] members[k]).0,
                8u16,
                members[k].1,
                members[k].2,
            ),
{
    if convert::can_be_packed(members) {
        assert forall|k: int| 0 <= k < members.len() implies external::zip_accepts(
            convert::deflated(members).take(k),
            (#[trigger] members[k]).0,
            8u16,
            members[k].1,
            members[k].2,
        ) by {
            assert(convert::is_accepted(members, k));
        }
    }
}

/// The members are deflated, and otherwise stand in the archive as they are.
pub proof fn lemma_deflated(all: Seq<(Seq<char>, u32, Seq<u8>)>)
    ensures
        convert::deflated(all).len() == all.len(),
        forall|i: int|
            0 <= i < all.len() ==> #[trigger] convert::deflated(all)[i] == (
                all[i].0,
                8u16,
                all[i].1,
                all[i].2,
            ),
{
}

/// A package is converted by reading it, with or without its bytecode, and planning the wheel of
/// what was read.
pub proof fn lemma_conversion(data: Seq<u8>, platform: Seq<char>, keep_pyc: bool)
    ensures
        match package::package_in(data, keep_pyc) {
            Ok((info, payload)) => match convert::planned(payload, platform) {
                Ok(plan) => convert::conversion(data, platform, keep_pyc) == Ok::<
                    _,
                    convert::ConvertFault,
                >((info, plan)),
                Err(fault) => convert::conversion(data, platform, keep_pyc) == Err::<
                    (package::InfoModel, convert::PlanModel),
                    _,
                >(fault),
            },
            Err(fault) => convert::conversion(data, platform, keep_pyc) == Err::<
                (package::InfoModel, convert::PlanModel),
                _,
            >(convert::ConvertFault::Read(fault)),
        },
{
}

} // verus!
