//! What holds of the wheels that payloads become.
use crate::convert;
use crate::egg;
use crate::external;
use crate::laws::eggs;
use crate::laws::stamps;
use crate::package;
use crate::paths;
use crate::text;
use crate::wheel;
use vstd::prelude::*;
use vstd::utf8;

verus! {

// ---------------------------------------------------------------------------
// The dist-info directory
// ---------------------------------------------------------------------------

/// The path at a place has the directory.
spec fn dir_at(order: Seq<Seq<char>>, suffix: Seq<char>, k: int, dir: Seq<char>) -> bool {
    0 <= k < order.len() && paths::dir_with(order[k], suffix) == Some(dir)
}

/// The place is the last of a path with a directory.
spec fn last_dir_at(order: Seq<Seq<char>>, suffix: Seq<char>, m: int) -> bool {
    &&& dir_at(order, suffix, m, paths::dirs_with(order, suffix).last())
    &&& forall|k: int|
        m < k < order.len() ==> paths::dir_with(#[trigger] order[k], suffix) is None
}

/// The directories found are those of the paths, and the last is that of the last path with
/// one.
proof fn lemma_dirs_with(order: Seq<Seq<char>>, suffix: Seq<char>)
    ensures
        forall|d: Seq<char>| #[trigger]
            paths::dirs_with(order, suffix).contains(d) <==> exists|k: int|
                dir_at(order, suffix, k, d),
        paths::dirs_with(order, suffix).len() > 0 ==> exists|m: int|
            last_dir_at(order, suffix, m),
    decreases order.len(),
{
    let found = paths::dirs_with(order, suffix);
    if order.len() > 0 {
        let head = order.drop_last();
        let n = order.len() - 1;
        let before = paths::dirs_with(head, suffix);
        lemma_dirs_with(head, suffix);
        assert forall|d: Seq<char>| #[trigger] found.contains(d) <==> exists|k: int|
            dir_at(order, suffix, k, d) by {
            if let Some(dir) = paths::dir_with(order.last(), suffix) {
                text::lemma_push_contains(before, dir, d);
                if d == dir {
                    assert(dir_at(order, suffix, n, d));
                }
            }
            if before.contains(d) {
                let k = choose|k: int| dir_at(head, suffix, k, d);
                assert(dir_at(order, suffix, k, d));
            }
            if exists|k: int| dir_at(order, suffix, k, d) {
                let k = choose|k: int| dir_at(order, suffix, k, d);
                if k < n {
                    assert(dir_at(head, suffix, k, d));
                }
            }
        }
        if let Some(dir) = paths::dir_with(order.last(), suffix) {
            assert(last_dir_at(order, suffix, n));
        } else if found.len() > 0 {
            let m = choose|m: int| last_dir_at(head, suffix, m);
            assert forall|k: int| m < k < order.len() implies paths::dir_with(
                #[trigger] order[k],
                suffix,
            ) is None by {
                if k < n {
                    assert(head[k] == order[k]);
                }
            }
            assert(last_dir_at(order, suffix, m));
        }
    } else {
        assert(found =~= seq![]);
    }
}

/// Of paths in order, those with the same directory follow each other: leaving out repetitions
/// leaves each directory once.
proof fn lemma_dedup_dirs(order: Seq<Seq<char>>, suffix: Seq<char>)
    requires
        text::increasing(order),
    ensures
        text::all_different(convert::dedup(paths::dirs_with(order, suffix))),
        forall|d: Seq<char>| #[trigger]
            convert::dedup(paths::dirs_with(order, suffix)).contains(d) <==> paths::dirs_with(
                order,
                suffix,
            ).contains(d),
        paths::dirs_with(order, suffix).len() > 0 ==> {
            &&& convert::dedup(paths::dirs_with(order, suffix)).len() > 0
            &&& convert::dedup(paths::dirs_with(order, suffix)).last() == paths::dirs_with(
                order,
                suffix,
            ).last()
        },
    decreases order.len(),
{
    let found = paths::dirs_with(order, suffix);
    if order.len() > 0 {
        let head = order.drop_last();
        let n = order.len() - 1;
        let before = paths::dirs_with(head, suffix);
        let kept = convert::dedup(before);
        assert forall|i: int, j: int| 0 <= i < j < head.len() implies text::lt(
            #[trigger] head[i],
            #[trigger] head[j],
        ) by {
            assert(text::lt(order[i], order[j]));
        }
        lemma_dedup_dirs(head, suffix);
        if let Some(dir) = paths::dir_with(order.last(), suffix) {
            assert(found.drop_last() =~= before);
            assert forall|d: Seq<char>| #[trigger] convert::dedup(found).contains(d)
                <==> found.contains(d) by {
                text::lemma_push_contains(before, dir, d);
                text::lemma_push_contains(kept, dir, d);
                if kept.len() > 0 {
                    assert(kept.contains(kept.last()));
                }
            }
            if kept.len() > 0 && kept.last() != dir && kept.contains(dir) {
                lemma_dirs_with(head, suffix);
                assert(before.contains(dir));
                let k = choose|k: int| dir_at(head, suffix, k, dir);
                if before.len() == 0 {
                    assert(!before.contains(dir));
                }
                let m = choose|m: int| last_dir_at(head, suffix, m);
                assert(k < m) by {
                    if m < k {
                        assert(paths::dir_with(head[k], suffix) is None);
                    }
                }
                assert(text::lt(order[k], order[m]));
                assert(text::lt(order[m], order[n]));
                paths::lemma_dir_of(order[k]);
                paths::lemma_dir_of(order[n]);
                text::lemma_between_prefixed(order[k], order[m], order[n], dir + "/"@);
                paths::lemma_dir_of_under(order[m], dir);
            }
            let all = convert::dedup(found);
            assert forall|i: int, j: int| 0 <= i < j < all.len() implies all[i] != all[j] by {
                if j == kept.len() {
                    assert(kept.contains(kept[i]));
                }
            }
        }
    } else {
        assert(found =~= seq![]);
    }
}

/// A payload's dist-info directories are those of its paths, each once.
pub proof fn lemma_dist_info_dirs(files: Map<Seq<char>, package::FileModel>)
    requires
        files.dom().finite(),
    ensures
        text::all_different(convert::dist_info_dirs(files)),
        forall|d: Seq<char>| #[trigger]
            convert::dist_info_dirs(files).contains(d) <==> exists|p: Seq<char>|
                files.contains_key(p) && #[trigger] paths::dir_with(p, ".dist-info"@) == Some(d),
{
    let order = text::in_order(files.dom());
    let suffix = ".dist-info"@;
    text::lemma_in_order(files.dom());
    lemma_dedup_dirs(order, suffix);
    lemma_dirs_with(order, suffix);
    assert forall|d: Seq<char>| #[trigger]
        convert::dist_info_dirs(files).contains(d) <==> exists|p: Seq<char>|
            files.contains_key(p) && #[trigger] paths::dir_with(p, suffix) == Some(d) by {
        if convert::dist_info_dirs(files).contains(d) {
            assert(paths::dirs_with(order, suffix).contains(d));
            let k = choose|k: int| dir_at(order, suffix, k, d);
            assert(order.contains(order[k]));
            assert(files.contains_key(order[k]));
        }
        if exists|p: Seq<char>|
            files.contains_key(p) && #[trigger] paths::dir_with(p, suffix) == Some(d) {
            let p = choose|p: Seq<char>|
                files.contains_key(p) && #[trigger] paths::dir_with(p, suffix) == Some(d);
            assert(order.contains(p));
            let k = choose|k: int| 0 <= k < order.len() && order[k] == p;
            assert(dir_at(order, suffix, k, d));
        }
    }
}

// ---------------------------------------------------------------------------
// Members
// ---------------------------------------------------------------------------

/// The member that a file of a payload becomes.
pub open spec fn member_of(files: Map<Seq<char>, package::FileModel>, path: Seq<char>) -> (
    Seq<char>,
    u32,
    Seq<u8>,
) {
    (path, convert::permissions(files[path].mode), files[path].data)
}

/// The paths of some members.
pub open spec fn member_paths(members: Seq<(Seq<char>, u32, Seq<u8>)>) -> Seq<Seq<char>> {
    members.map_values(|m: (Seq<char>, u32, Seq<u8>)| m.0)
}

/// The members made of some paths: those of the paths that are not replaced, in their order.
pub proof fn lemma_payload_members(
    files: Map<Seq<char>, package::FileModel>,
    order: Seq<Seq<char>>,
    dist: Seq<char>,
)
    requires
        text::increasing(order),
    ensures
        forall|k: int|
            0 <= k < order.len() && !convert::is_replaced(#[trigger] order[k], dist)
                ==> convert::payload_members(files, order, dist).contains(
                member_of(files, order[k]),
            ),
        forall|m: (Seq<char>, u32, Seq<u8>)| #[trigger]
            convert::payload_members(files, order, dist).contains(m) ==> {
                &&& order.contains(m.0)
                &&& !convert::is_replaced(m.0, dist)
                &&& m == member_of(files, m.0)
            },
        text::all_different(member_paths(convert::payload_members(files, order, dist))),
    decreases order.len(),
{
    let all = convert::payload_members(files, order, dist);
    if order.len() > 0 {
        let head = order.drop_last();
        let last = order.last();
        let before = convert::payload_members(files, head, dist);
        assert forall|i: int, j: int| 0 <= i < j < head.len() implies text::lt(
            #[trigger] head[i],
            #[trigger] head[j],
        ) by {
            assert(text::lt(order[i], order[j]));
        }
        lemma_payload_members(files, head, dist);
        assert(order =~= head.push(last));
        assert forall|k: int|
            0 <= k < order.len() && !convert::is_replaced(
                #[trigger] order[k],
                dist,
            ) implies all.contains(member_of(files, order[k])) by {
            if k < head.len() {
                assert(head[k] == order[k]);
                let m = member_of(files, order[k]);
                let i = choose|i: int| 0 <= i < before.len() && before[i] == m;
                assert(all[i] == m);
            } else {
                assert(all[all.len() - 1] == member_of(files, last));
            }
        }
        assert forall|m: (Seq<char>, u32, Seq<u8>)| #[trigger] all.contains(m) implies {
            &&& order.contains(m.0)
            &&& !convert::is_replaced(m.0, dist)
            &&& m == member_of(files, m.0)
        } by {
            text::lemma_push_contains(head, last, m.0);
            let i = choose|i: int| 0 <= i < all.len() && all[i] == m;
            if i < before.len() {
                assert(before[i] == m);
                assert(before.contains(m));
            }
        }
        let names = member_paths(all);
        assert forall|i: int, j: int| 0 <= i < j < names.len() implies names[i] != names[j] by {
            let earlier = member_paths(before);
            assert(names[i] == earlier[i]);
            if j < before.len() {
                assert(names[j] == earlier[j]);
            } else {
                assert(before.contains(before[i]));
                let k = choose|k: int| 0 <= k < head.len() && head[k] == before[i].0;
                assert(text::lt(order[k], order[order.len() - 1]));
                text::lemma_lt_irreflexive(last);
            }
        }
    }
}

/// What is written anew counts as replaced.
proof fn lemma_replaced(dist: Seq<char>)
    ensures
        convert::is_replaced(paths::path_in(dist, "WHEEL"@), dist),
        convert::is_replaced(paths::path_in(dist, "RECORD"@), dist),
        paths::path_in(dist, "WHEEL"@) != paths::path_in(dist, "RECORD"@),
{
    paths::lemma_path_in_under(dist, "WHEEL"@);
    paths::lemma_path_in_under(dist, "RECORD"@);
    let n = (dist + "/"@).len() as int;
    assert(paths::path_in(dist, "WHEEL"@).skip(n) =~= "WHEEL"@);
    assert(paths::path_in(dist, "RECORD"@).skip(n) =~= "RECORD"@);
    reveal_strlit("WHEEL");
    reveal_strlit("RECORD");
    assert(paths::path_in(dist, "WHEEL"@).len() != paths::path_in(dist, "RECORD"@).len());
}

/// A wheel holds every file of its payload that is not written anew or the installer's own,
/// with its content as it is.
pub proof fn lemma_wheel_holds_payload(
    files: Map<Seq<char>, package::FileModel>,
    dist: Seq<char>,
    wheel_file: Seq<char>,
    path: Seq<char>,
)
    requires
        files.dom().finite(),
        files.contains_key(path),
        !convert::is_replaced(path, dist),
    ensures
        convert::wheel_members(files, dist, wheel_file).contains(member_of(files, path)),
{
    let order = text::in_order(files.dom());
    text::lemma_in_order(files.dom());
    lemma_payload_members(files, order, dist);
    assert(order.contains(path));
    let k = choose|k: int| 0 <= k < order.len() && order[k] == path;
    let members = convert::payload_members(files, order, dist);
    let m = member_of(files, order[k]);
    let i = choose|i: int| 0 <= i < members.len() && members[i] == m;
    assert(convert::wheel_members(files, dist, wheel_file)[i] == m);
}

/// A wheel holds nothing but files of its payload as they are, the new `WHEEL` file, and
/// `RECORD`.
pub proof fn lemma_wheel_holds_no_more(
    files: Map<Seq<char>, package::FileModel>,
    dist: Seq<char>,
    wheel_file: Seq<char>,
    member: (Seq<char>, u32, Seq<u8>),
)
    requires
        files.dom().finite(),
        convert::wheel_members(files, dist, wheel_file).contains(member),
    ensures
        ({
            &&& files.contains_key(member.0)
            &&& !convert::is_replaced(member.0, dist)
            &&& member == member_of(files, member.0)
        }) || member == (
            paths::path_in(dist, "WHEEL"@),
            0o644u32,
            utf8::encode_utf8(wheel_file),
        ) || member == (
            paths::path_in(dist, "RECORD"@),
            0o644u32,
            utf8::encode_utf8(
                convert::record_text(convert::listed_members(files, dist, wheel_file), dist),
            ),
        ),
{
    let order = text::in_order(files.dom());
    text::lemma_in_order(files.dom());
    lemma_payload_members(files, order, dist);
    let members = convert::payload_members(files, order, dist);
    let all = convert::wheel_members(files, dist, wheel_file);
    let i = choose|i: int| 0 <= i < all.len() && all[i] == member;
    if i < members.len() {
        assert(members[i] == member);
        assert(members.contains(member));
    }
}

/// No two members of a wheel have the same path.
pub proof fn lemma_member_paths_differ(
    files: Map<Seq<char>, package::FileModel>,
    dist: Seq<char>,
    wheel_file: Seq<char>,
)
    requires
        files.dom().finite(),
    ensures
        text::all_different(member_paths(convert::wheel_members(files, dist, wheel_file))),
{
    let order = text::in_order(files.dom());
    text::lemma_in_order(files.dom());
    lemma_payload_members(files, order, dist);
    lemma_replaced(dist);
    let members = convert::payload_members(files, order, dist);
    let earlier = member_paths(members);
    let names = member_paths(convert::wheel_members(files, dist, wheel_file));
    assert forall|i: int, j: int| 0 <= i < j < names.len() implies names[i] != names[j] by {
        if i < members.len() {
            assert(names[i] == earlier[i]);
            assert(members.contains(members[i]));
            if j < members.len() {
                assert(names[j] == earlier[j]);
            }
        }
    }
}

// ---------------------------------------------------------------------------
// RECORD
// ---------------------------------------------------------------------------

/// No digest in base64 holds a line feed.
proof fn lemma_base64_no_feed(data: Seq<u8>)
    ensures
        !external::base64_url(data).contains('\n'),
{
    let out = external::base64_url(data);
    assert forall|i: int| 0 <= i < out.len() implies out[i] != '\n' by {
        let n = external::sextet(data, i);
        assert(0 <= n < 64);
        assert(out[i] == external::base64_char(n));
    }
}

/// An entry of `RECORD` for a path without a line feed is a line.
proof fn lemma_record_entry(path: Seq<char>, data: Seq<u8>)
    requires
        !path.contains('\n'),
    ensures
        text::is_line(convert::record_entry(path, data)),
{
    let digest = external::base64_url(external::sha256(data));
    let size = text::decimal(data.len());
    reveal_strlit(",sha256=");
    reveal_strlit(",");
    lemma_base64_no_feed(external::sha256(data));
    text::lemma_decimal(data.len());
    text::lemma_add_contains(path, ",sha256="@, '\n');
    text::lemma_add_contains(path + ",sha256="@, digest, '\n');
    text::lemma_add_contains(path + ",sha256="@ + digest, ","@, '\n');
    text::lemma_add_contains(path + ",sha256="@ + digest + ","@, size, '\n');
    assert(convert::record_entry(path, data).last() == size.last());
}

/// The lines for members whose paths hold no line feed are their entries.
proof fn lemma_record_lines(members: Seq<(Seq<char>, u32, Seq<u8>)>)
    requires
        forall|i: int| 0 <= i < members.len() ==> !(#[trigger] members[i]).0.contains('\n'),
    ensures
        text::is_whole(convert::record_lines(members)),
        text::lines(convert::record_lines(members)) == members.map_values(
            |m: (Seq<char>, u32, Seq<u8>)| convert::record_entry(m.0, m.2),
        ),
    decreases members.len(),
{
    let entry = |m: (Seq<char>, u32, Seq<u8>)| convert::record_entry(m.0, m.2);
    reveal_strlit("\n");
    if members.len() == 0 {
        assert(convert::record_lines(members) =~= seq![]);
        assert(text::lines(seq![]) =~= members.map_values(entry));
    } else {
        let head = members.drop_last();
        let last = members.last();
        assert forall|i: int| 0 <= i < head.len() implies !(#[trigger] head[i]).0.contains(
            '\n',
        ) by {
            assert(head[i] == members[i]);
        }
        lemma_record_lines(head);
        lemma_record_entry(last.0, last.2);
        let line = convert::record_line(last.0, last.2);
        assert(line =~= convert::record_entry(last.0, last.2).push('\n'));
        text::lemma_one_line(convert::record_entry(last.0, last.2));
        text::lemma_lines_append(convert::record_lines(head), line);
        assert(text::lines(convert::record_lines(members)) =~= members.map_values(entry));
    }
}

/// `RECORD` has one line for each listed member, with its digest and size, and one for
/// itself. (A path with a line feed in it would take up more than one line.)
pub proof fn lemma_record_lists_members(
    listed: Seq<(Seq<char>, u32, Seq<u8>)>,
    dist: Seq<char>,
)
    requires
        forall|i: int| 0 <= i < listed.len() ==> !(#[trigger] listed[i]).0.contains('\n'),
        !dist.contains('\n'),
    ensures
        text::lines(convert::record_text(listed, dist)) == listed.map_values(
            |m: (Seq<char>, u32, Seq<u8>)| convert::record_entry(m.0, m.2),
        ).push(dist + "/RECORD,,"@),
{
    let own = dist + "/RECORD,,"@;
    lemma_record_lines(listed);
    reveal_strlit("/RECORD,,");
    reveal_strlit("/RECORD,,\n");
    text::lemma_add_contains(dist, "/RECORD,,"@, '\n');
    assert(own.last() == ',');
    text::lemma_one_line(own);
    assert(dist + "/RECORD,,\n"@ =~= own.push('\n'));
    text::lemma_lines_append(convert::record_lines(listed), own.push('\n'));
    assert(convert::record_text(listed, dist) =~= convert::record_lines(listed) + own.push('\n'));
    let entries = listed.map_values(
        |m: (Seq<char>, u32, Seq<u8>)| convert::record_entry(m.0, m.2),
    );
    assert(entries + seq![own] =~= entries.push(own));
}

// ---------------------------------------------------------------------------
// Plans
// ---------------------------------------------------------------------------

/// The name of a planned wheel has five components, as installers expect: the project, its
/// version, and the three of its tag.
pub proof fn lemma_planned_name(payload: package::PayloadModel, platform: Seq<char>)
    ensures
        match convert::planned(payload, platform) {
            Ok(plan) => text::split(plan.file_name, '-').len() == 5 && text::ends_with(
                plan.file_name,
                ".whl"@,
            ),
            Err(_) => true,
        },
{
    if let Ok(plan) = convert::planned(payload, platform) {
        let files = convert::dist_info_layout(payload)->Ok_0;
        let dist = convert::dist_info_dirs(files)[0];
        let (name, version) = convert::name_and_version(dist)->0;
        let content = external::utf8_lossy(files[paths::path_in(dist, "WHEEL"@)].data);
        let tag = wheel::restamped(content, platform)->Ok_0.1;
        text::lemma_rsplit_once(text::trim_end_matches(dist, ".dist-info"@), '-');
        stamps::lemma_name_tag(content, platform);
        stamps::lemma_wheel_name(name, version, tag);
        let file_name = convert::wheel_name(name, version, tag);
        assert(file_name.skip(file_name.len() - ".whl"@.len()) =~= ".whl"@);
    }
}

/// Planning never fails for want of a dist-info directory: one is there, or is made, or
/// making it fails.
pub proof fn lemma_planned_finds_dist_info(
    payload: package::PayloadModel,
    platform: Seq<char>,
)
    requires
        payload.files.dom().finite(),
    ensures
        match convert::planned(payload, platform) {
            Ok(_) => true,
            Err(fault) => !(fault is NoDistInfo),
        },
{
    let files = payload.files;
    if convert::has_dist_info(files) {
        let p = choose|p: Seq<char>|
            files.contains_key(p) && paths::dir_with(p, ".dist-info"@) is Some;
        let d = paths::dir_with(p, ".dist-info"@)->0;
        lemma_dist_info_dirs(files);
        assert(files.contains_key(p) && paths::dir_with(p, ".dist-info"@) == Some(d));
        assert(convert::dist_info_dirs(files).contains(d));
    } else if egg::egg_converted(payload).1 is Ok {
        let dir = egg::egg_dir(files)->0;
        let dist = egg::dist_info_for(dir)->0;
        let tag = egg::payload_tag(
            egg::is_compiled(egg::without_metadata(files, dir)),
            payload.pyver,
        )->0;
        assert(egg::converts(payload, dir, dist, tag));
        eggs::lemma_one_dist_info(payload, dir, dist, tag);
    }
}

} // verus!
