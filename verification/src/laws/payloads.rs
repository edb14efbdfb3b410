//! What holds of payloads, and of the packages that they are read from.
use crate::convert;
use crate::egg;
use crate::external;
use crate::laws::eggs;
use crate::laws::members;
use crate::package;
use crate::paths;
use crate::text;
use vstd::prelude::*;

verus! {

/// A path that a payload may hold: not empty, and no bytecode unless that is kept.
pub open spec fn may_hold(path: Seq<char>, keep_pyc: bool) -> bool {
    path.len() > 0 && (keep_pyc || !package::is_bytecode(path))
}

/// The note is of something under `site-packages`: it begins with its path.
pub open spec fn is_of_site(note: Seq<char>) -> bool {
    exists|path: Seq<char>| #[trigger]
        package::site_split(path) is Some && text::starts_with(note, path)
}

/// A payload in good order holds finitely many files, at paths that it may hold; the paths that
/// it skipped are not under `site-packages`, and what it lost is.
pub open spec fn in_good_order(payload: package::PayloadModel, keep_pyc: bool) -> bool {
    &&& payload.files.dom().finite()
    &&& forall|p: Seq<char>| #[trigger] payload.files.contains_key(p) ==> may_hold(p, keep_pyc)
    &&& forall|i: int|
        0 <= i < payload.skipped.len() ==> package::site_split(
            #[trigger] payload.skipped[i],
        ) is None
    &&& forall|i: int| 0 <= i < payload.lost.len() ==> is_of_site(#[trigger] payload.lost[i])
}

/// Every member of an archive leaves a payload in good order, keeps the notes of what was
/// skipped and lost, and keeps a python version that is known.
pub proof fn lemma_placed(
    payload: package::PayloadModel,
    path: Seq<char>,
    kind: u8,
    mode: Option<u32>,
    target: Seq<char>,
    content: Seq<u8>,
    keep_pyc: bool,
)
    requires
        in_good_order(payload, keep_pyc),
    ensures
        ({
            let after = package::placed(payload, path, kind, mode, target, content, keep_pyc);
            &&& in_good_order(after, keep_pyc)
            &&& payload.skipped.len() <= after.skipped.len()
            &&& after.skipped.take(payload.skipped.len() as int) == payload.skipped
            &&& payload.lost.len() <= after.lost.len()
            &&& after.lost.take(payload.lost.len() as int) == payload.lost
            &&& payload.pyver is Some ==> after.pyver == payload.pyver
            &&& forall|p: Seq<char>| #[trigger]
                payload.files.contains_key(p) ==> after.files.contains_key(p)
        }),
{
    let after = package::placed(payload, path, kind, mode, target, content, keep_pyc);
    assert(after.skipped.take(payload.skipped.len() as int) =~= payload.skipped);
    assert(after.lost.take(payload.lost.len() as int) =~= payload.lost);
    assert forall|i: int| 0 <= i < after.lost.len() implies is_of_site(#[trigger] after.lost[i]) by {
        if i < payload.lost.len() {
            assert(after.lost[i] == payload.lost[i]);
        } else {
            assert(after.lost[i].take(path.len() as int) =~= path);
            assert(package::site_split(path) is Some);
        }
    }
    assert forall|i: int| 0 <= i < after.skipped.len() implies package::site_split(
        #[trigger] after.skipped[i],
    ) is None by {
        if i < payload.skipped.len() {
            assert(after.skipped[i] == payload.skipped[i]);
        }
    }
}

/// A hard link to a file of the payload is another file with the same content and mode.
pub proof fn lemma_link_is_copy(
    payload: package::PayloadModel,
    path: Seq<char>,
    before: Seq<char>,
    rel: Seq<char>,
    mode: Option<u32>,
    target: Seq<char>,
    target_before: Seq<char>,
    target_rel: Seq<char>,
    content: Seq<u8>,
    keep_pyc: bool,
)
    requires
        package::site_split(path) == Some((before, rel)),
        may_hold(rel, keep_pyc),
        package::site_split(target) == Some((target_before, target_rel)),
        payload.files.contains_key(target_rel),
    ensures
        ({
            let after = package::placed(
                payload,
                path,
                package::LINK,
                mode,
                target,
                content,
                keep_pyc,
            );
            &&& after.files.contains_key(rel)
            &&& after.files[rel] == after.files[target_rel]
            &&& after.lost == payload.lost
            &&& after.skipped == payload.skipped
        }),
{
}

/// A regular file under `site-packages` is in the payload with its content, and a regular file
/// elsewhere is noted unless its loss is expected.
pub proof fn lemma_no_file_lost(
    payload: package::PayloadModel,
    path: Seq<char>,
    mode: Option<u32>,
    target: Seq<char>,
    content: Seq<u8>,
    keep_pyc: bool,
)
    ensures
        ({
            let after = package::placed(
                payload,
                path,
                package::REGULAR,
                mode,
                target,
                content,
                keep_pyc,
            );
            match package::site_split(path) {
                Some((_, rel)) => may_hold(rel, keep_pyc) ==> after.files.contains_key(rel)
                    && after.files[rel].data == content,
                None => !package::is_expected_loss(path) ==> after.skipped.len() > 0
                    && after.skipped.last() == path,
            }
        }),
{
}

/// What stands under `site-packages` and is neither a regular file, a directory, nor a hard link
/// to a file of the payload is noted as lost.
pub proof fn lemma_loss_is_noted(
    payload: package::PayloadModel,
    path: Seq<char>,
    before: Seq<char>,
    rel: Seq<char>,
    kind: u8,
    mode: Option<u32>,
    target: Seq<char>,
    content: Seq<u8>,
    keep_pyc: bool,
)
    requires
        package::site_split(path) == Some((before, rel)),
        may_hold(rel, keep_pyc),
        kind != package::REGULAR && kind != package::DIRECTORY,
        kind == package::LINK ==> match package::site_split(target) {
            Some((_, target_rel)) => !payload.files.contains_key(target_rel),
            None => true,
        },
    ensures
        ({
            let after = package::placed(payload, path, kind, mode, target, content, keep_pyc);
            &&& after.files == payload.files
            &&& after.lost.len() == payload.lost.len() + 1
            &&& text::starts_with(after.lost.last(), path)
        }),
{
    let after = package::placed(payload, path, kind, mode, target, content, keep_pyc);
    assert(after.lost.last().take(path.len() as int) =~= path);
}

/// What the members of an archive make is in good order.
proof fn lemma_scan_items(items: Seq<Option<external::EntryModel>>, keep_pyc: bool)
    ensures
        match package::scan_items(items, keep_pyc) {
            Ok(scan) => in_good_order(scan.payload, keep_pyc),
            Err(_) => true,
        },
    decreases items.len(),
{
    if items.len() > 0 {
        lemma_scan_items(items.drop_last(), keep_pyc);
        if let Ok(scan) = package::scan_items(items.drop_last(), keep_pyc) {
            if let Some(entry) = items.last() {
                lemma_placed(
                    scan.payload,
                    external::utf8_lossy(entry.path),
                    entry.kind,
                    entry.mode,
                    package::link_target(entry),
                    entry.content,
                    keep_pyc,
                );
            }
        }
    }
}

/// The payload of a package is in good order: in particular, without bytecode unless that is
/// kept.
pub proof fn lemma_package_in_good_order(data: Seq<u8>, keep_pyc: bool)
    ensures
        match package::package_in(data, keep_pyc) {
            Ok((_, payload)) => in_good_order(payload, keep_pyc),
            Err(_) => true,
        },
{
    if let Some(items) = external::package_items(data) {
        lemma_scan_items(items, keep_pyc);
    }
}

/// The member has the given name.
pub open spec fn is_named(item: Option<external::EntryModel>, name: Seq<char>) -> bool {
    match item {
        Some(entry) => external::utf8_lossy(entry.path) == name,
        None => false,
    }
}

/// No member has the given name.
pub open spec fn has_none_named(
    items: Seq<Option<external::EntryModel>>,
    name: Seq<char>,
) -> bool {
    forall|k: int| 0 <= k < items.len() ==> !is_named(#[trigger] items[k], name)
}

/// The member is the first with the given name.
pub open spec fn is_first_named(
    items: Seq<Option<external::EntryModel>>,
    name: Seq<char>,
    i: int,
) -> bool {
    &&& 0 <= i < items.len()
    &&& is_named(items[i], name)
    &&& has_none_named(items.take(i), name)
}

/// What the scan of an archive knows that has no compact manifest, or none at all.
proof fn lemma_no_manifest(items: Seq<Option<external::EntryModel>>, keep_pyc: bool)
    requires
        package::scan_items(items, keep_pyc) is Ok,
        has_none_named(items, "+COMPACT_MANIFEST"@),
    ensures
        !package::scan_items(items, keep_pyc)->Ok_0.compact,
        has_none_named(items, "+MANIFEST"@) ==> package::scan_items(
            items,
            keep_pyc,
        )->Ok_0.info is None,
    decreases items.len(),
{
    if items.len() > 0 {
        let head = items.drop_last();
        assert(items.last() == items[items.len() - 1]);
        assert forall|k: int| 0 <= k < head.len() implies !is_named(
            #[trigger] head[k],
            "+COMPACT_MANIFEST"@,
        ) by {
            assert(head[k] == items[k]);
        }
        lemma_no_manifest(head, keep_pyc);
        if has_none_named(items, "+MANIFEST"@) {
            assert forall|k: int| 0 <= k < head.len() implies !is_named(
                #[trigger] head[k],
                "+MANIFEST"@,
            ) by {
                assert(head[k] == items[k]);
            }
        }
    }
}

/// What the scan of an archive with a compact manifest knows of dependencies.
proof fn lemma_scan_compact(
    items: Seq<Option<external::EntryModel>>,
    keep_pyc: bool,
    i: int,
)
    requires
        package::scan_items(items, keep_pyc) is Ok,
        is_first_named(items, "+COMPACT_MANIFEST"@, i),
    ensures
        ({
            let scan = package::scan_items(items, keep_pyc)->Ok_0;
            let document = external::json_document(items[i]->0.content);
            &&& scan.compact
            &&& scan.info is Some
            &&& document is Some
            &&& scan.info->0.deps == package::info_of(document->0).deps
        }),
    decreases items.len(),
{
    reveal_strlit("+COMPACT_MANIFEST");
    reveal_strlit("+MANIFEST");
    assert("+COMPACT_MANIFEST"@.len() != "+MANIFEST"@.len());
    let head = items.drop_last();
    if i < head.len() {
        assert(head.take(i) =~= items.take(i));
        lemma_scan_compact(head, keep_pyc, i);
    } else {
        assert(head =~= items.take(i));
        lemma_no_manifest(head, keep_pyc);
    }
}

/// What the scan of an archive without a compact manifest knows.
proof fn lemma_scan_manifest(
    items: Seq<Option<external::EntryModel>>,
    keep_pyc: bool,
    i: int,
)
    requires
        package::scan_items(items, keep_pyc) is Ok,
        has_none_named(items, "+COMPACT_MANIFEST"@),
        is_first_named(items, "+MANIFEST"@, i),
    ensures
        ({
            let document = external::json_document(items[i]->0.content);
            &&& document is Some
            &&& package::scan_items(items, keep_pyc)->Ok_0.info == Some(
                package::info_of(document->0),
            )
        }),
    decreases items.len(),
{
    let head = items.drop_last();
    assert(items.last() == items[items.len() - 1]);
    assert forall|k: int| 0 <= k < head.len() implies !is_named(
        #[trigger] head[k],
        "+COMPACT_MANIFEST"@,
    ) by {
        assert(head[k] == items[k]);
    }
    if i < head.len() {
        assert(head.take(i) =~= items.take(i));
        lemma_scan_manifest(head, keep_pyc, i);
    } else {
        assert(head =~= items.take(i));
        lemma_no_manifest(head, keep_pyc);
    }
}

/// The dependencies of a package are those of its first `+COMPACT_MANIFEST`, wherever in the
/// archive that stands.
pub proof fn lemma_deps_of_compact_manifest(
    items: Seq<Option<external::EntryModel>>,
    keep_pyc: bool,
    info: package::InfoModel,
    payload: package::PayloadModel,
    i: int,
)
    requires
        package::package_of(items, keep_pyc) == Ok::<_, package::ReadFault>((info, payload)),
        is_first_named(items, "+COMPACT_MANIFEST"@, i),
    ensures
        external::json_document(items[i]->0.content) matches Some(doc) && info.deps
            == package::info_of(doc).deps,
{
    lemma_scan_compact(items, keep_pyc, i);
}

/// Where there is no `+COMPACT_MANIFEST`, the first `+MANIFEST` says all.
pub proof fn lemma_info_of_manifest(
    items: Seq<Option<external::EntryModel>>,
    keep_pyc: bool,
    info: package::InfoModel,
    payload: package::PayloadModel,
    i: int,
)
    requires
        package::package_of(items, keep_pyc) == Ok::<_, package::ReadFault>((info, payload)),
        has_none_named(items, "+COMPACT_MANIFEST"@),
        is_first_named(items, "+MANIFEST"@, i),
    ensures
        external::json_document(items[i]->0.content) matches Some(doc) && info
            == package::info_of(doc),
{
    lemma_scan_manifest(items, keep_pyc, i);
}

/// A file of a dist-info directory whose name is no bytecode is none.
proof fn lemma_dist_info_path(dist: Seq<char>, name: Seq<char>)
    requires
        !dist.contains('/'),
        text::ends_with(dist, ".dist-info"@),
        !name.contains('/'),
        name.len() > 0,
        name.last() != 'c',
    ensures
        may_hold(paths::path_in(dist, name), false),
{
    reveal_strlit("/");
    reveal_strlit("__pycache__/");
    reveal_strlit(".pyc");
    reveal_strlit(".dist-info");
    let path = paths::path_in(dist, name);
    let n = dist.len() as int;
    assert(dist[n - 1] == dist.skip(n - 10)[9]);
    if text::ends_with(path, ".pyc"@) {
        assert(path.last() == path.skip(path.len() - 4)[3]);
        assert(path.last() == name.last());
    }
    if text::contains(path, "__pycache__/"@) {
        let i = choose|i: int| text::occurs_at(path, "__pycache__/"@, i);
        let part = path.subrange(i, i + 12);
        assert(path[i + 11] == part[11]);
        assert(path[i + 10] == part[10]);
        assert(i + 11 == n) by {
            if i + 11 < n {
                assert(dist[i + 11] == '/');
            } else if i + 11 > n {
                assert(name[i + 11 - n - 1] == '/');
            }
        }
        assert(path[i + 10] == dist[n - 1]);
    }
}

/// The files that a dist-info directory gets are no bytecode.
proof fn lemma_made_files(dist: Seq<char>)
    requires
        !dist.contains('/'),
        text::ends_with(dist, ".dist-info"@),
    ensures
        may_hold(paths::path_in(dist, "METADATA"@), false),
        may_hold(paths::path_in(dist, "WHEEL"@), false),
        may_hold(paths::path_in(dist, "RECORD"@), false),
        may_hold(paths::path_in(dist, "entry_points.txt"@), false),
{
    reveal_strlit("METADATA");
    reveal_strlit("WHEEL");
    reveal_strlit("RECORD");
    reveal_strlit("entry_points.txt");
    lemma_dist_info_path(dist, "METADATA"@);
    lemma_dist_info_path(dist, "WHEEL"@);
    lemma_dist_info_path(dist, "RECORD"@);
    lemma_dist_info_path(dist, "entry_points.txt"@);
}

/// The wheel of a payload in good order holds no bytecode unless that is kept.
pub proof fn lemma_planned_may_hold(
    payload: package::PayloadModel,
    platform: Seq<char>,
    keep_pyc: bool,
    i: int,
)
    requires
        in_good_order(payload, keep_pyc),
        convert::planned(payload, platform) is Ok,
        0 <= i < convert::planned(payload, platform)->Ok_0.members.len(),
    ensures
        may_hold(convert::planned(payload, platform)->Ok_0.members[i].0, keep_pyc),
{
    let files = convert::dist_info_layout(payload)->Ok_0;
    let dist = convert::dist_info_dirs(files)[0];
    let content = external::utf8_lossy(files[paths::path_in(dist, "WHEEL"@)].data);
    let wheel_file = crate::wheel::restamped(content, platform)->Ok_0.0;
    let all = convert::wheel_members(files, dist, wheel_file);
    lemma_layout(payload, keep_pyc);
    members::lemma_dist_info_dirs(files);
    assert(convert::dist_info_dirs(files).contains(dist));
    let p = choose|p: Seq<char>|
        files.contains_key(p) && #[trigger] paths::dir_with(p, ".dist-info"@) == Some(dist);
    paths::lemma_dir_of(p);
    lemma_made_files(dist);
    assert(all.contains(all[i]));
    members::lemma_wheel_holds_no_more(files, dist, wheel_file, all[i]);
}

/// The dist-info layout of a payload in good order is in good order.
proof fn lemma_layout(payload: package::PayloadModel, keep_pyc: bool)
    requires
        in_good_order(payload, keep_pyc),
        convert::dist_info_layout(payload) is Ok,
    ensures
        convert::dist_info_layout(payload)->Ok_0.dom().finite(),
        forall|p: Seq<char>| #[trigger]
            convert::dist_info_layout(payload)->Ok_0.contains_key(p) ==> may_hold(p, keep_pyc),
{
    let files = payload.files;
    if !convert::has_dist_info(files) {
        let dir = egg::egg_dir(files)->0;
        let dist = egg::dist_info_for(dir)->0;
        eggs::lemma_directories(files);
        lemma_made_files(dist);
        let kept = egg::outside(files, dir);
        assert(kept.dom() =~= files.dom().intersect(
            Set::new(|p: Seq<char>| !paths::is_under(p, dir)),
        ));
        let after = egg::egg_converted(payload).0;
        assert forall|p: Seq<char>| #[trigger] after.contains_key(p) implies may_hold(
            p,
            keep_pyc,
        ) by {
            if kept.contains_key(p) {
                assert(files.contains_key(p));
            }
        }
    }
}

/// Converting a package leaves out bytecode unless that is to be kept.
pub proof fn lemma_conversion_may_hold(
    data: Seq<u8>,
    platform: Seq<char>,
    keep_pyc: bool,
    i: int,
)
    requires
        convert::conversion(data, platform, keep_pyc) is Ok,
        0 <= i < convert::conversion(data, platform, keep_pyc)->Ok_0.1.members.len(),
    ensures
        may_hold(convert::conversion(data, platform, keep_pyc)->Ok_0.1.members[i].0, keep_pyc),
{
    let payload = package::package_in(data, keep_pyc)->Ok_0.1;
    lemma_package_in_good_order(data, keep_pyc);
    lemma_planned_may_hold(payload, platform, keep_pyc, i);
}

/// The file goes into the wheel as it is: it lies neither in an egg-info directory that is
/// converted, nor is it written anew, nor the installer's own.
pub open spec fn is_carried_over(payload: package::PayloadModel, path: Seq<char>) -> bool {
    &&& payload.files.contains_key(path)
    &&& convert::has_dist_info(payload.files) || !paths::is_under(
        path,
        egg::egg_dir(payload.files)->0,
    )
    &&& !convert::is_replaced(
        path,
        convert::dist_info_dirs(convert::dist_info_layout(payload)->Ok_0)[0],
    )
}

/// A planned wheel holds what its payload holds: every file but those that are made anew, with
/// its content as it is.
pub proof fn lemma_planned_holds_files(
    payload: package::PayloadModel,
    platform: Seq<char>,
    path: Seq<char>,
)
    requires
        payload.files.dom().finite(),
        convert::planned(payload, platform) is Ok,
        is_carried_over(payload, path),
    ensures
        convert::planned(payload, platform)->Ok_0.members.contains(
            members::member_of(payload.files, path),
        ),
{
    let files = payload.files;
    let after = convert::dist_info_layout(payload)->Ok_0;
    let dist = convert::dist_info_dirs(after)[0];
    let content = external::utf8_lossy(after[paths::path_in(dist, "WHEEL"@)].data);
    let wheel_file = crate::wheel::restamped(content, platform)->Ok_0.0;
    if !convert::has_dist_info(files) {
        let dir = egg::egg_dir(files)->0;
        let made = egg::dist_info_for(dir)->0;
        let tag = egg::payload_tag(
            egg::is_compiled(egg::without_metadata(files, dir)),
            payload.pyver,
        )->0;
        assert(egg::converts(payload, dir, made, tag));
        eggs::lemma_directories(files);
        eggs::lemma_dist_info_made(payload, dir, made, tag);
        if paths::is_under(path, made) {
            paths::lemma_dir_of_under(path, made);
            assert(paths::dir_with(path, ".dist-info"@) is Some);
        }
        let kept = egg::outside(files, dir);
        assert(kept.dom() =~= files.dom().intersect(
            Set::new(|p: Seq<char>| !paths::is_under(p, dir)),
        ));
    }
    members::lemma_wheel_holds_payload(after, dist, wheel_file, path);
}

/// Converting a package carries its files over into the wheel.
pub proof fn lemma_conversion_holds_files(
    data: Seq<u8>,
    platform: Seq<char>,
    keep_pyc: bool,
    info: package::InfoModel,
    payload: package::PayloadModel,
    path: Seq<char>,
)
    requires
        package::package_in(data, keep_pyc) == Ok::<_, package::ReadFault>((info, payload)),
        convert::conversion(data, platform, keep_pyc) is Ok,
        is_carried_over(payload, path),
    ensures
        convert::conversion(data, platform, keep_pyc)->Ok_0.1.members.contains(
            members::member_of(payload.files, path),
        ),
{
    lemma_package_in_good_order(data, keep_pyc);
    lemma_planned_holds_files(payload, platform, path);
}

} // verus!
