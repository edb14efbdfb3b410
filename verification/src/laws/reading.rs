//! What a payload takes in of each member of an archive, and what a manifest says.
use crate::external;
use crate::external::JsonModel;
use crate::laws::texts;
use crate::package;
use crate::package::FileModel;
use crate::package::PayloadModel;
use crate::text;
use vstd::prelude::*;

verus! {

// ---------------------------------------------------------------------------
// Paths
// ---------------------------------------------------------------------------

/// The path leads through a `site-packages` directory, first after `before`, to `rel`.
pub open spec fn leads_to(path: Seq<char>, before: Seq<char>, rel: Seq<char>) -> bool {
    &&& path == before + "/site-packages/"@ + rel
    &&& forall|x: Seq<char>, y: Seq<char>|
        x.len() < before.len() ==> path != #[trigger] (x + "/site-packages/"@ + y)
}

/// The path leads through no `site-packages` directory.
pub open spec fn leads_past(path: Seq<char>) -> bool {
    forall|x: Seq<char>, y: Seq<char>| path != #[trigger] (x + "/site-packages/"@ + y)
}

/// The text holds a part.
pub open spec fn holds(s: Seq<char>, part: Seq<char>) -> bool {
    exists|x: Seq<char>, y: Seq<char>| s == #[trigger] (x + part + y)
}

proof fn lemma_holds(s: Seq<char>, part: Seq<char>)
    ensures
        text::contains(s, part) <==> holds(s, part),
{
    if text::contains(s, part) {
        let i = choose|i: int| text::occurs_at(s, part, i);
        texts::lemma_occurs_at_is(s, part, i);
        assert(s == s.take(i) + part + s.skip(i + part.len()));
    }
    if holds(s, part) {
        let (x, y) = choose|x: Seq<char>, y: Seq<char>| s == #[trigger] (x + part + y);
        texts::lemma_occurs_at(x, part, y);
    }
}

proof fn lemma_leads_to(path: Seq<char>, before: Seq<char>, rel: Seq<char>)
    requires
        leads_to(path, before, rel),
    ensures
        package::site_split(path) == Some((before, rel)),
{
    let site = "/site-packages/"@;
    texts::lemma_split_once(path, site);
    assert(path == before + site + rel);
    match text::split_once(path, site) {
        Some((a, b)) => {
            assert(path == a + site + b);
            assert(!(a.len() < before.len()));
            assert(!(before.len() < a.len()));
            assert(path.take(a.len() as int) =~= a);
            assert(path.take(before.len() as int) =~= before);
            assert(path.skip((a.len() + site.len()) as int) =~= b);
            assert(path.skip((before.len() + site.len()) as int) =~= rel);
        },
        None => {},
    }
}

proof fn lemma_leads_past(path: Seq<char>)
    requires
        leads_past(path),
    ensures
        package::site_split(path) is None,
{
    texts::lemma_split_once(path, "/site-packages/"@);
    if let Some((a, b)) = text::split_once(path, "/site-packages/"@) {
        assert(path == a + "/site-packages/"@ + b);
    }
}

/// The path is that of bytecode.
pub open spec fn is_compiled_python(rel: Seq<char>) -> bool {
    holds(rel, "__pycache__/"@) || exists|stem: Seq<char>| rel == #[trigger] (stem + ".pyc"@)
}

proof fn lemma_bytecode(rel: Seq<char>)
    ensures
        package::is_bytecode(rel) <==> is_compiled_python(rel),
{
    lemma_holds(rel, "__pycache__/"@);
    texts::lemma_ends_with(rel, ".pyc"@);
}

// ---------------------------------------------------------------------------
// Members
// ---------------------------------------------------------------------------

/// The payload after a member that is neither taken in nor noted.
pub open spec fn is_passed_over(before: PayloadModel, after: PayloadModel) -> bool {
    after.files == before.files && after.skipped == before.skipped && after.lost == before.lost
}

/// A regular file under `site-packages` is taken in, with its content and its mode, or a usual
/// mode where it has none.
pub proof fn lemma_regular_file(
    payload: PayloadModel,
    before: Seq<char>,
    rel: Seq<char>,
    mode: Option<u32>,
    target: Seq<char>,
    content: Seq<u8>,
    keep_pyc: bool,
)
    requires
        leads_to(before + "/site-packages/"@ + rel, before, rel),
        rel.len() > 0,
        keep_pyc || !is_compiled_python(rel),
    ensures
        ({
            let path = before + "/site-packages/"@ + rel;
            let after = package::placed(payload, path, 0x30u8, mode, target, content, keep_pyc);
            let bits: u32 = match mode {
                Some(m) => m,
                None => 0o644,
            };
            &&& after.files == payload.files.insert(
                rel,
                (FileModel { mode: bits, data: content }),
            )
            &&& after.skipped == payload.skipped
            &&& after.lost == payload.lost
        }),
{
    let path = before + "/site-packages/"@ + rel;
    lemma_leads_to(path, before, rel);
    lemma_bytecode(rel);
}

/// Directories, the `site-packages` directory itself, and bytecode that is not to be kept are
/// passed over.
pub proof fn lemma_passed_over(
    payload: PayloadModel,
    before: Seq<char>,
    rel: Seq<char>,
    kind: u8,
    mode: Option<u32>,
    target: Seq<char>,
    content: Seq<u8>,
    keep_pyc: bool,
)
    requires
        leads_to(before + "/site-packages/"@ + rel, before, rel),
        rel.len() == 0 || kind == 0x35u8 || (!keep_pyc && is_compiled_python(rel)),
    ensures
        is_passed_over(
            payload,
            package::placed(
                payload,
                before + "/site-packages/"@ + rel,
                kind,
                mode,
                target,
                content,
                keep_pyc,
            ),
        ),
{
    lemma_leads_to(before + "/site-packages/"@ + rel, before, rel);
    lemma_bytecode(rel);
}

/// A hard link under `site-packages` becomes a copy of a file that was taken in before; one to
/// anything else is noted with its target.
pub proof fn lemma_hard_link(
    payload: PayloadModel,
    before: Seq<char>,
    rel: Seq<char>,
    mode: Option<u32>,
    target: Seq<char>,
    target_before: Seq<char>,
    target_rel: Seq<char>,
    content: Seq<u8>,
    keep_pyc: bool,
)
    requires
        leads_to(before + "/site-packages/"@ + rel, before, rel),
        rel.len() > 0,
        keep_pyc || !is_compiled_python(rel),
    ensures
        ({
            let path = before + "/site-packages/"@ + rel;
            let after = package::placed(payload, path, 0x31u8, mode, target, content, keep_pyc);
            &&& after.skipped == payload.skipped
            &&& leads_to(target, target_before, target_rel) && payload.files.contains_key(
                target_rel,
            ) ==> after.files == payload.files.insert(rel, payload.files[target_rel])
                && after.lost == payload.lost
            &&& leads_to(target, target_before, target_rel) && !payload.files.contains_key(
                target_rel,
            ) ==> after.files == payload.files && after.lost == payload.lost.push(
                path + " (hardlink -> unread "@ + target + ")"@,
            )
            &&& leads_past(target) ==> after.files == payload.files && after.lost
                == payload.lost.push(path + " (hardlink -> "@ + target + ")"@)
        }),
{
    lemma_leads_to(before + "/site-packages/"@ + rel, before, rel);
    lemma_bytecode(rel);
    if leads_to(target, target_before, target_rel) {
        lemma_leads_to(target, target_before, target_rel);
    }
    if leads_past(target) {
        lemma_leads_past(target);
    }
}

/// Anything else under `site-packages` is noted with what it is.
pub proof fn lemma_other_kind(
    payload: PayloadModel,
    before: Seq<char>,
    rel: Seq<char>,
    kind: u8,
    mode: Option<u32>,
    target: Seq<char>,
    content: Seq<u8>,
    keep_pyc: bool,
)
    requires
        leads_to(before + "/site-packages/"@ + rel, before, rel),
        rel.len() > 0,
        keep_pyc || !is_compiled_python(rel),
        kind != 0x30u8 && kind != 0x31u8 && kind != 0x35u8,
    ensures
        ({
            let path = before + "/site-packages/"@ + rel;
            let after = package::placed(payload, path, kind, mode, target, content, keep_pyc);
            &&& after.files == payload.files
            &&& after.skipped == payload.skipped
            &&& after.lost.drop_last() == payload.lost
            &&& after.lost.len() > 0
            &&& kind == 0x32u8 ==> after.lost.last() == path + " (Symlink)"@
            &&& kind == 0x33u8 ==> after.lost.last() == path + " (Char)"@
            &&& kind == 0x34u8 ==> after.lost.last() == path + " (Block)"@
            &&& kind == 0x36u8 ==> after.lost.last() == path + " (Fifo)"@
            &&& kind == 0x37u8 ==> after.lost.last() == path + " (Continuous)"@
            &&& kind == 0x4cu8 ==> after.lost.last() == path + " (GNULongName)"@
            &&& kind == 0x4bu8 ==> after.lost.last() == path + " (GNULongLink)"@
            &&& kind == 0x53u8 ==> after.lost.last() == path + " (GNUSparse)"@
            &&& kind == 0x67u8 ==> after.lost.last() == path + " (XGlobalHeader)"@
            &&& kind == 0x78u8 ==> after.lost.last() == path + " (XHeader)"@
            &&& kind != 0x32u8 && kind != 0x33u8 && kind != 0x34u8 && kind != 0x36u8 && kind
                != 0x37u8 && kind != 0x4cu8 && kind != 0x4bu8 && kind != 0x53u8 && kind != 0x67u8
                && kind != 0x78u8 ==> after.lost.last() == path + " (__Nonexhaustive("@
                + text::decimal(kind as nat) + "))"@
        }),
{
    let path = before + "/site-packages/"@ + rel;
    lemma_leads_to(path, before, rel);
    lemma_bytecode(rel);
    let after = package::placed(payload, path, kind, mode, target, content, keep_pyc);
    assert(after.lost.drop_last() =~= payload.lost);
    let note = path + " ("@ + package::kind_label(kind) + ")"@;
    assert(after.lost.last() == note);
    reveal_strlit(" (");
    reveal_strlit(")");
    if kind == 0x32u8 {
        reveal_strlit("Symlink");
        reveal_strlit(" (Symlink)");
        assert(note =~= path + " (Symlink)"@);
    } else if kind == 0x33u8 {
        reveal_strlit("Char");
        reveal_strlit(" (Char)");
        assert(note =~= path + " (Char)"@);
    } else if kind == 0x34u8 {
        reveal_strlit("Block");
        reveal_strlit(" (Block)");
        assert(note =~= path + " (Block)"@);
    } else if kind == 0x36u8 {
        reveal_strlit("Fifo");
        reveal_strlit(" (Fifo)");
        assert(note =~= path + " (Fifo)"@);
    } else if kind == 0x37u8 {
        reveal_strlit("Continuous");
        reveal_strlit(" (Continuous)");
        assert(note =~= path + " (Continuous)"@);
    } else if kind == 0x4cu8 {
        reveal_strlit("GNULongName");
        reveal_strlit(" (GNULongName)");
        assert(note =~= path + " (GNULongName)"@);
    } else if kind == 0x4bu8 {
        reveal_strlit("GNULongLink");
        reveal_strlit(" (GNULongLink)");
        assert(note =~= path + " (GNULongLink)"@);
    } else if kind == 0x53u8 {
        reveal_strlit("GNUSparse");
        reveal_strlit(" (GNUSparse)");
        assert(note =~= path + " (GNUSparse)"@);
    } else if kind == 0x67u8 {
        reveal_strlit("XGlobalHeader");
        reveal_strlit(" (XGlobalHeader)");
        assert(note =~= path + " (XGlobalHeader)"@);
    } else if kind == 0x78u8 {
        reveal_strlit("XHeader");
        reveal_strlit(" (XHeader)");
        assert(note =~= path + " (XHeader)"@);
    } else {
        reveal_strlit("__Nonexhaustive(");
        reveal_strlit(" (__Nonexhaustive(");
        reveal_strlit("))");
        assert(note =~= path + " (__Nonexhaustive("@ + text::decimal(kind as nat) + "))"@);
    }
}

/// A regular file elsewhere is noted by its path, but for documentation, licenses, manual pages
/// and examples; nothing else there is.
pub proof fn lemma_elsewhere(
    payload: PayloadModel,
    path: Seq<char>,
    kind: u8,
    mode: Option<u32>,
    target: Seq<char>,
    content: Seq<u8>,
    keep_pyc: bool,
)
    requires
        leads_past(path),
    ensures
        ({
            let after = package::placed(payload, path, kind, mode, target, content, keep_pyc);
            let expected = holds(path, "/share/doc/"@) || holds(path, "/share/licenses/"@) || holds(
                path,
                "/share/man/"@,
            ) || holds(path, "/share/examples/"@);
            &&& kind == 0x30u8 && !expected ==> after.files == payload.files && after.lost
                == payload.lost && after.skipped == payload.skipped.push(path)
            &&& kind != 0x30u8 || expected ==> is_passed_over(payload, after)
        }),
{
    lemma_leads_past(path);
    lemma_holds(path, "/share/doc/"@);
    lemma_holds(path, "/share/licenses/"@);
    lemma_holds(path, "/share/man/"@);
    lemma_holds(path, "/share/examples/"@);
}

/// The python version is that of the first path that names one: what follows `python` in the name
/// of the directory that holds `site-packages`.
pub proof fn lemma_python_version(
    payload: PayloadModel,
    path: Seq<char>,
    before: Seq<char>,
    rel: Seq<char>,
    parent: Seq<char>,
    name: Seq<char>,
    kind: u8,
    mode: Option<u32>,
    target: Seq<char>,
    content: Seq<u8>,
    keep_pyc: bool,
)
    requires
        !name.contains('/'),
    ensures
        ({
            let after = package::placed(payload, path, kind, mode, target, content, keep_pyc);
            &&& payload.pyver is Some ==> after.pyver == payload.pyver
            &&& payload.pyver is None && leads_past(path) ==> after.pyver is None
            &&& payload.pyver is None && leads_to(path, before, rel) && (before == name || before
                == parent + "/"@ + name) ==> {
                &&& forall|version: Seq<char>|
                    name == #[trigger] ("python"@ + version) ==> after.pyver == Some(version)
                &&& (forall|version: Seq<char>| name != #[trigger] ("python"@ + version))
                    ==> after.pyver is None
            }
        }),
{
    reveal_strlit("/");
    reveal_strlit("python");
    if leads_past(path) {
        lemma_leads_past(path);
    }
    if leads_to(path, before, rel) && (before == name || before == parent + "/"@ + name) {
        lemma_leads_to(path, before, rel);
        if before == parent + "/"@ + name {
            assert(before =~= parent + seq!['/'] + name);
            texts::lemma_rsplit_once_char(parent, '/', name);
        } else {
            text::lemma_rfind_below(name, '/', name.len() as int);
            if let Some(i) = text::rfind(name, '/') {
                assert(name.contains(name[i]));
            }
        }
        assert(package::last_segment(before) == name);
        texts::lemma_starts_with(name, "python"@);
        assert forall|version: Seq<char>| name == #[trigger] ("python"@ + version) implies
            text::strip_prefix(name, "python"@) == Some(version) by {
            assert(name.skip(6) =~= version);
            let rest = text::strip_prefix(name, "python"@)->0;
            assert(name == "python"@ + rest);
            assert(name.skip(6) =~= rest);
        }
    }
}

// ---------------------------------------------------------------------------
// Manifests
// ---------------------------------------------------------------------------

/// The `i`-th member of an object is the first with its name.
pub open spec fn is_first(members: Seq<(Seq<char>, JsonModel)>, i: int) -> bool {
    0 <= i < members.len() && forall|j: int| 0 <= j < i ==> (#[trigger] members[j]).0
        != members[i].0
}

/// No member of an object has the name.
pub open spec fn has_no(members: Seq<(Seq<char>, JsonModel)>, name: Seq<char>) -> bool {
    forall|j: int| 0 <= j < members.len() ==> (#[trigger] members[j]).0 != name
}

proof fn lemma_member_from(members: Seq<(Seq<char>, JsonModel)>, name: Seq<char>, i: int, k: int)
    requires
        0 <= k,
    ensures
        is_first(members, i) && members[i].0 == name && k <= i ==> package::member_from(
            members,
            name,
            k,
        ) == members[i].1,
        has_no(members, name) ==> package::member_from(members, name, k) == JsonModel::Null,
    decreases members.len() - k,
{
    if k < members.len() {
        lemma_member_from(members, name, i, k + 1);
    }
}

/// The name and the version of a package are the texts that the members `name` and `version` of
/// its manifest are, and empty where these are no texts or not there.
pub proof fn lemma_manifest_texts(members: Seq<(Seq<char>, JsonModel)>, i: int, s: Seq<char>)
    ensures
        ({
            let info = package::info_of(JsonModel::Object(members));
            &&& is_first(members, i) && members[i] == ("name"@, JsonModel::Text(s)) ==> info.name
                == s
            &&& is_first(members, i) && members[i] == ("version"@, JsonModel::Text(s))
                ==> info.version == s
            &&& is_first(members, i) && members[i].0 == "name"@ && !(members[i].1 is Text)
                ==> info.name.len() == 0
            &&& is_first(members, i) && members[i].0 == "version"@ && !(members[i].1 is Text)
                ==> info.version.len() == 0
            &&& has_no(members, "name"@) ==> info.name.len() == 0
            &&& has_no(members, "version"@) ==> info.version.len() == 0
        }),
{
    lemma_member_from(members, "name"@, i, 0);
    lemma_member_from(members, "version"@, i, 0);
}

/// The dependencies of a package are the names of the members of the object `deps`; where there
/// is none, the package has no dependencies.
pub proof fn lemma_manifest_deps(
    members: Seq<(Seq<char>, JsonModel)>,
    i: int,
    deps: Seq<(Seq<char>, JsonModel)>,
    name: Seq<char>,
)
    ensures
        ({
            let info = package::info_of(JsonModel::Object(members));
            &&& is_first(members, i) && members[i] == ("deps"@, JsonModel::Object(deps)) ==> (
            info.deps.contains_key(name) <==> !has_no(deps, name))
            &&& is_first(members, i) && members[i].0 == "deps"@ && !(members[i].1 is Object)
                ==> !info.deps.contains_key(name)
            &&& has_no(members, "deps"@) ==> !info.deps.contains_key(name)
        }),
{
    lemma_member_from(members, "deps"@, i, 0);
    lemma_dep_names(deps, name);
}

proof fn lemma_dep_names(deps: Seq<(Seq<char>, JsonModel)>, name: Seq<char>)
    ensures
        package::dep_versions(deps).contains_key(name) <==> !has_no(deps, name),
    decreases deps.len(),
{
    if deps.len() > 0 {
        let head = deps.drop_last();
        lemma_dep_names(head, name);
        if !has_no(head, name) {
            let j = choose|j: int| 0 <= j < head.len() && (#[trigger] head[j]).0 == name;
            assert(deps[j].0 == name);
        }
        if !has_no(deps, name) {
            let j = choose|j: int| 0 <= j < deps.len() && (#[trigger] deps[j]).0 == name;
            if j < head.len() {
                assert(head[j].0 == name);
            }
        }
    }
}

/// The version of a dependency is the text that the member `version` of its object is, and empty
/// where that is no text or not there.
pub proof fn lemma_manifest_dep_version(
    members: Seq<(Seq<char>, JsonModel)>,
    i: int,
    deps: Seq<(Seq<char>, JsonModel)>,
    k: int,
    fields: Seq<(Seq<char>, JsonModel)>,
    v: int,
    version: Seq<char>,
)
    requires
        is_first(members, i),
        members[i] == ("deps"@, JsonModel::Object(deps)),
        0 <= k < deps.len(),
        forall|j: int| k < j < deps.len() ==> (#[trigger] deps[j]).0 != deps[k].0,
    ensures
        ({
            let info = package::info_of(JsonModel::Object(members));
            &&& deps[k].1 == JsonModel::Object(fields) && is_first(fields, v) && fields[v] == (
                "version"@,
                JsonModel::Text(version),
            ) ==> info.deps[deps[k].0] == version
            &&& deps[k].1 == JsonModel::Object(fields) && has_no(fields, "version"@)
                ==> info.deps[deps[k].0].len() == 0
            &&& deps[k].1 == JsonModel::Object(fields) && is_first(fields, v) && fields[v].0
                == "version"@ && !(fields[v].1 is Text) ==> info.deps[deps[k].0].len() == 0
            &&& !(deps[k].1 is Object) ==> info.deps[deps[k].0].len() == 0
        }),
{
    lemma_member_from(members, "deps"@, i, 0);
    lemma_member_from(fields, "version"@, v, 0);
    lemma_dep_version(deps, k);
}

proof fn lemma_dep_version(deps: Seq<(Seq<char>, JsonModel)>, k: int)
    requires
        0 <= k < deps.len(),
        forall|j: int| k < j < deps.len() ==> (#[trigger] deps[j]).0 != deps[k].0,
    ensures
        package::dep_versions(deps)[deps[k].0] == package::text_value(
            package::member(deps[k].1, "version"@),
        ),
    decreases deps.len(),
{
    if k < deps.len() - 1 {
        let head = deps.drop_last();
        assert forall|j: int| k < j < head.len() implies (#[trigger] head[j]).0 != head[k].0 by {
            assert(head[j] == deps[j]);
        }
        lemma_dep_version(head, k);
    }
}

/// A manifest that is no object says nothing.
pub proof fn lemma_no_manifest_object(doc: JsonModel, name: Seq<char>)
    requires
        !(doc is Object),
    ensures
        package::info_of(doc).name.len() == 0,
        package::info_of(doc).version.len() == 0,
        !package::info_of(doc).deps.contains_key(name),
{
}

// ---------------------------------------------------------------------------
// Packages
// ---------------------------------------------------------------------------

/// What each member of an archive adds to what is known of a package.
pub proof fn lemma_scanned(
    scan: package::ScanModel,
    entry: external::EntryModel,
    keep_pyc: bool,
    rest: Seq<char>,
)
    ensures
        ({
            let path = external::utf8_lossy(entry.path);
            let next = package::scan_entry(scan, entry, keep_pyc);
            let doc = external::json_document(entry.content);
            let link = match entry.link {
                Some(l) => external::utf8_lossy(l),
                None => Seq::<char>::empty(),
            };
            &&& path == "+COMPACT_MANIFEST"@ && scan.compact ==> next == Ok::<
                _,
                package::ReadFault,
            >(scan)
            &&& path == "+COMPACT_MANIFEST"@ && !scan.compact && doc is None ==> next == Err::<
                package::ScanModel,
                _,
            >(package::ReadFault::Manifest("+COMPACT_MANIFEST"@))
            &&& path == "+COMPACT_MANIFEST"@ && !scan.compact && doc is Some && scan.info is None
                ==> (next matches Ok(s) && s.compact && s.payload == scan.payload && s.info == Some(
                package::info_of(doc->0),
            ))
            &&& path == "+COMPACT_MANIFEST"@ && !scan.compact && doc is Some && scan.info is Some
                ==> (next matches Ok(s) && s.compact && s.payload == scan.payload && (
            s.info matches Some(i) && i.name == scan.info->0.name && i.version
                == scan.info->0.version && i.deps == package::info_of(doc->0).deps))
            &&& path == "+MANIFEST"@ && scan.info is Some ==> next == Ok::<_, package::ReadFault>(
                scan,
            )
            &&& path == "+MANIFEST"@ && scan.info is None && doc is None ==> next == Err::<
                package::ScanModel,
                _,
            >(package::ReadFault::Manifest("+MANIFEST"@))
            &&& path == "+MANIFEST"@ && scan.info is None && doc is Some ==> (next matches Ok(s)
                && !s.compact && s.payload == scan.payload && s.info == Some(
                package::info_of(doc->0),
            ))
            &&& path == "+"@ + rest && path != "+MANIFEST"@ && path != "+COMPACT_MANIFEST"@
                ==> next == Ok::<_, package::ReadFault>(scan)
            &&& (path.len() == 0 || path[0] != '+') ==> (next matches Ok(s) && s.info == scan.info
                && s.compact == scan.compact && s.payload == package::placed(
                scan.payload,
                path,
                entry.kind,
                entry.mode,
                link,
                entry.content,
                keep_pyc,
            ))
        }),
{
    reveal_strlit("+");
    reveal_strlit("+MANIFEST");
    reveal_strlit("+COMPACT_MANIFEST");
    let path = external::utf8_lossy(entry.path);
    texts::lemma_starts_with(path, "+"@);
    if path.len() == 0 || path[0] != '+' {
        assert(path != "+MANIFEST"@) by {
            if path == "+MANIFEST"@ {
                assert(path[0] == '+');
            }
        }
        assert(path != "+COMPACT_MANIFEST"@) by {
            if path == "+COMPACT_MANIFEST"@ {
                assert(path[0] == '+');
            }
        }
        assert(!text::starts_with(path, "+"@)) by {
            if text::starts_with(path, "+"@) {
                let tail = choose|tail: Seq<char>| path == #[trigger] ("+"@ + tail);
                assert(path[0] == '+');
            }
        }
    }
    assert("+MANIFEST"@.len() != "+COMPACT_MANIFEST"@.len());
}

/// A package file is too short, is not compressed with zstd, or is what its members make of it.
pub proof fn lemma_package_file(data: Seq<u8>, keep_pyc: bool)
    ensures
        data.len() < 4 ==> package::package_in(data, keep_pyc) == Err::<
            (package::InfoModel, PayloadModel),
            _,
        >(package::ReadFault::TooShort),
        data.len() >= 4 && !(data[0] == 0x28 && data[1] == 0xb5 && data[2] == 0x2f && data[3]
            == 0xfd) ==> package::package_in(data, keep_pyc) == Err::<
            (package::InfoModel, PayloadModel),
            _,
        >(package::ReadFault::NotZstd(seq![data[0], data[1], data[2], data[3]])),
        data.len() >= 4 && data[0] == 0x28 && data[1] == 0xb5 && data[2] == 0x2f && data[3] == 0xfd
            ==> package::package_in(data, keep_pyc) == match external::package_items(data) {
            Some(items) => package::package_of(items, keep_pyc),
            None => Err(package::ReadFault::Archive),
        },
{
    if data.len() >= 4 {
        assert(data.take(4) =~= seq![data[0], data[1], data[2], data[3]]);
        let magic = package::zstd_magic();
        assert(magic[0] == 0x28 && magic[1] == 0xb5 && magic[2] == 0x2f && magic[3] == 0xfd);
        if data.take(4) == magic {
            assert(data[0] == magic[0] && data[1] == magic[1] && data[2] == magic[2] && data[3]
                == magic[3]);
        }
        if data[0] == 0x28 && data[1] == 0xb5 && data[2] == 0x2f && data[3] == 0xfd {
            assert(data.take(4) =~= magic);
        }
    }
}

/// A package is read member by member: nothing is known before the first, what the last one adds
/// is added to what those before it made known, and the first fault counts.
pub proof fn lemma_read_in_turn(
    items: Seq<Option<external::EntryModel>>,
    item: Option<external::EntryModel>,
    keep_pyc: bool,
)
    ensures
        package::scan_items(seq![], keep_pyc) matches Ok(s) && s.info is None && !s.compact
            && s.payload.files.dom() == Set::<Seq<char>>::empty() && s.payload.skipped.len() == 0
            && s.payload.lost.len() == 0 && s.payload.pyver is None,
        package::scan_items(items, keep_pyc) is Err ==> package::scan_items(
            items.push(item),
            keep_pyc,
        ) == package::scan_items(items, keep_pyc),
        package::scan_items(items, keep_pyc) is Ok && item is None ==> package::scan_items(
            items.push(item),
            keep_pyc,
        ) == Err::<package::ScanModel, _>(package::ReadFault::Archive),
        package::scan_items(items, keep_pyc) is Ok && item is Some ==> package::scan_items(
            items.push(item),
            keep_pyc,
        ) == package::scan_entry(package::scan_items(items, keep_pyc)->Ok_0, item->0, keep_pyc),
        match package::scan_items(items, keep_pyc) {
            Err(fault) => package::package_of(items, keep_pyc) == Err::<
                (package::InfoModel, PayloadModel),
                _,
            >(fault),
            Ok(s) => match s.info {
                Some(info) => package::package_of(items, keep_pyc) == Ok::<
                    _,
                    package::ReadFault,
                >((info, s.payload)),
                None => package::package_of(items, keep_pyc) == Err::<
                    (package::InfoModel, PayloadModel),
                    _,
                >(package::ReadFault::NoManifest),
            },
        },
{
    assert(items.push(item).drop_last() =~= items);
    assert(package::empty_payload().files.dom() =~= Set::<Seq<char>>::empty());
}

} // verus!
