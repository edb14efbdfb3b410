//! Reading packages.
use wheelfs::external::{Json, PkgEntry};
use wheelfs::package::{
    collect_package, manifest_info, read_pkg, Payload, ReadError, DIRECTORY, LINK, REGULAR,
};

const SITE: &str = "/usr/local/lib/python3.11/site-packages/";

fn key(path: &str) -> Vec<char> {
    path.chars().collect()
}

fn paths(p: &Payload) -> Vec<String> {
    (0..p.files.len()).map(|i| p.files.key_at(i).iter().collect()).collect()
}

fn place(p: &mut Payload, path: &str, kind: u8, target: &str, content: &[u8]) {
    p.place(path, kind, Some(0o600), target, content.to_vec(), false);
}

/// One member of a tar archive, with the path as it stands.
fn append(tar: &mut tar::Builder<Vec<u8>>, path: &str, kind: tar::EntryType, link: &str, data: &[u8]) {
    let mut header = tar::Header::new_ustar();
    header.as_mut_bytes()[..path.len()].copy_from_slice(path.as_bytes());
    header.set_mode(0o755);
    header.set_size(data.len() as u64);
    header.set_entry_type(kind);
    if !link.is_empty() {
        header.set_link_name_literal(link).unwrap();
    }
    header.set_cksum();
    tar.append(&header, data).unwrap();
}

fn pack(tar: tar::Builder<Vec<u8>>) -> Vec<u8> {
    zstd::encode_all(&tar.into_inner().unwrap()[..], 3).unwrap()
}

fn item(path: &[u8], kind: u8, content: &[u8]) -> Result<PkgEntry, std::io::Error> {
    Ok(PkgEntry { path: path.to_vec(), kind, mode: None, link: None, content: content.to_vec() })
}

#[test]
fn takes_in_files_under_site_packages() {
    let mut p = Payload::new();
    place(&mut p, &format!("{SITE}foo/__init__.py"), REGULAR, "", b"x");
    place(&mut p, &format!("{SITE}foo"), DIRECTORY, "", b"");
    place(&mut p, SITE, REGULAR, "", b"y");
    assert_eq!(paths(&p), ["foo/__init__.py"]);
    let file = p.files.get(&key("foo/__init__.py")).unwrap();
    assert_eq!((file.mode, &file.data[..]), (0o600, &b"x"[..]));
    assert_eq!(p.pyver.as_deref(), Some("3.11"));
    assert!(p.skipped.is_empty() && p.lost.is_empty());
}

#[test]
fn a_missing_mode_is_the_usual_one() {
    let mut p = Payload::new();
    p.place(&format!("{SITE}a.py"), REGULAR, None, "", b"".to_vec(), false);
    assert_eq!(p.files.get(&key("a.py")).unwrap().mode, 0o644);
}

#[test]
fn notes_files_whose_loss_may_matter() {
    let mut p = Payload::new();
    place(&mut p, "/usr/local/bin/foo", REGULAR, "", b"");
    place(&mut p, "/usr/local/share/doc/foo/README", REGULAR, "", b"");
    place(&mut p, "/usr/local/share/licenses/foo/LICENSE", REGULAR, "", b"");
    place(&mut p, "/usr/local/share/man/man1/foo.1", REGULAR, "", b"");
    place(&mut p, "/usr/local/share/examples/foo/x", REGULAR, "", b"");
    place(&mut p, "/usr/local/bin/link", b'2', "foo", b"");
    assert_eq!(p.skipped, ["/usr/local/bin/foo"]);
    assert!(p.lost.is_empty());
    assert_eq!(p.files.len(), 0);
    assert_eq!(p.pyver, None);
}

#[test]
fn notes_members_of_other_kinds() {
    let mut p = Payload::new();
    place(&mut p, &format!("{SITE}s"), b'2', "t", b"");
    place(&mut p, &format!("{SITE}c"), b'7', "", b"");
    place(&mut p, &format!("{SITE}u"), b'Z', "", b"");
    assert!(p.skipped.is_empty());
    assert_eq!(
        p.lost,
        [
            format!("{SITE}s (Symlink)"),
            format!("{SITE}c (Continuous)"),
            format!("{SITE}u (__Nonexhaustive(90))"),
        ]
    );
}

#[test]
fn leaves_out_bytecode_unless_kept() {
    for (keep, wanted) in [
        (false, vec!["foo/a.py"]),
        (true, vec!["foo/__pycache__/a.pyc", "foo/__pycache__/b", "foo/a.py", "foo/b.pyc"]),
    ] {
        let mut p = Payload::new();
        for name in ["foo/a.py", "foo/b.pyc", "foo/__pycache__/a.pyc", "foo/__pycache__/b"] {
            p.place(&format!("{SITE}{name}"), REGULAR, None, "", Vec::new(), keep);
        }
        assert_eq!(paths(&p), wanted);
    }
}

#[test]
fn a_hard_link_is_a_copy() {
    let mut p = Payload::new();
    place(&mut p, &format!("{SITE}a.py"), REGULAR, "", b"same");
    p.place(&format!("{SITE}b.py"), LINK, Some(0o777), &format!("{SITE}a.py"), Vec::new(), false);
    let (a, b) = (p.files.get(&key("a.py")).unwrap(), p.files.get(&key("b.py")).unwrap());
    assert_eq!((a.mode, &a.data), (b.mode, &b.data));
    assert!(p.skipped.is_empty() && p.lost.is_empty());
}

#[test]
fn notes_hard_links_that_lead_nowhere() {
    let mut p = Payload::new();
    place(&mut p, &format!("{SITE}a.py"), LINK, "/usr/local/bin/a", b"");
    place(&mut p, &format!("{SITE}b.py"), LINK, &format!("{SITE}later.py"), b"");
    assert!(p.skipped.is_empty());
    assert_eq!(
        p.lost,
        [
            format!("{SITE}a.py (hardlink -> /usr/local/bin/a)"),
            format!("{SITE}b.py (hardlink -> unread {SITE}later.py)"),
        ]
    );
    assert_eq!(p.files.len(), 0);
}

#[test]
fn the_first_python_version_counts() {
    let mut p = Payload::new();
    place(&mut p, "lib/other/site-packages/a", REGULAR, "", b"");
    assert_eq!(p.pyver, None);
    place(&mut p, "lib/python3.12/site-packages/b", REGULAR, "", b"");
    place(&mut p, "lib/python2.7/site-packages/c", REGULAR, "", b"");
    assert_eq!(p.pyver.as_deref(), Some("3.12"));
    let mut q = Payload::new();
    place(&mut q, "python3/site-packages/a", REGULAR, "", b"");
    assert_eq!(q.pyver.as_deref(), Some("3"));
}

#[test]
fn reads_what_a_manifest_says() {
    let dep = |v: &str| Json::Object(vec![("version".to_string(), Json::Text(v.to_string()))]);
    let doc = Json::Object(vec![
        ("name".to_string(), Json::Text("py311-foo".to_string())),
        ("version".to_string(), Json::Number("1".to_string())),
        (
            "deps".to_string(),
            Json::Object(vec![
                ("b".to_string(), dep("2")),
                ("a".to_string(), dep("1")),
                ("c".to_string(), Json::Null),
            ]),
        ),
    ]);
    let info = manifest_info(&doc);
    assert_eq!((info.name.as_str(), info.version.as_str()), ("py311-foo", ""));
    let deps: Vec<(String, String)> = (0..info.deps.len())
        .map(|i| (info.deps.key_at(i).iter().collect(), info.deps.value_at(i).clone()))
        .collect();
    let expected = [("a", "1"), ("b", "2"), ("c", "")];
    assert_eq!(deps, expected.map(|(k, v)| (k.to_string(), v.to_string())));
}

#[test]
fn a_manifest_of_another_shape_says_nothing() {
    for doc in [Json::Null, Json::Bool(true), Json::List(vec![Json::Null])] {
        let info = manifest_info(&doc);
        assert_eq!((info.name.as_str(), info.version.as_str(), info.deps.len()), ("", "", 0));
    }
    let odd = Json::Object(vec![("deps".to_string(), Json::List(vec![]))]);
    assert_eq!(manifest_info(&odd).deps.len(), 0);
}

#[test]
fn the_first_manifest_counts() {
    let items = vec![
        item(b"+COMPACT_MANIFEST", REGULAR, br#"{"name": "first"}"#),
        item(b"+MANIFEST", REGULAR, b"not json"),
        item(b"+POST_INSTALL", REGULAR, b"echo"),
        item(b"/usr/local/lib/python3.11/site-packages/a.py", REGULAR, b""),
    ];
    let (info, payload) = collect_package(items, false).unwrap();
    assert_eq!(info.name, "first");
    assert_eq!(paths(&payload), ["a.py"]);
    assert!(payload.skipped.is_empty());
}

#[test]
fn dependencies_are_those_of_the_compact_manifest() {
    let manifest = |name, deps: &[u8]| {
        let text = [b"{\"name\": \"", deps, b"\", \"deps\": {\"", deps, b"\": {\"version\": \"1\"}}}"];
        item(name, REGULAR, &text.concat())
    };
    let read = |items| {
        let (info, _) = collect_package(items, false).unwrap();
        let deps: String = info.deps.key_at(0).iter().collect();
        assert_eq!(info.deps.len(), 1);
        (info.name, deps)
    };
    let pair = |a: &str, b: &str| (a.to_string(), b.to_string());
    let (full, compact): (&[u8], &[u8]) = (b"+MANIFEST", b"+COMPACT_MANIFEST");
    assert_eq!(read(vec![manifest(full, b"a"), manifest(compact, b"b")]), pair("a", "b"));
    assert_eq!(read(vec![manifest(compact, b"b"), manifest(full, b"a")]), pair("b", "b"));
    assert_eq!(read(vec![manifest(full, b"a"), manifest(full, b"c")]), pair("a", "a"));
    assert_eq!(
        read(vec![manifest(full, b"a"), manifest(compact, b"b"), manifest(compact, b"c")]),
        pair("a", "b")
    );
}

#[test]
fn refuses_a_broken_compact_manifest_after_another() {
    let items = vec![item(b"+MANIFEST", REGULAR, b"{}"), item(b"+COMPACT_MANIFEST", REGULAR, b"{")];
    match collect_package(items, false) {
        Err(ReadError::Manifest(name, _)) => assert_eq!(name, "+COMPACT_MANIFEST"),
        _ => panic!("a broken manifest was read"),
    }
}

#[test]
fn refuses_a_broken_manifest() {
    let items = vec![item(b"+MANIFEST", REGULAR, b"{")];
    match collect_package(items, false) {
        Err(ReadError::Manifest(name, _)) => assert_eq!(name, "+MANIFEST"),
        _ => panic!("a broken manifest was read"),
    }
}

#[test]
fn refuses_a_package_without_a_manifest() {
    let items = vec![item(b"/usr/local/bin/a", REGULAR, b"")];
    assert!(matches!(collect_package(items, false), Err(ReadError::NoManifest)));
    assert!(matches!(collect_package(Vec::new(), false), Err(ReadError::NoManifest)));
}

#[test]
fn stops_at_a_member_that_cannot_be_read() {
    let broken = Err(std::io::Error::new(std::io::ErrorKind::Other, "broken"));
    let items = vec![item(b"+MANIFEST", REGULAR, b"{}"), broken, item(b"+MANIFEST", REGULAR, b"{")];
    assert!(matches!(collect_package(items, false), Err(ReadError::Archive(_))));
}

#[test]
fn replaces_bytes_of_a_path_that_are_no_text() {
    let mut path = SITE.as_bytes().to_vec();
    path.push(0xff);
    let items = vec![item(b"+MANIFEST", REGULAR, b"{}"), item(&path, REGULAR, b"")];
    let (_, payload) = collect_package(items, false).unwrap();
    assert_eq!(paths(&payload), ["\u{fffd}"]);
}

#[test]
fn reads_a_package_file() {
    let mut tar = tar::Builder::new(Vec::new());
    let manifest = br#"{"name": "py311-foo", "version": "1.2", "deps": {
        "python311": {"origin": "lang/python311", "version": "3.11.9"},
        "py311-six": {"version": "1.16"}, "odd": 3}}"#;
    append(&mut tar, "+COMPACT_MANIFEST", tar::EntryType::Regular, "", manifest);
    append(&mut tar, &format!("{SITE}foo.py"), tar::EntryType::Regular, "", b"x = 1\n");
    append(&mut tar, &format!("{SITE}bar.py"), tar::EntryType::Link, &format!("{SITE}foo.py"), b"");
    append(&mut tar, &format!("{SITE}dir"), tar::EntryType::Directory, "", b"");
    append(&mut tar, &format!("{SITE}sym"), tar::EntryType::Symlink, "foo.py", b"");
    append(&mut tar, "/usr/local/bin/foo", tar::EntryType::Regular, "", b"#!/bin/sh\n");
    let (info, payload) = read_pkg(&pack(tar), false).unwrap();
    assert_eq!((info.name.as_str(), info.version.as_str()), ("py311-foo", "1.2"));
    assert_eq!(info.deps.len(), 3);
    assert_eq!(info.deps.get(&key("py311-six")).unwrap(), "1.16");
    assert_eq!(info.deps.get(&key("odd")).unwrap(), "");
    assert_eq!(paths(&payload), ["bar.py", "foo.py"]);
    let file = payload.files.get(&key("bar.py")).unwrap();
    assert_eq!((file.mode, &file.data[..]), (0o755, &b"x = 1\n"[..]));
    assert_eq!(payload.skipped, ["/usr/local/bin/foo"]);
    assert_eq!(payload.lost, [format!("{SITE}sym (Symlink)")]);
    assert_eq!(payload.pyver.as_deref(), Some("3.11"));
}

#[test]
fn refuses_files_of_other_formats() {
    assert!(matches!(read_pkg(b"abc", false), Err(ReadError::TooShort)));
    match read_pkg(b"\x1f\x8b\x08\x00rest", false) {
        Err(ReadError::NotZstd(magic)) => assert_eq!(magic, [0x1f, 0x8b, 0x08, 0x00]),
        _ => panic!("a gzip file was read"),
    }
    assert!(matches!(
        read_pkg(b"\x28\xb5\x2f\xfdgarbage", false),
        Err(ReadError::Archive(_))
    ));
}

#[test]
fn refuses_a_truncated_package() {
    let mut tar = tar::Builder::new(Vec::new());
    append(&mut tar, "+MANIFEST", tar::EntryType::Regular, "", b"{}");
    append(&mut tar, &format!("{SITE}a"), tar::EntryType::Regular, "", &[7; 4000]);
    let whole = tar.into_inner().unwrap();
    let data = zstd::encode_all(&whole[..2500], 3).unwrap();
    assert!(matches!(read_pkg(&data, false), Err(ReadError::Archive(_))));
}

#[test]
fn names_the_kinds_of_members() {
    for kind in 1..=255u8 {
        if kind == REGULAR || kind == LINK || kind == DIRECTORY {
            continue;
        }
        let mut p = Payload::new();
        place(&mut p, &format!("{SITE}x"), kind, "", b"");
        assert_eq!(p.lost, [format!("{SITE}x ({:?})", tar::EntryType::new(kind))]);
    }
}

#[test]
fn does_not_care_what_follows_the_archive() {
    let mut tar = tar::Builder::new(Vec::new());
    append(&mut tar, "+MANIFEST", tar::EntryType::Regular, "", b"{}");
    let mut data = pack(tar);
    data.extend_from_slice(b"no zstd frame");
    assert_eq!(read_pkg(&data, false).unwrap().0.name, "");
}
