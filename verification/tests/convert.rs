//! Making wheels.
use std::io::Read;
use wheelfs::convert::{
    convert, describe_file, lay_out, lost_report, pack_wheel, plan_wheel, skipped_report, ConvertError, Member,
};
use wheelfs::egg::EggError;
use wheelfs::package::{FileEntry, Payload, ReadError};
use wheelfs::sorted_map::SortedMap;
use wheelfs::wheel::WheelError;

const SITE: &str = "/usr/local/lib/python3.11/site-packages/";
const WHEEL: &str = "Wheel-Version: 1.0\nTag: cp311-cp311-freebsd_13\n";

fn key(path: &str) -> Vec<char> {
    path.chars().collect()
}

fn files(entries: &[(&str, u32, &str)]) -> SortedMap<FileEntry> {
    let mut map = SortedMap::new();
    for (path, mode, data) in entries {
        map.insert(key(path), FileEntry { mode: *mode, data: data.as_bytes().to_vec() });
    }
    map
}

fn payload(entries: &[(&str, u32, &str)]) -> Payload {
    Payload { files: files(entries), skipped: Vec::new(), lost: Vec::new(), pyver: None }
}

fn fault(entries: &[(&str, u32, &str)]) -> ConvertError {
    plan_wheel(payload(entries), "p").err().unwrap()
}

/// The members of a zip archive: names, permissions and contents.
fn unzip(archive: &[u8]) -> Vec<(String, u32, Vec<u8>)> {
    let mut zip = zip::ZipArchive::new(std::io::Cursor::new(archive)).unwrap();
    let mut out = Vec::new();
    for i in 0..zip.len() {
        let mut file = zip.by_index(i).unwrap();
        let mut data = Vec::new();
        assert_eq!(file.compression(), zip::CompressionMethod::Deflated);
        file.read_to_end(&mut data).unwrap();
        out.push((file.name().to_string(), file.unix_mode().unwrap() & 0o777, data));
    }
    out
}

fn append(tar: &mut tar::Builder<Vec<u8>>, path: &str, mode: u32, data: &[u8]) {
    let mut header = tar::Header::new_ustar();
    header.as_mut_bytes()[..path.len()].copy_from_slice(path.as_bytes());
    header.set_mode(mode);
    header.set_size(data.len() as u64);
    header.set_entry_type(tar::EntryType::Regular);
    header.set_cksum();
    tar.append(&header, data).unwrap();
}

fn package(entries: &[(&str, u32, &str)]) -> Vec<u8> {
    let mut tar = tar::Builder::new(Vec::new());
    append(&mut tar, "+COMPACT_MANIFEST", 0o644, br#"{"name": "py311-foo", "version": "1.0"}"#);
    for (path, mode, data) in entries {
        append(&mut tar, path, *mode, data.as_bytes());
    }
    zstd::encode_all(&tar.into_inner().unwrap()[..], 3).unwrap()
}

#[test]
fn converts_a_package() {
    let init = format!("{SITE}foo/__init__.py");
    let tool = format!("{SITE}foo/tool");
    let pyc = format!("{SITE}foo/__pycache__/x.pyc");
    let wheel = format!("{SITE}foo_bar-1.0.dist-info/WHEEL");
    let record = format!("{SITE}foo_bar-1.0.dist-info/RECORD");
    let installer = format!("{SITE}foo_bar-1.0.dist-info/INSTALLER");
    let data = package(&[
        (&init, 0o600, "abc"),
        (&tool, 0o755, "x = 1\n"),
        (&pyc, 0o644, "code"),
        (&wheel, 0o644, WHEEL),
        (&record, 0o644, "old"),
        (&installer, 0o644, "pip\n"),
        ("/usr/local/bin/foo", 0o755, "#!"),
    ]);
    let made = convert(&data, "freebsd_15", false).unwrap();
    assert_eq!(made.info.name, "py311-foo");
    assert_eq!(made.skipped, ["/usr/local/bin/foo"]);
    assert_eq!(made.file_name, "foo_bar-1.0-cp311-cp311-freebsd_15.whl");
    let members = unzip(&made.archive);
    let record = "foo/__init__.py,sha256=ungWv48Bz-pBQUDeXa4iI7ADYaOWF3qctBD_YfIAFa0,3\n\
        foo/tool,sha256=nia_NpkRxFwkPGhBR7I_yeHc_PJX0pmhxjIBam_NM_Q,6\n\
        foo_bar-1.0.dist-info/WHEEL,sha256=";
    assert_eq!(
        members[..3],
        [
            ("foo/__init__.py".to_string(), 0o644, b"abc".to_vec()),
            ("foo/tool".to_string(), 0o755, b"x = 1\n".to_vec()),
            (
                "foo_bar-1.0.dist-info/WHEEL".to_string(),
                0o644,
                b"Wheel-Version: 1.0\nTag: cp311-cp311-freebsd_15\n".to_vec(),
            ),
        ]
    );
    assert_eq!(members.len(), 4);
    assert_eq!((members[3].0.as_str(), members[3].1), ("foo_bar-1.0.dist-info/RECORD", 0o644));
    let written = String::from_utf8(members[3].2.clone()).unwrap();
    assert!(written.starts_with(record));
    assert!(written.ends_with(",47\nfoo_bar-1.0.dist-info/RECORD,,\n"));
    assert_eq!(written.lines().count(), 4);
}

#[test]
fn converts_an_egg_package() {
    let module = format!("{SITE}foo.py");
    let info = format!("{SITE}foo-2.0-py3.11.egg-info/PKG-INFO");
    let data = package(&[(&module, 0o644, ""), (&info, 0o644, "Name: foo\n")]);
    let made = convert(&data, "freebsd_15", false).unwrap();
    assert_eq!(made.file_name, "foo-2.0-py3-none-any.whl");
    let names: Vec<String> = unzip(&made.archive).into_iter().map(|m| m.0).collect();
    assert_eq!(
        names,
        [
            "foo-2.0.dist-info/METADATA",
            "foo.py",
            "foo-2.0.dist-info/WHEEL",
            "foo-2.0.dist-info/RECORD",
        ]
    );
}

#[test]
fn keeps_bytecode_on_demand() {
    let pyc = format!("{SITE}foo/__pycache__/x.pyc");
    let wheel = format!("{SITE}foo-1.dist-info/WHEEL");
    let data = package(&[(&pyc, 0o644, "code"), (&wheel, 0o644, "Tag: py3-none-any\n")]);
    let names = |keep| -> Vec<String> {
        unzip(&convert(&data, "p", keep).unwrap().archive).into_iter().map(|m| m.0).collect()
    };
    assert_eq!(names(true).len(), 3);
    assert_eq!(names(false), ["foo-1.dist-info/WHEEL", "foo-1.dist-info/RECORD"]);
}

#[test]
fn conversion_reports_what_cannot_be_read() {
    assert!(matches!(
        convert(b"\x00\x01\x02\x03", "p", false),
        Err(ConvertError::Read(ReadError::NotZstd(_)))
    ));
    assert!(matches!(convert(&package(&[]), "p", false), Err(ConvertError::NoPayload)));
}

#[test]
fn plans_a_wheel() {
    let mut p = payload(&[
        ("foo.py", 0o644, ""),
        ("my-foo-1.0.dist-info/METADATA", 0o644, "Name: foo\n"),
        ("my-foo-1.0.dist-info/WHEEL", 0o644, WHEEL),
        ("my-foo-1.0.dist-info/sub/WHEEL", 0o644, "kept"),
    ]);
    p.skipped.push("left".to_string());
    p.lost.push("link".to_string());
    let plan = plan_wheel(p, "freebsd_15").unwrap();
    assert_eq!(plan.file_name, "my_foo-1.0-cp311-cp311-freebsd_15.whl");
    assert_eq!(plan.file_name.split('-').count(), 5);
    assert_eq!(plan.skipped, ["left"]);
    assert_eq!(plan.lost, ["link"]);
    let names: Vec<&str> = plan.members.iter().map(|m| m.path.as_str()).collect();
    assert_eq!(
        names,
        [
            "foo.py",
            "my-foo-1.0.dist-info/METADATA",
            "my-foo-1.0.dist-info/sub/WHEEL",
            "my-foo-1.0.dist-info/WHEEL",
            "my-foo-1.0.dist-info/RECORD",
        ]
    );
}

#[test]
fn replaces_the_installers_files() {
    let names = [
        "RECORD", "RECORD.jws", "RECORD.p7s", "INSTALLER", "REQUESTED", "direct_url.json", "WHEEL",
    ];
    let mut map = SortedMap::new();
    for name in names {
        map.insert(key(&format!("d/{name}")), FileEntry { mode: 0o644, data: Vec::new() });
        map.insert(key(&format!("e/{name}")), FileEntry { mode: 0o111, data: Vec::new() });
    }
    let members = lay_out(map, "d", "W\n");
    assert_eq!(members.len(), names.len() + 2);
    assert!(members[..names.len()].iter().all(|m| m.path.starts_with("e/") && m.permissions == 0o755));
    assert_eq!(members[names.len()].path, "d/WHEEL");
    assert_eq!(members[names.len()].data, b"W\n");
    assert_eq!(members[names.len() + 1].path, "d/RECORD");
}

#[test]
fn record_lists_every_member_once() {
    let members = lay_out(files(&[("a", 0o644, ""), ("b c,d", 0o644, "abc")]), "d", "");
    let record = String::from_utf8(members.last().unwrap().data.clone()).unwrap();
    assert_eq!(
        record,
        "a,sha256=47DEQpj8HBSa-_TImW-5JCeuQeRkm5NMpJWZG3hSuFU,0\n\
         b c,d,sha256=ungWv48Bz-pBQUDeXa4iI7ADYaOWF3qctBD_YfIAFa0,3\n\
         d/WHEEL,sha256=47DEQpj8HBSa-_TImW-5JCeuQeRkm5NMpJWZG3hSuFU,0\n\
         d/RECORD,,\n"
    );
    assert_eq!(record.lines().count(), members.len());
}

#[test]
fn record_describes_a_file() {
    let entry: String = describe_file(&key("a/b"), &[0xfb, 0xff, 0x00, 0x10], 1234).iter().collect();
    assert_eq!(entry, "a/b,sha256=-_8AEA,1234");
}

#[test]
fn executable_for_one_is_executable_for_all() {
    let members = lay_out(files(&[("a", 0o610, ""), ("b", 0o666, "")]), "d", "");
    assert_eq!((members[0].permissions, members[1].permissions), (0o755, 0o644));
}

#[test]
fn refuses_a_payload_without_files() {
    assert!(matches!(fault(&[]), ConvertError::NoPayload));
}

#[test]
fn refuses_a_payload_without_metadata() {
    assert!(matches!(fault(&[("a.py", 0o644, "")]), ConvertError::Egg(EggError::NoMetadataDir)));
}

#[test]
fn refuses_two_dist_info_directories() {
    // Paths between those of one directory do not make it count twice.
    match fault(&[
        ("a-1.dist-info-x.dist-info/A", 0o644, ""),
        ("a-1.dist-info/A", 0o644, ""),
        ("a-1.dist-info/WHEEL", 0o644, WHEEL),
        ("a-1.dist-info/Z", 0o644, ""),
        ("b.dist-info", 0o644, ""),
    ]) {
        ConvertError::ManyDistInfo(dirs) => {
            assert_eq!(dirs, ["a-1.dist-info-x.dist-info", "a-1.dist-info"]);
        },
        other => panic!("{other:?}"),
    }
}

#[test]
fn refuses_a_dist_info_directory_without_a_version() {
    assert!(matches!(fault(&[("foo.dist-info/WHEEL", 0o644, WHEEL)]), ConvertError::BadDistInfoName));
    // The suffix goes as often as it is there.
    assert!(matches!(
        fault(&[("a.dist-info.egg-info/PKG-INFO", 0o644, "")]),
        ConvertError::BadDistInfoName
    ));
}

#[test]
fn refuses_a_dist_info_directory_without_a_wheel_file() {
    assert!(matches!(fault(&[("foo-1.dist-info/METADATA", 0o644, "")]), ConvertError::NoWheelFile));
}

#[test]
fn refuses_a_wheel_file_without_tags() {
    assert!(matches!(
        fault(&[("foo-1.dist-info/WHEEL", 0o644, "")]),
        ConvertError::Wheel(WheelError::NoTags)
    ));
}

#[test]
fn refuses_a_path_too_long_for_an_archive() {
    let long = "x".repeat(0x10000);
    let longest = "y".repeat(0xffff);
    let wheel = format!("{SITE}foo-1.dist-info/WHEEL");
    let mut tar = tar::Builder::new(Vec::new());
    append(&mut tar, "+MANIFEST", 0o644, b"{}");
    append(&mut tar, &wheel, 0o644, b"Tag: py3-none-any\n");
    for name in [&longest, &long] {
        let mut header = tar::Header::new_gnu();
        header.set_size(0);
        header.set_mode(0o644);
        header.set_entry_type(tar::EntryType::Regular);
        let path = format!("lib/site-packages/{name}");
        tar.append_data(&mut header, path, &b""[..]).unwrap();
    }
    let data = zstd::encode_all(&tar.into_inner().unwrap()[..], 3).unwrap();
    match convert(&data, "p", false) {
        Err(ConvertError::NameTooLong(path)) => assert_eq!(path, long),
        _ => panic!("a path of {} bytes was written", long.len()),
    }
}

#[test]
fn packs_members_as_they_are() {
    let members = vec![
        Member { path: "ä/b".to_string(), permissions: 0o755, data: vec![0, 1, 2, 255] },
        Member { path: "c".to_string(), permissions: 0o644, data: vec![7; 100_000] },
    ];
    let archive = pack_wheel(&members).unwrap();
    let read = unzip(&archive);
    assert_eq!(read.len(), 2);
    for (m, r) in members.iter().zip(&read) {
        assert_eq!((&m.path, m.permissions, &m.data), (&r.0, r.1, &r.2));
    }
    assert!(archive.len() < 10_000);
}

#[test]
fn packs_no_path_twice() {
    let twice = || Member { path: "a".to_string(), permissions: 0o644, data: Vec::new() };
    assert!(pack_wheel(&vec![twice(), twice()]).is_err());
}

#[test]
fn reports_nothing_where_nothing_is_left_out() {
    assert!(skipped_report(&Vec::new()).is_empty());
    assert!(lost_report(&Vec::new()).is_empty());
}

#[test]
fn reports_the_first_files_left_out() {
    let names: Vec<String> = (0..12).map(|i| format!("f{i}")).collect();
    let head = |n| {
        format!("note: {n} non-site-packages payload file(s) not included (bin/ wrappers are regenerated by the installer):")
    };
    let ten = skipped_report(&names[..10].to_vec());
    assert_eq!(ten.len(), 11);
    assert_eq!(ten[0], head(10));
    assert_eq!(ten[10], "  f9");
    let all = skipped_report(&names);
    assert_eq!(all.len(), 12);
    assert_eq!(all[0], head(12));
    assert_eq!(all[1], "  f0");
    assert_eq!(all[11], "  ... and 2 more");
    assert_eq!(
        lost_report(&names[..1].to_vec()),
        [
            "note: 1 site-packages entries not included (neither files nor links to files of the payload):",
            "  f0",
        ]
    );
}
