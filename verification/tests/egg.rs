//! Turning the egg-info layout into the dist-info layout.
use wheelfs::egg::{dependency_fields, egg_info_to_dist_info, merge_fields, EggError};
use wheelfs::package::{FileEntry, Payload};

fn key(path: &str) -> Vec<char> {
    path.chars().collect()
}

fn payload(files: &[(&str, u32, &str)], pyver: Option<&str>) -> Payload {
    let mut p = Payload::new();
    for (path, mode, data) in files {
        p.files.insert(key(path), FileEntry { mode: *mode, data: data.as_bytes().to_vec() });
    }
    p.pyver = pyver.map(|v| v.to_string());
    p
}

fn paths(p: &Payload) -> Vec<String> {
    (0..p.files.len()).map(|i| p.files.key_at(i).iter().collect()).collect()
}

fn content(p: &Payload, path: &str) -> String {
    String::from_utf8(p.files.get(&key(path)).unwrap().data.clone()).unwrap()
}

#[test]
fn lists_plain_dependencies() {
    assert_eq!(
        dependency_fields("six\n\n  attrs>=19 \n"),
        "Requires-Dist: six\nRequires-Dist: attrs>=19\n"
    );
    assert_eq!(dependency_fields(""), "");
}

#[test]
fn scopes_dependencies_by_section() {
    let listing = "a\n[test]\npytest\n[test:python_version<'3']\nmock\n[:os_name=='nt']\ncolorama\n[]\nz\n";
    assert_eq!(
        dependency_fields(listing),
        "Requires-Dist: a\n\
         Provides-Extra: test\n\
         Requires-Dist: pytest ; extra == 'test'\n\
         Provides-Extra: test\n\
         Requires-Dist: mock ; python_version<'3' and extra == 'test'\n\
         Requires-Dist: colorama ; os_name=='nt'\n\
         Requires-Dist: z\n"
    );
}

#[test]
fn an_or_does_not_escape_an_extra() {
    let field = |section: &str| dependency_fields(&format!("{section}\nx\n")).lines().last().unwrap().to_string();
    assert_eq!(
        field("[t:os_name == 'nt' or python_version < '3']"),
        "Requires-Dist: x ; (os_name == 'nt' or python_version < '3') and extra == 't'"
    );
    assert_eq!(field("[t:a=='b'or c=='d']"), "Requires-Dist: x ; (a=='b'or c=='d') and extra == 't'");
    assert_eq!(
        field("[t:platform_processor == 'x']"),
        "Requires-Dist: x ; platform_processor == 'x' and extra == 't'"
    );
    for marker in ["(a or b)", "os_name == 'or'", "x == \" or \"", "c and (a or (b or d))"] {
        assert_eq!(
            field(&format!("[t:{marker}]")),
            format!("Requires-Dist: x ; {marker} and extra == 't'")
        );
    }
    for marker in ["(a) or (b)", "a == '(' or b", "a == ')' or b == \"'\"", "(a or b) or c"] {
        assert_eq!(
            field(&format!("[t:{marker}]")),
            format!("Requires-Dist: x ; ({marker}) and extra == 't'")
        );
    }
    assert_eq!(field("[:a or b]"), "Requires-Dist: x ; a or b");
    assert_eq!(field("[or]"), "Requires-Dist: x ; extra == 'or'");
}

#[test]
fn any_blank_line_ends_the_headers() {
    for (before, after) in [
        ("Name: foo\r\n", "\r\nBody\r\n"),
        ("", "\nBody\n\nMore"),
        ("", "\r\n"),
        ("A: 1\n", "\r"),
        ("A: 1\r\nB: \rx\n", "\n"),
    ] {
        let merged = merge_fields(&format!("{before}{after}"), "F: 1\n");
        assert_eq!(merged, format!("{before}F: 1\n{after}"));
    }
    assert_eq!(merge_fields("A: 1\r\n\rB\r\n", "F: 1\n"), "A: 1\r\n\rB\r\nF: 1\n");
}

#[test]
fn puts_fields_at_the_end_of_the_headers() {
    assert_eq!(merge_fields("Name: a\n\nText\n\nMore\n", "F: 1\n"), "Name: a\nF: 1\n\nText\n\nMore\n");
    assert_eq!(merge_fields("Name: a\n", "F: 1\n"), "Name: a\nF: 1\n");
    assert_eq!(merge_fields("Name: a", "F: 1\n"), "Name: a\nF: 1\n");
    assert_eq!(merge_fields("", ""), "\n");
}

#[test]
fn fields_hold_no_blank_line() {
    let fields = dependency_fields("a\n\n \n[x]\n\nb\n");
    assert_eq!(fields, "Requires-Dist: a\nProvides-Extra: x\nRequires-Dist: b ; extra == 'x'\n");
    assert!(!fields.contains("\n\n"));
    let merged = merge_fields("Name: a\n\nbody\n", &fields);
    assert_eq!(merged.find("\n\n"), Some("Name: a".len() + fields.len()));
}

#[test]
fn converts_a_pure_payload() {
    let mut p = payload(
        &[
            ("foo/__init__.py", 0o644, "x = 1\n"),
            ("foo_bar-1.2-py3.11.egg-info/PKG-INFO", 0o644, "Name: foo-bar\nVersion: 1.2\n"),
            ("foo_bar-1.2-py3.11.egg-info/SOURCES.txt", 0o644, "setup.py\n"),
            ("foo_bar-1.2-py3.11.egg-info/entry_points.txt", 0o600, "[console_scripts]\n"),
            ("foo_bar-1.2-py3.11.egg-info/requires.txt", 0o644, "six\n"),
            ("foo_bar-1.2-py3.11.egg-infos/kept", 0o644, ""),
        ],
        None,
    );
    egg_info_to_dist_info(&mut p).unwrap();
    assert_eq!(
        paths(&p),
        [
            "foo/__init__.py",
            "foo_bar-1.2-py3.11.egg-infos/kept",
            "foo_bar-1.2.dist-info/METADATA",
            "foo_bar-1.2.dist-info/WHEEL",
            "foo_bar-1.2.dist-info/entry_points.txt",
        ]
    );
    assert_eq!(
        content(&p, "foo_bar-1.2.dist-info/METADATA"),
        "Name: foo-bar\nVersion: 1.2\nRequires-Dist: six\n"
    );
    assert_eq!(
        content(&p, "foo_bar-1.2.dist-info/WHEEL"),
        "Wheel-Version: 1.0\nGenerator: wheelfs 0.1.0\nRoot-Is-Purelib: true\nTag: py3-none-any\n"
    );
    let points = p.files.get(&key("foo_bar-1.2.dist-info/entry_points.txt")).unwrap();
    assert_eq!(points.mode, 0o600);
    assert_eq!(points.data, b"[console_scripts]\n");
    assert_eq!(content(&p, "foo/__init__.py"), "x = 1\n");
}

#[test]
fn converts_a_compiled_payload() {
    let mut p = payload(
        &[("a/_c.so", 0o755, "\u{7f}ELF"), ("a-2.egg-info/PKG-INFO", 0o644, "Name: a\n\nbody\n")],
        Some("3.11"),
    );
    egg_info_to_dist_info(&mut p).unwrap();
    assert_eq!(
        content(&p, "a-2.dist-info/WHEEL"),
        "Wheel-Version: 1.0\nGenerator: wheelfs 0.1.0\nRoot-Is-Purelib: false\nTag: cp311-cp311-freebsd\n"
    );
    assert_eq!(content(&p, "a-2.dist-info/METADATA"), "Name: a\n\nbody\n");
}

#[test]
fn replaces_bytes_that_are_no_text() {
    let mut p = Payload::new();
    p.files.insert(
        key("a-1.egg-info/PKG-INFO"),
        FileEntry { mode: 0o644, data: vec![b'N', 0xff, b'\n'] },
    );
    egg_info_to_dist_info(&mut p).unwrap();
    assert_eq!(content(&p, "a-1.dist-info/METADATA"), "N\u{fffd}\n");
}

#[test]
fn keeps_a_tail_that_names_no_python() {
    for (dir, dist) in [
        ("a-1-py3.egg-info", "a-1.dist-info"),
        ("a-1-py.egg-info", "a-1.dist-info"),
        ("a-1-pyx.egg-info", "a-1-pyx.dist-info"),
        ("a-b-1.egg-info.egg-info", "a-b-1.dist-info"),
    ] {
        let mut p = payload(&[(&format!("{dir}/PKG-INFO"), 0o644, "")], None);
        egg_info_to_dist_info(&mut p).unwrap();
        assert_eq!(paths(&p)[0], format!("{dist}/METADATA"));
    }
}

#[test]
fn refuses_a_payload_without_an_egg() {
    let mut p = payload(&[("a/b.py", 0o644, ""), ("c.egg-info", 0o644, "")], None);
    assert!(matches!(egg_info_to_dist_info(&mut p), Err(EggError::NoMetadataDir)));
    assert_eq!(paths(&p), ["a/b.py", "c.egg-info"]);
}

#[test]
fn refuses_an_egg_without_a_version() {
    for dir in ["foo.egg-info", "foo-py3.11.egg-info"] {
        let mut p = payload(&[(&format!("{dir}/PKG-INFO"), 0o644, "")], None);
        match egg_info_to_dist_info(&mut p) {
            Err(EggError::UnparsedName(name)) => assert_eq!(name, dir),
            other => panic!("{other:?}"),
        }
    }
}

#[test]
fn refuses_an_egg_without_metadata() {
    let mut p = payload(&[("a-1.egg-info/requires.txt", 0o644, "six\n")], None);
    match egg_info_to_dist_info(&mut p) {
        Err(EggError::NoPkgInfo(dir)) => assert_eq!(dir, "a-1.egg-info"),
        other => panic!("{other:?}"),
    }
    assert_eq!(paths(&p), ["a-1.egg-info/requires.txt"]);
}

#[test]
fn refuses_extension_modules_of_an_unknown_python() {
    let mut p = payload(&[("a.so", 0o755, ""), ("a-1.egg-info/PKG-INFO", 0o644, "")], None);
    assert!(matches!(egg_info_to_dist_info(&mut p), Err(EggError::UnknownPython)));
    assert_eq!(paths(&p), ["a.so"]);
}
