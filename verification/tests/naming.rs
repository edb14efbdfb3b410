//! Platform tags, package names and package files.
use wheelfs::naming::{
    find_pkg_file, platform_tag, python_prefix, resolve_pkg_name, with_prefix, with_underscores,
};

fn listings(dirs: &[&[&str]]) -> Vec<Vec<String>> {
    dirs.iter().map(|d| d.iter().map(|f| f.to_string()).collect()).collect()
}

#[test]
fn makes_the_tag_of_a_machine() {
    assert_eq!(
        platform_tag(b"FreeBSD\n", b" 15.1-RELEASE-p1\n", b"amd64\n").unwrap(),
        "freebsd_15_1_release_p1_amd64"
    );
}

#[test]
fn a_tag_holds_no_dots_and_dashes() {
    let tag = platform_tag(b"A.B-C", b"1.2", b"x-86.64").unwrap();
    assert_eq!(tag, "a_b_c_1_2_x_86_64");
    assert!(!tag.contains('.') && !tag.contains('-'));
    assert_eq!(with_underscores("a.b-c_d"), "a_b_c_d");
}

#[test]
fn makes_no_tag_of_less() {
    assert_eq!(platform_tag(b" \n", b"15", b"amd64"), None);
    assert_eq!(platform_tag(b"FreeBSD", b"", b"amd64"), None);
    assert_eq!(platform_tag(b"FreeBSD", b"15", b"\t"), None);
}

#[test]
fn replaces_what_is_no_text_in_a_tag() {
    assert_eq!(platform_tag(&[0xff], b"1", b"m").unwrap(), "\u{fffd}_1_m");
}

#[test]
fn prefixes_names_for_a_python() {
    assert_eq!(python_prefix("3.12"), "py312");
    assert_eq!(python_prefix("3"), "py3");
    assert_eq!(with_prefix("py312", "numpy"), "py312-numpy");
}

#[test]
fn resolves_names() {
    assert_eq!(resolve_pkg_name("NumPy", "py312"), "py312-numpy");
    assert_eq!(resolve_pkg_name("scikit-learn", "py311"), "py311-scikit-learn");
    assert_eq!(resolve_pkg_name("py312-YAML", "py311"), "py312-YAML");
    assert_eq!(resolve_pkg_name("pyyaml", "py312"), "py312-pyyaml");
    assert_eq!(resolve_pkg_name("ÄB", "py312"), "py312-äb");
}

#[test]
fn a_resolved_name_stands_for_itself() {
    let once = resolve_pkg_name("Requests", "py312");
    assert_eq!(resolve_pkg_name(&once, "py312"), once);
    assert_eq!(resolve_pkg_name(&once, "py27"), once);
    let old = resolve_pkg_name("Requests", "py27");
    assert_eq!(resolve_pkg_name(&old, "py27"), "py27-py27-requests");
}

#[test]
fn finds_the_greatest_version() {
    let files = listings(&[
        &["py312-numpy-1.9.pkg", "py312-numpy-2.1.pkg", "other-3.pkg"],
        &["py312-numpy-2.0_1,1.pkg"],
    ]);
    assert_eq!(find_pkg_file("py312-numpy", &files), Some((0, 1)));
    // The order is that of the characters: 9 comes after 1.
    let lexical = listings(&[&["a-10.0.pkg", "a-9.0.pkg"]]);
    assert_eq!(find_pkg_file("a", &lexical), Some((0, 1)));
}

#[test]
fn prefers_the_first_of_equal_versions() {
    let files = listings(&[&["x"], &["a-1.pkg", "a-1.pkg"], &["a-1.pkg"]]);
    assert_eq!(find_pkg_file("a", &files), Some((1, 0)));
    let marked = listings(&[&["a-0.pkg"], &["a-1~aaaa.pkg", "a-1~bbbb.pkg"]]);
    assert_eq!(find_pkg_file("a", &marked), Some((1, 0)));
}

#[test]
fn ignores_a_duplicate_of_a_file() {
    let after = listings(&[&["p-1.0~cae94441f8.pkg", "p-1.0.pkg"]]);
    assert_eq!(find_pkg_file("p", &after), Some((0, 1)));
    let before = listings(&[&["p-1.0.pkg", "p-1.0~cae94441f8.pkg"]]);
    assert_eq!(find_pkg_file("p", &before), Some((0, 0)));
    let elsewhere = listings(&[&["p-1.0~2$hash.pkg"], &["p-0.9.pkg", "p-1.0.pkg", "p-1.0.pkg"]]);
    assert_eq!(find_pkg_file("p", &elsewhere), Some((1, 1)));
    // A tilde of the package's own name marks nothing.
    let named = listings(&[&["p~q-1.0~cae9.pkg", "p~q-1.0.pkg"]]);
    assert_eq!(find_pkg_file("p~q", &named), Some((0, 1)));
    // The version counts first.
    let newer = listings(&[&["p-1.0.pkg", "p-1.1~cae94441f8.pkg"]]);
    assert_eq!(find_pkg_file("p", &newer), Some((0, 1)));
}

#[test]
fn does_not_take_another_package() {
    let files = listings(&[&["py312-pandas-stubs-2.0.pkg", "py312-pandas2-1.0.pkg"]]);
    assert_eq!(find_pkg_file("py312-pandas", &files), None);
    assert_eq!(find_pkg_file("py312-pandas-stubs", &files), Some((0, 0)));
}

#[test]
fn ignores_marks_of_duplicates() {
    let files = listings(&[&["a-2.4.6_1,1~cae94441f8.pkg", "a-2.4.7~2$hash.pkg"]]);
    assert_eq!(find_pkg_file("a", &files), Some((0, 1)));
    assert_eq!(find_pkg_file("a", &listings(&[&["a-~1.pkg", "a-.pkg", "a-1.txt", "a-1"]])), None);
    assert_eq!(find_pkg_file("a", &listings(&[])), None);
}
