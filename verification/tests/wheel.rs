//! Stamping WHEEL files.
use wheelfs::wheel::{restamp_wheel, WheelError};

const PLATFORM: &str = "freebsd_15_1_release_p1_amd64";

fn stamp(content: &str, platform: &str) -> (String, String) {
    restamp_wheel(content, platform).unwrap()
}

#[test]
fn replaces_the_platform_of_a_tag() {
    let (file, tag) = stamp(
        "Wheel-Version: 1.0\nRoot-Is-Purelib: false\nTag: cp311-cp311-freebsd_13_2_amd64\n",
        PLATFORM,
    );
    assert_eq!(
        file,
        "Wheel-Version: 1.0\nRoot-Is-Purelib: false\nTag: cp311-cp311-freebsd_15_1_release_p1_amd64\n"
    );
    assert_eq!(tag, "cp311-cp311-freebsd_15_1_release_p1_amd64");
}

#[test]
fn leaves_the_platform_any() {
    let (file, tag) = stamp("Tag: py3-none-any\n", PLATFORM);
    assert_eq!(file, "Tag: py3-none-any\n");
    assert_eq!(tag, "py3-none-any");
}

#[test]
fn joins_the_components_of_several_tags() {
    let (file, tag) = stamp("Tag: py2-none-any\nTag: py3-none-any\n", PLATFORM);
    assert_eq!(file, "Tag: py2-none-any\nTag: py3-none-any\n");
    assert_eq!(tag, "py2.py3-none-any");
    let (_, mixed) = stamp("Tag: cp39-abi3-linux\nTag: cp310-abi3-linux\nTag: py3-none-any\n", "p");
    assert_eq!(mixed, "cp39.cp310.py3-abi3.none-p.any");
}

#[test]
fn names_a_repeated_tag_once() {
    let (file, tag) = stamp("Tag: cp311-cp311-a\nTag: cp311-cp311-b\n", "c");
    assert_eq!(file, "Tag: cp311-cp311-c\nTag: cp311-cp311-c\n");
    assert_eq!(tag, "cp311-cp311-c");
}

#[test]
fn drops_blank_lines_and_ends_every_line() {
    let (file, _) = stamp("A: 1\r\n\r\n\nTag:  py3-none-any \r\nB: 2", PLATFORM);
    assert_eq!(file, "A: 1\nTag: py3-none-any\nB: 2\n");
}

#[test]
fn cuts_a_platform_with_a_dash_in_the_name() {
    let (file, tag) = stamp("Tag: cp311-cp311-x\n", "free-bsd");
    assert_eq!(file, "Tag: cp311-cp311-free-bsd\n");
    assert_eq!(tag, "cp311-cp311-free");
}

#[test]
fn refuses_a_tag_without_three_components() {
    match restamp_wheel("Tag: py3-none-any\nTag: py3-none \nTag: x\n", PLATFORM) {
        Err(WheelError::UnparseableTag(tag)) => assert_eq!(tag, "py3-none "),
        other => panic!("{other:?}"),
    }
    assert!(matches!(
        restamp_wheel("Tag: a-b-c-d\n", PLATFORM),
        Err(WheelError::UnparseableTag(_))
    ));
}

#[test]
fn refuses_a_file_without_tags() {
    assert!(matches!(restamp_wheel("Wheel-Version: 1.0\n", PLATFORM), Err(WheelError::NoTags)));
    assert!(matches!(restamp_wheel("", PLATFORM), Err(WheelError::NoTags)));
    assert!(matches!(restamp_wheel("Tag:py3-none-any\n", PLATFORM), Err(WheelError::NoTags)));
}

#[test]
fn stamping_again_changes_nothing() {
    let content = "Wheel-Version: 1.0\n\nTag: cp311-cp311-x\nTag: py3-none-any";
    let once = stamp(content, PLATFORM);
    assert_eq!(stamp(&once.0, PLATFORM), once);
}

#[test]
fn the_second_stamp_counts() {
    let content = "Tag: cp311-cp311-x\nTag: py3-none-any\nZ: z\n";
    let (first, _) = stamp(content, "one");
    assert_eq!(stamp(&first, "two"), stamp(content, "two"));
}

#[test]
fn nothing_is_left_to_stamp_after_any() {
    let (first, _) = stamp("Tag: cp311-cp311-x\n", "any");
    assert_eq!(first, "Tag: cp311-cp311-any\n");
    assert_eq!(stamp(&first, "two").0, "Tag: cp311-cp311-any\n");
}

#[test]
fn a_stray_carriage_return_goes_at_the_second_stamp() {
    let (first, _) = stamp("A: 1\r\r\nTag: py3-none-any\n", PLATFORM);
    assert_eq!(first, "A: 1\r\nTag: py3-none-any\n");
    assert_eq!(stamp(&first, PLATFORM).0, "A: 1\nTag: py3-none-any\n");
}
