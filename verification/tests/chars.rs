//! Operations on text.
use wheelfs::chars;
use wheelfs::sorted_map::SortedMap;

fn cs(s: &str) -> Vec<char> {
    s.chars().collect()
}

fn text(s: &[char]) -> String {
    s.iter().collect()
}

const TEXTS: [&str; 14] = [
    "", "a", "-", "a-b", "--", "a\n", "a\r\n", "a\r", "\n\n", "\r\n\r\n", "a\n\r\nb\n", " \t x y\u{a0}\n",
    "ä-ö-\u{10ffff}", "aXbXX",
];

#[test]
fn whitespace_is_that_of_unicode() {
    for c in '\0'..=char::MAX {
        assert_eq!(chars::is_whitespace(c), c.is_whitespace(), "{c:?}");
    }
}

#[test]
fn digits_are_ascii() {
    for c in '\0'..=char::MAX {
        assert_eq!(chars::is_digit(c), c.is_ascii_digit(), "{c:?}");
    }
}

#[test]
fn lines_end_as_usual() {
    for s in TEXTS {
        let found: Vec<String> = chars::lines(&cs(s)).iter().map(|l| text(l)).collect();
        assert_eq!(found, s.lines().collect::<Vec<_>>(), "{s:?}");
    }
}

#[test]
fn splitting_and_trimming() {
    for s in TEXTS {
        let pieces: Vec<String> = chars::split(&cs(s), '-').iter().map(|l| text(l)).collect();
        assert_eq!(pieces, s.split('-').collect::<Vec<_>>(), "{s:?}");
        assert_eq!(text(chars::trim(&cs(s))), s.trim(), "{s:?}");
        let once = chars::rsplit_once(&cs(s), '-').map(|(a, b)| (text(a), text(b)));
        assert_eq!(once, s.rsplit_once('-').map(|(a, b)| (a.to_string(), b.to_string())));
        let first = chars::split_once(&cs(s), &cs("-")).map(|(a, b)| (text(a), text(b)));
        assert_eq!(first, s.split_once("-").map(|(a, b)| (a.to_string(), b.to_string())));
        assert_eq!(text(chars::trim_end_matches(&cs(s), &cs("X"))), s.trim_end_matches("X"));
        assert_eq!(text(chars::trim_end_matches(&cs(s), &[])), s);
    }
}

#[test]
fn searching() {
    assert_eq!(chars::find(&cs("abcabc"), &cs("ca")), Some(2));
    assert_eq!(chars::find(&cs("abc"), &cs("")), Some(0));
    assert_eq!(chars::find(&cs("ab"), &cs("abc")), None);
    assert!(chars::contains(&cs("abc"), &cs("bc")) && !chars::contains(&cs("abc"), &cs("cb")));
    assert_eq!(chars::strip_prefix(&cs("abc"), &cs("ab")).map(text), Some("c".to_string()));
    assert_eq!(chars::strip_suffix(&cs("abc"), &cs("ab")), None);
}

#[test]
fn numbers_in_decimal() {
    for n in [0, 7, 10, 99, 100, 65535, u64::MAX] {
        assert_eq!(text(&chars::decimal(n)), n.to_string());
    }
}

#[test]
fn the_order_is_that_of_strings() {
    for a in TEXTS {
        for b in TEXTS {
            assert_eq!(chars::lt(&cs(a), &cs(b)), a < b, "{a:?} {b:?}");
        }
    }
}

#[test]
fn a_sorted_map_keeps_its_keys_in_order() {
    let mut map: SortedMap<String> = SortedMap::new();
    let mut usual = std::collections::BTreeMap::new();
    for (i, s) in TEXTS.iter().rev().chain(TEXTS[3..6].iter()).enumerate() {
        map.insert(cs(s), i.to_string());
        usual.insert(s.to_string(), i.to_string());
    }
    assert_eq!(map.remove(&cs("--")), usual.remove("--"));
    assert_eq!(map.remove(&cs("not there")), None);
    assert_eq!(map.get(&cs("a-b")), usual.get("a-b"));
    assert_eq!(map.get(&cs("--")), None);
    let entries: Vec<(String, String)> =
        map.into_entries().into_iter().map(|(k, v)| (text(&k), v)).collect();
    assert_eq!(entries, usual.into_iter().collect::<Vec<_>>());
}
