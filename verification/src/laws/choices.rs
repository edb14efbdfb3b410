//! Which names packages, their files and platforms have, which file is taken, and what is said of
//! files that are left out.
use crate::convert;
use crate::external;
use crate::laws::names;
use crate::laws::texts;
use crate::materialize;
use crate::naming;
use crate::text;
use vstd::prelude::*;

verus! {

// ---------------------------------------------------------------------------
// Names
// ---------------------------------------------------------------------------

/// A platform tag is the name of the machine in lowercase, with underscores in place of dots and
/// dashes; there is none where a part of the name is missing.
pub proof fn lemma_platform_tag(system: Seq<char>, release: Seq<char>, machine: Seq<char>)
    ensures
        ({
            let lowered = external::lowercase(system + "-"@ + release + "-"@ + machine);
            match naming::platform_tag_of(system, release, machine) {
                Some(tag) => {
                    &&& system.len() > 0 && release.len() > 0 && machine.len() > 0
                    &&& tag.len() == lowered.len()
                    &&& forall|k: int|
                        0 <= k < lowered.len() ==> #[trigger] tag[k] == if lowered[k] == '.'
                            || lowered[k] == '-' {
                            '_'
                        } else {
                            lowered[k]
                        }
                },
                None => system.len() == 0 || release.len() == 0 || machine.len() == 0,
            }
        }),
{
    let lowered = external::lowercase(system + "-"@ + release + "-"@ + machine);
    lemma_underscores(lowered);
}

/// Underscores take the place of dots and dashes, and of nothing else.
pub proof fn lemma_underscores(s: Seq<char>)
    ensures
        naming::underscored(s).len() == s.len(),
        forall|k: int|
            0 <= k < s.len() ==> #[trigger] naming::underscored(s)[k] == if s[k] == '.' || s[k]
                == '-' {
                '_'
            } else {
                s[k]
            },
{
    let dotless = text::replace_char(s, '.', '_');
    texts::lemma_replace_char(s, '.', '_');
    texts::lemma_replace_char(dotless, '-', '_');
    assert forall|k: int| 0 <= k < s.len() implies #[trigger] naming::underscored(s)[k] == if s[k]
        == '.' || s[k] == '-' {
        '_'
    } else {
        s[k]
    } by {
        assert(naming::underscored(s)[k] == if dotless[k] == '-' {
            '_'
        } else {
            dotless[k]
        });
    }
}

/// What a command printed is its output without the whitespace before and after it.
pub proof fn lemma_printed(bytes: Seq<u8>)
    ensures
        exists|a: Seq<char>, b: Seq<char>|
            {
                &&& external::utf8_lossy(bytes) == #[trigger] (a + naming::printed(bytes) + b)
                &&& forall|k: int| 0 <= k < a.len() ==> text::is_whitespace(#[trigger] a[k])
                &&& forall|k: int| 0 <= k < b.len() ==> text::is_whitespace(#[trigger] b[k])
            },
        naming::printed(bytes).len() > 0 ==> !text::is_whitespace(naming::printed(bytes)[0])
            && !text::is_whitespace(naming::printed(bytes).last()),
{
    texts::lemma_trimmed(external::utf8_lossy(bytes));
}

/// The prefix for a python version is `py` and the version without its dots.
pub proof fn lemma_prefix(python: Seq<char>)
    ensures
        naming::prefix_for(python) == "py"@ + python.filter(|c: char| c != '.'),
{
    lemma_without_filter(python, '.');
    let other = |c: char| c != '.';
    assert(python.filter(other) == text::without(python, '.'));
}

proof fn lemma_without_filter(s: Seq<char>, c: char)
    ensures
        text::without(s, c) == s.filter(|x: char| x != c),
    decreases s.len(),
{
    reveal(Seq::filter);
    let other = |x: char| x != c;
    if s.len() == 0 {
        assert(s =~= seq![]);
        assert(s.filter(other) =~= seq![]);
        texts::lemma_without(s, s, c);
    } else {
        let head = s.drop_last();
        lemma_without_filter(head, c);
        text::lemma_without_push(head, s.last(), c);
        assert(s =~= head.push(s.last()));
    }
}

/// A name that begins with `py3` is that of a package; any other gets the prefix, a dash, and is
/// put in lowercase.
pub proof fn lemma_resolved(requested: Seq<char>, prefix: Seq<char>, rest: Seq<char>)
    ensures
        naming::resolved("py3"@ + rest, prefix) == "py3"@ + rest,
        (forall|tail: Seq<char>| requested != #[trigger] ("py3"@ + tail)) ==> naming::resolved(
            requested,
            prefix,
        ) == prefix + "-"@ + external::lowercase(requested),
{
    texts::lemma_starts_with("py3"@ + rest, "py3"@);
    texts::lemma_starts_with(requested, "py3"@);
}

/// Each package that is asked for is asked for by its name, in its place.
pub proof fn lemma_resolved_names(packages: Seq<Seq<char>>, prefix: Seq<char>)
    ensures
        materialize::resolved_names(packages, prefix).len() == packages.len(),
        forall|k: int|
            0 <= k < packages.len() ==> #[trigger] materialize::resolved_names(packages, prefix)[k]
                == naming::resolved(packages[k], prefix),
{
}

// ---------------------------------------------------------------------------
// Package files
// ---------------------------------------------------------------------------

/// The text can be a version: it begins with a digit and holds no tilde.
pub open spec fn is_version(version: Seq<char>) -> bool {
    version.len() > 0 && '0' <= version[0] && version[0] <= '9' && !version.contains('~')
}

/// The file holds a version of a package, under the name that repositories give it.
pub open spec fn is_plain(file: Seq<char>, package: Seq<char>, version: Seq<char>) -> bool {
    is_version(version) && file == package + "-"@ + version + ".pkg"@
}

/// The file holds a version of a package, under a name with a tilde and a mark.
pub open spec fn is_marked(
    file: Seq<char>,
    package: Seq<char>,
    version: Seq<char>,
    mark: Seq<char>,
) -> bool {
    is_version(version) && file == package + "-"@ + version + "~"@ + mark + ".pkg"@
}

/// The file holds a version of a package.
pub open spec fn is_of(file: Seq<char>, package: Seq<char>, version: Seq<char>) -> bool {
    is_plain(file, package, version) || exists|mark: Seq<char>| #[trigger]
        is_marked(file, package, version, mark)
}

proof fn lemma_plain(file: Seq<char>, package: Seq<char>, version: Seq<char>)
    requires
        is_plain(file, package, version),
    ensures
        naming::version_of_file(file, package) == Some(version),
        !naming::is_marked(file, package),
{
    reveal_strlit(".pkg");
    reveal_strlit("~");
    assert(file == names::file_of(package, version));
    names::lemma_version_of_file(package, version);
    assert("~"@ =~= seq!['~']);
    texts::lemma_split_once(version, "~"@);
    if let Some((a, b)) = text::split_once(version, "~"@) {
        assert(version[a.len() as int] == '~');
        assert(version.contains(version[a.len() as int]));
    }
    let rest = version + ".pkg"@;
    assert(file =~= (package + "-"@) + rest);
    texts::lemma_starts_with(file, package + "-"@);
    let stripped = text::strip_prefix(file, package + "-"@)->0;
    assert(file == (package + "-"@) + stripped);
    assert(file.skip((package + "-"@).len() as int) =~= rest);
    assert(file.skip((package + "-"@).len() as int) =~= stripped);
    text::lemma_add_contains(version, ".pkg"@, '~');
}

proof fn lemma_marked(file: Seq<char>, package: Seq<char>, version: Seq<char>, mark: Seq<char>)
    requires
        is_marked(file, package, version, mark),
    ensures
        naming::version_of_file(file, package) == Some(version),
        naming::is_marked(file, package),
{
    reveal_strlit("~");
    assert("~"@ =~= seq!['~']);
    let full = version + "~"@ + mark;
    assert(file =~= names::file_of(package, full));
    names::lemma_duplicate(package, version, mark);
    lemma_plain(names::file_of(package, version), package, version);
    let rest = full + ".pkg"@;
    assert(file =~= (package + "-"@) + rest);
    texts::lemma_starts_with(file, package + "-"@);
    let stripped = text::strip_prefix(file, package + "-"@)->0;
    assert(file == (package + "-"@) + stripped);
    assert(file.skip((package + "-"@).len() as int) =~= rest);
    assert(file.skip((package + "-"@).len() as int) =~= stripped);
    assert(rest[version.len() as int] == '~');
    assert(rest.contains(rest[version.len() as int]));
}

/// A file holds a version of a package exactly where it is named so: by the package, a dash, the
/// version and `.pkg`, with or without a tilde and a mark after the version.
pub proof fn lemma_file_version(file: Seq<char>, package: Seq<char>, version: Seq<char>)
    ensures
        naming::version_of_file(file, package) == Some(version) <==> is_of(file, package, version),
{
    reveal_strlit("~");
    assert("~"@ =~= seq!['~']);
    if is_plain(file, package, version) {
        lemma_plain(file, package, version);
    } else if is_of(file, package, version) {
        let mark = choose|mark: Seq<char>| #[trigger] is_marked(file, package, version, mark);
        lemma_marked(file, package, version, mark);
    }
    if naming::version_of_file(file, package) == Some(version) {
        texts::lemma_starts_with(file, package + "-"@);
        let rest = text::strip_prefix(file, package + "-"@)->0;
        texts::lemma_ends_with(rest, ".pkg"@);
        let full = text::strip_suffix(rest, ".pkg"@)->0;
        assert(file == (package + "-"@) + (full + ".pkg"@));
        texts::lemma_split_once(full, "~"@);
        match text::split_once(full, "~"@) {
            Some((a, mark)) => {
                assert(a == version);
                assert(!version.contains('~')) by {
                    if version.contains('~') {
                        let k = choose|k: int| 0 <= k < version.len() && version[k] == '~';
                        let x = full.take(k);
                        let y = full.skip(k + 1);
                        assert(full =~= x + "~"@ + y);
                    }
                }
                assert(file =~= package + "-"@ + version + "~"@ + mark + ".pkg"@);
                assert(is_marked(file, package, version, mark));
            },
            None => {
                assert(!version.contains('~')) by {
                    if version.contains('~') {
                        let k = choose|k: int| 0 <= k < version.len() && version[k] == '~';
                        let x = full.take(k);
                        let y = full.skip(k + 1);
                        assert(full =~= x + "~"@ + y);
                    }
                }
                assert(file =~= package + "-"@ + version + ".pkg"@);
                assert(is_plain(file, package, version));
            },
        }
    }
}

/// The file that is taken for a package holds a version of it, and no file holds a greater one.
/// It is no marked one where there is another of that version, and then it is the first such;
/// else it is the first of that version.
pub proof fn lemma_file_taken(
    listings: Seq<Vec<String>>,
    package: Seq<char>,
    i: int,
    j: int,
) -> (version: Seq<char>)
    requires
        naming::is_best(listings, package, i, j),
    ensures
        0 <= i < listings.len(),
        0 <= j < listings[i]@.len(),
        is_of(listings[i]@[j]@, package, version),
        forall|k: int, l: int, other: Seq<char>|
            0 <= k < listings.len() && 0 <= l < listings[k]@.len() && #[trigger] is_of(
                listings[k]@[l]@,
                package,
                other,
            ) ==> !text::lt(version, other),
        forall|k: int, l: int|
            0 <= k < listings.len() && 0 <= l < listings[k]@.len() && #[trigger] is_plain(
                listings[k]@[l]@,
                package,
                version,
            ) ==> is_plain(listings[i]@[j]@, package, version) && (i < k || (i == k && j <= l)),
        !is_plain(listings[i]@[j]@, package, version) ==> forall|k: int, l: int|
            0 <= k < listings.len() && 0 <= l < listings[k]@.len() && #[trigger] is_of(
                listings[k]@[l]@,
                package,
                version,
            ) ==> i < k || (i == k && j <= l),
{
    let version = naming::version_at(listings, package, i, j)->0;
    let file = listings[i]@[j]@;
    lemma_file_version(file, package, version);
    assert forall|k: int, l: int, other: Seq<char>|
        0 <= k < listings.len() && 0 <= l < listings[k]@.len() && #[trigger] is_of(
            listings[k]@[l]@,
            package,
            other,
        ) implies !text::lt(version, other) by {
        lemma_file_version(listings[k]@[l]@, package, other);
        assert(naming::version_at(listings, package, k, l) == Some(other));
    }
    assert forall|k: int, l: int|
        0 <= k < listings.len() && 0 <= l < listings[k]@.len() && #[trigger] is_plain(
            listings[k]@[l]@,
            package,
            version,
        ) implies is_plain(file, package, version) && (i < k || (i == k && j <= l)) by {
        lemma_plain(listings[k]@[l]@, package, version);
        assert(naming::holds_version(listings, package, version, k, l));
        assert(naming::has_plain(listings, package, version));
        if !is_plain(file, package, version) {
            let mark = choose|mark: Seq<char>| #[trigger] is_marked(file, package, version, mark);
            lemma_marked(file, package, version, mark);
        }
    }
    if !is_plain(file, package, version) {
        let mark = choose|mark: Seq<char>| #[trigger] is_marked(file, package, version, mark);
        lemma_marked(file, package, version, mark);
        assert(!naming::has_plain(listings, package, version));
        assert forall|k: int, l: int|
            0 <= k < listings.len() && 0 <= l < listings[k]@.len() && #[trigger] is_of(
                listings[k]@[l]@,
                package,
                version,
            ) implies i < k || (i == k && j <= l) by {
            lemma_file_version(listings[k]@[l]@, package, version);
            assert(naming::holds_version(listings, package, version, k, l));
        }
    }
    version
}

/// No file is taken only where none holds a version of the package.
pub proof fn lemma_no_file_taken(
    listings: Seq<Vec<String>>,
    package: Seq<char>,
    k: int,
    l: int,
    version: Seq<char>,
)
    requires
        naming::has_none(listings, package),
        0 <= k < listings.len(),
        0 <= l < listings[k]@.len(),
    ensures
        !is_of(listings[k]@[l]@, package, version),
{
    lemma_file_version(listings[k]@[l]@, package, version);
    assert(naming::version_at(listings, package, k, l) is None);
}

// ---------------------------------------------------------------------------
// Reports
// ---------------------------------------------------------------------------

/// A report on left-out files is a first line, at most ten of the files, and how many more there
/// are; there is none on no files.
pub proof fn lemma_left_out(head: Seq<char>, left: Seq<Seq<char>>)
    ensures
        ({
            let report = convert::report_of(head, left);
            &&& left.len() == 0 ==> report.len() == 0
            &&& 0 < left.len() <= 10 ==> report.len() == left.len() + 1
            &&& left.len() > 0 ==> report[0] == head
            &&& forall|k: int|
                0 <= k < left.len() && k < 10 ==> report[k + 1] == "  "@ + #[trigger] left[k]
            &&& left.len() > 10 ==> report.len() == 12 && report[11] == "  ... and "@
                + text::decimal((left.len() - 10) as nat) + " more"@
        }),
{
}

/// The first lines of the two reports say how many files there are.
pub proof fn lemma_left_out_heads(count: nat)
    ensures
        convert::skipped_head(count) == "note: "@ + text::decimal(count)
            + " non-site-packages payload file(s) not included (bin/ wrappers are regenerated by the installer):"@,
        convert::lost_head(count) == "note: "@ + text::decimal(count)
            + " site-packages entries not included (neither files nor links to files of the payload):"@,
{
}

} // verus!
