//! Names: the platform tag of a machine, the names of packages, and the files that hold them.
use crate::chars;
use crate::external;
use crate::text;
use vstd::prelude::*;

verus! {

// ---------------------------------------------------------------------------
// Platform tags
// ---------------------------------------------------------------------------

/// What a command printed, as text without the whitespace around it.
pub open spec fn printed(bytes: Seq<u8>) -> Seq<char> {
    text::trim(external::utf8_lossy(bytes))
}

/// A text with underscores in place of dots and dashes.
pub open spec fn underscored(s: Seq<char>) -> Seq<char> {
    text::replace_char(text::replace_char(s, '.', '_'), '-', '_')
}

/// The name of a machine: those of its system, release and hardware.
pub open spec fn machine_name(
    system: Seq<char>,
    release: Seq<char>,
    machine: Seq<char>,
) -> Seq<char> {
    system + "-"@ + release + "-"@ + machine
}

/// The platform tag of a machine, from the names of its system, release and hardware; none
/// where one of them is missing.
pub open spec fn platform_tag_of(
    system: Seq<char>,
    release: Seq<char>,
    machine: Seq<char>,
) -> Option<Seq<char>> {
    if system.len() == 0 || release.len() == 0 || machine.len() == 0 {
        None
    } else {
        Some(underscored(external::lowercase(machine_name(system, release, machine))))
    }
}

/// Puts underscores in place of dots and dashes.
pub fn with_underscores(s: &str) -> (r: String)
    ensures
        r@ == underscored(s@),
{
    let cs = chars::chars_of(s);
    let no_dots = chars::replace_char(&cs, '.', '_');
    chars::string_of(&chars::replace_char(&no_dots, '-', '_'))
}

/// Computes the platform tag of a machine from what `uname` printed of it: the name of the
/// system, its release, and the hardware.
pub fn platform_tag(system: &[u8], release: &[u8], machine: &[u8]) -> (r: Option<String>)
    ensures
        match r {
            Some(tag) => platform_tag_of(printed(system@), printed(release@), printed(machine@))
                == Some(tag@),
            None => platform_tag_of(printed(system@), printed(release@), printed(machine@)) is None,
        },
        external::decodes(system@),
        external::decodes(release@),
        external::decodes(machine@),
        r is Some ==> external::lowers(
            machine_name(printed(system@), printed(release@), printed(machine@)),
        ),
{
    let system_chars = chars::chars_of(&external::from_utf8_lossy(system));
    let release_chars = chars::chars_of(&external::from_utf8_lossy(release));
    let machine_chars = chars::chars_of(&external::from_utf8_lossy(machine));
    let s = chars::trim(&system_chars);
    let r = chars::trim(&release_chars);
    let m = chars::trim(&machine_chars);
    if s.len() == 0 || r.len() == 0 || m.len() == 0 {
        return None;
    }
    let mut all = chars::copy_of(s);
    chars::extend_str(&mut all, "-");
    chars::extend(&mut all, r);
    chars::extend_str(&mut all, "-");
    chars::extend(&mut all, m);
    let lowered = external::to_lowercase(&chars::string_of(&all));
    Some(with_underscores(&lowered))
}

// ---------------------------------------------------------------------------
// Package names
// ---------------------------------------------------------------------------

/// What the names of the packages for a python version begin with: `pyXY` for `X.Y`.
pub open spec fn prefix_for(python: Seq<char>) -> Seq<char> {
    "py"@ + text::without(python, '.')
}

/// A name of the python package index as that of a package.
pub open spec fn prefixed(prefix: Seq<char>, lowered: Seq<char>) -> Seq<char> {
    prefix + "-"@ + lowered
}

/// The name of the package that is asked for by `requested`.
pub open spec fn resolved(requested: Seq<char>, prefix: Seq<char>) -> Seq<char> {
    if text::starts_with(requested, "py3"@) {
        requested
    } else {
        prefixed(prefix, external::lowercase(requested))
    }
}

/// What the names of the packages for a python version begin with.
pub fn python_prefix(python: &str) -> (r: String)
    ensures
        r@ == prefix_for(python@),
{
    let cs = chars::chars_of(python);
    let mut out = chars::chars_of("py");
    chars::extend(&mut out, &chars::without(&cs, '.'));
    chars::string_of(&out)
}

/// Puts the prefix for a python version before a name.
pub fn with_prefix(pyprefix: &str, lowered: &str) -> (r: String)
    ensures
        r@ == prefixed(pyprefix@, lowered@),
{
    let mut out = chars::chars_of(pyprefix);
    chars::extend_str(&mut out, "-");
    chars::extend_str(&mut out, lowered);
    chars::string_of(&out)
}

/// Maps a requested name to the name of a package: names that begin with `py3` are package
/// names already, others get the prefix for the python version, in lowercase.
pub fn resolve_pkg_name(requested: &str, pyprefix: &str) -> (r: String)
    ensures
        r@ == resolved(requested@, pyprefix@),
        !text::starts_with(requested@, "py3"@) ==> external::lowers(requested@),
{
    let cs = chars::chars_of(requested);
    if chars::starts_with(&cs, &chars::chars_of("py3")) {
        chars::string_of(&cs)
    } else {
        with_prefix(pyprefix, &external::to_lowercase(requested))
    }
}

// ---------------------------------------------------------------------------
// Package files
// ---------------------------------------------------------------------------

/// A version without what follows a tilde: the marks of local duplicates, and of repositories
/// that name their files by hashes.
pub open spec fn plain_version(version: Seq<char>) -> Seq<char> {
    match text::split_once(version, "~"@) {
        Some((plain, _)) => plain,
        None => version,
    }
}

/// The version that a file holds of a package, where it holds one: a file
/// `{package}-{version}.pkg` with a version that begins with a digit.
pub open spec fn version_of_file(file: Seq<char>, package: Seq<char>) -> Option<Seq<char>> {
    match text::strip_prefix(file, package + "-"@) {
        Some(rest) => match text::strip_suffix(rest, ".pkg"@) {
            Some(full) => {
                let version = plain_version(full);
                if version.len() > 0 && text::is_digit(version[0]) {
                    Some(version)
                } else {
                    None
                }
            },
            None => None,
        },
        None => None,
    }
}

/// The version that the `j`-th file of the `i`-th directory holds of a package.
pub open spec fn version_at(
    listings: Seq<Vec<String>>,
    package: Seq<char>,
    i: int,
    j: int,
) -> Option<Seq<char>> {
    version_of_file(listings[i]@[j]@, package)
}

/// There is a `j`-th file in the `i`-th directory.
pub open spec fn is_file(listings: Seq<Vec<String>>, i: int, j: int) -> bool {
    0 <= i < listings.len() && 0 <= j < listings[i]@.len()
}

/// The `j`-th file of the `i`-th directory holds the given version of a package.
pub open spec fn holds_version(
    listings: Seq<Vec<String>>,
    package: Seq<char>,
    version: Seq<char>,
    i: int,
    j: int,
) -> bool {
    is_file(listings, i, j) && version_at(listings, package, i, j) == Some(version)
}

/// The file has the name of a duplicate: one with a tilde after that of the package.
pub open spec fn is_marked(file: Seq<char>, package: Seq<char>) -> bool {
    match text::strip_prefix(file, package + "-"@) {
        Some(rest) => rest.contains('~'),
        None => false,
    }
}

/// The `j`-th file of the `i`-th directory has the name of a duplicate.
pub open spec fn is_duplicate(
    listings: Seq<Vec<String>>,
    package: Seq<char>,
    i: int,
    j: int,
) -> bool {
    is_marked(listings[i]@[j]@, package)
}

/// There is a file, not named as a duplicate, that holds the given version of a package.
pub open spec fn has_plain(
    listings: Seq<Vec<String>>,
    package: Seq<char>,
    version: Seq<char>,
) -> bool {
    exists|k: int, l: int| #[trigger]
        holds_version(listings, package, version, k, l) && !is_duplicate(listings, package, k, l)
}

/// The one file stands before the other.
pub open spec fn stands_before(k: int, l: int, i: int, j: int) -> bool {
    k < i || (k == i && l < j)
}

/// The file to take for a package. None holds a greater version; of those that hold the same it
/// is the first that is not named as a duplicate, or, where all are, the first.
pub open spec fn is_best(
    listings: Seq<Vec<String>>,
    package: Seq<char>,
    i: int,
    j: int,
) -> bool {
    &&& is_file(listings, i, j)
    &&& version_at(listings, package, i, j) is Some
    &&& forall|k: int, l: int|
        is_file(listings, k, l) && #[trigger] version_at(listings, package, k, l) is Some
            ==> !text::lt(
            version_at(listings, package, i, j)->0,
            version_at(listings, package, k, l)->0,
        )
    &&& {
        let version = version_at(listings, package, i, j)->0;
        if has_plain(listings, package, version) {
            &&& !is_duplicate(listings, package, i, j)
            &&& forall|k: int, l: int|
                stands_before(k, l, i, j) && #[trigger] holds_version(
                    listings,
                    package,
                    version,
                    k,
                    l,
                ) ==> is_duplicate(listings, package, k, l)
        } else {
            forall|k: int, l: int|
                stands_before(k, l, i, j) ==> !#[trigger] holds_version(
                    listings,
                    package,
                    version,
                    k,
                    l,
                )
        }
    }
}

/// No file holds the package.
pub open spec fn has_none(listings: Seq<Vec<String>>, package: Seq<char>) -> bool {
    forall|k: int, l: int|
        is_file(listings, k, l) ==> #[trigger] version_at(listings, package, k, l) is None
}

/// See [`version_of_file`].
fn file_version(file: &str, pkgname: &str) -> (r: Option<Vec<char>>)
    ensures
        match r {
            Some(v) => version_of_file(file@, pkgname@) == Some(v@),
            None => version_of_file(file@, pkgname@) is None,
        },
{
    let mut prefix = chars::chars_of(pkgname);
    chars::extend_str(&mut prefix, "-");
    let cs = chars::chars_of(file);
    let rest = match chars::strip_prefix(&cs, &prefix) {
        Some(rest) => rest,
        None => {
            return None;
        },
    };
    let suffix = chars::chars_of(".pkg");
    let full = match chars::strip_suffix(rest, &suffix) {
        Some(full) => full,
        None => {
            return None;
        },
    };
    let tilde = chars::chars_of("~");
    let version: &[char] = match chars::split_once(full, &tilde) {
        Some((plain, _)) => plain,
        None => full,
    };
    if version.len() > 0 && chars::is_digit(version[0]) {
        Some(chars::copy_of(version))
    } else {
        None
    }
}

/// The one file is to be taken rather than the other: for its version, or because the other is
/// a duplicate.
spec fn beats(
    version: Seq<char>,
    duplicate: bool,
    other_version: Seq<char>,
    other_duplicate: bool,
) -> bool {
    text::lt(other_version, version) || (version == other_version && !duplicate
        && other_duplicate)
}

/// Finds the file of a package among those of some directories: the one with the greatest
/// version, in the order of its characters. The names of duplicates, with a tilde after that of
/// the package, are ignored where there is another file of that version. Gives the places of the directory and of the
/// file.
pub fn find_pkg_file(pkgname: &str, listings: &Vec<Vec<String>>) -> (r: Option<(usize, usize)>)
    ensures
        match r {
            Some((i, j)) => is_best(listings@, pkgname@, i as int, j as int),
            None => has_none(listings@, pkgname@),
        },
{
    let ghost package = pkgname@;
    let mut best: Option<(usize, usize)> = None;
    let mut best_version: Vec<char> = Vec::new();
    let mut best_duplicate: bool = false;
    let mut i: usize = 0;
    while i < listings.len()
        invariant
            i <= listings.len(),
            package == pkgname@,
            best_below(
                listings@,
                package,
                best,
                best_version@,
                best_duplicate,
                i as int,
                0,
            ),
        decreases listings.len() - i,
    {
        let dir = &listings[i];
        let mut j: usize = 0;
        while j < dir.len()
            invariant
                j <= dir.len(),
                i < listings.len(),
                *dir == listings@[i as int],
                package == pkgname@,
                best_below(
                    listings@,
                    package,
                    best,
                    best_version@,
                    best_duplicate,
                    i as int,
                    j as int,
                ),
            decreases dir.len() - j,
        {
            let found = file_version(&dir[j], pkgname);
            proof {
                assert(version_at(listings@, package, i as int, j as int) == version_of_file(
                    dir@[j as int]@,
                    package,
                ));
            }
            if let Some(version) = found {
                let duplicate = marked(&dir[j], pkgname);
                if best.is_none() || chars::lt(&best_version, &version) || (best_duplicate
                    && !duplicate && chars::same(&best_version, &version)) {
                    proof {
                        lemma_better(
                            listings@,
                            package,
                            best,
                            best_version@,
                            best_duplicate,
                            i,
                            j,
                            version@,
                        );
                    }
                    best = Some((i, j));
                    best_version = version;
                    best_duplicate = duplicate;
                }
            }
            j = j + 1;
        }
        i = i + 1;
    }
    proof {
        if best is Some {
            lemma_best(listings@, package, best->0, best_version@, best_duplicate);
        }
    }
    best
}

/// See [`is_marked`].
fn marked(file: &str, pkgname: &str) -> (r: bool)
    ensures
        r == is_marked(file@, pkgname@),
{
    let mut prefix = chars::chars_of(pkgname);
    chars::extend_str(&mut prefix, "-");
    let cs = chars::chars_of(file);
    let rest = match chars::strip_prefix(&cs, &prefix) {
        Some(rest) => rest,
        None => {
            return false;
        },
    };
    let mut i: usize = 0;
    while i < rest.len()
        invariant
            i <= rest.len(),
            text::strip_prefix(file@, pkgname@ + "-"@) == Some(rest@),
            forall|k: int| 0 <= k < i ==> rest@[k] != '~',
        decreases rest.len() - i,
    {
        if rest[i] == '~' {
            return true;
        }
        i = i + 1;
    }
    false
}

/// The best file among those before the `j`-th of the `i`-th directory.
spec fn best_below(
    listings: Seq<Vec<String>>,
    package: Seq<char>,
    best: Option<(usize, usize)>,
    version: Seq<char>,
    duplicate: bool,
    i: int,
    j: int,
) -> bool {
    match best {
        Some((a, b)) => {
            &&& holds_version(listings, package, version, a as int, b as int)
            &&& duplicate == is_duplicate(listings, package, a as int, b as int)
            &&& stands_before(a as int, b as int, i, j)
            &&& forall|k: int, l: int|
                is_file(listings, k, l) && stands_before(k, l, i, j) && #[trigger] version_at(
                    listings,
                    package,
                    k,
                    l,
                ) is Some ==> {
                    let other = version_at(listings, package, k, l)->0;
                    if stands_before(k, l, a as int, b as int) {
                        beats(version, duplicate, other, is_duplicate(listings, package, k, l))
                    } else {
                        !beats(other, is_duplicate(listings, package, k, l), version, duplicate)
                    }
                }
        },
        None => forall|k: int, l: int|
            is_file(listings, k, l) && stands_before(k, l, i, j) ==> #[trigger] version_at(
                listings,
                package,
                k,
                l,
            ) is None,
    }
}

/// A file that is to be taken rather than the best so far takes its place.
proof fn lemma_better(
    listings: Seq<Vec<String>>,
    package: Seq<char>,
    best: Option<(usize, usize)>,
    version: Seq<char>,
    duplicate: bool,
    i: usize,
    j: usize,
    new: Seq<char>,
)
    requires
        best_below(listings, package, best, version, duplicate, i as int, j as int),
        holds_version(listings, package, new, i as int, j as int),
        best is None || beats(
            new,
            is_duplicate(listings, package, i as int, j as int),
            version,
            duplicate,
        ),
    ensures
        best_below(
            listings,
            package,
            Some((i, j)),
            new,
            is_duplicate(listings, package, i as int, j as int),
            i as int,
            j + 1,
        ),
{
    let mark = is_duplicate(listings, package, i as int, j as int);
    text::lemma_lt_irreflexive(new);
    assert forall|k: int, l: int|
        is_file(listings, k, l) && stands_before(k, l, i as int, j as int)
            && #[trigger] version_at(listings, package, k, l) is Some implies beats(
        new,
        mark,
        version_at(listings, package, k, l)->0,
        is_duplicate(listings, package, k, l),
    ) by {
        let other = version_at(listings, package, k, l)->0;
        text::lemma_lt_total(version, other);
        if text::lt(other, version) && text::lt(version, new) {
            text::lemma_lt_transitive(other, version, new);
        }
    }
}

/// The best of all files is the one to take.
proof fn lemma_best(
    listings: Seq<Vec<String>>,
    package: Seq<char>,
    best: (usize, usize),
    version: Seq<char>,
    duplicate: bool,
)
    requires
        best_below(
            listings,
            package,
            Some(best),
            version,
            duplicate,
            listings.len() as int,
            0,
        ),
    ensures
        is_best(listings, package, best.0 as int, best.1 as int),
{
    let i = best.0 as int;
    let j = best.1 as int;
    text::lemma_lt_irreflexive(version);
    assert forall|k: int, l: int|
        is_file(listings, k, l) && #[trigger] version_at(
            listings,
            package,
            k,
            l,
        ) is Some implies !text::lt(version, version_at(listings, package, k, l)->0) by {
        let other = version_at(listings, package, k, l)->0;
        if text::lt(version, other) && text::lt(other, version) {
            text::lemma_lt_transitive(version, other, version);
        }
    }
    if has_plain(listings, package, version) {
        let (k, l) = choose|k: int, l: int| #[trigger]
            holds_version(listings, package, version, k, l) && !is_duplicate(listings, package, k, l);
        assert(version_at(listings, package, k, l) is Some);
        assert forall|k: int, l: int|
            stands_before(k, l, i, j) && #[trigger] holds_version(
                listings,
                package,
                version,
                k,
                l,
            ) implies is_duplicate(listings, package, k, l) by {
            assert(version_at(listings, package, k, l) is Some);
        }
    } else {
        assert forall|k: int, l: int| stands_before(k, l, i, j) implies !#[trigger] holds_version(
            listings,
            package,
            version,
            k,
            l,
        ) by {
            if holds_version(listings, package, version, k, l) {
                assert(version_at(listings, package, k, l) is Some);
                assert(holds_version(listings, package, version, i, j));
            }
        }
    }
}

} // verus!
