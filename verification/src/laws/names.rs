//! What holds of platform tags, package names and package files.
use crate::naming;
use crate::text;
use vstd::prelude::*;

verus! {

/// A text with underscores in place of dots and dashes holds neither.
pub proof fn lemma_underscored(s: Seq<char>)
    ensures
        !naming::underscored(s).contains('.'),
        !naming::underscored(s).contains('-'),
        naming::underscored(s).len() == s.len(),
{
    let out = naming::underscored(s);
    assert forall|k: int| 0 <= k < out.len() implies out[k] != '.' && out[k] != '-' by {}
}

/// The name of a package stands for itself, whatever python it is asked for again. (Where the
/// first prefix does not begin with `py3`, the name would get a prefix once more.)
pub proof fn lemma_resolved_twice(requested: Seq<char>, prefix: Seq<char>, other: Seq<char>)
    requires
        text::starts_with(prefix, "py3"@),
    ensures
        text::starts_with(naming::resolved(requested, prefix), "py3"@),
        naming::resolved(naming::resolved(requested, prefix), other) == naming::resolved(
            requested,
            prefix,
        ),
{
    let name = naming::resolved(requested, prefix);
    let n = "py3"@.len() as int;
    if !text::starts_with(requested, "py3"@) {
        assert(name.take(n) =~= prefix.take(n));
    }
}

/// The file of a package in some version, as repositories name it.
pub open spec fn file_of(package: Seq<char>, version: Seq<char>) -> Seq<char> {
    package + "-"@ + version + ".pkg"@
}

/// What version a file so named holds of its package.
pub proof fn lemma_version_of_file(package: Seq<char>, version: Seq<char>)
    ensures
        naming::version_of_file(file_of(package, version), package) == {
            let plain = naming::plain_version(version);
            if plain.len() > 0 && text::is_digit(plain[0]) {
                Some(plain)
            } else {
                None
            }
        },
{
    let file = file_of(package, version);
    let prefix = package + "-"@;
    let rest = version + ".pkg"@;
    assert(file.take(prefix.len() as int) =~= prefix);
    assert(file.skip(prefix.len() as int) =~= rest);
    assert(rest.skip(rest.len() - ".pkg"@.len()) =~= ".pkg"@);
    assert(rest.take(rest.len() - ".pkg"@.len()) =~= version);
}

/// A plain version begins its version.
proof fn lemma_plain_version(version: Seq<char>)
    ensures
        naming::plain_version(version).len() <= version.len(),
        naming::plain_version(version) == version.take(
            naming::plain_version(version).len() as int,
        ),
        !naming::plain_version(version).contains('~'),
        !version.contains('~') ==> naming::plain_version(version) == version,
{
    reveal_strlit("~");
    assert("~"@ =~= seq!['~']);
    text::lemma_find_char(version, '~');
    match text::find(version, seq!['~']) {
        Some(i) => {
            let plain = version.take(i);
            assert forall|k: int| 0 <= k < plain.len() implies plain[k] != '~' by {
                assert(version[k] != '~');
            }
            assert(version[i] == '~');
            assert(version.contains(version[i]));
        },
        None => {
            assert(version.take(version.len() as int) =~= version);
        },
    }
}

/// The file of a package whose name goes on where another package's name ends is no file of
/// that other package, unless it goes on with a digit.
pub proof fn lemma_other_package(package: Seq<char>, more: Seq<char>, version: Seq<char>)
    requires
        more.len() > 0,
        !text::is_digit(more[0]),
    ensures
        naming::version_of_file(file_of(package + "-"@ + more, version), package) is None,
{
    let full = more + "-"@ + version;
    assert(file_of(package + "-"@ + more, version) =~= file_of(package, full));
    lemma_version_of_file(package, full);
    lemma_plain_version(full);
    let plain = naming::plain_version(full);
    if plain.len() > 0 {
        assert(plain[0] == full[0]);
        assert(full[0] == more[0]);
    }
}

/// A duplicate of a file, named with a tilde and a mark, holds the same version.
pub proof fn lemma_duplicate(package: Seq<char>, version: Seq<char>, mark: Seq<char>)
    requires
        !version.contains('~'),
    ensures
        naming::version_of_file(file_of(package, version + "~"@ + mark), package)
            == naming::version_of_file(file_of(package, version), package),
{
    let full = version + "~"@ + mark;
    reveal_strlit("~");
    assert("~"@ =~= seq!['~']);
    lemma_version_of_file(package, full);
    lemma_version_of_file(package, version);
    lemma_plain_version(version);
    text::lemma_find_char(full, '~');
    let n = version.len() as int;
    assert(full[n] == '~');
    let i = text::find(full, seq!['~'])->0;
    assert(i == n) by {
        if i < n {
            assert(version[i] == '~');
            assert(version.contains(version[i]));
        }
    }
    assert(full.take(n) =~= version);
}

/// There is one best file of a package at most.
pub proof fn lemma_one_best(
    listings: Seq<Vec<String>>,
    package: Seq<char>,
    i: int,
    j: int,
    k: int,
    l: int,
)
    requires
        naming::is_best(listings, package, i, j),
        naming::is_best(listings, package, k, l),
    ensures
        i == k && j == l,
{
    let a = naming::version_at(listings, package, i, j)->0;
    let b = naming::version_at(listings, package, k, l)->0;
    text::lemma_lt_total(a, b);
    assert(naming::holds_version(listings, package, a, i, j));
    assert(naming::holds_version(listings, package, b, k, l));
}

} // verus!
