//! The dist-info layout of an egg-info payload: its directory, its files and what they hold.
use crate::egg;
use crate::external;
use crate::laws::eggs;
use crate::laws::texts;
use crate::package;
use crate::paths;
use crate::text;
use vstd::prelude::*;
use vstd::utf8;

verus! {

// ---------------------------------------------------------------------------
// The directory
// ---------------------------------------------------------------------------

/// The path lies in an egg-info directory.
pub open spec fn is_egg_path(path: Seq<char>, stem: Seq<char>, rest: Seq<char>) -> bool {
    !stem.contains('/') && path == stem + ".egg-info/"@ + rest
}

/// A path in an egg-info directory, and its directory.
proof fn lemma_egg_path(path: Seq<char>)
    ensures
        forall|stem: Seq<char>, rest: Seq<char>| #[trigger]
            is_egg_path(path, stem, rest) ==> paths::dir_with(path, ".egg-info"@) == Some(
                stem + ".egg-info"@,
            ),
        paths::dir_with(path, ".egg-info"@) matches Some(dir) ==> exists|
            stem: Seq<char>,
            rest: Seq<char>,
        |
            #[trigger] is_egg_path(path, stem, rest) && dir == stem + ".egg-info"@,
{
    reveal_strlit(".egg-info");
    reveal_strlit(".egg-info/");
    reveal_strlit("/");
    assert("/"@ =~= seq!['/']);
    assert forall|stem: Seq<char>, rest: Seq<char>| #[trigger]
        is_egg_path(path, stem, rest) implies paths::dir_with(path, ".egg-info"@) == Some(
        stem + ".egg-info"@,
    ) by {
        let dir = stem + ".egg-info"@;
        text::lemma_add_contains(stem, ".egg-info"@, '/');
        assert(path =~= dir + seq!['/'] + rest);
        texts::lemma_split_once_char(dir, '/', rest);
        texts::lemma_ends_with(dir, ".egg-info"@);
    }
    if let Some(dir) = paths::dir_with(path, ".egg-info"@) {
        paths::lemma_dir_of(path);
        texts::lemma_split_once(path, "/"@);
        texts::lemma_ends_with(dir, ".egg-info"@);
        let stem = text::strip_suffix(dir, ".egg-info"@)->0;
        let (a, rest) = text::split_once(path, "/"@)->0;
        text::lemma_add_contains(stem, ".egg-info"@, '/');
        assert(path =~= stem + ".egg-info/"@ + rest);
        assert(is_egg_path(path, stem, rest));
    }
}

/// The egg-info directory of a payload is that of the first of its paths, in order, that lie in
/// one.
pub proof fn lemma_egg_dir(files: Map<Seq<char>, package::FileModel>)
    requires
        files.dom().finite(),
    ensures
        match egg::egg_dir(files) {
            Some(dir) => exists|p: Seq<char>, stem: Seq<char>, rest: Seq<char>|
                {
                    &&& files.contains_key(p)
                    &&& #[trigger] is_egg_path(p, stem, rest)
                    &&& dir == stem + ".egg-info"@
                    &&& forall|q: Seq<char>, other: Seq<char>, name: Seq<char>|
                        files.contains_key(q) && #[trigger] is_egg_path(q, other, name)
                            ==> !text::lt(q, p)
                },
            None => forall|q: Seq<char>, other: Seq<char>, name: Seq<char>|
                files.contains_key(q) ==> !#[trigger] is_egg_path(q, other, name),
        },
{
    let order = text::in_order(files.dom());
    text::lemma_in_order(files.dom());
    lemma_egg_dir_from(order, 0);
    match egg::egg_dir(files) {
        Some(dir) => {
            let k = choose|k: int|
                {
                    &&& 0 <= k < order.len()
                    &&& paths::dir_with(#[trigger] order[k], ".egg-info"@) == Some(dir)
                    &&& forall|j: int|
                        0 <= j < k ==> paths::dir_with(#[trigger] order[j], ".egg-info"@) is None
                };
            let p = order[k];
            lemma_egg_path(p);
            let (stem, rest) = choose|stem: Seq<char>, rest: Seq<char>| #[trigger]
                is_egg_path(p, stem, rest) && dir == stem + ".egg-info"@;
            assert(order.contains(p));
            assert forall|q: Seq<char>, other: Seq<char>, name: Seq<char>|
                files.contains_key(q) && #[trigger] is_egg_path(q, other, name) implies !text::lt(
                q,
                p,
            ) by {
                lemma_egg_path(q);
                assert(order.contains(q));
                let j = choose|j: int| 0 <= j < order.len() && order[j] == q;
                assert(j >= k) by {
                    if j < k {
                        assert(paths::dir_with(order[j], ".egg-info"@) is None);
                    }
                }
                text::lemma_lt_irreflexive(p);
                if k < j && text::lt(q, p) {
                    assert(text::lt(order[k], order[j]));
                    text::lemma_lt_transitive(p, q, p);
                }
            }
            assert(is_egg_path(p, stem, rest));
        },
        None => {
            assert forall|q: Seq<char>, other: Seq<char>, name: Seq<char>|
                files.contains_key(q) implies !#[trigger] is_egg_path(q, other, name) by {
                lemma_egg_path(q);
                assert(order.contains(q));
                let j = choose|j: int| 0 <= j < order.len() && order[j] == q;
                assert(paths::dir_with(order[j], ".egg-info"@) is None);
            }
        },
    }
}

proof fn lemma_egg_dir_from(order: Seq<Seq<char>>, i: int)
    requires
        0 <= i,
    ensures
        match egg::egg_dir_from(order, i) {
            Some(dir) => exists|k: int|
                {
                    &&& i <= k < order.len()
                    &&& paths::dir_with(#[trigger] order[k], ".egg-info"@) == Some(dir)
                    &&& forall|j: int|
                        i <= j < k ==> paths::dir_with(#[trigger] order[j], ".egg-info"@) is None
                },
            None => forall|j: int|
                i <= j < order.len() ==> paths::dir_with(
                    #[trigger] order[j],
                    ".egg-info"@,
                ) is None,
        },
    decreases order.len() - i,
{
    if i < order.len() {
        if paths::dir_with(order[i], ".egg-info"@) is Some {
        } else {
            lemma_egg_dir_from(order, i + 1);
            if let Some(dir) = egg::egg_dir_from(order, i + 1) {
                let k = choose|k: int|
                    {
                        &&& i + 1 <= k < order.len()
                        &&& paths::dir_with(#[trigger] order[k], ".egg-info"@) == Some(dir)
                        &&& forall|j: int|
                            i + 1 <= j < k ==> paths::dir_with(
                                #[trigger] order[j],
                                ".egg-info"@,
                            ) is None
                    };
                assert(paths::dir_with(order[k], ".egg-info"@) == Some(dir));
            }
        }
    }
}

/// All characters are digits or dots.
pub open spec fn is_dotted(s: Seq<char>) -> bool {
    forall|k: int| 0 <= k < s.len() ==> ('0' <= #[trigger] s[k] && s[k] <= '9') || s[k] == '.'
}

/// A directory `{name}-{version}.egg-info` becomes `{name}-{version}.dist-info`.
pub proof fn lemma_dist_info_name(name: Seq<char>, version: Seq<char>)
    requires
        !version.contains('-'),
        forall|rest: Seq<char>| name + "-"@ + version != #[trigger] (rest + ".egg-info"@),
        forall|digits: Seq<char>| is_dotted(digits) ==> version != #[trigger] ("py"@ + digits),
    ensures
        egg::dist_info_for(name + "-"@ + version + ".egg-info"@) == Some(
            name + "-"@ + version + ".dist-info"@,
        ),
{
    reveal_strlit("-");
    reveal_strlit("py");
    reveal_strlit(".egg-info");
    let stem = name + "-"@ + version;
    assert(stem =~= name + seq!['-'] + version);
    texts::lemma_trim_end_matches_twice(stem, ".egg-info"@);
    texts::lemma_rsplit_once_char(name, '-', version);
    lemma_python_tail(version);
}

/// What reads as the python version of a directory name: `py`, digits and dots.
proof fn lemma_python_tail(tail: Seq<char>)
    ensures
        egg::is_python_tail(tail) <==> exists|digits: Seq<char>|
            is_dotted(digits) && tail == #[trigger] ("py"@ + digits),
{
    reveal_strlit("py");
    texts::lemma_starts_with(tail, "py"@);
    if egg::is_python_tail(tail) {
        let digits = tail.skip(2);
        assert(tail =~= "py"@ + digits);
        assert forall|k: int| 0 <= k < digits.len() implies ('0' <= #[trigger] digits[k]
            && digits[k] <= '9') || digits[k] == '.' by {
            assert(digits[k] == tail[k + 2]);
        }
    }
    if exists|digits: Seq<char>| is_dotted(digits) && tail == #[trigger] ("py"@ + digits) {
        let digits = choose|digits: Seq<char>|
            is_dotted(digits) && tail == #[trigger] ("py"@ + digits);
        assert forall|k: int| 2 <= k < tail.len() implies text::is_digit(#[trigger] tail[k])
            || tail[k] == '.' by {
            assert(tail[k] == digits[k - 2]);
        }
    }
}

/// A python version after the stem of a directory name is left out.
proof fn lemma_versioned_stem(stem: Seq<char>, digits: Seq<char>)
    requires
        is_dotted(digits),
    ensures
        egg::egg_stem(stem + "-py"@ + digits + ".egg-info"@) == stem,
{
    reveal_strlit("-py");
    reveal_strlit("py");
    reveal_strlit(".egg-info");
    let tail = "py"@ + digits;
    let long = stem + "-py"@ + digits;
    assert(long =~= stem + seq!['-'] + tail);
    assert(!tail.contains('-')) by {
        assert forall|k: int| 0 <= k < tail.len() implies tail[k] != '-' by {
            if k >= 2 {
                assert(tail[k] == digits[k - 2]);
            }
        }
    }
    texts::lemma_rsplit_once_char(stem, '-', tail);
    lemma_python_tail(tail);
    assert(tail == "py"@ + digits);
    assert forall|rest: Seq<char>| long != #[trigger] (rest + ".egg-info"@) by {
        if long == rest + ".egg-info"@ {
            assert(long.last() == 'o');
            assert(long.last() == tail.last());
            if digits.len() > 0 {
                assert(tail.last() == digits.last());
            }
        }
    }
    texts::lemma_trim_end_matches_twice(long, ".egg-info"@);
}

/// A directory `{name}-{version}-pyX.Y.egg-info` becomes `{name}-{version}.dist-info`.
pub proof fn lemma_versioned_dist_info_name(
    name: Seq<char>,
    version: Seq<char>,
    digits: Seq<char>,
)
    requires
        !version.contains('-'),
        is_dotted(digits),
    ensures
        egg::dist_info_for(name + "-"@ + version + "-py"@ + digits + ".egg-info"@) == Some(
            name + "-"@ + version + ".dist-info"@,
        ),
{
    reveal_strlit("-");
    let stem = name + "-"@ + version;
    assert(stem =~= name + seq!['-'] + version);
    lemma_versioned_stem(stem, digits);
    texts::lemma_rsplit_once_char(name, '-', version);
}

/// A directory without a dash in its name, but for that of a python version, names no project and
/// version.
pub proof fn lemma_no_dist_info_name(name: Seq<char>, digits: Seq<char>)
    requires
        !name.contains('-'),
        is_dotted(digits),
    ensures
        egg::dist_info_for(name + "-py"@ + digits + ".egg-info"@) is None,
        egg::dist_info_for(name + ".egg-info"@) is None,
{
    reveal_strlit(".egg-info");
    lemma_versioned_stem(name, digits);
    text::lemma_rfind_below(name, '-', name.len() as int);
    assert(text::rsplit_once(name, '-') is None) by {
        if let Some(i) = text::rfind(name, '-') {
            assert(name.contains(name[i]));
        }
    }
    assert forall|rest: Seq<char>| name != #[trigger] (rest + ".egg-info"@) by {
        if name == rest + ".egg-info"@ {
            assert(name[name.len() - 5] == '-');
            assert(name.contains(name[name.len() - 5]));
        }
    }
    texts::lemma_trim_end_matches_twice(name, ".egg-info"@);
}

// ---------------------------------------------------------------------------
// The files
// ---------------------------------------------------------------------------

/// There is a path that ends with `.so`.
pub open spec fn has_library(files: Map<Seq<char>, package::FileModel>) -> bool {
    exists|stem: Seq<char>| files.contains_key(#[trigger] (stem + ".so"@))
}

/// The files that the metadata is made of are no libraries.
proof fn lemma_libraries(files: Map<Seq<char>, package::FileModel>, dir: Seq<char>)
    ensures
        egg::is_compiled(egg::without_metadata(files, dir)) <==> has_library(files),
{
    reveal_strlit(".so");
    reveal_strlit("PKG-INFO");
    reveal_strlit("requires.txt");
    let rest = egg::without_metadata(files, dir);
    let info = paths::path_in(dir, "PKG-INFO"@);
    let listing = paths::path_in(dir, "requires.txt"@);
    if egg::is_compiled(rest) {
        let p = choose|p: Seq<char>| rest.contains_key(p) && text::ends_with(p, ".so"@);
        texts::lemma_ends_with(p, ".so"@);
        let stem = choose|stem: Seq<char>| p == #[trigger] (stem + ".so"@);
        assert(files.contains_key(stem + ".so"@));
    }
    if has_library(files) {
        let stem = choose|stem: Seq<char>| files.contains_key(#[trigger] (stem + ".so"@));
        let p = stem + ".so"@;
        texts::lemma_ends_with(p, ".so"@);
        assert(p.last() == 'o' && p[p.len() - 2] == 's');
        assert(info.last() == 'O');
        assert(listing.last() == 't');
        assert(rest.contains_key(p));
    }
}

/// The dist-info layout: the files of the egg-info directory are gone; in the dist-info directory
/// stand its metadata with the dependencies, its entry points, and a WHEEL file; all others stay
/// as they were.
pub proof fn lemma_layout(payload: package::PayloadModel, dir: Seq<char>, dist: Seq<char>)
    requires
        egg::egg_dir(payload.files) == Some(dir),
        egg::dist_info_for(dir) == Some(dist),
        payload.files.contains_key(dir + "/PKG-INFO"@),
        has_library(payload.files) ==> payload.pyver is Some,
    ensures
        ({
            let before = payload.files;
            let (after, outcome) = egg::egg_converted(payload);
            let info = external::utf8_lossy(before[dir + "/PKG-INFO"@].data);
            let listing = external::utf8_lossy(before[dir + "/requires.txt"@].data);
            &&& outcome is Ok
            &&& forall|path: Seq<char>| #[trigger]
                after.contains_key(path) && path != dist + "/METADATA"@ && path != dist
                    + "/WHEEL"@ && path != dist + "/entry_points.txt"@ ==> before.contains_key(path)
                    && after[path] == before[path]
            &&& forall|path: Seq<char>| #[trigger]
                before.contains_key(path) && (forall|rest: Seq<char>|
                    path != #[trigger] (dir + "/"@ + rest)) ==> after.contains_key(path)
            &&& forall|rest: Seq<char>| !after.contains_key(#[trigger] (dir + "/"@ + rest))
            &&& after[dist + "/METADATA"@].mode == 0o644
            &&& after[dist + "/METADATA"@].data == utf8::encode_utf8(
                if before.contains_key(dir + "/requires.txt"@) {
                    egg::with_fields(info, egg::requires_fields(listing))
                } else {
                    info
                },
            )
            &&& before.contains_key(dir + "/entry_points.txt"@) ==> after.contains_key(
                dist + "/entry_points.txt"@,
            ) && after[dist + "/entry_points.txt"@] == before[dir + "/entry_points.txt"@]
            &&& !before.contains_key(dir + "/entry_points.txt"@) ==> (after.contains_key(
                dist + "/entry_points.txt"@,
            ) <==> before.contains_key(dist + "/entry_points.txt"@)) && (before.contains_key(
                dist + "/entry_points.txt"@,
            ) ==> after[dist + "/entry_points.txt"@] == before[dist + "/entry_points.txt"@])
            &&& after[dist + "/WHEEL"@].mode == 0o644
            &&& after.contains_key(dist + "/WHEEL"@)
            &&& after.contains_key(dist + "/METADATA"@)
        }),
{
    reveal_strlit("/");
    reveal_strlit("/PKG-INFO");
    reveal_strlit("/requires.txt");
    reveal_strlit("/METADATA");
    reveal_strlit("/WHEEL");
    reveal_strlit("/entry_points.txt");
    reveal_strlit("PKG-INFO");
    reveal_strlit("requires.txt");
    reveal_strlit("METADATA");
    reveal_strlit("WHEEL");
    reveal_strlit("entry_points.txt");
    assert(dir + "/PKG-INFO"@ =~= paths::path_in(dir, "PKG-INFO"@));
    assert(dir + "/requires.txt"@ =~= paths::path_in(dir, "requires.txt"@));
    assert(dir + "/entry_points.txt"@ =~= paths::path_in(dir, "entry_points.txt"@));
    assert(dist + "/METADATA"@ =~= paths::path_in(dist, "METADATA"@));
    assert(dist + "/WHEEL"@ =~= paths::path_in(dist, "WHEEL"@));
    assert(dist + "/entry_points.txt"@ =~= paths::path_in(dist, "entry_points.txt"@));
    let metadata = dist + "/METADATA"@;
    let stamp = dist + "/WHEEL"@;
    let points = dist + "/entry_points.txt"@;
    assert(metadata.len() != stamp.len() && points.len() != stamp.len() && metadata.len()
        != points.len());
    lemma_libraries(payload.files, dir);
    let compiled = egg::is_compiled(egg::without_metadata(payload.files, dir));
    let tag = egg::payload_tag(compiled, payload.pyver)->0;
    let (after, outcome) = egg::egg_converted(payload);
    eggs::lemma_directories(payload.files);
    paths::lemma_path_in_under(dist, "entry_points.txt"@);
    paths::lemma_dir_of_under(points, dist);
    assert(!paths::is_under(points, dir)) by {
        if paths::is_under(points, dir) {
            paths::lemma_dir_of_under(points, dir);
        }
    }
    assert(after == egg::dist_info_files(payload.files, dir, dist, tag));
    assert forall|path: Seq<char>| #[trigger]
        payload.files.contains_key(path) && (forall|rest: Seq<char>|
            path != #[trigger] (dir + "/"@ + rest)) implies after.contains_key(path) by {
        texts::lemma_starts_with(path, dir + "/"@);
        assert(!paths::is_under(path, dir)) by {
            if paths::is_under(path, dir) {
                let rest = choose|rest: Seq<char>| path == #[trigger] ((dir + "/"@) + rest);
                assert(path == dir + "/"@ + rest);
            }
        }
    }
    assert forall|rest: Seq<char>| !after.contains_key(#[trigger] (dir + "/"@ + rest)) by {
        let path = dir + "/"@ + rest;
        texts::lemma_starts_with(path, dir + "/"@);
        if after.contains_key(path) {
            eggs::lemma_no_egg_info_left(payload, dir, dist, tag, path);
        }
    }
}

/// The WHEEL file that a payload gets.
pub proof fn lemma_made_wheel(
    payload: package::PayloadModel,
    dir: Seq<char>,
    dist: Seq<char>,
    version: Seq<char>,
)
    requires
        egg::egg_dir(payload.files) == Some(dir),
        egg::dist_info_for(dir) == Some(dist),
        payload.files.contains_key(dir + "/PKG-INFO"@),
        has_library(payload.files) ==> payload.pyver == Some(version),
    ensures
        ({
            let made = egg::egg_converted(payload).0[dist + "/WHEEL"@].data;
            &&& !has_library(payload.files) ==> made == utf8::encode_utf8(
                "Wheel-Version: 1.0\nGenerator: wheelfs 0.1.0\nRoot-Is-Purelib: true\nTag: py3-none-any\n"@,
            )
            &&& has_library(payload.files) ==> made == utf8::encode_utf8(
                "Wheel-Version: 1.0\nGenerator: wheelfs 0.1.0\nRoot-Is-Purelib: false\nTag: cp"@
                    + text::without(version, '.') + "-cp"@ + text::without(version, '.')
                    + "-freebsd\n"@,
            )
        }),
{
    reveal_strlit("/");
    reveal_strlit("/PKG-INFO");
    reveal_strlit("PKG-INFO");
    reveal_strlit("/WHEEL");
    reveal_strlit("WHEEL");
    reveal_strlit(
        "Wheel-Version: 1.0\nGenerator: wheelfs 0.1.0\nRoot-Is-Purelib: true\nTag: py3-none-any\n",
    );
    reveal_strlit(
        "Wheel-Version: 1.0\nGenerator: wheelfs 0.1.0\nRoot-Is-Purelib: false\nTag: cp",
    );
    reveal_strlit("-cp");
    reveal_strlit("-freebsd\n");
    reveal_strlit("Wheel-Version: 1.0\nGenerator: wheelfs ");
    reveal_strlit("0.1.0");
    reveal_strlit("\nRoot-Is-Purelib: ");
    reveal_strlit("true");
    reveal_strlit("false");
    reveal_strlit("\nTag: ");
    reveal_strlit("\n");
    reveal_strlit("py3-none-any");
    reveal_strlit("cp");
    reveal_strlit("-");
    reveal_strlit("-freebsd");
    assert(dir + "/PKG-INFO"@ =~= paths::path_in(dir, "PKG-INFO"@));
    assert(dist + "/WHEEL"@ =~= paths::path_in(dist, "WHEEL"@));
    lemma_libraries(payload.files, dir);
    let w = text::without(version, '.');
    if has_library(payload.files) {
        let tag = egg::payload_tag(true, payload.pyver)->0;
        assert(egg::wheel_text(true, tag)
            =~= "Wheel-Version: 1.0\nGenerator: wheelfs 0.1.0\nRoot-Is-Purelib: false\nTag: cp"@ + w
            + "-cp"@ + w + "-freebsd\n"@);
    } else {
        assert(egg::wheel_text(false, "py3-none-any"@)
            =~= "Wheel-Version: 1.0\nGenerator: wheelfs 0.1.0\nRoot-Is-Purelib: true\nTag: py3-none-any\n"@);
    }
}

/// What is wrong with a payload that has no dist-info layout, and what is left of it.
pub proof fn lemma_no_layout(payload: package::PayloadModel, dir: Seq<char>, dist: Seq<char>)
    ensures
        egg::egg_dir(payload.files) is None ==> egg::egg_converted(payload) == (
            payload.files,
            Err::<(), egg::EggFault>(egg::EggFault::NoMetadataDir),
        ),
        egg::egg_dir(payload.files) == Some(dir) && egg::dist_info_for(dir) is None
            ==> egg::egg_converted(payload) == (
            payload.files,
            Err::<(), egg::EggFault>(egg::EggFault::UnparsedName(dir)),
        ),
        egg::egg_dir(payload.files) == Some(dir) && egg::dist_info_for(dir) == Some(dist)
            && !payload.files.contains_key(dir + "/PKG-INFO"@) ==> egg::egg_converted(payload) == (
            payload.files,
            Err::<(), egg::EggFault>(egg::EggFault::NoPkgInfo(dir)),
        ),
        egg::egg_dir(payload.files) == Some(dir) && egg::dist_info_for(dir) == Some(dist)
            && payload.files.contains_key(dir + "/PKG-INFO"@) && has_library(payload.files)
            && payload.pyver is None ==> egg::egg_converted(payload) == (
            payload.files.remove(dir + "/PKG-INFO"@).remove(dir + "/requires.txt"@),
            Err::<(), egg::EggFault>(egg::EggFault::UnknownPython),
        ),
{
    reveal_strlit("/");
    reveal_strlit("/PKG-INFO");
    reveal_strlit("/requires.txt");
    reveal_strlit("PKG-INFO");
    reveal_strlit("requires.txt");
    assert(dir + "/PKG-INFO"@ =~= paths::path_in(dir, "PKG-INFO"@));
    assert(dir + "/requires.txt"@ =~= paths::path_in(dir, "requires.txt"@));
    lemma_libraries(payload.files, dir);
}

} // verus!
