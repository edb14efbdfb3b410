//! What holds of payloads whose egg-info layout became the dist-info layout.
use crate::convert;
use crate::egg;
use crate::laws::members;
use crate::package;
use crate::paths;
use crate::text;
use crate::wheel;
use vstd::prelude::*;

verus! {

/// A directory found as the egg-info directory is that of a path.
proof fn lemma_egg_dir_from(order: Seq<Seq<char>>, i: int)
    requires
        0 <= i,
    ensures
        match egg::egg_dir_from(order, i) {
            Some(dir) => !dir.contains('/') && text::ends_with(dir, ".egg-info"@),
            None => true,
        },
    decreases order.len() - i,
{
    if i < order.len() {
        if paths::dir_with(order[i], ".egg-info"@) is Some {
            paths::lemma_dir_of(order[i]);
        } else {
            lemma_egg_dir_from(order, i + 1);
        }
    }
}

/// The dist-info directory for an egg-info directory is its stem with another suffix, and
/// another directory.
proof fn lemma_dist_info_for(dir: Seq<char>)
    requires
        !dir.contains('/'),
        text::ends_with(dir, ".egg-info"@),
    ensures
        match egg::dist_info_for(dir) {
            Some(dist) => {
                &&& dist == egg::egg_stem(dir) + ".dist-info"@
                &&& egg::egg_stem(dir).contains('-')
                &&& !dist.contains('/')
                &&& dist != dir
                &&& text::ends_with(dist, ".dist-info"@)
            },
            None => true,
        },
{
    reveal_strlit(".egg-info");
    reveal_strlit(".dist-info");
    reveal_strlit("-");
    let trimmed = text::trim_end_matches(dir, ".egg-info"@);
    let stem = egg::egg_stem(dir);
    text::lemma_trim_end_matches(dir, ".egg-info"@);
    text::lemma_rsplit_once(trimmed, '-');
    text::lemma_rsplit_once(stem, '-');
    assert(stem.len() <= dir.len() && stem =~= dir.take(stem.len() as int)) by {
        if let Some((rest, tail)) = text::rsplit_once(trimmed, '-') {
            assert(rest =~= trimmed.take(rest.len() as int));
        }
    }
    if let Some((name, version)) = text::rsplit_once(stem, '-') {
        let dist = egg::dist_info_for(dir)->0;
        assert(dist =~= stem + ".dist-info"@);
        assert(stem[name.len() as int] == '-');
        text::lemma_add_contains(stem, ".dist-info"@, '/');
        assert(!stem.contains('/')) by {
            if stem.contains('/') {
                let k = choose|k: int| 0 <= k < stem.len() && stem[k] == '/';
                assert(dir[k] == '/');
            }
        }
        assert(dist.skip(dist.len() - 10) =~= ".dist-info"@);
        assert(dir.skip(dir.len() - 9) == ".egg-info"@);
        assert(dir[dir.len() - 6] == dir.skip(dir.len() - 9)[3]);
        assert(dist[dist.len() - 6] == 't');
    }
}

/// The egg-info directory of a payload and the dist-info directory that it gets are two
/// directories.
pub proof fn lemma_directories(files: Map<Seq<char>, package::FileModel>)
    ensures
        match egg::egg_dir(files) {
            Some(dir) => {
                &&& !dir.contains('/')
                &&& text::ends_with(dir, ".egg-info"@)
                &&& match egg::dist_info_for(dir) {
                    Some(dist) => !dist.contains('/') && text::ends_with(dist, ".dist-info"@)
                        && dist != dir,
                    None => true,
                }
            },
            None => true,
        },
{
    lemma_egg_dir_from(text::in_order(files.dom()), 0);
    if let Some(dir) = egg::egg_dir(files) {
        lemma_dist_info_for(dir);
    }
}

/// The file names that a dist-info directory gets are different.
proof fn lemma_names_differ(dist: Seq<char>)
    ensures
        paths::path_in(dist, "METADATA"@) != paths::path_in(dist, "WHEEL"@),
        paths::path_in(dist, "METADATA"@) != paths::path_in(dist, "entry_points.txt"@),
        paths::path_in(dist, "WHEEL"@) != paths::path_in(dist, "entry_points.txt"@),
{
    reveal_strlit("METADATA");
    reveal_strlit("WHEEL");
    reveal_strlit("entry_points.txt");
    assert(paths::path_in(dist, "METADATA"@).len() == dist.len() + "/"@.len() + 8);
    assert(paths::path_in(dist, "WHEEL"@).len() == dist.len() + "/"@.len() + 5);
    assert(paths::path_in(dist, "entry_points.txt"@).len() == dist.len() + "/"@.len() + 16);
}

/// A conversion that succeeds leaves nothing in the egg-info directory.
pub proof fn lemma_no_egg_info_left(
    payload: package::PayloadModel,
    dir: Seq<char>,
    dist: Seq<char>,
    tag: Seq<char>,
    path: Seq<char>,
)
    requires
        egg::converts(payload, dir, dist, tag),
        egg::egg_converted(payload).0.contains_key(path),
    ensures
        !paths::is_under(path, dir),
{
    lemma_directories(payload.files);
    if paths::is_under(path, dir) {
        paths::lemma_dir_of_under(path, dir);
        assert(!egg::outside(payload.files, dir).contains_key(path));
        assert(paths::is_under(path, dist)) by {
            paths::lemma_path_in_under(dist, "METADATA"@);
            paths::lemma_path_in_under(dist, "WHEEL"@);
            paths::lemma_path_in_under(dist, "entry_points.txt"@);
        }
        paths::lemma_dir_of_under(path, dist);
    }
}

/// A conversion that succeeds makes the metadata and the `WHEEL` file, moves the entry
/// points, and leaves every file outside of the two directories as it was.
pub proof fn lemma_dist_info_made(
    payload: package::PayloadModel,
    dir: Seq<char>,
    dist: Seq<char>,
    tag: Seq<char>,
)
    requires
        egg::converts(payload, dir, dist, tag),
    ensures
        ({
            let before = payload.files;
            let (after, outcome) = egg::egg_converted(payload);
            let points = paths::path_in(dir, "entry_points.txt"@);
            &&& outcome is Ok
            &&& after.contains_key(paths::path_in(dist, "METADATA"@))
            &&& after[paths::path_in(dist, "METADATA"@)] == egg::written(
                egg::egg_metadata(before, dir),
            )
            &&& after.contains_key(paths::path_in(dist, "WHEEL"@))
            &&& after[paths::path_in(dist, "WHEEL"@)] == egg::written(
                egg::wheel_text(egg::is_compiled(egg::without_metadata(before, dir)), tag),
            )
            &&& before.contains_key(points) ==> {
                &&& after.contains_key(paths::path_in(dist, "entry_points.txt"@))
                &&& after[paths::path_in(dist, "entry_points.txt"@)] == before[points]
            }
            &&& forall|p: Seq<char>|
                !paths::is_under(p, dir) && !paths::is_under(p, dist) ==> {
                    &&& #[trigger] after.contains_key(p) <==> before.contains_key(p)
                    &&& after.contains_key(p) ==> after[p] == before[p]
                }
        }),
{
    lemma_names_differ(dist);
    paths::lemma_path_in_under(dist, "METADATA"@);
    paths::lemma_path_in_under(dist, "WHEEL"@);
    paths::lemma_path_in_under(dist, "entry_points.txt"@);
}

/// A payload without a dist-info directory has exactly one after a conversion that succeeds.
pub proof fn lemma_one_dist_info(
    payload: package::PayloadModel,
    dir: Seq<char>,
    dist: Seq<char>,
    tag: Seq<char>,
)
    requires
        payload.files.dom().finite(),
        !convert::has_dist_info(payload.files),
        egg::converts(payload, dir, dist, tag),
    ensures
        convert::dist_info_dirs(egg::egg_converted(payload).0) == seq![dist],
{
    let files = payload.files;
    let after = egg::egg_converted(payload).0;
    let suffix = ".dist-info"@;
    lemma_directories(files);
    lemma_dist_info_made(payload, dir, dist, tag);
    assert(egg::outside(files, dir).dom().finite()) by {
        assert(egg::outside(files, dir).dom() =~= files.dom().intersect(
            Set::new(|p: Seq<char>| !paths::is_under(p, dir)),
        ));
    }
    members::lemma_dist_info_dirs(after);
    let dirs = convert::dist_info_dirs(after);
    let wheel = paths::path_in(dist, "WHEEL"@);
    paths::lemma_path_in_under(dist, "METADATA"@);
    paths::lemma_path_in_under(dist, "WHEEL"@);
    paths::lemma_path_in_under(dist, "entry_points.txt"@);
    paths::lemma_dir_of_under(wheel, dist);
    assert(after.contains_key(wheel) && paths::dir_with(wheel, suffix) == Some(dist));
    assert(dirs.contains(dist));
    assert forall|d: Seq<char>| #[trigger] dirs.contains(d) implies d == dist by {
        let p = choose|p: Seq<char>|
            after.contains_key(p) && #[trigger] paths::dir_with(p, suffix) == Some(d);
        if paths::is_under(p, dist) {
            paths::lemma_dir_of_under(p, dist);
        } else {
            assert(files.contains_key(p)) by {
                if !files.contains_key(p) {
                    assert(!egg::outside(files, dir).contains_key(p));
                }
            }
            assert(convert::has_dist_info(files));
        }
    }
    assert(dirs.len() == 1) by {
        let k = choose|k: int| 0 <= k < dirs.len() && dirs[k] == dist;
        if dirs.len() > 1 {
            assert(dirs.contains(dirs[0]));
            assert(dirs.contains(dirs[1]));
        }
    }
    assert(dirs.contains(dirs[0]));
    assert(dirs =~= seq![dist]);
}

// ---------------------------------------------------------------------------
// The WHEEL file that is made
// ---------------------------------------------------------------------------

/// The lines of a WHEEL file with one tag.
pub open spec fn wheel_lines(compiled: bool, tag: Seq<char>) -> Seq<Seq<char>> {
    seq![
        "Wheel-Version: 1.0"@,
        "Generator: wheelfs "@ + egg::VERSION@,
        "Root-Is-Purelib: "@ + if compiled {
            "false"@
        } else {
            "true"@
        },
        "Tag: "@ + tag,
    ]
}

/// The lines of the WHEEL file that is made.
proof fn lemma_wheel_lines(compiled: bool, tag: Seq<char>)
    requires
        text::is_line(tag),
        tag.len() > 0,
    ensures
        text::lines(egg::wheel_text(compiled, tag)) == wheel_lines(compiled, tag),
{
    let purelib = if compiled {
        "false"@
    } else {
        "true"@
    };
    let lines = wheel_lines(compiled, tag);
    reveal_strlit("Wheel-Version: 1.0\nGenerator: wheelfs ");
    reveal_strlit("Wheel-Version: 1.0");
    reveal_strlit("Generator: wheelfs ");
    reveal_strlit("0.1.0");
    reveal_strlit("\nRoot-Is-Purelib: ");
    reveal_strlit("Root-Is-Purelib: ");
    reveal_strlit("false");
    reveal_strlit("true");
    reveal_strlit("\nTag: ");
    reveal_strlit("Tag: ");
    reveal_strlit("\n");
    let a = lines[0].push('\n');
    let b = lines[1].push('\n');
    let c = lines[2].push('\n');
    let d = lines[3].push('\n');
    assert("Wheel-Version: 1.0\nGenerator: wheelfs "@ =~= a + "Generator: wheelfs "@);
    assert("\nRoot-Is-Purelib: "@ =~= seq!['\n'] + "Root-Is-Purelib: "@);
    assert("\nTag: "@ =~= seq!['\n'] + "Tag: "@);
    assert(egg::wheel_text(compiled, tag) =~= a + (b + (c + d)));
    text::lemma_add_contains("Generator: wheelfs "@, egg::VERSION@, '\n');
    text::lemma_add_contains("Root-Is-Purelib: "@, purelib, '\n');
    text::lemma_add_contains("Tag: "@, tag, '\n');
    assert(text::is_line(lines[0]));
    assert(text::is_line(lines[1]));
    assert(text::is_line(lines[2]));
    assert(lines[3].last() == tag.last());
    assert(text::is_line(lines[3]));
    text::lemma_one_line(lines[0]);
    text::lemma_one_line(lines[1]);
    text::lemma_one_line(lines[2]);
    text::lemma_one_line(lines[3]);
    text::lemma_lines_append(c, d);
    text::lemma_lines_append(b, c + d);
    text::lemma_lines_append(a, b + (c + d));
    assert(seq![lines[0]] + (seq![lines[1]] + (seq![lines[2]] + seq![lines[3]])) =~= lines);
}

/// A tag of three components without dashes has those components.
proof fn lemma_components(python: Seq<char>, abi: Seq<char>, platform: Seq<char>)
    requires
        !python.contains('-'),
        !abi.contains('-'),
        !platform.contains('-'),
        python.len() > 0 && !text::is_whitespace(python[0]),
        platform.len() > 0 && !text::is_whitespace(platform.last()),
    ensures
        wheel::components(wheel::tag_text(python, abi, platform)) == seq![python, abi, platform],
{
    reveal_strlit("-");
    let tag = wheel::tag_text(python, abi, platform);
    assert(tag =~= python + seq!['-'] + (abi + seq!['-'] + platform));
    assert(tag[0] == python[0]);
    assert(tag.last() == platform.last());
    text::lemma_trim_same(tag);
    text::lemma_split_cons(python, '-', abi + seq!['-'] + platform);
    text::lemma_split_cons(abi, '-', platform);
    text::lemma_split_whole(platform, '-');
    assert(seq![python] + (seq![abi] + seq![platform]) =~= seq![python, abi, platform]);
}

/// The tag of a payload has three components: those of any python, or those of its
/// interpreter on FreeBSD.
proof fn lemma_payload_tag(compiled: bool, pyver: Option<Seq<char>>, tag: Seq<char>)
    requires
        egg::payload_tag(compiled, pyver) == Some(tag),
        compiled ==> egg::fits_tag(pyver->0),
    ensures
        text::is_line(tag),
        tag.len() > 0,
        wheel::components(tag) == if compiled {
            seq![egg::interpreter_tag(pyver->0), egg::interpreter_tag(pyver->0), "freebsd"@]
        } else {
            seq!["py3"@, "none"@, "any"@]
        },
{
    reveal_strlit("-");
    reveal_strlit("cp");
    reveal_strlit("freebsd");
    reveal_strlit("-freebsd");
    reveal_strlit("py3-none-any");
    reveal_strlit("py3");
    reveal_strlit("none");
    reveal_strlit("any");
    if compiled {
        let v = pyver->0;
        let cp = egg::interpreter_tag(v);
        lemma_without_contains(v, '.');
        text::lemma_add_contains("cp"@, text::without(v, '.'), '-');
        text::lemma_add_contains("cp"@, text::without(v, '.'), '\n');
        assert(tag =~= wheel::tag_text(cp, cp, "freebsd"@));
        lemma_components(cp, cp, "freebsd"@);
        text::lemma_add_contains(cp, "-"@, '\n');
        text::lemma_add_contains(cp + "-"@, cp, '\n');
        text::lemma_add_contains(cp + "-"@ + cp, "-freebsd"@, '\n');
        assert(tag.last() == 'd');
    } else {
        assert(tag =~= wheel::tag_text("py3"@, "none"@, "any"@));
        lemma_components("py3"@, "none"@, "any"@);
    }
}

/// Leaving out a character adds none.
proof fn lemma_without_contains(s: Seq<char>, c: char)
    ensures
        forall|x: char| #[trigger] text::without(s, c).contains(x) ==> s.contains(x),
    decreases s.len(),
{
    if s.len() == 0 {
        assert(s =~= seq![]);
        text::lemma_without_push(s, c, c);
    } else {
        let head = s.drop_last();
        lemma_without_contains(head, c);
        assert(s =~= head.push(s.last()));
        text::lemma_without_push(head, s.last(), c);
        let kept = text::without(head, c);
        assert forall|x: char| #[trigger] text::without(s, c).contains(x) implies s.contains(x) by {
            let all = text::without(s, c);
            let k = choose|k: int| 0 <= k < all.len() && all[k] == x;
            if k < kept.len() {
                assert(kept[k] == x);
                assert(kept.contains(x));
                let j = choose|j: int| 0 <= j < head.len() && head[j] == x;
                assert(s[j] == x);
            } else {
                assert(s[s.len() - 1] == x);
            }
        }
    }
}

/// The WHEEL file that is made for a payload can be stamped for any platform: with the tag of
/// any python, or with that of the interpreter and the platform. (A python version with a dash
/// or a line feed in it would not make a tag.)
pub proof fn lemma_made_wheel_restamps(
    compiled: bool,
    pyver: Option<Seq<char>>,
    tag: Seq<char>,
    platform: Seq<char>,
)
    requires
        egg::payload_tag(compiled, pyver) == Some(tag),
        compiled ==> egg::fits_tag(pyver->0),
    ensures
        wheel::restamped(egg::wheel_text(compiled, tag), platform) is Ok,
        wheel::line_tags(text::lines(egg::wheel_text(compiled, tag)), platform) == if compiled {
            seq![
                wheel::tag_text(
                    egg::interpreter_tag(pyver->0),
                    egg::interpreter_tag(pyver->0),
                    platform,
                ),
            ]
        } else {
            seq!["py3-none-any"@]
        },
{
    lemma_payload_tag(compiled, pyver, tag);
    lemma_wheel_lines(compiled, tag);
    let lines = text::lines(egg::wheel_text(compiled, tag));
    reveal_strlit("Wheel-Version: 1.0");
    reveal_strlit("Generator: wheelfs ");
    reveal_strlit("Root-Is-Purelib: ");
    reveal_strlit("Tag: ");
    reveal_strlit("freebsd");
    reveal_strlit("any");
    reveal_strlit("py3-none-any");
    reveal_strlit("py3");
    reveal_strlit("none");
    reveal_strlit("-");
    assert(lines[0][0] == 'W');
    assert(lines[1][0] == 'G');
    assert(lines[2][0] == 'R');
    assert("Tag: "@[0] == 'T');
    assert forall|i: int| 0 <= i < 3 implies wheel::tag_of_line(#[trigger] lines[i]) is None by {
        if text::starts_with(lines[i], "Tag: "@) {
            assert(lines[i][0] == lines[i].take(5)[0]);
        }
    }
    assert(lines[3].take(5) =~= "Tag: "@);
    assert(lines[3].skip(5) =~= tag);
    assert(wheel::tag_of_line(lines[3]) == Some(tag));
    assert forall|i: int| !wheel::first_bad(lines, i) by {
        if wheel::first_bad(lines, i) && i < 3 {
            assert(wheel::tag_of_line(lines[i]) is None);
        }
    }
    let l3 = lines.drop_last();
    let l2 = l3.drop_last();
    let l1 = l2.drop_last();
    let l0 = l1.drop_last();
    assert(l3.last() == lines[2] && l2.last() == lines[1] && l1.last() == lines[0]);
    assert(wheel::line_tags(l0, platform) =~= seq![]);
    assert(wheel::line_tags(l1, platform) =~= seq![]);
    assert(wheel::line_tags(l2, platform) =~= seq![]);
    assert(wheel::line_tags(l3, platform) =~= seq![]);
    let stamped = wheel::restamp_tag(tag, platform);
    assert(wheel::line_tags(lines, platform) =~= seq![stamped]);
    if compiled {
        assert("freebsd"@.len() != "any"@.len());
    } else {
        assert(stamped =~= "py3-none-any"@);
    }
}

} // verus!
