//! Paths inside a payload and their first directories.
use crate::chars;
use crate::text;
use vstd::prelude::*;

verus! {

/// The first directory of a path, where it has one.
pub open spec fn dir_of(path: Seq<char>) -> Option<Seq<char>> {
    match text::split_once(path, "/"@) {
        Some((dir, _)) => Some(dir),
        None => None,
    }
}

/// The first directory of a path, where it has one that ends with `suffix`.
pub open spec fn dir_with(path: Seq<char>, suffix: Seq<char>) -> Option<Seq<char>> {
    match dir_of(path) {
        Some(dir) => if text::ends_with(dir, suffix) {
            Some(dir)
        } else {
            None
        },
        None => None,
    }
}

/// The first directories, of the paths in their order, that end with `suffix`.
pub open spec fn dirs_with(paths: Seq<Seq<char>>, suffix: Seq<char>) -> Seq<Seq<char>>
    decreases paths.len(),
{
    if paths.len() == 0 {
        seq![]
    } else {
        match dir_with(paths.last(), suffix) {
            Some(dir) => dirs_with(paths.drop_last(), suffix).push(dir),
            None => dirs_with(paths.drop_last(), suffix),
        }
    }
}

/// The path of `name` in `dir`.
pub open spec fn path_in(dir: Seq<char>, name: Seq<char>) -> Seq<char> {
    dir + "/"@ + name
}

/// The path lies in `dir`.
pub open spec fn is_under(path: Seq<char>, dir: Seq<char>) -> bool {
    text::starts_with(path, dir + "/"@)
}

/// See [`dir_with`].
pub fn find_dir_with<'a>(path: &'a [char], suffix: &[char]) -> (r: Option<&'a [char]>)
    ensures
        match r {
            Some(dir) => dir_with(path@, suffix@) == Some(dir@),
            None => dir_with(path@, suffix@) is None,
        },
{
    let slash = chars::chars_of("/");
    match chars::split_once(path, &slash) {
        Some((dir, _)) => if chars::ends_with(dir, suffix) {
            Some(dir)
        } else {
            None
        },
        None => None,
    }
}

/// See [`path_in`].
pub fn make_path(dir: &[char], name: &str) -> (r: Vec<char>)
    ensures
        r@ == path_in(dir@, name@),
{
    let mut out = chars::copy_of(dir);
    chars::extend_str(&mut out, "/");
    chars::extend_str(&mut out, name);
    out
}

/// A path with a first directory begins with it and a slash, and the directory holds no
/// slash.
pub proof fn lemma_dir_of(path: Seq<char>)
    ensures
        match dir_of(path) {
            Some(dir) => is_under(path, dir) && !dir.contains('/'),
            None => !path.contains('/'),
        },
{
    reveal_strlit("/");
    assert("/"@ =~= seq!['/']);
    text::lemma_find_char(path, '/');
    match text::find(path, seq!['/']) {
        Some(i) => {
            let dir = path.take(i);
            assert(dir_of(path) == Some(dir));
            assert(path.take(i + 1) =~= dir + "/"@);
            assert forall|k: int| 0 <= k < dir.len() implies dir[k] != '/' by {
                assert(path[k] != '/');
            }
        },
        None => {},
    }
}

/// A path in a directory without a slash has that directory as its first.
pub proof fn lemma_dir_of_under(path: Seq<char>, dir: Seq<char>)
    requires
        !dir.contains('/'),
        is_under(path, dir),
    ensures
        dir_of(path) == Some(dir),
{
    reveal_strlit("/");
    assert("/"@ =~= seq!['/']);
    text::lemma_find_char(path, '/');
    let n = dir.len() as int;
    assert(path.take(n + 1) == dir + "/"@);
    assert(path[n] == path.take(n + 1)[n]);
    assert forall|k: int| 0 <= k < n implies path[k] != '/' by {
        assert(path[k] == path.take(n + 1)[k]);
        assert(dir.contains(dir[k]));
    }
    assert(text::find(path, seq!['/']) == Some(n));
    assert(path.take(n) =~= dir) by {
        assert forall|k: int| 0 <= k < n implies path[k] == dir[k] by {
            assert(path[k] == path.take(n + 1)[k]);
        }
    }
}

/// A path made in a directory lies in it.
pub proof fn lemma_path_in_under(dir: Seq<char>, name: Seq<char>)
    ensures
        is_under(path_in(dir, name), dir),
{
    let prefix = dir + "/"@;
    assert(path_in(dir, name).take(prefix.len() as int) =~= prefix);
}

} // verus!
