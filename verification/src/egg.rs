//! Packages of setuptools' egg-info layout: making the dist-info layout of them.
use crate::chars;
use crate::external;
use crate::package::{FileEntry, Payload};
use crate::package;
use crate::paths;
use crate::sorted_map::SortedMap;
use crate::text;
use vstd::prelude::*;
use vstd::utf8;

verus! {

/// The version of this crate, which the wheels that it makes name.
pub const VERSION: &'static str = "0.1.0";

/// Why an egg-info payload cannot be turned into a dist-info one.
#[derive(Debug)]
pub enum EggError {
    /// No `.egg-info` directory.
    NoMetadataDir,
    /// The `.egg-info` directory does not name a project and a version.
    UnparsedName(String),
    /// The `.egg-info` directory has no `PKG-INFO`.
    NoPkgInfo(String),
    /// There are extension modules, but the python version is not known.
    UnknownPython,
}

/// What an [`EggError`] says.
pub enum EggFault {
    NoMetadataDir,
    UnparsedName(Seq<char>),
    NoPkgInfo(Seq<char>),
    UnknownPython,
}

impl View for EggError {
    type V = EggFault;

    open spec fn view(&self) -> EggFault {
        match self {
            EggError::NoMetadataDir => EggFault::NoMetadataDir,
            EggError::UnparsedName(dir) => EggFault::UnparsedName(dir@),
            EggError::NoPkgInfo(dir) => EggFault::NoPkgInfo(dir@),
            EggError::UnknownPython => EggFault::UnknownPython,
        }
    }
}

// ---------------------------------------------------------------------------
// Directory names
// ---------------------------------------------------------------------------

/// A tail `pyX.Y` of a directory name: `py`, digits and dots.
pub open spec fn is_python_tail(tail: Seq<char>) -> bool {
    &&& text::starts_with(tail, "py"@)
    &&& forall|k: int| 2 <= k < tail.len() ==> text::is_digit(#[trigger] tail[k]) || tail[k] == '.'
}

/// The `name-version` of a directory `name-version[-pyX.Y].egg-info`.
pub open spec fn egg_stem(egg_dir: Seq<char>) -> Seq<char> {
    let stem = text::trim_end_matches(egg_dir, ".egg-info"@);
    match text::rsplit_once(stem, '-') {
        Some((rest, tail)) => if is_python_tail(tail) {
            rest
        } else {
            stem
        },
        None => stem,
    }
}

/// The dist-info directory for an egg-info directory, where that names a project and a
/// version.
pub open spec fn dist_info_for(egg_dir: Seq<char>) -> Option<Seq<char>> {
    match text::rsplit_once(egg_stem(egg_dir), '-') {
        Some((name, version)) => Some(name + "-"@ + version + ".dist-info"@),
        None => None,
    }
}

/// See [`is_python_tail`].
fn python_tail(tail: &[char]) -> (r: bool)
    ensures
        r == is_python_tail(tail@),
{
    let py = chars::chars_of("py");
    if !chars::starts_with(tail, &py) {
        return false;
    }
    let mut i: usize = 2;
    while i < tail.len()
        invariant
            2 <= i,
            forall|k: int|
                2 <= k < i && k < tail@.len() ==> text::is_digit(#[trigger] tail@[k]) || tail@[k]
                    == '.',
        decreases tail.len() - i,
    {
        if !(chars::is_digit(tail[i]) || tail[i] == '.') {
            return false;
        }
        i = i + 1;
    }
    true
}

/// See [`dist_info_for`].
fn dist_info_name(egg_dir: &[char]) -> (r: Option<Vec<char>>)
    ensures
        match r {
            Some(d) => dist_info_for(egg_dir@) == Some(d@),
            None => dist_info_for(egg_dir@) is None,
        },
{
    let suffix = chars::chars_of(".egg-info");
    let mut stem: &[char] = chars::trim_end_matches(egg_dir, &suffix);
    if let Some((rest, tail)) = chars::rsplit_once(stem, '-') {
        if python_tail(tail) {
            stem = rest;
        }
    }
    match chars::rsplit_once(stem, '-') {
        Some((name, version)) => {
            let mut out = chars::copy_of(name);
            chars::extend_str(&mut out, "-");
            chars::extend(&mut out, version);
            chars::extend_str(&mut out, ".dist-info");
            Some(out)
        },
        None => None,
    }
}

// ---------------------------------------------------------------------------
// Dependencies
// ---------------------------------------------------------------------------

/// What a section line `[...]` of `requires.txt` holds.
pub open spec fn section_of(line: Seq<char>) -> Option<Seq<char>> {
    match text::strip_prefix(line, "["@) {
        Some(rest) => text::strip_suffix(rest, "]"@),
        None => None,
    }
}

/// The extra and the marker that a section names, each empty where it names none.
pub open spec fn section_parts(section: Seq<char>) -> (Seq<char>, Seq<char>) {
    match text::split_once(section, ":"@) {
        Some(parts) => parts,
        None => (section, seq![]),
    }
}

/// A character of a word: an ASCII letter or digit, or an underscore.
pub open spec fn is_word_char(c: char) -> bool {
    ('a' <= c && c <= 'z') || ('A' <= c && c <= 'Z') || text::is_digit(c) || c == '_'
}

/// How a position of a marker lies: in how many open brackets, and in which quotes.
pub struct Nesting {
    pub depth: nat,
    pub quote: Option<char>,
}

/// How a marker is nested after one more character. A bracket in quotes is none, and so is a
/// closing one that nothing opened.
pub open spec fn nested(before: Nesting, c: char) -> Nesting {
    match before.quote {
        Some(q) => if c == q {
            Nesting { quote: None, ..before }
        } else {
            before
        },
        None => if c == '\'' || c == '"' {
            Nesting { quote: Some(c), ..before }
        } else if c == '(' {
            Nesting { depth: before.depth + 1, ..before }
        } else if c == ')' && before.depth > 0 {
            Nesting { depth: (before.depth - 1) as nat, ..before }
        } else {
            before
        },
    }
}

/// How the position before the `i`-th character of a marker lies.
pub open spec fn nesting_at(marker: Seq<char>, i: int) -> Nesting
    decreases i,
{
    if i <= 0 {
        Nesting { depth: 0, quote: None }
    } else {
        nested(nesting_at(marker, i - 1), marker[i - 1])
    }
}

/// The position lies outside of all brackets and quotes.
pub open spec fn is_outermost(marker: Seq<char>, i: int) -> bool {
    nesting_at(marker, i).depth == 0 && nesting_at(marker, i).quote is None
}

/// The word `or` stands in a marker at a position, outside of brackets and quotes.
pub open spec fn or_at(marker: Seq<char>, i: int) -> bool {
    &&& is_outermost(marker, i)
    &&& text::occurs_at(marker, "or"@, i)
    &&& i > 0 ==> !is_word_char(marker[i - 1])
    &&& i + 2 < marker.len() ==> !is_word_char(marker[i + 2])
}

/// The word `or` stands in a marker outside of brackets and quotes.
pub open spec fn holds_or(marker: Seq<char>) -> bool {
    exists|i: int| or_at(marker, i)
}

/// A marker as it can stand before `and`, which binds tighter than `or`: in brackets where it
/// holds an `or` that is in none.
pub open spec fn operand(marker: Seq<char>) -> Seq<char> {
    if holds_or(marker) {
        "("@ + marker + ")"@
    } else {
        marker
    }
}

/// The condition under which a dependency of a section is needed: that the marker holds and the
/// extra is asked for, each where the section names one; empty for always.
pub open spec fn condition(extra: Seq<char>, marker: Seq<char>) -> Seq<char> {
    let by_extra = "extra == '"@ + extra + "'"@;
    if extra.len() == 0 {
        marker
    } else if marker.len() == 0 {
        by_extra
    } else {
        operand(marker) + " and "@ + by_extra
    }
}

/// The metadata field for a dependency of a section.
pub open spec fn dependency_field(
    line: Seq<char>,
    extra: Seq<char>,
    marker: Seq<char>,
) -> Seq<char> {
    if condition(extra, marker).len() == 0 {
        "Requires-Dist: "@ + line + "\n"@
    } else {
        "Requires-Dist: "@ + line + " ; "@ + condition(extra, marker) + "\n"@
    }
}

/// The metadata field for an extra.
pub open spec fn extra_field(extra: Seq<char>) -> Seq<char> {
    if extra.len() == 0 {
        seq![]
    } else {
        "Provides-Extra: "@ + extra + "\n"@
    }
}

/// The metadata fields for the lines of `requires.txt` that follow in a section.
pub open spec fn fields_in(
    lines: Seq<Seq<char>>,
    extra: Seq<char>,
    marker: Seq<char>,
) -> Seq<char>
    decreases lines.len(),
{
    if lines.len() == 0 {
        seq![]
    } else {
        let line = text::trim(lines[0]);
        let rest = lines.skip(1);
        if line.len() == 0 {
            fields_in(rest, extra, marker)
        } else {
            match section_of(line) {
                Some(section) => extra_field(section_parts(section).0) + fields_in(
                    rest,
                    section_parts(section).0,
                    section_parts(section).1,
                ),
                None => dependency_field(line, extra, marker) + fields_in(rest, extra, marker),
            }
        }
    }
}

/// The metadata fields for a `requires.txt`.
pub open spec fn requires_fields(listing: Seq<char>) -> Seq<char> {
    fields_in(text::lines(listing), seq![], seq![])
}

/// A blank line begins at a position: an empty one, or a lone carriage return.
pub open spec fn blank_at(s: Seq<char>, p: int) -> bool {
    &&& 0 <= p < s.len()
    &&& p == 0 || s[p - 1] == '\n'
    &&& s[p] == '\n' || (s[p] == '\r' && (p + 1 == s.len() || s[p + 1] == '\n'))
}

/// Where, from `p` on, the first blank line begins.
pub open spec fn blank_from(s: Seq<char>, p: int) -> Option<int>
    decreases s.len() - p,
{
    if p < 0 || p >= s.len() {
        None
    } else if blank_at(s, p) {
        Some(p)
    } else {
        blank_from(s, p + 1)
    }
}

/// Where the first blank line begins.
pub open spec fn first_blank(s: Seq<char>) -> Option<int> {
    blank_from(s, 0)
}

/// Metadata with more fields: after the headers, which end at the first blank line.
pub open spec fn with_fields(metadata: Seq<char>, fields: Seq<char>) -> Seq<char> {
    match first_blank(metadata) {
        Some(p) => metadata.take(p) + fields + metadata.skip(p),
        None => if text::ends_with(metadata, "\n"@) {
            metadata + fields
        } else {
            metadata + "\n"@ + fields
        },
    }
}

/// See [`is_word_char`].
fn word_char(c: char) -> (r: bool)
    ensures
        r == is_word_char(c),
{
    ('a' <= c && c <= 'z') || ('A' <= c && c <= 'Z') || chars::is_digit(c) || c == '_'
}

/// See [`holds_or`].
fn has_or(marker: &[char]) -> (r: bool)
    ensures
        r == holds_or(marker@),
{
    proof {
        reveal_strlit("or");
    }
    let mut i: usize = 0;
    let mut depth: usize = 0;
    let mut quote: Option<char> = None;
    while i < marker.len() && marker.len() - i >= 2
        invariant
            depth <= i <= marker.len(),
            nesting_at(marker@, i as int) == (Nesting { depth: depth as nat, quote }),
            "or"@.len() == 2,
            "or"@[0] == 'o',
            "or"@[1] == 'r',
            forall|k: int| 0 <= k < i ==> !#[trigger] or_at(marker@, k),
        decreases marker.len() - i,
    {
        proof {
            let here = marker@.subrange(i as int, i + 2);
            assert(here[0] == marker@[i as int] && here[1] == marker@[i + 1]);
            if marker@[i as int] == 'o' && marker@[i + 1] == 'r' {
                assert(here =~= "or"@);
            }
        }
        let c = marker[i];
        if depth == 0 && quote.is_none() && c == 'o' && marker[i + 1] == 'r' && (i == 0 || !word_char(marker[i - 1])) && (
        marker.len() - i == 2 || !word_char(marker[i + 2])) {
            proof {
                assert(or_at(marker@, i as int));
            }
            return true;
        }
        match quote {
            Some(q) => {
                if c == q {
                    quote = None;
                }
            },
            None => {
                if c == '\'' || c == '"' {
                    quote = Some(c);
                } else if c == '(' {
                    depth = depth + 1;
                } else if c == ')' && depth > 0 {
                    depth = depth - 1;
                }
            },
        }
        i = i + 1;
    }
    false
}

/// See [`condition`].
fn condition_text(extra: &[char], marker: &[char]) -> (r: Vec<char>)
    ensures
        r@ == condition(extra@, marker@),
{
    let mut out: Vec<char> = Vec::new();
    if extra.len() == 0 {
        chars::extend(&mut out, marker);
    } else {
        if marker.len() > 0 {
            let bracketed = has_or(marker);
            if bracketed {
                chars::extend_str(&mut out, "(");
            }
            chars::extend(&mut out, marker);
            if bracketed {
                chars::extend_str(&mut out, ")");
            }
            chars::extend_str(&mut out, " and ");
        }
        chars::extend_str(&mut out, "extra == '");
        chars::extend(&mut out, extra);
        chars::extend_str(&mut out, "'");
    }
    proof {
        assert(out@ =~= condition(extra@, marker@));
    }
    out
}

/// Writes the metadata fields for a `requires.txt`: `Requires-Dist` for each dependency and
/// `Provides-Extra` for each section that names an extra.
pub fn dependency_fields(listing: &str) -> (r: String)
    ensures
        r@ == requires_fields(listing@),
{
    let all_chars = chars::chars_of(listing);
    let lines = chars::lines(&all_chars);
    let open = chars::chars_of("[");
    let close = chars::chars_of("]");
    let colon = chars::chars_of(":");
    let mut extra: Vec<char> = Vec::new();
    let mut marker: Vec<char> = Vec::new();
    let mut out: Vec<char> = Vec::new();
    let mut n: usize = 0;
    let ghost all = text::lines(listing@);
    proof {
        assert(all.skip(0) =~= all);
        assert(out@ + fields_in(all, extra@, marker@) =~= fields_in(all, extra@, marker@));
        assert(extra@ =~= seq![]);
        assert(marker@ =~= seq![]);
    }
    while n < lines.len()
        invariant
            n <= lines.len(),
            all == text::lines(listing@),
            all == text::views(lines@),
            open@ == "["@,
            close@ == "]"@,
            colon@ == ":"@,
            requires_fields(listing@) == out@ + fields_in(all.skip(n as int), extra@, marker@),
        decreases lines.len() - n,
    {
        let line = chars::trim(&lines[n]);
        let ghost before = out@;
        let ghost rest = all.skip(n + 1);
        proof {
            assert(all.skip(n as int)[0] == lines@[n as int]@);
            assert(all.skip(n as int).skip(1) =~= rest);
        }
        if line.len() > 0 {
            let section: Option<&[char]> = match chars::strip_prefix(line, &open) {
                Some(l) => chars::strip_suffix(l, &close),
                None => None,
            };
            match section {
                Some(s) => {
                    let parts = chars::split_once(s, &colon);
                    match parts {
                        Some((e, m)) => {
                            extra = chars::copy_of(e);
                            marker = chars::copy_of(m);
                        },
                        None => {
                            extra = chars::copy_of(s);
                            marker = Vec::new();
                        },
                    }
                    proof {
                        assert((extra@, marker@) == section_parts(s@)) by {
                            if parts is None {
                                assert(marker@ =~= seq![]);
                            }
                        }
                    }
                    if extra.len() > 0 {
                        chars::extend_str(&mut out, "Provides-Extra: ");
                        chars::extend(&mut out, &extra);
                        chars::extend_str(&mut out, "\n");
                    }
                    proof {
                        assert(out@ =~= before + extra_field(extra@));
                        assert(out@ + fields_in(rest, extra@, marker@) =~= before + (extra_field(
                            extra@,
                        ) + fields_in(rest, extra@, marker@)));
                    }
                },
                None => {
                    chars::extend_str(&mut out, "Requires-Dist: ");
                    chars::extend(&mut out, line);
                    let cond = condition_text(&extra, &marker);
                    if cond.len() > 0 {
                        chars::extend_str(&mut out, " ; ");
                        chars::extend(&mut out, &cond);
                    }
                    chars::extend_str(&mut out, "\n");
                    proof {
                        assert(out@ =~= before + dependency_field(line@, extra@, marker@));
                        assert(out@ + fields_in(rest, extra@, marker@) =~= before + (
                        dependency_field(line@, extra@, marker@) + fields_in(
                            rest,
                            extra@,
                            marker@,
                        )));
                    }
                },
            }
        }
        n = n + 1;
    }
    proof {
        assert(all.skip(lines.len() as int) =~= seq![]);
        assert(out@ + Seq::<char>::empty() =~= out@);
    }
    chars::string_of(&out)
}

/// See [`first_blank`].
fn find_blank(s: &[char]) -> (r: Option<usize>)
    ensures
        match r {
            Some(p) => first_blank(s@) == Some(p as int) && p < s.len(),
            None => first_blank(s@) is None,
        },
{
    let mut p: usize = 0;
    while p < s.len()
        invariant
            p <= s.len(),
            first_blank(s@) == blank_from(s@, p as int),
        decreases s.len() - p,
    {
        if (p == 0 || s[p - 1] == '\n') && (s[p] == '\n' || (s[p] == '\r' && (s.len() - p == 1
            || s[p + 1] == '\n'))) {
            return Some(p);
        }
        p = p + 1;
    }
    None
}

/// Puts fields into metadata.
pub fn merge_fields(metadata: &str, fields: &str) -> (r: String)
    ensures
        r@ == with_fields(metadata@, fields@),
{
    let m = chars::chars_of(metadata);
    let mut out: Vec<char> = Vec::new();
    match find_blank(&m) {
        Some(p) => {
            chars::extend(&mut out, vstd::slice::slice_subrange(&m, 0, p));
            chars::extend_str(&mut out, fields);
            chars::extend(&mut out, vstd::slice::slice_subrange(&m, p, m.len()));
        },
        None => {
            chars::extend(&mut out, &m);
            let newline = chars::chars_of("\n");
            if !chars::ends_with(&m, &newline) {
                chars::extend_str(&mut out, "\n");
            }
            chars::extend_str(&mut out, fields);
        },
    }
    proof {
        assert(out@ =~= with_fields(metadata@, fields@));
    }
    chars::string_of(&out)
}

// ---------------------------------------------------------------------------
// The WHEEL file
// ---------------------------------------------------------------------------

/// There is an extension module.
pub open spec fn is_compiled(files: Map<Seq<char>, package::FileModel>) -> bool {
    exists|p: Seq<char>| files.contains_key(p) && text::ends_with(p, ".so"@)
}

/// The interpreter tag of a python version `X.Y`.
pub open spec fn interpreter_tag(pyver: Seq<char>) -> Seq<char> {
    "cp"@ + text::without(pyver, '.')
}

/// The tag of a payload: that of its interpreter on some FreeBSD where it has extension
/// modules, and else that of any python.
pub open spec fn payload_tag(compiled: bool, pyver: Option<Seq<char>>) -> Option<Seq<char>> {
    if !compiled {
        Some("py3-none-any"@)
    } else {
        match pyver {
            Some(v) => Some(
                interpreter_tag(v) + "-"@ + interpreter_tag(v) + "-freebsd"@,
            ),
            None => None,
        }
    }
}

/// A WHEEL file with one tag.
pub open spec fn wheel_text(compiled: bool, tag: Seq<char>) -> Seq<char> {
    "Wheel-Version: 1.0\nGenerator: wheelfs "@ + VERSION@ + "\nRoot-Is-Purelib: "@ + if compiled {
        "false"@
    } else {
        "true"@
    } + "\nTag: "@ + tag + "\n"@
}

/// See [`is_compiled`].
fn has_extension(files: &SortedMap<FileEntry>) -> (r: bool)
    ensures
        r == is_compiled(files@),
{
    let so = chars::chars_of(".so");
    let total: usize = files.len();
    let mut i: usize = 0;
    while i < total
        invariant
            i <= total,
            total == files.order().len(),
            text::is_order(files.order(), files@.dom()),
            so@ == ".so"@,
            forall|k: int| 0 <= k < i ==> !text::ends_with(#[trigger] files.order()[k], ".so"@),
        decreases total - i,
    {
        if chars::ends_with(files.key_at(i), &so) {
            proof {
                assert(files.order().contains(files.order()[i as int]));
            }
            return true;
        }
        i = i + 1;
    }
    proof {
        if is_compiled(files@) {
            let p = choose|p: Seq<char>| files@.contains_key(p) && text::ends_with(p, ".so"@);
            assert(files.order().contains(p));
        }
    }
    false
}

/// See [`payload_tag`].
fn tag_for(compiled: bool, pyver: &Option<String>) -> (r: Option<Vec<char>>)
    ensures
        match r {
            Some(t) => payload_tag(compiled, package::option_text(*pyver)) == Some(t@),
            None => payload_tag(compiled, package::option_text(*pyver)) is None,
        },
{
    if !compiled {
        return Some(chars::chars_of("py3-none-any"));
    }
    match pyver {
        Some(v) => {
            let version = chars::chars_of(v);
            let digits = chars::without(&version, '.');
            let mut cp = chars::chars_of("cp");
            chars::extend(&mut cp, &digits);
            let mut out = chars::copy_of(&cp);
            chars::extend_str(&mut out, "-");
            chars::extend(&mut out, &cp);
            chars::extend_str(&mut out, "-freebsd");
            Some(out)
        },
        None => None,
    }
}

/// See [`wheel_text`].
fn wheel_file(compiled: bool, tag: &[char]) -> (r: String)
    ensures
        r@ == wheel_text(compiled, tag@),
{
    let mut out = chars::chars_of("Wheel-Version: 1.0\nGenerator: wheelfs ");
    chars::extend_str(&mut out, VERSION);
    chars::extend_str(&mut out, "\nRoot-Is-Purelib: ");
    chars::extend_str(
        &mut out,
        if compiled {
            "false"
        } else {
            "true"
        },
    );
    chars::extend_str(&mut out, "\nTag: ");
    chars::extend(&mut out, tag);
    chars::extend_str(&mut out, "\n");
    chars::string_of(&out)
}

// ---------------------------------------------------------------------------
// The payload
// ---------------------------------------------------------------------------

/// The first egg-info directory, in the order of the paths.
pub open spec fn egg_dir_from(paths: Seq<Seq<char>>, i: int) -> Option<Seq<char>>
    decreases paths.len() - i,
{
    if i < 0 || i >= paths.len() {
        None
    } else if paths::dir_with(paths[i], ".egg-info"@) is Some {
        paths::dir_with(paths[i], ".egg-info"@)
    } else {
        egg_dir_from(paths, i + 1)
    }
}

/// The egg-info directory of a payload.
pub open spec fn egg_dir(files: Map<Seq<char>, package::FileModel>) -> Option<Seq<char>> {
    egg_dir_from(text::in_order(files.dom()), 0)
}

/// The metadata of an egg-info directory: its `PKG-INFO`, with the dependencies that its
/// `requires.txt` lists.
pub open spec fn egg_metadata(files: Map<Seq<char>, package::FileModel>, dir: Seq<char>) -> Seq<
    char,
> {
    let info = external::utf8_lossy(files[paths::path_in(dir, "PKG-INFO"@)].data);
    let listing = paths::path_in(dir, "requires.txt"@);
    if files.contains_key(listing) {
        with_fields(info, requires_fields(external::utf8_lossy(files[listing].data)))
    } else {
        info
    }
}

/// The files without those that the metadata is made of.
pub open spec fn without_metadata(files: Map<Seq<char>, package::FileModel>, dir: Seq<char>) -> Map<
    Seq<char>,
    package::FileModel,
> {
    files.remove(paths::path_in(dir, "PKG-INFO"@)).remove(paths::path_in(dir, "requires.txt"@))
}

/// The files that do not lie in a directory.
pub open spec fn outside(files: Map<Seq<char>, package::FileModel>, dir: Seq<char>) -> Map<
    Seq<char>,
    package::FileModel,
> {
    files.restrict(Set::new(|p: Seq<char>| !paths::is_under(p, dir)))
}

/// A file that this crate writes.
pub open spec fn written(content: Seq<char>) -> package::FileModel {
    package::FileModel { mode: 0o644, data: utf8::encode_utf8(content) }
}

/// The files of the dist-info layout: those outside the egg-info directory, its entry
/// points, and the metadata and WHEEL file made of the rest.
pub open spec fn dist_info_files(
    files: Map<Seq<char>, package::FileModel>,
    egg: Seq<char>,
    dist: Seq<char>,
    tag: Seq<char>,
) -> Map<Seq<char>, package::FileModel> {
    let kept = outside(files, egg);
    let points = paths::path_in(egg, "entry_points.txt"@);
    let moved = if files.contains_key(points) {
        kept.insert(paths::path_in(dist, "entry_points.txt"@), files[points])
    } else {
        kept
    };
    let compiled = is_compiled(without_metadata(files, egg));
    moved.insert(paths::path_in(dist, "METADATA"@), written(egg_metadata(files, egg))).insert(
        paths::path_in(dist, "WHEEL"@),
        written(wheel_text(compiled, tag)),
    )
}

/// What becomes of the files of a payload, and what went wrong.
pub open spec fn egg_converted(payload: package::PayloadModel) -> (
    Map<Seq<char>, package::FileModel>,
    Result<(), EggFault>,
) {
    let files = payload.files;
    match egg_dir(files) {
        None => (files, Err(EggFault::NoMetadataDir)),
        Some(egg) => match dist_info_for(egg) {
            None => (files, Err(EggFault::UnparsedName(egg))),
            Some(dist) => if !files.contains_key(paths::path_in(egg, "PKG-INFO"@)) {
                (files, Err(EggFault::NoPkgInfo(egg)))
            } else {
                let rest = without_metadata(files, egg);
                match payload_tag(is_compiled(rest), payload.pyver) {
                    None => (rest, Err(EggFault::UnknownPython)),
                    Some(tag) => (dist_info_files(files, egg, dist, tag), Ok(())),
                }
            },
        },
    }
}

/// A payload that can be converted: its egg-info directory, the dist-info directory that it
/// gets, and its tag.
pub open spec fn converts(
    payload: package::PayloadModel,
    dir: Seq<char>,
    dist: Seq<char>,
    tag: Seq<char>,
) -> bool {
    &&& egg_dir(payload.files) == Some(dir)
    &&& dist_info_for(dir) == Some(dist)
    &&& payload.files.contains_key(paths::path_in(dir, "PKG-INFO"@))
    &&& payload_tag(
        is_compiled(without_metadata(payload.files, dir)),
        payload.pyver,
    ) == Some(tag)
}

/// The python version can stand in a tag: it holds no dash and no line feed.
pub open spec fn fits_tag(pyver: Seq<char>) -> bool {
    !pyver.contains('-') && !pyver.contains('\n')
}

/// The files that the metadata is made of are the texts that they encode, where they are valid
/// UTF-8.
pub open spec fn metadata_decodes(files: Map<Seq<char>, package::FileModel>) -> bool {
    match egg_dir(files) {
        Some(dir) => {
            let info = paths::path_in(dir, "PKG-INFO"@);
            let listing = paths::path_in(dir, "requires.txt"@);
            dist_info_for(dir) is Some && files.contains_key(info) ==> {
                &&& external::decodes(files[info].data)
                &&& files.contains_key(listing) ==> external::decodes(files[listing].data)
            }
        },
        None => true,
    }
}

/// See [`egg_dir`].
fn find_egg_dir(files: &SortedMap<FileEntry>) -> (r: Option<Vec<char>>)
    ensures
        match r {
            Some(d) => egg_dir(files@) == Some(d@),
            None => egg_dir(files@) is None,
        },
{
    let suffix = chars::chars_of(".egg-info");
    let total: usize = files.len();
    let mut i: usize = 0;
    while i < total
        invariant
            i <= total,
            total == files.order().len(),
            suffix@ == ".egg-info"@,
            egg_dir(files@) == egg_dir_from(files.order(), i as int),
        decreases total - i,
    {
        if let Some(d) = paths::find_dir_with(files.key_at(i), &suffix) {
            return Some(chars::copy_of(d));
        }
        i = i + 1;
    }
    None
}

/// Takes the files that lie in a directory out of a payload.
fn remove_dir(files: &mut SortedMap<FileEntry>, dir: &[char])
    ensures
        final(files)@ == outside(old(files)@, dir@),
{
    let prefix = paths::make_path(dir, "");
    let ghost all = files@;
    let ghost order = files.order();
    proof {
        reveal_strlit("");
        assert(prefix@ =~= dir@ + "/"@);
    }
    let total: usize = files.len();
    let mut leftovers: Vec<Vec<char>> = Vec::new();
    let mut i: usize = 0;
    while i < total
        invariant
            i <= total,
            total == order.len(),
            order == files.order(),
            files@ == all,
            prefix@ == dir@ + "/"@,
            forall|k: int|
                0 <= k < leftovers@.len() ==> paths::is_under(#[trigger] leftovers@[k]@, dir@),
            forall|k: int|
                0 <= k < i && paths::is_under(#[trigger] order[k], dir@) ==> text::views(
                    leftovers@,
                ).contains(order[k]),
        decreases total - i,
    {
        let key = files.key_at(i);
        if chars::starts_with(key, &prefix) {
            let ghost before = leftovers@;
            let copy = chars::copy_of(key);
            leftovers.push(copy);
            proof {
                let now = text::views(leftovers@);
                assert(now[before.len() as int] == order[i as int]);
                assert forall|k: int|
                    0 <= k < i + 1 && paths::is_under(#[trigger] order[k], dir@) implies now.contains(
                    order[k],
                ) by {
                    if k < i {
                        let held = text::views(before);
                        let j = choose|j: int| 0 <= j < held.len() && held[j] == order[k];
                        assert(now[j] == held[j]);
                    }
                }
            }
        }
        i = i + 1;
    }
    let ghost gone = text::views(leftovers@);
    let mut n: usize = 0;
    while n < leftovers.len()
        invariant
            n <= leftovers.len(),
            gone == text::views(leftovers@),
            forall|p: Seq<char>| #[trigger]
                files@.contains_key(p) <==> all.contains_key(p) && !gone.take(n as int).contains(p),
            forall|p: Seq<char>| #[trigger] files@.contains_key(p) ==> files@[p] == all[p],
        decreases leftovers.len() - n,
    {
        let ghost before = files@;
        let _ = files.remove(&leftovers[n]);
        proof {
            let key = gone[n as int];
            assert(leftovers@[n as int]@ == key);
            assert(gone.take(n + 1) =~= gone.take(n as int).push(key));
            assert forall|p: Seq<char>| #[trigger]
                files@.contains_key(p) <==> all.contains_key(p) && !gone.take(n + 1).contains(
                    p,
                ) by {
                text::lemma_push_contains(gone.take(n as int), key, p);
                assert(before.contains_key(p) <==> all.contains_key(p) && !gone.take(
                    n as int,
                ).contains(p));
            }
            assert forall|p: Seq<char>| #[trigger] files@.contains_key(p) implies files@[p]
                == all[p] by {
                assert(before.contains_key(p));
            }
        }
        n = n + 1;
    }
    proof {
        assert(gone.take(leftovers.len() as int) =~= gone);
        assert forall|p: Seq<char>| #[trigger]
            files@.contains_key(p) <==> outside(all, dir@).contains_key(p) by {
            if all.contains_key(p) {
                assert(order.contains(p));
                let k = choose|k: int| 0 <= k < order.len() && order[k] == p;
                if paths::is_under(order[k], dir@) {
                    assert(gone.contains(p));
                }
                if gone.contains(p) {
                    let j = choose|j: int| 0 <= j < gone.len() && gone[j] == p;
                    assert(leftovers@[j]@ == p);
                }
            }
        }
        assert(files@ =~= outside(all, dir@));
    }
}

/// A file that this crate writes.
fn write_file(content: &str) -> (r: FileEntry)
    ensures
        r@ == written(content@),
{
    FileEntry { mode: 0o644, data: vstd::slice::slice_to_vec(content.as_bytes()) }
}

/// Turns the egg-info layout of a payload into the dist-info layout: `PKG-INFO` and
/// `requires.txt` become `METADATA`, a `WHEEL` file is written, the entry points move, and
/// what else the egg-info directory held goes.
pub fn egg_info_to_dist_info(payload: &mut Payload) -> (r: Result<(), EggError>)
    ensures
        final(payload)@ == (package::PayloadModel {
            files: egg_converted(old(payload)@).0,
            ..old(payload)@
        }),
        match r {
            Ok(_) => egg_converted(old(payload)@).1 is Ok,
            Err(e) => egg_converted(old(payload)@).1 == Err::<(), _>(e@),
        },
        metadata_decodes(old(payload)@.files),
{
    let egg = match find_egg_dir(&payload.files) {
        Some(d) => d,
        None => {
            return Err(EggError::NoMetadataDir);
        },
    };
    let dist = match dist_info_name(&egg) {
        Some(d) => d,
        None => {
            return Err(EggError::UnparsedName(chars::string_of(&egg)));
        },
    };
    let ghost files = payload.files@;
    let info_path = paths::make_path(&egg, "PKG-INFO");
    let info = match payload.files.remove(&info_path) {
        Some(f) => f,
        None => {
            proof {
                assert(files.remove(info_path@) =~= files);
            }
            return Err(EggError::NoPkgInfo(chars::string_of(&egg)));
        },
    };
    let mut metadata = external::from_utf8_lossy(&info.data);
    let listing_path = paths::make_path(&egg, "requires.txt");
    proof {
        reveal_strlit("PKG-INFO");
        reveal_strlit("requires.txt");
        reveal_strlit("entry_points.txt");
        assert(info_path@.len() != listing_path@.len());
    }
    if let Some(listing) = payload.files.remove(&listing_path) {
        let lines = external::from_utf8_lossy(&listing.data);
        let fields = dependency_fields(&lines);
        metadata = merge_fields(&metadata, &fields);
    }
    proof {
        assert(metadata@ == egg_metadata(files, egg@));
        assert(payload.files@ =~= without_metadata(files, egg@));
    }
    let compiled = has_extension(&payload.files);
    let tag = match tag_for(compiled, &payload.pyver) {
        Some(t) => t,
        None => {
            return Err(EggError::UnknownPython);
        },
    };
    let wheel = wheel_file(compiled, &tag);
    let points_path = paths::make_path(&egg, "entry_points.txt");
    proof {
        assert(points_path@.len() != listing_path@.len());
        assert(points_path@.len() != info_path@.len());
    }
    let points = payload.files.remove(&points_path);
    remove_dir(&mut payload.files, &egg);
    proof {
        paths::lemma_path_in_under(egg@, "PKG-INFO"@);
        paths::lemma_path_in_under(egg@, "requires.txt"@);
        paths::lemma_path_in_under(egg@, "entry_points.txt"@);
        assert(payload.files@ =~= outside(files, egg@));
    }
    if let Some(f) = points {
        payload.files.insert(paths::make_path(&dist, "entry_points.txt"), f);
    }
    payload.files.insert(paths::make_path(&dist, "METADATA"), write_file(&metadata));
    payload.files.insert(paths::make_path(&dist, "WHEEL"), write_file(&wheel));
    Ok(())
}

} // verus!
