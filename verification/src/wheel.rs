//! The WHEEL file of a wheel: its tags, and the tag that a wheel's file name carries.
use crate::chars;
use crate::text;
use vstd::prelude::*;

verus! {

/// Why a WHEEL file cannot be used.
#[derive(Debug)]
pub enum WheelError {
    /// A `Tag: ` line that does not hold three components; the text after `Tag: `.
    UnparseableTag(String),
    /// No `Tag: ` line.
    NoTags,
}

/// What a [`WheelError`] says.
pub enum WheelFault {
    UnparseableTag(Seq<char>),
    NoTags,
}

impl View for WheelError {
    type V = WheelFault;

    open spec fn view(&self) -> WheelFault {
        match self {
            WheelError::UnparseableTag(tag) => WheelFault::UnparseableTag(tag@),
            WheelError::NoTags => WheelFault::NoTags,
        }
    }
}

/// What a `Tag: ` line says.
pub open spec fn tag_of_line(line: Seq<char>) -> Option<Seq<char>> {
    text::strip_prefix(line, "Tag: "@)
}

/// The components of a tag.
pub open spec fn components(tag: Seq<char>) -> Seq<Seq<char>> {
    text::split(text::trim(tag), '-')
}

/// A `Tag: ` line without exactly three components.
pub open spec fn is_bad(line: Seq<char>) -> bool {
    match tag_of_line(line) {
        Some(tag) => components(tag).len() != 3,
        None => false,
    }
}

/// A tag of three components from its parts.
pub open spec fn tag_text(python: Seq<char>, abi: Seq<char>, platform: Seq<char>) -> Seq<char> {
    python + "-"@ + abi + "-"@ + platform
}

/// A tag with the platform in place of its own, unless that is `any`.
pub open spec fn restamp_tag(tag: Seq<char>, platform: Seq<char>) -> Seq<char> {
    let parts = components(tag);
    tag_text(
        parts[0],
        parts[1],
        if parts[2] == "any"@ {
            parts[2]
        } else {
            platform
        },
    )
}

/// What stands in the new file for a line of the old one.
pub open spec fn restamp_line(line: Seq<char>, platform: Seq<char>) -> Seq<char> {
    match tag_of_line(line) {
        Some(tag) => "Tag: "@ + restamp_tag(tag, platform) + "\n"@,
        None => if line.len() == 0 {
            seq![]
        } else {
            line + "\n"@
        },
    }
}

/// The new file for the lines of the old one.
pub open spec fn restamp_lines(lines: Seq<Seq<char>>, platform: Seq<char>) -> Seq<char>
    decreases lines.len(),
{
    if lines.len() == 0 {
        seq![]
    } else {
        restamp_lines(lines.drop_last(), platform) + restamp_line(lines.last(), platform)
    }
}

/// The new tags of the lines that hold one, in their order.
pub open spec fn line_tags(lines: Seq<Seq<char>>, platform: Seq<char>) -> Seq<Seq<char>>
    decreases lines.len(),
{
    if lines.len() == 0 {
        seq![]
    } else {
        match tag_of_line(lines.last()) {
            Some(tag) => line_tags(lines.drop_last(), platform).push(restamp_tag(tag, platform)),
            None => line_tags(lines.drop_last(), platform),
        }
    }
}

/// The `i`-th component of every tag.
pub open spec fn column(tags: Seq<Seq<char>>, i: int) -> Seq<Seq<char>> {
    tags.map_values(|t: Seq<char>| text::split(t, '-')[i])
}

/// The tags as one: in each place the different components, joined by dots.
pub open spec fn compound_tag(tags: Seq<Seq<char>>) -> Seq<char> {
    tag_text(
        text::join(text::unique(column(tags, 0)), "."@),
        text::join(text::unique(column(tags, 1)), "."@),
        text::join(text::unique(column(tags, 2)), "."@),
    )
}

/// The first line that is not a tag of three components.
pub open spec fn first_bad(lines: Seq<Seq<char>>, i: int) -> bool {
    &&& 0 <= i < lines.len()
    &&& is_bad(lines[i])
    &&& forall|k: int| 0 <= k < i ==> !is_bad(#[trigger] lines[k])
}

/// What [`restamp_wheel`] makes of a WHEEL file.
pub open spec fn restamped(content: Seq<char>, platform: Seq<char>) -> Result<
    (Seq<char>, Seq<char>),
    WheelFault,
> {
    let lines = text::lines(content);
    if exists|i: int| first_bad(lines, i) {
        let i = choose|i: int| first_bad(lines, i);
        Err(WheelFault::UnparseableTag(tag_of_line(lines[i])->0))
    } else if line_tags(lines, platform).len() == 0 {
        Err(WheelFault::NoTags)
    } else {
        Ok(
            (
                restamp_lines(lines, platform),
                compound_tag(text::unique(line_tags(lines, platform))),
            ),
        )
    }
}

/// A tag of three components from its parts.
fn make_tag(python: &[char], abi: &[char], platform: &[char]) -> (r: Vec<char>)
    ensures
        r@ == tag_text(python@, abi@, platform@),
{
    let mut out = chars::copy_of(python);
    chars::extend_str(&mut out, "-");
    chars::extend(&mut out, abi);
    chars::extend_str(&mut out, "-");
    chars::extend(&mut out, platform);
    out
}

/// One column of the tags, each component once, joined by dots.
fn joined_column(tags: &Vec<Vec<char>>, i: usize) -> (r: Vec<char>)
    requires
        forall|k: int|
            0 <= k < tags@.len() ==> i < text::split(#[trigger] tags@[k]@, '-').len(),
    ensures
        r@ == text::join(text::unique(column(text::views(tags@), i as int)), "."@),
{
    let mut seen: Vec<Vec<char>> = Vec::new();
    let mut n: usize = 0;
    let ghost all = column(text::views(tags@), i as int);
    proof {
        assert(text::views(seen@) =~= text::unique(all.take(0)));
    }
    while n < tags.len()
        invariant
            n <= tags.len(),
            forall|k: int|
                0 <= k < tags@.len() ==> i < text::split(#[trigger] tags@[k]@, '-').len(),
            all == column(text::views(tags@), i as int),
            text::views(seen@) == text::unique(all.take(n as int)),
        decreases tags.len() - n,
    {
        let parts = chars::split(&tags[n], '-');
        proof {
            assert(text::views(parts@)[i as int] == all[n as int]);
            assert(parts@.len() == text::split(tags@[n as int]@, '-').len());
            assert(all.take(n + 1).drop_last() =~= all.take(n as int));
        }
        if !chars::has(&seen, &parts[i]) {
            let piece = chars::copy_of(&parts[i]);
            let ghost before = text::views(seen@);
            seen.push(piece);
            proof {
                assert(text::views(seen@) =~= before.push(piece@));
            }
        }
        n = n + 1;
    }
    proof {
        assert(all.take(tags.len() as int) =~= all);
    }
    let dot = chars::chars_of(".");
    chars::join(&seen, &dot)
}

/// A restamped tag has its three components, the last one cut at a dash.
pub proof fn lemma_restamp_tag(tag: Seq<char>, platform: Seq<char>)
    requires
        components(tag).len() == 3,
    ensures
        text::split(restamp_tag(tag, platform), '-').len() >= 3,
        text::split(restamp_tag(tag, platform), '-')[0] == components(tag)[0],
        text::split(restamp_tag(tag, platform), '-')[1] == components(tag)[1],
        text::split(restamp_tag(tag, platform), '-')[2] == text::split(
            if components(tag)[2] == "any"@ {
                components(tag)[2]
            } else {
                platform
            },
            '-',
        )[0],
{
    reveal_strlit("-");
    assert("-"@ =~= seq!['-']);
    let parts = components(tag);
    text::lemma_split_pieces(text::trim(tag), '-');
    let last = if parts[2] == "any"@ {
        parts[2]
    } else {
        platform
    };
    let whole = restamp_tag(tag, platform);
    assert(whole =~= parts[0] + seq!['-'] + (parts[1] + seq!['-'] + last));
    text::lemma_split_cons(parts[0], '-', parts[1] + seq!['-'] + last);
    text::lemma_split_cons(parts[1], '-', last);
    text::lemma_split_pieces(last, '-');
}

/// Rewrites the tags of a WHEEL file for a platform. Gives the new file and the tag for the
/// wheel's file name.
pub fn restamp_wheel(content: &str, platform_tag: &str) -> (r: Result<
    (String, String),
    WheelError,
>)
    ensures
        match r {
            Ok((file, tag)) => restamped(content@, platform_tag@) == Ok::<_, WheelFault>(
                (file@, tag@),
            ),
            Err(e) => restamped(content@, platform_tag@) == Err::<(Seq<char>, Seq<char>), _>(e@),
        },
{
    let content_chars = chars::chars_of(content);
    let platform = chars::chars_of(platform_tag);
    let lines = chars::lines(&content_chars);
    let tag_prefix = chars::chars_of("Tag: ");
    let any = chars::chars_of("any");
    let ghost all = text::lines(content@);
    let mut out: Vec<char> = Vec::new();
    let mut tags: Vec<Vec<char>> = Vec::new();
    let mut n: usize = 0;
    proof {
        assert(text::views(tags@) =~= text::unique(line_tags(all.take(0), platform@)));
    }
    while n < lines.len()
        invariant
            n <= lines.len(),
            all == text::lines(content@),
            all == text::views(lines@),
            platform@ == platform_tag@,
            tag_prefix@ == "Tag: "@,
            any@ == "any"@,
            forall|k: int| 0 <= k < n ==> !is_bad(#[trigger] all[k]),
            out@ == restamp_lines(all.take(n as int), platform@),
            text::views(tags@) == text::unique(line_tags(all.take(n as int), platform@)),
            forall|k: int|
                0 <= k < tags@.len() ==> text::split(#[trigger] tags@[k]@, '-').len() >= 3,
        decreases lines.len() - n,
    {
        let line = &lines[n];
        proof {
            assert(all[n as int] == line@);
            assert(all.take(n + 1).drop_last() =~= all.take(n as int));
        }
        match chars::strip_prefix(line, &tag_prefix) {
            Some(tag) => {
                let parts = chars::split(chars::trim(tag), '-');
                proof {
                    assert(text::views(parts@) == components(tag@));
                    assert(parts@.len() == components(tag@).len());
                }
                if parts.len() != 3 {
                    proof {
                        assert(first_bad(all, n as int));
                        let i = choose|i: int| first_bad(all, i);
                        assert(i == n) by {
                            if i < n {
                                assert(is_bad(all[i]));
                            }
                        }
                    }
                    return Err(WheelError::UnparseableTag(chars::string_of(tag)));
                }
                proof {
                    assert(components(tag@)[0] == parts@[0]@);
                    assert(components(tag@)[1] == parts@[1]@);
                    assert(components(tag@)[2] == parts@[2]@);
                    lemma_restamp_tag(tag@, platform@);
                }
                let stamp: &[char] = if chars::same(&parts[2], &any) {
                    &parts[2]
                } else {
                    &platform
                };
                let new = make_tag(&parts[0], &parts[1], stamp);
                let ghost before = out@;
                chars::extend_str(&mut out, "Tag: ");
                chars::extend(&mut out, &new);
                chars::extend_str(&mut out, "\n");
                proof {
                    assert(out@ =~= before + ("Tag: "@ + new@ + "\n"@));
                }
                proof {
                    let earlier = line_tags(all.take(n as int), platform@);
                    assert(earlier.push(new@).drop_last() =~= earlier);
                }
                if !chars::has(&tags, &new) {
                    let ghost held = text::views(tags@);
                    tags.push(new);
                    proof {
                        assert(text::views(tags@) =~= held.push(new@));
                    }
                }
            },
            None => {
                if line.len() > 0 {
                    let ghost before = out@;
                    chars::extend(&mut out, line);
                    chars::extend_str(&mut out, "\n");
                    proof {
                        assert(out@ =~= before + (line@ + "\n"@));
                    }
                } else {
                    proof {
                        assert(out@ + Seq::<char>::empty() =~= out@);
                    }
                }
            },
        }
        n = n + 1;
    }
    proof {
        assert(all.take(lines.len() as int) =~= all);
        assert(!(exists|i: int| first_bad(all, i)));
        lemma_unique_empty(line_tags(all, platform@));
    }
    if tags.len() == 0 {
        return Err(WheelError::NoTags);
    }
    let first = joined_column(&tags, 0);
    let second = joined_column(&tags, 1);
    let third = joined_column(&tags, 2);
    let name = make_tag(&first, &second, &third);
    Ok((chars::string_of(&out), chars::string_of(&name)))
}

/// Only the empty list has no first occurrences.
proof fn lemma_unique_empty(parts: Seq<Seq<char>>)
    ensures
        text::unique(parts).len() == 0 <==> parts.len() == 0,
    decreases parts.len(),
{
    if parts.len() > 0 {
        lemma_unique_empty(parts.drop_last());
        if text::unique(parts.drop_last()).len() == 0 {
            assert(!text::unique(parts.drop_last()).contains(parts.last()));
        }
    }
}

} // verus!
