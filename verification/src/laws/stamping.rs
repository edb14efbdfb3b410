//! What stamping makes of each line of a WHEEL file, and of its tags together.
use crate::laws::texts;
use crate::text;
use crate::wheel;
use vstd::prelude::*;

verus! {

/// A line that is no tag stays as it is; an empty one goes.
pub proof fn lemma_other_line(line: Seq<char>, platform: Seq<char>)
    requires
        forall|rest: Seq<char>| line != #[trigger] ("Tag: "@ + rest),
    ensures
        wheel::restamp_line(line, platform) == if line.len() == 0 {
            Seq::<char>::empty()
        } else {
            line + "\n"@
        },
        !wheel::is_bad(line),
        wheel::tag_of_line(line) is None,
{
    texts::lemma_starts_with(line, "Tag: "@);
}

/// What is trimmed of a text with whitespace around it.
proof fn lemma_trim_around(x: Seq<char>, core: Seq<char>, y: Seq<char>)
    requires
        core.len() > 0,
        !text::is_whitespace(core[0]),
        !text::is_whitespace(core.last()),
        forall|k: int| 0 <= k < x.len() ==> text::is_whitespace(#[trigger] x[k]),
        forall|k: int| 0 <= k < y.len() ==> text::is_whitespace(#[trigger] y[k]),
    ensures
        text::trim(x + core + y) == core,
    decreases x.len() + y.len(),
{
    let s = x + core + y;
    if x.len() > 0 {
        let rest = x.skip(1);
        assert(s[0] == x[0]);
        assert(s.skip(1) =~= rest + core + y);
        assert forall|k: int| 0 <= k < rest.len() implies text::is_whitespace(
            #[trigger] rest[k],
        ) by {
            assert(rest[k] == x[k + 1]);
        }
        lemma_trim_around(rest, core, y);
    } else {
        assert(s =~= core + y);
        assert(s[0] == core[0]);
        lemma_trim_end_around(core, y);
    }
}

proof fn lemma_trim_end_around(core: Seq<char>, y: Seq<char>)
    requires
        core.len() > 0,
        !text::is_whitespace(core.last()),
        forall|k: int| 0 <= k < y.len() ==> text::is_whitespace(#[trigger] y[k]),
    ensures
        text::trim_end(core + y) == core,
    decreases y.len(),
{
    let s = core + y;
    if y.len() > 0 {
        let rest = y.take(y.len() - 1);
        assert(s[s.len() - 1] == y[y.len() - 1]);
        assert(s.take(s.len() - 1) =~= core + rest);
        lemma_trim_end_around(core, rest);
    } else {
        assert(s =~= core);
    }
}

/// A tag of three components, with whitespace around it or not, keeps the first two, and gets
/// the platform in place of the third, unless that is `any`.
pub proof fn lemma_tag_line(
    x: Seq<char>,
    a: Seq<char>,
    b: Seq<char>,
    c: Seq<char>,
    y: Seq<char>,
    platform: Seq<char>,
)
    requires
        !a.contains('-') && !b.contains('-') && !c.contains('-'),
        a.len() > 0 ==> !text::is_whitespace(a[0]),
        c.len() > 0 ==> !text::is_whitespace(c.last()),
        forall|k: int| 0 <= k < x.len() ==> text::is_whitespace(#[trigger] x[k]),
        forall|k: int| 0 <= k < y.len() ==> text::is_whitespace(#[trigger] y[k]),
    ensures
        ({
            let line = "Tag: "@ + (x + (a + "-"@ + b + "-"@ + c) + y);
            let stamped = a + "-"@ + b + "-"@ + if c == "any"@ {
                "any"@
            } else {
                platform
            };
            &&& wheel::restamp_line(line, platform) == "Tag: "@ + stamped + "\n"@
            &&& wheel::tag_of_line(line) == Some(x + (a + "-"@ + b + "-"@ + c) + y)
            &&& wheel::restamp_tag(x + (a + "-"@ + b + "-"@ + c) + y, platform) == stamped
            &&& !wheel::is_bad(line)
        }),
{
    reveal_strlit("-");
    let core = a + "-"@ + b + "-"@ + c;
    let tag = x + core + y;
    let line = "Tag: "@ + tag;
    let n = "Tag: "@.len() as int;
    assert(line.take(n) =~= "Tag: "@);
    assert(line.skip(n) =~= tag);
    if a.len() > 0 {
        assert(core[0] == a[0]);
    } else {
        assert(core[0] == '-');
    }
    if c.len() > 0 {
        assert(core.last() == c.last());
    } else {
        assert(core.last() == '-');
    }
    lemma_trim_around(x, core, y);
    assert(core =~= a + seq!['-'] + (b + seq!['-'] + c));
    text::lemma_split_cons(a, '-', b + seq!['-'] + c);
    text::lemma_split_cons(b, '-', c);
    text::lemma_split_whole(c, '-');
    assert(wheel::components(tag) =~= seq![a, b, c]);
}

/// Three components are those of a text with two dashes.
proof fn lemma_three_components(tag: Seq<char>)
    ensures
        wheel::components(tag).len() == 3 <==> exists|a: Seq<char>, b: Seq<char>, c: Seq<char>|
            {
                &&& !a.contains('-') && !b.contains('-') && !c.contains('-')
                &&& text::trim(tag) == #[trigger] (a + "-"@ + b + "-"@ + c)
            },
{
    reveal_strlit("-");
    assert("-"@ =~= seq!['-']);
    let whole = text::trim(tag);
    let parts = wheel::components(tag);
    texts::lemma_split_join(whole, '-');
    if parts.len() == 3 {
        let (a, b, c) = (parts[0], parts[1], parts[2]);
        let rest = seq![b, c];
        assert(parts =~= seq![a] + rest);
        assert(rest =~= seq![b] + seq![c]);
        texts::lemma_join_cons(b, seq![c], seq!['-']);
        texts::lemma_join_cons(a, rest, seq!['-']);
        texts::lemma_join_cons(c, seq![c], seq!['-']);
        assert(whole =~= a + "-"@ + b + "-"@ + c);
    }
    if exists|a: Seq<char>, b: Seq<char>, c: Seq<char>|
        {
            &&& !a.contains('-') && !b.contains('-') && !c.contains('-')
            &&& whole == #[trigger] (a + "-"@ + b + "-"@ + c)
        } {
        let (a, b, c) = choose|a: Seq<char>, b: Seq<char>, c: Seq<char>|
            {
                &&& !a.contains('-') && !b.contains('-') && !c.contains('-')
                &&& whole == #[trigger] (a + "-"@ + b + "-"@ + c)
            };
        assert(whole =~= a + seq!['-'] + (b + seq!['-'] + c));
        text::lemma_split_cons(a, '-', b + seq!['-'] + c);
        text::lemma_split_cons(b, '-', c);
        text::lemma_split_whole(c, '-');
        assert(parts =~= seq![a, b, c]);
    }
}

/// A WHEEL file is refused exactly where a `Tag: ` line does not hold three components, and the
/// first such is named; or where there is no `Tag: ` line.
pub proof fn lemma_refused(content: Seq<char>, platform: Seq<char>, i: int, tag: Seq<char>)
    requires
        0 <= i < text::lines(content).len(),
        text::lines(content)[i] == "Tag: "@ + tag,
        forall|a: Seq<char>, b: Seq<char>, c: Seq<char>|
            !a.contains('-') && !b.contains('-') && !c.contains('-') ==> text::trim(tag)
                != #[trigger] (a + "-"@ + b + "-"@ + c),
        forall|k: int, t: Seq<char>|
            0 <= k < i && #[trigger] text::lines(content)[k] == #[trigger] ("Tag: "@ + t)
                ==> exists|a: Seq<char>, b: Seq<char>, c: Seq<char>|
                {
                    &&& !a.contains('-') && !b.contains('-') && !c.contains('-')
                    &&& text::trim(t) == #[trigger] (a + "-"@ + b + "-"@ + c)
                },
    ensures
        wheel::restamped(content, platform) == Err::<(Seq<char>, Seq<char>), _>(
            wheel::WheelFault::UnparseableTag(tag),
        ),
{
    let lines = text::lines(content);
    let n = "Tag: "@.len() as int;
    assert(lines[i].take(n) =~= "Tag: "@);
    assert(lines[i].skip(n) =~= tag);
    lemma_three_components(tag);
    assert(wheel::is_bad(lines[i]));
    assert forall|k: int| 0 <= k < i implies !wheel::is_bad(#[trigger] lines[k]) by {
        if wheel::is_bad(lines[k]) {
            let t = wheel::tag_of_line(lines[k])->0;
            texts::lemma_starts_with(lines[k], "Tag: "@);
            assert(lines[k] == "Tag: "@ + t);
            lemma_three_components(t);
        }
    }
    assert(wheel::first_bad(lines, i));
    let j = choose|j: int| wheel::first_bad(lines, j);
    assert(j == i) by {
        if j < i {
            assert(wheel::is_bad(lines[j]));
        }
    }
}

/// A WHEEL file all of whose `Tag: ` lines hold three components can be stamped where there is
/// such a line, and is refused for having none where there is not.
pub proof fn lemma_accepted(content: Seq<char>, platform: Seq<char>)
    requires
        forall|k: int, t: Seq<char>|
            0 <= k < text::lines(content).len() && #[trigger] text::lines(content)[k]
                == #[trigger] ("Tag: "@ + t) ==> exists|a: Seq<char>, b: Seq<char>, c: Seq<char>|
                {
                    &&& !a.contains('-') && !b.contains('-') && !c.contains('-')
                    &&& text::trim(t) == #[trigger] (a + "-"@ + b + "-"@ + c)
                },
    ensures
        (exists|k: int, t: Seq<char>|
            0 <= k < text::lines(content).len() && #[trigger] text::lines(content)[k]
                == #[trigger] ("Tag: "@ + t)) ==> wheel::restamped(content, platform) is Ok,
        (forall|k: int, t: Seq<char>|
            0 <= k < text::lines(content).len() ==> #[trigger] text::lines(content)[k]
                != #[trigger] ("Tag: "@ + t)) ==> wheel::restamped(content, platform) == Err::<
            (Seq<char>, Seq<char>),
            _,
        >(wheel::WheelFault::NoTags),
{
    let lines = text::lines(content);
    let n = "Tag: "@.len() as int;
    assert forall|k: int| !wheel::first_bad(lines, k) by {
        if wheel::first_bad(lines, k) {
            let t = wheel::tag_of_line(lines[k])->0;
            texts::lemma_starts_with(lines[k], "Tag: "@);
            assert(lines[k] == "Tag: "@ + t);
            lemma_three_components(t);
        }
    }
    lemma_line_tags_some(lines, platform);
    if exists|k: int, t: Seq<char>|
        0 <= k < lines.len() && #[trigger] lines[k] == #[trigger] ("Tag: "@ + t) {
        let (k, t) = choose|k: int, t: Seq<char>|
            0 <= k < lines.len() && #[trigger] lines[k] == #[trigger] ("Tag: "@ + t);
        assert(lines[k].take(n) =~= "Tag: "@);
        assert(wheel::tag_of_line(lines[k]) is Some);
    }
    if forall|k: int, t: Seq<char>|
        0 <= k < lines.len() ==> #[trigger] lines[k] != #[trigger] ("Tag: "@ + t) {
        assert forall|k: int| 0 <= k < lines.len() implies wheel::tag_of_line(
            #[trigger] lines[k],
        ) is None by {
            texts::lemma_starts_with(lines[k], "Tag: "@);
            if wheel::tag_of_line(lines[k]) is Some {
                assert(lines[k] == "Tag: "@ + wheel::tag_of_line(lines[k])->0);
            }
        }
    }
}

/// There are tags exactly where a line holds one.
proof fn lemma_line_tags_some(lines: Seq<Seq<char>>, platform: Seq<char>)
    ensures
        wheel::line_tags(lines, platform).len() > 0 <==> exists|k: int|
            0 <= k < lines.len() && wheel::tag_of_line(#[trigger] lines[k]) is Some,
    decreases lines.len(),
{
    if lines.len() > 0 {
        let head = lines.drop_last();
        lemma_line_tags_some(head, platform);
        if exists|k: int| 0 <= k < head.len() && wheel::tag_of_line(#[trigger] head[k]) is Some {
            let k = choose|k: int|
                0 <= k < head.len() && wheel::tag_of_line(#[trigger] head[k]) is Some;
            assert(wheel::tag_of_line(lines[k]) is Some);
        }
        if wheel::tag_of_line(lines.last()) is Some {
            assert(wheel::tag_of_line(lines[lines.len() - 1]) is Some);
        }
        if exists|k: int| 0 <= k < lines.len() && wheel::tag_of_line(#[trigger] lines[k]) is Some {
            let k = choose|k: int|
                0 <= k < lines.len() && wheel::tag_of_line(#[trigger] lines[k]) is Some;
            if k < head.len() {
                assert(wheel::tag_of_line(head[k]) is Some);
            }
        }
    }
}

/// The stamped file is what each line of the old one becomes, one after the other.
pub proof fn lemma_stamped_lines(content: Seq<char>, platform: Seq<char>)
    requires
        wheel::restamped(content, platform) is Ok,
    ensures
        wheel::restamped(content, platform)->Ok_0.0 == text::lines(content).map_values(
            |line: Seq<char>| wheel::restamp_line(line, platform),
        ).flatten(),
{
    lemma_restamp_lines_flat(text::lines(content), platform);
}

proof fn lemma_restamp_lines_flat(lines: Seq<Seq<char>>, platform: Seq<char>)
    ensures
        wheel::restamp_lines(lines, platform) == lines.map_values(
            |line: Seq<char>| wheel::restamp_line(line, platform),
        ).flatten(),
    decreases lines.len(),
{
    let f = |line: Seq<char>| wheel::restamp_line(line, platform);
    let all = lines.map_values(f);
    all.lemma_flatten_and_flatten_alt_are_equivalent();
    if lines.len() > 0 {
        let head = lines.drop_last();
        lemma_restamp_lines_flat(head, platform);
        head.map_values(f).lemma_flatten_and_flatten_alt_are_equivalent();
        assert(all.drop_last() =~= head.map_values(f));
    } else {
        assert(wheel::restamp_lines(lines, platform) =~= all.flatten_alt());
    }
}

/// The new tags are those of the lines that hold one, in their order.
pub proof fn lemma_new_tags(lines: Seq<Seq<char>>, line: Seq<char>, platform: Seq<char>)
    ensures
        (forall|rest: Seq<char>| line != #[trigger] ("Tag: "@ + rest)) ==> wheel::line_tags(
            lines.push(line),
            platform,
        ) == wheel::line_tags(lines, platform),
        forall|tag: Seq<char>|
            line == #[trigger] ("Tag: "@ + tag) ==> wheel::line_tags(lines.push(line), platform)
                == wheel::line_tags(lines, platform).push(wheel::restamp_tag(tag, platform)),
        wheel::line_tags(seq![], platform) == Seq::<Seq<char>>::empty(),
{
    texts::lemma_starts_with(line, "Tag: "@);
    assert(lines.push(line).drop_last() =~= lines);
    let n = "Tag: "@.len() as int;
    assert forall|tag: Seq<char>| line == #[trigger] ("Tag: "@ + tag) implies wheel::tag_of_line(
        line,
    ) == Some(tag) by {
        assert(line.take(n) =~= "Tag: "@);
        assert(line.skip(n) =~= tag);
    }
}

/// Leaving out repeated tags leaves out no component.
proof fn lemma_unique_column(tags: Seq<Seq<char>>, i: int)
    ensures
        text::unique(wheel::column(text::unique(tags), i)) == text::unique(wheel::column(tags, i)),
    decreases tags.len(),
{
    if tags.len() == 0 {
        assert(wheel::column(text::unique(tags), i) =~= wheel::column(tags, i));
    } else {
        let head = tags.drop_last();
        let last = tags.last();
        let x = text::split(last, '-')[i];
        let before = text::unique(head);
        lemma_unique_column(head, i);
        text::lemma_unique(head);
        text::lemma_unique(wheel::column(head, i));
        assert(wheel::column(tags, i).drop_last() =~= wheel::column(head, i));
        assert(wheel::column(tags, i).last() == x);
        if before.contains(last) {
            let k = choose|k: int| 0 <= k < head.len() && head[k] == last;
            assert(wheel::column(head, i)[k] == x);
            assert(wheel::column(head, i).contains(x));
        } else {
            let all = before.push(last);
            assert(wheel::column(all, i).drop_last() =~= wheel::column(before, i));
            assert(wheel::column(all, i).last() == x);
        }
    }
}

/// The tag for the file name: in each of its three places what the new tags have there, each
/// once, in the order in which it first comes, with dots between.
pub proof fn lemma_name_tag_is(content: Seq<char>, platform: Seq<char>)
    requires
        wheel::restamped(content, platform) is Ok,
    ensures
        ({
            let tags = wheel::line_tags(text::lines(content), platform);
            wheel::restamped(content, platform)->Ok_0.1 == text::join(
                text::unique(tags.map_values(|t: Seq<char>| text::split(t, '-')[0])),
                "."@,
            ) + "-"@ + text::join(
                text::unique(tags.map_values(|t: Seq<char>| text::split(t, '-')[1])),
                "."@,
            ) + "-"@ + text::join(
                text::unique(tags.map_values(|t: Seq<char>| text::split(t, '-')[2])),
                "."@,
            )
        }),
{
    let tags = wheel::line_tags(text::lines(content), platform);
    lemma_unique_column(tags, 0);
    lemma_unique_column(tags, 1);
    lemma_unique_column(tags, 2);
    assert(tags.map_values(|t: Seq<char>| text::split(t, '-')[0]) =~= wheel::column(tags, 0));
    assert(tags.map_values(|t: Seq<char>| text::split(t, '-')[1]) =~= wheel::column(tags, 1));
    assert(tags.map_values(|t: Seq<char>| text::split(t, '-')[2]) =~= wheel::column(tags, 2));
}

} // verus!
