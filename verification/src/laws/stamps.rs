//! What holds of WHEEL files stamped for a platform, and of the names of wheels.
use crate::convert;
use crate::text;
use crate::wheel;
use vstd::prelude::*;

verus! {

// ---------------------------------------------------------------------------
// Stamping twice
// ---------------------------------------------------------------------------

/// A platform as it stands in a tag: without dashes and whitespace.
pub open spec fn is_platform(platform: Seq<char>) -> bool {
    forall|k: int|
        0 <= k < platform.len() ==> !text::is_whitespace(#[trigger] platform[k]) && platform[k]
            != '-'
}

/// No line of a WHEEL file ends with a carriage return, but for those with a tag.
pub open spec fn no_stray_returns(content: Seq<char>) -> bool {
    forall|i: int|
        0 <= i < text::lines(content).len() && wheel::tag_of_line(
            #[trigger] text::lines(content)[i],
        ) is None && text::lines(content)[i].len() > 0 ==> text::lines(content)[i].last() != '\r'
}

/// The lines that stand in the new file for a line of the old one: one, or none.
spec fn kept_line(line: Seq<char>, platform: Seq<char>) -> Seq<Seq<char>> {
    match wheel::tag_of_line(line) {
        Some(tag) => seq!["Tag: "@ + wheel::restamp_tag(tag, platform)],
        None => if line.len() == 0 {
            seq![]
        } else {
            seq![line]
        },
    }
}

/// The lines of the new file.
spec fn kept_lines(lines: Seq<Seq<char>>, platform: Seq<char>) -> Seq<Seq<char>>
    decreases lines.len(),
{
    if lines.len() == 0 {
        seq![]
    } else {
        kept_lines(lines.drop_last(), platform) + kept_line(lines.last(), platform)
    }
}

/// A tag stamped for a platform has the components of the old tag, but for the platform.
proof fn lemma_stamped_components(tag: Seq<char>, platform: Seq<char>)
    requires
        wheel::components(tag).len() == 3,
        is_platform(platform),
    ensures
        ({
            let parts = wheel::components(tag);
            let stamped = wheel::restamp_tag(tag, platform);
            &&& wheel::components(stamped).len() == 3
            &&& wheel::components(stamped)[0] == parts[0]
            &&& wheel::components(stamped)[1] == parts[1]
            &&& wheel::components(stamped)[2] == if parts[2] == "any"@ {
                "any"@
            } else {
                platform
            }
            &&& stamped.len() > 0 && !text::is_whitespace(stamped.last())
        }),
{
    reveal_strlit("-");
    reveal_strlit("any");
    let whole = text::trim(tag);
    let parts = wheel::components(tag);
    let last = if parts[2] == "any"@ {
        parts[2]
    } else {
        platform
    };
    let stamped = wheel::restamp_tag(tag, platform);
    text::lemma_trim(tag);
    text::lemma_split_holds(whole, '-');
    text::lemma_split_pieces(whole, '-');
    assert(stamped =~= parts[0] + seq!['-'] + (parts[1] + seq!['-'] + last));
    assert(!text::is_whitespace(stamped[0])) by {
        if parts[0].len() > 0 {
            assert(stamped[0] == parts[0][0]);
        } else {
            assert(stamped[0] == '-');
        }
    }
    assert(!text::is_whitespace(stamped.last())) by {
        if last.len() > 0 {
            assert(stamped.last() == last.last());
            assert(last[last.len() - 1] == last.last());
        } else {
            assert(stamped.last() == '-');
        }
    }
    text::lemma_trim_same(stamped);
    assert(!last.contains('-'));
    text::lemma_split_cons(parts[0], '-', parts[1] + seq!['-'] + last);
    text::lemma_split_cons(parts[1], '-', last);
    text::lemma_split_whole(last, '-');
    assert(text::split(stamped, '-') =~= seq![parts[0], parts[1], last]);
}

/// What follows `Tag: ` is the tag.
proof fn lemma_tag_line(tag: Seq<char>)
    ensures
        wheel::tag_of_line("Tag: "@ + tag) == Some(tag),
{
    let line = "Tag: "@ + tag;
    let n = "Tag: "@.len() as int;
    assert(line.take(n) =~= "Tag: "@);
    assert(line.skip(n) =~= tag);
}

/// A line of the new file can be read back.
proof fn lemma_kept_line(line: Seq<char>, platform: Seq<char>)
    requires
        is_platform(platform),
        !wheel::is_bad(line),
        !line.contains('\n'),
        wheel::tag_of_line(line) is None && line.len() > 0 ==> line.last() != '\r',
    ensures
        kept_line(line, platform).len() <= 1,
        kept_line(line, platform).len() == 1 ==> {
            &&& text::is_line(kept_line(line, platform)[0])
            &&& kept_line(line, platform)[0].len() > 0
            &&& wheel::restamp_line(line, platform) == kept_line(line, platform)[0].push('\n')
        },
        kept_line(line, platform).len() == 0 ==> wheel::restamp_line(line, platform) == Seq::<
            char,
        >::empty(),
{
    reveal_strlit("\n");
    reveal_strlit("Tag: ");
    reveal_strlit("-");
    reveal_strlit("any");
    match wheel::tag_of_line(line) {
        Some(tag) => {
            let parts = wheel::components(tag);
            let stamped = wheel::restamp_tag(tag, platform);
            let new = "Tag: "@ + stamped;
            lemma_stamped_components(tag, platform);
            text::lemma_trim(tag);
            text::lemma_split_holds(text::trim(tag), '-');
            assert(!tag.contains('\n')) by {
                if tag.contains('\n') {
                    let k = choose|k: int| 0 <= k < tag.len() && tag[k] == '\n';
                    assert(line[5 + k] == '\n');
                }
            }
            let last = if parts[2] == "any"@ {
                parts[2]
            } else {
                platform
            };
            assert(!parts[0].contains('\n'));
            assert(!parts[1].contains('\n'));
            assert(!parts[2].contains('\n'));
            assert(!last.contains('\n'));
            text::lemma_add_contains(parts[0], "-"@, '\n');
            text::lemma_add_contains(parts[0] + "-"@, parts[1], '\n');
            text::lemma_add_contains(parts[0] + "-"@ + parts[1], "-"@, '\n');
            text::lemma_add_contains(parts[0] + "-"@ + parts[1] + "-"@, last, '\n');
            text::lemma_add_contains("Tag: "@, stamped, '\n');
            assert(new.last() == stamped.last());
            assert(wheel::restamp_line(line, platform) =~= new.push('\n'));
        },
        None => {
            if line.len() > 0 {
                assert(wheel::restamp_line(line, platform) =~= line.push('\n'));
            }
        },
    }
}

/// The lines can be stamped, and read back.
spec fn is_stampable(lines: Seq<Seq<char>>) -> bool {
    forall|i: int|
        0 <= i < lines.len() ==> {
            &&& !wheel::is_bad(#[trigger] lines[i])
            &&& !lines[i].contains('\n')
            &&& wheel::tag_of_line(lines[i]) is None && lines[i].len() > 0 ==> lines[i].last()
                != '\r'
        }
}

/// Lines that can be stamped can be without the last of them.
proof fn lemma_stampable_head(lines: Seq<Seq<char>>)
    requires
        is_stampable(lines),
        lines.len() > 0,
    ensures
        is_stampable(lines.drop_last()),
{
    let head = lines.drop_last();
    assert forall|i: int| 0 <= i < head.len() implies head[i] == lines[i] by {}
}

/// The lines of the new file are those kept of the old one.
proof fn lemma_new_lines(lines: Seq<Seq<char>>, platform: Seq<char>)
    requires
        is_platform(platform),
        is_stampable(lines),
    ensures
        text::is_whole(wheel::restamp_lines(lines, platform)),
        text::lines(wheel::restamp_lines(lines, platform)) == kept_lines(lines, platform),
    decreases lines.len(),
{
    if lines.len() == 0 {
        assert(wheel::restamp_lines(lines, platform) =~= seq![]);
        assert(text::lines(seq![]) =~= kept_lines(lines, platform));
    } else {
        let head = lines.drop_last();
        let last = lines.last();
        lemma_stampable_head(lines);
        assert(last == lines[lines.len() - 1]);
        lemma_new_lines(head, platform);
        lemma_kept_line(last, platform);
        let before = wheel::restamp_lines(head, platform);
        let added = wheel::restamp_line(last, platform);
        let kept = kept_line(last, platform);
        text::lemma_lines_append(before, added);
        if kept.len() == 1 {
            text::lemma_one_line(kept[0]);
            assert(seq![kept[0]] =~= kept);
        } else {
            assert(text::lines(added) =~= kept);
        }
        assert(text::is_whole(before + added));
    }
}

/// Stamping what was kept of a line is stamping the line.
proof fn lemma_kept_again(lines: Seq<Seq<char>>, first: Seq<char>, second: Seq<char>)
    requires
        is_platform(first),
        first == "any"@ ==> second == first,
        is_stampable(lines),
    ensures
        wheel::restamp_lines(kept_lines(lines, first), second) == wheel::restamp_lines(
            lines,
            second,
        ),
        wheel::line_tags(kept_lines(lines, first), second) == wheel::line_tags(lines, second),
        forall|i: int|
            0 <= i < kept_lines(lines, first).len() ==> !wheel::is_bad(
                #[trigger] kept_lines(lines, first)[i],
            ),
    decreases lines.len(),
{
    if lines.len() > 0 {
        let head = lines.drop_last();
        let last = lines.last();
        lemma_stampable_head(lines);
        assert(last == lines[lines.len() - 1]);
        lemma_kept_again(head, first, second);
        let before = kept_lines(head, first);
        let all = kept_lines(lines, first);
        match wheel::tag_of_line(last) {
            Some(tag) => {
                let stamped = wheel::restamp_tag(tag, first);
                lemma_stamped_components(tag, first);
                lemma_tag_line(stamped);
                assert(wheel::restamp_tag(stamped, second) == wheel::restamp_tag(tag, second));
                assert(all =~= before.push("Tag: "@ + stamped));
                assert(all.drop_last() =~= before);
                assert(wheel::restamp_line(all.last(), second) == wheel::restamp_line(
                    last,
                    second,
                ));
                assert(!wheel::is_bad(all.last()));
            },
            None => {
                if last.len() > 0 {
                    assert(all =~= before.push(last));
                    assert(all.drop_last() =~= before);
                } else {
                    assert(all =~= before);
                    assert(wheel::restamp_lines(head, second) + Seq::<char>::empty()
                        =~= wheel::restamp_lines(head, second));
                }
            },
        }
        assert forall|i: int| 0 <= i < all.len() implies !wheel::is_bad(#[trigger] all[i]) by {
            if i < before.len() {
                assert(all[i] == before[i]);
            }
        }
    }
}

/// The lines of a WHEEL file that can be stamped.
proof fn lemma_stampable(content: Seq<char>, platform: Seq<char>)
    requires
        wheel::restamped(content, platform) is Ok,
        no_stray_returns(content),
    ensures
        is_stampable(text::lines(content)),
{
    let lines = text::lines(content);
    text::lemma_lines_hold_no_feed(content);
    assert forall|i: int| 0 <= i < lines.len() implies !wheel::is_bad(#[trigger] lines[i]) by {
        if wheel::is_bad(lines[i]) {
            lemma_first_bad(lines, i);
        }
    }
}

/// Where a line is bad, one is the first.
proof fn lemma_first_bad(lines: Seq<Seq<char>>, i: int)
    requires
        0 <= i < lines.len(),
        wheel::is_bad(lines[i]),
    ensures
        exists|k: int| wheel::first_bad(lines, k),
    decreases i,
{
    if forall|k: int| 0 <= k < i ==> !wheel::is_bad(#[trigger] lines[k]) {
        assert(wheel::first_bad(lines, i));
    } else {
        let k = choose|k: int| 0 <= k < i && wheel::is_bad(#[trigger] lines[k]);
        lemma_first_bad(lines, k);
    }
}

/// Of two stamps the second counts: stamping a stamped file gives what stamping the old file
/// would have given. (Stamping for the platform `any` is the exception: there is nothing left
/// to stamp then.)
pub proof fn lemma_restamp_again(content: Seq<char>, first: Seq<char>, second: Seq<char>)
    requires
        is_platform(first),
        first != "any"@,
        no_stray_returns(content),
        wheel::restamped(content, first) is Ok,
    ensures
        wheel::restamped(wheel::restamped(content, first)->Ok_0.0, second) == wheel::restamped(
            content,
            second,
        ),
{
    lemma_stamped_file(content, first, second);
}

/// Stamping for the same platform again changes nothing.
pub proof fn lemma_restamp_idempotent(content: Seq<char>, platform: Seq<char>)
    requires
        is_platform(platform),
        no_stray_returns(content),
        wheel::restamped(content, platform) is Ok,
    ensures
        wheel::restamped(wheel::restamped(content, platform)->Ok_0.0, platform)
            == wheel::restamped(content, platform),
{
    lemma_stamped_file(content, platform, platform);
}

/// Stamping a stamped file.
proof fn lemma_stamped_file(content: Seq<char>, first: Seq<char>, second: Seq<char>)
    requires
        is_platform(first),
        first == "any"@ ==> second == first,
        no_stray_returns(content),
        wheel::restamped(content, first) is Ok,
    ensures
        wheel::restamped(wheel::restamped(content, first)->Ok_0.0, second) == wheel::restamped(
            content,
            second,
        ),
{
    let lines = text::lines(content);
    lemma_stampable(content, first);
    lemma_new_lines(lines, first);
    lemma_kept_again(lines, first, second);
    let kept = kept_lines(lines, first);
    assert forall|i: int| !wheel::first_bad(kept, i) by {
        if wheel::first_bad(kept, i) {
            assert(!wheel::is_bad(kept[i]));
        }
    }
    assert forall|i: int| !wheel::first_bad(lines, i) by {
        if wheel::first_bad(lines, i) {
            assert(!wheel::is_bad(lines[i]));
        }
    }
}

/// The lines of a stamped file that are no tags are those of the old file, without the empty
/// ones, in their order and unchanged.
pub proof fn lemma_other_lines_stay(content: Seq<char>, platform: Seq<char>)
    requires
        is_platform(platform),
        no_stray_returns(content),
        wheel::restamped(content, platform) is Ok,
    ensures
        text::lines(wheel::restamped(content, platform)->Ok_0.0).filter(
            |l: Seq<char>| !(l.len() >= 5 && l.take(5) == "Tag: "@),
        ) == text::lines(content).filter(
            |l: Seq<char>| l.len() > 0 && !(l.len() >= 5 && l.take(5) == "Tag: "@),
        ),
{
    let lines = text::lines(content);
    lemma_stampable(content, platform);
    lemma_new_lines(lines, platform);
    lemma_kept_filter(lines, platform);
}

/// As [`lemma_other_lines_stay`], of the kept lines.
proof fn lemma_kept_filter(lines: Seq<Seq<char>>, platform: Seq<char>)
    ensures
        kept_lines(lines, platform).filter(
            |l: Seq<char>| !(l.len() >= 5 && l.take(5) == "Tag: "@),
        ) == lines.filter(|l: Seq<char>| l.len() > 0 && !(l.len() >= 5 && l.take(5) == "Tag: "@)),
    decreases lines.len(),
{
    let f = |l: Seq<char>| !(l.len() >= 5 && l.take(5) == "Tag: "@);
    let g = |l: Seq<char>| l.len() > 0 && !(l.len() >= 5 && l.take(5) == "Tag: "@);
    reveal(Seq::filter);
    reveal_strlit("Tag: ");
    if lines.len() > 0 {
        let head = lines.drop_last();
        let last = lines.last();
        let before = kept_lines(head, platform);
        let kept = kept_line(last, platform);
        lemma_kept_filter(head, platform);
        Seq::filter_distributes_over_add(before, kept, f);
        if kept.len() == 1 {
            let line = kept[0];
            assert(kept.drop_last() =~= seq![]);
            assert(kept.drop_last().filter(f) =~= seq![]);
            if let Some(tag) = wheel::tag_of_line(last) {
                assert(line.take(5) =~= "Tag: "@);
            }
            assert(kept.filter(f) =~= if f(line) {
                seq![line]
            } else {
                seq![]
            });
        } else {
            assert(kept.filter(f) =~= seq![]);
        }
        assert(kept_lines(lines, platform).filter(f) =~= lines.filter(g));
    } else {
        assert(kept_lines(lines, platform).filter(f) =~= lines.filter(g));
    }
}

/// Every tag of a stamped file has three components, and is for the platform or for any.
pub proof fn lemma_stamped_tags(content: Seq<char>, platform: Seq<char>, i: int)
    requires
        is_platform(platform),
        no_stray_returns(content),
        wheel::restamped(content, platform) is Ok,
        0 <= i < text::lines(wheel::restamped(content, platform)->Ok_0.0).len(),
        wheel::tag_of_line(
            text::lines(wheel::restamped(content, platform)->Ok_0.0)[i],
        ) is Some,
    ensures
        ({
            let tag = wheel::tag_of_line(
                text::lines(wheel::restamped(content, platform)->Ok_0.0)[i],
            )->0;
            &&& wheel::components(tag).len() == 3
            &&& wheel::components(tag)[2] == platform || wheel::components(tag)[2] == "any"@
        }),
{
    let lines = text::lines(content);
    lemma_stampable(content, platform);
    lemma_new_lines(lines, platform);
    lemma_kept_tags(lines, platform, i);
}

/// As [`lemma_stamped_tags`], of the kept lines.
proof fn lemma_kept_tags(lines: Seq<Seq<char>>, platform: Seq<char>, i: int)
    requires
        is_platform(platform),
        is_stampable(lines),
        0 <= i < kept_lines(lines, platform).len(),
        wheel::tag_of_line(kept_lines(lines, platform)[i]) is Some,
    ensures
        ({
            let tag = wheel::tag_of_line(kept_lines(lines, platform)[i])->0;
            &&& wheel::components(tag).len() == 3
            &&& wheel::components(tag)[2] == platform || wheel::components(tag)[2] == "any"@
        }),
    decreases lines.len(),
{
    let head = lines.drop_last();
    let last = lines.last();
    lemma_stampable_head(lines);
    assert(last == lines[lines.len() - 1]);
    let before = kept_lines(head, platform);
    if i < before.len() {
        assert(kept_lines(lines, platform)[i] == before[i]);
        lemma_kept_tags(head, platform, i);
    } else {
        lemma_kept_line(last, platform);
        if let Some(tag) = wheel::tag_of_line(last) {
            lemma_stamped_components(tag, platform);
            lemma_tag_line(wheel::restamp_tag(tag, platform));
        }
    }
}

// ---------------------------------------------------------------------------
// Names
// ---------------------------------------------------------------------------

/// Joining adds no characters but those of the separator.
proof fn lemma_join_holds(parts: Seq<Seq<char>>, sep: Seq<char>, c: char)
    requires
        forall|i: int| 0 <= i < parts.len() ==> !(#[trigger] parts[i]).contains(c),
        !sep.contains(c),
    ensures
        !text::join(parts, sep).contains(c),
    decreases parts.len(),
{
    if parts.len() > 1 {
        let head = parts.drop_last();
        assert forall|i: int| 0 <= i < head.len() implies !(#[trigger] head[i]).contains(c) by {
            assert(head[i] == parts[i]);
        }
        lemma_join_holds(head, sep, c);
        let before = text::join(head, sep);
        assert(parts.last() == parts[parts.len() - 1]);
        text::lemma_add_contains(before, sep, c);
        text::lemma_add_contains(before + sep, parts.last(), c);
    }
}

/// The new tags of a file that can be stamped have at least three components.
proof fn lemma_line_tags(lines: Seq<Seq<char>>, platform: Seq<char>)
    requires
        forall|i: int| 0 <= i < lines.len() ==> !wheel::is_bad(#[trigger] lines[i]),
    ensures
        forall|i: int|
            0 <= i < wheel::line_tags(lines, platform).len() ==> text::split(
                #[trigger] wheel::line_tags(lines, platform)[i],
                '-',
            ).len() >= 3,
    decreases lines.len(),
{
    if lines.len() > 0 {
        let head = lines.drop_last();
        let last = lines.last();
        assert forall|i: int| 0 <= i < head.len() implies !wheel::is_bad(#[trigger] head[i]) by {
            assert(head[i] == lines[i]);
        }
        lemma_line_tags(head, platform);
        assert(last == lines[lines.len() - 1]);
        let before = wheel::line_tags(head, platform);
        let all = wheel::line_tags(lines, platform);
        assert forall|i: int| 0 <= i < all.len() implies text::split(
            #[trigger] all[i],
            '-',
        ).len() >= 3 by {
            if i < before.len() {
                assert(all[i] == before[i]);
            } else {
                wheel::lemma_restamp_tag(wheel::tag_of_line(last)->0, platform);
            }
        }
    }
}

/// One place of a tag for a file name holds no dash.
proof fn lemma_column(tags: Seq<Seq<char>>, i: int)
    requires
        0 <= i < 3,
        forall|k: int| 0 <= k < tags.len() ==> text::split(#[trigger] tags[k], '-').len() >= 3,
    ensures
        !text::join(text::unique(wheel::column(tags, i)), "."@).contains('-'),
{
    let column = wheel::column(tags, i);
    let parts = text::unique(column);
    reveal_strlit(".");
    text::lemma_unique(column);
    assert forall|k: int| 0 <= k < parts.len() implies !(#[trigger] parts[k]).contains('-') by {
        assert(parts.contains(parts[k]));
        let j = choose|j: int| 0 <= j < column.len() && column[j] == parts[k];
        text::lemma_split_pieces(tags[j], '-');
    }
    lemma_join_holds(parts, "."@, '-');
}

/// The tag for the file name has three components.
pub proof fn lemma_name_tag(content: Seq<char>, platform: Seq<char>)
    requires
        wheel::restamped(content, platform) is Ok,
    ensures
        text::split(wheel::restamped(content, platform)->Ok_0.1, '-').len() == 3,
{
    let lines = text::lines(content);
    assert forall|i: int| 0 <= i < lines.len() implies !wheel::is_bad(#[trigger] lines[i]) by {
        if wheel::is_bad(lines[i]) {
            lemma_first_bad(lines, i);
        }
    }
    lemma_line_tags(lines, platform);
    let all = wheel::line_tags(lines, platform);
    let tags = text::unique(all);
    text::lemma_unique(all);
    assert forall|k: int| 0 <= k < tags.len() implies text::split(
        #[trigger] tags[k],
        '-',
    ).len() >= 3 by {
        assert(tags.contains(tags[k]));
        let j = choose|j: int| 0 <= j < all.len() && all[j] == tags[k];
    }
    lemma_column(tags, 0);
    lemma_column(tags, 1);
    lemma_column(tags, 2);
    let a = text::join(text::unique(wheel::column(tags, 0)), "."@);
    let b = text::join(text::unique(wheel::column(tags, 1)), "."@);
    let c = text::join(text::unique(wheel::column(tags, 2)), "."@);
    lemma_three(a, b, c);
}

/// Three texts without dashes, with dashes between them.
proof fn lemma_three(a: Seq<char>, b: Seq<char>, c: Seq<char>)
    requires
        !a.contains('-'),
        !b.contains('-'),
        !c.contains('-'),
    ensures
        text::split(wheel::tag_text(a, b, c), '-') == seq![a, b, c],
{
    reveal_strlit("-");
    assert(wheel::tag_text(a, b, c) =~= a + seq!['-'] + (b + seq!['-'] + c));
    text::lemma_split_cons(a, '-', b + seq!['-'] + c);
    text::lemma_split_cons(b, '-', c);
    text::lemma_split_whole(c, '-');
    assert(seq![a] + (seq![b] + seq![c]) =~= seq![a, b, c]);
}

/// What follows a text without dashes adds nothing to the number of its pieces.
proof fn lemma_split_extended(s: Seq<char>, more: Seq<char>, c: char)
    requires
        !more.contains(c),
    ensures
        text::split(s + more, c).len() == text::split(s, c).len(),
    decreases s.len(),
{
    text::lemma_find_char(s, c);
    text::lemma_find_char(s + more, c);
    match text::find(s, seq![c]) {
        Some(i) => {
            assert((s + more)[i] == c);
            let j = text::find(s + more, seq![c])->0;
            assert(j == i) by {
                if j < i {
                    assert((s + more)[j] == s[j]);
                }
            }
            assert((s + more).skip(i + 1) =~= s.skip(i + 1) + more);
            lemma_split_extended(s.skip(i + 1), more, c);
        },
        None => {
            assert(!(s + more).contains(c)) by {
                text::lemma_add_contains(s, more, c);
            }
            text::lemma_split_whole(s + more, c);
        },
    }
}

/// The name of a wheel has five components: the project, its version, and the three of its
/// tag.
pub proof fn lemma_wheel_name(name: Seq<char>, version: Seq<char>, tag: Seq<char>)
    requires
        !version.contains('-'),
        text::split(tag, '-').len() == 3,
    ensures
        text::split(convert::wheel_name(name, version, tag), '-').len() == 5,
        text::split(convert::wheel_name(name, version, tag), '-')[0] == text::replace_char(
            name,
            '-',
            '_',
        ),
        text::split(convert::wheel_name(name, version, tag), '-')[1] == version,
{
    reveal_strlit("-");
    reveal_strlit(".whl");
    let plain = text::replace_char(name, '-', '_');
    let end = tag + ".whl"@;
    assert(!plain.contains('-')) by {
        assert forall|k: int| 0 <= k < plain.len() implies plain[k] != '-' by {}
    }
    assert(convert::wheel_name(name, version, tag) =~= plain + seq!['-'] + (version + seq!['-']
        + end));
    text::lemma_split_cons(plain, '-', version + seq!['-'] + end);
    text::lemma_split_cons(version, '-', end);
    lemma_split_extended(tag, ".whl"@, '-');
}

} // verus!
