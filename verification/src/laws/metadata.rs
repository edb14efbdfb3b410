//! What holds of metadata with dependency fields put into it.
use crate::egg;
use crate::text;
use vstd::prelude::*;

verus! {

/// Whole lines, none of them blank.
pub open spec fn has_no_blank_line(s: Seq<char>) -> bool {
    text::is_whole(s) && forall|p: int| !egg::blank_at(s, p)
}

/// Whole lines after whole lines.
proof fn lemma_no_blank_line_append(a: Seq<char>, b: Seq<char>)
    requires
        has_no_blank_line(a),
        has_no_blank_line(b),
    ensures
        has_no_blank_line(a + b),
{
    let s = a + b;
    assert forall|p: int| !egg::blank_at(s, p) by {
        if egg::blank_at(s, p) {
            if p < a.len() {
                assert(egg::blank_at(a, p));
            } else {
                assert(egg::blank_at(b, p - a.len()));
            }
        }
    }
}

/// A line that does not begin with a carriage return, and is not empty.
proof fn lemma_no_blank_line_one(s: Seq<char>)
    requires
        s.len() > 0,
        s[0] != '\r',
        !s.contains('\n'),
    ensures
        has_no_blank_line(s.push('\n')),
{
    let line = s.push('\n');
    assert forall|k: int| 0 <= k < line.len() - 1 implies #[trigger] line[k] != '\n' by {
        assert(s.contains(s[k]));
    }
    assert forall|p: int| !egg::blank_at(line, p) by {
        if egg::blank_at(line, p) && p > 0 {
            assert(line[p - 1] == '\n');
        }
    }
}

/// A part of a text without line feeds has none.
proof fn lemma_part_no_feed(s: Seq<char>, i: int, j: int)
    requires
        !s.contains('\n'),
        0 <= i <= j <= s.len(),
    ensures
        !s.subrange(i, j).contains('\n'),
{
    let part = s.subrange(i, j);
    assert forall|k: int| 0 <= k < part.len() implies part[k] != '\n' by {
        assert(s.contains(s[i + k]));
    }
}

/// The extra and the marker of a section line hold no line feed.
proof fn lemma_section_no_feed(line: Seq<char>)
    requires
        !line.contains('\n'),
    ensures
        match egg::section_of(line) {
            Some(section) => !egg::section_parts(section).0.contains('\n') && !egg::section_parts(
                section,
            ).1.contains('\n'),
            None => true,
        },
{
    if let Some(section) = egg::section_of(line) {
        let n = "["@.len() as int;
        let m = line.len() - "]"@.len();
        assert(section =~= line.subrange(n, m));
        lemma_part_no_feed(line, n, m);
        text::lemma_find_from(section, ":"@, 0);
        if let Some(i) = text::find(section, ":"@) {
            let k = i + ":"@.len();
            assert(section.take(i) =~= section.subrange(0, i));
            assert(section.skip(k) =~= section.subrange(k, section.len() as int));
            lemma_part_no_feed(section, 0, i);
            lemma_part_no_feed(section, k, section.len() as int);
        }
    }
}

/// The field for a dependency is one line.
proof fn lemma_dependency_field(line: Seq<char>, extra: Seq<char>, marker: Seq<char>)
    requires
        !line.contains('\n'),
        !extra.contains('\n'),
        !marker.contains('\n'),
    ensures
        has_no_blank_line(egg::dependency_field(line, extra, marker)),
{
    reveal_strlit("Requires-Dist: ");
    reveal_strlit(" ; ");
    reveal_strlit(" and ");
    reveal_strlit("extra == '");
    reveal_strlit("'");
    reveal_strlit("(");
    reveal_strlit(")");
    reveal_strlit("\n");
    let cond = egg::condition(extra, marker);
    let by_extra = "extra == '"@ + extra + "'"@;
    text::lemma_add_contains("extra == '"@, extra, '\n');
    text::lemma_add_contains("extra == '"@ + extra, "'"@, '\n');
    text::lemma_add_contains("("@, marker, '\n');
    text::lemma_add_contains("("@ + marker, ")"@, '\n');
    text::lemma_add_contains(egg::operand(marker), " and "@, '\n');
    text::lemma_add_contains(egg::operand(marker) + " and "@, by_extra, '\n');
    let plain = "Requires-Dist: "@ + line;
    text::lemma_add_contains("Requires-Dist: "@, line, '\n');
    text::lemma_add_contains(plain, " ; "@, '\n');
    text::lemma_add_contains(plain + " ; "@, cond, '\n');
    if cond.len() == 0 {
        lemma_no_blank_line_one(plain);
        assert(egg::dependency_field(line, extra, marker) =~= plain.push('\n'));
    } else {
        lemma_no_blank_line_one(plain + " ; "@ + cond);
        assert(egg::dependency_field(line, extra, marker) =~= (plain + " ; "@ + cond).push('\n'));
    }
}

/// A dependency of a section with an extra is needed only with that extra: its condition is the
/// extra alone, or the section's marker and the extra, the marker in brackets where an `or` that
/// is in none would let it stand without the extra.
pub proof fn lemma_extra_scopes(extra: Seq<char>, marker: Seq<char>)
    requires
        extra.len() > 0,
    ensures
        ({
            let by_extra = "extra == '"@ + extra + "'"@;
            if marker.len() == 0 {
                egg::condition(extra, marker) == by_extra
            } else if egg::holds_or(marker) {
                egg::condition(extra, marker) == "("@ + marker + ")"@ + " and "@ + by_extra
            } else {
                egg::condition(extra, marker) == marker + " and "@ + by_extra
            }
        }),
{
}

/// The fields for lines without line feeds are whole lines, none of them blank.
proof fn lemma_fields_in(lines: Seq<Seq<char>>, extra: Seq<char>, marker: Seq<char>)
    requires
        forall|i: int| 0 <= i < lines.len() ==> !(#[trigger] lines[i]).contains('\n'),
        !extra.contains('\n'),
        !marker.contains('\n'),
    ensures
        has_no_blank_line(egg::fields_in(lines, extra, marker)),
    decreases lines.len(),
{
    if lines.len() > 0 {
        let line = text::trim(lines[0]);
        let rest = lines.skip(1);
        text::lemma_trim(lines[0]);
        assert(!lines[0].contains('\n'));
        assert forall|i: int| 0 <= i < rest.len() implies !(#[trigger] rest[i]).contains('\n') by {
            assert(rest[i] == lines[i + 1]);
        }
        if line.len() == 0 {
            lemma_fields_in(rest, extra, marker);
        } else {
            match egg::section_of(line) {
                Some(section) => {
                    let (e, m) = egg::section_parts(section);
                    lemma_section_no_feed(line);
                    lemma_fields_in(rest, e, m);
                    reveal_strlit("Provides-Extra: ");
                    reveal_strlit("\n");
                    text::lemma_add_contains("Provides-Extra: "@, e, '\n');
                    lemma_no_blank_line_one("Provides-Extra: "@ + e);
                    if e.len() > 0 {
                        assert(egg::extra_field(e) =~= ("Provides-Extra: "@ + e).push('\n'));
                    }
                    lemma_no_blank_line_append(
                        egg::extra_field(e),
                        egg::fields_in(rest, e, m),
                    );
                },
                None => {
                    lemma_fields_in(rest, extra, marker);
                    lemma_dependency_field(line, extra, marker);
                    lemma_no_blank_line_append(
                        egg::dependency_field(line, extra, marker),
                        egg::fields_in(rest, extra, marker),
                    );
                },
            }
        }
    }
}

/// The fields for a `requires.txt` are whole lines, none of them blank.
pub proof fn lemma_fields_have_no_blank_line(listing: Seq<char>)
    ensures
        has_no_blank_line(egg::requires_fields(listing)),
{
    text::lemma_lines_hold_no_feed(listing);
    lemma_fields_in(text::lines(listing), seq![], seq![]);
}

/// What is found as the first blank line is the first.
proof fn lemma_blank_from(s: Seq<char>, p: int)
    requires
        0 <= p,
    ensures
        match egg::blank_from(s, p) {
            Some(q) => p <= q && egg::blank_at(s, q) && forall|k: int|
                p <= k < q ==> !egg::blank_at(s, k),
            None => forall|k: int| p <= k ==> !egg::blank_at(s, k),
        },
    decreases s.len() - p,
{
    if p < s.len() && !egg::blank_at(s, p) {
        lemma_blank_from(s, p + 1);
    }
}

/// Fields go to the end of the headers: what stood before the first blank line comes first,
/// then the fields, and the first blank line, with the description after it, follows them.
pub proof fn lemma_fields_end_headers(metadata: Seq<char>, listing: Seq<char>)
    requires
        egg::first_blank(metadata) is Some,
    ensures
        ({
            let fields = egg::requires_fields(listing);
            let p = egg::first_blank(metadata)->0;
            let merged = egg::with_fields(metadata, fields);
            &&& merged.take(p) == metadata.take(p)
            &&& merged.subrange(p, p + fields.len()) == fields
            &&& egg::first_blank(merged) == Some(p + fields.len())
            &&& merged.skip(p + fields.len()) == metadata.skip(p)
        }),
{
    let fields = egg::requires_fields(listing);
    let p = egg::first_blank(metadata)->0;
    let merged = egg::with_fields(metadata, fields);
    let n = fields.len() as int;
    lemma_fields_have_no_blank_line(listing);
    lemma_blank_from(metadata, 0);
    lemma_blank_from(merged, 0);
    assert(merged.take(p) =~= metadata.take(p));
    assert(merged.subrange(p, p + n) =~= fields);
    assert(merged.skip(p + n) =~= metadata.skip(p));
    assert(egg::blank_at(merged, p + n)) by {
        assert(merged[p + n] == metadata[p]);
        if n > 0 {
            assert(merged[p + n - 1] == fields[n - 1]);
        } else if p > 0 {
            assert(merged[p - 1] == metadata[p - 1]);
        }
        if p + 1 < metadata.len() {
            assert(merged[p + n + 1] == metadata[p + 1]);
        }
    }
    assert forall|k: int| 0 <= k < p + n implies !egg::blank_at(merged, k) by {
        if egg::blank_at(merged, k) {
            if k < p {
                assert(merged[k] == metadata[k]);
                if k > 0 {
                    assert(merged[k - 1] == metadata[k - 1]);
                }
                if k + 1 < p {
                    assert(merged[k + 1] == metadata[k + 1]);
                } else {
                    assert(metadata[p - 1] == '\n');
                }
                assert(egg::blank_at(metadata, k));
            } else {
                assert(merged[k] == fields[k - p]);
                if k > p {
                    assert(merged[k - 1] == fields[k - 1 - p]);
                }
                if k + 1 < p + n {
                    assert(merged[k + 1] == fields[k + 1 - p]);
                } else {
                    assert(fields[n - 1] == '\n');
                }
                assert(egg::blank_at(fields, k - p));
            }
        }
    }
}

} // verus!
