//! What becomes of each line of a `requires.txt`, and where the fields go.
use crate::egg;
use crate::laws::texts;
use crate::text;
use vstd::prelude::*;

verus! {

// ---------------------------------------------------------------------------
// Lines
// ---------------------------------------------------------------------------

/// A listing begins outside of any section.
pub proof fn lemma_listing(listing: Seq<char>)
    ensures
        egg::requires_fields(listing) == egg::fields_in(
            text::lines(listing),
            Seq::<char>::empty(),
            Seq::<char>::empty(),
        ),
        egg::fields_in(Seq::<Seq<char>>::empty(), seq![], seq![]) == Seq::<char>::empty(),
{
}

/// Lines one after the other.
proof fn lemma_cons(line: Seq<char>, rest: Seq<Seq<char>>)
    ensures
        (seq![line] + rest).len() > 0,
        (seq![line] + rest)[0] == line,
        (seq![line] + rest).skip(1) == rest,
{
    assert((seq![line] + rest).skip(1) =~= rest);
}

/// A line of whitespace counts for nothing.
pub proof fn lemma_blank_line(
    line: Seq<char>,
    rest: Seq<Seq<char>>,
    extra: Seq<char>,
    marker: Seq<char>,
)
    requires
        text::trim(line).len() == 0,
    ensures
        egg::fields_in(seq![line] + rest, extra, marker) == egg::fields_in(rest, extra, marker),
        egg::fields_in(Seq::<Seq<char>>::empty(), extra, marker) == Seq::<char>::empty(),
{
    lemma_cons(line, rest);
}

/// What stands between the brackets of a section line.
proof fn lemma_section(inner: Seq<char>)
    ensures
        egg::section_of("["@ + inner + "]"@) == Some(inner),
        ("["@ + inner + "]"@).len() > 0,
{
    reveal_strlit("[");
    reveal_strlit("]");
    let line = "["@ + inner + "]"@;
    assert(line.take(1) =~= "["@);
    let rest = line.skip(1);
    assert(rest =~= inner + "]"@);
    assert(rest.skip(rest.len() - 1) =~= "]"@);
    assert(rest.take(rest.len() - 1) =~= inner);
}

/// A section line `[extra:marker]` provides the extra, and what follows is of that section.
pub proof fn lemma_section_with_marker(
    line: Seq<char>,
    e: Seq<char>,
    m: Seq<char>,
    rest: Seq<Seq<char>>,
    extra: Seq<char>,
    marker: Seq<char>,
)
    requires
        text::trim(line) == "["@ + e + ":"@ + m + "]"@,
        !e.contains(':'),
    ensures
        egg::fields_in(seq![line] + rest, extra, marker) == (if e.len() == 0 {
            Seq::<char>::empty()
        } else {
            "Provides-Extra: "@ + e + "\n"@
        }) + egg::fields_in(rest, e, m),
{
    lemma_cons(line, rest);
    reveal_strlit(":");
    let inner = e + ":"@ + m;
    assert("["@ + e + ":"@ + m + "]"@ =~= "["@ + inner + "]"@);
    lemma_section(inner);
    assert(":"@ =~= seq![':']);
    texts::lemma_split_once_char(e, ':', m);
}

/// A section line `[extra]` provides the extra, and what follows is of that section.
pub proof fn lemma_section_without_marker(
    line: Seq<char>,
    e: Seq<char>,
    rest: Seq<Seq<char>>,
    extra: Seq<char>,
    marker: Seq<char>,
)
    requires
        text::trim(line) == "["@ + e + "]"@,
        !e.contains(':'),
    ensures
        egg::fields_in(seq![line] + rest, extra, marker) == (if e.len() == 0 {
            Seq::<char>::empty()
        } else {
            "Provides-Extra: "@ + e + "\n"@
        }) + egg::fields_in(rest, e, seq![]),
{
    lemma_cons(line, rest);
    lemma_section(e);
    reveal_strlit(":");
    assert(":"@ =~= seq![':']);
    text::lemma_find_char(e, ':');
    assert(egg::section_parts(e) == (e, Seq::<char>::empty()));
}

/// Any other line is a dependency, whole: of all where its section names neither an extra nor a
/// marker, and else under the condition of the marker, of the extra, or of both.
pub proof fn lemma_dependency_line(
    line: Seq<char>,
    rest: Seq<Seq<char>>,
    extra: Seq<char>,
    marker: Seq<char>,
)
    requires
        text::trim(line).len() > 0,
        forall|inner: Seq<char>| text::trim(line) != #[trigger] ("["@ + inner + "]"@),
    ensures
        egg::fields_in(seq![line] + rest, extra, marker) == "Requires-Dist: "@ + text::trim(line)
            + (if extra.len() == 0 && marker.len() == 0 {
            Seq::<char>::empty()
        } else if extra.len() == 0 {
            " ; "@ + marker
        } else if marker.len() == 0 {
            " ; extra == '"@ + extra + "'"@
        } else {
            " ; "@ + egg::operand(marker) + " and extra == '"@ + extra + "'"@
        }) + "\n"@ + egg::fields_in(rest, extra, marker),
{
    lemma_cons(line, rest);
    let wanted = text::trim(line);
    assert(egg::section_of(wanted) is None) by {
        if egg::section_of(wanted) is Some {
            texts::lemma_starts_with(wanted, "["@);
            let after = text::strip_prefix(wanted, "["@)->0;
            texts::lemma_ends_with(after, "]"@);
            let inner = text::strip_suffix(after, "]"@)->0;
            assert(wanted =~= "["@ + inner + "]"@);
        }
    }
    reveal_strlit(" ; ");
    reveal_strlit(" ; extra == '");
    reveal_strlit("extra == '");
    reveal_strlit(" and ");
    reveal_strlit(" and extra == '");
    reveal_strlit("'");
    let tail = if extra.len() == 0 && marker.len() == 0 {
        Seq::<char>::empty()
    } else if extra.len() == 0 {
        " ; "@ + marker
    } else if marker.len() == 0 {
        " ; extra == '"@ + extra + "'"@
    } else {
        " ; "@ + egg::operand(marker) + " and extra == '"@ + extra + "'"@
    };
    assert(egg::dependency_field(wanted, extra, marker) =~= "Requires-Dist: "@ + wanted + tail
        + "\n"@);
}

/// One dependency, and nothing else, is one field.
pub proof fn lemma_one_dependency(line: Seq<char>)
    requires
        text::trim(line) == line,
        line.len() > 0,
        !line.contains('\n'),
        forall|inner: Seq<char>| line != #[trigger] ("["@ + inner + "]"@),
    ensures
        egg::requires_fields(line) == "Requires-Dist: "@ + line + "\n"@,
        egg::requires_fields(line + "\n"@) == "Requires-Dist: "@ + line + "\n"@,
{
    reveal_strlit("\n");
    let none = Seq::<Seq<char>>::empty();
    texts::lemma_lines_cons(line, seq![]);
    assert(line.last() != '\r') by {
        text::lemma_trim(line);
    }
    assert(line + seq!['\n'] + Seq::<char>::empty() =~= line + "\n"@);
    assert(text::lines(seq![]) =~= none);
    assert(seq![line] + none =~= seq![line]);
    lemma_dependency_line(line, none, seq![], seq![]);
    assert(egg::fields_in(none, seq![], seq![]) =~= seq![]);
    assert(egg::requires_fields(line) =~= "Requires-Dist: "@ + line + "\n"@);
}

/// Every dependency of a listing stands whole in the fields.
pub proof fn lemma_every_dependency(
    lines: Seq<Seq<char>>,
    extra: Seq<char>,
    marker: Seq<char>,
    i: int,
)
    requires
        0 <= i < lines.len(),
        text::trim(lines[i]).len() > 0,
        forall|inner: Seq<char>| text::trim(lines[i]) != #[trigger] ("["@ + inner + "]"@),
    ensures
        exists|a: Seq<char>, b: Seq<char>|
            {
                &&& egg::fields_in(lines, extra, marker) == #[trigger] (a + (
                "Requires-Dist: "@ + text::trim(lines[i])) + b)
                &&& text::starts_with(b, "\n"@) || text::starts_with(b, " ; "@)
            },
    decreases i,
{
    let line = lines[0];
    let rest = lines.skip(1);
    assert(lines =~= seq![line] + rest);
    let wanted = text::trim(lines[i]);
    if i == 0 {
        lemma_dependency_line(line, rest, extra, marker);
        let tail = if extra.len() == 0 && marker.len() == 0 {
            Seq::<char>::empty()
        } else if extra.len() == 0 {
            " ; "@ + marker
        } else if marker.len() == 0 {
            " ; extra == '"@ + extra + "'"@
        } else {
            " ; "@ + egg::operand(marker) + " and extra == '"@ + extra + "'"@
        };
        let b = tail + "\n"@ + egg::fields_in(rest, extra, marker);
        reveal_strlit(" ; ");
        reveal_strlit(" ; extra == '");
        reveal_strlit("\n");
        if extra.len() == 0 && marker.len() == 0 {
            assert(b.take(1) =~= "\n"@);
        } else {
            assert(b.take(3) =~= " ; "@);
        }
        assert(egg::fields_in(lines, extra, marker) =~= Seq::<char>::empty() + (
        "Requires-Dist: "@ + wanted) + b);
    } else {
        assert(rest[i - 1] == lines[i]);
        let first = text::trim(line);
        let (e, m) = if first.len() > 0 && egg::section_of(first) is Some {
            egg::section_parts(egg::section_of(first)->0)
        } else {
            (extra, marker)
        };
        lemma_every_dependency(rest, e, m, i - 1);
        let after = egg::fields_in(rest, e, m);
        let (a, b) = choose|a: Seq<char>, b: Seq<char>|
            {
                &&& after == #[trigger] (a + ("Requires-Dist: "@ + wanted) + b)
                &&& text::starts_with(b, "\n"@) || text::starts_with(b, " ; "@)
            };
        let before = if first.len() == 0 {
            Seq::<char>::empty()
        } else if egg::section_of(first) is Some {
            egg::extra_field(e)
        } else {
            egg::dependency_field(first, extra, marker)
        };
        assert(egg::fields_in(lines, extra, marker) =~= before + after);
        assert(before + after =~= (before + a) + ("Requires-Dist: "@ + wanted) + b);
    }
}

// ---------------------------------------------------------------------------
// Markers beside an extra
// ---------------------------------------------------------------------------

/// No character of the text opens or closes brackets or quotes.
pub open spec fn is_flat(s: Seq<char>) -> bool {
    !s.contains('(') && !s.contains(')') && !s.contains('\'') && !s.contains('"')
}

/// A marker in which `or` stands nowhere gets no brackets.
pub proof fn lemma_no_or(marker: Seq<char>)
    requires
        forall|x: Seq<char>, y: Seq<char>| marker != #[trigger] (x + "or"@ + y),
    ensures
        egg::operand(marker) == marker,
{
    if egg::holds_or(marker) {
        let i = choose|i: int| egg::or_at(marker, i);
        texts::lemma_occurs_at_is(marker, "or"@, i);
        assert(marker == marker.take(i) + "or"@ + marker.skip(i + "or"@.len()));
    }
}

/// The nesting of a flat beginning.
proof fn lemma_flat_nesting(x: Seq<char>, y: Seq<char>, i: int)
    requires
        is_flat(x),
        0 <= i <= x.len(),
    ensures
        egg::is_outermost(x + y, i),
    decreases i,
{
    if i > 0 {
        lemma_flat_nesting(x, y, i - 1);
        let c = (x + y)[i - 1];
        assert(c == x[i - 1]);
        assert(x.contains(c));
    }
}

/// An `or` that no brackets or quotes come before puts the marker in brackets.
pub proof fn lemma_open_or(x: Seq<char>, y: Seq<char>)
    requires
        is_flat(x),
    ensures
        egg::operand(x + " or "@ + y) == "("@ + (x + " or "@ + y) + ")"@,
{
    reveal_strlit(" or ");
    reveal_strlit("or");
    let marker = x + " or "@ + y;
    let start = x.push(' ');
    let i = start.len() as int;
    assert(is_flat(start)) by {
        assert(start =~= x + seq![' ']);
        text::lemma_add_contains(x, seq![' '], '(');
        text::lemma_add_contains(x, seq![' '], ')');
        text::lemma_add_contains(x, seq![' '], '\'');
        text::lemma_add_contains(x, seq![' '], '"');
    }
    assert(marker =~= start + ("or "@ + y)) by {
        reveal_strlit("or ");
    }
    lemma_flat_nesting(start, "or "@ + y, i);
    assert(marker.subrange(i, i + 2) =~= "or"@);
    assert(marker[i - 1] == ' ');
    assert(marker[i + 2] == ' ');
    assert(egg::or_at(marker, i));
}

/// The character belongs to a word: a letter, a digit, or an underscore.
pub open spec fn in_word(c: char) -> bool {
    ('a' <= c && c <= 'z') || ('A' <= c && c <= 'Z') || ('0' <= c && c <= '9') || c == '_'
}

/// A marker in which `or` only stands as a part of other words gets no brackets.
pub proof fn lemma_or_in_words(marker: Seq<char>)
    requires
        forall|x: Seq<char>, y: Seq<char>|
            marker == #[trigger] (x + "or"@ + y) ==> (x.len() > 0 && in_word(x.last())) || (y.len()
                > 0 && in_word(y[0])),
    ensures
        egg::operand(marker) == marker,
{
    reveal_strlit("or");
    if egg::holds_or(marker) {
        let i = choose|i: int| egg::or_at(marker, i);
        texts::lemma_occurs_at_is(marker, "or"@, i);
        let x = marker.take(i);
        let y = marker.skip(i + 2);
        assert(marker == x + "or"@ + y);
        if x.len() > 0 {
            assert(x.last() == marker[i - 1]);
        }
        if y.len() > 0 {
            assert(y[0] == marker[i + 2]);
        }
    }
}

/// A marker in which `or` stands as a word, after a beginning without brackets and quotes, is put
/// in brackets.
pub proof fn lemma_or_as_word(x: Seq<char>, y: Seq<char>)
    requires
        is_flat(x),
        x.len() == 0 || !in_word(x.last()),
        y.len() == 0 || !in_word(y[0]),
    ensures
        egg::operand(x + "or"@ + y) == "("@ + (x + "or"@ + y) + ")"@,
{
    reveal_strlit("or");
    let marker = x + "or"@ + y;
    let i = x.len() as int;
    assert(marker =~= x + ("or"@ + y));
    lemma_flat_nesting(x, "or"@ + y, i);
    assert(marker.subrange(i, i + 2) =~= "or"@);
    if i > 0 {
        assert(marker[i - 1] == x.last());
    }
    if i + 2 < marker.len() {
        assert(marker[i + 2] == y[0]);
    }
    assert(egg::or_at(marker, i));
}

/// A marker that is in brackets as it is gets no more of them.
pub proof fn lemma_bracketed_or(x: Seq<char>)
    requires
        is_flat(x),
    ensures
        egg::operand("("@ + x + ")"@) == "("@ + x + ")"@,
{
    reveal_strlit("(");
    reveal_strlit(")");
    reveal_strlit("or");
    let marker = "("@ + x + ")"@;
    if egg::holds_or(marker) {
        let i = choose|i: int| egg::or_at(marker, i);
        let here = marker.subrange(i, i + 2);
        assert(here[0] == marker[i] && here[1] == marker[i + 1]);
        assert(i > 0);
        lemma_inside_brackets(x, i);
    }
}

proof fn lemma_inside_brackets(x: Seq<char>, i: int)
    requires
        is_flat(x),
        1 <= i <= x.len() + 1,
    ensures
        egg::nesting_at("("@ + x + ")"@, i).depth == 1,
        egg::nesting_at("("@ + x + ")"@, i).quote is None,
    decreases i,
{
    reveal_strlit("(");
    let marker = "("@ + x + ")"@;
    if i == 1 {
        assert(marker[0] == '(');
        assert(egg::nesting_at(marker, 0).depth == 0);
    } else {
        lemma_inside_brackets(x, i - 1);
        let c = marker[i - 1];
        assert(c == x[i - 2]);
        assert(x.contains(c));
    }
}

/// An `or` in quotes is no word of the marker.
pub proof fn lemma_quoted_or(x: Seq<char>, y: Seq<char>, q: char)
    requires
        is_flat(x),
        q == '\'' || q == '"',
        !y.contains(q),
        forall|a: Seq<char>, b: Seq<char>| x != #[trigger] (a + "or"@ + b),
    ensures
        egg::operand(x + seq![q] + y + seq![q]) == x + seq![q] + y + seq![q],
{
    reveal_strlit("or");
    let marker = x + seq![q] + y + seq![q];
    let n = x.len() as int;
    if egg::holds_or(marker) {
        let i = choose|i: int| egg::or_at(marker, i);
        let here = marker.subrange(i, i + 2);
        assert(here[0] == marker[i] && here[1] == marker[i + 1]);
        if i + 1 < n {
            assert(x.subrange(i, i + 2) =~= here);
            texts::lemma_occurs_at_is(x, "or"@, i);
            assert(x == x.take(i) + "or"@ + x.skip(i + 2));
        } else if i + 1 == n {
            assert(marker[n] == q);
        } else if i == n {
        } else {
            lemma_inside_quotes(x, y, q, i);
        }
    }
}

proof fn lemma_inside_quotes(x: Seq<char>, y: Seq<char>, q: char, i: int)
    requires
        is_flat(x),
        q == '\'' || q == '"',
        !y.contains(q),
        x.len() < i <= x.len() + y.len() + 1,
    ensures
        egg::nesting_at(x + seq![q] + y + seq![q], i).quote == Some(q),
    decreases i,
{
    let marker = x + seq![q] + y + seq![q];
    let n = x.len() as int;
    if i == n + 1 {
        assert(marker =~= x + (seq![q] + y + seq![q]));
        lemma_flat_nesting(x, seq![q] + y + seq![q], n);
        assert(marker[n] == q);
    } else {
        lemma_inside_quotes(x, y, q, i - 1);
        let c = marker[i - 1];
        assert(c == y[i - 2 - n]);
        assert(y.contains(c));
    }
}

// ---------------------------------------------------------------------------
// Where the fields go
// ---------------------------------------------------------------------------

/// Text without brackets and quotes changes no nesting outside of quotes.
proof fn lemma_flat_part(marker: Seq<char>, i: int, j: int)
    requires
        0 <= i <= j <= marker.len(),
        is_flat(marker.subrange(i, j)),
        egg::nesting_at(marker, i).quote is None,
    ensures
        egg::nesting_at(marker, j) == egg::nesting_at(marker, i),
    decreases j - i,
{
    if i < j {
        let part = marker.subrange(i, j);
        let shorter = marker.subrange(i, j - 1);
        assert(part =~= shorter + seq![marker[j - 1]]);
        text::lemma_add_contains(shorter, seq![marker[j - 1]], '(');
        text::lemma_add_contains(shorter, seq![marker[j - 1]], ')');
        text::lemma_add_contains(shorter, seq![marker[j - 1]], '\'');
        text::lemma_add_contains(shorter, seq![marker[j - 1]], '"');
        assert(part.contains(part[j - 1 - i]));
        lemma_flat_part(marker, i, j - 1);
    }
}

/// Text without the quote changes no nesting inside of quotes.
proof fn lemma_quoted_part(marker: Seq<char>, i: int, j: int, q: char)
    requires
        0 <= i <= j <= marker.len(),
        !marker.subrange(i, j).contains(q),
        egg::nesting_at(marker, i).quote == Some(q),
    ensures
        egg::nesting_at(marker, j) == egg::nesting_at(marker, i),
    decreases j - i,
{
    if i < j {
        let part = marker.subrange(i, j);
        let shorter = marker.subrange(i, j - 1);
        assert(part =~= shorter + seq![marker[j - 1]]);
        text::lemma_add_contains(shorter, seq![marker[j - 1]], q);
        assert(part.contains(part[j - 1 - i]));
        lemma_quoted_part(marker, i, j - 1, q);
    }
}

/// An `or` that stands as a word at an outermost place brings brackets.
proof fn lemma_outermost_or(before: Seq<char>, after: Seq<char>)
    requires
        egg::is_outermost(before + " or "@ + after, before.len() as int),
    ensures
        egg::operand(before + " or "@ + after) == "("@ + (before + " or "@ + after) + ")"@,
{
    reveal_strlit(" or ");
    reveal_strlit("or");
    let marker = before + " or "@ + after;
    let i = before.len() as int + 1;
    assert(marker[i - 1] == ' ');
    assert(egg::nesting_at(marker, i) == egg::nested(egg::nesting_at(marker, i - 1), ' '));
    assert(marker.subrange(i, i + 2) =~= "or"@);
    assert(marker[i + 2] == ' ');
    assert(egg::or_at(marker, i));
}

/// What stands in brackets that are closed again does not hide an `or` after them.
pub proof fn lemma_or_after_brackets(w: Seq<char>, x: Seq<char>, y: Seq<char>, z: Seq<char>)
    requires
        is_flat(w),
        is_flat(x),
        is_flat(y),
    ensures
        egg::operand(w + "("@ + x + ")"@ + y + " or "@ + z) == "("@ + (w + "("@ + x + ")"@ + y
            + " or "@ + z) + ")"@,
{
    reveal_strlit("(");
    reveal_strlit(")");
    let before = w + "("@ + x + ")"@ + y;
    let marker = before + " or "@ + z;
    let a = w.len() as int;
    let b = a + 1 + x.len();
    let c = before.len() as int;
    assert(marker.subrange(0, a) =~= w);
    lemma_flat_part(marker, 0, a);
    assert(marker[a] == '(');
    assert(egg::nesting_at(marker, a + 1).depth == 1);
    assert(marker.subrange(a + 1, b) =~= x);
    lemma_flat_part(marker, a + 1, b);
    assert(marker[b] == ')');
    assert(egg::nesting_at(marker, b + 1).depth == 0);
    assert(marker.subrange(b + 1, c) =~= y);
    lemma_flat_part(marker, b + 1, c);
    lemma_outermost_or(before, z);
}

/// A closing bracket that nothing opened does not hide an `or` after it.
pub proof fn lemma_or_after_stray_bracket(x: Seq<char>, y: Seq<char>, z: Seq<char>)
    requires
        is_flat(x),
        is_flat(y),
    ensures
        egg::operand(x + ")"@ + y + " or "@ + z) == "("@ + (x + ")"@ + y + " or "@ + z) + ")"@,
{
    reveal_strlit(")");
    let before = x + ")"@ + y;
    let marker = before + " or "@ + z;
    let a = x.len() as int;
    let c = before.len() as int;
    assert(marker.subrange(0, a) =~= x);
    lemma_flat_part(marker, 0, a);
    assert(marker[a] == ')');
    assert(egg::nesting_at(marker, a + 1) == egg::nesting_at(marker, a));
    assert(marker.subrange(a + 1, c) =~= y);
    lemma_flat_part(marker, a + 1, c);
    lemma_outermost_or(before, z);
}

/// What stands in quotes that are closed again, brackets and other quotes too, does not hide an
/// `or` after them.
pub proof fn lemma_or_after_quotes(
    w: Seq<char>,
    x: Seq<char>,
    y: Seq<char>,
    z: Seq<char>,
    q: char,
)
    requires
        is_flat(w),
        q == '\'' || q == '"',
        !x.contains(q),
        is_flat(y),
    ensures
        egg::operand(w + seq![q] + x + seq![q] + y + " or "@ + z) == "("@ + (w + seq![q] + x
            + seq![q] + y + " or "@ + z) + ")"@,
{
    let before = w + seq![q] + x + seq![q] + y;
    let marker = before + " or "@ + z;
    let a = w.len() as int;
    let b = a + 1 + x.len();
    let c = before.len() as int;
    assert(marker.subrange(0, a) =~= w);
    lemma_flat_part(marker, 0, a);
    assert(marker[a] == q);
    assert(egg::nesting_at(marker, a + 1).quote == Some(q));
    assert(marker.subrange(a + 1, b) =~= x);
    lemma_quoted_part(marker, a + 1, b, q);
    assert(marker[b] == q);
    assert(egg::nesting_at(marker, b + 1) == egg::nesting_at(marker, a));
    assert(marker.subrange(b + 1, c) =~= y);
    lemma_flat_part(marker, b + 1, c);
    lemma_outermost_or(before, z);
}

/// A marker in brackets gets no others, though there are brackets in it.
pub proof fn lemma_brackets_in_brackets(x: Seq<char>, y: Seq<char>, z: Seq<char>)
    requires
        is_flat(x),
        is_flat(y),
        is_flat(z),
    ensures
        egg::operand("("@ + x + "("@ + y + ")"@ + z + ")"@) == "("@ + x + "("@ + y + ")"@ + z
            + ")"@,
{
    reveal_strlit("(");
    reveal_strlit(")");
    reveal_strlit("or");
    let marker = "("@ + x + "("@ + y + ")"@ + z + ")"@;
    let a = 1 + x.len() as int;
    let b = a + 1 + y.len();
    let n = marker.len() as int;
    if egg::holds_or(marker) {
        let i = choose|i: int| egg::or_at(marker, i);
        let here = marker.subrange(i, i + 2);
        assert(here[0] == marker[i] && here[1] == marker[i + 1]);
        assert(marker[0] == '(' && marker[a] == '(' && marker[b] == ')');
        assert(egg::nesting_at(marker, 0).depth == 0);
        assert(egg::nesting_at(marker, 1).depth == 1);
        assert(marker.subrange(1, a) =~= x);
        assert(marker.subrange(a + 1, b) =~= y);
        assert(marker.subrange(b + 1, n - 1) =~= z);
        lemma_flat_part(marker, 1, a);
        assert(egg::nesting_at(marker, a + 1).depth == 2);
        lemma_flat_part(marker, a + 1, b);
        assert(egg::nesting_at(marker, b + 1).depth == 1);
        if i <= a {
            assert(i > 0);
            lemma_flat_piece(marker, 1, i, a);
            lemma_flat_part(marker, 1, i);
        } else if i <= b {
            lemma_flat_piece(marker, a + 1, i, b);
            lemma_flat_part(marker, a + 1, i);
        } else {
            assert(i <= n - 2);
            lemma_flat_piece(marker, b + 1, i, n - 1);
            lemma_flat_part(marker, b + 1, i);
        }
    }
}

/// A beginning of a flat part is flat.
proof fn lemma_flat_piece(marker: Seq<char>, i: int, k: int, j: int)
    requires
        0 <= i <= k <= j <= marker.len(),
        is_flat(marker.subrange(i, j)),
    ensures
        is_flat(marker.subrange(i, k)),
{
    let a = marker.subrange(i, k);
    let b = marker.subrange(k, j);
    assert(marker.subrange(i, j) =~= a + b);
    text::lemma_add_contains(a, b, '(');
    text::lemma_add_contains(a, b, ')');
    text::lemma_add_contains(a, b, '\'');
    text::lemma_add_contains(a, b, '"');
}

/// A line begins at the position and holds nothing, or a carriage return alone.
pub open spec fn begins_blank(s: Seq<char>, k: int) -> bool {
    &&& 0 <= k < s.len()
    &&& k == 0 || s[k - 1] == '\n'
    &&& s[k] == '\n' || (s[k] == '\r' && (k + 1 == s.len() || s[k + 1] == '\n'))
}

/// No line of the text is blank, and each ends with a line feed.
pub open spec fn is_headers(s: Seq<char>) -> bool {
    (s.len() == 0 || s.last() == '\n') && forall|k: int| !#[trigger] begins_blank(s, k)
}

/// Fields go between the headers and the first blank line.
pub proof fn lemma_fields_after_headers(
    headers: Seq<char>,
    description: Seq<char>,
    fields: Seq<char>,
)
    requires
        is_headers(headers),
        text::starts_with(description, "\n"@) || text::starts_with(description, "\r\n"@)
            || description == "\r"@,
    ensures
        egg::with_fields(headers + description, fields) == headers + fields + description,
{
    reveal_strlit("\n");
    reveal_strlit("\r\n");
    reveal_strlit("\r");
    let all = headers + description;
    let n = headers.len() as int;
    if text::starts_with(description, "\n"@) {
        assert(description[0] == description.take(1)[0]);
    } else if text::starts_with(description, "\r\n"@) {
        assert(description[0] == description.take(2)[0]);
        assert(description[1] == description.take(2)[1]);
    }
    assert(egg::blank_at(all, n));
    assert forall|k: int| 0 <= k < n implies !egg::blank_at(all, k) by {
        if egg::blank_at(all, k) {
            if k + 1 == n {
                assert(headers[k] == headers.last());
            }
            assert(begins_blank(headers, k));
        }
    }
    lemma_first_blank(all, 0, n);
    assert(all.take(n) =~= headers);
    assert(all.skip(n) =~= description);
}

/// A blank line before which there is none is what is found.
proof fn lemma_first_blank(s: Seq<char>, p: int, n: int)
    requires
        0 <= p <= n,
        egg::blank_at(s, n),
        forall|k: int| p <= k < n ==> !egg::blank_at(s, k),
    ensures
        egg::blank_from(s, p) == Some(n),
    decreases n - p,
{
    if p < n {
        lemma_first_blank(s, p + 1, n);
    }
}

/// Where there is no blank line, the fields come last, on lines of their own.
pub proof fn lemma_fields_come_last(metadata: Seq<char>, fields: Seq<char>)
    requires
        forall|k: int| !#[trigger] begins_blank(metadata, k),
    ensures
        egg::with_fields(metadata, fields) == if metadata.len() > 0 && metadata.last() == '\n' {
            metadata + fields
        } else {
            metadata + "\n"@ + fields
        },
{
    reveal_strlit("\n");
    lemma_no_blank(metadata, 0);
    if text::ends_with(metadata, "\n"@) {
        assert(metadata.last() == metadata.skip(metadata.len() - 1)[0]);
    } else if metadata.len() > 0 && metadata.last() == '\n' {
        assert(metadata.skip(metadata.len() - 1) =~= "\n"@);
    }
}

proof fn lemma_no_blank(s: Seq<char>, p: int)
    requires
        0 <= p,
        forall|k: int| !#[trigger] begins_blank(s, k),
    ensures
        egg::blank_from(s, p) is None,
    decreases s.len() - p,
{
    if p < s.len() {
        assert(!begins_blank(s, p));
        assert(!egg::blank_at(s, p));
        lemma_no_blank(s, p + 1);
    }
}

} // verus!
