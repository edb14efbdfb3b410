//! What searching, splitting, trimming and ordering text come to, in terms of the text alone.
use crate::text;
use vstd::prelude::*;

verus! {

/// A text begins with another where it is that text and something after it.
pub proof fn lemma_starts_with(s: Seq<char>, p: Seq<char>)
    ensures
        text::starts_with(s, p) <==> exists|rest: Seq<char>| s == #[trigger] (p + rest),
        text::starts_with(s, p) ==> (text::strip_prefix(s, p) matches Some(rest) && s == p + rest),
        !text::starts_with(s, p) ==> text::strip_prefix(s, p) is None,
{
    if text::starts_with(s, p) {
        let rest = s.skip(p.len() as int);
        assert(s =~= p + rest);
    }
    if exists|rest: Seq<char>| s == #[trigger] (p + rest) {
        let rest = choose|rest: Seq<char>| s == #[trigger] (p + rest);
        assert(s.take(p.len() as int) =~= p);
    }
}

/// A text ends with another where it is something before it and that text.
pub proof fn lemma_ends_with(s: Seq<char>, p: Seq<char>)
    ensures
        text::ends_with(s, p) <==> exists|rest: Seq<char>| s == #[trigger] (rest + p),
        text::ends_with(s, p) ==> (text::strip_suffix(s, p) matches Some(rest) && s == rest + p),
        !text::ends_with(s, p) ==> text::strip_suffix(s, p) is None,
{
    if text::ends_with(s, p) {
        let rest = s.take(s.len() - p.len());
        assert(s =~= rest + p);
    }
    if exists|rest: Seq<char>| s == #[trigger] (rest + p) {
        let rest = choose|rest: Seq<char>| s == #[trigger] (rest + p);
        assert(s.skip(s.len() - p.len()) =~= p);
    }
}

/// A text stands in another at a position where so many characters come before it.
pub proof fn lemma_occurs_at(a: Seq<char>, p: Seq<char>, b: Seq<char>)
    ensures
        text::occurs_at(a + p + b, p, a.len() as int),
        text::contains(a + p + b, p),
{
    let s = a + p + b;
    assert(s.subrange(a.len() as int, (a.len() + p.len()) as int) =~= p);
}

/// As [`lemma_occurs_at`], the other way round.
pub proof fn lemma_occurs_at_is(s: Seq<char>, p: Seq<char>, i: int)
    requires
        text::occurs_at(s, p, i),
    ensures
        0 <= i,
        i + p.len() <= s.len(),
        s == s.take(i) + p + s.skip(i + p.len()),
{
    assert(s =~= s.take(i) + p + s.skip(i + p.len()));
}

/// What stands before and after the first occurrence makes up the text with it, and none begins
/// before it.
pub proof fn lemma_split_once(s: Seq<char>, p: Seq<char>)
    ensures
        match text::split_once(s, p) {
            Some((a, b)) => s == a + p + b && forall|x: Seq<char>, y: Seq<char>|
                x.len() < a.len() ==> s != #[trigger] (x + p + y),
            None => forall|x: Seq<char>, y: Seq<char>| s != #[trigger] (x + p + y),
        },
{
    text::lemma_find_from(s, p, 0);
    match text::find(s, p) {
        Some(i) => {
            lemma_occurs_at_is(s, p, i);
            assert forall|x: Seq<char>, y: Seq<char>| x.len() < i implies s != #[trigger] (x + p
                + y) by {
                if s == x + p + y {
                    lemma_occurs_at(x, p, y);
                }
            }
        },
        None => {
            assert forall|x: Seq<char>, y: Seq<char>| s != #[trigger] (x + p + y) by {
                if s == x + p + y {
                    lemma_occurs_at(x, p, y);
                }
            }
        },
    }
}

/// A single character splits a text where it first stands.
pub proof fn lemma_split_once_char(a: Seq<char>, c: char, b: Seq<char>)
    requires
        !a.contains(c),
    ensures
        text::split_once(a + seq![c] + b, seq![c]) == Some((a, b)),
{
    let s = a + seq![c] + b;
    text::lemma_find_char(s, c);
    let n = a.len() as int;
    assert(s[n] == c);
    assert forall|k: int| 0 <= k < n implies s[k] != c by {
        assert(a.contains(a[k]));
    }
    assert(s.take(n) =~= a);
    assert(s.skip(n + 1) =~= b);
}

/// A character splits a text where it last stands.
pub proof fn lemma_rsplit_once_char(a: Seq<char>, c: char, b: Seq<char>)
    requires
        !b.contains(c),
    ensures
        text::rsplit_once(a + seq![c] + b, c) == Some((a, b)),
{
    let s = a + seq![c] + b;
    let n = a.len() as int;
    text::lemma_rfind_below(s, c, s.len() as int);
    assert(s[n] == c);
    let j = text::rfind(s, c)->0;
    assert(j == n) by {
        if j > n {
            assert(b[j - n - 1] == c);
            assert(b.contains(b[j - n - 1]));
        }
    }
    assert(s.take(n) =~= a);
    assert(s.skip(n + 1) =~= b);
}

/// A suffix goes as often as it is there.
pub proof fn lemma_trim_end_matches_twice(s: Seq<char>, p: Seq<char>)
    requires
        p.len() > 0,
    ensures
        text::trim_end_matches(s + p, p) == text::trim_end_matches(s, p),
        (forall|rest: Seq<char>| s != #[trigger] (rest + p)) ==> text::trim_end_matches(s, p) == s,
{
    let t = s + p;
    assert(t.skip(t.len() - p.len()) =~= p);
    assert(t.take(t.len() - p.len()) =~= s);
    lemma_ends_with(s, p);
}

/// Whitespace: the control characters from the tab to the carriage return, the space, the next
/// line, and the spaces and separators beyond ASCII.
pub proof fn lemma_whitespace(c: char)
    ensures
        text::is_whitespace(c) <==> ('\t' <= c && c <= '\r') || c == ' ' || c == '\u{85}' || c
            == '\u{a0}' || c == '\u{1680}' || ('\u{2000}' <= c && c <= '\u{200a}') || c
            == '\u{2028}' || c == '\u{2029}' || c == '\u{202f}' || c == '\u{205f}' || c
            == '\u{3000}',
{
}

/// A text is what was trimmed of it, with whitespace before and after, and what was trimmed
/// neither begins nor ends with whitespace.
pub proof fn lemma_trimmed(s: Seq<char>)
    ensures
        exists|a: Seq<char>, b: Seq<char>|
            {
                &&& s == #[trigger] (a + text::trim(s) + b)
                &&& forall|k: int| 0 <= k < a.len() ==> text::is_whitespace(#[trigger] a[k])
                &&& forall|k: int| 0 <= k < b.len() ==> text::is_whitespace(#[trigger] b[k])
            },
        text::trim(s).len() > 0 ==> !text::is_whitespace(text::trim(s)[0])
            && !text::is_whitespace(text::trim(s).last()),
{
    text::lemma_trim(s);
    lemma_trim_start_is(s);
    let t = text::trim_start(s);
    lemma_trim_end_is(t);
    let a = s.take(s.len() - t.len());
    let b = t.skip(text::trim(s).len() as int);
    assert(s =~= a + text::trim(s) + b);
}

proof fn lemma_trim_start_is(s: Seq<char>)
    ensures
        text::trim_start(s).len() <= s.len(),
        text::trim_start(s) == s.skip(s.len() - text::trim_start(s).len()),
        forall|k: int|
            0 <= k < s.len() - text::trim_start(s).len() ==> text::is_whitespace(#[trigger] s[k]),
    decreases s.len(),
{
    if s.len() > 0 && text::is_whitespace(s[0]) {
        let t = s.skip(1);
        lemma_trim_start_is(t);
        let n = text::trim_start(t).len();
        assert(t.skip(t.len() - n) =~= s.skip(s.len() - n));
        assert forall|k: int| 0 <= k < s.len() - n implies text::is_whitespace(
            #[trigger] s[k],
        ) by {
            if k > 0 {
                assert(t[k - 1] == s[k]);
            }
        }
    } else {
        assert(s.skip(0) =~= s);
    }
}

proof fn lemma_trim_end_is(s: Seq<char>)
    ensures
        text::trim_end(s).len() <= s.len(),
        text::trim_end(s) == s.take(text::trim_end(s).len() as int),
        forall|k: int|
            text::trim_end(s).len() <= k < s.len() ==> text::is_whitespace(#[trigger] s[k]),
    decreases s.len(),
{
    if s.len() > 0 && text::is_whitespace(s[s.len() - 1]) {
        let t = s.take(s.len() - 1);
        lemma_trim_end_is(t);
        let n = text::trim_end(t).len() as int;
        assert(t.take(n) =~= s.take(n));
        assert forall|k: int| n <= k < s.len() implies text::is_whitespace(#[trigger] s[k]) by {
            if k < t.len() {
                assert(t[k] == s[k]);
            }
        }
    } else {
        assert(s.take(s.len() as int) =~= s);
    }
}

/// The pieces of a text, with the character between them that it was split at, are the text.
pub proof fn lemma_split_join(s: Seq<char>, c: char)
    ensures
        text::join(text::split(s, c), seq![c]) == s,
        text::split(s, c).len() > 0,
        forall|i: int|
            0 <= i < text::split(s, c).len() ==> !(#[trigger] text::split(s, c)[i]).contains(c),
    decreases s.len(),
{
    text::lemma_split_pieces(s, c);
    text::lemma_find_char(s, c);
    match text::find(s, seq![c]) {
        Some(i) => {
            let first = s.take(i);
            let tail = s.skip(i + 1);
            lemma_split_join(tail, c);
            lemma_join_cons(first, text::split(tail, c), seq![c]);
            assert(s =~= first + seq![c] + tail);
        },
        None => {},
    }
}

/// Joining a piece and more pieces.
pub proof fn lemma_join_cons(first: Seq<char>, rest: Seq<Seq<char>>, sep: Seq<char>)
    requires
        rest.len() > 0,
    ensures
        text::join(seq![first] + rest, sep) == first + sep + text::join(rest, sep),
        text::join(seq![first], sep) == first,
    decreases rest.len(),
{
    let all = seq![first] + rest;
    assert(all.last() == rest.last());
    if rest.len() == 1 {
        assert(all.drop_last() =~= seq![first]);
        assert(text::join(all.drop_last(), sep) == first);
        assert(text::join(rest, sep) == rest[0]);
    } else {
        let head = rest.drop_last();
        lemma_join_cons(first, head, sep);
        assert(all.drop_last() =~= seq![first] + head);
        assert(text::join(all, sep) =~= first + sep + text::join(rest, sep));
    }
}

/// The lines of a text are found one after the other: each goes to a line feed, without the
/// carriage return before that; what is left without a line feed is a line unless it is empty.
pub proof fn lemma_lines_cons(line: Seq<char>, rest: Seq<char>)
    requires
        !line.contains('\n'),
    ensures
        line.len() == 0 || line.last() != '\r' ==> text::lines(line + seq!['\n'] + rest)
            == seq![line] + text::lines(rest),
        text::lines(line + seq!['\r', '\n'] + rest) == seq![line] + text::lines(rest),
        text::lines(line) == if line.len() == 0 {
            Seq::<Seq<char>>::empty()
        } else {
            seq![line]
        },
{
    lemma_lines_first(line, rest);
    let returned = line.push('\r');
    text::lemma_add_contains(line, seq!['\r'], '\n');
    assert(returned =~= line + seq!['\r']);
    lemma_lines_first(returned, rest);
    assert(returned + seq!['\n'] + rest =~= line + seq!['\r', '\n'] + rest);
    assert(text::drop_cr(returned) =~= line);
    text::lemma_find_char(line, '\n');
}

proof fn lemma_lines_first(line: Seq<char>, rest: Seq<char>)
    requires
        !line.contains('\n'),
    ensures
        text::lines(line + seq!['\n'] + rest) == seq![text::drop_cr(line)] + text::lines(rest),
{
    let s = line + seq!['\n'] + rest;
    let n = line.len() as int;
    text::lemma_find_char(s, '\n');
    assert(s[n] == '\n');
    let i = text::find(s, seq!['\n'])->0;
    assert(i == n) by {
        if i < n {
            assert(line.contains(line[i]));
        }
    }
    assert(s.take(n) =~= line);
    assert(s.skip(n + 1) =~= rest);
}

/// Replacing a character changes it wherever it stands, and nothing else.
pub proof fn lemma_replace_char(s: Seq<char>, from: char, to: char)
    ensures
        text::replace_char(s, from, to).len() == s.len(),
        forall|k: int|
            0 <= k < s.len() ==> #[trigger] text::replace_char(s, from, to)[k] == if s[k]
                == from {
                to
            } else {
                s[k]
            },
{
}

/// Leaving out a character keeps all others, in their order.
pub proof fn lemma_without(a: Seq<char>, b: Seq<char>, c: char)
    ensures
        text::without(a + b, c) == text::without(a, c) + text::without(b, c),
        !a.contains(c) ==> text::without(a, c) == a,
        text::without(seq![c], c) == Seq::<char>::empty(),
    decreases b.len(),
{
    text::lemma_without_push(seq![], c, c);
    assert(seq![c] =~= Seq::<char>::empty().push(c));
    lemma_without_none(a, c);
    if b.len() == 0 {
        assert(b =~= seq![]);
        assert(a + b =~= a);
        assert(text::without(a, c) + text::without(b, c) =~= text::without(a, c));
    } else {
        let head = b.drop_last();
        lemma_without(a, head, c);
        assert(b =~= head.push(b.last()));
        assert(a + b =~= (a + head).push(b.last()));
        text::lemma_without_push(a + head, b.last(), c);
        text::lemma_without_push(head, b.last(), c);
        assert(text::without(a + b, c) =~= text::without(a, c) + text::without(b, c));
    }
}

proof fn lemma_without_none(a: Seq<char>, c: char)
    ensures
        !a.contains(c) ==> text::without(a, c) == a,
    decreases a.len(),
{
    if a.len() == 0 {
        assert(a =~= seq![]);
        text::lemma_without_push(seq![], c, c);
    } else {
        let head = a.drop_last();
        assert(a =~= head.push(a.last()));
        lemma_without_none(head, c);
        text::lemma_without_push(head, a.last(), c);
        if !a.contains(c) {
            assert(a.contains(a[a.len() - 1]));
            if head.contains(c) {
                let k = choose|k: int| 0 <= k < head.len() && head[k] == c;
                assert(a[k] == c);
            }
        }
    }
}

/// The number that digits stand for.
pub open spec fn number(digits: Seq<char>) -> int
    decreases digits.len(),
{
    if digits.len() == 0 {
        0
    } else {
        10 * number(digits.drop_last()) + (digits.last() as int - '0' as int)
    }
}

/// A number in decimal stands for that number: digits, without a zero in front of others.
pub proof fn lemma_decimal_number(n: nat)
    ensures
        number(text::decimal(n)) == n,
        text::decimal(n).len() > 0,
        forall|k: int|
            0 <= k < text::decimal(n).len() ==> '0' <= #[trigger] text::decimal(n)[k]
                && text::decimal(n)[k] <= '9',
        text::decimal(n).len() > 1 ==> text::decimal(n)[0] != '0',
    decreases n,
{
    let s = text::decimal(n);
    text::lemma_decimal(n);
    if n < 10 {
        assert(s.drop_last() =~= seq![]);
        assert(number(s.drop_last()) == 0);
    } else {
        lemma_decimal_number(n / 10);
        let head = text::decimal(n / 10);
        assert(s.drop_last() =~= head);
        assert(s[0] == head[0]);
        if head.len() == 1 {
            assert(head.drop_last() =~= seq![]);
            assert(number(head.drop_last()) == 0);
        }
    }
    assert forall|k: int| 0 <= k < s.len() implies '0' <= #[trigger] s[k] && s[k] <= '9' by {
        assert(text::is_digit(s[k]));
    }
}

/// Text is ordered by the first character in which two texts differ, and a text stands before
/// those that go on where it ends.
pub proof fn lemma_lt(p: Seq<char>, a: Seq<char>, b: Seq<char>)
    ensures
        a.len() > 0 && b.len() > 0 && a[0] < b[0] ==> text::lt(p + a, p + b) && !text::lt(
            p + b,
            p + a,
        ),
        a.len() == 0 && b.len() > 0 ==> text::lt(p + a, p + b) && !text::lt(p + b, p + a),
        !text::lt(p, p),
    decreases p.len(),
{
    text::lemma_lt_irreflexive(p);
    if p.len() == 0 {
        assert(p + a =~= a);
        assert(p + b =~= b);
    } else {
        assert((p + a).skip(1) =~= p.skip(1) + a);
        assert((p + b).skip(1) =~= p.skip(1) + b);
        lemma_lt(p.skip(1), a, b);
    }
}

/// The member stands in the sequence before the other does.
pub open spec fn comes_first(parts: Seq<Seq<char>>, a: Seq<char>, b: Seq<char>) -> bool {
    exists|k: int|
        0 <= k <= parts.len() && (#[trigger] parts.take(k)).contains(a) && !parts.take(k).contains(
            b,
        )
}

/// The first occurrences of the members of a sequence are all of them, each once, in the order
/// in which they come first.
pub proof fn lemma_first_occurrences(parts: Seq<Seq<char>>)
    ensures
        text::all_different(text::unique(parts)),
        forall|p: Seq<char>| #[trigger] text::unique(parts).contains(p) <==> parts.contains(p),
        forall|i: int, j: int|
            0 <= i < j < text::unique(parts).len() ==> comes_first(
                parts,
                #[trigger] text::unique(parts)[i],
                #[trigger] text::unique(parts)[j],
            ),
    decreases parts.len(),
{
    text::lemma_unique(parts);
    let all = text::unique(parts);
    if parts.len() > 0 {
        let head = parts.drop_last();
        let before = text::unique(head);
        lemma_first_occurrences(head);
        let n = head.len() as int;
        assert(parts.take(n) =~= head);
        assert forall|i: int, j: int| 0 <= i < j < all.len() implies comes_first(
            parts,
            #[trigger] all[i],
            #[trigger] all[j],
        ) by {
            assert(all[i] == before[i]);
            if j < before.len() {
                assert(all[j] == before[j]);
                assert(comes_first(head, before[i], before[j]));
                let k = choose|k: int|
                    0 <= k <= head.len() && (#[trigger] head.take(k)).contains(before[i])
                        && !head.take(k).contains(before[j]);
                assert(parts.take(k) =~= head.take(k));
            } else {
                assert(before.contains(before[i]));
                assert(parts.take(n).contains(all[i]));
                assert(!before.contains(all[j]));
                assert(!parts.take(n).contains(all[j]));
            }
        }
    }
}

} // verus!
