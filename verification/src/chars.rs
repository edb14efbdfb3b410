//! Executable text: the functions of [`crate::text`], computed on slices of characters.
use crate::text;
use vstd::prelude::*;
use vstd::slice::slice_subrange;

verus! {

/// The characters of a string.
pub fn chars_of(s: &str) -> (r: Vec<char>)
    ensures
        r@ == s@,
{
    let mut out: Vec<char> = Vec::new();
    for c in it: s.chars()
        invariant
            out@ == it.seq().take(it.index() as int),
            it.seq() == s@,
    {
        proof {
            assert(it.seq().take(it.index() + 1) =~= it.seq().take(it.index() as int).push(c));
        }
        out.push(c);
    }
    proof {
        assert(out@ =~= s@);
    }
    out
}

/// The string that holds the given characters.
pub fn string_of(cs: &[char]) -> (r: String)
    ensures
        r@ == cs@,
{
    let mut out = String::new();
    let mut i: usize = 0;
    while i < cs.len()
        invariant
            i <= cs.len(),
            out@ == cs@.take(i as int),
        decreases cs.len() - i,
    {
        out.push(cs[i]);
        proof {
            assert(cs@.take(i + 1) =~= cs@.take(i as int).push(cs@[i as int]));
        }
        i = i + 1;
    }
    proof {
        assert(cs@.take(cs.len() as int) =~= cs@);
    }
    out
}

/// Appends the characters of a slice to a vector.
pub fn extend(out: &mut Vec<char>, more: &[char])
    ensures
        final(out)@ == old(out)@ + more@,
{
    let mut i: usize = 0;
    proof {
        assert(old(out)@ + more@.take(0) =~= old(out)@);
    }
    while i < more.len()
        invariant
            i <= more.len(),
            out@ == old(out)@ + more@.take(i as int),
        decreases more.len() - i,
    {
        out.push(more[i]);
        proof {
            assert(old(out)@ + more@.take(i + 1) =~= (old(out)@ + more@.take(i as int)).push(
                more@[i as int],
            ));
        }
        i = i + 1;
    }
    proof {
        assert(more@.take(more.len() as int) =~= more@);
    }
}

/// Appends the characters of a string to a vector.
pub fn extend_str(out: &mut Vec<char>, more: &str)
    ensures
        final(out)@ == old(out)@ + more@,
{
    let cs = chars_of(more);
    extend(out, &cs);
}

/// A copy of the given characters.
pub fn copy_of(s: &[char]) -> (r: Vec<char>)
    ensures
        r@ == s@,
{
    let mut out: Vec<char> = Vec::new();
    extend(&mut out, s);
    proof {
        assert(out@ =~= s@);
    }
    out
}

/// The two slices hold the same characters.
pub fn same(a: &[char], b: &[char]) -> (r: bool)
    ensures
        r == (a@ == b@),
{
    if a.len() != b.len() {
        return false;
    }
    let mut i: usize = 0;
    while i < a.len()
        invariant
            i <= a.len(),
            a.len() == b.len(),
            forall|k: int| 0 <= k < i ==> a@[k] == b@[k],
        decreases a.len() - i,
    {
        if a[i] != b[i] {
            return false;
        }
        i = i + 1;
    }
    proof {
        assert(a@ =~= b@);
    }
    true
}

/// See [`text::occurs_at`]; the position must leave room for `p`.
fn matches_at(s: &[char], p: &[char], i: usize) -> (r: bool)
    requires
        i + p.len() <= s.len(),
    ensures
        r == text::occurs_at(s@, p@, i as int),
{
    same(slice_subrange(s, i, i + p.len()), p)
}

pub fn starts_with(s: &[char], p: &[char]) -> (r: bool)
    ensures
        r == text::starts_with(s@, p@),
{
    p.len() <= s.len() && same(slice_subrange(s, 0, p.len()), p)
}

pub fn ends_with(s: &[char], p: &[char]) -> (r: bool)
    ensures
        r == text::ends_with(s@, p@),
{
    p.len() <= s.len() && same(slice_subrange(s, s.len() - p.len(), s.len()), p)
}

pub fn find(s: &[char], p: &[char]) -> (r: Option<usize>)
    ensures
        match r {
            Some(i) => text::find(s@, p@) == Some(i as int) && i + p.len() <= s.len(),
            None => text::find(s@, p@) is None,
        },
{
    if p.len() > s.len() {
        return None;
    }
    let last: usize = s.len() - p.len();
    let mut i: usize = 0;
    loop
        invariant
            p.len() <= s.len(),
            last == s.len() - p.len(),
            i <= last,
            text::find(s@, p@) == text::find_from(s@, p@, i as int),
        decreases last - i,
    {
        if matches_at(s, p, i) {
            return Some(i);
        }
        if i == last {
            return None;
        }
        i = i + 1;
    }
}

pub fn contains(s: &[char], p: &[char]) -> (r: bool)
    ensures
        r == text::contains(s@, p@),
{
    proof {
        text::lemma_find_from(s@, p@, 0);
        assert(forall|i: int| text::occurs_at(s@, p@, i) ==> 0 <= i);
    }
    match find(s, p) {
        Some(_) => true,
        None => false,
    }
}

pub fn split_once<'a>(s: &'a [char], p: &[char]) -> (r: Option<(&'a [char], &'a [char])>)
    ensures
        match r {
            Some((a, b)) => text::split_once(s@, p@) == Some((a@, b@)),
            None => text::split_once(s@, p@) is None,
        },
{
    match find(s, p) {
        Some(i) => Some(
            (slice_subrange(s, 0, i), slice_subrange(s, i + p.len(), s.len())),
        ),
        None => None,
    }
}

pub fn rsplit_once<'a>(s: &'a [char], c: char) -> (r: Option<(&'a [char], &'a [char])>)
    ensures
        match r {
            Some((a, b)) => text::rsplit_once(s@, c) == Some((a@, b@)),
            None => text::rsplit_once(s@, c) is None,
        },
{
    let mut n: usize = s.len();
    while n > 0
        invariant
            n <= s.len(),
            text::rfind(s@, c) == text::rfind_below(s@, c, n as int),
        decreases n,
    {
        if s[n - 1] == c {
            return Some((slice_subrange(s, 0, n - 1), slice_subrange(s, n, s.len())));
        }
        n = n - 1;
    }
    None
}

pub fn strip_prefix<'a>(s: &'a [char], p: &[char]) -> (r: Option<&'a [char]>)
    ensures
        match r {
            Some(t) => text::strip_prefix(s@, p@) == Some(t@),
            None => text::strip_prefix(s@, p@) is None,
        },
{
    if starts_with(s, p) {
        Some(slice_subrange(s, p.len(), s.len()))
    } else {
        None
    }
}

pub fn strip_suffix<'a>(s: &'a [char], p: &[char]) -> (r: Option<&'a [char]>)
    ensures
        match r {
            Some(t) => text::strip_suffix(s@, p@) == Some(t@),
            None => text::strip_suffix(s@, p@) is None,
        },
{
    if ends_with(s, p) {
        Some(slice_subrange(s, 0, s.len() - p.len()))
    } else {
        None
    }
}

pub fn trim_end_matches<'a>(s: &'a [char], p: &[char]) -> (r: &'a [char])
    ensures
        r@ == text::trim_end_matches(s@, p@),
{
    let mut t: &'a [char] = s;
    while p.len() > 0 && ends_with(t, p)
        invariant
            text::trim_end_matches(s@, p@) == text::trim_end_matches(t@, p@),
        decreases t.len(),
    {
        t = slice_subrange(t, 0, t.len() - p.len());
    }
    t
}

pub fn is_whitespace(c: char) -> (r: bool)
    ensures
        r == text::is_whitespace(c),
{
    let n: u32 = c as u32;
    (0x9 <= n && n <= 0xd) || n == 0x20 || n == 0x85 || n == 0xa0 || n == 0x1680 || (0x2000 <= n
        && n <= 0x200a) || n == 0x2028 || n == 0x2029 || n == 0x202f || n == 0x205f || n == 0x3000
}

pub fn trim<'a>(s: &'a [char]) -> (r: &'a [char])
    ensures
        r@ == text::trim(s@),
{
    let mut t: &'a [char] = s;
    while t.len() > 0 && is_whitespace(t[0])
        invariant
            text::trim_start(s@) == text::trim_start(t@),
        decreases t.len(),
    {
        t = slice_subrange(t, 1, t.len());
    }
    while t.len() > 0 && is_whitespace(t[t.len() - 1])
        invariant
            text::trim(s@) == text::trim_end(t@),
        decreases t.len(),
    {
        t = slice_subrange(t, 0, t.len() - 1);
    }
    t
}

/// The position of the first `c` in `s`.
fn find_char(s: &[char], c: char) -> (r: Option<usize>)
    ensures
        match r {
            Some(i) => text::find(s@, seq![c]) == Some(i as int) && i < s.len(),
            None => text::find(s@, seq![c]) is None,
        },
{
    let mut i: usize = 0;
    while i < s.len()
        invariant
            i <= s.len(),
            forall|k: int| 0 <= k < i ==> s@[k] != c,
        decreases s.len() - i,
    {
        if s[i] == c {
            proof {
                assert(s@.subrange(i as int, i + 1) =~= seq![c]);
                assert forall|k: int| 0 <= k < i implies !text::occurs_at(s@, seq![c], k) by {
                    assert(s@.subrange(k, k + 1)[0] == s@[k]);
                }
                text::lemma_find_is(s@, seq![c], i as int);
            }
            return Some(i);
        }
        i = i + 1;
    }
    proof {
        text::lemma_find_from(s@, seq![c], 0);
        assert forall|k: int| 0 <= k implies !text::occurs_at(s@, seq![c], k) by {
            if k < s@.len() {
                assert(s@.subrange(k, k + 1)[0] == s@[k]);
            }
        }
    }
    None
}

pub fn split(s: &[char], c: char) -> (r: Vec<Vec<char>>)
    ensures
        text::views(r@) == text::split(s@, c),
{
    let mut out: Vec<Vec<char>> = Vec::new();
    let mut t: &[char] = s;
    proof {
        assert(text::views(out@) + text::split(t@, c) =~= text::split(s@, c));
    }
    loop
        invariant
            text::split(s@, c) == text::views(out@) + text::split(t@, c),
        decreases t.len(),
    {
        match find_char(t, c) {
            Some(i) => {
                let piece = copy_of(slice_subrange(t, 0, i));
                let ghost before = text::views(out@);
                out.push(piece);
                proof {
                    assert(text::views(out@) =~= before.push(piece@));
                    assert(before + (seq![piece@] + text::split(t@.skip(i + 1), c)) =~= before.push(
                        piece@,
                    ) + text::split(t@.skip(i + 1), c));
                }
                t = slice_subrange(t, i + 1, t.len());
            },
            None => {
                let piece = copy_of(t);
                let ghost before = text::views(out@);
                out.push(piece);
                proof {
                    assert(text::views(out@) =~= before + seq![piece@]);
                }
                return out;
            },
        }
    }
}

pub fn lines(s: &[char]) -> (r: Vec<Vec<char>>)
    ensures
        text::views(r@) == text::lines(s@),
{
    let mut out: Vec<Vec<char>> = Vec::new();
    let mut t: &[char] = s;
    proof {
        assert(text::views(out@) + text::lines(t@) =~= text::lines(s@));
    }
    while t.len() > 0
        invariant
            text::lines(s@) == text::views(out@) + text::lines(t@),
        decreases t.len(),
    {
        let ghost before = text::views(out@);
        match find_char(t, '\n') {
            Some(i) => {
                let keep: usize = if i > 0 && t[i - 1] == '\r' {
                    i - 1
                } else {
                    i
                };
                let line = copy_of(slice_subrange(t, 0, keep));
                proof {
                    assert(line@ =~= text::drop_cr(t@.take(i as int)));
                }
                out.push(line);
                proof {
                    assert(text::views(out@) =~= before.push(line@));
                    assert(before + (seq![line@] + text::lines(t@.skip(i + 1))) =~= before.push(
                        line@,
                    ) + text::lines(t@.skip(i + 1)));
                }
                t = slice_subrange(t, i + 1, t.len());
            },
            None => {
                let line = copy_of(t);
                out.push(line);
                proof {
                    assert(text::views(out@) =~= before.push(line@));
                    assert(t@.skip(t@.len() as int) =~= seq![]);
                    assert(before + seq![line@] =~= before.push(line@) + text::lines(
                        t@.skip(t@.len() as int),
                    ));
                }
                t = slice_subrange(t, t.len(), t.len());
            },
        }
    }
    proof {
        assert(text::views(out@) + text::lines(t@) =~= text::views(out@));
    }
    out
}

pub fn replace_char(s: &[char], from: char, to: char) -> (r: Vec<char>)
    ensures
        r@ == text::replace_char(s@, from, to),
{
    let mut out: Vec<char> = Vec::new();
    let mut i: usize = 0;
    while i < s.len()
        invariant
            i <= s.len(),
            out@ =~= text::replace_char(s@.take(i as int), from, to),
        decreases s.len() - i,
    {
        if s[i] == from {
            out.push(to);
        } else {
            out.push(s[i]);
        }
        i = i + 1;
    }
    proof {
        assert(s@.take(s.len() as int) =~= s@);
    }
    out
}

pub fn without(s: &[char], c: char) -> (r: Vec<char>)
    ensures
        r@ == text::without(s@, c),
{
    let mut out: Vec<char> = Vec::new();
    let mut i: usize = 0;
    proof {
        text::lemma_without_push(s@, c, c);
        assert(s@.take(0) =~= seq![]);
    }
    while i < s.len()
        invariant
            i <= s.len(),
            out@ == text::without(s@.take(i as int), c),
        decreases s.len() - i,
    {
        proof {
            text::lemma_without_push(s@.take(i as int), s@[i as int], c);
            assert(s@.take(i + 1) =~= s@.take(i as int).push(s@[i as int]));
        }
        if s[i] != c {
            out.push(s[i]);
        }
        i = i + 1;
    }
    proof {
        assert(s@.take(s.len() as int) =~= s@);
    }
    out
}

pub fn is_digit(c: char) -> (r: bool)
    ensures
        r == text::is_digit(c),
{
    '0' <= c && c <= '9'
}

/// The digit for a number below ten.
fn digit(n: u64) -> (r: char)
    requires
        n < 10,
    ensures
        r == text::digit(n as nat),
{
    if n == 0 {
        '0'
    } else if n == 1 {
        '1'
    } else if n == 2 {
        '2'
    } else if n == 3 {
        '3'
    } else if n == 4 {
        '4'
    } else if n == 5 {
        '5'
    } else if n == 6 {
        '6'
    } else if n == 7 {
        '7'
    } else if n == 8 {
        '8'
    } else {
        '9'
    }
}

pub fn decimal(n: u64) -> (r: Vec<char>)
    ensures
        r@ == text::decimal(n as nat),
    decreases n,
{
    if n < 10 {
        let mut out: Vec<char> = Vec::new();
        out.push(digit(n));
        proof {
            assert(out@ =~= text::decimal(n as nat));
        }
        out
    } else {
        let mut out = decimal(n / 10);
        out.push(digit(n % 10));
        out
    }
}

pub fn join(parts: &Vec<Vec<char>>, sep: &[char]) -> (r: Vec<char>)
    ensures
        r@ == text::join(text::views(parts@), sep@),
{
    let mut out: Vec<char> = Vec::new();
    let mut i: usize = 0;
    while i < parts.len()
        invariant
            i <= parts.len(),
            out@ == text::join(text::views(parts@).take(i as int), sep@),
        decreases parts.len() - i,
    {
        proof {
            let all = text::views(parts@);
            assert(all.take(i + 1).drop_last() =~= all.take(i as int));
            assert(all.take(i + 1).last() == parts@[i as int]@);
            if i == 0 {
                assert(out@ + parts@[0]@ =~= parts@[0]@);
            }
        }
        if i > 0 {
            extend(&mut out, sep);
        }
        extend(&mut out, &parts[i]);
        i = i + 1;
    }
    proof {
        assert(text::views(parts@).take(parts.len() as int) =~= text::views(parts@));
    }
    out
}

/// One of the texts is `t`.
pub fn has(parts: &Vec<Vec<char>>, t: &[char]) -> (r: bool)
    ensures
        r == text::views(parts@).contains(t@),
{
    let mut i: usize = 0;
    while i < parts.len()
        invariant
            i <= parts.len(),
            forall|k: int| 0 <= k < i ==> #[trigger] text::views(parts@)[k] != t@,
        decreases parts.len() - i,
    {
        if same(&parts[i], t) {
            proof {
                assert(text::views(parts@)[i as int] == t@);
            }
            return true;
        }
        i = i + 1;
    }
    false
}

pub fn lt(a: &[char], b: &[char]) -> (r: bool)
    ensures
        r == text::lt(a@, b@),
{
    let mut i: usize = 0;
    proof {
        assert(a@.skip(0) =~= a@);
        assert(b@.skip(0) =~= b@);
    }
    loop
        invariant
            i <= a.len(),
            i <= b.len(),
            text::lt(a@, b@) == text::lt(a@.skip(i as int), b@.skip(i as int)),
        decreases a.len() - i,
    {
        if i == b.len() {
            return false;
        }
        if i == a.len() {
            return true;
        }
        if a[i] != b[i] {
            return a[i] < b[i];
        }
        proof {
            assert(a@.skip(i as int).skip(1) =~= a@.skip(i + 1));
            assert(b@.skip(i as int).skip(1) =~= b@.skip(i + 1));
        }
        i = i + 1;
    }
}

} // verus!
