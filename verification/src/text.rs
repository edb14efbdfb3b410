//! Text as sequences of characters: what searching, splitting and trimming mean.
use vstd::prelude::*;

verus! {

/// `s` begins with `p`.
pub open spec fn starts_with(s: Seq<char>, p: Seq<char>) -> bool {
    p.len() <= s.len() && s.take(p.len() as int) == p
}

/// `s` ends with `p`.
pub open spec fn ends_with(s: Seq<char>, p: Seq<char>) -> bool {
    p.len() <= s.len() && s.skip(s.len() - p.len()) == p
}

/// `p` stands in `s` at position `i`.
pub open spec fn occurs_at(s: Seq<char>, p: Seq<char>, i: int) -> bool {
    0 <= i && i + p.len() <= s.len() && s.subrange(i, i + p.len()) == p
}

/// The first position, from `i` on, at which `p` stands in `s`.
pub open spec fn find_from(s: Seq<char>, p: Seq<char>, i: int) -> Option<int>
    decreases s.len() - i + 1,
{
    if i < 0 || i + p.len() > s.len() {
        None
    } else if occurs_at(s, p, i) {
        Some(i)
    } else {
        find_from(s, p, i + 1)
    }
}

/// The first position at which `p` stands in `s`.
pub open spec fn find(s: Seq<char>, p: Seq<char>) -> Option<int> {
    find_from(s, p, 0)
}

/// `p` stands somewhere in `s`.
pub open spec fn contains(s: Seq<char>, p: Seq<char>) -> bool {
    exists|i: int| occurs_at(s, p, i)
}

/// What stands before and after the first `p` in `s`.
pub open spec fn split_once(s: Seq<char>, p: Seq<char>) -> Option<(Seq<char>, Seq<char>)> {
    match find(s, p) {
        Some(i) => Some((s.take(i), s.skip(i + p.len()))),
        None => None,
    }
}

/// The last position of `c` among the first `n` characters of `s`.
pub open spec fn rfind_below(s: Seq<char>, c: char, n: int) -> Option<int>
    decreases n,
{
    if n <= 0 || n > s.len() {
        None
    } else if s[n - 1] == c {
        Some(n - 1)
    } else {
        rfind_below(s, c, n - 1)
    }
}

/// The last position of `c` in `s`.
pub open spec fn rfind(s: Seq<char>, c: char) -> Option<int> {
    rfind_below(s, c, s.len() as int)
}

/// What stands before and after the last `c` in `s`.
pub open spec fn rsplit_once(s: Seq<char>, c: char) -> Option<(Seq<char>, Seq<char>)> {
    match rfind(s, c) {
        Some(i) => Some((s.take(i), s.skip(i + 1))),
        None => None,
    }
}

/// What `find_from` finds is the first occurrence.
pub proof fn lemma_find_from(s: Seq<char>, p: Seq<char>, i: int)
    requires
        0 <= i,
    ensures
        match find_from(s, p, i) {
            Some(j) => i <= j && occurs_at(s, p, j) && forall|k: int|
                i <= k < j ==> !occurs_at(s, p, k),
            None => forall|k: int| i <= k ==> !occurs_at(s, p, k),
        },
    decreases s.len() - i + 1,
{
    if i + p.len() > s.len() {
    } else if occurs_at(s, p, i) {
    } else {
        lemma_find_from(s, p, i + 1);
    }
}

/// An occurrence with none before it is what `find` finds.
pub proof fn lemma_find_is(s: Seq<char>, p: Seq<char>, j: int)
    requires
        occurs_at(s, p, j),
        forall|k: int| 0 <= k < j ==> !occurs_at(s, p, k),
    ensures
        find(s, p) == Some(j),
{
    lemma_find_from(s, p, 0);
}

/// What `rfind_below` finds is the last occurrence.
pub proof fn lemma_rfind_below(s: Seq<char>, c: char, n: int)
    requires
        0 <= n <= s.len(),
    ensures
        match rfind_below(s, c, n) {
            Some(j) => 0 <= j < n && s[j] == c && forall|k: int| j < k < n ==> s[k] != c,
            None => forall|k: int| 0 <= k < n ==> s[k] != c,
        },
    decreases n,
{
    if n > 0 && s[n - 1] != c {
        lemma_rfind_below(s, c, n - 1);
    }
}

/// `s` without the prefix `p`, where it has it.
pub open spec fn strip_prefix(s: Seq<char>, p: Seq<char>) -> Option<Seq<char>> {
    if starts_with(s, p) {
        Some(s.skip(p.len() as int))
    } else {
        None
    }
}

/// `s` without the suffix `p`, where it has it.
pub open spec fn strip_suffix(s: Seq<char>, p: Seq<char>) -> Option<Seq<char>> {
    if ends_with(s, p) {
        Some(s.take(s.len() - p.len()))
    } else {
        None
    }
}

/// `s` without any number of suffixes `p`.
pub open spec fn trim_end_matches(s: Seq<char>, p: Seq<char>) -> Seq<char>
    decreases s.len(),
{
    if p.len() > 0 && ends_with(s, p) {
        trim_end_matches(s.take(s.len() - p.len()), p)
    } else {
        s
    }
}

/// The characters with the Unicode property White_Space.
pub open spec fn is_whitespace(c: char) -> bool {
    let n = c as u32;
    ||| 0x9 <= n <= 0xd
    ||| n == 0x20
    ||| n == 0x85
    ||| n == 0xa0
    ||| n == 0x1680
    ||| 0x2000 <= n <= 0x200a
    ||| n == 0x2028
    ||| n == 0x2029
    ||| n == 0x202f
    ||| n == 0x205f
    ||| n == 0x3000
}

/// `s` without the whitespace that it begins with.
pub open spec fn trim_start(s: Seq<char>) -> Seq<char>
    decreases s.len(),
{
    if s.len() > 0 && is_whitespace(s[0]) {
        trim_start(s.skip(1))
    } else {
        s
    }
}

/// `s` without the whitespace that it ends with.
pub open spec fn trim_end(s: Seq<char>) -> Seq<char>
    decreases s.len(),
{
    if s.len() > 0 && is_whitespace(s[s.len() - 1]) {
        trim_end(s.take(s.len() - 1))
    } else {
        s
    }
}

/// `s` without the whitespace at either end.
pub open spec fn trim(s: Seq<char>) -> Seq<char> {
    trim_end(trim_start(s))
}

/// The pieces of `s` between the occurrences of `c`: one more than there are occurrences.
pub open spec fn split(s: Seq<char>, c: char) -> Seq<Seq<char>>
    decreases s.len(),
{
    match find(s, seq![c]) {
        Some(i) => {
            proof {
                lemma_find_from(s, seq![c], 0);
            }
            seq![s.take(i)] + split(s.skip(i + 1), c)
        },
        None => seq![s],
    }
}

/// `s` without one carriage return at its end.
pub open spec fn drop_cr(s: Seq<char>) -> Seq<char> {
    if s.len() > 0 && s[s.len() - 1] == '\r' {
        s.take(s.len() - 1)
    } else {
        s
    }
}

/// The lines of `s`: each ends at a line feed, or at a carriage return and a line feed,
/// neither of which belongs to it; what follows the last line feed is a line if it is not
/// empty.
pub open spec fn lines(s: Seq<char>) -> Seq<Seq<char>>
    decreases s.len(),
{
    if s.len() == 0 {
        seq![]
    } else {
        match find(s, seq!['\n']) {
            Some(i) => {
                proof {
                    lemma_find_from(s, seq!['\n'], 0);
                }
                seq![drop_cr(s.take(i))] + lines(s.skip(i + 1))
            },
            None => seq![s],
        }
    }
}

/// `s` with every `from` replaced by `to`.
pub open spec fn replace_char(s: Seq<char>, from: char, to: char) -> Seq<char> {
    s.map_values(
        |c: char|
            if c == from {
                to
            } else {
                c
            },
    )
}

/// `s` without any `c`.
pub open spec fn without(s: Seq<char>, c: char) -> Seq<char> {
    s.filter(|x: char| x != c)
}

/// What one more character does to [`without`].
pub proof fn lemma_without_push(s: Seq<char>, x: char, c: char)
    ensures
        without(s.push(x), c) == (if x == c {
            without(s, c)
        } else {
            without(s, c).push(x)
        }),
        without(seq![], c) == Seq::<char>::empty(),
{
    reveal(Seq::filter);
    assert(s.push(x).drop_last() =~= s);
}

/// One of `0` to `9`.
pub open spec fn is_digit(c: char) -> bool {
    '0' <= c && c <= '9'
}

/// The digit for a number below ten.
pub open spec fn digit(n: nat) -> char {
    (('0' as nat) + n) as char
}

/// `n` in decimal.
pub open spec fn decimal(n: nat) -> Seq<char>
    decreases n,
{
    if n < 10 {
        seq![digit(n)]
    } else {
        decimal(n / 10).push(digit(n % 10))
    }
}

/// The pieces one after another, with `sep` between each two.
pub open spec fn join(parts: Seq<Seq<char>>, sep: Seq<char>) -> Seq<char>
    decreases parts.len(),
{
    if parts.len() == 0 {
        seq![]
    } else if parts.len() == 1 {
        parts[0]
    } else {
        join(parts.drop_last(), sep) + sep + parts.last()
    }
}

/// The members of `parts` in the order in which each first occurs.
pub open spec fn unique(parts: Seq<Seq<char>>) -> Seq<Seq<char>>
    decreases parts.len(),
{
    if parts.len() == 0 {
        seq![]
    } else {
        let before = unique(parts.drop_last());
        if before.contains(parts.last()) {
            before
        } else {
            before.push(parts.last())
        }
    }
}

/// The texts that the vectors hold.
pub open spec fn views(v: Seq<Vec<char>>) -> Seq<Seq<char>> {
    v.map_values(|t: Vec<char>| t@)
}

/// The texts that the strings hold.
pub open spec fn strings(v: Seq<String>) -> Seq<Seq<char>> {
    v.map_values(|t: String| t@)
}

/// What `find` finds of a single character.
pub proof fn lemma_find_char(s: Seq<char>, c: char)
    ensures
        match find(s, seq![c]) {
            Some(i) => 0 <= i < s.len() && s[i] == c && forall|k: int| 0 <= k < i ==> s[k] != c,
            None => forall|k: int| 0 <= k < s.len() ==> s[k] != c,
        },
{
    lemma_find_from(s, seq![c], 0);
    assert forall|k: int| 0 <= k < s.len() implies (occurs_at(s, seq![c], k) <==> s[k] == c) by {
        let here = s.subrange(k, k + 1);
        assert(here[0] == s[k]);
        if s[k] == c {
            assert(here =~= seq![c]);
        }
    }
}

/// Splitting a text that begins with a piece without `c`, and `c`.
pub proof fn lemma_split_cons(a: Seq<char>, c: char, rest: Seq<char>)
    requires
        !a.contains(c),
    ensures
        split(a + seq![c] + rest, c) == seq![a] + split(rest, c),
{
    let s = a + seq![c] + rest;
    lemma_find_char(s, c);
    assert(s[a.len() as int] == c);
    assert forall|k: int| 0 <= k < a.len() implies s[k] != c by {
        assert(a.contains(a[k]));
    }
    assert(find(s, seq![c]) == Some(a.len() as int));
    assert(s.take(a.len() as int) =~= a);
    assert(s.skip(a.len() as int + 1) =~= rest);
}

/// No piece of a split text holds the character that it was split at.
pub proof fn lemma_split_pieces(s: Seq<char>, c: char)
    ensures
        split(s, c).len() > 0,
        forall|i: int| 0 <= i < split(s, c).len() ==> !(#[trigger] split(s, c)[i]).contains(c),
    decreases s.len(),
{
    lemma_find_char(s, c);
    match find(s, seq![c]) {
        Some(i) => {
            let rest = split(s.skip(i + 1), c);
            lemma_split_pieces(s.skip(i + 1), c);
            assert forall|k: int| 0 <= k < split(s, c).len() implies !(#[trigger] split(
                s,
                c,
            )[k]).contains(c) by {
                if k > 0 {
                    assert(split(s, c)[k] == rest[k - 1]);
                }
            }
        },
        None => {},
    }
}

// ---------------------------------------------------------------------------
// Order
// ---------------------------------------------------------------------------

/// `a` stands before `b` in the order of their code points, character by character.
pub open spec fn lt(a: Seq<char>, b: Seq<char>) -> bool
    decreases a.len(),
{
    if b.len() == 0 {
        false
    } else if a.len() == 0 {
        true
    } else if a[0] == b[0] {
        lt(a.skip(1), b.skip(1))
    } else {
        a[0] < b[0]
    }
}

/// No text stands before itself.
pub proof fn lemma_lt_irreflexive(a: Seq<char>)
    ensures
        !lt(a, a),
    decreases a.len(),
{
    if a.len() > 0 {
        lemma_lt_irreflexive(a.skip(1));
    }
}

/// The order is transitive.
pub proof fn lemma_lt_transitive(a: Seq<char>, b: Seq<char>, c: Seq<char>)
    requires
        lt(a, b),
        lt(b, c),
    ensures
        lt(a, c),
    decreases a.len(),
{
    if a.len() > 0 && a[0] == b[0] && b[0] == c[0] {
        lemma_lt_transitive(a.skip(1), b.skip(1), c.skip(1));
    }
}

/// Of two different texts one stands before the other.
pub proof fn lemma_lt_total(a: Seq<char>, b: Seq<char>)
    ensures
        a == b || lt(a, b) || lt(b, a),
    decreases a.len(),
{
    if a.len() == 0 || b.len() == 0 {
        if a.len() == b.len() {
            assert(a =~= b);
        }
    } else if a[0] == b[0] {
        lemma_lt_total(a.skip(1), b.skip(1));
        if a.skip(1) == b.skip(1) {
            assert(a =~= seq![a[0]] + a.skip(1));
            assert(b =~= seq![b[0]] + b.skip(1));
        }
    }
}

/// Each text stands before those that follow it.
pub open spec fn increasing(ks: Seq<Seq<char>>) -> bool {
    forall|i: int, j: int| 0 <= i < j < ks.len() ==> lt(#[trigger] ks[i], #[trigger] ks[j])
}

/// The sequence holds the members of the set, each once, in order.
pub open spec fn is_order(ks: Seq<Seq<char>>, d: Set<Seq<char>>) -> bool {
    increasing(ks) && forall|k: Seq<char>| #[trigger] ks.contains(k) <==> d.contains(k)
}

/// The members of a finite set in order.
pub open spec fn in_order(d: Set<Seq<char>>) -> Seq<Seq<char>> {
    choose|ks: Seq<Seq<char>>| is_order(ks, d)
}

/// There is one way to put a set in order.
pub proof fn lemma_increasing_unique(a: Seq<Seq<char>>, b: Seq<Seq<char>>)
    requires
        increasing(a),
        increasing(b),
        forall|k: Seq<char>| a.contains(k) <==> b.contains(k),
    ensures
        a == b,
    decreases a.len(),
{
    if a.len() == 0 {
        if b.len() > 0 {
            assert(b.contains(b[0]));
            assert(a.contains(b[0]));
        }
        assert(a =~= b);
    } else {
        assert(a.contains(a[0]));
        assert(b.contains(a[0]));
        let j = choose|j: int| 0 <= j < b.len() && b[j] == a[0];
        assert(b.contains(b[0]));
        assert(a.contains(b[0]));
        let k = choose|k: int| 0 <= k < a.len() && a[k] == b[0];
        if j > 0 {
            assert(lt(b[0], b[j]));
            if k > 0 {
                assert(lt(a[0], a[k]));
                lemma_lt_transitive(a[0], b[0], a[0]);
            }
            lemma_lt_irreflexive(a[0]);
        }
        let a1 = a.skip(1);
        let b1 = b.skip(1);
        assert forall|x: Seq<char>| a1.contains(x) <==> b1.contains(x) by {
            if a1.contains(x) {
                let i = choose|i: int| 0 <= i < a1.len() && a1[i] == x;
                assert(a[i + 1] == x);
                assert(lt(a[0], a[i + 1]));
                lemma_lt_irreflexive(x);
                assert(b.contains(x));
                let m = choose|m: int| 0 <= m < b.len() && b[m] == x;
                assert(b1[m - 1] == x);
            }
            if b1.contains(x) {
                let i = choose|i: int| 0 <= i < b1.len() && b1[i] == x;
                assert(b[i + 1] == x);
                assert(lt(b[0], b[i + 1]));
                lemma_lt_irreflexive(x);
                assert(a.contains(x));
                let m = choose|m: int| 0 <= m < a.len() && a[m] == x;
                assert(a1[m - 1] == x);
            }
        }
        lemma_increasing_unique(a1, b1);
        assert(a =~= seq![a[0]] + a1);
        assert(b =~= seq![b[0]] + b1);
    }
}

/// An increasing sequence is its own set in order.
pub proof fn lemma_in_order_is(ks: Seq<Seq<char>>, d: Set<Seq<char>>)
    requires
        is_order(ks, d),
    ensures
        in_order(d) == ks,
{
    lemma_increasing_unique(in_order(d), ks);
}

/// The text put into its place in an increasing sequence.
spec fn put_in_place(ks: Seq<Seq<char>>, a: Seq<char>) -> Seq<Seq<char>>
    decreases ks.len(),
{
    if ks.len() == 0 || lt(ks.last(), a) {
        ks.push(a)
    } else {
        put_in_place(ks.drop_last(), a).push(ks.last())
    }
}

/// Putting a new text into its place keeps the sequence increasing.
proof fn lemma_put_in_place(ks: Seq<Seq<char>>, a: Seq<char>)
    requires
        increasing(ks),
        !ks.contains(a),
    ensures
        increasing(put_in_place(ks, a)),
        forall|k: Seq<char>| #[trigger]
            put_in_place(ks, a).contains(k) <==> ks.contains(k) || k == a,
    decreases ks.len(),
{
    let out = put_in_place(ks, a);
    if ks.len() == 0 || lt(ks.last(), a) {
        assert forall|i: int, j: int| 0 <= i < j < out.len() implies lt(
            #[trigger] out[i],
            #[trigger] out[j],
        ) by {
            if j == ks.len() && i < ks.len() - 1 {
                assert(lt(ks[i], ks[ks.len() - 1]));
                lemma_lt_transitive(ks[i], ks.last(), a);
            }
        }
        assert forall|k: Seq<char>| #[trigger] out.contains(k) <==> ks.contains(k) || k == a by {
            lemma_push_contains(ks, a, k);
        }
    } else {
        let head = ks.drop_last();
        let before = put_in_place(head, a);
        assert(ks.contains(ks.last()));
        lemma_lt_total(ks.last(), a);
        assert(ks =~= head.push(ks.last()));
        assert forall|k: Seq<char>| #[trigger] ks.contains(k) <==> head.contains(k) || k
            == ks.last() by {
            lemma_push_contains(head, ks.last(), k);
        }
        assert(increasing(head)) by {
            assert forall|i: int, j: int| 0 <= i < j < head.len() implies lt(
                #[trigger] head[i],
                #[trigger] head[j],
            ) by {
                assert(lt(ks[i], ks[j]));
            }
        }
        lemma_put_in_place(head, a);
        assert forall|i: int, j: int| 0 <= i < j < out.len() implies lt(
            #[trigger] out[i],
            #[trigger] out[j],
        ) by {
            if j == before.len() {
                assert(before.contains(before[i]));
                if before[i] != a {
                    let m = choose|m: int| 0 <= m < head.len() && head[m] == before[i];
                    assert(lt(ks[m], ks[ks.len() - 1]));
                }
            } else {
                assert(lt(before[i], before[j]));
            }
        }
        assert forall|k: Seq<char>| #[trigger] out.contains(k) <==> ks.contains(k) || k == a by {
            lemma_push_contains(before, ks.last(), k);
        }
    }
}

/// What a sequence holds after one more member.
pub proof fn lemma_push_contains(s: Seq<Seq<char>>, x: Seq<char>, p: Seq<char>)
    ensures
        s.push(x).contains(p) <==> s.contains(p) || p == x,
{
    if s.contains(p) {
        let j = choose|j: int| 0 <= j < s.len() && s[j] == p;
        assert(s.push(x)[j] == p);
    }
    assert(s.push(x)[s.len() as int] == x);
    if s.push(x).contains(p) && p != x {
        let j = choose|j: int| 0 <= j < s.push(x).len() && s.push(x)[j] == p;
        assert(s[j] == p);
    }
}

/// A finite set can be put in order.
pub proof fn lemma_in_order(d: Set<Seq<char>>)
    requires
        d.finite(),
    ensures
        is_order(in_order(d), d),
    decreases d.len(),
{
    if d.len() == 0 {
        let none = Seq::<Seq<char>>::empty();
        assert(d =~= Set::empty());
        assert(is_order(none, d));
    } else {
        let a = d.choose();
        let rest = d.remove(a);
        lemma_in_order(rest);
        let ks = in_order(rest);
        assert(!ks.contains(a));
        lemma_put_in_place(ks, a);
        let all = put_in_place(ks, a);
        assert forall|k: Seq<char>| #[trigger] all.contains(k) <==> d.contains(k) by {
            assert(rest.contains(k) <==> d.contains(k) && k != a);
        }
        assert(is_order(all, d));
    }
}

/// What can be put in order is finite.
pub proof fn lemma_order_finite(ks: Seq<Seq<char>>, d: Set<Seq<char>>)
    requires
        is_order(ks, d),
    ensures
        d.finite(),
{
    vstd::seq_lib::seq_to_set_is_finite(ks);
    assert forall|k: Seq<char>| ks.to_set().contains(k) <==> d.contains(k) by {
        assert(ks.contains(k) <==> d.contains(k));
    }
    assert(ks.to_set() =~= d);
}

/// What stands between two texts with the same prefix has that prefix.
pub proof fn lemma_between_prefixed(a: Seq<char>, b: Seq<char>, c: Seq<char>, p: Seq<char>)
    requires
        lt(a, b),
        lt(b, c),
        starts_with(a, p),
        starts_with(c, p),
    ensures
        starts_with(b, p),
    decreases p.len(),
{
    if p.len() == 0 {
        assert(b.take(0) =~= p);
    } else {
        assert(a[0] == a.take(p.len() as int)[0]);
        assert(c[0] == c.take(p.len() as int)[0]);
        assert(a.skip(1).take(p.len() - 1) =~= a.take(p.len() as int).skip(1));
        assert(c.skip(1).take(p.len() - 1) =~= c.take(p.len() as int).skip(1));
        lemma_between_prefixed(a.skip(1), b.skip(1), c.skip(1), p.skip(1));
        assert(b.take(p.len() as int) =~= seq![b[0]] + b.skip(1).take(p.len() - 1));
        assert(p =~= seq![p[0]] + p.skip(1));
    }
}

/// No two members are the same.
pub open spec fn all_different(names: Seq<Seq<char>>) -> bool {
    forall|i: int, j: int| 0 <= i < j < names.len() ==> names[i] != names[j]
}

/// The first occurrences of the members of a sequence are its members, each once.
pub proof fn lemma_unique(parts: Seq<Seq<char>>)
    ensures
        all_different(unique(parts)),
        forall|p: Seq<char>| #[trigger] unique(parts).contains(p) <==> parts.contains(p),
    decreases parts.len(),
{
    if parts.len() > 0 {
        let head = parts.drop_last();
        let before = unique(head);
        lemma_unique(head);
        assert(parts =~= head.push(parts.last()));
        assert forall|p: Seq<char>| #[trigger] unique(parts).contains(p) <==> parts.contains(
            p,
        ) by {
            lemma_push_contains(head, parts.last(), p);
            lemma_push_contains(before, parts.last(), p);
        }
        let all = unique(parts);
        assert forall|i: int, j: int| 0 <= i < j < all.len() implies all[i] != all[j] by {
            if j == before.len() {
                assert(before.contains(before[i]));
            }
        }
    }
}

/// What two texts one after the other hold.
pub proof fn lemma_add_contains(a: Seq<char>, b: Seq<char>, c: char)
    ensures
        (a + b).contains(c) <==> a.contains(c) || b.contains(c),
{
    if a.contains(c) {
        let k = choose|k: int| 0 <= k < a.len() && a[k] == c;
        assert((a + b)[k] == c);
    }
    if b.contains(c) {
        let k = choose|k: int| 0 <= k < b.len() && b[k] == c;
        assert((a + b)[a.len() + k] == c);
    }
}

/// A number in decimal is one digit or more.
pub proof fn lemma_decimal(n: nat)
    ensures
        decimal(n).len() > 0,
        forall|k: int| 0 <= k < decimal(n).len() ==> is_digit(#[trigger] decimal(n)[k]),
    decreases n,
{
    if n >= 10 {
        lemma_decimal(n / 10);
        let head = decimal(n / 10);
        assert forall|k: int| 0 <= k < decimal(n).len() implies is_digit(
            #[trigger] decimal(n)[k],
        ) by {
            if k < head.len() {
                assert(decimal(n)[k] == head[k]);
            }
        }
    }
}

/// What stands before and after the last `c`.
pub proof fn lemma_rsplit_once(s: Seq<char>, c: char)
    ensures
        match rsplit_once(s, c) {
            Some((a, b)) => s == a + seq![c] + b && !b.contains(c),
            None => !s.contains(c),
        },
{
    lemma_rfind_below(s, c, s.len() as int);
    match rfind(s, c) {
        Some(i) => {
            assert(s =~= s.take(i) + seq![c] + s.skip(i + 1));
            let b = s.skip(i + 1);
            assert forall|k: int| 0 <= k < b.len() implies b[k] != c by {
                assert(b[k] == s[i + 1 + k]);
            }
        },
        None => {},
    }
}

/// What is left of a text without suffixes begins it, and does not end with the suffix.
pub proof fn lemma_trim_end_matches(s: Seq<char>, p: Seq<char>)
    requires
        p.len() > 0,
    ensures
        trim_end_matches(s, p).len() <= s.len(),
        trim_end_matches(s, p) == s.take(trim_end_matches(s, p).len() as int),
        !ends_with(trim_end_matches(s, p), p),
    decreases s.len(),
{
    if ends_with(s, p) {
        let t = s.take(s.len() - p.len());
        lemma_trim_end_matches(t, p);
        let n = trim_end_matches(t, p).len() as int;
        assert(t.take(n) =~= s.take(n));
    } else {
        assert(s.take(s.len() as int) =~= s);
    }
}

/// A text that neither begins nor ends with whitespace has none to trim.
pub proof fn lemma_trim_same(s: Seq<char>)
    requires
        s.len() > 0,
        !is_whitespace(s[0]),
        !is_whitespace(s.last()),
    ensures
        trim(s) == s,
{
}

/// A text without `c` is its only piece.
pub proof fn lemma_split_whole(s: Seq<char>, c: char)
    requires
        !s.contains(c),
    ensures
        split(s, c) == seq![s],
{
    lemma_find_char(s, c);
}

/// Trimming takes characters off the ends, and leaves none that can be trimmed.
proof fn lemma_trim_end(s: Seq<char>)
    ensures
        trim_end(s).len() <= s.len(),
        trim_end(s) == s.take(trim_end(s).len() as int),
        trim_end(s).len() > 0 ==> !is_whitespace(trim_end(s).last()),
    decreases s.len(),
{
    if s.len() > 0 && is_whitespace(s[s.len() - 1]) {
        let t = s.take(s.len() - 1);
        lemma_trim_end(t);
        let n = trim_end(t).len() as int;
        assert(t.take(n) =~= s.take(n));
    } else {
        assert(s.take(s.len() as int) =~= s);
    }
}

/// As [`lemma_trim_end`], at the beginning.
proof fn lemma_trim_start(s: Seq<char>)
    ensures
        trim_start(s).len() <= s.len(),
        trim_start(s) == s.skip(s.len() - trim_start(s).len()),
        trim_start(s).len() > 0 ==> !is_whitespace(trim_start(s)[0]),
    decreases s.len(),
{
    if s.len() > 0 && is_whitespace(s[0]) {
        let t = s.skip(1);
        lemma_trim_start(t);
        let n = trim_start(t).len();
        assert(t.skip(t.len() - n) =~= s.skip(s.len() - n));
    } else {
        assert(s.skip(0) =~= s);
    }
}

/// A trimmed text holds characters of the text, and neither begins nor ends with whitespace.
pub proof fn lemma_trim(s: Seq<char>)
    ensures
        forall|c: char| #[trigger] trim(s).contains(c) ==> s.contains(c),
        trim(s).len() > 0 ==> !is_whitespace(trim(s)[0])
            && !is_whitespace(trim(s).last()),
{
    let t = trim_start(s);
    lemma_trim_start(s);
    lemma_trim_end(t);
    let n = s.len() - t.len();
    assert forall|c: char| #[trigger] trim(s).contains(c) implies s.contains(c) by {
        let k = choose|k: int| 0 <= k < trim(s).len() && trim(s)[k] == c;
        assert(t[k] == c);
        assert(s[n + k] == c);
    }
    if trim(s).len() > 0 {
        assert(trim(s)[0] == t[0]);
    }
}

/// The pieces of a text hold characters of the text, and the first begins it.
pub proof fn lemma_split_holds(s: Seq<char>, c: char)
    ensures
        forall|i: int, x: char|
            0 <= i < split(s, c).len() && #[trigger] split(s, c)[i].contains(x)
                ==> s.contains(x),
        split(s, c).len() > 0,
        split(s, c)[0].len() > 0 ==> s.len() > 0 && split(s, c)[0][0] == s[0],
    decreases s.len(),
{
    lemma_find_char(s, c);
    let pieces = split(s, c);
    match find(s, seq![c]) {
        Some(n) => {
            let tail = s.skip(n + 1);
            let rest = split(tail, c);
            lemma_split_holds(tail, c);
            assert forall|i: int, x: char|
                0 <= i < pieces.len() && #[trigger] pieces[i].contains(x) implies s.contains(
                x,
            ) by {
                if i == 0 {
                    let k = choose|k: int| 0 <= k < pieces[0].len() && pieces[0][k] == x;
                    assert(s[k] == x);
                } else {
                    assert(pieces[i] == rest[i - 1]);
                    assert(rest[i - 1].contains(x));
                    let k = choose|k: int| 0 <= k < tail.len() && tail[k] == x;
                    assert(s[n + 1 + k] == x);
                }
            }
        },
        None => {},
    }
}

// ---------------------------------------------------------------------------
// Lines
// ---------------------------------------------------------------------------

/// The text is empty or ends with a line feed.
pub open spec fn is_whole(s: Seq<char>) -> bool {
    s.len() == 0 || s.last() == '\n'
}

/// A text that can stand as a line and be read back: no line feed in it, and no carriage
/// return at its end.
pub open spec fn is_line(s: Seq<char>) -> bool {
    !s.contains('\n') && (s.len() == 0 || s.last() != '\r')
}

/// The lines of a text that follows whole lines.
pub proof fn lemma_lines_append(a: Seq<char>, b: Seq<char>)
    requires
        is_whole(a),
    ensures
        lines(a + b) == lines(a) + lines(b),
    decreases a.len(),
{
    if a.len() == 0 {
        assert(a + b =~= b);
        assert(lines(a) + lines(b) =~= lines(b));
    } else {
        let s = a + b;
        lemma_find_char(a, '\n');
        lemma_find_char(s, '\n');
        assert(a[a.len() - 1] == '\n');
        let i = find(a, seq!['\n'])->0;
        assert(s[i] == a[i]);
        let j = find(s, seq!['\n'])->0;
        assert(i == j) by {
            if j < i {
                assert(s[j] == a[j]);
            }
        }
        assert(s.take(i) =~= a.take(i));
        assert(s.skip(i + 1) =~= a.skip(i + 1) + b);
        lemma_lines_append(a.skip(i + 1), b);
        assert(lines(a + b) =~= lines(a) + lines(b));
    }
}

/// One line.
pub proof fn lemma_one_line(s: Seq<char>)
    requires
        is_line(s),
    ensures
        lines(s.push('\n')) == seq![s],
{
    let whole = s.push('\n');
    lemma_find_char(whole, '\n');
    assert(whole[s.len() as int] == '\n');
    let i = find(whole, seq!['\n'])->0;
    assert(i == s.len()) by {
        if i < s.len() {
            assert(s[i] == '\n');
            assert(s.contains('\n'));
        }
    }
    assert(whole.take(i) =~= s);
    assert(whole.skip(i + 1) =~= seq![]);
    assert(lines(whole.skip(i + 1)) =~= seq![]);
    assert(drop_cr(s) == s);
    assert(lines(whole) =~= seq![s]);
}

/// No line holds a line feed.
pub proof fn lemma_lines_hold_no_feed(s: Seq<char>)
    ensures
        forall|i: int| 0 <= i < lines(s).len() ==> !(#[trigger] lines(s)[i]).contains('\n'),
    decreases s.len(),
{
    if s.len() > 0 {
        lemma_find_char(s, '\n');
        match find(s, seq!['\n']) {
            Some(n) => {
                let rest = lines(s.skip(n + 1));
                lemma_lines_hold_no_feed(s.skip(n + 1));
                assert forall|i: int| 0 <= i < lines(s).len() implies !(#[trigger] lines(
                    s,
                )[i]).contains('\n') by {
                    if i > 0 {
                        assert(lines(s)[i] == rest[i - 1]);
                    } else {
                        let line = drop_cr(s.take(n));
                        assert forall|k: int| 0 <= k < line.len() implies line[k] != '\n' by {
                            assert(line[k] == s[k]);
                        }
                    }
                }
            },
            None => {
                assert(lines(s)[0] == s);
            },
        }
    }
}

} // verus!
