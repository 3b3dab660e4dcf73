//! Text: comparison, decimal numbers, and the `::` paths that names are written as.

use vstd::prelude::*;

verus! {

/// What a `String` or a `str` holds.
pub type Text = Seq<char>;

/// Whether two strings hold the same characters.
pub fn equal(a: &str, b: &str) -> (same: bool)
    ensures
        same == (a@ == b@),
{
    let mut x = a.chars();
    let mut y = b.chars();
    let ghost mut at: int = 0;
    assert(a@.skip(0) == a@ && b@.skip(0) == b@);
    loop
        invariant
            0 <= at <= a@.len(),
            at <= b@.len(),
            vstd::std_specs::iter::IteratorSpec::obeys_prophetic_iter_laws(&x),
            vstd::std_specs::iter::IteratorSpec::obeys_prophetic_iter_laws(&y),
            vstd::std_specs::iter::IteratorSpec::remaining(&x) == a@.skip(at),
            vstd::std_specs::iter::IteratorSpec::remaining(&y) == b@.skip(at),
            a@.take(at) == b@.take(at),
        decreases a@.len() - at,
    {
        match (x.next(), y.next()) {
            (Some(c), Some(d)) => {
                if c != d {
                    assert(a@[at] != b@[at]);
                    return false;
                }
                proof {
                    assert(a@.skip(at).drop_first() == a@.skip(at + 1));
                    assert(b@.skip(at).drop_first() == b@.skip(at + 1));
                    assert(a@.take(at + 1) == a@.take(at).push(c));
                    assert(b@.take(at + 1) == b@.take(at).push(d));
                    at = at + 1;
                }
            },
            (None, None) => {
                assert(a@ == a@.take(at));
                assert(b@ == b@.take(at));
                return true;
            },
            _ => {
                assert(a@.len() != b@.len());
                return false;
            },
        }
    }
}

/// `n` in decimal, without leading zeros.
pub open spec fn decimal(n: nat) -> Text
    decreases n,
{
    if n < 10 {
        seq![digit(n)]
    } else {
        decimal(n / 10).push(digit(n % 10))
    }
}

/// The decimal digit that stands for `d`.
pub open spec fn digit(d: nat) -> char {
    (48 + d) as char
}

fn digit_text(d: usize) -> (t: &'static str)
    requires
        d < 10,
    ensures
        t@ == seq![digit(d as nat)],
{
    proof {
        reveal_strlit("0");
        reveal_strlit("1");
        reveal_strlit("2");
        reveal_strlit("3");
        reveal_strlit("4");
        reveal_strlit("5");
        reveal_strlit("6");
        reveal_strlit("7");
        reveal_strlit("8");
        reveal_strlit("9");
    }
    match d {
        0 => "0",
        1 => "1",
        2 => "2",
        3 => "3",
        4 => "4",
        5 => "5",
        6 => "6",
        7 => "7",
        8 => "8",
        _ => "9",
    }
}

/// Writes a number in decimal.
pub fn decimal_text(n: usize) -> (t: String)
    ensures
        t@ == decimal(n as nat),
    decreases n,
{
    if n < 10 {
        digit_text(n).to_owned()
    } else {
        let mut t = decimal_text(n / 10);
        t.append(digit_text(n % 10));
        t
    }
}

/// The pieces of `t` between its `::` separators, where the piece being read began at `from`
/// and the search for the next separator has come to `at`.
pub open spec fn pieces_from(t: Text, from: int, at: int) -> Seq<Text>
    decreases t.len() - at,
{
    if at + 1 >= t.len() {
        seq![t.subrange(from, t.len() as int)]
    } else if t[at] == ':' && t[at + 1] == ':' {
        seq![t.subrange(from, at)] + pieces_from(t, at + 2, at + 2)
    } else {
        pieces_from(t, from, at + 1)
    }
}

/// The pieces of `t` between its `::` separators, left to right.
pub open spec fn pieces(t: Text) -> Seq<Text> {
    pieces_from(t, 0, 0)
}

/// The parts put together again with `::` in between.
pub open spec fn joined(parts: Seq<Text>) -> Text
    decreases parts.len(),
{
    if parts.len() == 0 {
        Seq::empty()
    } else if parts.len() == 1 {
        parts[0]
    } else {
        joined(parts.drop_last()) + "::"@ + parts.last()
    }
}

/// What the strings of a sequence hold.
pub open spec fn texts(ts: Seq<String>) -> Seq<Text> {
    Seq::new(ts.len(), |i: int| ts[i]@)
}

/// Splits a string at its `::` separators.
pub fn split(t: &str) -> (parts: Vec<String>)
    ensures
        texts(parts@) == pieces(t@),
{
    let n: usize = t.unicode_len();
    let mut parts: Vec<String> = Vec::new();
    let mut from: usize = 0;
    let mut at: usize = 0;
    assert(texts(parts@) == Seq::<Text>::empty());
    assert(texts(parts@) + pieces_from(t@, 0, 0) == pieces(t@));
    while n - at >= 2
        invariant
            n == t@.len(),
            from <= at <= n,
            texts(parts@) + pieces_from(t@, from as int, at as int) == pieces(t@),
        decreases n - at,
    {
        if t.get_char(at) == ':' && t.get_char(at + 1) == ':' {
            let ghost before = texts(parts@);
            let piece = t.substring_char(from, at).to_owned();
            parts.push(piece);
            proof {
                let rest = pieces_from(t@, at + 2, at + 2);
                assert(texts(parts@) == before.push(piece@));
                assert(before + (seq![piece@] + rest) == before.push(piece@) + rest);
            }
            at = at + 2;
            from = at;
        } else {
            at = at + 1;
        }
    }
    let ghost before = texts(parts@);
    let piece = t.substring_char(from, n).to_owned();
    parts.push(piece);
    proof {
        assert(texts(parts@) == before.push(piece@));
        assert(before + seq![piece@] == before.push(piece@));
    }
    parts
}

/// Joins parts with `::` in between.
pub fn join(parts: &Vec<String>) -> (t: String)
    ensures
        t@ == joined(texts(parts@)),
{
    let mut t = String::new();
    let mut i: usize = 0;
    assert(texts(parts@).take(0) == Seq::<Text>::empty());
    while i < parts.len()
        invariant
            i <= parts@.len(),
            t@ == joined(texts(parts@).take(i as int)),
        decreases parts@.len() - i,
    {
        let ghost upto = texts(parts@).take(i + 1);
        assert(upto.drop_last() == texts(parts@).take(i as int));
        assert(upto.last() == parts@[i as int]@);
        if i > 0 {
            t.append("::");
        } else {
            assert(t@ + parts@[0]@ == parts@[0]@);
        }
        t.append(parts[i].as_str());
        i = i + 1;
    }
    assert(texts(parts@).take(i as int) == texts(parts@));
    t
}

proof fn lemma_joined_front(first: Text, rest: Seq<Text>)
    requires
        rest.len() > 0,
    ensures
        joined(seq![first] + rest) == first + "::"@ + joined(rest),
    decreases rest.len(),
{
    let all = seq![first] + rest;
    assert(all.last() == rest.last());
    assert(all.drop_last() == seq![first] + rest.drop_last());
    if rest.len() == 1 {
        assert(all.drop_last() == seq![first]);
        assert(joined(seq![first]) == first);
    } else {
        lemma_joined_front(first, rest.drop_last());
        assert(first + "::"@ + joined(rest.drop_last()) + "::"@ + rest.last() == first + "::"@ + (
        joined(rest.drop_last()) + "::"@ + rest.last()));
    }
}

proof fn lemma_pieces_join(t: Text, from: int, at: int)
    requires
        0 <= from <= at <= t.len(),
    ensures
        pieces_from(t, from, at).len() > 0,
        joined(pieces_from(t, from, at)) == t.skip(from),
    decreases t.len() - at,
{
    if at + 1 >= t.len() {
        assert(t.subrange(from, t.len() as int) == t.skip(from));
    } else if t[at] == ':' && t[at + 1] == ':' {
        reveal_strlit("::");
        lemma_pieces_join(t, at + 2, at + 2);
        let first = t.subrange(from, at);
        lemma_joined_front(first, pieces_from(t, at + 2, at + 2));
        assert(first + "::"@ + t.skip(at + 2) == t.skip(from));
    } else {
        lemma_pieces_join(t, from, at + 1);
    }
}

/// Splitting a text at its `::` separators loses nothing: joining the pieces gives it back.
pub proof fn lemma_split_then_join(t: Text)
    ensures
        joined(pieces(t)) == t,
        pieces(t).len() > 0,
{
    lemma_pieces_join(t, 0, 0);
    assert(t.skip(0) == t);
}

/// A text without a separator is one piece.
pub proof fn law_one_piece(t: Text)
    requires
        forall|i: int| 0 <= i < t.len() - 1 ==> !(#[trigger] t[i] == ':' && t[i + 1] == ':'),
    ensures
        pieces(t) == seq![t],
{
    lemma_rest_is_one_piece(t, 0, 0);
    assert(t.subrange(0, t.len() as int) =~= t);
}

proof fn lemma_rest_is_one_piece(t: Text, from: int, at: int)
    requires
        0 <= from <= at <= t.len(),
        forall|i: int| at <= i < t.len() - 1 ==> !(#[trigger] t[i] == ':' && t[i + 1] == ':'),
    ensures
        pieces_from(t, from, at) == seq![t.subrange(from, t.len() as int)],
    decreases t.len() - at,
{
    if at + 1 < t.len() {
        assert(!(t[at] == ':' && t[at + 1] == ':'));
        lemma_rest_is_one_piece(t, from, at + 1);
    }
}

/// The first piece ends at the first separator, and the others are those of the text behind it.
pub proof fn law_first_piece(t: Text, at: int)
    requires
        0 <= at < t.len() - 1,
        t[at] == ':',
        t[at + 1] == ':',
        forall|i: int| 0 <= i < at ==> !(#[trigger] t[i] == ':' && t[i + 1] == ':'),
    ensures
        pieces(t) == seq![t.take(at)] + pieces(t.skip(at + 2)),
{
    lemma_up_to_separator(t, at, 0);
    assert(t.subrange(0, at) =~= t.take(at));
    lemma_pieces_behind(t, at + 2, at + 2, at + 2);
}

proof fn lemma_up_to_separator(t: Text, at: int, now: int)
    requires
        0 <= now <= at < t.len() - 1,
        t[at] == ':',
        t[at + 1] == ':',
        forall|i: int| 0 <= i < at ==> !(#[trigger] t[i] == ':' && t[i + 1] == ':'),
    ensures
        pieces_from(t, 0, now) == seq![t.subrange(0, at)] + pieces_from(t, at + 2, at + 2),
    decreases at - now,
{
    if now < at {
        assert(!(t[now] == ':' && t[now + 1] == ':'));
        lemma_up_to_separator(t, at, now + 1);
    }
}

proof fn lemma_pieces_behind(t: Text, start: int, from: int, at: int)
    requires
        0 <= start <= from <= at <= t.len(),
    ensures
        pieces_from(t, from, at) == pieces_from(t.skip(start), from - start, at - start),
    decreases t.len() - at,
{
    let rest = t.skip(start);
    if at + 1 >= t.len() {
        assert(t.subrange(from, t.len() as int) =~= rest.subrange(
            from - start,
            rest.len() as int,
        ));
    } else {
        assert(rest[at - start] == t[at] && rest[at + 1 - start] == t[at + 1]);
        if t[at] == ':' && t[at + 1] == ':' {
            assert(t.subrange(from, at) =~= rest.subrange(from - start, at - start));
            lemma_pieces_behind(t, start, at + 2, at + 2);
        } else {
            lemma_pieces_behind(t, start, from, at + 1);
        }
    }
}

/// Parts are joined in their order, with `::` between two of them and nowhere else.
pub proof fn law_joined(parts: Seq<Text>, last: Text)
    ensures
        joined(Seq::empty()) == Seq::<char>::empty(),
        joined(seq![last]) == last,
        parts.len() > 0 ==> joined(parts.push(last)) == joined(parts) + "::"@ + last,
{
    assert(parts.push(last).drop_last() =~= parts);
}

/// A number is written with decimal digits, without zeros before it.
pub proof fn law_decimal_digits(n: nat, i: int)
    ensures
        decimal(n).len() > 0,
        0 <= i < decimal(n).len() ==> '0' <= decimal(n)[i] <= '9',
        n > 0 ==> decimal(n)[0] != '0',
    decreases n,
{
    if n >= 10 {
        law_decimal_digits(n / 10, 0);
        if 0 <= i < decimal(n).len() - 1 {
            law_decimal_digits(n / 10, i);
        }
    }
}

/// No two numbers are written alike.
pub proof fn law_decimals_differ(n: nat, m: nat)
    requires
        decimal(n) == decimal(m),
    ensures
        n == m,
    decreases n,
{
    law_decimal_digits(n / 10, 0);
    law_decimal_digits(m / 10, 0);
    let (a, b) = (decimal(n), decimal(m));
    assert(a.last() == b.last());
    if n >= 10 && m >= 10 {
        assert(a.drop_last() =~= decimal(n / 10));
        assert(b.drop_last() =~= decimal(m / 10));
        law_decimals_differ(n / 10, m / 10);
        assert(n % 10 == m % 10);
    }
}

/// Each number is the one before its last digit, ten times, and its last digit.
pub proof fn law_decimal_places(n: nat, d: nat)
    requires
        d < 10,
        n > 0,
    ensures
        decimal(10 * n + d) == decimal(n) + decimal(d),
        decimal(d).len() == 1,
        decimal(d)[0] as int == '0' as int + d,
{
    assert((10 * n + d) / 10 == n && (10 * n + d) % 10 == d);
    assert(decimal(n) + seq![digit(d)] =~= decimal(n).push(digit(d)));
}

} // verus!
