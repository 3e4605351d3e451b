//! What stands in a text, in a list of words, and in what is made of them.
use crate::text::{
    first_of, has_substring, join_seq, lemma_split_concat, lemma_split_whole, occurs, split_seq,
    starts,
};
use vstd::prelude::*;

verus! {

// ---------------------------------------------------------------------------
// Texts
// ---------------------------------------------------------------------------

/// A text stands in itself.
pub broadcast proof fn lemma_holds_itself(p: Seq<char>)
    ensures
        #[trigger] has_substring(p, p),
{
    assert(p.subrange(0, p.len() as int) =~= p);
    assert(occurs(p, p, 0));
}

/// What stands in a text stands in it with something behind.
pub broadcast proof fn lemma_holds_before(a: Seq<char>, b: Seq<char>, p: Seq<char>)
    requires
        has_substring(a, p),
    ensures
        #[trigger] has_substring(a + b, p),
{
    let i = choose|i: int| #[trigger] occurs(a, p, i);
    assert((a + b).subrange(i, i + p.len()) =~= a.subrange(i, i + p.len()));
    assert(occurs(a + b, p, i));
}

/// What stands in a text stands in it with something in front.
pub broadcast proof fn lemma_holds_behind(a: Seq<char>, b: Seq<char>, p: Seq<char>)
    requires
        has_substring(b, p),
    ensures
        #[trigger] has_substring(a + b, p),
{
    let i = choose|i: int| #[trigger] occurs(b, p, i);
    assert((a + b).subrange(a.len() + i, a.len() + i + p.len()) =~= b.subrange(i, i + p.len()));
    assert(occurs(a + b, p, a.len() + i));
}

pub broadcast group group_holds {
    lemma_holds_itself,
    lemma_holds_before,
    lemma_holds_behind,
}

/// What stands in a part of a text stands in the text.
pub proof fn lemma_holds_within(s: Seq<char>, t: Seq<char>, p: Seq<char>)
    requires
        has_substring(s, t),
        has_substring(t, p),
    ensures
        has_substring(s, p),
{
    let i = choose|i: int| #[trigger] occurs(s, t, i);
    let j = choose|j: int| #[trigger] occurs(t, p, j);
    assert(s.subrange(i + j, i + j + p.len()) =~= s.subrange(i, i + t.len()).subrange(
        j,
        j + p.len(),
    ));
    assert(occurs(s, p, i + j));
}

/// A text stands between what is in front of it and what is behind it.
pub proof fn lemma_middle(a: Seq<char>, p: Seq<char>, b: Seq<char>)
    ensures
        has_substring(a + p + b, p),
{
    lemma_holds_itself(p);
    lemma_holds_behind(a, p, p);
    lemma_holds_before(a + p, b, p);
}

/// Texts are put together in any grouping.
pub proof fn lemma_assoc(a: Seq<char>, b: Seq<char>, c: Seq<char>)
    ensures
        a + b + c == a + (b + c),
{
    assert(a + b + c =~= a + (b + c));
}

/// What is in front of the same text is told by the whole.
pub proof fn lemma_cancel(a: Seq<char>, b: Seq<char>, t: Seq<char>)
    requires
        a + t == b + t,
    ensures
        a == b,
{
    assert((a + t).len() == a.len() + t.len());
    assert((b + t).len() == b.len() + t.len());
    assert((a + t).take(a.len() as int) =~= a);
    assert((b + t).take(a.len() as int) =~= b);
}

/// What is behind the same text is told by the whole.
pub proof fn lemma_cancel_front(t: Seq<char>, a: Seq<char>, b: Seq<char>)
    requires
        t + a == t + b,
    ensures
        a == b,
{
    assert((t + a).skip(t.len() as int) =~= a);
    assert((t + b).skip(t.len() as int) =~= b);
}

/// A character stands first where none of its kind stands before.
pub proof fn lemma_first_at(s: Seq<char>, c: char, i: int)
    requires
        0 <= i < s.len(),
        s[i] == c,
        forall|j: int| 0 <= j < i ==> s[j] != c,
    ensures
        first_of(s, c) == Some(i),
    decreases s.len(),
{
    if i < s.len() - 1 {
        lemma_first_at(s.drop_last(), c, i);
    } else {
        lemma_first_none(s.drop_last(), c);
    }
}

/// A character that stands nowhere stands first nowhere.
pub proof fn lemma_first_none(s: Seq<char>, c: char)
    requires
        forall|j: int| 0 <= j < s.len() ==> s[j] != c,
    ensures
        first_of(s, c) is None,
    decreases s.len(),
{
    if s.len() > 0 {
        lemma_first_none(s.drop_last(), c);
    }
}

/// One text stands in another, and a second one stands somewhere behind it.
pub open spec fn in_turn(s: Seq<char>, p: Seq<char>, q: Seq<char>) -> bool {
    exists|k: int|
        0 <= k <= s.len() && has_substring(#[trigger] s.take(k), p) && has_substring(s.skip(k), q)
}

/// Texts stand in turn where the one stands in a front part and the other behind it.
pub proof fn lemma_in_turn(a: Seq<char>, b: Seq<char>, p: Seq<char>, q: Seq<char>)
    requires
        has_substring(a, p),
        has_substring(b, q),
    ensures
        in_turn(a + b, p, q),
{
    let s = a + b;
    assert(s.take(a.len() as int) =~= a);
    assert(s.skip(a.len() as int) =~= b);
}

/// What stands in turn does so with something behind.
pub proof fn lemma_in_turn_before(a: Seq<char>, b: Seq<char>, p: Seq<char>, q: Seq<char>)
    requires
        in_turn(a, p, q),
    ensures
        in_turn(a + b, p, q),
{
    let k = choose|k: int|
        0 <= k <= a.len() && has_substring(#[trigger] a.take(k), p) && has_substring(a.skip(k), q);
    assert((a + b).take(k) =~= a.take(k));
    assert((a + b).skip(k) =~= a.skip(k) + b);
    lemma_holds_before(a.skip(k), b, q);
}

/// What stands in turn does so with something in front.
pub proof fn lemma_in_turn_behind(a: Seq<char>, b: Seq<char>, p: Seq<char>, q: Seq<char>)
    requires
        in_turn(b, p, q),
    ensures
        in_turn(a + b, p, q),
{
    let k = choose|k: int|
        0 <= k <= b.len() && has_substring(#[trigger] b.take(k), p) && has_substring(b.skip(k), q);
    let n = a.len() + k;
    assert((a + b).take(n) =~= a + b.take(k));
    assert((a + b).skip(n) =~= b.skip(k));
    lemma_holds_behind(a, b.take(k), p);
}

/// A text does not begin with another from which it differs at some place.
pub proof fn lemma_differs(s: Seq<char>, p: Seq<char>, k: int)
    requires
        0 <= k < p.len(),
        k >= s.len() || s[k] != p[k],
    ensures
        !starts(s, p),
{
    if starts(s, p) {
        assert(s.take(p.len() as int)[k] == p[k]);
    }
}

// ---------------------------------------------------------------------------
// Words
// ---------------------------------------------------------------------------

/// Two words stand side by side in a list.
pub open spec fn adjacent(words: Seq<Seq<char>>, a: Seq<char>, b: Seq<char>) -> bool {
    exists|i: int| 0 <= i < words.len() - 1 && #[trigger] words[i] == a && words[i + 1] == b
}

pub broadcast proof fn lemma_adjacent_before(
    u: Seq<Seq<char>>,
    v: Seq<Seq<char>>,
    a: Seq<char>,
    b: Seq<char>,
)
    requires
        adjacent(u, a, b),
    ensures
        #[trigger] adjacent(u + v, a, b),
{
    let i = choose|i: int| 0 <= i < u.len() - 1 && #[trigger] u[i] == a && u[i + 1] == b;
    assert((u + v)[i] == a && (u + v)[i + 1] == b);
}

pub broadcast proof fn lemma_adjacent_behind(
    u: Seq<Seq<char>>,
    v: Seq<Seq<char>>,
    a: Seq<char>,
    b: Seq<char>,
)
    requires
        adjacent(v, a, b),
    ensures
        #[trigger] adjacent(u + v, a, b),
{
    let i = choose|i: int| 0 <= i < v.len() - 1 && #[trigger] v[i] == a && v[i + 1] == b;
    let n = u.len() as int;
    assert((u + v)[n + i] == a && (u + v)[n + i + 1] == b);
}

pub broadcast group group_adjacent {
    lemma_adjacent_before,
    lemma_adjacent_behind,
}

pub proof fn lemma_adjacent_at(words: Seq<Seq<char>>, i: int)
    requires
        0 <= i < words.len() - 1,
    ensures
        adjacent(words, words[i], words[i + 1]),
{
}

/// A list of words is joined with what is in front of a word, the word and what is
/// behind it.
pub proof fn lemma_join_concat(u: Seq<Seq<char>>, v: Seq<Seq<char>>, sep: Seq<char>)
    requires
        u.len() > 0,
        v.len() > 0,
    ensures
        join_seq(u + v, sep) == join_seq(u, sep) + sep + join_seq(v, sep),
    decreases v.len(),
{
    let w = u + v;
    assert(w.last() == v.last());
    assert(w.drop_last() =~= u + v.drop_last());
    if v.len() == 1 {
        assert(w.drop_last() =~= u);
    } else {
        lemma_join_concat(u, v.drop_last(), sep);
        assert(join_seq(w, sep) =~= join_seq(u, sep) + sep + (join_seq(v.drop_last(), sep) + sep
            + v.last()));
    }
}

/// Each word stands in a list that is joined.
pub proof fn lemma_join_holds(words: Seq<Seq<char>>, sep: Seq<char>, i: int)
    requires
        0 <= i < words.len(),
    ensures
        has_substring(join_seq(words, sep), words[i]),
    decreases words.len(),
{
    broadcast use group_holds;

    if words.len() > 1 {
        if i == words.len() - 1 {
            assert(has_substring(words.last(), words[i]));
        } else {
            lemma_join_holds(words.drop_last(), sep, i);
        }
    }
}

/// A joined list of two words or more, behind a separator, ends in its last two words.
proof fn lemma_join_end(words: Seq<Seq<char>>, sep: Seq<char>) -> (front: Seq<char>)
    requires
        words.len() >= 2,
    ensures
        sep + join_seq(words, sep) == front + (sep + words[words.len() - 2] + sep + words.last()),
{
    let a = words[words.len() - 2];
    let b = words.last();
    let upper = words.drop_last();
    assert(upper.last() == a);
    if words.len() == 2 {
        assert(join_seq(upper, sep) == a);
        assert(sep + join_seq(words, sep) =~= Seq::<char>::empty() + (sep + a + sep + b));
        Seq::empty()
    } else {
        let f = join_seq(upper.drop_last(), sep);
        assert(join_seq(upper, sep) == f + sep + a);
        assert(sep + join_seq(words, sep) =~= (sep + f) + (sep + a + sep + b));
        sep + f
    }
}

/// Two words that stand side by side do so in a list that is joined, each behind a
/// separator, where one stands in front of the list.
pub proof fn lemma_join_adjacent(words: Seq<Seq<char>>, sep: Seq<char>, a: Seq<char>, b: Seq<char>)
    requires
        adjacent(words, a, b),
    ensures
        has_substring(sep + join_seq(words, sep), sep + a + sep + b),
{
    let i = choose|i: int| 0 <= i < words.len() - 1 && #[trigger] words[i] == a && words[i + 1] == b;
    let upto = words.take(i + 2);
    let pair = sep + a + sep + b;
    assert(upto[upto.len() - 2] == a && upto.last() == b);
    let front = lemma_join_end(upto, sep);
    lemma_holds_itself(pair);
    lemma_holds_behind(front, pair, pair);
    if i + 2 < words.len() {
        let rest = words.skip(i + 2);
        lemma_join_concat(upto, rest, sep);
        assert(upto + rest =~= words);
        lemma_holds_before(sep + join_seq(upto, sep), sep + join_seq(rest, sep), pair);
        assert(sep + join_seq(words, sep) =~= (sep + join_seq(upto, sep)) + (sep + join_seq(
            rest,
            sep,
        )));
    } else {
        assert(upto =~= words);
    }
}

/// No word of a list begins with a text.
pub open spec fn none_starts(words: Seq<Seq<char>>, p: Seq<char>) -> bool {
    forall|i: int| 0 <= i < words.len() ==> !starts(#[trigger] words[i], p)
}

pub broadcast proof fn lemma_none_starts_concat(u: Seq<Seq<char>>, v: Seq<Seq<char>>, p: Seq<char>)
    requires
        none_starts(u, p),
        none_starts(v, p),
    ensures
        #[trigger] none_starts(u + v, p),
{
    assert forall|i: int| 0 <= i < (u + v).len() implies !starts(#[trigger] (u + v)[i], p) by {
        if i < u.len() {
            assert((u + v)[i] == u[i]);
        } else {
            assert((u + v)[i] == v[i - u.len()]);
        }
    }
}

// ---------------------------------------------------------------------------
// Parts
// ---------------------------------------------------------------------------

/// Words without the separator are what a joined list is split into.
pub proof fn lemma_split_joined(words: Seq<Seq<char>>, c: char)
    requires
        words.len() > 0,
        forall|i: int| 0 <= i < words.len() ==> !(#[trigger] words[i]).contains(c),
    ensures
        split_seq(join_seq(words, seq![c]), c) == words,
    decreases words.len(),
{
    if words.len() == 1 {
        lemma_split_whole(words[0], c);
        assert(words =~= seq![words[0]]);
    } else {
        let front = words.drop_last();
        assert forall|i: int| 0 <= i < front.len() implies !(#[trigger] front[i]).contains(c) by {
            assert(front[i] == words[i]);
        }
        lemma_split_joined(front, c);
        lemma_split_whole(words.last(), c);
        lemma_split_concat(join_seq(front, seq![c]), words.last(), c);
        assert(join_seq(words, seq![c]) =~= join_seq(front, seq![c]).push(c) + words.last());
        assert(front + seq![words.last()] =~= words);
    }
}

} // verus!
