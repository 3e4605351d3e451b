//! The text of a derivation tells all of it: derivations that differ in what they read
//! or in what they do are written differently, and so do not share a path.
use crate::aterm::{
    aterm_derivation, aterm_str, bracket_list, comma_list, derivation_parts, env_part,
    input_drv_item, input_drv_items, law_aterm_string_readable, outputs_part, text_items, Piece,
};
use crate::derivation::{derivation_json, env_json, input_drv_json, input_drvs_json, outputs_json};
use crate::json::{lemma_lookup_at, member_names, text_array};
use crate::planner::{law_built_is_written, lemma_built_parts, lemma_found, lemma_sorted_from};
use crate::text::sort_seq;
use vstd::prelude::*;
use vstd::utf8::*;

verus! {

// ---------------------------------------------------------------------------
// Words
// ---------------------------------------------------------------------------

/// A mark between words.
spec fn mark(c: char) -> Seq<u8> {
    encode_utf8(seq![c])
}

proof fn lemma_mark(c: char)
    requires
        (c as u32) < 128,
    ensures
        mark(c).len() == 1,
        mark(c)[0] == c as u8,
{
    assert(is_ascii_chars(seq![c]));
    is_ascii_chars_encode_utf8(seq![c]);
}

/// The marks of the format, each as one byte.
proof fn lemma_marks()
    ensures
        encode_utf8(","@) == seq![44u8],
        encode_utf8("["@) == seq![91u8],
        encode_utf8("]"@) == seq![93u8],
        encode_utf8("("@) == seq![40u8],
        encode_utf8(")"@) == seq![41u8],
{
    reveal_strlit(",");
    reveal_strlit("[");
    reveal_strlit("]");
    reveal_strlit("(");
    reveal_strlit(")");
    assert(","@ =~= seq![',']);
    assert("["@ =~= seq!['[']);
    assert("]"@ =~= seq![']']);
    assert("("@ =~= seq!['(']);
    assert(")"@ =~= seq![')']);
    lemma_mark(',');
    lemma_mark('[');
    lemma_mark(']');
    lemma_mark('(');
    lemma_mark(')');
    assert(encode_utf8(","@) =~= seq![44u8]);
    assert(encode_utf8("["@) =~= seq![91u8]);
    assert(encode_utf8("]"@) =~= seq![93u8]);
    assert(encode_utf8("("@) =~= seq![40u8]);
    assert(encode_utf8(")"@) =~= seq![41u8]);
}

/// A string as an element of a list: by itself, or as the name of an input derivation.
spec fn word(drv: bool, s: Seq<char>) -> Seq<u8> {
    if drv {
        encode_utf8("("@) + aterm_str(s) + encode_utf8(","@) + outputs_list() + encode_utf8(")"@)
    } else {
        aterm_str(s)
    }
}

/// The outputs that are read of an input derivation.
spec fn outputs_list() -> Seq<u8> {
    encode_utf8("["@) + aterm_str("out"@) + encode_utf8("]"@)
}

proof fn lemma_assoc(x: Seq<u8>, y: Seq<u8>, z: Seq<u8>)
    ensures
        (x + y) + z == x + (y + z),
{
    assert((x + y) + z =~= x + (y + z));
}

/// What two texts begin with can be taken off both.
proof fn lemma_cancel(p: Seq<u8>, x: Seq<u8>, y: Seq<u8>)
    requires
        p + x == p + y,
    ensures
        x == y,
{
    assert((p + x).skip(p.len() as int) =~= x);
    assert((p + y).skip(p.len() as int) =~= y);
}

proof fn lemma_word_readable(drv: bool, a: Seq<char>, x: Seq<u8>, b: Seq<char>, y: Seq<u8>)
    requires
        word(drv, a) + x == word(drv, b) + y,
    ensures
        a == b,
        x == y,
{
    if drv {
        let open = encode_utf8("("@);
        let close = encode_utf8(","@) + outputs_list() + encode_utf8(")"@);
        assert(word(drv, a) + x =~= open + (aterm_str(a) + (close + x)));
        assert(word(drv, b) + y =~= open + (aterm_str(b) + (close + y)));
        lemma_cancel(open, aterm_str(a) + (close + x), aterm_str(b) + (close + y));
        law_aterm_string_readable(a, close + x, b, close + y);
        lemma_cancel(close, x, y);
    } else {
        law_aterm_string_readable(a, x, b, y);
    }
}

/// A word begins with a quote or a parenthesis.
proof fn lemma_word_start(drv: bool, s: Seq<char>)
    ensures
        word(drv, s).len() > 0,
        word(drv, s)[0] == 34 || word(drv, s)[0] == 40,
{
    lemma_marks();
    assert(aterm_str(s)[0] == 34);
    if drv {
        assert(word(drv, s)[0] == 40);
    }
}

// ---------------------------------------------------------------------------
// Lists
// ---------------------------------------------------------------------------

/// Words, each behind a comma.
spec fn following(drv: bool, v: Seq<Seq<char>>) -> Seq<u8>
    decreases v.len(),
{
    if v.len() == 0 {
        Seq::empty()
    } else {
        encode_utf8(","@) + word(drv, v[0]) + following(drv, v.drop_first())
    }
}

/// Words with commas between them.
spec fn listed(drv: bool, v: Seq<Seq<char>>) -> Seq<u8> {
    if v.len() == 0 {
        Seq::empty()
    } else {
        word(drv, v[0]) + following(drv, v.drop_first())
    }
}

proof fn lemma_following_last(drv: bool, v: Seq<Seq<char>>)
    requires
        v.len() > 0,
    ensures
        following(drv, v) == following(drv, v.drop_last()) + encode_utf8(","@) + word(
            drv,
            v.last(),
        ),
    decreases v.len(),
{
    let c = encode_utf8(","@);
    if v.len() == 1 {
        assert(v.drop_first() =~= Seq::empty());
        assert(v.drop_last() =~= Seq::empty());
        assert(following(drv, v.drop_first()) == Seq::<u8>::empty());
        assert(following(drv, v) =~= c + word(drv, v[0]));
        assert(following(drv, v.drop_last()) + c + word(drv, v.last()) =~= c + word(drv, v[0]));
    } else {
        let t = v.drop_first();
        lemma_following_last(drv, t);
        assert(t.drop_last() =~= v.drop_last().drop_first());
        assert(v.drop_last()[0] == v[0]);
        assert(following(drv, v) =~= following(drv, v.drop_last()) + c + word(drv, v.last()));
    }
}

proof fn lemma_listed(drv: bool, items: Seq<Piece>, v: Seq<Seq<char>>)
    requires
        items.len() == v.len(),
        forall|i: int|
            0 <= i < v.len() ==> #[trigger] items[i] == Ok::<Seq<u8>, Seq<char>>(word(drv, v[i])),
    ensures
        comma_list(items) == Ok::<Seq<u8>, Seq<char>>(listed(drv, v)),
    decreases v.len(),
{
    if v.len() > 0 {
        let t = v.drop_last();
        let rest = items.drop_last();
        assert forall|i: int| 0 <= i < t.len() implies #[trigger] rest[i] == Ok::<
            Seq<u8>,
            Seq<char>,
        >(word(drv, t[i])) by {
            assert(rest[i] == items[i]);
        }
        lemma_listed(drv, rest, t);
        assert(items[items.len() - 1] == Ok::<Seq<u8>, Seq<char>>(word(drv, v[v.len() - 1])));
        if v.len() == 1 {
            assert(v.drop_first() =~= Seq::empty());
            assert(listed(drv, v) =~= word(drv, v[0]));
            assert(listed(drv, t) + word(drv, v[0]) =~= word(drv, v[0]));
        } else {
            let f = v.drop_first();
            lemma_following_last(drv, f);
            assert(f.drop_last() =~= t.drop_first());
            assert(t[0] == v[0]);
            assert(listed(drv, v) =~= listed(drv, t) + encode_utf8(","@) + word(drv, v.last()));
        }
    }
}

/// Words behind commas, taken apart at the first.
proof fn lemma_following_first(drv: bool, v: Seq<Seq<char>>, x: Seq<u8>)
    requires
        v.len() > 0,
    ensures
        following(drv, v) + x == encode_utf8(","@) + (word(drv, v[0]) + (following(
            drv,
            v.drop_first(),
        ) + x)),
        (following(drv, v) + x).len() > 0,
        (following(drv, v) + x)[0] == 44,
{
    let c = encode_utf8(","@);
    let w = word(drv, v[0]);
    let f = following(drv, v.drop_first());
    lemma_assoc(c + w, f, x);
    lemma_assoc(c, w, f + x);
    lemma_marks();
}

proof fn lemma_following_readable(
    drv: bool,
    v: Seq<Seq<char>>,
    x: Seq<u8>,
    w: Seq<Seq<char>>,
    y: Seq<u8>,
)
    requires
        following(drv, v) + x == following(drv, w) + y,
        x.len() > 0,
        x[0] == 93,
        y.len() > 0,
        y[0] == 93,
    ensures
        v == w,
        x == y,
    decreases v.len(),
{
    if v.len() == 0 && w.len() == 0 {
        assert(following(drv, v) + x =~= x);
        assert(following(drv, w) + y =~= y);
        assert(v =~= w);
    } else if v.len() == 0 {
        assert(following(drv, v) + x =~= x);
        lemma_following_first(drv, w, y);
    } else if w.len() == 0 {
        assert(following(drv, w) + y =~= y);
        lemma_following_first(drv, v, x);
    } else {
        lemma_following_first(drv, v, x);
        lemma_following_first(drv, w, y);
        let p = following(drv, v.drop_first()) + x;
        let q = following(drv, w.drop_first()) + y;
        lemma_cancel(encode_utf8(","@), word(drv, v[0]) + p, word(drv, w[0]) + q);
        lemma_word_readable(drv, v[0], p, w[0], q);
        lemma_following_readable(drv, v.drop_first(), x, w.drop_first(), y);
        assert(v =~= seq![v[0]] + v.drop_first());
        assert(w =~= seq![w[0]] + w.drop_first());
    }
}

/// A list in brackets.
spec fn list(drv: bool, v: Seq<Seq<char>>) -> Seq<u8> {
    encode_utf8("["@) + listed(drv, v) + encode_utf8("]"@)
}

proof fn lemma_list_readable(
    drv: bool,
    v: Seq<Seq<char>>,
    x: Seq<u8>,
    w: Seq<Seq<char>>,
    y: Seq<u8>,
)
    requires
        list(drv, v) + x == list(drv, w) + y,
    ensures
        v == w,
        x == y,
{
    lemma_marks();
    let e = encode_utf8("]"@);
    lemma_list_parts(drv, v, x);
    lemma_list_parts(drv, w, y);
    lemma_cancel(encode_utf8("["@), listed(drv, v) + (e + x), listed(drv, w) + (e + y));
    lemma_listed_start(drv, v, e + x);
    lemma_listed_start(drv, w, e + y);
    if v.len() == 0 {
        assert(listed(drv, v) + (e + x) =~= e + x);
        assert(listed(drv, w) + (e + y) =~= e + y);
        assert(v =~= w);
    } else {
        let p = following(drv, v.drop_first());
        let q = following(drv, w.drop_first());
        lemma_assoc(word(drv, v[0]), p, e + x);
        lemma_assoc(word(drv, w[0]), q, e + y);
        lemma_word_readable(drv, v[0], p + (e + x), w[0], q + (e + y));
        lemma_following_readable(drv, v.drop_first(), e + x, w.drop_first(), e + y);
        assert(v =~= seq![v[0]] + v.drop_first());
        assert(w =~= seq![w[0]] + w.drop_first());
    }
    lemma_cancel(e, x, y);
}

proof fn lemma_list_parts(drv: bool, v: Seq<Seq<char>>, x: Seq<u8>)
    ensures
        list(drv, v) + x == encode_utf8("["@) + (listed(drv, v) + (encode_utf8("]"@) + x)),
{
    lemma_assoc(encode_utf8("["@) + listed(drv, v), encode_utf8("]"@), x);
    lemma_assoc(encode_utf8("["@), listed(drv, v), encode_utf8("]"@) + x);
}

/// What a list begins with tells whether it is empty.
proof fn lemma_listed_start(drv: bool, v: Seq<Seq<char>>, x: Seq<u8>)
    requires
        x.len() > 0,
        x[0] == 93,
    ensures
        v.len() == 0 <==> (listed(drv, v) + x)[0] == 93,
{
    if v.len() == 0 {
        assert(listed(drv, v) + x =~= x);
    } else {
        lemma_word_start(drv, v[0]);
    }
}

// ---------------------------------------------------------------------------
// Derivations
// ---------------------------------------------------------------------------

proof fn lemma_texts(v: Seq<Seq<char>>, message: Seq<char>)
    ensures
        bracket_list(text_items(text_array(v)->Array_0, message)) == Ok::<Seq<u8>, Seq<char>>(
            list(false, v),
        ),
{
    lemma_listed(false, text_items(text_array(v)->Array_0, message), v);
}

proof fn lemma_input_drvs(drvs: Seq<Seq<char>>)
    ensures
        bracket_list(input_drv_items(input_drvs_json(drvs)->Object_0)) == Ok::<Seq<u8>, Seq<char>>(
            list(true, sort_seq(drvs)),
        ),
{
    let m = input_drvs_json(drvs)->Object_0;
    let names = member_names(m);
    assert(names =~= drvs);
    let keys = sort_seq(names);
    let items = input_drv_items(m);
    assert forall|k: int| 0 <= k < keys.len() implies #[trigger] items[k] == Ok::<
        Seq<u8>,
        Seq<char>,
    >(word(true, keys[k])) by {
        lemma_sorted_from(names, k);
        let path = keys[k];
        lemma_found(m, path);
        let inner = input_drv_json()->Object_0;
        reveal_strlit("dynamicOutputs");
        reveal_strlit("outputs");
        assert(inner[0].0.len() != inner[1].0.len());
        lemma_lookup_at(inner, 1);
        lemma_texts(seq!["out"@], "non-string in inputDrv outputs for '"@ + path + "'"@);
        let one = seq!["out"@];
        assert(one.drop_first() =~= Seq::empty());
        assert(following(false, one.drop_first()) == Seq::<u8>::empty());
        assert(list(false, one) =~= outputs_list());
        assert(items[k] == input_drv_item(m, path));
    }
    lemma_listed(true, items, keys);
}

/// Seven parts with commas between them.
proof fn lemma_seven(
    a: Seq<u8>,
    b: Seq<u8>,
    c: Seq<u8>,
    d: Seq<u8>,
    e: Seq<u8>,
    f: Seq<u8>,
    g: Seq<u8>,
)
    ensures
        ({
            let m = encode_utf8(","@);
            comma_list(
                seq![
                    Piece::Ok(a),
                    Piece::Ok(b),
                    Piece::Ok(c),
                    Piece::Ok(d),
                    Piece::Ok(e),
                    Piece::Ok(f),
                    Piece::Ok(g),
                ],
            ) == Piece::Ok(a + m + b + m + c + m + d + m + e + m + f + m + g)
        }),
{
    let p1 = seq![Piece::Ok(a)];
    let p2 = seq![Piece::Ok(a), Piece::Ok(b)];
    let p3 = seq![Piece::Ok(a), Piece::Ok(b), Piece::Ok(c)];
    let p4 = seq![Piece::Ok(a), Piece::Ok(b), Piece::Ok(c), Piece::Ok(d)];
    let p5 = seq![Piece::Ok(a), Piece::Ok(b), Piece::Ok(c), Piece::Ok(d), Piece::Ok(e)];
    let p6 = seq![
        Piece::Ok(a),
        Piece::Ok(b),
        Piece::Ok(c),
        Piece::Ok(d),
        Piece::Ok(e),
        Piece::Ok(f),
    ];
    let p7 = seq![
        Piece::Ok(a),
        Piece::Ok(b),
        Piece::Ok(c),
        Piece::Ok(d),
        Piece::Ok(e),
        Piece::Ok(f),
        Piece::Ok(g),
    ];
    assert(p1.drop_last() =~= Seq::empty());
    assert(comma_list(Seq::<Piece>::empty()) == Piece::Ok(Seq::empty()));
    assert(Seq::<u8>::empty() + a =~= a);
    assert(comma_list(p1) == Piece::Ok(a));
    assert(p2.drop_last() =~= p1);
    assert(p3.drop_last() =~= p2);
    assert(p4.drop_last() =~= p3);
    assert(p5.drop_last() =~= p4);
    assert(p6.drop_last() =~= p5);
    assert(p7.drop_last() =~= p6);
    assert(comma_list(p2) is Ok);
    assert(comma_list(p3) is Ok);
    assert(comma_list(p4) is Ok);
    assert(comma_list(p5) is Ok);
    assert(comma_list(p6) is Ok);
}

/// What stands in front of the inputs of a built derivation.
spec fn front() -> Seq<u8> {
    encode_utf8("Derive("@) + bracket_list(crate::aterm::output_items(outputs_json()->Object_0))->Ok_0
        + encode_utf8(","@)
}

/// What stands behind the arguments of a built derivation.
spec fn back() -> Seq<u8> {
    encode_utf8(","@) + bracket_list(crate::aterm::env_items(env_json()->Object_0))->Ok_0
        + encode_utf8(")"@)
}

proof fn lemma_written(
    name: Seq<char>,
    system: Seq<char>,
    builder: Seq<char>,
    script: Seq<char>,
    drvs: Seq<Seq<char>>,
    srcs: Seq<Seq<char>>,
)
    ensures
        ({
            let m = encode_utf8(","@);
            let j = derivation_json(name, system, builder, script, drvs, srcs);
            aterm_derivation(j) == Ok::<Seq<u8>, Seq<char>>(
                front() + (list(true, sort_seq(drvs)) + (m + (list(false, srcs) + (m + (aterm_str(
                    system,
                ) + (m + (aterm_str(builder) + (m + (list(false, seq!["-c"@, script])
                    + back()))))))))),
            )
        }),
{
    let j = derivation_json(name, system, builder, script, drvs, srcs);
    law_built_is_written(name, system, builder, script, drvs, srcs);
    lemma_built_parts(name, system, builder, script, drvs, srcs);
    lemma_input_drvs(drvs);
    lemma_texts(srcs, "non-string in inputSrcs"@);
    lemma_texts(seq!["-c"@, script], "non-string in args array"@);
    let a = outputs_part(j);
    let g = env_part(j);
    let ps = derivation_parts(j);
    assert(a is Ok && g is Ok) by {
        lemma_part_written(ps, 0);
        lemma_part_written(ps, 6);
        assert(ps[0] == a && ps[6] == g);
    }
    let b = list(true, sort_seq(drvs));
    let c = list(false, srcs);
    let d = aterm_str(system);
    let e = aterm_str(builder);
    let f = list(false, seq!["-c"@, script]);
    lemma_seven(a->Ok_0, b, c, d, e, f, g->Ok_0);
    assert(ps =~= seq![
        Piece::Ok(a->Ok_0),
        Piece::Ok(b),
        Piece::Ok(c),
        Piece::Ok(d),
        Piece::Ok(e),
        Piece::Ok(f),
        Piece::Ok(g->Ok_0),
    ]);
    lemma_whole(a->Ok_0, b, c, d, e, f, g->Ok_0);
}

/// The same text, taken apart from the front.
proof fn lemma_whole(
    a: Seq<u8>,
    b: Seq<u8>,
    c: Seq<u8>,
    d: Seq<u8>,
    e: Seq<u8>,
    f: Seq<u8>,
    g: Seq<u8>,
)
    ensures
        ({
            let m = encode_utf8(","@);
            let start = encode_utf8("Derive("@);
            let end = encode_utf8(")"@);
            start + (a + m + b + m + c + m + d + m + e + m + f + m + g) + end == (start + a + m) + (b
                + (m + (c + (m + (d + (m + (e + (m + (f + (m + g + end)))))))))) 
        }),
{
    let m = encode_utf8(","@);
    let start = encode_utf8("Derive("@);
    let end = encode_utf8(")"@);
    let l1 = a + m;
    let l2 = l1 + b;
    let l3 = l2 + m;
    let l4 = l3 + c;
    let l5 = l4 + m;
    let l6 = l5 + d;
    let l7 = l6 + m;
    let l8 = l7 + e;
    let l9 = l8 + m;
    let l10 = l9 + f;
    let l11 = l10 + m;
    let r1 = m + (g + end);
    let r2 = f + r1;
    let r3 = m + r2;
    let r4 = e + r3;
    let r5 = m + r4;
    let r6 = d + r5;
    let r7 = m + r6;
    let r8 = c + r7;
    let r9 = m + r8;
    let r10 = b + r9;
    lemma_assoc(start, l11 + g, end);
    lemma_assoc(l11, g, end);
    lemma_assoc(l10, m, g + end);
    lemma_assoc(l9, f, r1);
    lemma_assoc(l8, m, r2);
    lemma_assoc(l7, e, r3);
    lemma_assoc(l6, m, r4);
    lemma_assoc(l5, d, r5);
    lemma_assoc(l4, m, r6);
    lemma_assoc(l3, c, r7);
    lemma_assoc(l2, m, r8);
    lemma_assoc(l1, b, r9);
    lemma_assoc(start, l1, r10);
    lemma_assoc(start, a, m);
    lemma_assoc(m, g, end);
}

/// Where a list could be written, each of its items could.
proof fn lemma_part_written(items: Seq<Piece>, i: int)
    requires
        comma_list(items) is Ok,
        0 <= i < items.len(),
    ensures
        items[i] is Ok,
    decreases items.len(),
{
    if i < items.len() - 1 {
        assert(items.drop_last()[i] == items[i]);
        lemma_part_written(items.drop_last(), i);
    }
}

/// The text of a derivation tells all of it: two that are written the same have the
/// same system and builder, run the same script, and read the same sources and the same
/// derivations. So a unit whose script or inputs change gets another derivation.
#[verifier::spinoff_prover]
#[verifier::rlimit(60)]
pub proof fn law_text_tells_all(
    name1: Seq<char>,
    system1: Seq<char>,
    builder1: Seq<char>,
    script1: Seq<char>,
    drvs1: Seq<Seq<char>>,
    srcs1: Seq<Seq<char>>,
    name2: Seq<char>,
    system2: Seq<char>,
    builder2: Seq<char>,
    script2: Seq<char>,
    drvs2: Seq<Seq<char>>,
    srcs2: Seq<Seq<char>>,
)
    requires
        aterm_derivation(derivation_json(name1, system1, builder1, script1, drvs1, srcs1))
            == aterm_derivation(
            derivation_json(name2, system2, builder2, script2, drvs2, srcs2),
        ),
    ensures
        system1 == system2,
        builder1 == builder2,
        script1 == script2,
        srcs1 == srcs2,
        sort_seq(drvs1) == sort_seq(drvs2),
{
    lemma_written(name1, system1, builder1, script1, drvs1, srcs1);
    lemma_written(name2, system2, builder2, script2, drvs2, srcs2);
    let m = encode_utf8(","@);
    let args1 = seq!["-c"@, script1];
    let args2 = seq!["-c"@, script2];
    let f1 = list(false, args1) + back();
    let f2 = list(false, args2) + back();
    let e1 = aterm_str(builder1) + (m + f1);
    let e2 = aterm_str(builder2) + (m + f2);
    let d1 = aterm_str(system1) + (m + e1);
    let d2 = aterm_str(system2) + (m + e2);
    let c1 = list(false, srcs1) + (m + d1);
    let c2 = list(false, srcs2) + (m + d2);
    let b1 = list(true, sort_seq(drvs1)) + (m + c1);
    let b2 = list(true, sort_seq(drvs2)) + (m + c2);
    lemma_cancel(front(), b1, b2);
    lemma_list_readable(true, sort_seq(drvs1), m + c1, sort_seq(drvs2), m + c2);
    lemma_cancel(m, c1, c2);
    lemma_list_readable(false, srcs1, m + d1, srcs2, m + d2);
    lemma_cancel(m, d1, d2);
    law_aterm_string_readable(system1, m + e1, system2, m + e2);
    lemma_cancel(m, e1, e2);
    law_aterm_string_readable(builder1, m + f1, builder2, m + f2);
    lemma_cancel(m, f1, f2);
    lemma_list_readable(false, args1, back(), args2, back());
    assert(args1[1] == args2[1]);
}

} // verus!
