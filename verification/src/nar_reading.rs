//! An archive tells all of the tree that went into it: trees that differ in what is
//! archived are archived differently.
use crate::aterm::Piece;
use crate::nar::{
    dir_entries, entries_bytes, entry_bytes, file_bytes, framed, framed_str, included,
    insert_entry, manifest_name, nar_node, nar_seq, padding_len, FsNode,
};
use crate::text::str_lt;
use vstd::bytes::*;
use vstd::prelude::*;
use vstd::utf8::*;

verus! {

/// What an archive holds.
pub enum Archived {
    /// A regular file: whether it is executable, and its contents.
    File(bool, Seq<u8>),
    /// The target of a symbolic link.
    Link(Seq<char>),
    /// A directory's entries in name order.
    Dir(Seq<(Seq<char>, Archived)>),
}

// ---------------------------------------------------------------------------
// What is archived of a tree
// ---------------------------------------------------------------------------

/// An entry put behind every entry whose name does not come after its own.
pub open spec fn insert_archived(
    s: Seq<(Seq<char>, Archived)>,
    e: (Seq<char>, Archived),
) -> Seq<(Seq<char>, Archived)>
    decreases s.len(),
{
    if s.len() == 0 {
        seq![e]
    } else if str_lt(e.0, s.last().0) {
        insert_archived(s.drop_last(), e).push(s.last())
    } else {
        s.push(e)
    }
}

/// What is archived of the first `n` entries of a directory, in name order.
pub open spec fn archived_entries(
    children: Vec<(String, FsNode)>,
    n: nat,
    rel: Seq<Seq<char>>,
    allowed: Option<Seq<Seq<Seq<char>>>>,
    skeleton: bool,
) -> Seq<(Seq<char>, Archived)>
    decreases children, n,
{
    if n == 0 || n > children@.len() {
        Seq::empty()
    } else {
        let before = archived_entries(children, (n - 1) as nat, rel, allowed, skeleton);
        let name = children@[n - 1].0@;
        let node = children@[n - 1].1;
        if included(node, rel.push(name), allowed) {
            insert_archived(
                before,
                (name, archived_node(node, name, rel.push(name), allowed, skeleton)),
            )
        } else {
            before
        }
    }
}

/// What is archived of a node that bears the name `name`. A skeleton keeps the
/// manifests and blanks every other file.
pub open spec fn archived_node(
    node: FsNode,
    name: Seq<char>,
    rel: Seq<Seq<char>>,
    allowed: Option<Seq<Seq<Seq<char>>>>,
    skeleton: bool,
) -> Archived
    decreases node, 0nat,
{
    match node {
        FsNode::Directory(children) => Archived::Dir(
            archived_entries(children, children@.len(), rel, allowed, skeleton),
        ),
        FsNode::File { executable, contents } => if skeleton && !manifest_name(name) {
            Archived::File(false, Seq::empty())
        } else {
            Archived::File(executable, contents@)
        },
        FsNode::Symlink(target) => Archived::Link(target@),
        _ => Archived::File(false, Seq::empty()),
    }
}

/// What is archived of a tree.
pub open spec fn archived(
    root: FsNode,
    name: Seq<char>,
    allowed: Option<Seq<Seq<Seq<char>>>>,
    skeleton: bool,
) -> Archived {
    archived_node(root, name, Seq::empty(), allowed, skeleton)
}

/// A string whose length the format can hold.
pub open spec fn measurable(s: Seq<char>) -> bool {
    encode_utf8(s).len() <= u64::MAX
}

/// A tree in which the format can hold the length of every name and of every file.
pub open spec fn fits(t: Archived) -> bool
    decreases t, 0nat,
{
    match t {
        Archived::File(_, contents) => contents.len() <= u64::MAX,
        Archived::Link(target) => measurable(target),
        Archived::Dir(v) => all_fit(v, v.len()),
    }
}

/// Whether the first `n` entries fit.
pub open spec fn all_fit(v: Seq<(Seq<char>, Archived)>, n: nat) -> bool
    decreases v, n,
{
    0 < n <= v.len() ==> {
        &&& all_fit(v, (n - 1) as nat)
        &&& measurable(v[n - 1].0)
        &&& fits(v[n - 1].1)
    }
}

// ---------------------------------------------------------------------------
// Words
// ---------------------------------------------------------------------------

proof fn lemma_assoc(x: Seq<u8>, y: Seq<u8>, z: Seq<u8>)
    ensures
        (x + y) + z == x + (y + z),
{
    assert((x + y) + z =~= x + (y + z));
}

proof fn lemma_cancel(p: Seq<u8>, x: Seq<u8>, y: Seq<u8>)
    requires
        p + x == p + y,
    ensures
        x == y,
{
    assert((p + x).skip(p.len() as int) =~= x);
    assert((p + y).skip(p.len() as int) =~= y);
}

/// Framed bytes can be told apart from what follows them.
proof fn lemma_framed_readable(a: Seq<u8>, x: Seq<u8>, b: Seq<u8>, y: Seq<u8>)
    requires
        a.len() <= u64::MAX,
        b.len() <= u64::MAX,
        framed(a) + x == framed(b) + y,
    ensures
        a == b,
        x == y,
{
    lemma_auto_spec_u64_to_from_le_bytes();
    let la = spec_u64_to_le_bytes(a.len() as u64);
    let lb = spec_u64_to_le_bytes(b.len() as u64);
    let za = Seq::new(padding_len(a.len()), |i: int| 0u8);
    let zb = Seq::new(padding_len(b.len()), |i: int| 0u8);
    assert(la.len() == 8 && lb.len() == 8);
    assert(framed(a) + x =~= la + (a + (za + x)));
    assert(framed(b) + y =~= lb + (b + (zb + y)));
    assert((la + (a + (za + x))).take(8) =~= la);
    assert((lb + (b + (zb + y))).take(8) =~= lb);
    assert(a.len() as u64 == b.len() as u64);
    lemma_cancel(la, a + (za + x), b + (zb + y));
    assert((a + (za + x)).take(a.len() as int) =~= a);
    assert((b + (zb + y)).take(a.len() as int) =~= b);
    lemma_cancel(a, za + x, zb + y);
    assert(za =~= zb);
    lemma_cancel(za, x, y);
}

/// Bytes with their frame, followed by `x`.
#[verifier::opaque]
spec fn put_bytes(data: Seq<u8>, x: Seq<u8>) -> Seq<u8> {
    framed(data) + x
}

/// A framed string, followed by `x`.
#[verifier::opaque]
spec fn put(s: Seq<char>, x: Seq<u8>) -> Seq<u8> {
    framed_str(s) + x
}

proof fn lemma_bytes_readable(a: Seq<u8>, x: Seq<u8>, b: Seq<u8>, y: Seq<u8>)
    requires
        a.len() <= u64::MAX,
        b.len() <= u64::MAX,
        put_bytes(a, x) == put_bytes(b, y),
    ensures
        a == b,
        x == y,
{
    reveal(put_bytes);
    lemma_framed_readable(a, x, b, y);
}

proof fn lemma_word_readable(a: Seq<char>, x: Seq<u8>, b: Seq<char>, y: Seq<u8>)
    requires
        measurable(a),
        measurable(b),
        put(a, x) == put(b, y),
    ensures
        a == b,
        x == y,
{
    reveal(put);
    lemma_framed_readable(encode_utf8(a), x, encode_utf8(b), y);
    encode_utf8_decode_utf8(a);
    encode_utf8_decode_utf8(b);
}

/// A word that two texts begin with can be taken off both.
proof fn lemma_word_off(a: Seq<char>, x: Seq<u8>, y: Seq<u8>)
    requires
        put(a, x) == put(a, y),
    ensures
        x == y,
{
    reveal(put);
    lemma_cancel(framed_str(a), x, y);
}

/// The format's own words are short, and those that can stand in one place differ.
proof fn lemma_words()
    ensures
        measurable("regular"@),
        measurable("symlink"@),
        measurable("directory"@),
        measurable("executable"@),
        measurable("contents"@),
        measurable("entry"@),
        measurable(")"@),
        "regular"@ != "symlink"@,
        "regular"@ != "directory"@,
        "symlink"@ != "directory"@,
        "executable"@ != "contents"@,
        "entry"@ != ")"@,
{
    reveal_strlit("regular");
    reveal_strlit("symlink");
    reveal_strlit("directory");
    reveal_strlit("executable");
    reveal_strlit("contents");
    reveal_strlit("entry");
    reveal_strlit(")");
    is_ascii_chars_encode_utf8("regular"@);
    is_ascii_chars_encode_utf8("symlink"@);
    is_ascii_chars_encode_utf8("directory"@);
    is_ascii_chars_encode_utf8("executable"@);
    is_ascii_chars_encode_utf8("contents"@);
    is_ascii_chars_encode_utf8("entry"@);
    is_ascii_chars_encode_utf8(")"@);
    assert("regular"@[0] == 'r' && "symlink"@[0] == 's');
    assert("executable"@.len() == 10 && "contents"@.len() == 8);
    assert("entry"@.len() == 5 && ")"@.len() == 1);
}

// ---------------------------------------------------------------------------
// The written form of what is archived
// ---------------------------------------------------------------------------

/// The archive of what is archived, followed by `x`.
spec fn written(t: Archived, x: Seq<u8>) -> Seq<u8>
    decreases t, 0nat, 1nat,
{
    put("("@, put("type"@, put(kind_word(t), written_body(t, x))))
}

/// The word for what a node is.
spec fn kind_word(t: Archived) -> Seq<char> {
    match t {
        Archived::File(_, _) => "regular"@,
        Archived::Link(_) => "symlink"@,
        Archived::Dir(_) => "directory"@,
    }
}

/// What follows the word for what a node is.
spec fn written_body(t: Archived, x: Seq<u8>) -> Seq<u8>
    decreases t, 0nat, 0nat,
{
    match t {
        Archived::File(executable, contents) => if executable {
            put("executable"@, put(""@, written_contents(contents, x)))
        } else {
            written_contents(contents, x)
        },
        Archived::Link(target) => put("target"@, put(target, put(")"@, x))),
        Archived::Dir(v) => written_from(v, 0, x),
    }
}

/// The contents of a file, the end of its node, and `x`.
spec fn written_contents(contents: Seq<u8>, x: Seq<u8>) -> Seq<u8> {
    put("contents"@, put_bytes(contents, put(")"@, x)))
}

/// The entries from the `i`th on, the end of their directory, and `x`.
spec fn written_from(v: Seq<(Seq<char>, Archived)>, i: nat, x: Seq<u8>) -> Seq<u8>
    decreases v, (v.len() - i) as nat, 0nat,
{
    if i >= v.len() {
        put(")"@, x)
    } else {
        put("entry"@, written_entry(v, i, x))
    }
}

/// What follows the first word of the `i`th entry.
spec fn written_entry(v: Seq<(Seq<char>, Archived)>, i: nat, x: Seq<u8>) -> Seq<u8>
    decreases v, (v.len() - i - 1) as nat, 1nat,
{
    if i < v.len() {
        put(
            "("@,
            put(
                "name"@,
                put(
                    v[i as int].0,
                    put(
                        "node"@,
                        written(v[i as int].1, put(")"@, written_from(v, i + 1, x))),
                    ),
                ),
            ),
        )
    } else {
        Seq::empty()
    }
}

proof fn lemma_written_readable(t: Archived, x: Seq<u8>, s: Archived, y: Seq<u8>)
    requires
        fits(t),
        fits(s),
        written(t, x) == written(s, y),
    ensures
        t == s,
        x == y,
    decreases t, 0nat,
{
    lemma_words();
    let p = put(kind_word(t), written_body(t, x));
    let q = put(kind_word(s), written_body(s, y));
    lemma_word_off("("@, put("type"@, p), put("type"@, q));
    lemma_word_off("type"@, p, q);
    lemma_word_readable(kind_word(t), written_body(t, x), kind_word(s), written_body(s, y));
    match (t, s) {
        (Archived::File(e, c), Archived::File(f, d)) => {
            lemma_file_readable(e, c, x, f, d, y);
        },
        (Archived::Link(a), Archived::Link(b)) => {
            lemma_word_off("target"@, put(a, put(")"@, x)), put(b, put(")"@, y)));
            lemma_word_readable(a, put(")"@, x), b, put(")"@, y));
            lemma_word_off(")"@, x, y);
        },
        (Archived::Dir(v), Archived::Dir(w)) => {
            assert(v.take(0) =~= w.take(0));
            lemma_entries_readable(v, 0, x, w, y);
        },
        _ => {},
    }
}

proof fn lemma_file_readable(
    e: bool,
    c: Seq<u8>,
    x: Seq<u8>,
    f: bool,
    d: Seq<u8>,
    y: Seq<u8>,
)
    requires
        c.len() <= u64::MAX,
        d.len() <= u64::MAX,
        written_body(Archived::File(e, c), x) == written_body(Archived::File(f, d), y),
    ensures
        e == f,
        c == d,
        x == y,
{
    lemma_words();
    let p = put_bytes(c, put(")"@, x));
    let q = put_bytes(d, put(")"@, y));
    let rest_p = put("contents"@, p);
    let rest_q = put("contents"@, q);
    if e && f {
        lemma_word_off("executable"@, put(""@, rest_p), put(""@, rest_q));
        lemma_word_off(""@, rest_p, rest_q);
    } else if e {
        lemma_word_readable("executable"@, put(""@, rest_p), "contents"@, q);
    } else if f {
        lemma_word_readable("contents"@, p, "executable"@, put(""@, rest_q));
    }
    lemma_word_off("contents"@, p, q);
    lemma_bytes_readable(c, put(")"@, x), d, put(")"@, y));
    lemma_word_off(")"@, x, y);
}

proof fn lemma_fits_at(v: Seq<(Seq<char>, Archived)>, n: nat, i: int)
    requires
        0 <= i < n <= v.len(),
        all_fit(v, n),
    ensures
        measurable(v[i].0),
        fits(v[i].1),
    decreases n,
{
    if i < n - 1 {
        lemma_fits_at(v, (n - 1) as nat, i);
    }
}

proof fn lemma_entries_readable(
    v: Seq<(Seq<char>, Archived)>,
    i: nat,
    x: Seq<u8>,
    w: Seq<(Seq<char>, Archived)>,
    y: Seq<u8>,
)
    requires
        i <= v.len(),
        i <= w.len(),
        v.take(i as int) == w.take(i as int),
        fits(Archived::Dir(v)),
        fits(Archived::Dir(w)),
        written_from(v, i, x) == written_from(w, i, y),
    ensures
        v == w,
        x == y,
    decreases v, (v.len() - i) as nat,
{
    lemma_words();
    if i == v.len() && i == w.len() {
        assert(v.take(i as int) =~= v);
        assert(w.take(i as int) =~= w);
        lemma_word_off(")"@, x, y);
    } else if i == v.len() {
        lemma_word_readable(")"@, x, "entry"@, written_entry(w, i, y));
    } else if i == w.len() {
        lemma_word_readable("entry"@, written_entry(v, i, x), ")"@, y);
    } else {
        let (name_v, tree_v) = v[i as int];
        let (name_w, tree_w) = w[i as int];
        lemma_fits_at(v, v.len(), i as int);
        lemma_fits_at(w, w.len(), i as int);
        let next_v = put(")"@, written_from(v, i + 1, x));
        let next_w = put(")"@, written_from(w, i + 1, y));
        let node_v = put("node"@, written(tree_v, next_v));
        let node_w = put("node"@, written(tree_w, next_w));
        let p = put(name_v, node_v);
        let q = put(name_w, node_w);
        lemma_word_off("entry"@, written_entry(v, i, x), written_entry(w, i, y));
        lemma_word_off("("@, put("name"@, p), put("name"@, q));
        lemma_word_off("name"@, p, q);
        lemma_word_readable(name_v, node_v, name_w, node_w);
        lemma_word_off("node"@, written(tree_v, next_v), written(tree_w, next_w));
        lemma_written_readable(v[i as int].1, next_v, w[i as int].1, next_w);
        lemma_word_off(")"@, written_from(v, i + 1, x), written_from(w, i + 1, y));
        assert(v.take(i as int + 1) =~= v.take(i as int).push(v[i as int]));
        assert(w.take(i as int + 1) =~= w.take(i as int).push(w[i as int]));
        lemma_entries_readable(v, i + 1, x, w, y);
    }
}

// ---------------------------------------------------------------------------
// Archives are written so
// ---------------------------------------------------------------------------

/// Whether `b` is the archive of `t`.
spec fn spells(b: Seq<u8>, t: Archived) -> bool {
    forall|x: Seq<u8>| b + x == #[trigger] written(t, x)
}

/// Whether the entries that were archived are the archives of `v`.
spec fn spelled(e: Seq<(Seq<char>, Piece)>, v: Seq<(Seq<char>, Archived)>) -> bool {
    &&& e.len() == v.len()
    &&& forall|i: int|
        0 <= i < e.len() ==> {
            &&& (#[trigger] e[i]).0 == v[i].0
            &&& e[i].1 matches Ok(b) ==> spells(b, v[i].1)
        }
}

proof fn lemma_file_spelled(executable: bool, contents: Seq<u8>)
    ensures
        spells(file_bytes(executable, contents), Archived::File(executable, contents)),
{
    let t = Archived::File(executable, contents);
    assert forall|x: Seq<u8>| file_bytes(executable, contents) + x == #[trigger] written(t, x) by {
        reveal(put);
        reveal(put_bytes);
        let mode = if executable {
            framed_str("executable"@) + framed_str(""@)
        } else {
            Seq::empty()
        };
        lemma_regroup(
            framed_str("("@),
            framed_str("type"@),
            framed_str("regular"@),
            mode,
            framed_str("contents"@),
            framed(contents),
            framed_str(")"@),
            x,
        );
        let rest = written_contents(contents, x);
        if executable {
            lemma_assoc(framed_str("executable"@), framed_str(""@), rest);
        } else {
            assert(mode + rest =~= rest);
        }
    }
}

proof fn lemma_regroup(
    a: Seq<u8>,
    b: Seq<u8>,
    c: Seq<u8>,
    d: Seq<u8>,
    e: Seq<u8>,
    f: Seq<u8>,
    g: Seq<u8>,
    x: Seq<u8>,
)
    ensures
        a + b + c + d + e + f + g + x == a + (b + (c + (d + (e + (f + (g + x)))))),
{
    assert(a + b + c + d + e + f + g + x =~= a + (b + (c + (d + (e + (f + (g + x)))))));
}

proof fn lemma_link_spelled(target: Seq<char>)
    ensures
        spells(
            framed_str("("@) + framed_str("type"@) + framed_str("symlink"@) + framed_str("target"@)
                + framed_str(target) + framed_str(")"@),
            Archived::Link(target),
        ),
{
    let t = Archived::Link(target);
    let b = framed_str("("@) + framed_str("type"@) + framed_str("symlink"@) + framed_str(
        "target"@,
    ) + framed_str(target) + framed_str(")"@);
    assert forall|x: Seq<u8>| b + x == #[trigger] written(t, x) by {
        reveal(put);
        let none = Seq::<u8>::empty();
        lemma_regroup(
            framed_str("("@),
            framed_str("type"@),
            framed_str("symlink"@),
            framed_str("target"@),
            framed_str(target),
            framed_str(")"@),
            none,
            x,
        );
        assert(b + none =~= b);
        assert(none + x =~= x);
    }
}

proof fn lemma_insert_spelled(
    s: Seq<(Seq<char>, Piece)>,
    e: (Seq<char>, Piece),
    v: Seq<(Seq<char>, Archived)>,
    t: (Seq<char>, Archived),
)
    requires
        spelled(s, v),
        e.0 == t.0,
        e.1 matches Ok(b) ==> spells(b, t.1),
    ensures
        spelled(insert_entry(s, e), insert_archived(v, t)),
    decreases s.len(),
{
    if s.len() > 0 {
        assert(s[s.len() - 1].0 == v[s.len() - 1].0);
        if str_lt(e.0, s.last().0) {
            lemma_insert_spelled(s.drop_last(), e, v.drop_last(), t);
        }
    }
}

proof fn lemma_entry_spelled(v: Seq<(Seq<char>, Archived)>, i: nat, b: Seq<u8>, x: Seq<u8>)
    requires
        i < v.len(),
        spells(b, v[i as int].1),
    ensures
        entry_bytes(v[i as int].0, b) + written_from(v, i + 1, x) == written_from(v, i, x),
{
    let y = written_from(v, i + 1, x);
    reveal(put);
    lemma_regroup(
        framed_str("entry"@),
        framed_str("("@),
        framed_str("name"@),
        framed_str(v[i as int].0),
        framed_str("node"@),
        b,
        framed_str(")"@),
        y,
    );
    assert(b + put(")"@, y) == written(v[i as int].1, put(")"@, y)));
}

proof fn lemma_entries_spelled(
    e: Seq<(Seq<char>, Piece)>,
    v: Seq<(Seq<char>, Archived)>,
    n: nat,
    x: Seq<u8>,
)
    requires
        spelled(e, v),
        n <= e.len(),
    ensures
        entries_bytes(e.take(n as int)) matches Ok(b) ==> b + written_from(v, n, x)
            == written_from(v, 0, x),
    decreases n,
{
    let head = e.take(n as int);
    if n == 0 {
        assert(Seq::<u8>::empty() + written_from(v, 0, x) =~= written_from(v, 0, x));
    } else if let Ok(b) = entries_bytes(head) {
        let k = (n - 1) as nat;
        lemma_entries_spelled(e, v, k, x);
        assert(head.drop_last() =~= e.take(k as int));
        assert(head.last() == e[k as int]);
        let acc = entries_bytes(head.drop_last())->Ok_0;
        let c = head.last().1->Ok_0;
        lemma_entry_spelled(v, k, c, x);
        lemma_assoc(acc, entry_bytes(v[k as int].0, c), written_from(v, n, x));
    }
}

proof fn lemma_dir_spelled(
    children: Vec<(String, FsNode)>,
    n: nat,
    rel: Seq<Seq<char>>,
    allowed: Option<Seq<Seq<Seq<char>>>>,
    skeleton: bool,
)
    ensures
        spelled(
            dir_entries(children, n, rel, allowed, skeleton),
            archived_entries(children, n, rel, allowed, skeleton),
        ),
    decreases children, n,
{
    if n > 0 && n <= children@.len() {
        lemma_dir_spelled(children, (n - 1) as nat, rel, allowed, skeleton);
        let name = children@[n - 1].0@;
        let node = children@[n - 1].1;
        let below = rel.push(name);
        if included(node, below, allowed) {
            lemma_node_spelled(node, name, below, allowed, skeleton);
            lemma_insert_spelled(
                dir_entries(children, (n - 1) as nat, rel, allowed, skeleton),
                (name, nar_node(node, name, below, allowed, skeleton)),
                archived_entries(children, (n - 1) as nat, rel, allowed, skeleton),
                (name, archived_node(node, name, below, allowed, skeleton)),
            );
        }
    }
}

proof fn lemma_node_spelled(
    node: FsNode,
    name: Seq<char>,
    rel: Seq<Seq<char>>,
    allowed: Option<Seq<Seq<Seq<char>>>>,
    skeleton: bool,
)
    ensures
        nar_node(node, name, rel, allowed, skeleton) matches Ok(b) ==> spells(
            b,
            archived_node(node, name, rel, allowed, skeleton),
        ),
    decreases node, 0nat,
{
    match node {
        FsNode::Directory(children) => {
            let e = dir_entries(children, children@.len(), rel, allowed, skeleton);
            let v = archived_entries(children, children@.len(), rel, allowed, skeleton);
            lemma_dir_spelled(children, children@.len(), rel, allowed, skeleton);
            if let Ok(b) = entries_bytes(e) {
                lemma_directory_spelled(e, v, b);
            }
        },
        FsNode::File { executable, contents } => {
            lemma_file_spelled(executable, contents@);
            lemma_file_spelled(false, Seq::empty());
        },
        FsNode::Symlink(target) => {
            lemma_link_spelled(target@);
        },
        _ => {
            lemma_file_spelled(false, Seq::empty());
        },
    }
}

proof fn lemma_directory_spelled(
    e: Seq<(Seq<char>, Piece)>,
    v: Seq<(Seq<char>, Archived)>,
    b: Seq<u8>,
)
    requires
        spelled(e, v),
        entries_bytes(e) == Ok::<Seq<u8>, Seq<char>>(b),
    ensures
        spells(
            framed_str("("@) + framed_str("type"@) + framed_str("directory"@) + b + framed_str(
                ")"@,
            ),
            Archived::Dir(v),
        ),
{
    let t = Archived::Dir(v);
    let whole = framed_str("("@) + framed_str("type"@) + framed_str("directory"@) + b
        + framed_str(")"@);
    assert forall|x: Seq<u8>| whole + x == #[trigger] written(t, x) by {
        lemma_entries_spelled(e, v, e.len(), x);
        assert(e.take(e.len() as int) =~= e);
        reveal(put);
        let none = Seq::<u8>::empty();
        lemma_regroup(
            framed_str("("@),
            framed_str("type"@),
            framed_str("directory"@),
            b,
            framed_str(")"@),
            none,
            none,
            x,
        );
        assert(whole + none =~= whole);
        assert(none + x =~= x);
    }
}

// ---------------------------------------------------------------------------
// Laws
// ---------------------------------------------------------------------------

/// Trees of which the same is archived have the same archive, whatever its size.
pub proof fn law_archived_fixes_archive(
    a: FsNode,
    name_a: Seq<char>,
    allowed_a: Option<Seq<Seq<Seq<char>>>>,
    skeleton_a: bool,
    b: FsNode,
    name_b: Seq<char>,
    allowed_b: Option<Seq<Seq<Seq<char>>>>,
    skeleton_b: bool,
)
    requires
        nar_seq(a, name_a, allowed_a, skeleton_a) is Ok,
        nar_seq(b, name_b, allowed_b, skeleton_b) is Ok,
        archived(a, name_a, allowed_a, skeleton_a) == archived(b, name_b, allowed_b, skeleton_b),
    ensures
        nar_seq(a, name_a, allowed_a, skeleton_a) == nar_seq(b, name_b, allowed_b, skeleton_b),
{
    let none = Seq::<u8>::empty();
    let top = Seq::<Seq<char>>::empty();
    let t = archived(a, name_a, allowed_a, skeleton_a);
    lemma_node_spelled(a, name_a, top, allowed_a, skeleton_a);
    lemma_node_spelled(b, name_b, top, allowed_b, skeleton_b);
    let p = nar_node(a, name_a, top, allowed_a, skeleton_a)->Ok_0;
    let q = nar_node(b, name_b, top, allowed_b, skeleton_b)->Ok_0;
    assert(p + none == written(t, none));
    assert(q + none == written(t, none));
    assert(p + none =~= p);
    assert(q + none =~= q);
}

/// Two trees have the same archive exactly if the same is archived of them: the same
/// names, the same modes and the same contents. Of a skeleton that is the set of paths
/// and the manifests, so that an added or removed file and an edited manifest change
/// the archive.
pub proof fn law_archive_tells_all(
    a: FsNode,
    name_a: Seq<char>,
    allowed_a: Option<Seq<Seq<Seq<char>>>>,
    skeleton_a: bool,
    b: FsNode,
    name_b: Seq<char>,
    allowed_b: Option<Seq<Seq<Seq<char>>>>,
    skeleton_b: bool,
)
    requires
        nar_seq(a, name_a, allowed_a, skeleton_a) is Ok,
        nar_seq(b, name_b, allowed_b, skeleton_b) is Ok,
        fits(archived(a, name_a, allowed_a, skeleton_a)),
        fits(archived(b, name_b, allowed_b, skeleton_b)),
    ensures
        nar_seq(a, name_a, allowed_a, skeleton_a) == nar_seq(b, name_b, allowed_b, skeleton_b)
            <==> archived(a, name_a, allowed_a, skeleton_a) == archived(
            b,
            name_b,
            allowed_b,
            skeleton_b,
        ),
{
    let none = Seq::<u8>::empty();
    let top = Seq::<Seq<char>>::empty();
    let t = archived(a, name_a, allowed_a, skeleton_a);
    let s = archived(b, name_b, allowed_b, skeleton_b);
    lemma_node_spelled(a, name_a, top, allowed_a, skeleton_a);
    lemma_node_spelled(b, name_b, top, allowed_b, skeleton_b);
    let p = nar_node(a, name_a, top, allowed_a, skeleton_a)->Ok_0;
    let q = nar_node(b, name_b, top, allowed_b, skeleton_b)->Ok_0;
    assert(p + none == written(t, none));
    assert(q + none == written(s, none));
    assert(p + none =~= p);
    assert(q + none =~= q);
    let magic = framed_str("nix-archive-1"@);
    if nar_seq(a, name_a, allowed_a, skeleton_a) == nar_seq(b, name_b, allowed_b, skeleton_b) {
        lemma_cancel(magic, p, q);
        lemma_written_readable(t, none, s, none);
    }
}

} // verus!
