//! What the planner's skeleton source tells: which paths there are, and what the manifests
//! hold. The path of the skeleton moves with these and with nothing else.
use crate::nar::{included, manifest_name, nar_seq, nar_store_path, FsNode};
use crate::nar_reading::{
    archived, archived_entries, archived_node, fits, insert_archived, law_archive_tells_all,
    law_archived_fixes_archive, Archived,
};
use crate::text::{
    ends, lemma_str_lt_order, lemma_strictly_sorted_unique, str_lt, strictly_sorted,
};
use vstd::prelude::*;

verus! {

/// What stands at a path of a skeleton.
pub enum Mark {
    Directory,
    /// A manifest: whether it is executable, and its contents.
    Manifest(bool, Seq<u8>),
    /// Any other file, whatever it holds.
    Source,
    /// The target of a symbolic link.
    Link(Seq<char>),
}

/// The mark of a node that bears the name `name`. What could not be read counts as an
/// empty file; a tree that needs it has no skeleton.
pub open spec fn mark_of(node: FsNode, name: Seq<char>) -> Mark {
    match node {
        FsNode::Directory(_) => Mark::Directory,
        FsNode::Symlink(target) => Mark::Link(target@),
        FsNode::File { executable, contents } => if manifest_name(name) {
            Mark::Manifest(executable, contents@)
        } else {
            Mark::Source
        },
        _ => if manifest_name(name) {
            Mark::Manifest(false, Seq::empty())
        } else {
            Mark::Source
        },
    }
}

/// Whether the mark stands at a path below a node, among what goes into the archive.
pub open spec fn stands(
    node: FsNode,
    name: Seq<char>,
    rel: Seq<Seq<char>>,
    allowed: Option<Seq<Seq<Seq<char>>>>,
    path: Seq<Seq<char>>,
    what: Mark,
) -> bool
    decreases path.len(),
{
    if path.len() == 0 {
        mark_of(node, name) == what
    } else {
        match node {
            FsNode::Directory(children) => exists|i: int|
                0 <= i < children@.len() && (#[trigger] children@[i]).0@ == path[0] && included(
                    children@[i].1,
                    rel.push(path[0]),
                    allowed,
                ) && stands(
                    children@[i].1,
                    path[0],
                    rel.push(path[0]),
                    allowed,
                    path.skip(1),
                    what,
                ),
            _ => false,
        }
    }
}

/// Whether the mark stands at a path of a project's skeleton.
pub open spec fn marked(
    project: FsNode,
    name: Seq<char>,
    allowed: Option<Seq<Seq<Seq<char>>>>,
    path: Seq<Seq<char>>,
    what: Mark,
) -> bool {
    stands(project, name, Seq::empty(), allowed, path, what)
}

/// Two projects have the same paths and the same manifests.
pub open spec fn same_marks(
    a: FsNode,
    allowed_a: Option<Seq<Seq<Seq<char>>>>,
    b: FsNode,
    allowed_b: Option<Seq<Seq<Seq<char>>>>,
    name: Seq<char>,
) -> bool {
    forall|path: Seq<Seq<char>>, what: Mark|
        #![trigger marked(a, name, allowed_a, path, what)]
        #![trigger marked(b, name, allowed_b, path, what)]
        marked(a, name, allowed_a, path, what) <==> marked(b, name, allowed_b, path, what)
}

/// No directory lists a name twice.
pub open spec fn names_apart(node: FsNode) -> bool
    decreases node, 0nat,
{
    match node {
        FsNode::Directory(children) => distinct_names(children@) && all_apart(
            children,
            children@.len(),
        ),
        _ => true,
    }
}

/// No two entries have the same name.
pub open spec fn distinct_names(children: Seq<(String, FsNode)>) -> bool {
    forall|i: int, j: int|
        0 <= i < j < children.len() ==> (#[trigger] children[i]).0@ != (#[trigger] children[j]).0@
}

/// No directory below the first `n` entries lists a name twice.
pub open spec fn all_apart(children: Vec<(String, FsNode)>, n: nat) -> bool
    decreases children, n,
{
    0 < n <= children@.len() ==> all_apart(children, (n - 1) as nat) && names_apart(
        children@[n - 1].1,
    )
}

proof fn lemma_apart_at(children: Vec<(String, FsNode)>, n: nat, i: int)
    requires
        0 <= i < n <= children@.len(),
        all_apart(children, n),
    ensures
        names_apart(children@[i].1),
    decreases n,
{
    if i < n - 1 {
        lemma_apart_at(children, (n - 1) as nat, i);
    }
}

// ---------------------------------------------------------------------------
// Entries
// ---------------------------------------------------------------------------

/// What is archived of a directory's entry.
spec fn entry_of(
    children: Vec<(String, FsNode)>,
    i: int,
    rel: Seq<Seq<char>>,
    allowed: Option<Seq<Seq<Seq<char>>>>,
) -> (Seq<char>, Archived) {
    let name = children@[i].0@;
    (name, archived_node(children@[i].1, name, rel.push(name), allowed, true))
}

/// Whether a directory's entry is archived.
spec fn goes_in(
    children: Vec<(String, FsNode)>,
    i: int,
    rel: Seq<Seq<char>>,
    allowed: Option<Seq<Seq<Seq<char>>>>,
) -> bool {
    included(children@[i].1, rel.push(children@[i].0@), allowed)
}

spec fn names(v: Seq<(Seq<char>, Archived)>) -> Seq<Seq<char>> {
    Seq::new(v.len(), |i: int| v[i].0)
}

proof fn lemma_insert_members(
    s: Seq<(Seq<char>, Archived)>,
    e: (Seq<char>, Archived),
    x: (Seq<char>, Archived),
)
    ensures
        insert_archived(s, e).contains(x) <==> s.contains(x) || x == e,
    decreases s.len(),
{
    let r = insert_archived(s, e);
    if s.len() == 0 {
        assert(r[0] == e);
    } else if str_lt(e.0, s.last().0) {
        lemma_insert_members(s.drop_last(), e, x);
        let t = insert_archived(s.drop_last(), e);
        lemma_push_members(t, s.last(), x);
        lemma_push_members(s.drop_last(), s.last(), x);
        assert(s.drop_last().push(s.last()) =~= s);
    } else {
        lemma_push_members(s, e, x);
    }
}

proof fn lemma_push_members(
    s: Seq<(Seq<char>, Archived)>,
    e: (Seq<char>, Archived),
    x: (Seq<char>, Archived),
)
    ensures
        s.push(e).contains(x) <==> s.contains(x) || x == e,
{
    let r = s.push(e);
    if s.contains(x) {
        let i = choose|i: int| 0 <= i < s.len() && s[i] == x;
        assert(r[i] == x);
    }
    if x == e {
        assert(r[s.len() as int] == x);
    }
    if r.contains(x) {
        let i = choose|i: int| 0 <= i < r.len() && r[i] == x;
        if i < s.len() {
            assert(s[i] == x);
        }
    }
}

/// The archived entries are those of the directory that go in.
proof fn lemma_entries_members(
    children: Vec<(String, FsNode)>,
    n: nat,
    rel: Seq<Seq<char>>,
    allowed: Option<Seq<Seq<Seq<char>>>>,
    x: (Seq<char>, Archived),
)
    requires
        n <= children@.len(),
    ensures
        archived_entries(children, n, rel, allowed, true).contains(x) <==> exists|i: int|
            0 <= i < n && #[trigger] goes_in(children, i, rel, allowed) && x == entry_of(
                children,
                i,
                rel,
                allowed,
            ),
    decreases n,
{
    if n > 0 {
        let m = (n - 1) as nat;
        lemma_entries_members(children, m, rel, allowed, x);
        let before = archived_entries(children, m, rel, allowed, true);
        let e = entry_of(children, n - 1, rel, allowed);
        if goes_in(children, n - 1, rel, allowed) {
            lemma_insert_members(before, e, x);
        }
    }
}

proof fn lemma_insert_sorted(s: Seq<(Seq<char>, Archived)>, e: (Seq<char>, Archived))
    requires
        strictly_sorted(names(s)),
        forall|i: int| 0 <= i < s.len() ==> (#[trigger] s[i]).0 != e.0,
    ensures
        strictly_sorted(names(insert_archived(s, e))),
    decreases s.len(),
{
    let r = insert_archived(s, e);
    let last = s.len() - 1;
    if s.len() == 0 {
    } else if str_lt(e.0, s.last().0) {
        let t = s.drop_last();
        let q = insert_archived(t, e);
        assert(strictly_sorted(names(t))) by {
            assert forall|i: int, j: int| 0 <= i < j < t.len() implies str_lt(
                #[trigger] names(t)[i],
                #[trigger] names(t)[j],
            ) by {
                assert(str_lt(names(s)[i], names(s)[j]));
            }
        }
        lemma_insert_sorted(t, e);
        assert forall|i: int, j: int| 0 <= i < j < r.len() implies str_lt(
            #[trigger] names(r)[i],
            #[trigger] names(r)[j],
        ) by {
            if j < q.len() {
                assert(str_lt(names(q)[i], names(q)[j]));
            } else {
                lemma_insert_members(t, e, q[i]);
                assert(q.contains(q[i]));
                if q[i] != e {
                    let k = choose|k: int| 0 <= k < t.len() && t[k] == q[i];
                    assert(str_lt(names(s)[k], names(s)[last]));
                }
            }
        }
    } else {
        assert(s[last].0 != e.0);
        lemma_str_lt_order(s.last().0, e.0, e.0);
        assert forall|i: int, j: int| 0 <= i < j < r.len() implies str_lt(
            #[trigger] names(r)[i],
            #[trigger] names(r)[j],
        ) by {
            if j < s.len() {
                assert(str_lt(names(s)[i], names(s)[j]));
            } else if i < last {
                assert(str_lt(names(s)[i], names(s)[last]));
                lemma_str_lt_order(s[i].0, s[last].0, e.0);
            }
        }
    }
}

/// The archived entries of a directory stand in strict name order.
proof fn lemma_entries_sorted(
    children: Vec<(String, FsNode)>,
    n: nat,
    rel: Seq<Seq<char>>,
    allowed: Option<Seq<Seq<Seq<char>>>>,
)
    requires
        distinct_names(children@),
        n <= children@.len(),
    ensures
        strictly_sorted(names(archived_entries(children, n, rel, allowed, true))),
    decreases n,
{
    if n > 0 {
        let m = (n - 1) as nat;
        lemma_entries_sorted(children, m, rel, allowed);
        let before = archived_entries(children, m, rel, allowed, true);
        let e = entry_of(children, n - 1, rel, allowed);
        if goes_in(children, n - 1, rel, allowed) {
            assert forall|k: int| 0 <= k < before.len() implies (#[trigger] before[k]).0 != e.0 by {
                lemma_entries_members(children, m, rel, allowed, before[k]);
                assert(before.contains(before[k]));
                let i = choose|i: int|
                    0 <= i < m && #[trigger] goes_in(children, i, rel, allowed) && before[k]
                        == entry_of(children, i, rel, allowed);
                assert(children@[i].0@ != children@[n - 1].0@);
            }
            lemma_insert_sorted(before, e);
        }
    }
}

// ---------------------------------------------------------------------------
// Marks in what is archived
// ---------------------------------------------------------------------------

/// What is archived at a place, without what lies below it.
spec fn leaf(t: Archived) -> Archived {
    match t {
        Archived::Dir(_) => Archived::Dir(Seq::empty()),
        _ => t,
    }
}

/// How a mark is archived.
spec fn shown(what: Mark) -> Archived {
    match what {
        Mark::Directory => Archived::Dir(Seq::empty()),
        Mark::Manifest(executable, contents) => Archived::File(executable, contents),
        Mark::Source => Archived::File(false, Seq::empty()),
        Mark::Link(target) => Archived::Link(target),
    }
}

/// Whether the leaf is archived at the path.
spec fn holds(t: Archived, path: Seq<Seq<char>>, what: Archived) -> bool
    decreases path.len(),
{
    if path.len() == 0 {
        leaf(t) == what
    } else {
        match t {
            Archived::Dir(v) => exists|p: int|
                0 <= p < v.len() && (#[trigger] v[p]).0 == path[0] && holds(
                    v[p].1,
                    path.skip(1),
                    what,
                ),
            _ => false,
        }
    }
}

/// The name at the end of a path.
spec fn end_name(name: Seq<char>, path: Seq<Seq<char>>) -> Seq<char> {
    if path.len() == 0 {
        name
    } else {
        path.last()
    }
}

/// A file is marked as a manifest if its name is that of one.
spec fn named_so(what: Mark, name: Seq<char>) -> bool {
    match what {
        Mark::Manifest(_, _) => manifest_name(name),
        Mark::Source => !manifest_name(name),
        _ => true,
    }
}

proof fn lemma_holds_below(
    t: Archived,
    p: int,
    path: Seq<Seq<char>>,
    what: Archived,
)
    requires
        t is Dir,
        0 <= p < t->Dir_0.len(),
        path.len() > 0,
        t->Dir_0[p].0 == path[0],
        holds(t->Dir_0[p].1, path.skip(1), what),
    ensures
        holds(t, path, what),
{
}

proof fn lemma_holds_here(t: Archived, path: Seq<Seq<char>>, what: Archived)
    requires
        path.len() == 0,
    ensures
        holds(t, path, what) == (leaf(t) == what),
{
}

proof fn lemma_stands_held(
    node: FsNode,
    name: Seq<char>,
    rel: Seq<Seq<char>>,
    allowed: Option<Seq<Seq<Seq<char>>>>,
    path: Seq<Seq<char>>,
    what: Mark,
)
    requires
        stands(node, name, rel, allowed, path, what),
    ensures
        holds(archived_node(node, name, rel, allowed, true), path, shown(what)),
        named_so(what, end_name(name, path)),
    decreases path.len(),
{
    if path.len() > 0 {
        let children = node->Directory_0;
        let first = path[0];
        let i = choose|i: int|
            0 <= i < children@.len() && (#[trigger] children@[i]).0@ == first && included(
                children@[i].1,
                rel.push(first),
                allowed,
            ) && stands(children@[i].1, first, rel.push(first), allowed, path.skip(1), what);
        lemma_stands_held(children@[i].1, first, rel.push(first), allowed, path.skip(1), what);
        let v = archived_entries(children, children@.len(), rel, allowed, true);
        let e = entry_of(children, i, rel, allowed);
        lemma_entries_members(children, children@.len(), rel, allowed, e);
        assert(goes_in(children, i, rel, allowed));
        assert(v.contains(e));
        let p = choose|p: int| 0 <= p < v.len() && v[p] == e;
        lemma_holds_below(
            archived_node(node, name, rel, allowed, true),
            p,
            path,
            shown(what),
        );
    } else {
        lemma_holds_here(archived_node(node, name, rel, allowed, true), path, shown(what));
    }
}

proof fn lemma_held_stands(
    node: FsNode,
    name: Seq<char>,
    rel: Seq<Seq<char>>,
    allowed: Option<Seq<Seq<Seq<char>>>>,
    path: Seq<Seq<char>>,
    what: Archived,
) -> (mark: Mark)
    requires
        holds(archived_node(node, name, rel, allowed, true), path, what),
    ensures
        stands(node, name, rel, allowed, path, mark),
        shown(mark) == what,
    decreases path.len(),
{
    if path.len() == 0 {
        mark_of(node, name)
    } else {
        let children = node->Directory_0;
        let first = path[0];
        let v = archived_entries(children, children@.len(), rel, allowed, true);
        let p = choose|p: int|
            0 <= p < v.len() && (#[trigger] v[p]).0 == first && holds(v[p].1, path.skip(1), what);
        assert(v.contains(v[p]));
        lemma_entries_members(children, children@.len(), rel, allowed, v[p]);
        let i = choose|i: int|
            0 <= i < children@.len() && #[trigger] goes_in(children, i, rel, allowed) && v[p]
                == entry_of(children, i, rel, allowed);
        let mark = lemma_held_stands(
            children@[i].1,
            first,
            rel.push(first),
            allowed,
            path.skip(1),
            what,
        );
        assert(children@[i].0@ == first);
        mark
    }
}

// ---------------------------------------------------------------------------
// What the marks fix
// ---------------------------------------------------------------------------

/// The same leaves are archived at the same paths.
spec fn same_held(t: Archived, s: Archived) -> bool {
    forall|path: Seq<Seq<char>>, what: Archived|
        #![trigger holds(t, path, what)]
        #![trigger holds(s, path, what)]
        holds(t, path, what) <==> holds(s, path, what)
}

spec fn in_order(t: Archived) -> bool {
    t is Dir ==> strictly_sorted(names(t->Dir_0))
}

proof fn lemma_found_below(t: Archived, path: Seq<Seq<char>>, what: Archived) -> (p: int)
    requires
        path.len() > 0,
        holds(t, path, what),
    ensures
        t is Dir,
        0 <= p < t->Dir_0.len(),
        t->Dir_0[p].0 == path[0],
        holds(t->Dir_0[p].1, path.skip(1), what),
{
    choose|p: int|
        0 <= p < t->Dir_0.len() && (#[trigger] t->Dir_0[p]).0 == path[0] && holds(
            t->Dir_0[p].1,
            path.skip(1),
            what,
        )
}

/// The leaves tell whether there is a directory.
proof fn lemma_same_leaf(t: Archived, s: Archived)
    requires
        same_held(t, s),
    ensures
        leaf(t) == leaf(s),
{
    let here = Seq::<Seq<char>>::empty();
    lemma_holds_here(t, here, leaf(t));
    lemma_holds_here(s, here, leaf(t));
    assert(holds(t, here, leaf(t)));
}

/// A name of one directory is a name of the other.
proof fn lemma_name_held(t: Archived, s: Archived, p: int) -> (q: int)
    requires
        t is Dir,
        s is Dir,
        same_held(t, s),
        0 <= p < t->Dir_0.len(),
    ensures
        0 <= q < s->Dir_0.len(),
        s->Dir_0[q].0 == t->Dir_0[p].0,
{
    let (name, child) = t->Dir_0[p];
    let path = seq![name];
    assert(path.skip(1) =~= Seq::empty());
    lemma_holds_here(child, path.skip(1), leaf(child));
    lemma_holds_below(t, p, path, leaf(child));
    lemma_found_below(s, path, leaf(child))
}

proof fn lemma_same_names(t: Archived, s: Archived)
    requires
        t is Dir,
        s is Dir,
        in_order(t),
        in_order(s),
        same_held(t, s),
    ensures
        names(t->Dir_0) == names(s->Dir_0),
{
    let a = names(t->Dir_0);
    let b = names(s->Dir_0);
    assert forall|y: Seq<char>| #[trigger] a.contains(y) <==> b.contains(y) by {
        if a.contains(y) {
            let p = choose|p: int| 0 <= p < a.len() && a[p] == y;
            let q = lemma_name_held(t, s, p);
            assert(b[q] == y);
        }
        if b.contains(y) {
            let p = choose|p: int| 0 <= p < b.len() && b[p] == y;
            let q = lemma_name_held(s, t, p);
            assert(a[q] == y);
        }
    }
    lemma_strictly_sorted_unique(a, b);
}

/// What is held below one entry is held below the other of that name.
proof fn lemma_held_in_child(
    t: Archived,
    s: Archived,
    p: int,
    path: Seq<Seq<char>>,
    what: Archived,
)
    requires
        t is Dir,
        s is Dir,
        in_order(s),
        same_held(t, s),
        names(t->Dir_0) == names(s->Dir_0),
        0 <= p < t->Dir_0.len(),
        holds(t->Dir_0[p].1, path, what),
    ensures
        p < s->Dir_0.len(),
        holds(s->Dir_0[p].1, path, what),
{
    let a = names(t->Dir_0);
    let b = names(s->Dir_0);
    let whole = seq![t->Dir_0[p].0] + path;
    assert(whole.skip(1) =~= path);
    lemma_holds_below(t, p, whole, what);
    assert(holds(s, whole, what));
    let q = lemma_found_below(s, whole, what);
    assert(a[p] == b[p] && b[q] == a[p]);
    lemma_str_lt_order(b[p], b[p], b[p]);
    if p < q {
        assert(str_lt(b[p], b[q]));
    } else if q < p {
        assert(str_lt(b[q], b[p]));
    }
}

proof fn lemma_same_in_child(t: Archived, s: Archived, p: int)
    requires
        t is Dir,
        s is Dir,
        in_order(t),
        in_order(s),
        same_held(t, s),
        names(t->Dir_0) == names(s->Dir_0),
        0 <= p < t->Dir_0.len(),
        t->Dir_0.len() == s->Dir_0.len(),
    ensures
        same_held(t->Dir_0[p].1, s->Dir_0[p].1),
{
    let c = t->Dir_0[p].1;
    let d = s->Dir_0[p].1;
    assert forall|path: Seq<Seq<char>>, what: Archived|
        #![trigger holds(c, path, what)]
        #![trigger holds(d, path, what)]
        holds(c, path, what) <==> holds(d, path, what) by {
        if holds(c, path, what) {
            lemma_held_in_child(t, s, p, path, what);
        }
        if holds(d, path, what) {
            lemma_held_in_child(s, t, p, path, what);
        }
    }
}

/// Trees with the same marks are archived alike.
proof fn lemma_same_archived(
    a: FsNode,
    allowed_a: Option<Seq<Seq<Seq<char>>>>,
    b: FsNode,
    allowed_b: Option<Seq<Seq<Seq<char>>>>,
    name: Seq<char>,
    rel: Seq<Seq<char>>,
)
    requires
        names_apart(a),
        names_apart(b),
        same_held(
            archived_node(a, name, rel, allowed_a, true),
            archived_node(b, name, rel, allowed_b, true),
        ),
    ensures
        archived_node(a, name, rel, allowed_a, true) == archived_node(
            b,
            name,
            rel,
            allowed_b,
            true,
        ),
    decreases a,
{
    let t = archived_node(a, name, rel, allowed_a, true);
    let s = archived_node(b, name, rel, allowed_b, true);
    lemma_same_leaf(t, s);
    if t is Dir {
        let x = a->Directory_0;
        let y = b->Directory_0;
        let v = t->Dir_0;
        let w = s->Dir_0;
        lemma_entries_sorted(x, x@.len(), rel, allowed_a);
        lemma_entries_sorted(y, y@.len(), rel, allowed_b);
        lemma_same_names(t, s);
        assert(names(v).len() == v.len() && names(w).len() == w.len());
        assert forall|p: int| 0 <= p < v.len() implies v[p] == w[p] by {
            assert(names(v)[p] == names(w)[p]);
            let i = lemma_entry_origin(x, p, rel, allowed_a);
            let j = lemma_entry_origin(y, p, rel, allowed_b);
            lemma_apart_at(x, x@.len(), i);
            lemma_apart_at(y, y@.len(), j);
            lemma_same_in_child(t, s, p);
            assert(v[p] == entry_of(x, i, rel, allowed_a));
            assert(w[p] == entry_of(y, j, rel, allowed_b));
            lemma_same_archived(
                x@[i].1,
                allowed_a,
                y@[j].1,
                allowed_b,
                v[p].0,
                rel.push(v[p].0),
            );
        }
        assert(v =~= w);
    }
}

/// The entry of a directory from which an archived one was made.
proof fn lemma_entry_origin(
    children: Vec<(String, FsNode)>,
    p: int,
    rel: Seq<Seq<char>>,
    allowed: Option<Seq<Seq<Seq<char>>>>,
) -> (i: int)
    requires
        0 <= p < archived_entries(children, children@.len(), rel, allowed, true).len(),
    ensures
        0 <= i < children@.len(),
        archived_entries(children, children@.len(), rel, allowed, true)[p] == entry_of(
            children,
            i,
            rel,
            allowed,
        ),
{
    let v = archived_entries(children, children@.len(), rel, allowed, true);
    lemma_entries_members(children, children@.len(), rel, allowed, v[p]);
    assert(v.contains(v[p]));
    choose|i: int|
        0 <= i < children@.len() && #[trigger] goes_in(children, i, rel, allowed) && v[p]
            == entry_of(children, i, rel, allowed)
}

/// Trees have the same marks exactly if they hold the same.
proof fn lemma_marks_held(
    a: FsNode,
    allowed_a: Option<Seq<Seq<Seq<char>>>>,
    b: FsNode,
    allowed_b: Option<Seq<Seq<Seq<char>>>>,
    name: Seq<char>,
)
    ensures
        same_marks(a, allowed_a, b, allowed_b, name) <==> same_held(
            archived(a, name, allowed_a, true),
            archived(b, name, allowed_b, true),
        ),
{
    let t = archived(a, name, allowed_a, true);
    let s = archived(b, name, allowed_b, true);
    if same_marks(a, allowed_a, b, allowed_b, name) {
        assert forall|path: Seq<Seq<char>>, what: Archived|
            #![trigger holds(t, path, what)]
            #![trigger holds(s, path, what)]
            holds(t, path, what) <==> holds(s, path, what) by {
            if holds(t, path, what) {
                lemma_held_through(a, allowed_a, b, allowed_b, name, path, what);
            }
            if holds(s, path, what) {
                lemma_held_through(b, allowed_b, a, allowed_a, name, path, what);
            }
        }
    }
    if same_held(t, s) {
        assert forall|path: Seq<Seq<char>>, what: Mark|
            #![trigger marked(a, name, allowed_a, path, what)]
            #![trigger marked(b, name, allowed_b, path, what)]
            marked(a, name, allowed_a, path, what) <==> marked(b, name, allowed_b, path, what) by {
            if marked(a, name, allowed_a, path, what) {
                lemma_marked_through(a, allowed_a, b, allowed_b, name, path, what);
            }
            if marked(b, name, allowed_b, path, what) {
                lemma_marked_through(b, allowed_b, a, allowed_a, name, path, what);
            }
        }
    }
}

proof fn lemma_held_through(
    a: FsNode,
    allowed_a: Option<Seq<Seq<Seq<char>>>>,
    b: FsNode,
    allowed_b: Option<Seq<Seq<Seq<char>>>>,
    name: Seq<char>,
    path: Seq<Seq<char>>,
    what: Archived,
)
    requires
        same_marks(a, allowed_a, b, allowed_b, name),
        holds(archived(a, name, allowed_a, true), path, what),
    ensures
        holds(archived(b, name, allowed_b, true), path, what),
{
    let top = Seq::<Seq<char>>::empty();
    let mark = lemma_held_stands(a, name, top, allowed_a, path, what);
    assert(marked(a, name, allowed_a, path, mark));
    lemma_stands_held(b, name, top, allowed_b, path, mark);
}

proof fn lemma_marked_through(
    a: FsNode,
    allowed_a: Option<Seq<Seq<Seq<char>>>>,
    b: FsNode,
    allowed_b: Option<Seq<Seq<Seq<char>>>>,
    name: Seq<char>,
    path: Seq<Seq<char>>,
    what: Mark,
)
    requires
        same_held(archived(a, name, allowed_a, true), archived(b, name, allowed_b, true)),
        marked(a, name, allowed_a, path, what),
    ensures
        marked(b, name, allowed_b, path, what),
{
    let top = Seq::<Seq<char>>::empty();
    lemma_stands_held(a, name, top, allowed_a, path, what);
    assert(holds(archived(a, name, allowed_a, true), path, shown(what)));
    let mark = lemma_held_stands(b, name, top, allowed_b, path, shown(what));
    lemma_stands_held(b, name, top, allowed_b, path, mark);
    assert(mark == what);
}

// ---------------------------------------------------------------------------
// Laws
// ---------------------------------------------------------------------------

/// At a path stands one thing at most.
pub proof fn law_one_mark(
    node: FsNode,
    name: Seq<char>,
    rel: Seq<Seq<char>>,
    allowed: Option<Seq<Seq<Seq<char>>>>,
    path: Seq<Seq<char>>,
    one: Mark,
    other: Mark,
)
    requires
        names_apart(node),
        stands(node, name, rel, allowed, path, one),
        stands(node, name, rel, allowed, path, other),
    ensures
        one == other,
    decreases path.len(),
{
    if path.len() > 0 {
        let children = node->Directory_0;
        let first = path[0];
        let i = choose|i: int|
            0 <= i < children@.len() && (#[trigger] children@[i]).0@ == first && included(
                children@[i].1,
                rel.push(first),
                allowed,
            ) && stands(children@[i].1, first, rel.push(first), allowed, path.skip(1), one);
        let j = choose|j: int|
            0 <= j < children@.len() && (#[trigger] children@[j]).0@ == first && included(
                children@[j].1,
                rel.push(first),
                allowed,
            ) && stands(children@[j].1, first, rel.push(first), allowed, path.skip(1), other);
        if i < j {
            assert(children@[i].0@ != children@[j].0@);
        } else if j < i {
            assert(children@[j].0@ != children@[i].0@);
        }
        lemma_apart_at(children, children@.len(), i);
        law_one_mark(children@[i].1, first, rel.push(first), allowed, path.skip(1), one, other);
    }
}

/// The planner's skeleton moves with the paths of a project and with its manifests, and
/// with nothing else. Two projects that can be read, with the same paths and with
/// manifests of the same modes and contents, have the same skeleton, byte for byte, and
/// so the same store path; what their other files hold, and whether these can be
/// executed, does not matter. And where the skeletons are the same, so are the paths and
/// the manifests: a manifest that was edited, or one file more or less, changes the
/// bytes. The second half is for lengths that the format can hold.
pub proof fn law_skeleton_moves_with_paths_and_manifests(
    a: FsNode,
    allowed_a: Seq<Seq<Seq<char>>>,
    b: FsNode,
    allowed_b: Seq<Seq<Seq<char>>>,
    name: Seq<char>,
)
    requires
        names_apart(a),
        names_apart(b),
        nar_seq(a, name, Some(allowed_a), true) is Ok,
        nar_seq(b, name, Some(allowed_b), true) is Ok,
    ensures
        same_marks(a, Some(allowed_a), b, Some(allowed_b), name) ==> {
            let x = nar_seq(a, name, Some(allowed_a), true)->Ok_0;
            let y = nar_seq(b, name, Some(allowed_b), true)->Ok_0;
            &&& x == y
            &&& nar_store_path("project-src-skeleton"@, x) == nar_store_path(
                "project-src-skeleton"@,
                y,
            )
        },
        ends(
            nar_store_path(
                "project-src-skeleton"@,
                nar_seq(a, name, Some(allowed_a), true)->Ok_0,
            ),
            "-project-src-skeleton"@,
        ),
        fits(archived(a, name, Some(allowed_a), true)) && fits(
            archived(b, name, Some(allowed_b), true),
        ) && !same_marks(a, Some(allowed_a), b, Some(allowed_b), name) ==> nar_seq(
            a,
            name,
            Some(allowed_a),
            true,
        ) != nar_seq(b, name, Some(allowed_b), true),
{
    let top = Seq::<Seq<char>>::empty();
    let t = archived(a, name, Some(allowed_a), true);
    let s = archived(b, name, Some(allowed_b), true);
    lemma_marks_held(a, Some(allowed_a), b, Some(allowed_b), name);
    if same_marks(a, Some(allowed_a), b, Some(allowed_b), name) {
        lemma_same_archived(a, Some(allowed_a), b, Some(allowed_b), name, top);
        law_archived_fixes_archive(
            a,
            name,
            Some(allowed_a),
            true,
            b,
            name,
            Some(allowed_b),
            true,
        );
    } else if fits(t) && fits(s) {
        law_archive_tells_all(a, name, Some(allowed_a), true, b, name, Some(allowed_b), true);
    }
    let path = nar_store_path(
        "project-src-skeleton"@,
        nar_seq(a, name, Some(allowed_a), true)->Ok_0,
    );
    reveal_strlit("-");
    reveal_strlit("project-src-skeleton");
    reveal_strlit("-project-src-skeleton");
    assert("-project-src-skeleton"@ =~= "-"@ + "project-src-skeleton"@);
    assert(path.skip(path.len() - "-project-src-skeleton"@.len()) =~= "-project-src-skeleton"@);
}

/// An edit of a manifest changes the skeleton's bytes, and so does a file that is in one
/// project's skeleton and not in the other's.
pub proof fn law_edits_change_skeleton(
    a: FsNode,
    allowed_a: Seq<Seq<Seq<char>>>,
    b: FsNode,
    allowed_b: Seq<Seq<Seq<char>>>,
    name: Seq<char>,
    path: Seq<Seq<char>>,
    what: Mark,
)
    requires
        names_apart(a),
        names_apart(b),
        nar_seq(a, name, Some(allowed_a), true) is Ok,
        nar_seq(b, name, Some(allowed_b), true) is Ok,
        fits(archived(a, name, Some(allowed_a), true)),
        fits(archived(b, name, Some(allowed_b), true)),
        marked(a, name, Some(allowed_a), path, what),
        (exists|other: Mark|
            other != what && #[trigger] marked(b, name, Some(allowed_b), path, other)) || (forall|
            other: Mark,
        | !(#[trigger] marked(b, name, Some(allowed_b), path, other))),
    ensures
        nar_seq(a, name, Some(allowed_a), true) != nar_seq(b, name, Some(allowed_b), true),
{
    let top = Seq::<Seq<char>>::empty();
    if marked(b, name, Some(allowed_b), path, what) {
        let other = choose|other: Mark|
            other != what && #[trigger] marked(b, name, Some(allowed_b), path, other);
        law_one_mark(b, name, top, Some(allowed_b), path, what, other);
    }
    law_skeleton_moves_with_paths_and_manifests(a, allowed_a, b, allowed_b, name);
}

} // verus!
