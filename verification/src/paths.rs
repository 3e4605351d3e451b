//! Paths as texts, taken apart into their components as a Unix path is.
use crate::nar::is_below;
use crate::text::{owned, same, split, split_seq, to_chars, views};
use vstd::prelude::*;

verus! {

/// A path starts at the root.
pub open spec fn is_absolute(s: Seq<char>) -> bool {
    s.len() > 0 && s[0] == '/'
}

/// A part between slashes is a component. Empty parts are none, and neither is a
/// dot, except at the start of a relative path.
pub open spec fn is_component(part: Seq<char>, first: bool) -> bool {
    part.len() > 0 && (part != "."@ || first)
}

/// The components among the parts between slashes.
pub open spec fn component_parts(parts: Seq<Seq<char>>, absolute: bool) -> Seq<Seq<char>>
    decreases parts.len(),
{
    if parts.len() == 0 {
        Seq::empty()
    } else {
        let before = component_parts(parts.drop_last(), absolute);
        if is_component(parts.last(), parts.len() == 1 && !absolute) {
            before.push(parts.last())
        } else {
            before
        }
    }
}

/// The components of a path. The root is the component `/`.
pub open spec fn path_components(s: Seq<char>) -> Seq<Seq<char>> {
    (if is_absolute(s) {
        seq!["/"@]
    } else {
        Seq::empty()
    }) + component_parts(split_seq(s, '/'), is_absolute(s))
}

/// Takes a path apart into its components.
pub fn components(s: &str) -> (r: Vec<String>)
    ensures
        views(r@) == path_components(s@),
{
    let chars = to_chars(s);
    let absolute = chars.len() > 0 && chars[0] == '/';
    let parts = split(s, '/');
    let ghost ps = views(parts@);
    let mut r: Vec<String> = Vec::new();
    if absolute {
        r.push(owned("/"));
        assert(views(r@) =~= seq!["/"@]);
    } else {
        assert(views(r@) =~= Seq::empty());
    }
    let ghost head = views(r@);
    let mut i: usize = 0;
    assert(views(r@) =~= head + component_parts(ps.take(0), absolute));
    while i < parts.len()
        invariant
            i <= parts@.len(),
            ps == views(parts@),
            views(r@) == head + component_parts(ps.take(i as int), absolute),
        decreases parts@.len() - i,
    {
        assert(ps.take(i + 1).drop_last() =~= ps.take(i as int));
        let part = parts[i].as_str();
        if !part.is_empty() && (!same(part, ".") || (i == 0 && !absolute)) {
            let ghost before = views(r@);
            r.push(parts[i].clone());
            assert(views(r@) =~= before.push(ps[i as int]));
            assert(views(r@) =~= head + component_parts(ps.take(i + 1), absolute));
        }
        i = i + 1;
    }
    assert(ps.take(ps.len() as int) =~= ps);
    r
}

/// A path with a component behind it. The root starts anew.
pub open spec fn pushed(path: Seq<char>, component: Seq<char>) -> Seq<char> {
    if is_absolute(component) || path.len() == 0 {
        component
    } else if path.last() == '/' {
        path + component
    } else {
        path + "/"@ + component
    }
}

/// The path with the given components.
pub open spec fn joined(components: Seq<Seq<char>>) -> Seq<char>
    decreases components.len(),
{
    if components.len() == 0 {
        Seq::empty()
    } else {
        pushed(joined(components.drop_last()), components.last())
    }
}

/// Puts a component or a relative path behind a path.
pub fn push_path(path: &str, component: &str) -> (r: String)
    ensures
        r@ == pushed(path@, component@),
{
    let pc = to_chars(path);
    let cc = to_chars(component);
    if (cc.len() > 0 && cc[0] == '/') || pc.len() == 0 {
        return owned(component);
    }
    let mut r = owned(path);
    if pc[pc.len() - 1] != '/' {
        r.append("/");
    }
    r.append(component);
    r
}

/// Joins the components from a position on.
pub fn join_components(components: &Vec<String>, from: usize) -> (r: String)
    requires
        from <= components@.len(),
    ensures
        r@ == joined(views(components@).skip(from as int)),
{
    let ghost cs = views(components@).skip(from as int);
    let mut r = String::new();
    let mut i: usize = from;
    assert(r@ =~= joined(cs.take(0)));
    while i < components.len()
        invariant
            from <= i <= components@.len(),
            cs == views(components@).skip(from as int),
            r@ == joined(cs.take(i - from)),
        decreases components@.len() - i,
    {
        assert(cs.take(i - from + 1).drop_last() =~= cs.take(i - from));
        assert(cs.take(i - from + 1).last() == components@[i as int]@);
        r = push_path(r.as_str(), components[i].as_str());
        i = i + 1;
    }
    assert(cs.take(cs.len() as int) =~= cs);
    r
}

/// The number of components that two paths share at their start.
pub open spec fn common_len(a: Seq<Seq<char>>, b: Seq<Seq<char>>) -> nat
    decreases a.len(),
{
    if a.len() == 0 || b.len() == 0 || a[0] != b[0] {
        0
    } else {
        1 + common_len(a.drop_first(), b.drop_first())
    }
}

pub proof fn lemma_common_len(a: Seq<Seq<char>>, b: Seq<Seq<char>>, n: nat)
    requires
        n <= a.len(),
        n <= b.len(),
        forall|i: int| 0 <= i < n ==> a[i] == b[i],
        n == a.len() || n == b.len() || a[n as int] != b[n as int],
    ensures
        common_len(a, b) == n,
    decreases n,
{
    if n > 0 {
        let x = a.drop_first();
        let y = b.drop_first();
        assert(a[0] == b[0]);
        assert forall|i: int| 0 <= i < n - 1 implies x[i] == y[i] by {
            assert(a[i + 1] == b[i + 1]);
        }
        lemma_common_len(x, y, (n - 1) as nat);
    }
}

fn common_components(a: &Vec<String>, b: &Vec<String>) -> (n: usize)
    ensures
        n == common_len(views(a@), views(b@)),
        n <= a@.len(),
        n <= b@.len(),
{
    let ghost av = views(a@);
    let ghost bv = views(b@);
    let mut n: usize = 0;
    while n < a.len() && n < b.len() && same(a[n].as_str(), b[n].as_str())
        invariant
            n <= a@.len(),
            n <= b@.len(),
            av == views(a@),
            bv == views(b@),
            forall|i: int| 0 <= i < n ==> av[i] == bv[i],
        decreases a@.len() - n,
    {
        n = n + 1;
    }
    proof {
        lemma_common_len(av, bv, n as nat);
    }
    n
}

/// `n` times the same component, then the components of another path from
/// position `from` on.
pub open spec fn up_and_down(up: Seq<char>, n: nat, to: Seq<Seq<char>>, from: int) -> Seq<Seq<char>> {
    Seq::new(n, |i: int| up) + to.skip(from)
}

/// The relative path from one directory to another path: up out of what they do
/// not share, down into the rest.
pub open spec fn relative(from: Seq<char>, to: Seq<char>) -> Seq<char> {
    let a = path_components(from);
    let b = path_components(to);
    let c = common_len(a, b);
    let r = joined(up_and_down(".."@, (a.len() - c) as nat, b, c as int));
    if r.len() == 0 {
        "."@
    } else {
        r
    }
}

fn climb(up: &str, n: usize, to: &Vec<String>, from: usize) -> (r: Vec<String>)
    requires
        from <= to@.len(),
    ensures
        views(r@) == up_and_down(up@, n as nat, views(to@), from as int),
{
    let ghost tv = views(to@);
    let mut r: Vec<String> = Vec::new();
    let mut i: usize = 0;
    assert(views(r@) =~= Seq::new(0, |j: int| up@));
    while i < n
        invariant
            i <= n,
            views(r@) == Seq::new(i as nat, |j: int| up@),
        decreases n - i,
    {
        let ghost before = views(r@);
        r.push(owned(up));
        assert(views(r@) =~= before.push(up@));
        assert(before.push(up@) =~= Seq::new((i + 1) as nat, |j: int| up@));
        i = i + 1;
    }
    let ghost head = views(r@);
    let mut k: usize = from;
    assert(views(r@) =~= head + tv.subrange(from as int, from as int));
    while k < to.len()
        invariant
            from <= k <= to@.len(),
            tv == views(to@),
            views(r@) == head + tv.subrange(from as int, k as int),
        decreases to@.len() - k,
    {
        let ghost before = views(r@);
        r.push(to[k].clone());
        assert(views(r@) =~= before.push(tv[k as int]));
        assert(before.push(tv[k as int]) =~= head + tv.subrange(from as int, k + 1));
        k = k + 1;
    }
    assert(tv.subrange(from as int, tv.len() as int) =~= tv.skip(from as int));
    r
}

/// Computes the relative path from a directory to a path. Both are absolute or
/// start at the same place.
pub fn relative_path(from: &str, to: &str) -> (r: String)
    ensures
        r@ == relative(from@, to@),
{
    let a = components(from);
    let b = components(to);
    let c = common_components(&a, &b);
    let cs = climb("..", a.len() - c, &b, c);
    let r = join_components(&cs, 0);
    assert(views(cs@).skip(0) =~= views(cs@));
    if r.as_str().is_empty() {
        owned(".")
    } else {
        r
    }
}

/// The place in the source of a file that lies outside the project: `.parent` for
/// each directory up.
pub open spec fn outside_place(project: Seq<char>, file: Seq<char>) -> Seq<char> {
    let a = path_components(project);
    let b = path_components(file);
    let c = common_len(a, b);
    joined(up_and_down(".parent"@, (a.len() - c) as nat, b, c as int))
}

/// Computes the place in the source of a file that lies outside the project.
pub fn outside_store_path(project: &str, file: &str) -> (r: String)
    ensures
        r@ == outside_place(project@, file@),
{
    let a = components(project);
    let b = components(file);
    let c = common_components(&a, &b);
    let cs = climb(".parent", a.len() - c, &b, c);
    assert(views(cs@).skip(0) =~= views(cs@));
    join_components(&cs, 0)
}

/// `dir` stands at the start of `path`, component by component.
pub open spec fn path_below(path: Seq<char>, dir: Seq<char>) -> bool {
    let p = path_components(path);
    let d = path_components(dir);
    d.len() <= p.len() && p.take(d.len() as int) == d
}

/// Whether a path lies below a directory or is it.
pub fn is_path_below(path: &str, dir: &str) -> (r: bool)
    ensures
        r == path_below(path@, dir@),
{
    let p = components(path);
    let d = components(dir);
    is_below(&p, &d)
}

/// Two texts are the same path.
pub open spec fn same_path(a: Seq<char>, b: Seq<char>) -> bool {
    path_components(a) == path_components(b)
}

/// Whether two texts are the same path.
pub fn is_same_path(a: &str, b: &str) -> (r: bool)
    ensures
        r == same_path(a@, b@),
{
    let x = components(a);
    let y = components(b);
    let ghost xv = views(x@);
    let ghost yv = views(y@);
    let r = x.len() == y.len() && is_below(&x, &y);
    proof {
        if x@.len() == y@.len() {
            assert(xv.take(yv.len() as int) =~= xv);
        }
    }
    r
}

/// What of a path lies below a directory.
pub open spec fn below_dir(path: Seq<char>, dir: Seq<char>) -> Seq<char> {
    joined(path_components(path).skip(path_components(dir).len() as int))
}

/// What of a path lies below a directory.
pub fn strip_dir(path: &str, dir: &str) -> (r: String)
    requires
        path_below(path@, dir@),
    ensures
        r@ == below_dir(path@, dir@),
{
    let p = components(path);
    let d = components(dir);
    assert(views(p@).len() == p@.len() && views(d@).len() == d@.len());
    join_components(&p, d.len())
}

// ---------------------------------------------------------------------------
// Sources outside the project
// ---------------------------------------------------------------------------

/// The number of `..` at the start of a path.
pub open spec fn leading_parents(cs: Seq<Seq<char>>) -> nat
    decreases cs.len(),
{
    if cs.len() > 0 && cs[0] == ".."@ {
        1 + leading_parents(cs.drop_first())
    } else {
        0
    }
}

/// The name in the source of what lies outside the project, or why it has none.
pub open spec fn extra_source_name(rel: Seq<char>) -> Result<Seq<char>, Seq<char>> {
    let cs = path_components(rel);
    let n = leading_parents(cs);
    let name = joined(cs.skip(n as int));
    if n == 0 {
        Err("Extra source path must start with '../' components: "@ + rel)
    } else if name.len() == 0 {
        Err("Extra source path has no name after stripping '../': "@ + rel)
    } else {
        Ok(name)
    }
}

proof fn lemma_leading_parents(cs: Seq<Seq<char>>, n: nat)
    requires
        n <= cs.len(),
        forall|i: int| 0 <= i < n ==> cs[i] == ".."@,
        n == cs.len() || cs[n as int] != ".."@,
    ensures
        leading_parents(cs) == n,
    decreases n,
{
    if n > 0 {
        assert(cs[0] == ".."@);
        let t = cs.drop_first();
        assert forall|i: int| 0 <= i < n - 1 implies t[i] == ".."@ by {
            assert(cs[i + 1] == ".."@);
        }
        lemma_leading_parents(t, (n - 1) as nat);
    }
}

/// Removes the `..` components at the start of a relative path, to name what lies
/// there inside the source. Those further on stay.
pub fn sanitise_extra_source_name(rel_path: &str) -> (r: Result<String, String>)
    ensures
        match (r, extra_source_name(rel_path@)) {
            (Ok(s), Ok(name)) => s@ == name,
            (Err(e), Err(m)) => e@ == m,
            _ => false,
        },
{
    let cs = components(rel_path);
    let ghost cv = views(cs@);
    let mut n: usize = 0;
    while n < cs.len() && same(cs[n].as_str(), "..")
        invariant
            n <= cs@.len(),
            cv == views(cs@),
            forall|i: int| 0 <= i < n ==> cv[i] == ".."@,
        decreases cs@.len() - n,
    {
        n = n + 1;
    }
    proof {
        lemma_leading_parents(cv, n as nat);
    }
    if n == 0 {
        let mut e = owned("Extra source path must start with '../' components: ");
        e.append(rel_path);
        return Err(e);
    }
    let name = join_components(&cs, n);
    if name.as_str().is_empty() {
        let mut e = owned("Extra source path has no name after stripping '../': ");
        e.append(rel_path);
        return Err(e);
    }
    Ok(name)
}

// ---------------------------------------------------------------------------
// Laws
// ---------------------------------------------------------------------------

/// A relative path from a directory to itself is a dot.
pub proof fn law_relative_to_itself(p: Seq<char>)
    ensures
        relative(p, p) == "."@,
{
    let a = path_components(p);
    lemma_common_len(a, a, a.len());
    assert(up_and_down(".."@, 0, a, a.len() as int) =~= Seq::empty());
}

/// Walking a relative path from its start leads to its end: up as often as there
/// are components that are not shared, then down into the rest.
pub proof fn law_relative_leads_there(from: Seq<Seq<char>>, to: Seq<Seq<char>>)
    ensures
        from.take(common_len(from, to) as int) + to.skip(common_len(from, to) as int) == to,
        common_len(from, to) <= from.len(),
        common_len(from, to) <= to.len(),
    decreases from.len(),
{
    let c = common_len(from, to);
    if c > 0 {
        let x = from.drop_first();
        let y = to.drop_first();
        law_relative_leads_there(x, y);
        let d = common_len(x, y);
        assert forall|i: int| 0 <= i < c implies from[i] == to[i] by {
            if i > 0 {
                let w = x.take(d as int) + y.skip(d as int);
                assert(w[i - 1] == y[i - 1]);
                assert(x[i - 1] == from[i]);
                assert(y[i - 1] == to[i]);
            }
        }
    }
    assert(from.take(c as int) + to.skip(c as int) =~= to);
}

/// A name in the source never starts by leading out of it.
pub proof fn law_source_name_stays_inside(rel: Seq<char>)
    requires
        extra_source_name(rel) is Ok,
    ensures
        leading_parents(path_components(rel).skip(leading_parents(path_components(rel)) as int))
            == 0,
{
    let cs = path_components(rel);
    lemma_rest_has_none(cs);
}

proof fn lemma_rest_has_none(cs: Seq<Seq<char>>)
    ensures
        leading_parents(cs.skip(leading_parents(cs) as int)) == 0,
        leading_parents(cs) <= cs.len(),
    decreases cs.len(),
{
    let n = leading_parents(cs);
    if n > 0 {
        lemma_rest_has_none(cs.drop_first());
        assert(cs.drop_first().skip(n - 1) =~= cs.skip(n as int));
    } else {
        assert(cs.skip(0) =~= cs);
    }
}

} // verus!
