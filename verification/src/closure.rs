//! The transitive dependencies of units.
use crate::graph::{
    append_strings, clone_seconds, index_of, indexes, key_index, lemma_index_of, seconds,
};
use crate::strmap::StrMap;
use crate::text::{insert_unique, lemma_insert_unique_props, set_insert, strictly_sorted, views};
use crate::units::{list_has, unit_views, NixUnit, UnitKind, UnitView};
use vstd::prelude::*;

verus! {

/// The keys that follow a key along direct dependencies.
pub open spec fn next_keys(us: Seq<UnitView>, key: Seq<char>) -> Seq<Seq<char>> {
    match index_of(us, key) {
        Some(i) => seconds(us[i].dep_extern),
        None => Seq::empty(),
    }
}

/// A way along direct dependencies from one of the keys `from`.
pub open spec fn key_path(us: Seq<UnitView>, from: Seq<Seq<char>>, path: Seq<Seq<char>>) -> bool {
    &&& path.len() > 0
    &&& from.contains(path[0])
    &&& forall|p: int| 0 < p < path.len() ==> next_keys(us, path[p - 1]).contains(#[trigger] path[p])
}

/// A key can be reached along direct dependencies from one of the keys `from`.
pub open spec fn key_reached(us: Seq<UnitView>, from: Seq<Seq<char>>, key: Seq<char>) -> bool {
    exists|path: Seq<Seq<char>>| key_path(us, from, path) && #[trigger] path.last() == key
}

/// The list holds, in order, exactly the keys of all transitive dependencies of
/// a unit.
pub open spec fn dependency_closure(us: Seq<UnitView>, u: UnitView, keys: Seq<Seq<char>>) -> bool {
    &&& strictly_sorted(keys)
    &&& forall|k: Seq<char>| #[trigger] keys.contains(k) <==> key_reached(us, seconds(u.dep_extern), k)
}

/// The units with their transitive dependencies filled in; those that run a
/// build script need none.
pub open spec fn closed_units(us: Seq<UnitView>, r: Seq<UnitView>) -> bool {
    &&& r.len() == us.len()
    &&& forall|i: int|
        0 <= i < us.len() ==> (#[trigger] r[i]) == (UnitView {
            all_dep_keys: r[i].all_dep_keys,
            ..us[i]
        }) && if us[i].kind == UnitKind::BuildScriptRun {
            r[i].all_dep_keys == us[i].all_dep_keys
        } else {
            dependency_closure(us, us[i], r[i].all_dep_keys)
        }
}

/// All keys that stand in dependency lists.
spec fn all_keys(us: Seq<UnitView>, n: nat) -> Seq<Seq<char>>
    decreases n,
{
    if n == 0 {
        Seq::empty()
    } else {
        all_keys(us, (n - 1) as nat) + seconds(us[n - 1].dep_extern)
    }
}

proof fn lemma_all_keys(us: Seq<UnitView>, n: nat, i: int, k: Seq<char>)
    requires
        0 <= i < n <= us.len(),
        seconds(us[i].dep_extern).contains(k),
    ensures
        all_keys(us, n).contains(k),
    decreases n,
{
    let own = seconds(us[n - 1].dep_extern);
    let before = all_keys(us, (n - 1) as nat);
    let a = all_keys(us, n);
    if i == n - 1 {
        let x = choose|x: int| 0 <= x < own.len() && own[x] == k;
        assert(a[before.len() + x] == k);
    } else {
        lemma_all_keys(us, (n - 1) as nat, i, k);
        let x = choose|x: int| 0 <= x < before.len() && before[x] == k;
        assert(a[x] == k);
    }
}

proof fn lemma_reach_next(us: Seq<UnitView>, from: Seq<Seq<char>>, a: Seq<char>, b: Seq<char>)
    requires
        key_reached(us, from, a),
        next_keys(us, a).contains(b),
    ensures
        key_reached(us, from, b),
{
    let path = choose|path: Seq<Seq<char>>| key_path(us, from, path) && #[trigger] path.last() == a;
    let longer = path.push(b);
    assert forall|p: int| 0 < p < longer.len() implies next_keys(us, longer[p - 1]).contains(
        #[trigger] longer[p],
    ) by {
        if p < path.len() {
            assert(next_keys(us, path[p - 1]).contains(path[p]));
        }
    }
    assert(key_path(us, from, longer));
    assert(longer.last() == b);
}

proof fn lemma_closed_path(
    us: Seq<UnitView>,
    from: Seq<Seq<char>>,
    found: Seq<Seq<char>>,
    path: Seq<Seq<char>>,
    p: int,
)
    requires
        forall|k: Seq<char>| #[trigger] from.contains(k) ==> found.contains(k),
        forall|a: Seq<char>, b: Seq<char>|
            found.contains(a) && #[trigger] next_keys(us, a).contains(b) ==> found.contains(b),
        key_path(us, from, path),
        0 <= p < path.len(),
    ensures
        found.contains(path[p]),
    decreases p,
{
    if p > 0 {
        lemma_closed_path(us, from, found, path, p - 1);
        assert(next_keys(us, path[p - 1]).contains(path[p]));
    }
}

/// How many of the keys have not been found.
spec fn left(all: Seq<Seq<char>>, found: Seq<Seq<char>>) -> nat
    decreases all.len(),
{
    if all.len() == 0 {
        0
    } else {
        left(all.drop_last(), found) + (if found.contains(all.last()) {
            0nat
        } else {
            1nat
        })
    }
}

proof fn lemma_left_shrinks(all: Seq<Seq<char>>, a: Seq<Seq<char>>, b: Seq<Seq<char>>, x: Seq<char>)
    requires
        forall|k: Seq<char>| #[trigger] b.contains(k) <==> (k == x || a.contains(k)),
        !a.contains(x),
    ensures
        left(all, b) <= left(all, a),
        all.contains(x) ==> left(all, b) < left(all, a),
    decreases all.len(),
{
    if all.len() > 0 {
        lemma_left_shrinks(all.drop_last(), a, b, x);
        let l = all.last();
        assert(b.contains(l) <==> (l == x || a.contains(l)));
        if all.contains(x) && l != x {
            let k = choose|k: int| 0 <= k < all.len() && all[k] == x;
            assert(all.drop_last()[k] == x);
        }
    }
}

/// What holds of a walk along direct dependencies.
#[verifier::opaque]
spec fn walk_inv(
    us: Seq<UnitView>,
    from: Seq<Seq<char>>,
    found: Seq<Seq<char>>,
    stack: Seq<Seq<char>>,
) -> bool {
    &&& strictly_sorted(found)
    &&& forall|x: int|
        0 <= x < stack.len() ==> key_reached(us, from, #[trigger] stack[x]) && all_keys(
            us,
            us.len(),
        ).contains(stack[x])
    &&& forall|k: Seq<char>| #[trigger] found.contains(k) ==> key_reached(us, from, k)
    &&& forall|k: Seq<char>| #[trigger] from.contains(k) ==> found.contains(k) || stack.contains(k)
    &&& forall|a: Seq<char>, b: Seq<char>|
        found.contains(a) && #[trigger] next_keys(us, a).contains(b) ==> found.contains(b)
            || stack.contains(b)
}

proof fn lemma_walk_start(us: Seq<UnitView>, i: int)
    requires
        0 <= i < us.len(),
    ensures
        walk_inv(us, seconds(us[i].dep_extern), Seq::empty(), seconds(us[i].dep_extern)),
{
    reveal(walk_inv);
    let from = seconds(us[i].dep_extern);
    assert forall|x: int| 0 <= x < from.len() implies key_reached(us, from, #[trigger] from[x])
        && all_keys(us, us.len()).contains(from[x]) by {
        let path = seq![from[x]];
        assert(from.contains(path[0]));
        assert(key_path(us, from, path));
        assert(path.last() == from[x]);
        lemma_all_keys(us, us.len(), i, from[x]);
    }
}

proof fn lemma_walk_skip(
    us: Seq<UnitView>,
    from: Seq<Seq<char>>,
    found: Seq<Seq<char>>,
    rest: Seq<Seq<char>>,
    k0: Seq<char>,
)
    requires
        walk_inv(us, from, found, rest.push(k0)),
        found.contains(k0),
    ensures
        walk_inv(us, from, found, rest),
{
    reveal(walk_inv);
    let stack = rest.push(k0);
    assert forall|k: Seq<char>| stack.contains(k) implies found.contains(k) || #[trigger] rest.contains(
        k,
    ) by {
        let x = choose|x: int| 0 <= x < stack.len() && stack[x] == k;
        if x < rest.len() {
            assert(rest[x] == k);
        }
    }
    assert forall|x: int| 0 <= x < rest.len() implies key_reached(us, from, #[trigger] rest[x])
        && all_keys(us, us.len()).contains(rest[x]) by {
        assert(stack[x] == rest[x]);
    }
    assert forall|k: Seq<char>| #[trigger] from.contains(k) implies found.contains(k)
        || rest.contains(k) by {
        if stack.contains(k) {
            assert(found.contains(k) || rest.contains(k));
        }
    }
    assert forall|a: Seq<char>, b: Seq<char>|
        found.contains(a) && #[trigger] next_keys(us, a).contains(b) implies found.contains(b)
        || rest.contains(b) by {
        if stack.contains(b) {
            assert(found.contains(b) || rest.contains(b));
        }
    }
}

/// One step of the walk: the key is found, and what follows it stands on the
/// stack.
proof fn lemma_walk_visit(
    us: Seq<UnitView>,
    from: Seq<Seq<char>>,
    found: Seq<Seq<char>>,
    rest: Seq<Seq<char>>,
    k0: Seq<char>,
)
    requires
        walk_inv(us, from, found, rest.push(k0)),
        !found.contains(k0),
    ensures
        walk_inv(us, from, insert_unique(found, k0), rest + next_keys(us, k0)),
        left(all_keys(us, us.len()), insert_unique(found, k0)) < left(
            all_keys(us, us.len()),
            found,
        ),
{
    reveal(walk_inv);
    lemma_insert_unique_props(found, k0);
    let found1 = insert_unique(found, k0);
    let stack0 = rest.push(k0);
    let next = next_keys(us, k0);
    let stack1 = rest + next;
    let all = all_keys(us, us.len());
    assert(stack0[rest.len() as int] == k0);
    assert(all.contains(k0) && key_reached(us, from, k0));
    lemma_left_shrinks(all, found, found1, k0);
    lemma_index_of(us, k0);
    assert(found1.contains(k0));
    assert forall|k: Seq<char>| stack0.contains(k) implies found1.contains(k) || #[trigger] stack1.contains(
        k,
    ) by {
        let x = choose|x: int| 0 <= x < stack0.len() && stack0[x] == k;
        if x < rest.len() {
            assert(stack1[x] == k);
        }
    }
    assert forall|x: int| 0 <= x < stack1.len() implies key_reached(us, from, #[trigger] stack1[x])
        && all.contains(stack1[x]) by {
        if x < rest.len() {
            assert(stack0[x] == stack1[x]);
        } else {
            let b = next[x - rest.len()];
            assert(next.contains(b));
            lemma_reach_next(us, from, k0, b);
            lemma_all_keys(us, us.len(), index_of(us, k0)->0, b);
        }
    }
    assert forall|k: Seq<char>| #[trigger] from.contains(k) implies found1.contains(k)
        || stack1.contains(k) by {
        if stack0.contains(k) {
            assert(found1.contains(k) || stack1.contains(k));
        }
    }
    assert forall|a: Seq<char>, b: Seq<char>|
        found1.contains(a) && #[trigger] next_keys(us, a).contains(b) implies found1.contains(b)
        || stack1.contains(b) by {
        if a == k0 {
            let x = choose|x: int| 0 <= x < next.len() && next[x] == b;
            assert(stack1[rest.len() + x] == b);
        } else {
            assert(found.contains(a));
            if stack0.contains(b) {
                assert(found1.contains(b) || stack1.contains(b));
            }
        }
    }
}

proof fn lemma_walk_done(us: Seq<UnitView>, from: Seq<Seq<char>>, found: Seq<Seq<char>>)
    requires
        walk_inv(us, from, found, Seq::empty()),
    ensures
        strictly_sorted(found),
        forall|k: Seq<char>| #[trigger] found.contains(k) <==> key_reached(us, from, k),
{
    reveal(walk_inv);
    assert forall|k: Seq<char>| #[trigger] found.contains(k) <==> key_reached(us, from, k) by {
        if key_reached(us, from, k) {
            let path = choose|path: Seq<Seq<char>>|
                key_path(us, from, path) && #[trigger] path.last() == k;
            lemma_closed_path(us, from, found, path, path.len() - 1);
        }
    }
}

proof fn lemma_walk_sorted(
    us: Seq<UnitView>,
    from: Seq<Seq<char>>,
    found: Seq<Seq<char>>,
    stack: Seq<Seq<char>>,
)
    requires
        walk_inv(us, from, found, stack),
    ensures
        strictly_sorted(found),
{
    reveal(walk_inv);
}

/// Collects the keys of all transitive dependencies of a unit.
fn transitive_keys(units: &Vec<NixUnit>, index: &StrMap<usize>, i: usize) -> (r: Vec<String>)
    requires
        i < units@.len(),
        indexes(index@, unit_views(units@)),
    ensures
        dependency_closure(unit_views(units@), unit_views(units@)[i as int], views(r@)),
{
    let ghost us = unit_views(units@);
    let ghost from = seconds(us[i as int].dep_extern);
    let mut found: Vec<String> = Vec::new();
    let mut stack = clone_seconds(&units[i].dep_extern);
    proof {
        lemma_walk_start(us, i as int);
        assert(views(found@) =~= Seq::empty());
    }
    while stack.len() > 0
        invariant
            us == unit_views(units@),
            indexes(index@, us),
            walk_inv(us, from, views(found@), views(stack@)),
        decreases left(all_keys(us, us.len()), views(found@)), stack@.len(),
    {
        let ghost stack0 = views(stack@);
        let key = match stack.pop() {
            Some(k) => k,
            None => {
                assert(false);
                String::new()
            },
        };
        let ghost rest = views(stack@);
        proof {
            assert(stack0 =~= rest.push(key@));
            lemma_walk_sorted(us, from, views(found@), stack0);
        }
        if list_has(&found, key.as_str()) {
            proof {
                lemma_walk_skip(us, from, views(found@), rest, key@);
            }
            continue;
        }
        proof {
            lemma_walk_visit(us, from, views(found@), rest, key@);
            lemma_index_of(us, key@);
            assert(index@.contains_key(key@) || !index@.contains_key(key@));
        }
        set_insert(&mut found, key.as_str());
        if let Some(j) = index.get(key.as_str()) {
            append_strings(&mut stack, clone_seconds(&units[*j].dep_extern));
        } else {
            assert(rest + next_keys(us, key@) =~= rest);
        }
    }
    proof {
        assert(views(stack@) =~= Seq::empty());
        lemma_walk_done(us, from, views(found@));
    }
    found
}

/// Fills in the transitive dependencies of units, which rustc needs on its
/// search path.
pub fn close_dependencies(units: Vec<NixUnit>) -> (r: Vec<NixUnit>)
    ensures
        closed_units(unit_views(units@), unit_views(r@)),
{
    let ghost us = unit_views(units@);
    let index = key_index(&units);
    let mut r: Vec<NixUnit> = Vec::new();
    let mut i: usize = 0;
    while i < units.len()
        invariant
            us == unit_views(units@),
            indexes(index@, us),
            i <= us.len(),
            r@.len() == i,
            forall|j: int|
                0 <= j < i ==> (#[trigger] r@[j])@ == (UnitView {
                    all_dep_keys: r@[j]@.all_dep_keys,
                    ..us[j]
                }) && if us[j].kind == UnitKind::BuildScriptRun {
                    r@[j]@.all_dep_keys == us[j].all_dep_keys
                } else {
                    dependency_closure(us, us[j], r@[j]@.all_dep_keys)
                },
        decreases us.len() - i,
    {
        let mut u = units[i].clone();
        if u.kind != UnitKind::BuildScriptRun {
            u.all_dep_keys = transitive_keys(&units, &index, i);
        }
        r.push(u);
        i = i + 1;
    }
    proof {
        let rs = unit_views(r@);
        assert forall|j: int| 0 <= j < us.len() implies (#[trigger] rs[j]) == (UnitView {
            all_dep_keys: rs[j].all_dep_keys,
            ..us[j]
        }) && if us[j].kind == UnitKind::BuildScriptRun {
            rs[j].all_dep_keys == us[j].all_dep_keys
        } else {
            dependency_closure(us, us[j], rs[j].all_dep_keys)
        } by {
            assert(r@[j]@ == rs[j]);
        }
    }
    r
}

} // verus!
