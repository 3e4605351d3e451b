//! The dependency graph of units: order and levels.
use crate::strmap::StrMap;
use crate::text::views;
use crate::units::{opt_view, pair_views, unit_views, NixUnit, UnitView};
use vstd::prelude::*;

verus! {

// ---------------------------------------------------------------------------
// Looking units up by key
// ---------------------------------------------------------------------------

/// The last unit with the given key.
pub open spec fn index_of(us: Seq<UnitView>, key: Seq<char>) -> Option<int>
    decreases us.len(),
{
    if us.len() == 0 {
        None
    } else if us.last().key == key {
        Some(us.len() - 1)
    } else {
        index_of(us.drop_last(), key)
    }
}

pub proof fn lemma_index_of(us: Seq<UnitView>, key: Seq<char>)
    ensures
        match index_of(us, key) {
            Some(i) => 0 <= i < us.len() && us[i].key == key && forall|j: int|
                i < j < us.len() ==> (#[trigger] us[j]).key != key,
            None => forall|j: int| 0 <= j < us.len() ==> (#[trigger] us[j]).key != key,
        },
    decreases us.len(),
{
    if us.len() > 0 && us.last().key != key {
        lemma_index_of(us.drop_last(), key);
        assert forall|j: int|
            (match index_of(us, key) {
                Some(i) => i < j,
                None => 0 <= j,
            }) && j < us.len() implies (#[trigger] us[j]).key != key by {
            if j < us.len() - 1 {
                assert(us.drop_last()[j] == us[j]);
            }
        }
    }
}

/// A map gives for each key the last unit that bears it.
pub open spec fn indexes(m: Map<Seq<char>, usize>, us: Seq<UnitView>) -> bool {
    forall|k: Seq<char>|
        match index_of(us, k) {
            Some(i) => #[trigger] m.contains_key(k) && m[k] == i,
            None => !m.contains_key(k),
        }
}

/// The last unit of each key, by key.
pub open spec fn unit_index(us: Seq<UnitView>) -> Map<Seq<char>, usize> {
    Map::new(|k: Seq<char>| index_of(us, k) is Some, |k: Seq<char>| index_of(us, k)->0 as usize)
}

/// There is one index of the units.
pub proof fn lemma_unit_index(m: Map<Seq<char>, usize>, us: Seq<UnitView>)
    requires
        indexes(m, us),
        us.len() <= usize::MAX,
    ensures
        m == unit_index(us),
{
    assert forall|k: Seq<char>| #[trigger] m.contains_key(k) == unit_index(us).contains_key(k) by {}
    assert forall|k: Seq<char>| #[trigger] m.contains_key(k) implies m[k] == unit_index(us)[k] by {
        lemma_index_of(us, k);
    }
    assert(m =~= unit_index(us));
}

/// Indexes units by their keys.
pub fn key_index(units: &Vec<NixUnit>) -> (m: StrMap<usize>)
    ensures
        indexes(m@, unit_views(units@)),
{
    let ghost us = unit_views(units@);
    let mut m: StrMap<usize> = StrMap::new();
    let mut i: usize = 0;
    while i < units.len()
        invariant
            i <= units@.len(),
            us == unit_views(units@),
            indexes(m@, us.take(i as int)),
        decreases units@.len() - i,
    {
        let ghost before = m@;
        m.insert(units[i].key.clone(), i);
        proof {
            assert(us.take(i + 1).drop_last() =~= us.take(i as int));
            assert(us.take(i + 1).last() == units@[i as int]@);
            assert forall|k: Seq<char>|
                match index_of(us.take(i + 1), k) {
                    Some(j) => #[trigger] m@.contains_key(k) && m@[k] == j,
                    None => !m@.contains_key(k),
                } by {
                assert(before.contains_key(k) || !before.contains_key(k));
            }
        }
        i = i + 1;
    }
    assert(us.take(units@.len() as int) =~= us);
    m
}

// ---------------------------------------------------------------------------
// Edges
// ---------------------------------------------------------------------------

/// The second strings of a list of pairs.
pub open spec fn seconds(v: Seq<(Seq<char>, Seq<char>)>) -> Seq<Seq<char>> {
    Seq::new(v.len(), |i: int| v[i].1)
}

/// The first strings of a list of pairs.
pub open spec fn firsts(v: Seq<(Seq<char>, Seq<char>)>) -> Seq<Seq<char>> {
    Seq::new(v.len(), |i: int| v[i].0)
}

/// An optional string as a list.
pub open spec fn opt_seq(o: Option<Seq<char>>) -> Seq<Seq<char>> {
    match o {
        Some(s) => seq![s],
        None => Seq::empty(),
    }
}

/// The keys of the units that must be registered before a unit: its direct
/// dependencies, its build script's run and compilation, and the build scripts
/// it is linked to.
pub open spec fn dep_keys(u: UnitView) -> Seq<Seq<char>> {
    seconds(u.dep_extern) + opt_seq(u.build_script_dep) + opt_seq(u.build_script_compile_key)
        + firsts(u.links_dep_keys)
}

/// Unit `i` depends on unit `j`.
pub open spec fn depends(us: Seq<UnitView>, i: int, j: int) -> bool {
    names_unit(us, dep_keys(us[i]), j)
}

/// The keys of the second strings of pairs.
pub fn clone_seconds(v: &Vec<(String, String)>) -> (r: Vec<String>)
    ensures
        views(r@) == seconds(pair_views(v@)),
{
    let mut r: Vec<String> = Vec::new();
    let mut i: usize = 0;
    while i < v.len()
        invariant
            i <= v@.len(),
            r@.len() == i,
            forall|j: int| 0 <= j < i ==> (#[trigger] r@[j])@ == v@[j].1@,
        decreases v@.len() - i,
    {
        r.push(v[i].1.clone());
        i = i + 1;
    }
    assert(views(r@) =~= seconds(pair_views(v@)));
    r
}

/// The keys of the first strings of pairs.
pub fn clone_firsts(v: &Vec<(String, String)>) -> (r: Vec<String>)
    ensures
        views(r@) == firsts(pair_views(v@)),
{
    let mut r: Vec<String> = Vec::new();
    let mut i: usize = 0;
    while i < v.len()
        invariant
            i <= v@.len(),
            r@.len() == i,
            forall|j: int| 0 <= j < i ==> (#[trigger] r@[j])@ == v@[j].0@,
        decreases v@.len() - i,
    {
        r.push(v[i].0.clone());
        i = i + 1;
    }
    assert(views(r@) =~= firsts(pair_views(v@)));
    r
}

/// Appends strings to a list.
pub fn append_strings(r: &mut Vec<String>, more: Vec<String>)
    ensures
        views(final(r)@) == views(old(r)@) + views(more@),
{
    let mut more = more;
    let ghost m = more@;
    r.append(&mut more);
    assert(views(r@) =~= views(old(r)@) + views(m));
}

/// Appends an optional string to a list.
pub fn append_opt(r: &mut Vec<String>, o: &Option<String>)
    ensures
        views(final(r)@) == views(old(r)@) + opt_seq(opt_view(*o)),
{
    match o {
        Some(s) => {
            r.push(s.clone());
        },
        None => {},
    }
    assert(views(r@) =~= views(old(r)@) + opt_seq(opt_view(*o)));
}

/// The keys of the units that must be registered before a unit.
pub fn unit_dep_keys(u: &NixUnit) -> (r: Vec<String>)
    ensures
        views(r@) == dep_keys(u@),
{
    let mut r = clone_seconds(&u.dep_extern);
    append_opt(&mut r, &u.build_script_dep);
    append_opt(&mut r, &u.build_script_compile_key);
    append_strings(&mut r, clone_firsts(&u.links_dep_keys));
    r
}

/// One of the keys names unit `j`.
pub open spec fn names_unit(us: Seq<UnitView>, keys: Seq<Seq<char>>, j: int) -> bool {
    exists|k: int| 0 <= k < keys.len() && index_of(us, #[trigger] keys[k]) == Some(j)
}

/// The units that the keys name.
pub open spec fn resolved(us: Seq<UnitView>, keys: Seq<Seq<char>>, r: Seq<usize>) -> bool {
    &&& forall|x: int| 0 <= x < r.len() ==> (#[trigger] r[x]) < us.len()
    &&& forall|x: int|
        0 <= x < r.len() ==> names_unit(us, keys, (#[trigger] r[x]) as int)
    &&& forall|k: int|
        0 <= k < keys.len() ==> match index_of(us, #[trigger] keys[k]) {
            Some(j) => r.contains(j as usize),
            None => true,
        }
}

/// Looks up the units that the keys name, leaving out keys of no unit.
pub fn resolve_keys(index: &StrMap<usize>, keys: &Vec<String>, us: Ghost<Seq<UnitView>>) -> (r: Vec<
    usize,
>)
    requires
        indexes(index@, us@),
        us@.len() <= usize::MAX,
    ensures
        resolved(us@, views(keys@), r@),
{
    let mut r: Vec<usize> = Vec::new();
    let mut i: usize = 0;
    while i < keys.len()
        invariant
            i <= keys@.len(),
            indexes(index@, us@),
            us@.len() <= usize::MAX,
            resolved(us@, views(keys@).take(i as int), r@),
        decreases keys@.len() - i,
    {
        let ghost ks = views(keys@).take(i as int);
        let ghost next = views(keys@).take(i + 1);
        let ghost before = r@;
        proof {
            lemma_index_of(us@, keys@[i as int]@);
            assert(index@.contains_key(keys@[i as int]@) || !index@.contains_key(
                keys@[i as int]@,
            ));
        }
        match index.get(keys[i].as_str()) {
            Some(j) => {
                r.push(*j);
            },
            None => {},
        }
        proof {
            assert forall|x: int| 0 <= x < r@.len() implies (#[trigger] r@[x]) < us@.len() by {
                if x < before.len() {
                    assert(before[x] < us@.len());
                }
            }
            assert forall|x: int| 0 <= x < r@.len() implies names_unit(
                us@,
                next,
                (#[trigger] r@[x]) as int,
            ) by {
                if x < before.len() {
                    assert(names_unit(us@, ks, before[x] as int));
                    let k = choose|k: int|
                        0 <= k < ks.len() && index_of(us@, #[trigger] ks[k]) == Some(
                            before[x] as int,
                        );
                    assert(next[k] == ks[k]);
                } else {
                    assert(next[i as int] == keys@[i as int]@);
                }
            }
            assert forall|k: int| 0 <= k < next.len() implies match index_of(us@, #[trigger] next[k]) {
                Some(j) => r@.contains(j as usize),
                None => true,
            } by {
                lemma_index_of(us@, next[k]);
                if k < i {
                    assert(ks[k] == next[k]);
                    if let Some(j) = index_of(us@, next[k]) {
                        assert(before.contains(j as usize));
                        let x = choose|x: int| 0 <= x < before.len() && before[x] == j as usize;
                        assert(r@[x] == j as usize);
                    }
                } else {
                    if let Some(j) = index_of(us@, next[k]) {
                        assert(r@[before.len() as int] == j as usize);
                    }
                }
            }
        }
        i = i + 1;
    }
    assert(views(keys@).take(keys@.len() as int) =~= views(keys@));
    r
}

// ---------------------------------------------------------------------------
// Levels
// ---------------------------------------------------------------------------

/// The lists give each unit's dependencies.
pub open spec fn adjacency(us: Seq<UnitView>, adj: Seq<Vec<usize>>) -> bool {
    &&& adj.len() == us.len()
    &&& forall|i: int, x: int|
        0 <= i < adj.len() && 0 <= x < adj[i]@.len() ==> (#[trigger] adj[i]@[x]) < us.len() && depends(
            us,
            i,
            adj[i]@[x] as int,
        )
    &&& forall|i: int, j: int|
        0 <= i < adj.len() && #[trigger] depends(us, i, j) ==> 0 <= j < us.len() && adj[i]@.contains(
            j as usize,
        )
}

fn build_adjacency(units: &Vec<NixUnit>) -> (adj: Vec<Vec<usize>>)
    ensures
        adjacency(unit_views(units@), adj@),
{
    let ghost us = unit_views(units@);
    let n: usize = units.len();
    assert(us.len() == n);
    let index = key_index(units);
    let mut adj: Vec<Vec<usize>> = Vec::new();
    let mut i: usize = 0;
    while i < units.len()
        invariant
            i <= units@.len(),
            us == unit_views(units@),
            us.len() <= usize::MAX,
            indexes(index@, us),
            adj@.len() == i,
            forall|j: int| 0 <= j < i ==> resolved(us, dep_keys(us[j]), (#[trigger] adj@[j])@),
        decreases units@.len() - i,
    {
        let keys = unit_dep_keys(&units[i]);
        adj.push(resolve_keys(&index, &keys, Ghost(us)));
        i = i + 1;
    }
    proof {
        assert forall|i: int, x: int|
            0 <= i < adj@.len() && 0 <= x < adj@[i]@.len() implies (#[trigger] adj@[i]@[x])
            < us.len() && depends(us, i, adj@[i]@[x] as int) by {
            assert(resolved(us, dep_keys(us[i]), adj@[i]@));
        }
        assert forall|i: int, j: int| 0 <= i < adj@.len() && #[trigger] depends(us, i, j) implies 0
            <= j < us.len() && adj@[i]@.contains(j as usize) by {
            let k = choose|k: int|
                0 <= k < dep_keys(us[i]).len() && index_of(us, #[trigger] dep_keys(us[i])[k])
                    == Some(j);
            lemma_index_of(us, dep_keys(us[i])[k]);
            assert(resolved(us, dep_keys(us[i]), adj@[i]@));
        }
    }
    adj
}

/// Numbers below the number of units that decrease along every dependency.
pub open spec fn is_rank(us: Seq<UnitView>, rank: Seq<int>) -> bool {
    &&& rank.len() == us.len()
    &&& forall|i: int| 0 <= i < rank.len() ==> 0 <= #[trigger] rank[i] < us.len()
    &&& forall|i: int, j: int|
        0 <= i < us.len() && 0 <= j < us.len() && #[trigger] depends(us, i, j) ==> rank[j] < rank[i]
}

/// No unit depends on itself, directly or through others.
pub open spec fn acyclic(us: Seq<UnitView>) -> bool {
    exists|rank: Seq<int>| is_rank(us, rank)
}

/// The level of a unit is one more than the highest level among its
/// dependencies, and zero without any.
pub open spec fn is_levels(us: Seq<UnitView>, lv: Seq<int>) -> bool {
    &&& lv.len() == us.len()
    &&& forall|i: int| 0 <= i < lv.len() ==> 0 <= #[trigger] lv[i]
    &&& forall|i: int, j: int|
        0 <= i < us.len() && 0 <= j < us.len() && #[trigger] depends(us, i, j) ==> lv[j] < lv[i]
    &&& forall|i: int|
        0 <= i < us.len() ==> #[trigger] lv[i] == 0 || exists|j: int|
            0 <= j < us.len() && #[trigger] depends(us, i, j) && lv[i] == lv[j] + 1
}

spec fn total(u: Seq<usize>) -> int
    decreases u.len(),
{
    if u.len() == 0 {
        0
    } else {
        total(u.drop_last()) + u.last()
    }
}

proof fn lemma_total_update(u: Seq<usize>, i: int, v: usize)
    requires
        0 <= i < u.len(),
    ensures
        total(u.update(i, v)) == total(u) - u[i] + v,
    decreases u.len(),
{
    if i == u.len() - 1 {
        assert(u.update(i, v).drop_last() =~= u.drop_last());
    } else {
        assert(u.update(i, v).drop_last() =~= u.drop_last().update(i, v));
        lemma_total_update(u.drop_last(), i, v);
    }
}

proof fn lemma_total_bound(u: Seq<usize>, b: int)
    requires
        forall|i: int| 0 <= i < u.len() ==> (#[trigger] u[i]) <= b,
    ensures
        total(u) <= u.len() * b,
    decreases u.len(),
{
    if u.len() > 0 {
        assert forall|i: int| 0 <= i < u.drop_last().len() implies (#[trigger] u.drop_last()[i])
            <= b by {
            assert(u[i] <= b);
        }
        lemma_total_bound(u.drop_last(), b);
        let n = u.len() as int;
        assert(n * b == (n - 1) * b + b) by (nonlinear_arith);
        assert(u[n - 1] <= b);
    }
}

/// What holds of the levels while they rise.
spec fn rising(us: Seq<UnitView>, u: Seq<usize>) -> bool {
    &&& u.len() == us.len()
    &&& forall|i: int| 0 <= i < u.len() ==> (#[trigger] u[i]) < us.len()
    &&& forall|i: int|
        0 <= i < u.len() ==> #[trigger] u[i] == 0 || exists|j: int|
            0 <= j < us.len() && #[trigger] depends(us, i, j) && u[i] <= u[j] + 1
    &&& forall|rank: Seq<int>| #[trigger]
        is_rank(us, rank) ==> forall|i: int| 0 <= i < u.len() ==> (#[trigger] u[i]) <= rank[i]
}

/// One more than the highest level among the dependencies of unit `i`.
fn level_from_deps(deps: &Vec<usize>, u: &Vec<usize>, us: Ghost<Seq<UnitView>>, i: usize) -> (m: usize)
    requires
        i < us@.len(),
        us@.len() == u@.len(),
        forall|x: int|
            0 <= x < deps@.len() ==> (#[trigger] deps@[x]) < us@.len() && depends(
                us@,
                i as int,
                deps@[x] as int,
            ),
        forall|x: int| 0 <= x < u@.len() ==> (#[trigger] u@[x]) < us@.len(),
    ensures
        forall|x: int| 0 <= x < deps@.len() ==> u@[(#[trigger] deps@[x]) as int] + 1 <= m,
        m == 0 || exists|j: int|
            0 <= j < us@.len() && #[trigger] depends(us@, i as int, j) && m == u@[j] + 1,
        m <= us@.len(),
{
    let mut m: usize = 0;
    let mut x: usize = 0;
    while x < deps.len()
        invariant
            x <= deps@.len(),
            i < us@.len(),
            us@.len() == u@.len(),
            forall|x: int|
                0 <= x < deps@.len() ==> (#[trigger] deps@[x]) < us@.len() && depends(
                    us@,
                    i as int,
                    deps@[x] as int,
                ),
            forall|x: int| 0 <= x < u@.len() ==> (#[trigger] u@[x]) < us@.len(),
            forall|y: int| 0 <= y < x ==> u@[(#[trigger] deps@[y]) as int] + 1 <= m,
            m == 0 || exists|j: int|
                0 <= j < us@.len() && #[trigger] depends(us@, i as int, j) && m == u@[j] + 1,
            m <= us@.len(),
        decreases deps@.len() - x,
    {
        let j: usize = deps[x];
        let n: usize = u.len();
        assert(u@[j as int] < n);
        let l: usize = u[j] + 1;
        if l > m {
            m = l;
            assert(depends(us@, i as int, j as int) && m == u@[j as int] + 1);
        }
        x = x + 1;
    }
    m
}

/// The levels of the units, or `None` if the graph has a cycle.
fn unit_levels(units: &Vec<NixUnit>) -> (r: Option<Vec<usize>>)
    ensures
        match r {
            Some(lv) => is_levels(unit_views(units@), lv@.map_values(|x: usize| x as int)) && is_rank(
                unit_views(units@),
                lv@.map_values(|x: usize| x as int),
            ),
            None => !acyclic(unit_views(units@)),
        },
{
    let ghost us = unit_views(units@);
    let n: usize = units.len();
    let adj = build_adjacency(units);
    let mut u: Vec<usize> = Vec::new();
    let mut z: usize = 0;
    while z < n
        invariant
            z <= n,
            u@.len() == z,
            forall|i: int| 0 <= i < z ==> u@[i] == 0,
        decreases n - z,
    {
        u.push(0);
        z = z + 1;
    }
    let mut changed = true;
    while changed
        invariant
            n == us.len(),
            us == unit_views(units@),
            adjacency(us, adj@),
            rising(us, u@),
            !changed ==> forall|i: int, j: int|
                0 <= i < n && 0 <= j < n && #[trigger] depends(us, i, j) ==> u@[j] + 1 <= u@[i],
        decreases n * n - total(u@), (if changed {
            1int
        } else {
            0int
        }),
    {
        changed = false;
        let ghost start = u@;
        let mut i: usize = 0;
        while i < n
            invariant
                i <= n,
                n == us.len(),
                us == unit_views(units@),
                adjacency(us, adj@),
                rising(us, u@),
                start.len() == n,
                changed ==> total(u@) > total(start),
                !changed ==> u@ == start,
                !changed ==> forall|k: int, j: int|
                    0 <= k < i && 0 <= j < n && #[trigger] depends(us, k, j) ==> u@[j] + 1 <= u@[k],
            decreases n - i,
        {
            let m: usize = level_from_deps(&adj[i], &u, Ghost(us), i);
            if m > u[i] {
                if m >= n {
                    proof {
                        if acyclic(us) {
                            let rank = choose|rank: Seq<int>| is_rank(us, rank);
                            let j = choose|j: int|
                                0 <= j < us.len() && #[trigger] depends(us, i as int, j) && m
                                    == u@[j] + 1;
                            assert(u@[j] <= rank[j]);
                            assert(rank[j] < rank[i as int]);
                        }
                    }
                    return None;
                }
                proof {
                    let before = u@;
                    let after = u@.update(i as int, m);
                    lemma_total_update(u@, i as int, m);
                    assert forall|k: int| 0 <= k < after.len() implies #[trigger] after[k] == 0
                        || exists|j: int|
                        0 <= j < us.len() && #[trigger] depends(us, k, j) && after[k] <= after[j]
                            + 1 by {
                        if k == i {
                            let j = choose|j: int|
                                0 <= j < us.len() && #[trigger] depends(us, i as int, j) && m
                                    == before[j] + 1;
                            assert(depends(us, k, j) && after[k] <= after[j] + 1);
                        } else if before[k] != 0 {
                            let j = choose|j: int|
                                0 <= j < us.len() && #[trigger] depends(us, k, j) && before[k]
                                    <= before[j] + 1;
                            assert(depends(us, k, j) && after[k] <= after[j] + 1);
                        }
                    }
                    assert forall|rank: Seq<int>| #[trigger] is_rank(us, rank) implies forall|k: int|
                        0 <= k < after.len() ==> (#[trigger] after[k]) <= rank[k] by {
                        let j = choose|j: int|
                            0 <= j < us.len() && #[trigger] depends(us, i as int, j) && m
                                == before[j] + 1;
                        assert(before[j] <= rank[j]);
                        assert(rank[j] < rank[i as int]);
                        assert forall|k: int| 0 <= k < after.len() implies (#[trigger] after[k])
                            <= rank[k] by {
                            if k != i {
                                assert(before[k] <= rank[k]);
                            }
                        }
                    }
                }
                u.set(i, m);
                changed = true;
            } else {
                proof {
                    if !changed {
                        assert forall|k: int, j: int|
                            0 <= k < i + 1 && 0 <= j < n && #[trigger] depends(us, k, j) implies u@[j]
                            + 1 <= u@[k] by {
                            if k == i {
                                assert(adj@[k]@.contains(j as usize));
                                let x = choose|x: int|
                                    0 <= x < adj@[k]@.len() && adj@[k]@[x] == j as usize;
                                assert(u@[adj@[k]@[x] as int] + 1 <= m);
                            }
                        }
                    }
                }
            }
            i = i + 1;
        }
        proof {
            lemma_total_bound(u@, n - 1);
            assert(n * (n - 1) <= n * n) by (nonlinear_arith)
                requires
                    n >= 0,
            ;
            if n == 0 {
                assert(u@ =~= start);
            }
        }
    }
    proof {
        let lv = u@.map_values(|x: usize| x as int);
        assert forall|i: int| 0 <= i < us.len() implies #[trigger] lv[i] == 0 || exists|j: int|
            0 <= j < us.len() && #[trigger] depends(us, i, j) && lv[i] == lv[j] + 1 by {
            if u@[i] != 0 {
                let j = choose|j: int|
                    0 <= j < us.len() && #[trigger] depends(us, i, j) && u@[i] <= u@[j] + 1;
                assert(depends(us, i, j) && lv[i] == lv[j] + 1);
            }
        }
        assert forall|i: int, j: int|
            0 <= i < us.len() && 0 <= j < us.len() && #[trigger] depends(us, i, j) implies lv[j]
            < lv[i] by {
            assert(u@[j] + 1 <= u@[i]);
        }
    }
    Some(u)
}

/// Whether no unit depends on itself, directly or through others.
pub fn is_acyclic(units: &Vec<NixUnit>) -> (r: bool)
    ensures
        r == acyclic(unit_views(units@)),
{
    match unit_levels(units) {
        Some(lv) => {
            assert(is_rank(unit_views(units@), lv@.map_values(|x: usize| x as int)));
            true
        },
        None => false,
    }
}

/// The units of a level among the first `n`, in order.
pub open spec fn at_level(lv: Seq<int>, l: int, n: nat) -> Seq<int>
    decreases n,
{
    if n == 0 {
        Seq::empty()
    } else if lv[n - 1] == l {
        at_level(lv, l, (n - 1) as nat).push(n - 1)
    } else {
        at_level(lv, l, (n - 1) as nat)
    }
}

/// The units grouped by level, from zero to the highest level; one group if
/// there are no units.
pub open spec fn grouped(lv: Seq<int>, r: Seq<Vec<usize>>) -> bool {
    &&& r.len() >= 1
    &&& forall|i: int| 0 <= i < lv.len() ==> (#[trigger] lv[i]) < r.len()
    &&& r.len() == 1 || exists|i: int| 0 <= i < lv.len() && #[trigger] lv[i] == r.len() - 1
    &&& forall|l: int|
        0 <= l < r.len() ==> (#[trigger] r[l])@.map_values(|x: usize| x as int) == at_level(
            lv,
            l,
            lv.len(),
        )
}

/// Computes the levels in which derivations can be registered: all dependencies
/// of a unit stand in lower levels, so the units of a level are independent of
/// each other.
pub fn compute_topo_levels(units: &Vec<NixUnit>) -> (r: Vec<Vec<usize>>)
    requires
        acyclic(unit_views(units@)),
    ensures
        exists|lv: Seq<int>| #[trigger]
            is_levels(unit_views(units@), lv) && grouped(lv, r@),
{
    let u = match unit_levels(units) {
        Some(u) => u,
        None => {
            assert(false);
            Vec::new()
        },
    };
    let ghost lv = u@.map_values(|x: usize| x as int);
    let n: usize = units.len();
    assert forall|k: int| 0 <= k < n implies (#[trigger] u@[k]) < n by {
        assert(lv[k] < n);
    }
    let mut top: usize = 0;
    let mut i: usize = 0;
    while i < n
        invariant
            i <= n,
            u@.len() == n,
            forall|k: int| 0 <= k < n ==> (#[trigger] u@[k]) < n,
            forall|k: int| 0 <= k < i ==> (#[trigger] u@[k]) <= top,
            top == 0 || exists|k: int| 0 <= k < i && #[trigger] u@[k] == top,
        decreases n - i,
    {
        if u[i] > top {
            top = u[i];
            assert(u@[i as int] == top);
        }
        i = i + 1;
    }
    let mut r: Vec<Vec<usize>> = Vec::new();
    let mut l: usize = 0;
    assert(top == 0 || top < n);
    loop
        invariant_except_break
            r@.len() == l,
            forall|k: int|
                0 <= k < l ==> (#[trigger] r@[k])@.map_values(|x: usize| x as int) == at_level(
                    lv,
                    k,
                    lv.len(),
                ),
        invariant
            u@.len() == n,
            lv == u@.map_values(|x: usize| x as int),
            lv.len() == n,
            l <= top,
            top == 0 || top < n,
        ensures
            r@.len() == top + 1,
            forall|k: int|
                0 <= k < r@.len() ==> (#[trigger] r@[k])@.map_values(|x: usize| x as int)
                    == at_level(lv, k, lv.len()),
        decreases top - l,
    {
        let mut group: Vec<usize> = Vec::new();
        let mut j: usize = 0;
        assert(group@.map_values(|x: usize| x as int) =~= at_level(lv, l as int, 0));
        while j < n
            invariant
                j <= n,
                u@.len() == n,
                lv == u@.map_values(|x: usize| x as int),
                group@.map_values(|x: usize| x as int) == at_level(lv, l as int, j as nat),
            decreases n - j,
        {
            let ghost before = group@.map_values(|x: usize| x as int);
            if u[j] == l {
                group.push(j);
                assert(group@.map_values(|x: usize| x as int) =~= before.push(j as int));
            }
            j = j + 1;
        }
        r.push(group);
        if l == top {
            break;
        }
        l = l + 1;
    }
    proof {
        assert forall|k: int| 0 <= k < lv.len() implies (#[trigger] lv[k]) < r@.len() by {
            assert(u@[k] <= top);
        }
        if top != 0 {
            let k = choose|k: int| 0 <= k < n && #[trigger] u@[k] == top;
            assert(lv[k] == r@.len() - 1);
        }
        assert(is_levels(unit_views(units@), lv) && grouped(lv, r@));
    }
    r
}

/// The levels of an acyclic graph are unique.
pub proof fn law_levels_unique(us: Seq<UnitView>, a: Seq<int>, b: Seq<int>)
    requires
        is_levels(us, a),
        is_levels(us, b),
    ensures
        a == b,
{
    assert forall|i: int| 0 <= i < us.len() implies #[trigger] a[i] == b[i] by {
        lemma_level_at_most(us, a, b, i);
        lemma_level_at_most(us, b, a, i);
    }
    assert(a =~= b);
}

proof fn lemma_level_at_most(us: Seq<UnitView>, a: Seq<int>, b: Seq<int>, i: int)
    requires
        is_levels(us, a),
        is_levels(us, b),
        0 <= i < us.len(),
    ensures
        a[i] <= b[i],
    decreases a[i],
{
    if a[i] != 0 {
        let j = choose|j: int| 0 <= j < us.len() && #[trigger] depends(us, i, j) && a[i] == a[j] + 1;
        lemma_level_at_most(us, a, b, j);
        assert(b[j] < b[i]);
    }
}

} // verus!
