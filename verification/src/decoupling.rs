//! What the derivation of a unit depends on: nothing but what the unit reads. A change
//! elsewhere in a project, or in a dependency that a unit does not have, leaves its
//! derivation as it was.
use crate::aterm::aterm_derivation;
use crate::aterm_reading::law_text_tells_all;
use crate::derivation::{
    input_drvs, input_keys, linked_scripts, unit_derivation, unit_script, unit_sources, BuildTools,
};
use crate::graph::{
    acyclic, at_level, dep_keys, depends, firsts, index_of, is_levels, is_rank, lemma_index_of,
    names_unit, opt_seq, seconds, unit_index,
};
use crate::planner::{derivations_of, groups_of, lemma_highest, levels_of};
use crate::registration::{
    cc_closure, cc_dir, drvs_with, law_lower_levels_first, level_plan, levels_plan, unit_plan,
    LevelView, PlanContext,
};
use crate::run_script::{dep_metadata_parts, run_script};
use crate::scripts::{extern_args, foreign_parts, search_args};
use crate::setup::{rule_views, setup_scripts};
use crate::text::sort_seq;
use crate::units::{UnitKind, UnitView};
use vstd::prelude::*;

verus! {

// ---------------------------------------------------------------------------
// What a plan looks up
// ---------------------------------------------------------------------------

/// What is known when a unit is planned: all units, their positions by key, and the
/// derivations that were planned before.
pub struct Known {
    pub us: Seq<UnitView>,
    pub idx: Map<Seq<char>, usize>,
    pub drvs: Map<Seq<char>, Seq<char>>,
}

/// A key leads to the same unit and the same derivation in two plans.
pub open spec fn alike_at(a: Known, b: Known, k: Seq<char>) -> bool {
    &&& a.idx.contains_key(k) == b.idx.contains_key(k)
    &&& a.idx.contains_key(k) ==> a.us[a.idx[k] as int] == b.us[b.idx[k] as int]
    &&& a.drvs.contains_key(k) == b.drvs.contains_key(k)
    &&& a.drvs.contains_key(k) ==> a.idx.contains_key(k) && a.drvs[k] == b.drvs[k]
}

proof fn lemma_externs_alike(a: Known, b: Known, deps: Seq<(Seq<char>, Seq<char>)>)
    requires
        forall|p: int| 0 <= p < deps.len() ==> alike_at(a, b, (#[trigger] deps[p]).1),
    ensures
        extern_args(a.us, a.idx, a.drvs, deps) == extern_args(b.us, b.idx, b.drvs, deps),
    decreases deps.len(),
{
    if deps.len() > 0 {
        let rest = deps.drop_last();
        assert forall|p: int| 0 <= p < rest.len() implies alike_at(a, b, (#[trigger] rest[p]).1) by {
            assert(rest[p] == deps[p]);
        }
        lemma_externs_alike(a, b, rest);
        assert(alike_at(a, b, deps[deps.len() - 1].1));
    }
}

proof fn lemma_search_alike(a: Known, b: Known, keys: Seq<Seq<char>>)
    requires
        forall|p: int| 0 <= p < keys.len() ==> alike_at(a, b, #[trigger] keys[p]),
    ensures
        search_args(a.drvs, keys) == search_args(b.drvs, keys),
    decreases keys.len(),
{
    if keys.len() > 0 {
        let rest = keys.drop_last();
        assert forall|p: int| 0 <= p < rest.len() implies alike_at(a, b, #[trigger] rest[p]) by {
            assert(rest[p] == keys[p]);
        }
        lemma_search_alike(a, b, rest);
        assert(alike_at(a, b, keys[keys.len() - 1]));
    }
}

proof fn lemma_metadata_alike(a: Known, b: Known, links: Seq<(Seq<char>, Seq<char>)>)
    requires
        forall|p: int| 0 <= p < links.len() ==> alike_at(a, b, (#[trigger] links[p]).0),
    ensures
        dep_metadata_parts(a.drvs, links) == dep_metadata_parts(b.drvs, links),
    decreases links.len(),
{
    if links.len() > 0 {
        let rest = links.drop_last();
        assert forall|p: int| 0 <= p < rest.len() implies alike_at(
            a,
            b,
            (#[trigger] rest[p]).0,
        ) by {
            assert(rest[p] == links[p]);
        }
        lemma_metadata_alike(a, b, rest);
        assert(alike_at(a, b, links[links.len() - 1].0));
    }
}

proof fn lemma_linked_alike(a: Known, b: Known, keys: Seq<Seq<char>>)
    requires
        forall|p: int| 0 <= p < keys.len() ==> alike_at(a, b, #[trigger] keys[p]),
    ensures
        linked_scripts(a.us, a.idx, keys) == linked_scripts(b.us, b.idx, keys),
    decreases keys.len(),
{
    if keys.len() > 0 {
        let rest = keys.drop_last();
        assert forall|p: int| 0 <= p < rest.len() implies alike_at(a, b, #[trigger] rest[p]) by {
            assert(rest[p] == keys[p]);
        }
        lemma_linked_alike(a, b, rest);
        assert(alike_at(a, b, keys[keys.len() - 1]));
    }
}

proof fn lemma_foreign_alike(a: Known, b: Known, u: UnitView, keys: Seq<Seq<char>>)
    requires
        forall|p: int| 0 <= p < keys.len() ==> alike_at(a, b, #[trigger] keys[p]),
        forall|p: int|
            0 <= p < linked_scripts(a.us, a.idx, keys).len() ==> alike_at(
                a,
                b,
                #[trigger] linked_scripts(a.us, a.idx, keys)[p],
            ),
    ensures
        foreign_parts(u, a.us, a.idx, a.drvs, keys) == foreign_parts(u, b.us, b.idx, b.drvs, keys),
    decreases keys.len(),
{
    if keys.len() > 0 {
        let rest = keys.drop_last();
        let k = keys.last();
        let all = linked_scripts(a.us, a.idx, keys);
        let before = linked_scripts(a.us, a.idx, rest);
        assert forall|p: int| 0 <= p < rest.len() implies alike_at(a, b, #[trigger] rest[p]) by {
            assert(rest[p] == keys[p]);
        }
        assert forall|p: int| 0 <= p < before.len() implies alike_at(a, b, #[trigger] before[p]) by {
            assert(all[p] == before[p]);
        }
        lemma_foreign_alike(a, b, u, rest);
        assert(alike_at(a, b, keys[keys.len() - 1]));
        if a.idx.contains_key(k) {
            let script = a.us[a.idx[k] as int].build_script_dep;
            if script is Some {
                assert(all[before.len() as int] == script->0);
            }
        }
    }
}

proof fn lemma_inputs_alike(a: Known, b: Known, keys: Seq<Seq<char>>)
    requires
        forall|p: int| 0 <= p < keys.len() ==> alike_at(a, b, #[trigger] keys[p]),
    ensures
        input_drvs(a.drvs, keys) == input_drvs(b.drvs, keys),
    decreases keys.len(),
{
    if keys.len() > 0 {
        let rest = keys.drop_last();
        assert forall|p: int| 0 <= p < rest.len() implies alike_at(a, b, #[trigger] rest[p]) by {
            assert(rest[p] == keys[p]);
        }
        lemma_inputs_alike(a, b, rest);
        assert(alike_at(a, b, keys[keys.len() - 1]));
    }
}

/// Every key that a unit reads leads to the same in two plans.
pub open spec fn reads_alike(a: Known, b: Known, u: UnitView) -> bool {
    forall|p: int|
        0 <= p < input_keys(u, a.us, a.idx).len() ==> alike_at(
            a,
            b,
            #[trigger] input_keys(u, a.us, a.idx)[p],
        )
}

/// Two contexts differ at most in the directory of the vendored dependencies.
pub open spec fn same_but_vendor(cx: PlanContext, dx: PlanContext) -> bool {
    cx == (PlanContext {
        tools: BuildTools { vendor_store: cx.tools.vendor_store, ..dx.tools },
        ..dx
    })
}

/// A unit is linked or run, and with it goes the directory of the vendored
/// dependencies.
pub open spec fn takes_vendor(u: UnitView) -> bool {
    u.kind == UnitKind::BuildScriptRun || u.needs_linker
}

/// The parts of what a unit reads.
proof fn lemma_parts_alike(a: Known, b: Known, u: UnitView)
    requires
        reads_alike(a, b, u),
    ensures
        forall|p: int| 0 <= p < u.dep_extern.len() ==> alike_at(a, b, (#[trigger] u.dep_extern[p]).1),
        forall|p: int| 0 <= p < u.all_dep_keys.len() ==> alike_at(a, b, #[trigger] u.all_dep_keys[p]),
        u.build_script_dep matches Some(k) ==> alike_at(a, b, k),
        u.build_script_compile_key matches Some(k) ==> alike_at(a, b, k),
        forall|p: int|
            0 <= p < u.links_dep_keys.len() ==> alike_at(a, b, (#[trigger] u.links_dep_keys[p]).0),
        u.needs_linker && u.kind != UnitKind::BuildScriptRun ==> forall|p: int|
            0 <= p < linked_scripts(a.us, a.idx, u.all_dep_keys).len() ==> alike_at(
                a,
                b,
                #[trigger] linked_scripts(a.us, a.idx, u.all_dep_keys)[p],
            ),
{
    let ks = input_keys(u, a.us, a.idx);
    let n1 = u.dep_extern.len() as int;
    let n2 = n1 + u.all_dep_keys.len();
    let n3 = n2 + opt_seq(u.build_script_dep).len();
    let n4 = n3 + opt_seq(u.build_script_compile_key).len();
    let n5 = n4 + u.links_dep_keys.len();
    assert forall|p: int| 0 <= p < u.dep_extern.len() implies alike_at(
        a,
        b,
        (#[trigger] u.dep_extern[p]).1,
    ) by {
        assert(ks[p] == u.dep_extern[p].1);
    }
    assert forall|p: int| 0 <= p < u.all_dep_keys.len() implies alike_at(
        a,
        b,
        #[trigger] u.all_dep_keys[p],
    ) by {
        assert(ks[n1 + p] == u.all_dep_keys[p]);
    }
    if let Some(k) = u.build_script_dep {
        assert(ks[n2] == k);
    }
    if let Some(k) = u.build_script_compile_key {
        assert(ks[n3] == k);
    }
    assert forall|p: int| 0 <= p < u.links_dep_keys.len() implies alike_at(
        a,
        b,
        (#[trigger] u.links_dep_keys[p]).0,
    ) by {
        assert(ks[n4 + p] == u.links_dep_keys[p].0);
    }
    if u.needs_linker && u.kind != UnitKind::BuildScriptRun {
        let ls = linked_scripts(a.us, a.idx, u.all_dep_keys);
        assert forall|p: int| 0 <= p < ls.len() implies alike_at(a, b, #[trigger] ls[p]) by {
            assert(ks[n5 + p] == ls[p]);
        }
    }
}

proof fn lemma_script_alike(
    a: Known,
    b: Known,
    u: UnitView,
    cx: PlanContext,
    dx: PlanContext,
    cc: Seq<char>,
    store: Seq<char>,
    parent: bool,
    setup: Seq<Seq<char>>,
)
    requires
        reads_alike(a, b, u),
        same_but_vendor(cx, dx),
    ensures
        unit_script(
            u,
            a.us,
            a.idx,
            a.drvs,
            cx.tools,
            cc,
            cx.profile,
            cx.target,
            store,
            parent,
            setup,
        ) == unit_script(
            u,
            b.us,
            b.idx,
            b.drvs,
            dx.tools,
            cc,
            dx.profile,
            dx.target,
            store,
            parent,
            setup,
        ),
{
    reveal(unit_script);
    lemma_parts_alike(a, b, u);
    if u.kind == UnitKind::BuildScriptRun {
        reveal(run_script);
        lemma_metadata_alike(a, b, u.links_dep_keys);
    } else {
        lemma_externs_alike(a, b, u.dep_extern);
        lemma_search_alike(a, b, u.all_dep_keys);
        if u.needs_linker {
            lemma_foreign_alike(a, b, u, u.all_dep_keys);
        }
    }
}

/// Two plans of units are the same but for the position of the unit.
pub open spec fn same_plan(
    r: Result<LevelView, Seq<char>>,
    s: Result<LevelView, Seq<char>>,
) -> bool {
    match (r, s) {
        (Ok(x), Ok(y)) => x == (LevelView { i: x.i, ..y }),
        (Err(e), Err(f)) => e == f,
        _ => false,
    }
}

/// A unit is planned by what it reads: if that leads to the same, so do its plans.
proof fn lemma_plan_alike(
    a: Known,
    b: Known,
    cx: PlanContext,
    dx: PlanContext,
    store: Seq<char>,
    parent: bool,
    i: int,
    j: int,
)
    requires
        a.us[i] == b.us[j],
        reads_alike(a, b, a.us[i]),
        same_but_vendor(cx, dx),
        takes_vendor(a.us[i]) ==> cx.tools.vendor_store@ == dx.tools.vendor_store@,
    ensures
        same_plan(
            unit_plan(a.us, a.idx, a.drvs, cx, store, parent, i),
            unit_plan(b.us, b.idx, b.drvs, dx, store, parent, j),
        ),
{
    let u = a.us[i];
    lemma_script_alike(
        a,
        b,
        u,
        cx,
        dx,
        cc_dir(cx, u),
        store,
        parent,
        setup_scripts(rule_views(cx.rules@), u),
    );
    lemma_parts_alike(a, b, u);
    lemma_linked_alike(a, b, u.all_dep_keys);
    assert(input_keys(u, a.us, a.idx) == input_keys(u, b.us, b.idx));
    lemma_inputs_alike(a, b, input_keys(u, a.us, a.idx));
    assert(cc_closure(cx, u) == cc_closure(dx, u));
    assert forall|script: Seq<char>| #[trigger]
        unit_derivation(u, a.us, a.idx, a.drvs, cx.tools, cc_closure(cx, u), script)
            == unit_derivation(u, b.us, b.idx, b.drvs, dx.tools, cc_closure(dx, u), script) by {}
}

// ---------------------------------------------------------------------------
// Levels
// ---------------------------------------------------------------------------

/// One more than the highest level among the dependencies of a unit that stand before
/// position `n`; zero without any.
spec fn level_upto(us: Seq<UnitView>, rank: Seq<int>, i: int, n: nat) -> int
    decreases rank[i], n,
    when is_rank(us, rank) && 0 <= i < us.len() && n <= us.len()
{
    if n == 0 {
        0
    } else {
        let before = level_upto(us, rank, i, (n - 1) as nat);
        if depends(us, i, n - 1) {
            let own = level_upto(us, rank, n - 1, us.len()) + 1;
            if own > before {
                own
            } else {
                before
            }
        } else {
            before
        }
    }
}

proof fn lemma_level_upto(us: Seq<UnitView>, rank: Seq<int>, i: int, n: nat)
    requires
        is_rank(us, rank),
        0 <= i < us.len(),
        n <= us.len(),
    ensures
        level_upto(us, rank, i, n) >= 0,
        forall|j: int|
            0 <= j < n && #[trigger] depends(us, i, j) ==> level_upto(us, rank, j, us.len())
                < level_upto(us, rank, i, n),
        level_upto(us, rank, i, n) == 0 || exists|j: int|
            0 <= j < n && #[trigger] depends(us, i, j) && level_upto(us, rank, i, n) == level_upto(
                us,
                rank,
                j,
                us.len(),
            ) + 1,
    decreases rank[i], n,
{
    if n > 0 {
        lemma_level_upto(us, rank, i, (n - 1) as nat);
        if depends(us, i, n - 1) {
            lemma_level_upto(us, rank, n - 1, us.len());
        }
    }
}

/// Units that do not depend on themselves have levels.
pub proof fn lemma_has_levels(us: Seq<UnitView>)
    requires
        acyclic(us),
    ensures
        is_levels(us, levels_of(us)),
{
    let rank = choose|rank: Seq<int>| is_rank(us, rank);
    let lv = Seq::new(us.len(), |i: int| level_upto(us, rank, i, us.len()));
    assert forall|i: int| 0 <= i < us.len() implies 0 <= #[trigger] lv[i] by {
        lemma_level_upto(us, rank, i, us.len());
    }
    assert forall|i: int, j: int|
        0 <= i < us.len() && 0 <= j < us.len() && #[trigger] depends(us, i, j) implies lv[j]
        < lv[i] by {
        lemma_level_upto(us, rank, i, us.len());
    }
    assert forall|i: int| 0 <= i < us.len() implies #[trigger] lv[i] == 0 || exists|j: int|
        0 <= j < us.len() && #[trigger] depends(us, i, j) && lv[i] == lv[j] + 1 by {
        lemma_level_upto(us, rank, i, us.len());
        if lv[i] != 0 {
            let j = choose|j: int|
                0 <= j < us.len() && #[trigger] depends(us, i, j) && level_upto(
                    us,
                    rank,
                    i,
                    us.len(),
                ) == level_upto(us, rank, j, us.len()) + 1;
            assert(depends(us, i, j) && lv[i] == lv[j] + 1);
        }
    }
    assert(is_levels(us, lv));
}

/// The units of a level: all of it, each once.
proof fn lemma_of_level(lv: Seq<int>, l: int, n: nat)
    requires
        n <= lv.len(),
    ensures
        forall|p: int|
            0 <= p < at_level(lv, l, n).len() ==> 0 <= (#[trigger] at_level(lv, l, n)[p]) < n
                && lv[at_level(lv, l, n)[p]] == l,
        forall|p: int, q: int|
            0 <= p < q < at_level(lv, l, n).len() ==> (#[trigger] at_level(lv, l, n)[p]) < (
            #[trigger] at_level(lv, l, n)[q]),
        forall|i: int|
            0 <= i < n && #[trigger] lv[i] == l ==> at_level(lv, l, n).contains(i),
    decreases n,
{
    if n > 0 {
        lemma_of_level(lv, l, (n - 1) as nat);
        let before = at_level(lv, l, (n - 1) as nat);
        let all = at_level(lv, l, n);
        assert forall|i: int| 0 <= i < n && #[trigger] lv[i] == l implies all.contains(i) by {
            if i < n - 1 {
                let p = choose|p: int| 0 <= p < before.len() && before[p] == i;
                assert(all[p] == i);
            } else {
                assert(all[before.len() as int] == i);
            }
        }
    }
}

// ---------------------------------------------------------------------------
// Plans by level
// ---------------------------------------------------------------------------

/// What is planned: the units, where their sources are, and which of the sources hold
/// files from outside the project.
pub struct Planned {
    pub us: Seq<UnitView>,
    pub stores: Seq<Seq<char>>,
    pub parents: Seq<bool>,
}

/// No two units have the same key.
pub open spec fn keys_differ(us: Seq<UnitView>) -> bool {
    forall|i: int, j: int|
        0 <= i < us.len() && 0 <= j < us.len() && i != j ==> (#[trigger] us[i]).key != (
        #[trigger] us[j]).key
}

/// A graph of units that can be planned.
pub open spec fn plannable(g: Planned) -> bool {
    &&& acyclic(g.us)
    &&& keys_differ(g.us)
    &&& g.us.len() <= usize::MAX
}

/// The plans of the levels below a level, with the derivations by unit.
spec fn below(g: Planned, cx: PlanContext, n: int) -> Result<
    (Seq<Seq<LevelView>>, Map<Seq<char>, Seq<char>>),
    Seq<char>,
> {
    levels_plan(
        g.us,
        unit_index(g.us),
        cx,
        g.stores,
        g.parents,
        groups_of(levels_of(g.us)).take(n),
    )
}

/// The plan of a unit, with the derivations of the levels below its own.
spec fn plan_at(g: Planned, cx: PlanContext, i: int) -> Result<LevelView, Seq<char>> {
    unit_plan(
        g.us,
        unit_index(g.us),
        below(g, cx, levels_of(g.us)[i])->Ok_0.1,
        cx,
        g.stores[i],
        g.parents[i],
        i,
    )
}

proof fn lemma_index(us: Seq<UnitView>, i: int)
    requires
        keys_differ(us),
        us.len() <= usize::MAX,
        0 <= i < us.len(),
    ensures
        unit_index(us).contains_key(us[i].key),
        unit_index(us)[us[i].key] == i,
{
    lemma_index_of(us, us[i].key);
}

proof fn lemma_indexed(us: Seq<UnitView>, k: Seq<char>)
    requires
        us.len() <= usize::MAX,
        unit_index(us).contains_key(k),
    ensures
        0 <= unit_index(us)[k] < us.len(),
        us[unit_index(us)[k] as int].key == k,
{
    lemma_index_of(us, k);
}

proof fn lemma_level_plan_at(
    us: Seq<UnitView>,
    idx: Map<Seq<char>, usize>,
    drvs: Map<Seq<char>, Seq<char>>,
    cx: PlanContext,
    stores: Seq<Seq<char>>,
    parents: Seq<bool>,
    level: Seq<int>,
)
    requires
        level_plan(us, idx, drvs, cx, stores, parents, level) is Ok,
    ensures
        level_plan(us, idx, drvs, cx, stores, parents, level)->Ok_0.len() == level.len(),
        forall|p: int|
            0 <= p < level.len() ==> unit_plan(
                us,
                idx,
                drvs,
                cx,
                stores[level[p]],
                parents[level[p]],
                level[p],
            ) == Ok::<LevelView, Seq<char>>(
                #[trigger] level_plan(us, idx, drvs, cx, stores, parents, level)->Ok_0[p],
            ),
    decreases level.len(),
{
    if level.len() > 0 {
        let rest = level.drop_last();
        lemma_level_plan_at(us, idx, drvs, cx, stores, parents, rest);
        let all = level_plan(us, idx, drvs, cx, stores, parents, level)->Ok_0;
        let before = level_plan(us, idx, drvs, cx, stores, parents, rest)->Ok_0;
        assert forall|p: int| 0 <= p < level.len() implies unit_plan(
            us,
            idx,
            drvs,
            cx,
            stores[level[p]],
            parents[level[p]],
            level[p],
        ) == Ok::<LevelView, Seq<char>>(#[trigger] all[p]) by {
            if p < rest.len() {
                assert(rest[p] == level[p]);
                assert(all[p] == before[p]);
            }
        }
    }
}

proof fn lemma_drvs_with(drvs: Map<Seq<char>, Seq<char>>, level: Seq<LevelView>)
    requires
        forall|p: int, q: int|
            0 <= p < q < level.len() ==> (#[trigger] level[p]).unit_key != (
            #[trigger] level[q]).unit_key,
    ensures
        forall|k: Seq<char>| #[trigger]
            drvs_with(drvs, level).contains_key(k) <==> drvs.contains_key(k) || exists|p: int|
                0 <= p < level.len() && (#[trigger] level[p]).unit_key == k,
        forall|p: int|
            0 <= p < level.len() ==> drvs_with(drvs, level)[(#[trigger] level[p]).unit_key]
                == level[p].drv_path,
        forall|k: Seq<char>|
            (forall|p: int| 0 <= p < level.len() ==> (#[trigger] level[p]).unit_key != k)
                ==> #[trigger] drvs_with(drvs, level)[k] == drvs[k],
    decreases level.len(),
{
    if level.len() > 0 {
        let rest = level.drop_last();
        let x = level.last();
        let before = drvs_with(drvs, rest);
        let all = drvs_with(drvs, level);
        assert forall|p: int, q: int| 0 <= p < q < rest.len() implies (#[trigger] rest[p]).unit_key
            != (#[trigger] rest[q]).unit_key by {
            assert(rest[p] == level[p] && rest[q] == level[q]);
        }
        lemma_drvs_with(drvs, rest);
        assert(all == before.insert(x.unit_key, x.drv_path));
        assert forall|k: Seq<char>| #[trigger]
            all.contains_key(k) <==> drvs.contains_key(k) || exists|p: int|
                0 <= p < level.len() && (#[trigger] level[p]).unit_key == k by {
            if exists|p: int| 0 <= p < level.len() && (#[trigger] level[p]).unit_key == k {
                let p = choose|p: int| 0 <= p < level.len() && (#[trigger] level[p]).unit_key == k;
                if p < rest.len() {
                    assert(rest[p] == level[p]);
                }
            }
            if before.contains_key(k) && !drvs.contains_key(k) {
                let p = choose|p: int| 0 <= p < rest.len() && (#[trigger] rest[p]).unit_key == k;
                assert(level[p].unit_key == k);
            }
            if k == x.unit_key {
                assert(level[level.len() - 1].unit_key == k);
            }
        }
        assert forall|p: int| 0 <= p < level.len() implies all[(#[trigger] level[p]).unit_key]
            == level[p].drv_path by {
            if p < rest.len() {
                assert(rest[p] == level[p]);
                assert(level[p].unit_key != level[level.len() - 1].unit_key);
            }
        }
        assert forall|k: Seq<char>|
            (forall|p: int| 0 <= p < level.len() ==> (#[trigger] level[p]).unit_key != k) implies
            #[trigger] all[k] == drvs[k] by {
            assert(level[level.len() - 1].unit_key != k);
            assert forall|p: int| 0 <= p < rest.len() implies (#[trigger] rest[p]).unit_key != k by {
                assert(rest[p] == level[p]);
            }
        }
    }
}

proof fn lemma_plan_key(
    us: Seq<UnitView>,
    idx: Map<Seq<char>, usize>,
    drvs: Map<Seq<char>, Seq<char>>,
    cx: PlanContext,
    store: Seq<char>,
    parent: bool,
    i: int,
)
    requires
        unit_plan(us, idx, drvs, cx, store, parent, i) is Ok,
    ensures
        unit_plan(us, idx, drvs, cx, store, parent, i)->Ok_0.unit_key == us[i].key,
        unit_plan(us, idx, drvs, cx, store, parent, i)->Ok_0.i == i,
{
}

/// What is planned below a level: the units of the lower levels, each by its own plan.
proof fn lemma_below(g: Planned, cx: PlanContext, n: int)
    requires
        plannable(g),
        0 <= n <= groups_of(levels_of(g.us)).len(),
        below(g, cx, n) is Ok,
    ensures
        forall|k: Seq<char>| #[trigger]
            below(g, cx, n)->Ok_0.1.contains_key(k) <==> unit_index(g.us).contains_key(k)
                && levels_of(g.us)[unit_index(g.us)[k] as int] < n,
        forall|i: int|
            0 <= i < g.us.len() && levels_of(g.us)[i] < n ==> (#[trigger] plan_at(g, cx, i)) is Ok
                && below(g, cx, n)->Ok_0.1[g.us[i].key] == plan_at(g, cx, i)->Ok_0.drv_path,
    decreases n,
{
    let us = g.us;
    let idx = unit_index(us);
    let lv = levels_of(us);
    lemma_has_levels(us);
    let groups = groups_of(lv);
    if n == 0 {
        assert(groups.take(0) =~= Seq::empty());
        assert forall|k: Seq<char>| idx.contains_key(k) implies lv[idx[k] as int] >= 0 by {
            lemma_indexed(us, k);
        }
    } else {
        let m = n - 1;
        assert(groups.take(n).drop_last() =~= groups.take(m));
        assert(groups.take(n).last() == groups[m]);
        lemma_below(g, cx, m);
        let drvs = below(g, cx, m)->Ok_0.1;
        let at = groups[m];
        let level = level_plan(us, idx, drvs, cx, g.stores, g.parents, at)->Ok_0;
        lemma_of_level(lv, m, lv.len());
        lemma_level_plan_at(us, idx, drvs, cx, g.stores, g.parents, at);
        assert forall|p: int| 0 <= p < level.len() implies (#[trigger] level[p]).unit_key
            == us[at[p]].key && 0 <= at[p] < us.len() && lv[at[p]] == m && plan_at(g, cx, at[p])
            == Ok::<LevelView, Seq<char>>(level[p]) by {
            lemma_plan_key(us, idx, drvs, cx, g.stores[at[p]], g.parents[at[p]], at[p]);
        }
        assert forall|p: int, q: int| 0 <= p < q < level.len() implies (
        #[trigger] level[p]).unit_key != (#[trigger] level[q]).unit_key by {
            assert(at[p] < at[q]);
        }
        lemma_drvs_with(drvs, level);
        let all = below(g, cx, n)->Ok_0.1;
        assert(all == drvs_with(drvs, level));
        assert forall|k: Seq<char>| #[trigger]
            all.contains_key(k) <==> idx.contains_key(k) && lv[idx[k] as int] < n by {
            if idx.contains_key(k) && lv[idx[k] as int] == m {
                lemma_indexed(us, k);
                let i = idx[k] as int;
                assert(lv[i] == m);
                let p = choose|p: int| 0 <= p < at.len() && at[p] == i;
                assert(level[p].unit_key == k);
            }
            if exists|p: int| 0 <= p < level.len() && (#[trigger] level[p]).unit_key == k {
                let p = choose|p: int| 0 <= p < level.len() && (#[trigger] level[p]).unit_key == k;
                lemma_index(us, at[p]);
            }
        }
        assert forall|i: int| 0 <= i < us.len() && lv[i] < n implies (
        #[trigger] plan_at(g, cx, i)) is Ok && all[us[i].key] == plan_at(
            g,
            cx,
            i,
        )->Ok_0.drv_path by {
            if lv[i] == m {
                let p = choose|p: int| 0 <= p < at.len() && at[p] == i;
                assert(level[p].unit_key == us[i].key);
            } else {
                assert forall|p: int| 0 <= p < level.len() implies (#[trigger] level[p]).unit_key
                    != us[i].key by {
                    assert(at[p] != i);
                }
            }
        }
    }
}

// ---------------------------------------------------------------------------
// Two plans
// ---------------------------------------------------------------------------

/// The position of the unit with a key.
pub open spec fn place(g: Planned, k: Seq<char>) -> int {
    unit_index(g.us)[k] as int
}

/// A unit stands in a graph under a key.
pub open spec fn holds(g: Planned, k: Seq<char>) -> bool {
    unit_index(g.us).contains_key(k)
}

/// A key leads to equal units with equal sources.
pub open spec fn matched(g: Planned, h: Planned, k: Seq<char>) -> bool {
    &&& holds(g, k)
    &&& holds(h, k)
    &&& g.us[place(g, k)] == h.us[place(h, k)]
    &&& g.stores[place(g, k)] == h.stores[place(h, k)]
    &&& g.parents[place(g, k)] == h.parents[place(h, k)]
}

/// The keys of what the unit with a key reads.
pub open spec fn reads(g: Planned, k: Seq<char>) -> Seq<Seq<char>> {
    input_keys(g.us[place(g, k)], g.us, unit_index(g.us))
}

/// The units with these keys, and all that they read, are the same in two graphs.
pub open spec fn unaffected(g: Planned, h: Planned, keys: Set<Seq<char>>) -> bool {
    &&& forall|k: Seq<char>| #[trigger] keys.contains(k) ==> matched(g, h, k)
    &&& forall|k: Seq<char>, p: int|
        keys.contains(k) && 0 <= p < reads(g, k).len() && (holds(g, #[trigger] reads(g, k)[p])
            || holds(h, reads(g, k)[p])) ==> keys.contains(reads(g, k)[p])
}

/// The units with these keys, and all that they depend on, are the same in two graphs.
spec fn deps_unaffected(g: Planned, h: Planned, keys: Set<Seq<char>>) -> bool {
    &&& forall|k: Seq<char>| #[trigger] keys.contains(k) ==> matched(g, h, k)
    &&& forall|k: Seq<char>, p: int|
        keys.contains(k) && 0 <= p < dep_keys(g.us[place(g, k)]).len() && (holds(
            g,
            #[trigger] dep_keys(g.us[place(g, k)])[p],
        ) || holds(h, dep_keys(g.us[place(g, k)])[p])) ==> keys.contains(
            dep_keys(g.us[place(g, k)])[p],
        )
}

proof fn lemma_deps_read(us: Seq<UnitView>, idx: Map<Seq<char>, usize>, u: UnitView, p: int)
    requires
        0 <= p < dep_keys(u).len(),
    ensures
        exists|q: int|
            0 <= q < input_keys(u, us, idx).len() && #[trigger] input_keys(u, us, idx)[q]
                == dep_keys(u)[p],
{
    let ks = input_keys(u, us, idx);
    let n = u.dep_extern.len() as int;
    if p < n {
        assert(seconds(u.dep_extern)[p] == dep_keys(u)[p]);
        assert(ks[p] == dep_keys(u)[p]);
    } else {
        let tail = opt_seq(u.build_script_dep) + opt_seq(u.build_script_compile_key) + firsts(
            u.links_dep_keys,
        );
        let q = p + u.all_dep_keys.len();
        assert(dep_keys(u)[p] == tail[p - n]);
        assert(ks[q] == tail[p - n]);
    }
}

proof fn lemma_deps_unaffected(g: Planned, h: Planned, keys: Set<Seq<char>>)
    requires
        unaffected(g, h, keys),
    ensures
        deps_unaffected(g, h, keys),
        deps_unaffected(h, g, keys),
{
    assert forall|k: Seq<char>, p: int|
        keys.contains(k) && 0 <= p < dep_keys(g.us[place(g, k)]).len() && (holds(
            g,
            #[trigger] dep_keys(g.us[place(g, k)])[p],
        ) || holds(h, dep_keys(g.us[place(g, k)])[p])) implies keys.contains(
        dep_keys(g.us[place(g, k)])[p],
    ) by {
        lemma_deps_read(g.us, unit_index(g.us), g.us[place(g, k)], p);
        let q = choose|q: int|
            0 <= q < reads(g, k).len() && #[trigger] reads(g, k)[q] == dep_keys(
                g.us[place(g, k)],
            )[p];
        assert(holds(g, reads(g, k)[q]) || holds(h, reads(g, k)[q]));
    }
    assert forall|k: Seq<char>, p: int|
        keys.contains(k) && 0 <= p < dep_keys(h.us[place(h, k)]).len() && (holds(
            h,
            #[trigger] dep_keys(h.us[place(h, k)])[p],
        ) || holds(g, dep_keys(h.us[place(h, k)])[p])) implies keys.contains(
        dep_keys(h.us[place(h, k)])[p],
    ) by {
        assert(matched(g, h, k));
        assert(holds(g, dep_keys(g.us[place(g, k)])[p]) || holds(
            h,
            dep_keys(g.us[place(g, k)])[p],
        ));
    }
}

proof fn lemma_level_at_most(g: Planned, h: Planned, keys: Set<Seq<char>>, k: Seq<char>)
    requires
        plannable(g),
        plannable(h),
        deps_unaffected(g, h, keys),
        keys.contains(k),
    ensures
        levels_of(g.us)[place(g, k)] <= levels_of(h.us)[place(h, k)],
    decreases levels_of(g.us)[place(g, k)],
{
    let a = levels_of(g.us);
    let b = levels_of(h.us);
    lemma_has_levels(g.us);
    lemma_has_levels(h.us);
    assert(matched(g, h, k));
    lemma_indexed(g.us, k);
    lemma_indexed(h.us, k);
    let i = place(g, k);
    let j = place(h, k);
    if a[i] != 0 {
        let m = choose|m: int|
            0 <= m < g.us.len() && #[trigger] depends(g.us, i, m) && a[i] == a[m] + 1;
        let ds = dep_keys(g.us[i]);
        let p = choose|p: int| 0 <= p < ds.len() && index_of(g.us, #[trigger] ds[p]) == Some(m);
        let r = ds[p];
        assert(holds(g, dep_keys(g.us[place(g, k)])[p]));
        assert(keys.contains(r));
        assert(matched(g, h, r));
        lemma_indexed(h.us, r);
        assert(place(g, r) == m);
        lemma_level_at_most(g, h, keys, r);
        let w = place(h, r);
        lemma_index_of(h.us, r);
        assert(index_of(h.us, dep_keys(h.us[j])[p]) == Some(w));
        assert(names_unit(h.us, dep_keys(h.us[j]), w));
        assert(depends(h.us, j, w));
    }
}

/// The units with these keys take the directory of the vendored dependencies only if it
/// is the same.
pub open spec fn vendor_unaffected(
    g: Planned,
    keys: Set<Seq<char>>,
    cx: PlanContext,
    dx: PlanContext,
) -> bool {
    forall|k: Seq<char>| #[trigger]
        keys.contains(k) && takes_vendor(g.us[place(g, k)]) ==> cx.tools.vendor_store@
            == dx.tools.vendor_store@
}

proof fn lemma_below_ok(g: Planned, cx: PlanContext, n: int)
    requires
        derivations_of(g.us, cx, g.stores, g.parents) is Ok,
        0 <= n <= groups_of(levels_of(g.us)).len(),
    ensures
        below(g, cx, n) is Ok,
        derivations_of(g.us, cx, g.stores, g.parents)->Ok_0.take(n) == below(g, cx, n)->Ok_0.0,
        derivations_of(g.us, cx, g.stores, g.parents)->Ok_0.len() == groups_of(
            levels_of(g.us),
        ).len(),
{
    law_lower_levels_first(
        g.us,
        unit_index(g.us),
        cx,
        g.stores,
        g.parents,
        groups_of(levels_of(g.us)),
        n,
    );
}

proof fn lemma_same(
    g: Planned,
    h: Planned,
    cx: PlanContext,
    dx: PlanContext,
    keys: Set<Seq<char>>,
    k: Seq<char>,
)
    requires
        plannable(g),
        plannable(h),
        same_but_vendor(cx, dx),
        unaffected(g, h, keys),
        vendor_unaffected(g, keys, cx, dx),
        derivations_of(g.us, cx, g.stores, g.parents) is Ok,
        derivations_of(h.us, dx, h.stores, h.parents) is Ok,
        keys.contains(k),
    ensures
        same_plan(plan_at(g, cx, place(g, k)), plan_at(h, dx, place(h, k))),
    decreases levels_of(g.us)[place(g, k)],
{
    let lv = levels_of(g.us);
    lemma_has_levels(g.us);
    lemma_has_levels(h.us);
    lemma_deps_unaffected(g, h, keys);
    lemma_level_at_most(g, h, keys, k);
    lemma_level_at_most(h, g, keys, k);
    assert(matched(g, h, k));
    lemma_indexed(g.us, k);
    lemma_indexed(h.us, k);
    let i = place(g, k);
    let j = place(h, k);
    let n = lv[i];
    assert(levels_of(h.us)[j] == n);
    lemma_highest(lv);
    lemma_highest(levels_of(h.us));
    lemma_below_ok(g, cx, n);
    lemma_below_ok(h, dx, n);
    lemma_below(g, cx, n);
    lemma_below(h, dx, n);
    let a = Known { us: g.us, idx: unit_index(g.us), drvs: below(g, cx, n)->Ok_0.1 };
    let b = Known { us: h.us, idx: unit_index(h.us), drvs: below(h, dx, n)->Ok_0.1 };
    assert forall|p: int| 0 <= p < reads(g, k).len() implies alike_at(
        a,
        b,
        #[trigger] reads(g, k)[p],
    ) by {
        let r = reads(g, k)[p];
        if holds(g, r) || holds(h, r) {
            assert(keys.contains(r));
            assert(matched(g, h, r));
            lemma_indexed(g.us, r);
            lemma_indexed(h.us, r);
            lemma_level_at_most(g, h, keys, r);
            lemma_level_at_most(h, g, keys, r);
            if lv[place(g, r)] < n {
                lemma_same(g, h, cx, dx, keys, r);
                assert(plan_at(g, cx, place(g, r)) is Ok);
                assert(plan_at(h, dx, place(h, r)) is Ok);
            }
        }
    }
    assert(reads_alike(a, b, g.us[i]));
    lemma_plan_alike(a, b, cx, dx, g.stores[i], g.parents[i], i, j);
}

/// A level of a plan is planned with the derivations of the levels below it.
proof fn lemma_level_in_plan(g: Planned, cx: PlanContext, l: int)
    requires
        derivations_of(g.us, cx, g.stores, g.parents) is Ok,
        0 <= l < groups_of(levels_of(g.us)).len(),
    ensures
        level_plan(
            g.us,
            unit_index(g.us),
            below(g, cx, l)->Ok_0.1,
            cx,
            g.stores,
            g.parents,
            groups_of(levels_of(g.us))[l],
        ) == Ok::<Seq<LevelView>, Seq<char>>(
            derivations_of(g.us, cx, g.stores, g.parents)->Ok_0[l],
        ),
{
    let groups = groups_of(levels_of(g.us));
    let all = derivations_of(g.us, cx, g.stores, g.parents)->Ok_0;
    lemma_below_ok(g, cx, l);
    lemma_below_ok(g, cx, l + 1);
    assert(groups.take(l + 1).drop_last() =~= groups.take(l));
    assert(groups.take(l + 1).last() == groups[l]);
    assert(all.take(l + 1).last() == all[l]);
}

/// A unit in a plan is planned with the derivations of the levels below it.
proof fn lemma_in_plan(g: Planned, cx: PlanContext, l: int, x: int)
    requires
        plannable(g),
        derivations_of(g.us, cx, g.stores, g.parents) is Ok,
        0 <= l < derivations_of(g.us, cx, g.stores, g.parents)->Ok_0.len(),
        0 <= x < derivations_of(g.us, cx, g.stores, g.parents)->Ok_0[l].len(),
    ensures
        ({
            let u = derivations_of(g.us, cx, g.stores, g.parents)->Ok_0[l][x];
            &&& holds(g, u.unit_key)
            &&& plan_at(g, cx, place(g, u.unit_key)) == Ok::<LevelView, Seq<char>>(u)
        }),
{
    let us = g.us;
    let idx = unit_index(us);
    let lv = levels_of(us);
    let at = groups_of(lv)[l];
    let u = derivations_of(us, cx, g.stores, g.parents)->Ok_0[l][x];
    lemma_below_ok(g, cx, 0);
    lemma_has_levels(us);
    assert(at == at_level(lv, l, lv.len()));
    lemma_of_level(lv, l, lv.len());
    lemma_level_in_plan(g, cx, l);
    let drvs = below(g, cx, l)->Ok_0.1;
    lemma_level_plan_at(us, idx, drvs, cx, g.stores, g.parents, at);
    let i = at[x];
    assert(unit_plan(us, idx, drvs, cx, g.stores[i], g.parents[i], i) == Ok::<
        LevelView,
        Seq<char>,
    >(u));
    lemma_plan_key(us, idx, drvs, cx, g.stores[i], g.parents[i], i);
    lemma_index(us, i);
}

/// A derivation changes only with what its unit reads. Take two graphs, such as those
/// before and after a crate was edited or a dependency was updated. The units that are
/// the same in both, with the same sources, and that read only such units, have the
/// same derivations at the same paths, whatever became of the others. A new directory
/// of vendored dependencies spares every unit that is neither linked nor run.
pub proof fn law_unaffected_units_stay(
    g: Planned,
    h: Planned,
    cx: PlanContext,
    dx: PlanContext,
    keys: Set<Seq<char>>,
    l: int,
    x: int,
    m: int,
    y: int,
)
    requires
        plannable(g),
        plannable(h),
        same_but_vendor(cx, dx),
        unaffected(g, h, keys),
        vendor_unaffected(g, keys, cx, dx),
        derivations_of(g.us, cx, g.stores, g.parents) is Ok,
        derivations_of(h.us, dx, h.stores, h.parents) is Ok,
        0 <= l < derivations_of(g.us, cx, g.stores, g.parents)->Ok_0.len(),
        0 <= x < derivations_of(g.us, cx, g.stores, g.parents)->Ok_0[l].len(),
        0 <= m < derivations_of(h.us, dx, h.stores, h.parents)->Ok_0.len(),
        0 <= y < derivations_of(h.us, dx, h.stores, h.parents)->Ok_0[m].len(),
        derivations_of(g.us, cx, g.stores, g.parents)->Ok_0[l][x].unit_key == derivations_of(
            h.us,
            dx,
            h.stores,
            h.parents,
        )->Ok_0[m][y].unit_key,
        keys.contains(derivations_of(g.us, cx, g.stores, g.parents)->Ok_0[l][x].unit_key),
    ensures
        ({
            let a = derivations_of(g.us, cx, g.stores, g.parents)->Ok_0[l][x];
            let b = derivations_of(h.us, dx, h.stores, h.parents)->Ok_0[m][y];
            &&& a.drv_path == b.drv_path
            &&& a.aterm == b.aterm
            &&& a.refs == b.refs
        }),
{
    lemma_in_plan(g, cx, l, x);
    lemma_in_plan(h, dx, m, y);
    lemma_same(
        g,
        h,
        cx,
        dx,
        keys,
        derivations_of(g.us, cx, g.stores, g.parents)->Ok_0[l][x].unit_key,
    );
}

/// The script of a unit as it is planned.
pub open spec fn planned_script(
    a: Known,
    cx: PlanContext,
    store: Seq<char>,
    parent: bool,
    i: int,
) -> Result<Seq<char>, Seq<char>> {
    unit_script(
        a.us[i],
        a.us,
        a.idx,
        a.drvs,
        cx.tools,
        cc_dir(cx, a.us[i]),
        cx.profile,
        cx.target,
        store,
        parent,
        setup_scripts(rule_views(cx.rules@), a.us[i]),
    )
}

/// A change that a unit reads is seen in its derivation. Two plans of a unit whose
/// derivations are written the same have the same script, with every source path and
/// flag in it, and the same derivations as inputs.
pub proof fn law_changes_are_seen(
    a: Known,
    b: Known,
    cx: PlanContext,
    dx: PlanContext,
    store1: Seq<char>,
    parent1: bool,
    i: int,
    store2: Seq<char>,
    parent2: bool,
    j: int,
)
    requires
        unit_plan(a.us, a.idx, a.drvs, cx, store1, parent1, i) is Ok,
        unit_plan(b.us, b.idx, b.drvs, dx, store2, parent2, j) is Ok,
        unit_plan(a.us, a.idx, a.drvs, cx, store1, parent1, i)->Ok_0.aterm == unit_plan(
            b.us,
            b.idx,
            b.drvs,
            dx,
            store2,
            parent2,
            j,
        )->Ok_0.aterm,
    ensures
        planned_script(a, cx, store1, parent1, i) == planned_script(b, dx, store2, parent2, j),
        sort_seq(input_drvs(a.drvs, input_keys(a.us[i], a.us, a.idx))) == sort_seq(
            input_drvs(b.drvs, input_keys(b.us[j], b.us, b.idx)),
        ),
{
    let x = unit_plan(a.us, a.idx, a.drvs, cx, store1, parent1, i)->Ok_0.json;
    let y = unit_plan(b.us, b.idx, b.drvs, dx, store2, parent2, j)->Ok_0.json;
    let s = planned_script(a, cx, store1, parent1, i)->Ok_0;
    let t = planned_script(b, dx, store2, parent2, j)->Ok_0;
    let u = a.us[i];
    let w = b.us[j];
    assert(x == unit_derivation(u, a.us, a.idx, a.drvs, cx.tools, cc_closure(cx, u), s));
    assert(y == unit_derivation(w, b.us, b.idx, b.drvs, dx.tools, cc_closure(dx, w), t));
    assert(aterm_derivation(x) is Ok && aterm_derivation(y) is Ok);
    law_text_tells_all(
        u.drv_name,
        cx.tools.system@,
        cx.tools.bash_path@,
        s,
        input_drvs(a.drvs, input_keys(u, a.us, a.idx)),
        unit_sources(u, cx.tools, cc_closure(cx, u), s),
        w.drv_name,
        dx.tools.system@,
        dx.tools.bash_path@,
        t,
        input_drvs(b.drvs, input_keys(w, b.us, b.idx)),
        unit_sources(w, dx.tools, cc_closure(dx, w), t),
    );
}

} // verus!
