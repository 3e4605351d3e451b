//! A plan from end to end: from a graph of units to the derivations of all of them.
use crate::aterm::{
    args_part, aterm_derivation, bracket_list, builder_part, comma_list, derivation_parts,
    env_items, env_part, input_drv_items, input_drvs_part, input_srcs_part, output_items,
    outputs_part, system_part, text_items, Piece,
};
use crate::derivation::{
    derivation_json, env_json, input_drv_json, input_drvs_json, is_linted, outputs_json,
    unit_derivation, unit_script, BuildTools,
};
use crate::graph::{
    acyclic, at_level, compute_topo_levels, grouped, is_levels, law_levels_unique, unit_index,
};
use crate::json::{lemma_lookup_at, lookup, member_names, text_array, JsonView};
use crate::registration::{
    all_positions, build_roots, collect_root_drvs, filenames_ok, in_range, levels_plan,
    plan_derivations, plan_views, positions, record_drv_paths, root_views, with_plan_paths,
    LevelUnit, LevelView, PlanContext, RootDrv,
};
use crate::resolution::{narrow_to_requested_roots, narrowed, units_result, ResolutionScope};
use crate::text::{lemma_sort_seq, sort_seq, views};
use crate::toolchain::{
    law_refresh_same_source, refresh_cached_units, refreshed, set_original_manifest_dirs,
    with_original_dir,
};
use crate::units::{opt_view, unit_views, NixUnit, ProfileConfig, TargetConfig, UnitKind, UnitView};
use vstd::prelude::*;

verus! {

// ---------------------------------------------------------------------------
// The units of a plan
// ---------------------------------------------------------------------------

/// The units of a graph on the current source: those of a cached one are moved from
/// the source that it was made for.
pub open spec fn on_source(us: Seq<UnitView>, cached: Option<Seq<char>>, src: Seq<char>) -> Seq<
    UnitView,
> {
    match cached {
        Some(old_src) => Seq::new(us.len(), |i: int| refreshed(us[i], old_src, src)),
        None => us,
    }
}

/// The units with the directories of their crates in the project, if it is known.
pub open spec fn in_project(us: Seq<UnitView>, src: Seq<char>, project: Option<Seq<char>>) -> Seq<
    UnitView,
> {
    match project {
        Some(p) => Seq::new(us.len(), |i: int| with_original_dir(us[i], src, p)),
        None => us,
    }
}

/// The characters of an optional text.
pub open spec fn opt_text(o: Option<&str>) -> Option<Seq<char>> {
    match o {
        Some(s) => Some(s@),
        None => None,
    }
}

/// What was kept of a graph, with the directories of the project.
pub open spec fn prepared(
    kept: Result<Seq<UnitView>, Seq<char>>,
    src: Seq<char>,
    project: Option<Seq<char>>,
) -> Result<Seq<UnitView>, Seq<char>> {
    match kept {
        Ok(us) => Ok(in_project(us, src, project)),
        Err(e) => Err(e),
    }
}

/// Prepares the units of a graph for planning. Those of a cached graph are moved onto
/// the current source. Where a scope is declared the graph is narrowed to the roots
/// that were asked for, whether it was cached or not.
pub fn prepare_units(
    units: Vec<NixUnit>,
    cached_from: Option<&str>,
    src: &str,
    resolution: Option<&ResolutionScope>,
    packages: &Vec<String>,
    exclude: &Vec<String>,
    project: Option<&str>,
) -> (r: Result<Vec<NixUnit>, String>)
    ensures
        match resolution {
            None => units_result(r) == prepared(
                Ok(on_source(unit_views(units@), opt_text(cached_from), src@)),
                src@,
                opt_text(project),
            ),
            Some(scope) => exists|kept: Result<Seq<UnitView>, Seq<char>>| #[trigger]
                narrowed(
                    on_source(unit_views(units@), opt_text(cached_from), src@),
                    views(packages@),
                    views(exclude@),
                    scope.key@,
                    kept,
                ) && units_result(r) == prepared(kept, src@, opt_text(project)),
        },
{
    let ghost us = unit_views(units@);
    let ghost moved = on_source(us, opt_text(cached_from), src@);
    let mut units = units;
    if let Some(old_src) = cached_from {
        refresh_cached_units(&mut units, old_src, src);
    }
    assert(unit_views(units@) =~= moved);
    let narrowed_units = match resolution {
        Some(scope) => narrow_to_requested_roots(units, packages, exclude, scope),
        None => Ok(units),
    };
    let ghost kept = units_result(narrowed_units);
    let mut units = match narrowed_units {
        Ok(v) => v,
        Err(e) => return Err(e),
    };
    let ghost before = unit_views(units@);
    if let Some(p) = project {
        set_original_manifest_dirs(&mut units, src, p);
    }
    assert(unit_views(units@) =~= in_project(before, src@, opt_text(project)));
    Ok(units)
}

/// A cache hit plans what a miss would: a graph that was cached for the current source,
/// with no derivations in it, is the graph itself.
pub proof fn law_cache_hit_is_miss(us: Seq<UnitView>, src: Seq<char>)
    requires
        forall|i: int| 0 <= i < us.len() ==> (#[trigger] us[i]).drv_path is None,
    ensures
        on_source(us, Some(src), src) == on_source(us, None, src),
{
    assert forall|i: int| 0 <= i < us.len() implies refreshed(#[trigger] us[i], src, src)
        == us[i] by {
        law_refresh_same_source(us[i], src);
    }
    assert(on_source(us, Some(src), src) =~= us);
}

// ---------------------------------------------------------------------------
// Levels
// ---------------------------------------------------------------------------

/// The highest of some levels; zero if there are none.
pub open spec fn highest(lv: Seq<int>) -> int
    decreases lv.len(),
{
    if lv.len() == 0 {
        0
    } else if lv.last() > highest(lv.drop_last()) {
        lv.last()
    } else {
        highest(lv.drop_last())
    }
}

/// The units by level, from the lowest level to the highest.
pub open spec fn groups_of(lv: Seq<int>) -> Seq<Seq<int>> {
    Seq::new((highest(lv) + 1) as nat, |l: int| at_level(lv, l, lv.len()))
}

/// The levels of units that do not depend on themselves.
pub open spec fn levels_of(us: Seq<UnitView>) -> Seq<int> {
    choose|lv: Seq<int>| is_levels(us, lv)
}

pub proof fn lemma_highest(lv: Seq<int>)
    ensures
        highest(lv) >= 0,
        forall|i: int| 0 <= i < lv.len() ==> (#[trigger] lv[i]) <= highest(lv),
        highest(lv) == 0 || exists|i: int| 0 <= i < lv.len() && #[trigger] lv[i] == highest(lv),
    decreases lv.len(),
{
    if lv.len() > 0 {
        let t = lv.drop_last();
        lemma_highest(t);
        assert forall|i: int| 0 <= i < lv.len() implies (#[trigger] lv[i]) <= highest(lv) by {
            if i < t.len() {
                assert(t[i] == lv[i]);
            }
        }
        if lv.last() > highest(t) {
            assert(lv[lv.len() - 1] == highest(lv));
        } else if highest(t) != 0 {
            let i = choose|i: int| 0 <= i < t.len() && #[trigger] t[i] == highest(t);
            assert(lv[i] == highest(lv));
        }
    }
}

proof fn lemma_at_level(lv: Seq<int>, l: int, n: nat)
    requires
        n <= lv.len(),
    ensures
        forall|k: int|
            0 <= k < at_level(lv, l, n).len() ==> 0 <= (#[trigger] at_level(lv, l, n)[k]) < n,
    decreases n,
{
    if n > 0 {
        lemma_at_level(lv, l, (n - 1) as nat);
        let before = at_level(lv, l, (n - 1) as nat);
        assert forall|k: int| 0 <= k < at_level(lv, l, n).len() implies 0 <= (
        #[trigger] at_level(lv, l, n)[k]) < n by {
            if k < before.len() {
                assert(at_level(lv, l, n)[k] == before[k]);
            }
        }
    }
}

proof fn lemma_groups(us: Seq<UnitView>, lv: Seq<int>, r: Seq<Vec<usize>>)
    requires
        is_levels(us, lv),
        grouped(lv, r),
    ensures
        all_positions(r) == groups_of(levels_of(us)),
        forall|l: int| 0 <= l < r.len() ==> in_range((#[trigger] r[l])@, us.len()),
{
    law_levels_unique(us, lv, levels_of(us));
    lemma_highest(lv);
    assert(r.len() == highest(lv) + 1) by {
        if r.len() > 1 {
            let i = choose|i: int| 0 <= i < lv.len() && #[trigger] lv[i] == r.len() - 1;
            assert(lv[i] <= highest(lv));
        }
        if highest(lv) > 0 {
            let i = choose|i: int| 0 <= i < lv.len() && #[trigger] lv[i] == highest(lv);
            assert(lv[i] < r.len());
        }
    }
    assert forall|l: int| 0 <= l < r.len() implies positions(#[trigger] r[l]@) == at_level(
        lv,
        l,
        lv.len(),
    ) by {
        assert(r[l]@.map_values(|x: usize| x as int) =~= positions(r[l]@));
    }
    assert(all_positions(r) =~= groups_of(lv));
    assert forall|l: int| 0 <= l < r.len() implies in_range((#[trigger] r[l])@, us.len()) by {
        lemma_at_level(lv, l, lv.len());
        assert forall|k: int| 0 <= k < r[l]@.len() implies (#[trigger] r[l]@[k]) < us.len() by {
            assert(positions(r[l]@)[k] == at_level(lv, l, lv.len())[k]);
        }
    }
}

// ---------------------------------------------------------------------------
// The whole plan
// ---------------------------------------------------------------------------

/// The plans of all units, lowest level first, or why there are none.
pub open spec fn derivations_of(
    us: Seq<UnitView>,
    cx: PlanContext,
    src_stores: Seq<Seq<char>>,
    parents: Seq<bool>,
) -> Result<Seq<Seq<LevelView>>, Seq<char>> {
    match levels_plan(us, unit_index(us), cx, src_stores, parents, groups_of(levels_of(us))) {
        Ok(p) => Ok(p.0),
        Err(e) => Err(e),
    }
}

/// The units once they are planned.
pub open spec fn units_after(us: Seq<UnitView>, plan: Result<Seq<Seq<LevelView>>, Seq<char>>) -> Seq<
    UnitView,
> {
    match plan {
        Ok(levels) => with_plan_paths(us, levels),
        Err(_) => us,
    }
}

/// Plans a graph: the derivations of all units, each level with those of the levels
/// below it, and what is built in the end. The units learn the paths of their
/// derivations.
pub fn plan_units(
    units: &mut Vec<NixUnit>,
    cx: &PlanContext,
    src_stores: &Vec<String>,
    parents: &Vec<bool>,
) -> (r: Result<(Vec<Vec<LevelUnit>>, Vec<RootDrv>), String>)
    requires
        acyclic(unit_views(old(units)@)),
        filenames_ok(unit_views(old(units)@)),
        src_stores@.len() == old(units)@.len(),
        parents@.len() == old(units)@.len(),
    ensures
        ({
            let us = unit_views(old(units)@);
            let plan = derivations_of(us, *cx, views(src_stores@), parents@);
            let after = units_after(us, plan);
            &&& unit_views(final(units)@) == after
            &&& match (r, plan) {
                (Ok((levels, roots)), Ok(p)) => plan_views(levels@) == p && build_roots(after) == Ok::<
                    Seq<(Seq<char>, Seq<char>, UnitKind)>,
                    Seq<char>,
                >(root_views(roots@)),
                (Err(e), Ok(_)) => build_roots(after) == Err::<
                    Seq<(Seq<char>, Seq<char>, UnitKind)>,
                    Seq<char>,
                >(e@),
                (Err(e), Err(m)) => e@ == m,
                _ => false,
            }
        }),
{
    let ghost us = unit_views(units@);
    let levels = compute_topo_levels(units);
    proof {
        let lv = choose|lv: Seq<int>| #[trigger] is_levels(us, lv) && grouped(lv, levels@);
        lemma_groups(us, lv, levels@);
        assert(us.len() == units@.len());
    }
    let plan = match plan_derivations(units, &levels, cx, src_stores, parents) {
        Ok(p) => p,
        Err(e) => return Err(e),
    };
    record_drv_paths(units, &plan);
    match collect_root_drvs(units) {
        Ok(roots) => Ok((plan, roots)),
        Err(e) => Err(e),
    }
}

// ---------------------------------------------------------------------------
// Writing
// ---------------------------------------------------------------------------

proof fn lemma_all_written(items: Seq<Piece>)
    requires
        forall|i: int| 0 <= i < items.len() ==> (#[trigger] items[i]) is Ok,
    ensures
        comma_list(items) is Ok,
        bracket_list(items) is Ok,
    decreases items.len(),
{
    if items.len() > 0 {
        assert forall|i: int| 0 <= i < items.drop_last().len() implies (
        #[trigger] items.drop_last()[i]) is Ok by {
            assert(items.drop_last()[i] == items[i]);
        }
        lemma_all_written(items.drop_last());
        assert(items[items.len() - 1] is Ok);
    }
}

proof fn lemma_texts_written(v: Seq<Seq<char>>, message: Seq<char>)
    ensures
        bracket_list(text_items(text_array(v)->Array_0, message)) is Ok,
{
    lemma_all_written(text_items(text_array(v)->Array_0, message));
}

/// A sorted list holds what the list holds.
pub proof fn lemma_sorted_from(names: Seq<Seq<char>>, k: int)
    requires
        0 <= k < sort_seq(names).len(),
    ensures
        names.contains(sort_seq(names)[k]),
{
    broadcast use vstd::seq_lib::group_to_multiset_ensures;

    lemma_sort_seq(names);
    let x = sort_seq(names)[k];
    assert(sort_seq(names).contains(x));
    assert(sort_seq(names).to_multiset().count(x) > 0);
    assert(names.to_multiset().count(x) > 0);
}

proof fn lemma_input_drvs_written(paths: Seq<Seq<char>>)
    ensures
        bracket_list(input_drv_items(input_drvs_json(paths)->Object_0)) is Ok,
{
    let m = input_drvs_json(paths)->Object_0;
    let names = member_names(m);
    let keys = sort_seq(names);
    assert forall|k: int| 0 <= k < input_drv_items(m).len() implies (
    #[trigger] input_drv_items(m)[k]) is Ok by {
        lemma_sorted_from(names, k);
        let path = keys[k];
        lemma_found(m, path);
        let info = input_drv_json();
        let inner = info->Object_0;
        reveal_strlit("dynamicOutputs");
        reveal_strlit("outputs");
        assert(inner[0].0.len() != inner[1].0.len());
        lemma_lookup_at(inner, 1);
        lemma_texts_written(
            seq!["out"@],
            "non-string in inputDrv outputs for '"@ + path + "'"@,
        );
    }
    lemma_all_written(input_drv_items(m));
}

/// What is found under a name among input derivations.
pub proof fn lemma_found(m: Seq<(Seq<char>, JsonView)>, name: Seq<char>)
    requires
        member_names(m).contains(name),
        forall|i: int| 0 <= i < m.len() ==> (#[trigger] m[i]).1 == input_drv_json(),
    ensures
        lookup(m, name) == Some(input_drv_json()),
    decreases m.len(),
{
    let i = choose|i: int| 0 <= i < member_names(m).len() && member_names(m)[i] == name;
    assert(m[i].0 == name);
    assert(m[0].1 == input_drv_json());
    if m[0].0 != name {
        let rest = m.drop_first();
        assert(rest[i - 1] == m[i]);
        assert(member_names(rest)[i - 1] == name);
        assert forall|j: int| 0 <= j < rest.len() implies (#[trigger] rest[j]).1
            == input_drv_json() by {
            assert(rest[j] == m[j + 1]);
        }
        lemma_found(rest, name);
    }
}

proof fn lemma_env_written()
    ensures
        bracket_list(env_items(env_json()->Object_0)) is Ok,
{
    let m = env_json()->Object_0;
    reveal_strlit("out");
    reveal_strlit("preferLocalBuild");
    reveal_strlit("allowSubstitutes");
    assert(m[0].0[0] == 'o');
    assert(m[1].0[0] == 'p');
    assert(m[2].0[0] == 'a');
    lemma_lookup_at(m, 0);
    lemma_lookup_at(m, 1);
    lemma_lookup_at(m, 2);
    let names = member_names(m);
    assert forall|k: int| 0 <= k < env_items(m).len() implies (
    #[trigger] env_items(m)[k]) is Ok by {
        lemma_sorted_from(names, k);
        let i = choose|i: int| 0 <= i < names.len() && names[i] == sort_seq(names)[k];
        assert(names[i] == m[i].0);
    }
    lemma_all_written(env_items(m));
}

proof fn lemma_outputs_written()
    ensures
        bracket_list(output_items(outputs_json()->Object_0)) is Ok,
{
    let m = outputs_json()->Object_0;
    let names = member_names(m);
    lemma_lookup_at(m, 0);
    let inner = m[0].1->Object_0;
    lemma_lookup_at(inner, 0);
    assert forall|k: int| 0 <= k < output_items(m).len() implies (
    #[trigger] output_items(m)[k]) is Ok by {
        lemma_sorted_from(names, k);
        let i = choose|i: int| 0 <= i < names.len() && names[i] == sort_seq(names)[k];
        assert(names[i] == m[i].0);
    }
    lemma_all_written(output_items(m));
}

/// The parts of a built derivation are found under their names.
pub proof fn lemma_built_parts(
    name: Seq<char>,
    system: Seq<char>,
    builder: Seq<char>,
    script: Seq<char>,
    drvs: Seq<Seq<char>>,
    srcs: Seq<Seq<char>>,
)
    ensures
        ({
            let m = derivation_json(name, system, builder, script, drvs, srcs)->Object_0;
            &&& lookup(m, "system"@) == Some(JsonView::Text(system))
            &&& lookup(m, "builder"@) == Some(JsonView::Text(builder))
            &&& lookup(m, "args"@) == Some(text_array(seq!["-c"@, script]))
            &&& lookup(m, "env"@) == Some(env_json())
            &&& lookup(m, "inputDrvs"@) == Some(input_drvs_json(drvs))
            &&& lookup(m, "inputSrcs"@) == Some(text_array(srcs))
            &&& lookup(m, "outputs"@) == Some(outputs_json())
        }),
{
    let m = derivation_json(name, system, builder, script, drvs, srcs)->Object_0;
    reveal_strlit("name");
    reveal_strlit("system");
    reveal_strlit("builder");
    reveal_strlit("args");
    reveal_strlit("env");
    reveal_strlit("inputDrvs");
    reveal_strlit("inputSrcs");
    reveal_strlit("outputs");
    assert(m[0].0[0] == 'n');
    assert(m[1].0[0] == 's');
    assert(m[2].0[0] == 'b');
    assert(m[3].0[0] == 'a');
    assert(m[4].0[0] == 'e');
    assert(m[5].0[0] == 'i' && m[5].0[5] == 'D');
    assert(m[6].0[0] == 'i' && m[6].0[5] == 'S');
    assert(m[7].0[0] == 'o');
    lemma_lookup_at(m, 1);
    lemma_lookup_at(m, 2);
    lemma_lookup_at(m, 3);
    lemma_lookup_at(m, 4);
    lemma_lookup_at(m, 5);
    lemma_lookup_at(m, 6);
    lemma_lookup_at(m, 7);
}

/// Every derivation that is built can be written: a plan never fails for want of a
/// part of a derivation.
pub proof fn law_built_is_written(
    name: Seq<char>,
    system: Seq<char>,
    builder: Seq<char>,
    script: Seq<char>,
    drvs: Seq<Seq<char>>,
    srcs: Seq<Seq<char>>,
)
    ensures
        aterm_derivation(derivation_json(name, system, builder, script, drvs, srcs)) is Ok,
{
    let j = derivation_json(name, system, builder, script, drvs, srcs);
    assert(outputs_part(j) is Ok && input_drvs_part(j) is Ok && input_srcs_part(j) is Ok
        && system_part(j) is Ok && builder_part(j) is Ok && args_part(j) is Ok && env_part(
        j,
    ) is Ok) by {
        lemma_built_parts(name, system, builder, script, drvs, srcs);
        lemma_outputs_written();
        lemma_input_drvs_written(drvs);
        lemma_texts_written(srcs, "non-string in inputSrcs"@);
        lemma_texts_written(seq!["-c"@, script], "non-string in args array"@);
        lemma_env_written();
    }
    lemma_all_written(derivation_parts(j));
}

// ---------------------------------------------------------------------------
// Linting
// ---------------------------------------------------------------------------

/// Two sets of tools differ at most in the lint driver.
pub open spec fn same_but_lints(a: BuildTools, b: BuildTools) -> bool {
    a == (BuildTools {
        clippy_path: a.clippy_path,
        clippy_closure: a.clippy_closure,
        clippy_lint_args: a.clippy_lint_args,
        ..b
    })
}

/// Linting spares dependencies, and of the project's own units those that are documented
/// or that run a build script: a unit that does not run a lint driver has the same script
/// and the same derivation with a driver among the tools as without one.
pub proof fn law_linting_spares_dependencies(
    u: UnitView,
    us: Seq<UnitView>,
    idx: Map<Seq<char>, usize>,
    drvs: Map<Seq<char>, Seq<char>>,
    a: BuildTools,
    b: BuildTools,
    cc_bin_dir: Seq<char>,
    cc_closure: Seq<Seq<char>>,
    profile: ProfileConfig,
    target: TargetConfig,
    src_store: Seq<char>,
    has_parent: bool,
    setup: Seq<Seq<char>>,
    script: Seq<char>,
)
    requires
        same_but_lints(a, b),
        !is_linted(u, opt_view(a.clippy_path)),
        !is_linted(u, opt_view(b.clippy_path)),
    ensures
        unit_script(u, us, idx, drvs, a, cc_bin_dir, profile, target, src_store, has_parent, setup)
            == unit_script(
            u,
            us,
            idx,
            drvs,
            b,
            cc_bin_dir,
            profile,
            target,
            src_store,
            has_parent,
            setup,
        ),
        unit_derivation(u, us, idx, drvs, a, cc_closure, script) == unit_derivation(
            u,
            us,
            idx,
            drvs,
            b,
            cc_closure,
            script,
        ),
{
    reveal(unit_script);
}

} // verus!
