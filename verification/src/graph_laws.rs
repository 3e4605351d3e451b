//! What a unit takes from cargo's graph, and which tool it runs.
use crate::cargo_unit::{identity_of, kind_of, underscored, CargoMode, CargoUnit, FeatureRef};
use crate::derivation::{is_linted, unit_script, BuildTools};
use crate::doc_laws::{law_rustdoc_is_set_up, DocInputs};
use crate::extract::{
    base_unit, enabled_dep, extern_edges, identity_order, key_at, links_edges, missing, root_target,
    run_key, script_key, swapped, unit_activations, unit_dep_extern, variant_deps,
};
use crate::graph::firsts;
use crate::placeholder::output_placeholder;
use crate::run_laws::{law_standard_variables, RunInputs};
use crate::script_laws::{law_compiler_is_set_up, CompileInputs};
use crate::slices::{sliced_unit, SliceView};
use crate::text::{
    has_substring, lemma_sort_seq, lemma_sorted_set, lemma_str_lt_order, sort_seq, sorted,
    sorted_set, starts, str_lt, strictly_sorted, views,
};
use crate::unify::{least_edges, least_key};
use crate::units::{
    opt_view, output_file, pair_views, ProfileConfig, TargetConfig, UnitKind, UnitView,
};
use crate::util::quoted;
use crate::wording::{in_turn, lemma_holds_behind, lemma_holds_itself, lemma_holds_within};
use vstd::prelude::*;

verus! {

// ---------------------------------------------------------------------------
// Units of cargo's graph
// ---------------------------------------------------------------------------

/// A unit keeps what cargo knows of it. Its features come in order, none is lost and
/// none is added; it is a test where cargo tests or checks tests.
pub proof fn law_unit_keeps_cargos(us: Seq<CargoUnit>, roots: Seq<usize>, i: int)
    ensures
        ({
            let u = us[i];
            let b = base_unit(us, roots, i);
            &&& b.kind == kind_of(u)
            &&& u.source_file is Some ==> b.source_file == u.source_file->0@
            &&& b.crate_name == underscored(u.target_name@)
            &&& b.crate_types == views(u.crate_types@)
            &&& b.edition == u.edition@
            &&& sorted(b.features)
            &&& b.features.to_multiset() == views(u.features@).to_multiset()
            &&& b.manifest_dir == u.manifest_dir@
            &&& b.is_local == u.is_local
            &&& b.for_host == u.for_host
            &&& b.links == opt_view(u.links)
            &&& u.mode == CargoMode::Test ==> b.compile_test
            &&& u.mode == CargoMode::Build || u.mode == CargoMode::Doc || u.mode
                == CargoMode::RunCustomBuild ==> !b.compile_test
            &&& u.mode == (CargoMode::Check { test: true }) ==> b.compile_test
            &&& u.mode == (CargoMode::Check { test: false }) ==> !b.compile_test
            &&& b.self_contained_build_script == u.self_contained_build_script
            &&& b.drv_path is None
        }),
{
    reveal(base_unit);
    lemma_sort_seq(views(us[i].features@));
}

proof fn lemma_root_target(us: Seq<CargoUnit>, roots: Seq<usize>, key: Seq<char>, n: nat)
    requires
        n <= roots.len(),
    ensures
        root_target(us, roots, key, n) is Some <==> exists|k: int|
            0 <= k < n && key_at(us, (#[trigger] roots[k]) as int) == key,
        root_target(us, roots, key, n) matches Some(t) ==> exists|k: int|
            0 <= k < n && key_at(us, (#[trigger] roots[k]) as int) == key && t
                == us[roots[k] as int].target_name@,
    decreases n,
{
    if n > 0 {
        lemma_root_target(us, roots, key, (n - 1) as nat);
        if key_at(us, roots[n - 1] as int) == key {
            assert(roots[n - 1] == roots[n - 1]);
        }
    }
}

/// The roots of a plan are the units that cargo was asked for, each under its target's
/// name.
pub proof fn law_roots_are_asked_for(us: Seq<CargoUnit>, roots: Seq<usize>, i: int)
    ensures
        base_unit(us, roots, i).is_root <==> exists|k: int|
            0 <= k < roots.len() && key_at(us, (#[trigger] roots[k]) as int) == key_at(us, i),
        base_unit(us, roots, i).is_root ==> exists|k: int|
            0 <= k < roots.len() && key_at(us, (#[trigger] roots[k]) as int) == key_at(us, i)
                && base_unit(us, roots, i).target_name == us[roots[k] as int].target_name@,
{
    reveal(base_unit);
    lemma_root_target(us, roots, key_at(us, i), roots.len());
}

proof fn lemma_variant_deps(us: Seq<CargoUnit>, i: int, k: int, n: nat)
    requires
        0 <= i < n <= us.len(),
        0 <= k < us[i].deps@.len(),
    ensures
        variant_deps(us, identity_of(us[i]), n).contains(
            (us[i].deps@[k].unit as int, us[i].deps@[k].extern_name@),
        ),
    decreases n,
{
    let id = identity_of(us[i]);
    let x = (us[i].deps@[k].unit as int, us[i].deps@[k].extern_name@);
    let before = variant_deps(us, id, (n - 1) as nat);
    let all = variant_deps(us, id, n);
    if i == n - 1 {
        assert(all[before.len() + k] == x);
    } else {
        lemma_variant_deps(us, i, k, (n - 1) as nat);
        let j = choose|j: int| 0 <= j < before.len() && before[j] == x;
        assert(all[j] == x);
    }
}

proof fn lemma_extern_edges(us: Seq<CargoUnit>, deps: Seq<(int, Seq<char>)>, j: int)
    requires
        0 <= j < deps.len(),
        us[deps[j].0].mode != CargoMode::RunCustomBuild,
        !us[deps[j].0].is_custom_build,
    ensures
        extern_edges(us, deps).contains((deps[j].1, key_at(us, deps[j].0))),
    decreases deps.len(),
{
    let x = (deps[j].1, key_at(us, deps[j].0));
    let before = extern_edges(us, deps.drop_last());
    let all = extern_edges(us, deps);
    if j == deps.len() - 1 {
        assert(all.last() == x);
    } else {
        lemma_extern_edges(us, deps.drop_last(), j);
        let m = choose|m: int| 0 <= m < before.len() && before[m] == x;
        assert(all[m] == x);
    }
}

proof fn lemma_least_key(edges: Seq<(Seq<char>, Seq<char>)>, name: Seq<char>, m: int)
    requires
        0 <= m < edges.len(),
        edges[m].0 == name,
    ensures
        least_key(edges, name) matches Some(k) && !str_lt(edges[m].1, k) && edges.contains(
            (name, k),
        ),
    decreases edges.len(),
{
    let t = edges.drop_last();
    let last = edges.last();
    assert(edges[edges.len() - 1] == last);
    if m < t.len() {
        assert(t[m] == edges[m]);
        lemma_least_key(t, name, m);
        let k = least_key(t, name)->0;
        let j = choose|j: int| 0 <= j < t.len() && t[j] == (name, k);
        assert(edges[j] == (name, k));
        if last.0 == name {
            lemma_str_lt_order(edges[m].1, last.1, k);
            lemma_str_lt_order(last.1, k, edges[m].1);
            lemma_str_lt_order(edges[m].1, last.1, last.1);
        }
    } else {
        lemma_str_lt_order(last.1, last.1, last.1);
        if firsts(t).contains(name) {
            let j = choose|j: int| 0 <= j < firsts(t).len() && firsts(t)[j] == name;
            lemma_least_key(t, name, j);
            let k = least_key(t, name)->0;
            let q = choose|q: int| 0 <= q < t.len() && t[q] == (name, k);
            assert(edges[q] == (name, k));
            lemma_str_lt_order(k, last.1, last.1);
        } else {
            lemma_least_key_none(t, name);
        }
    }
}

proof fn lemma_least_key_none(edges: Seq<(Seq<char>, Seq<char>)>, name: Seq<char>)
    requires
        !firsts(edges).contains(name),
    ensures
        least_key(edges, name) is None,
    decreases edges.len(),
{
    if edges.len() > 0 {
        let t = edges.drop_last();
        assert(firsts(edges)[edges.len() - 1] == edges.last().0);
        assert forall|x: Seq<char>| firsts(t).contains(x) implies firsts(edges).contains(x) by {
            let j = choose|j: int| 0 <= j < firsts(t).len() && firsts(t)[j] == x;
            assert(firsts(edges)[j] == x);
        }
        lemma_least_key_none(t, name);
    }
}

/// Of the edges with one name the least is kept: each name is kept once, in name order,
/// and leads where an edge with the name led, to no larger a key than any of them.
pub proof fn law_least_edges(edges: Seq<(Seq<char>, Seq<char>)>, m: int)
    ensures
        strictly_sorted(firsts(least_edges(edges))),
        0 <= m < edges.len() ==> firsts(least_edges(edges)).contains(edges[m].0),
        forall|i: int| #![trigger least_edges(edges)[i]]
            0 <= i < least_edges(edges).len() ==> edges.contains(least_edges(edges)[i]),
        0 <= m < edges.len() ==> forall|i: int| #![trigger least_edges(edges)[i]]
            0 <= i < least_edges(edges).len() && least_edges(edges)[i].0 == edges[m].0 ==> !str_lt(
                edges[m].1,
                least_edges(edges)[i].1,
            ),
{
    let names = sorted_set(firsts(edges));
    let r = least_edges(edges);
    lemma_sorted_set(firsts(edges));
    assert(firsts(r) =~= names);
    if 0 <= m < edges.len() {
        assert(firsts(edges)[m] == edges[m].0);
        assert(firsts(edges).contains(edges[m].0));
        assert(names.contains(edges[m].0));
    }
    assert forall|i: int| #![trigger r[i]] 0 <= i < r.len() implies edges.contains(r[i]) && (0 <= m
        < edges.len() && r[i].0 == edges[m].0 ==> !str_lt(edges[m].1, r[i].1)) by {
        assert(names.contains(names[i]));
        assert(firsts(edges).contains(names[i]));
        let j = choose|j: int| 0 <= j < firsts(edges).len() && firsts(edges)[j] == names[i];
        lemma_least_key(edges, names[i], j);
        if 0 <= m < edges.len() && r[i].0 == edges[m].0 {
            lemma_least_key(edges, names[i], m);
        }
    }
}

/// A crate that cargo links a unit against is one of its dependencies, under the name
/// that it is used by. Build scripts and their runs are none.
pub proof fn law_dependencies_are_kept(us: Seq<CargoUnit>, i: int, k: int)
    requires
        0 <= i < us.len(),
        0 <= k < us[i].deps@.len(),
        us[us[i].deps@[k].unit as int].mode != CargoMode::RunCustomBuild,
        !us[us[i].deps@[k].unit as int].is_custom_build,
    ensures
        firsts(unit_dep_extern(us, i)).contains(us[i].deps@[k].extern_name@),
        forall|m: int| #![trigger unit_dep_extern(us, i)[m]]
            0 <= m < unit_dep_extern(us, i).len() && unit_dep_extern(us, i)[m].0
                == us[i].deps@[k].extern_name@ ==> !str_lt(
                key_at(us, us[i].deps@[k].unit as int),
                unit_dep_extern(us, i)[m].1,
            ),
{
    let deps = variant_deps(us, identity_of(us[i]), us.len());
    let name = us[i].deps@[k].extern_name@;
    let key = key_at(us, us[i].deps@[k].unit as int);
    lemma_variant_deps(us, i, k, us.len());
    let j = choose|j: int|
        0 <= j < deps.len() && deps[j] == (us[i].deps@[k].unit as int, name);
    lemma_extern_edges(us, deps, j);
    let edges = extern_edges(us, deps);
    let m = choose|m: int| 0 <= m < edges.len() && edges[m] == (name, key);
    law_least_edges(edges, m);
    if kind_of(us[i]) != UnitKind::BuildScriptRun {
        let least = least_edges(edges);
        let more = missing(
            firsts(least),
            unit_activations(
                us,
                identity_order(us),
                us[i],
                sort_seq(views(us[i].features@)),
            ),
        );
        let both = least + more;
        let p = choose|p: int| 0 <= p < firsts(least).len() && firsts(least)[p] == name;
        assert(both[p] == least[p]);
        law_least_edges(both, p);
        assert(unit_dep_extern(us, i) == least_edges(both));
        assert forall|q: int| #![trigger unit_dep_extern(us, i)[q]]
            0 <= q < unit_dep_extern(us, i).len() && unit_dep_extern(us, i)[q].0
                == name implies !str_lt(key, unit_dep_extern(us, i)[q].1) by {
            let x = unit_dep_extern(us, i)[q];
            assert(!str_lt(least[p].1, x.1));
            assert(!str_lt(key, least[p].1));
            lemma_str_lt_order(key, x.1, least[p].1);
            lemma_str_lt_order(x.1, least[p].1, key);
            lemma_str_lt_order(least[p].1, key, x.1);
            lemma_str_lt_order(key, least[p].1, x.1);
        }
    } else {
        assert(unit_dep_extern(us, i) == least_edges(edges));
    }
}

proof fn lemma_run_key(us: Seq<CargoUnit>, deps: Seq<(int, Seq<char>)>, j: int)
    ensures
        0 <= j < deps.len() && us[deps[j].0].mode == CargoMode::RunCustomBuild ==> run_key(us, deps)
            is Some,
        run_key(us, deps) matches Some(key) ==> exists|m: int|
            0 <= m < deps.len() && us[(#[trigger] deps[m]).0].mode == CargoMode::RunCustomBuild
                && key == key_at(us, deps[m].0),
    decreases deps.len(),
{
    if deps.len() > 0 {
        let t = deps.drop_last();
        lemma_run_key(us, t, j);
        if run_key(us, t) is Some {
            let m = choose|m: int|
                0 <= m < t.len() && us[(#[trigger] t[m]).0].mode == CargoMode::RunCustomBuild
                    && run_key(us, t)->0 == key_at(us, t[m].0);
            assert(deps[m] == t[m]);
        }
        assert(deps[deps.len() - 1] == deps.last());
        if 0 <= j < t.len() {
            assert(t[j] == deps[j]);
        }
    }
}

proof fn lemma_script_key(us: Seq<CargoUnit>, deps: Seq<(int, Seq<char>)>, j: int)
    ensures
        0 <= j < deps.len() && us[deps[j].0].mode != CargoMode::RunCustomBuild
            && us[deps[j].0].is_custom_build ==> script_key(us, deps) is Some,
        script_key(us, deps) matches Some(key) ==> exists|m: int|
            0 <= m < deps.len() && us[(#[trigger] deps[m]).0].mode != CargoMode::RunCustomBuild
                && us[deps[m].0].is_custom_build && key == key_at(us, deps[m].0),
    decreases deps.len(),
{
    if deps.len() > 0 {
        let t = deps.drop_last();
        lemma_script_key(us, t, j);
        if script_key(us, t) is Some {
            let m = choose|m: int|
                0 <= m < t.len() && us[(#[trigger] t[m]).0].mode != CargoMode::RunCustomBuild
                    && us[t[m].0].is_custom_build && script_key(us, t)->0 == key_at(us, t[m].0);
            assert(deps[m] == t[m]);
        }
        assert(deps[deps.len() - 1] == deps.last());
        if 0 <= j < t.len() {
            assert(t[j] == deps[j]);
        }
    }
}

/// A unit that depends on the run of a build script reads that run's output, and the run
/// of a build script depends on its compilation: where cargo has such an edge there is
/// one, and there is one only where cargo has it.
pub proof fn law_build_scripts_are_linked(us: Seq<CargoUnit>, roots: Seq<usize>, i: int, k: int)
    requires
        0 <= i < us.len(),
    ensures
        ({
            let b = base_unit(us, roots, i);
            let deps = variant_deps(us, identity_of(us[i]), us.len());
            &&& 0 <= k < us[i].deps@.len() && us[us[i].deps@[k].unit as int].mode
                == CargoMode::RunCustomBuild && kind_of(us[i]) != UnitKind::BuildScriptRun
                ==> b.build_script_dep is Some
            &&& b.build_script_dep matches Some(key) ==> exists|m: int|
                0 <= m < deps.len() && us[(#[trigger] deps[m]).0].mode == CargoMode::RunCustomBuild
                    && key == key_at(us, deps[m].0)
            &&& 0 <= k < us[i].deps@.len() && us[us[i].deps@[k].unit as int].mode
                != CargoMode::RunCustomBuild && us[us[i].deps@[k].unit as int].is_custom_build
                ==> b.build_script_compile_key is Some
            &&& b.build_script_compile_key matches Some(key) ==> exists|m: int|
                0 <= m < deps.len() && us[(#[trigger] deps[m]).0].mode != CargoMode::RunCustomBuild
                    && us[deps[m].0].is_custom_build && key == key_at(us, deps[m].0)
        }),
{
    reveal(base_unit);
    let deps = variant_deps(us, identity_of(us[i]), us.len());
    if 0 <= k < us[i].deps@.len() {
        lemma_variant_deps(us, i, k, us.len());
        let x = (us[i].deps@[k].unit as int, us[i].deps@[k].extern_name@);
        let j = choose|j: int| 0 <= j < deps.len() && deps[j] == x;
        lemma_run_key(us, deps, j);
        lemma_script_key(us, deps, j);
    } else {
        lemma_run_key(us, deps, 0);
        lemma_script_key(us, deps, 0);
    }
}

proof fn lemma_links_edges(us: Seq<CargoUnit>, deps: Seq<(int, Seq<char>)>, j: int)
    requires
        0 <= j < deps.len(),
        us[deps[j].0].mode == CargoMode::RunCustomBuild,
        us[deps[j].0].links is Some,
    ensures
        links_edges(us, deps).contains((us[deps[j].0].links->0@, key_at(us, deps[j].0))),
    decreases deps.len(),
{
    let x = (us[deps[j].0].links->0@, key_at(us, deps[j].0));
    let before = links_edges(us, deps.drop_last());
    let all = links_edges(us, deps);
    if j == deps.len() - 1 {
        assert(all.last() == x);
    } else {
        lemma_links_edges(us, deps.drop_last(), j);
        let m = choose|m: int| 0 <= m < before.len() && before[m] == x;
        assert(all[m] == x);
    }
}

/// The run of a build script reads what the runs of linked packages put out: each
/// library that such a dependency links is listed.
pub proof fn law_linked_packages_are_read(
    us: Seq<CargoUnit>,
    roots: Seq<usize>,
    i: int,
    k: int,
)
    requires
        0 <= i < us.len(),
        kind_of(us[i]) == UnitKind::BuildScriptRun,
        0 <= k < us[i].deps@.len(),
        us[us[i].deps@[k].unit as int].mode == CargoMode::RunCustomBuild,
        us[us[i].deps@[k].unit as int].links is Some,
    ensures
        exists|m: int| #![trigger base_unit(us, roots, i).links_dep_keys[m]]
            0 <= m < base_unit(us, roots, i).links_dep_keys.len() && base_unit(
                us,
                roots,
                i,
            ).links_dep_keys[m].1 == us[us[i].deps@[k].unit as int].links->0@,
{
    reveal(base_unit);
    let deps = variant_deps(us, identity_of(us[i]), us.len());
    lemma_variant_deps(us, i, k, us.len());
    let x = (us[i].deps@[k].unit as int, us[i].deps@[k].extern_name@);
    let j = choose|j: int| 0 <= j < deps.len() && deps[j] == x;
    lemma_links_edges(us, deps, j);
    let edges = links_edges(us, deps);
    let name = us[us[i].deps@[k].unit as int].links->0@;
    let m = choose|m: int| 0 <= m < edges.len() && edges[m] == (name, key_at(us, deps[j].0));
    law_least_edges(edges, m);
    let least = least_edges(edges);
    let p = choose|p: int| 0 <= p < firsts(least).len() && firsts(least)[p] == name;
    assert(swapped(least)[p].1 == name);
    assert(base_unit(us, roots, i).links_dep_keys[p].1 == name);
}

/// A feature turns on a dependency that it names, alone or with a feature of it, but for
/// a weak reference; a reference to another feature turns on none.
pub proof fn law_features_turn_on(dep: String)
    ensures
        enabled_dep(FeatureRef::Dep(dep)) == Some(dep@),
        enabled_dep(FeatureRef::DepFeature { dep_name: dep, weak: false }) == Some(dep@),
        enabled_dep(FeatureRef::DepFeature { dep_name: dep, weak: true }) is None,
        enabled_dep(FeatureRef::Feature) is None,
{
}

// ---------------------------------------------------------------------------
// Tools
// ---------------------------------------------------------------------------

/// What the script of a unit runs: that of a build script's run the compiled build
/// script; that of documentation rustdoc; that of the project's own crates the lint
/// driver, where linting was asked for; and any other the compiler.
pub proof fn law_script_runs_its_tool(
    u: UnitView,
    us: Seq<UnitView>,
    idx: Map<Seq<char>, usize>,
    drvs: Map<Seq<char>, Seq<char>>,
    t: BuildTools,
    cc_bin_dir: Seq<char>,
    profile: ProfileConfig,
    target: TargetConfig,
    src_store: Seq<char>,
    has_parent: bool,
    setup: Seq<Seq<char>>,
)
    requires
        unit_script(u, us, idx, drvs, t, cc_bin_dir, profile, target, src_store, has_parent, setup)
            is Ok,
    ensures
        ({
            let s = unit_script(
                u,
                us,
                idx,
                drvs,
                t,
                cc_bin_dir,
                profile,
                target,
                src_store,
                has_parent,
                setup,
            )->Ok_0;
            &&& u.kind == UnitKind::Doc ==> has_substring(s, quoted(t.rustdoc_path@) + " "@)
            &&& u.kind != UnitKind::Doc && u.kind != UnitKind::BuildScriptRun && u.is_local ==> (
            t.clippy_path matches Some(p) ==> has_substring(s, quoted(p@) + " "@))
            &&& u.kind != UnitKind::Doc && u.kind != UnitKind::BuildScriptRun && (!u.is_local
                || t.clippy_path is None) ==> has_substring(s, quoted(t.rustc_path@) + " "@)
            &&& u.kind == UnitKind::BuildScriptRun ==> (u.build_script_compile_key matches Some(key)
                ==> has_substring(
                s,
                "/"@ + output_file(us[idx[key] as int]) + " > $out/output && "@,
            ))
        }),
{
    reveal(unit_script);
    let s = unit_script(
        u,
        us,
        idx,
        drvs,
        t,
        cc_bin_dir,
        profile,
        target,
        src_store,
        has_parent,
        setup,
    )->Ok_0;
    let bin_dir = t.coreutils_store@ + "/bin"@;
    if u.kind == UnitKind::BuildScriptRun {
        let c = RunInputs {
            u,
            us,
            idx,
            drvs,
            mkdir_path: t.mkdir_path@,
            coreutils_store: t.coreutils_store@,
            rustc_path: t.rustc_path@,
            cc_bin_dir,
            pkg_config_dir: opt_view(t.pkg_config_dir),
            pkg_config_path: t.pkg_config_path@,
            profile,
            target,
            cfg_envs: pair_views(t.cfg_envs@),
            host_cfg_envs: pair_views(t.host_cfg_envs@),
            custom_sys_env: pair_views(t.custom_sys_env@),
            passthru: pair_views(t.passthru_envs@),
            src_store,
            has_parent,
            setup,
        };
        assert(c.script() == Ok::<Seq<char>, Seq<char>>(s));
        law_standard_variables(c);
        if let Some(key) = u.build_script_compile_key {
            lemma_second_of_turn(s, "export OUT_DIR=$out/out_dir && "@, c.run());
            let ph = output_placeholder(drvs[key], "out"@)->Ok_0;
            let front = "cd $_bs_workdir && LD_PRELOAD=$TMPDIR/_wdirs.so "@ + ph;
            let back = "/"@ + output_file(us[idx[key] as int]) + " > $out/output && "@;
            assert(c.run() =~= front + back);
            lemma_holds_itself(back);
            lemma_holds_behind(front, back, back);
            lemma_holds_within(s, c.run(), back);
        }
    } else if u.kind == UnitKind::Doc {
        let c = DocInputs {
            u,
            us,
            idx,
            drvs,
            rustdoc_path: t.rustdoc_path@,
            sysroot: t.resolved_sysroot@,
            coreutils_bin_dir: bin_dir,
            private_items: t.document_private_items,
            remaps: pair_views(t.path_prefix_remaps@),
            src_store,
            setup,
        };
        assert(c.script() == Ok::<Seq<char>, Seq<char>>(s));
        law_rustdoc_is_set_up(c, 0);
        lemma_second_of_turn(
            s,
            quoted(bin_dir + "/mkdir"@) + " -p $out/doc && "@,
            quoted(t.rustdoc_path@) + " "@,
        );
    } else {
        let linted = is_linted(u, opt_view(t.clippy_path));
        let c = CompileInputs {
            u,
            us,
            idx,
            drvs,
            rustc_path: if linted {
                t.clippy_path->0@
            } else {
                t.rustc_path@
            },
            sysroot: t.resolved_sysroot@,
            coreutils_bin_dir: bin_dir,
            cc_bin_dir,
            profile,
            target,
            libs: views(t.win_sdk_lib_dirs@),
            extra: if linted {
                views(t.clippy_lint_args@)
            } else {
                Seq::empty()
            },
            remaps: pair_views(t.path_prefix_remaps@),
            src_store,
            setup,
        };
        assert(c.script() == Ok::<Seq<char>, Seq<char>>(s));
        law_compiler_is_set_up(c, 0, 0);
        lemma_second_of_turn(
            s,
            quoted(bin_dir + "/mkdir"@) + " -p $out && "@,
            quoted(c.rustc_path) + " "@,
        );
    }
}

proof fn lemma_second_of_turn(s: Seq<char>, p: Seq<char>, q: Seq<char>)
    requires
        in_turn(s, p, q),
    ensures
        has_substring(s, q),
{
    let k = choose|k: int|
        0 <= k <= s.len() && has_substring(#[trigger] s.take(k), p) && has_substring(s.skip(k), q);
    assert(s =~= s.take(k) + s.skip(k));
    lemma_holds_behind(s.take(k), s.skip(k), q);
}

// ---------------------------------------------------------------------------
// Slices
// ---------------------------------------------------------------------------

/// A unit of a crate that has a source of its own is found there: what lay below the
/// crate lies at the same place below the new source, and what lay elsewhere stays.
pub proof fn law_sliced_paths(u: UnitView, s: SliceView, store: Seq<char>, file: Seq<char>)
    ensures
        u.source_file == s.root + "/"@ + s.crate_rel + file ==> sliced_unit(u, s, store).source_file
            == store + file,
        u.manifest_dir == s.root + "/"@ + s.crate_rel + file ==> sliced_unit(
            u,
            s,
            store,
        ).manifest_dir == store + file,
        !starts(u.source_file, s.root + "/"@ + s.crate_rel) ==> sliced_unit(
            u,
            s,
            store,
        ).source_file == u.source_file,
        u.is_local ==> sliced_unit(u, s, store).sliced_crate_rel == Some(s.crate_rel),
        sliced_unit(u, s, store).key == u.key,
        sliced_unit(u, s, store).dep_extern == u.dep_extern,
{
    let from = s.root + "/"@ + s.crate_rel;
    assert((from + file).take(from.len() as int) =~= from);
    assert((from + file).skip(from.len() as int) =~= file);
}

} // verus!
