//! The units of a plan from cargo's unit graph.
use crate::cargo_unit::{
    cargo_envs_of, compilation_identity, compute_cargo_envs, identity_of, key_of_unit, kind_of,
    make_unit_key, map_to_store_path, needs_linker_of, underscore, underscored, unit_kind,
    unit_needs_linker, CargoMode, CargoUnit, FeatureRef,
};
use crate::closure::{close_dependencies, closed_units};
use crate::graph::firsts;
use crate::resolution::units_result;
use crate::strmap::StrMap;
use crate::text::{clone_strings, less, owned, same, sort_seq, sort_strings, str_lt, views};
use crate::toposort::{
    cycle_message, distinct_keys, full_order, law_dependencies_first, node_views, placed,
    toposort, TopoNode, TopoView,
};
use crate::unify::{
    law_merging_keeps_order, law_place_holds_unit, least_edges, merge_edges, place, redirected,
    survivor, unified, unify_feature_variants,
};
use crate::unit_key::{
    compute_extra_filename, drv_name_suffix, extra_filename_seq, mode_suffix_for_drv_name,
};
use crate::units::{
    clone_opt, find_pair, opt_view, pair_lookup, pair_views, unit_views, NixUnit, UnitKind,
    UnitView,
};
use crate::util::{drv_name_seq, sanitize_drv_name};
use vstd::prelude::*;

verus! {

// ---------------------------------------------------------------------------
// Optional dependencies that features activate
// ---------------------------------------------------------------------------

/// What the features activate, in order.
pub open spec fn activated(
    features: Seq<Seq<char>>,
    table: Map<Seq<char>, Vec<(String, String)>>,
) -> Seq<(Seq<char>, Seq<char>)>
    decreases features.len(),
{
    if features.len() == 0 {
        Seq::empty()
    } else if table.contains_key(features.last()) {
        activated(features.drop_last(), table) + pair_views(table[features.last()]@)
    } else {
        activated(features.drop_last(), table)
    }
}

/// The candidates whose names stand neither among `present` nor under an earlier
/// candidate.
pub open spec fn missing(
    present: Seq<Seq<char>>,
    candidates: Seq<(Seq<char>, Seq<char>)>,
) -> Seq<(Seq<char>, Seq<char>)>
    decreases candidates.len(),
{
    if candidates.len() == 0 {
        Seq::empty()
    } else {
        let before = missing(present, candidates.drop_last());
        let c = candidates.last();
        if present.contains(c.0) || firsts(before).contains(c.0) {
            before
        } else {
            before.push(c)
        }
    }
}

/// The crate names of a map of dependencies, in order.
pub open spec fn present_names(dep_extern: StrMap<String>) -> Seq<Seq<char>> {
    dep_extern.keys_seq()
}

fn has_first(v: &Vec<(String, String)>, name: &str) -> (r: bool)
    ensures
        r == firsts(pair_views(v@)).contains(name@),
{
    let ghost f = firsts(pair_views(v@));
    let mut i: usize = 0;
    while i < v.len()
        invariant
            i <= v@.len(),
            f == firsts(pair_views(v@)),
            forall|j: int| 0 <= j < i ==> #[trigger] f[j] != name@,
        decreases v@.len() - i,
    {
        if same(v[i].0.as_str(), name) {
            assert(f[i as int] == name@);
            return true;
        }
        i = i + 1;
    }
    false
}

/// The `(extern_name, dep_key)` pairs for optional dependencies that features
/// activate but that `dep_extern` lacks.
///
/// Cargo leaves the edge of a dependency out that is declared under an
/// always-false platform gate, even where a feature activates it by `dep:`.
/// `feature_dep_activations` gives for each feature what it can provide.
pub fn find_missing_feature_deps(
    dep_extern: &StrMap<String>,
    enabled_features: &Vec<String>,
    feature_dep_activations: &StrMap<Vec<(String, String)>>,
) -> (r: Vec<(String, String)>)
    ensures
        pair_views(r@) == missing(
            present_names(*dep_extern),
            activated(views(enabled_features@), feature_dep_activations@),
        ),
{
    let ghost feats = views(enabled_features@);
    let ghost present = present_names(*dep_extern);
    let ghost table = feature_dep_activations@;
    let n: usize = dep_extern.len();
    let mut r: Vec<(String, String)> = Vec::new();
    let mut i: usize = 0;
    assert(pair_views(r@) =~= missing(present, activated(feats.take(0), table)));
    while i < enabled_features.len()
        invariant
            i <= enabled_features@.len(),
            feats == views(enabled_features@),
            present == present_names(*dep_extern),
            table == feature_dep_activations@,
            n == present.len(),
            forall|j: int| 0 <= j < n ==> dep_extern@.contains_key(#[trigger] present[j]),
            forall|k: Seq<char>| #[trigger] dep_extern@.contains_key(k) ==> present.contains(k),
            pair_views(r@) == missing(present, activated(feats.take(i as int), table)),
        decreases enabled_features@.len() - i,
    {
        assert(feats.take(i + 1).drop_last() =~= feats.take(i as int));
        let ghost base = activated(feats.take(i as int), table);
        match feature_dep_activations.get(enabled_features[i].as_str()) {
            None => {},
            Some(acts) => {
                let ghost a = pair_views(acts@);
                let mut k: usize = 0;
                assert(base + a.take(0) =~= base);
                while k < acts.len()
                    invariant
                        k <= acts@.len(),
                        a == pair_views(acts@),
                        present == present_names(*dep_extern),
                        n == present.len(),
                        forall|j: int| 0 <= j < n ==> dep_extern@.contains_key(#[trigger] present[j]),
                        forall|k: Seq<char>| #[trigger] dep_extern@.contains_key(k) ==> present.contains(k),
                        pair_views(r@) == missing(present, base + a.take(k as int)),
                    decreases acts@.len() - k,
                {
                    let ghost next = base + a.take(k + 1);
                    assert(next.drop_last() =~= base + a.take(k as int));
                    assert(next.last() == a[k as int]);
                    let name = acts[k].0.as_str();
                    let known = dep_extern.contains_key(name);
                    proof {
                        if present.contains(name@) {
                            let j = choose|j: int| 0 <= j < present.len() && present[j] == name@;
                            assert(dep_extern@.contains_key(present[j]));
                        }
                        assert(known == present.contains(name@));
                    }
                    if !known && !has_first(&r, name) {
                        let ghost before = pair_views(r@);
                        r.push((acts[k].0.clone(), acts[k].1.clone()));
                        assert(pair_views(r@) =~= before.push(a[k as int]));
                    }
                    k = k + 1;
                }
                assert(a.take(a.len() as int) =~= a);
            },
        }
        i = i + 1;
    }
    assert(feats.take(feats.len() as int) =~= feats);
    r
}

/// What is added is missing: its names stand neither among the dependencies
/// present nor twice in the result.
pub proof fn law_missing_is_new(
    present: Seq<Seq<char>>,
    candidates: Seq<(Seq<char>, Seq<char>)>,
    i: int,
    j: int,
)
    requires
        0 <= i < j < missing(present, candidates).len(),
    ensures
        missing(present, candidates)[i].0 != missing(present, candidates)[j].0,
        !present.contains(missing(present, candidates)[i].0),
        !present.contains(missing(present, candidates)[j].0),
    decreases candidates.len(),
{
    let before = missing(present, candidates.drop_last());
    if j < before.len() {
        law_missing_is_new(present, candidates.drop_last(), i, j);
    } else {
        assert(firsts(before)[i] == before[i].0);
        if before.len() > 1 {
            if i + 1 < before.len() {
                law_missing_is_new(present, candidates.drop_last(), i, i + 1);
            } else {
                law_missing_is_new(present, candidates.drop_last(), i - 1, i);
            }
        } else {
            lemma_missing_single(present, candidates.drop_last(), 0);
        }
    }
}

proof fn lemma_missing_single(
    present: Seq<Seq<char>>,
    candidates: Seq<(Seq<char>, Seq<char>)>,
    i: int,
)
    requires
        0 <= i < missing(present, candidates).len(),
    ensures
        !present.contains(missing(present, candidates)[i].0),
    decreases candidates.len(),
{
    let before = missing(present, candidates.drop_last());
    if i < before.len() {
        lemma_missing_single(present, candidates.drop_last(), i);
    }
}

// ---------------------------------------------------------------------------
// Deduplication
// ---------------------------------------------------------------------------

/// Every edge leads to a unit of the graph.
pub open spec fn graph_wf(us: Seq<CargoUnit>) -> bool {
    forall|i: int, k: int|
        0 <= i < us.len() && 0 <= k < us[i].deps@.len() ==> (#[trigger] us[i].deps@[k]).unit < us.len()
}

/// The first unit at or after `from` with the given identity.
pub open spec fn first_identity(us: Seq<CargoUnit>, id: Seq<char>, from: int) -> int
    decreases us.len() - from,
{
    if from >= us.len() || identity_of(us[from]) == id {
        from
    } else {
        first_identity(us, id, from + 1)
    }
}

/// The unit that stands for all with the identity of unit `i`.
pub open spec fn rep(us: Seq<CargoUnit>, i: int) -> int {
    first_identity(us, identity_of(us[i]), 0)
}

/// The key of a unit: that of the unit which stands for it.
pub open spec fn key_at(us: Seq<CargoUnit>, i: int) -> Seq<char> {
    key_of_unit(us[rep(us, i)])
}

/// A unit put behind all whose identity does not come after its own.
pub open spec fn insert_index(us: Seq<CargoUnit>, s: Seq<int>, i: int) -> Seq<int>
    decreases s.len(),
{
    if s.len() == 0 {
        seq![i]
    } else if str_lt(identity_of(us[i]), identity_of(us[s.last()])) {
        insert_index(us, s.drop_last(), i).push(s.last())
    } else {
        s.push(i)
    }
}

/// The first `n` units in the order of their identities.
pub open spec fn by_identity(us: Seq<CargoUnit>, n: nat) -> Seq<int>
    decreases n,
{
    if n == 0 {
        Seq::empty()
    } else {
        insert_index(us, by_identity(us, (n - 1) as nat), n - 1)
    }
}

/// One of the listed units has the key.
pub open spec fn has_key(us: Seq<CargoUnit>, s: Seq<int>, key: Seq<char>) -> bool {
    exists|p: int| 0 <= p < s.len() && key_at(us, #[trigger] s[p]) == key
}

/// The units that remain of the first `n` in order: one for each key.
pub open spec fn deduped(us: Seq<CargoUnit>, order: Seq<int>, n: nat) -> Seq<int>
    decreases n,
{
    if n == 0 {
        Seq::empty()
    } else {
        let before = deduped(us, order, (n - 1) as nat);
        let i = order[n - 1];
        if rep(us, i) == i && !has_key(us, before, key_at(us, i)) {
            before.push(i)
        } else {
            before
        }
    }
}

/// The node of a unit: its key and those of its dependencies.
pub open spec fn node_of(us: Seq<CargoUnit>, i: int) -> TopoView {
    TopoView {
        key: key_at(us, i),
        deps: Seq::new(us[i].deps@.len(), |k: int| key_at(us, us[i].deps@[k].unit as int)),
    }
}

/// All units in the order of their identities.
pub open spec fn identity_order(us: Seq<CargoUnit>) -> Seq<int> {
    by_identity(us, us.len())
}

/// The units that are ordered.
pub open spec fn plan_units(us: Seq<CargoUnit>) -> Seq<int> {
    deduped(us, identity_order(us), us.len())
}

/// The nodes that are ordered.
pub open spec fn plan_nodes(us: Seq<CargoUnit>) -> Seq<TopoView> {
    Seq::new(plan_units(us).len(), |p: int| node_of(us, plan_units(us)[p]))
}

proof fn lemma_by_identity_range(us: Seq<CargoUnit>, n: nat)
    ensures
        by_identity(us, n).len() == n,
        forall|p: int| 0 <= p < n ==> 0 <= #[trigger] by_identity(us, n)[p] < n,
    decreases n,
{
    if n > 0 {
        lemma_by_identity_range(us, (n - 1) as nat);
        lemma_insert_index_range(us, by_identity(us, (n - 1) as nat), n - 1);
    }
}

proof fn lemma_insert_index_range(us: Seq<CargoUnit>, s: Seq<int>, i: int)
    requires
        forall|p: int| 0 <= p < s.len() ==> 0 <= #[trigger] s[p] < i,
        0 <= i,
    ensures
        insert_index(us, s, i).len() == s.len() + 1,
        forall|p: int| 0 <= p < s.len() + 1 ==> 0 <= #[trigger] insert_index(us, s, i)[p] <= i,
    decreases s.len(),
{
    if s.len() > 0 && str_lt(identity_of(us[i]), identity_of(us[s.last()])) {
        lemma_insert_index_range(us, s.drop_last(), i);
        assert(s[s.len() - 1] < i);
    }
}

proof fn lemma_deduped(us: Seq<CargoUnit>, order: Seq<int>, n: nat)
    requires
        n <= order.len(),
        forall|p: int| 0 <= p < order.len() ==> 0 <= #[trigger] order[p] < us.len(),
    ensures
        deduped(us, order, n).len() <= n,
        forall|p: int| 0 <= p < deduped(us, order, n).len() ==> 0 <= #[trigger] deduped(us, order, n)[p]
            < us.len(),
        forall|p: int, q: int|
            0 <= p < q < deduped(us, order, n).len() ==> key_at(us, #[trigger] deduped(us, order, n)[p])
                != key_at(us, #[trigger] deduped(us, order, n)[q]),
    decreases n,
{
    if n > 0 {
        lemma_deduped(us, order, (n - 1) as nat);
        let before = deduped(us, order, (n - 1) as nat);
        let after = deduped(us, order, n);
        let i = order[n - 1];
        if rep(us, i) == i && !has_key(us, before, key_at(us, i)) {
            assert forall|p: int, q: int| 0 <= p < q < after.len() implies key_at(
                us,
                #[trigger] after[p],
            ) != key_at(us, #[trigger] after[q]) by {
                if q == before.len() {
                    assert(after[p] == before[p]);
                } else {
                    assert(after[p] == before[p] && after[q] == before[q]);
                }
            }
        }
    }
}

proof fn lemma_plan_nodes_distinct(us: Seq<CargoUnit>)
    ensures
        distinct_keys(plan_nodes(us)),
        forall|p: int| 0 <= p < plan_units(us).len() ==> 0 <= #[trigger] plan_units(us)[p] < us.len(),
{
    lemma_by_identity_range(us, us.len());
    lemma_deduped(us, identity_order(us), us.len());
    let d = plan_units(us);
    let ns = plan_nodes(us);
    assert forall|i: int, j: int|
        0 <= i < ns.len() && 0 <= j < ns.len() && (#[trigger] ns[i]).key == (
        #[trigger] ns[j]).key implies i == j by {
        if i < j {
            assert(key_at(us, d[i]) != key_at(us, d[j]));
        } else if j < i {
            assert(key_at(us, d[j]) != key_at(us, d[i]));
        }
    }
}

// ---------------------------------------------------------------------------
// Dependencies of a unit
// ---------------------------------------------------------------------------

/// The edges of all units with an identity among the first `n`: position and
/// crate name.
pub open spec fn variant_deps(us: Seq<CargoUnit>, id: Seq<char>, n: nat) -> Seq<(int, Seq<char>)>
    decreases n,
{
    if n == 0 {
        Seq::empty()
    } else if identity_of(us[n - 1]) == id {
        variant_deps(us, id, (n - 1) as nat) + Seq::new(
            us[n - 1].deps@.len(),
            |k: int| (us[n - 1].deps@[k].unit as int, us[n - 1].deps@[k].extern_name@),
        )
    } else {
        variant_deps(us, id, (n - 1) as nat)
    }
}

/// The edges that link a library.
pub open spec fn extern_edges(us: Seq<CargoUnit>, deps: Seq<(int, Seq<char>)>) -> Seq<
    (Seq<char>, Seq<char>),
>
    decreases deps.len(),
{
    if deps.len() == 0 {
        Seq::empty()
    } else {
        let before = extern_edges(us, deps.drop_last());
        let d = us[deps.last().0];
        if d.mode != CargoMode::RunCustomBuild && !d.is_custom_build {
            before.push((deps.last().1, key_at(us, deps.last().0)))
        } else {
            before
        }
    }
}

/// The edges to runs of build scripts, by their `links` value.
pub open spec fn links_edges(us: Seq<CargoUnit>, deps: Seq<(int, Seq<char>)>) -> Seq<
    (Seq<char>, Seq<char>),
>
    decreases deps.len(),
{
    if deps.len() == 0 {
        Seq::empty()
    } else {
        let before = links_edges(us, deps.drop_last());
        let d = us[deps.last().0];
        match opt_view(d.links) {
            Some(l) if d.mode == CargoMode::RunCustomBuild => before.push(
                (l, key_at(us, deps.last().0)),
            ),
            _ => before,
        }
    }
}

/// The smaller of two keys, where there is one already.
pub open spec fn smaller(a: Option<Seq<char>>, key: Seq<char>) -> Option<Seq<char>> {
    match a {
        Some(k) => if str_lt(key, k) {
            Some(key)
        } else {
            Some(k)
        },
        None => Some(key),
    }
}

/// The smallest key of a run of a build script.
pub open spec fn run_key(us: Seq<CargoUnit>, deps: Seq<(int, Seq<char>)>) -> Option<Seq<char>>
    decreases deps.len(),
{
    if deps.len() == 0 {
        None
    } else {
        let before = run_key(us, deps.drop_last());
        if us[deps.last().0].mode == CargoMode::RunCustomBuild {
            smaller(before, key_at(us, deps.last().0))
        } else {
            before
        }
    }
}

/// The smallest key of a compilation of a build script.
pub open spec fn script_key(us: Seq<CargoUnit>, deps: Seq<(int, Seq<char>)>) -> Option<Seq<char>>
    decreases deps.len(),
{
    if deps.len() == 0 {
        None
    } else {
        let before = script_key(us, deps.drop_last());
        let d = us[deps.last().0];
        if d.mode != CargoMode::RunCustomBuild && d.is_custom_build {
            smaller(before, key_at(us, deps.last().0))
        } else {
            before
        }
    }
}

/// A unit is the library of a package.
pub open spec fn is_library_of(u: CargoUnit, package: Seq<char>) -> bool {
    u.pkg_name@ == package && u.is_lib && !u.is_custom_build && u.mode != CargoMode::RunCustomBuild
}

/// The first library of a package among the units listed from position `from`.
pub open spec fn library_of(
    us: Seq<CargoUnit>,
    order: Seq<int>,
    package: Seq<char>,
    from: int,
) -> Option<int>
    decreases order.len() - from,
{
    if from >= order.len() {
        None
    } else if is_library_of(us[order[from]], package) {
        Some(order[from])
    } else {
        library_of(us, order, package, from + 1)
    }
}

/// The dependency that a feature's entry enables.
pub open spec fn enabled_dep(f: FeatureRef) -> Option<Seq<char>> {
    match f {
        FeatureRef::Dep(d) => Some(d@),
        FeatureRef::DepFeature { dep_name, weak } => if weak {
            None
        } else {
            Some(dep_name@)
        },
        FeatureRef::Feature => None,
    }
}

/// What the first entries of a feature activate: crate names and unit keys.
pub open spec fn feature_activations(
    us: Seq<CargoUnit>,
    order: Seq<int>,
    u: CargoUnit,
    refs: Seq<FeatureRef>,
) -> Seq<(Seq<char>, Seq<char>)>
    decreases refs.len(),
{
    if refs.len() == 0 {
        Seq::empty()
    } else {
        let before = feature_activations(us, order, u, refs.drop_last());
        match enabled_dep(refs.last()) {
            None => before,
            Some(d) => {
                let package = match pair_lookup(pair_views(u.dependencies@), d) {
                    Some(p) => p,
                    None => d,
                };
                match library_of(us, order, package, 0) {
                    None => before,
                    Some(c) => before.push((underscored(d), key_at(us, c))),
                }
            },
        }
    }
}

/// The entries of a feature in a package's table.
pub open spec fn table_entry(
    table: Seq<(String, Vec<FeatureRef>)>,
    feature: Seq<char>,
    from: int,
) -> Seq<FeatureRef>
    decreases table.len() - from,
{
    if from >= table.len() {
        Seq::empty()
    } else if table[from].0@ == feature {
        table[from].1@
    } else {
        table_entry(table, feature, from + 1)
    }
}

/// What the features of a unit activate, in feature order.
pub open spec fn unit_activations(
    us: Seq<CargoUnit>,
    order: Seq<int>,
    u: CargoUnit,
    features: Seq<Seq<char>>,
) -> Seq<(Seq<char>, Seq<char>)>
    decreases features.len(),
{
    if features.len() == 0 {
        Seq::empty()
    } else {
        unit_activations(us, order, u, features.drop_last()) + feature_activations(
            us,
            order,
            u,
            table_entry(u.feature_table@, features.last(), 0),
        )
    }
}

/// The direct dependencies of a unit: one edge for each crate name, to the
/// smallest key, and what its features activate beyond them.
pub open spec fn unit_dep_extern(us: Seq<CargoUnit>, i: int) -> Seq<(Seq<char>, Seq<char>)> {
    let u = us[i];
    let edges = extern_edges(us, variant_deps(us, identity_of(u), us.len()));
    if kind_of(u) == UnitKind::BuildScriptRun {
        least_edges(edges)
    } else {
        least_edges(
            least_edges(edges) + missing(
                firsts(least_edges(edges)),
                unit_activations(us, identity_order(us), u, sort_seq(views(u.features@))),
            ),
        )
    }
}

/// The pairs the other way round.
pub open spec fn swapped(v: Seq<(Seq<char>, Seq<char>)>) -> Seq<(Seq<char>, Seq<char>)> {
    Seq::new(v.len(), |i: int| (v[i].1, v[i].0))
}

/// The target name of the last root among the first `n` with the given key.
pub open spec fn root_target(
    us: Seq<CargoUnit>,
    roots: Seq<usize>,
    key: Seq<char>,
    n: nat,
) -> Option<Seq<char>>
    decreases n,
{
    if n == 0 {
        None
    } else if key_at(us, roots[n - 1] as int) == key {
        Some(us[roots[n - 1] as int].target_name@)
    } else {
        root_target(us, roots, key, (n - 1) as nat)
    }
}

/// The unit of the plan for a unit of the graph, before merging.
#[verifier::opaque]
pub open spec fn base_unit(us: Seq<CargoUnit>, roots: Seq<usize>, i: int) -> UnitView {
    let u = us[i];
    let key = key_at(us, i);
    let kind = kind_of(u);
    let features = sort_seq(views(u.features@));
    let deps = variant_deps(us, identity_of(u), us.len());
    UnitView {
        key,
        drv_name: drv_name_seq(
            u.pkg_name@ + "-"@ + u.pkg_version@ + "-"@ + u.target_name@ + drv_name_suffix(kind),
        ),
        kind,
        source_file: u.source_file->0@,
        crate_name: underscored(u.target_name@),
        crate_types: views(u.crate_types@),
        edition: u.edition@,
        features,
        dep_extern: unit_dep_extern(us, i),
        all_dep_keys: Seq::empty(),
        build_script_dep: if kind == UnitKind::BuildScriptRun {
            None
        } else {
            run_key(us, deps)
        },
        build_script_compile_key: script_key(us, deps),
        manifest_dir: u.manifest_dir@,
        original_manifest_dir: Seq::empty(),
        cargo_envs: cargo_envs_of(u),
        extra_filename: extra_filename_seq(
            u.pkg_name@,
            u.pkg_version@,
            u.target_name@,
            features,
            views(u.crate_types@),
        ),
        needs_linker: needs_linker_of(kind, views(u.crate_types@)),
        is_local: u.is_local,
        links: opt_view(u.links),
        links_dep_keys: if kind == UnitKind::BuildScriptRun {
            swapped(least_edges(links_edges(us, deps)))
        } else {
            Seq::empty()
        },
        is_root: root_target(us, roots, key, roots.len()) is Some,
        target_name: match root_target(us, roots, key, roots.len()) {
            Some(t) => t,
            None => Seq::empty(),
        },
        for_host: u.for_host,
        compile_test: u.mode == CargoMode::Test || u.mode == (CargoMode::Check { test: true }),
        self_contained_build_script: u.self_contained_build_script,
        sliced_crate_rel: None,
        drv_path: None,
    }
}

/// The units of the plan in the given order, before merging, or the message for
/// the first without a source file.
pub open spec fn base_units(
    us: Seq<CargoUnit>,
    roots: Seq<usize>,
    order: Seq<int>,
) -> Result<Seq<UnitView>, Seq<char>>
    decreases order.len(),
{
    if order.len() == 0 {
        Ok(Seq::empty())
    } else {
        match base_units(us, roots, order.drop_last()) {
            Err(e) => Err(e),
            Ok(v) => if us[order.last()].source_file is None {
                Err("Metabuild targets not supported: "@ + key_at(us, order.last()))
            } else {
                Ok(v.push(base_unit(us, roots, order.last())))
            },
        }
    }
}

/// The units of the graph in topological order.
pub open spec fn plan_order(us: Seq<CargoUnit>) -> Seq<int> {
    let o = full_order(plan_nodes(us));
    Seq::new(o.len(), |p: int| plan_units(us)[o[p]])
}

/// What extraction returns.
pub open spec fn extracted(
    us: Seq<CargoUnit>,
    roots: Seq<usize>,
    r: Result<Seq<UnitView>, Seq<char>>,
) -> bool {
    let ns = plan_nodes(us);
    if full_order(ns).len() != ns.len() {
        r == Err::<Seq<UnitView>, Seq<char>>(cycle_message(ns, full_order(ns)))
    } else {
        match base_units(us, roots, plan_order(us)) {
            Err(e) => r == Err::<Seq<UnitView>, Seq<char>>(e),
            Ok(base) => r matches Ok(v) && closed_units(unified(base, base.len()), v),
        }
    }
}

// ---------------------------------------------------------------------------
// Code
// ---------------------------------------------------------------------------

/// The identities and keys of the units and their order.
struct Prepared {
    ids: Vec<String>,
    keys: Vec<String>,
    order: Vec<usize>,
}

spec fn ids_ok(us: Seq<CargoUnit>, ids: Seq<String>) -> bool {
    &&& ids.len() == us.len()
    &&& forall|i: int| 0 <= i < us.len() ==> (#[trigger] ids[i])@ == identity_of(us[i])
}

spec fn prepared(us: Seq<CargoUnit>, p: Prepared) -> bool {
    &&& ids_ok(us, p.ids@)
    &&& p.keys@.len() == us.len()
    &&& forall|i: int| 0 <= i < us.len() ==> (#[trigger] p.keys@[i])@ == key_at(us, i)
    &&& p.order@.map_values(|x: usize| x as int) == identity_order(us)
    &&& p.order@.len() == us.len()
    &&& forall|i: int| 0 <= i < us.len() ==> (#[trigger] p.order@[i]) < us.len()
}

proof fn lemma_insert_index_at(us: Seq<CargoUnit>, s: Seq<int>, i: int, p: int)
    requires
        0 <= p <= s.len(),
        forall|j: int|
            p <= j < s.len() ==> str_lt(identity_of(us[i]), identity_of(us[#[trigger] s[j]])),
        p > 0 ==> !str_lt(identity_of(us[i]), identity_of(us[s[p - 1]])),
    ensures
        insert_index(us, s, i) == s.insert(p, i),
    decreases s.len(),
{
    if s.len() == 0 {
        assert(s.insert(p, i) =~= seq![i]);
    } else if p == s.len() {
        assert(s.insert(p, i) =~= s.push(i));
    } else {
        lemma_insert_index_at(us, s.drop_last(), i, p);
        assert(s.insert(p, i) =~= s.drop_last().insert(p, i).push(s.last()));
    }
}

fn sort_by_identity(units: &Vec<CargoUnit>, ids: &Vec<String>) -> (r: Vec<usize>)
    requires
        ids_ok(units@, ids@),
    ensures
        r@.map_values(|x: usize| x as int) == identity_order(units@),
        r@.len() == units@.len(),
        forall|i: int| 0 <= i < r@.len() ==> (#[trigger] r@[i]) < units@.len(),
{
    let ghost us = units@;
    let mut r: Vec<usize> = Vec::new();
    let mut i: usize = 0;
    assert(r@.map_values(|x: usize| x as int) =~= by_identity(us, 0));
    while i < units.len()
        invariant
            us == units@,
            ids_ok(us, ids@),
            i <= us.len(),
            r@.len() == i,
            forall|j: int| 0 <= j < r@.len() ==> (#[trigger] r@[j]) < i,
            r@.map_values(|x: usize| x as int) == by_identity(us, i as nat),
        decreases us.len() - i,
    {
        let ghost before = r@.map_values(|x: usize| x as int);
        let mut p: usize = r.len();
        while p > 0 && less(ids[i].as_str(), ids[r[p - 1]].as_str())
            invariant
                ids_ok(us, ids@),
                i < us.len(),
                p <= r@.len(),
                before == r@.map_values(|x: usize| x as int),
                forall|j: int| 0 <= j < r@.len() ==> (#[trigger] r@[j]) < i,
                forall|j: int|
                    p <= j < r@.len() ==> str_lt(
                        identity_of(us[i as int]),
                        identity_of(us[#[trigger] before[j]]),
                    ),
            decreases p,
        {
            assert(before[p - 1] == r@[p - 1]);
            p = p - 1;
        }
        proof {
            if p > 0 {
                assert(before[p - 1] == r@[p - 1]);
            }
            lemma_insert_index_at(us, before, i as int, p as int);
        }
        r.insert(p, i);
        assert(r@.map_values(|x: usize| x as int) =~= before.insert(p as int, i as int));
        i = i + 1;
    }
    r
}

fn prepare(units: &Vec<CargoUnit>) -> (r: Prepared)
    ensures
        prepared(units@, r),
{
    let ghost us = units@;
    let mut ids: Vec<String> = Vec::new();
    let mut i: usize = 0;
    while i < units.len()
        invariant
            us == units@,
            i <= us.len(),
            ids@.len() == i,
            forall|j: int| 0 <= j < i ==> (#[trigger] ids@[j])@ == identity_of(us[j]),
        decreases us.len() - i,
    {
        ids.push(compilation_identity(&units[i]));
        i = i + 1;
    }
    let mut keys: Vec<String> = Vec::new();
    let mut k: usize = 0;
    while k < units.len()
        invariant
            us == units@,
            ids_ok(us, ids@),
            k <= us.len(),
            keys@.len() == k,
            forall|j: int| 0 <= j < k ==> (#[trigger] keys@[j])@ == key_at(us, j),
        decreases us.len() - k,
    {
        let rep_idx: usize = find_rep(&ids, k, Ghost(us));
        keys.push(make_unit_key(&units[rep_idx]));
        k = k + 1;
    }
    let order = sort_by_identity(units, &ids);
    Prepared { ids, keys, order }
}

fn find_rep(ids: &Vec<String>, i: usize, us: Ghost<Seq<CargoUnit>>) -> (r: usize)
    requires
        ids_ok(us@, ids@),
        i < us@.len(),
    ensures
        r == rep(us@, i as int),
        r <= i,
{
    let ghost id = identity_of(us@[i as int]);
    let mut j: usize = 0;
    while !same(ids[j].as_str(), ids[i].as_str())
        invariant
            ids_ok(us@, ids@),
            j <= i < us@.len(),
            id == identity_of(us@[i as int]),
            first_identity(us@, id, j as int) == first_identity(us@, id, 0),
        decreases i - j,
    {
        j = j + 1;
    }
    assert(ids@[j as int]@ == identity_of(us@[j as int]));
    j
}

fn dedup(units: &Vec<CargoUnit>, p: &Prepared) -> (r: Vec<usize>)
    requires
        prepared(units@, *p),
    ensures
        r@.map_values(|x: usize| x as int) == plan_units(units@),
        forall|i: int| 0 <= i < r@.len() ==> (#[trigger] r@[i]) < units@.len(),
{
    let ghost us = units@;
    let ghost order = identity_order(us);
    let mut r: Vec<usize> = Vec::new();
    let mut n: usize = 0;
    assert(r@.map_values(|x: usize| x as int) =~= deduped(us, order, 0));
    while n < p.order.len()
        invariant
            us == units@,
            prepared(us, *p),
            order == identity_order(us),
            n <= us.len(),
            forall|i: int| 0 <= i < r@.len() ==> (#[trigger] r@[i]) < us.len(),
            r@.map_values(|x: usize| x as int) == deduped(us, order, n as nat),
        decreases us.len() - n,
    {
        let i: usize = p.order[n];
        assert(order[n as int] == i);
        let ghost before = r@.map_values(|x: usize| x as int);
        let rep_idx: usize = find_rep(&p.ids, i, Ghost(us));
        if rep_idx == i {
            let mut seen = false;
            let mut q: usize = 0;
            while q < r.len()
                invariant
                    us == units@,
                    prepared(us, *p),
                    i < us.len(),
                    q <= r@.len(),
                    before == r@.map_values(|x: usize| x as int),
                    forall|j: int| 0 <= j < r@.len() ==> (#[trigger] r@[j]) < us.len(),
                    seen == (exists|j: int|
                        0 <= j < q && key_at(us, #[trigger] before[j]) == key_at(us, i as int)),
                decreases r@.len() - q,
            {
                assert(before[q as int] == r@[q as int]);
                if same(p.keys[r[q]].as_str(), p.keys[i].as_str()) {
                    assert(key_at(us, before[q as int]) == key_at(us, i as int));
                    seen = true;
                }
                q = q + 1;
            }
            assert(seen == has_key(us, before, key_at(us, i as int)));
            if !seen {
                r.push(i);
                assert(r@.map_values(|x: usize| x as int) =~= before.push(i as int));
            }
        }
        n = n + 1;
    }
    r
}

fn build_nodes(units: &Vec<CargoUnit>, p: &Prepared, chosen: &Vec<usize>) -> (r: Vec<TopoNode>)
    requires
        prepared(units@, *p),
        graph_wf(units@),
        chosen@.map_values(|x: usize| x as int) == plan_units(units@),
        forall|i: int| 0 <= i < chosen@.len() ==> (#[trigger] chosen@[i]) < units@.len(),
    ensures
        node_views(r@) == plan_nodes(units@),
{
    let ghost us = units@;
    let mut r: Vec<TopoNode> = Vec::new();
    let mut n: usize = 0;
    while n < chosen.len()
        invariant
            us == units@,
            prepared(us, *p),
            graph_wf(us),
            chosen@.map_values(|x: usize| x as int) == plan_units(us),
            forall|i: int| 0 <= i < chosen@.len() ==> (#[trigger] chosen@[i]) < us.len(),
            n <= chosen@.len(),
            r@.len() == n,
            forall|j: int| 0 <= j < n ==> (#[trigger] r@[j])@ == node_of(us, chosen@[j] as int),
        decreases chosen@.len() - n,
    {
        let i: usize = chosen[n];
        let mut deps: Vec<String> = Vec::new();
        let mut k: usize = 0;
        while k < units[i].deps.len()
            invariant
                us == units@,
                prepared(us, *p),
                graph_wf(us),
                i < us.len(),
                k <= us[i as int].deps@.len(),
                deps@.len() == k,
                forall|j: int|
                    0 <= j < k ==> (#[trigger] deps@[j])@ == key_at(
                        us,
                        us[i as int].deps@[j].unit as int,
                    ),
            decreases us[i as int].deps@.len() - k,
        {
            let d: usize = units[i].deps[k].unit;
            assert(us[i as int].deps@[k as int].unit < us.len());
            deps.push(p.keys[d].clone());
            k = k + 1;
        }
        let node = TopoNode { key: p.keys[i].clone(), deps };
        assert(node@.deps =~= node_of(us, i as int).deps);
        r.push(node);
        n = n + 1;
    }
    assert(node_views(r@) =~= plan_nodes(us)) by {
        assert forall|j: int| 0 <= j < r@.len() implies node_views(r@)[j] == plan_nodes(us)[j] by {
            assert(r@[j]@ == node_of(us, chosen@[j] as int));
            assert(plan_units(us)[j] == chosen@[j] as int);
        }
    }
    r
}

/// Edges of a unit and of all that compile to the same output.
fn collect_variant_deps(units: &Vec<CargoUnit>, p: &Prepared, i: usize) -> (r: Vec<(usize, String)>)
    requires
        prepared(units@, *p),
        graph_wf(units@),
        i < units@.len(),
    ensures
        dep_views(r@) == variant_deps(units@, identity_of(units@[i as int]), units@.len()),
        forall|k: int| 0 <= k < r@.len() ==> (#[trigger] r@[k]).0 < units@.len(),
{
    let ghost us = units@;
    let ghost id = identity_of(us[i as int]);
    let mut r: Vec<(usize, String)> = Vec::new();
    let mut j: usize = 0;
    assert(dep_views(r@) =~= Seq::empty());
    while j < units.len()
        invariant
            us == units@,
            prepared(us, *p),
            graph_wf(us),
            i < us.len(),
            j <= us.len(),
            id == identity_of(us[i as int]),
            dep_views(r@) == variant_deps(us, id, j as nat),
            forall|k: int| 0 <= k < r@.len() ==> (#[trigger] r@[k]).0 < us.len(),
        decreases us.len() - j,
    {
        assert(p.ids@[j as int]@ == identity_of(us[j as int]));
        assert(p.ids@[i as int]@ == id);
        if same(p.ids[j].as_str(), p.ids[i].as_str()) {
            let ghost before = dep_views(r@);
            let ghost own = Seq::new(
                us[j as int].deps@.len(),
                |k: int| (us[j as int].deps@[k].unit as int, us[j as int].deps@[k].extern_name@),
            );
            let mut k: usize = 0;
            assert(before + own.take(0) =~= before);
            while k < units[j].deps.len()
                invariant
                    us == units@,
                    graph_wf(us),
                    j < us.len(),
                    k <= us[j as int].deps@.len(),
                    own == Seq::new(
                        us[j as int].deps@.len(),
                        |k: int|
                            (us[j as int].deps@[k].unit as int, us[j as int].deps@[k].extern_name@),
                    ),
                    dep_views(r@) == before + own.take(k as int),
                    forall|k: int| 0 <= k < r@.len() ==> (#[trigger] r@[k]).0 < us.len(),
                decreases us[j as int].deps@.len() - k,
            {
                let ghost now = dep_views(r@);
                assert(us[j as int].deps@[k as int].unit < us.len());
                r.push((units[j].deps[k].unit, units[j].deps[k].extern_name.clone()));
                assert(dep_views(r@) =~= now.push(own[k as int]));
                assert(own.take(k + 1) =~= own.take(k as int).push(own[k as int]));
                assert(dep_views(r@) =~= before + own.take(k + 1));
                k = k + 1;
            }
            assert(own.take(own.len() as int) =~= own);
        }
        j = j + 1;
    }
    r
}

/// The views of edges.
pub open spec fn dep_views(v: Seq<(usize, String)>) -> Seq<(int, Seq<char>)> {
    Seq::new(v.len(), |i: int| (v[i].0 as int, v[i].1@))
}

fn collect_extern_edges(units: &Vec<CargoUnit>, p: &Prepared, deps: &Vec<(usize, String)>) -> (r: Vec<
    (String, String),
>)
    requires
        prepared(units@, *p),
        forall|k: int| 0 <= k < deps@.len() ==> (#[trigger] deps@[k]).0 < units@.len(),
    ensures
        pair_views(r@) == extern_edges(units@, dep_views(deps@)),
{
    let ghost us = units@;
    let ghost ds = dep_views(deps@);
    let mut r: Vec<(String, String)> = Vec::new();
    let mut k: usize = 0;
    assert(pair_views(r@) =~= extern_edges(us, ds.take(0)));
    while k < deps.len()
        invariant
            us == units@,
            prepared(us, *p),
            ds == dep_views(deps@),
            forall|k: int| 0 <= k < deps@.len() ==> (#[trigger] deps@[k]).0 < us.len(),
            k <= deps@.len(),
            pair_views(r@) == extern_edges(us, ds.take(k as int)),
        decreases deps@.len() - k,
    {
        assert(ds.take(k + 1).drop_last() =~= ds.take(k as int));
        let d: usize = deps[k].0;
        if units[d].mode != CargoMode::RunCustomBuild && !units[d].is_custom_build {
            let ghost before = pair_views(r@);
            r.push((deps[k].1.clone(), p.keys[d].clone()));
            assert(pair_views(r@) =~= before.push((ds[k as int].1, key_at(us, d as int))));
        }
        k = k + 1;
    }
    assert(ds.take(ds.len() as int) =~= ds);
    r
}

fn collect_links_edges(units: &Vec<CargoUnit>, p: &Prepared, deps: &Vec<(usize, String)>) -> (r: Vec<
    (String, String),
>)
    requires
        prepared(units@, *p),
        forall|k: int| 0 <= k < deps@.len() ==> (#[trigger] deps@[k]).0 < units@.len(),
    ensures
        pair_views(r@) == links_edges(units@, dep_views(deps@)),
{
    let ghost us = units@;
    let ghost ds = dep_views(deps@);
    let mut r: Vec<(String, String)> = Vec::new();
    let mut k: usize = 0;
    assert(pair_views(r@) =~= links_edges(us, ds.take(0)));
    while k < deps.len()
        invariant
            us == units@,
            prepared(us, *p),
            ds == dep_views(deps@),
            forall|k: int| 0 <= k < deps@.len() ==> (#[trigger] deps@[k]).0 < us.len(),
            k <= deps@.len(),
            pair_views(r@) == links_edges(us, ds.take(k as int)),
        decreases deps@.len() - k,
    {
        assert(ds.take(k + 1).drop_last() =~= ds.take(k as int));
        let d: usize = deps[k].0;
        if units[d].mode == CargoMode::RunCustomBuild {
            if let Some(l) = &units[d].links {
                let ghost before = pair_views(r@);
                r.push((l.clone(), p.keys[d].clone()));
                assert(pair_views(r@) =~= before.push((l@, key_at(us, d as int))));
            }
        }
        k = k + 1;
    }
    assert(ds.take(ds.len() as int) =~= ds);
    r
}

fn keep_smaller(best: &mut Option<String>, key: &String)
    ensures
        opt_view(*final(best)) == smaller(opt_view(*old(best)), key@),
{
    let replace = match best {
        Some(k) => less(key.as_str(), k.as_str()),
        None => true,
    };
    if replace {
        *best = Some(key.clone());
    }
}

/// The smallest keys of a build script's run and compilation.
fn script_keys(units: &Vec<CargoUnit>, p: &Prepared, deps: &Vec<(usize, String)>) -> (r: (
    Option<String>,
    Option<String>,
))
    requires
        prepared(units@, *p),
        forall|k: int| 0 <= k < deps@.len() ==> (#[trigger] deps@[k]).0 < units@.len(),
    ensures
        opt_view(r.0) == run_key(units@, dep_views(deps@)),
        opt_view(r.1) == script_key(units@, dep_views(deps@)),
{
    let ghost us = units@;
    let ghost ds = dep_views(deps@);
    let mut run: Option<String> = None;
    let mut compile: Option<String> = None;
    let mut k: usize = 0;
    while k < deps.len()
        invariant
            us == units@,
            prepared(us, *p),
            ds == dep_views(deps@),
            forall|k: int| 0 <= k < deps@.len() ==> (#[trigger] deps@[k]).0 < us.len(),
            k <= deps@.len(),
            opt_view(run) == run_key(us, ds.take(k as int)),
            opt_view(compile) == script_key(us, ds.take(k as int)),
        decreases deps@.len() - k,
    {
        assert(ds.take(k + 1).drop_last() =~= ds.take(k as int));
        let d: usize = deps[k].0;
        if units[d].mode == CargoMode::RunCustomBuild {
            keep_smaller(&mut run, &p.keys[d]);
        } else if units[d].is_custom_build {
            keep_smaller(&mut compile, &p.keys[d]);
        }
        k = k + 1;
    }
    assert(ds.take(ds.len() as int) =~= ds);
    (run, compile)
}

fn find_library(units: &Vec<CargoUnit>, p: &Prepared, package: &str) -> (r: Option<usize>)
    requires
        prepared(units@, *p),
    ensures
        match r {
            Some(c) => library_of(units@, identity_order(units@), package@, 0) == Some(c as int) && c
                < units@.len(),
            None => library_of(units@, identity_order(units@), package@, 0) is None,
        },
{
    let ghost us = units@;
    let ghost order = identity_order(us);
    let mut n: usize = 0;
    while n < p.order.len()
        invariant
            us == units@,
            prepared(us, *p),
            order == identity_order(us),
            n <= us.len(),
            order.len() == us.len(),
            library_of(us, order, package@, n as int) == library_of(us, order, package@, 0),
        decreases us.len() - n,
    {
        let i: usize = p.order[n];
        assert(order[n as int] == i);
        let u = &units[i];
        if same(u.pkg_name.as_str(), package) && u.is_lib && !u.is_custom_build && u.mode
            != CargoMode::RunCustomBuild {
            return Some(i);
        }
        n = n + 1;
    }
    None
}

fn collect_feature(
    units: &Vec<CargoUnit>,
    p: &Prepared,
    u: &CargoUnit,
    refs: &Vec<FeatureRef>,
) -> (r: Vec<(String, String)>)
    requires
        prepared(units@, *p),
    ensures
        pair_views(r@) == feature_activations(units@, identity_order(units@), *u, refs@),
{
    let ghost us = units@;
    let ghost order = identity_order(us);
    let mut r: Vec<(String, String)> = Vec::new();
    let mut k: usize = 0;
    assert(pair_views(r@) =~= feature_activations(us, order, *u, refs@.take(0)));
    while k < refs.len()
        invariant
            us == units@,
            prepared(us, *p),
            order == identity_order(us),
            k <= refs@.len(),
            pair_views(r@) == feature_activations(us, order, *u, refs@.take(k as int)),
        decreases refs@.len() - k,
    {
        assert(refs@.take(k + 1).drop_last() =~= refs@.take(k as int));
        let dep: Option<&String> = match &refs[k] {
            FeatureRef::Dep(d) => Some(d),
            FeatureRef::DepFeature { dep_name, weak } => if *weak {
                None
            } else {
                Some(dep_name)
            },
            FeatureRef::Feature => None,
        };
        if let Some(d) = dep {
            let package = match find_pair(&u.dependencies, d.as_str()) {
                Some(n) => n,
                None => d,
            };
            if let Some(c) = find_library(units, p, package.as_str()) {
                let ghost before = pair_views(r@);
                r.push((underscore(d.as_str()), p.keys[c].clone()));
                assert(pair_views(r@) =~= before.push((underscored(d@), key_at(us, c as int))));
            }
        }
        k = k + 1;
    }
    assert(refs@.take(refs@.len() as int) =~= refs@);
    r
}

fn find_feature<'a>(u: &'a CargoUnit, feature: &str) -> (r: Option<&'a Vec<FeatureRef>>)
    ensures
        match r {
            Some(v) => v@ == table_entry(u.feature_table@, feature@, 0),
            None => table_entry(u.feature_table@, feature@, 0) == Seq::<FeatureRef>::empty(),
        },
{
    let ghost t = u.feature_table@;
    let mut i: usize = 0;
    while i < u.feature_table.len()
        invariant
            t == u.feature_table@,
            i <= t.len(),
            table_entry(t, feature@, i as int) == table_entry(t, feature@, 0),
        decreases t.len() - i,
    {
        if same(u.feature_table[i].0.as_str(), feature) {
            return Some(&u.feature_table[i].1);
        }
        i = i + 1;
    }
    None
}

/// A table gives for each feature what it activates.
spec fn activation_table(
    us: Seq<CargoUnit>,
    u: CargoUnit,
    features: Seq<Seq<char>>,
    table: Map<Seq<char>, Vec<(String, String)>>,
) -> bool {
    forall|f: Seq<char>|
        if features.contains(f) {
            #[trigger] table.contains_key(f) && pair_views(table[f]@) == feature_activations(
                us,
                identity_order(us),
                u,
                table_entry(u.feature_table@, f, 0),
            )
        } else {
            !table.contains_key(f)
        }
}

proof fn lemma_activations(
    us: Seq<CargoUnit>,
    u: CargoUnit,
    all: Seq<Seq<char>>,
    features: Seq<Seq<char>>,
    table: Map<Seq<char>, Vec<(String, String)>>,
)
    requires
        activation_table(us, u, all, table),
        forall|i: int| 0 <= i < features.len() ==> all.contains(#[trigger] features[i]),
    ensures
        activated(features, table) == unit_activations(us, identity_order(us), u, features),
    decreases features.len(),
{
    if features.len() > 0 {
        assert forall|i: int| 0 <= i < features.drop_last().len() implies all.contains(
            #[trigger] features.drop_last()[i],
        ) by {
            assert(all.contains(features[i]));
        }
        lemma_activations(us, u, all, features.drop_last(), table);
        assert(all.contains(features[features.len() - 1]));
        assert(table.contains_key(features.last()));
    }
}

fn collect_activations(
    units: &Vec<CargoUnit>,
    p: &Prepared,
    u: &CargoUnit,
    features: &Vec<String>,
) -> (r: StrMap<Vec<(String, String)>>)
    requires
        prepared(units@, *p),
    ensures
        activation_table(units@, *u, views(features@), r@),
{
    let ghost us = units@;
    let ghost fs = views(features@);
    let mut table: StrMap<Vec<(String, String)>> = StrMap::new();
    let mut i: usize = 0;
    while i < features.len()
        invariant
            us == units@,
            prepared(us, *p),
            fs == views(features@),
            i <= features@.len(),
            activation_table(us, *u, fs.take(i as int), table@),
        decreases features@.len() - i,
    {
        let ghost before = table@;
        let none: Vec<FeatureRef> = Vec::new();
        let refs = match find_feature(u, features[i].as_str()) {
            Some(v) => v,
            None => &none,
        };
        assert(none@ =~= Seq::empty());
        assert(refs@ == table_entry(u.feature_table@, fs[i as int], 0));
        let acts = collect_feature(units, p, u, refs);
        let ghost given = acts;
        table.insert(features[i].clone(), acts);
        proof {
            assert(table@ == before.insert(fs[i as int], given));
            let a = fs.take(i as int);
            let b = fs.take(i + 1);
            assert forall|f: Seq<char>|
                if b.contains(f) {
                    #[trigger] table@.contains_key(f) && pair_views(table@[f]@)
                        == feature_activations(
                        us,
                        identity_order(us),
                        *u,
                        table_entry(u.feature_table@, f, 0),
                    )
                } else {
                    !table@.contains_key(f)
                } by {
                assert(before.contains_key(f) || !before.contains_key(f));
                if f == fs[i as int] {
                    assert(pair_views(table@[f]@) == pair_views(given@));
                }
                if a.contains(f) {
                    let k = choose|k: int| 0 <= k < a.len() && a[k] == f;
                    assert(b[k] == f);
                }
                assert(b[i as int] == fs[i as int]);
                assert(b.contains(fs[i as int]));
                if b.contains(f) && f != fs[i as int] {
                    let k = choose|k: int| 0 <= k < b.len() && b[k] == f;
                    assert(a[k] == f);
                }
            }
        }
        i = i + 1;
    }
    assert(fs.take(fs.len() as int) =~= fs);
    table
}

/// The crate names of edges in a map.
fn edge_map(edges: &Vec<(String, String)>) -> (m: StrMap<String>)
    ensures
        forall|k: Seq<char>| #[trigger] m@.contains_key(k) <==> firsts(pair_views(edges@)).contains(k),
{
    let ghost f = firsts(pair_views(edges@));
    let mut m: StrMap<String> = StrMap::new();
    let mut i: usize = 0;
    while i < edges.len()
        invariant
            i <= edges@.len(),
            f == firsts(pair_views(edges@)),
            forall|k: Seq<char>| #[trigger] m@.contains_key(k) <==> f.take(i as int).contains(k),
        decreases edges@.len() - i,
    {
        m.insert(edges[i].0.clone(), edges[i].1.clone());
        proof {
            let a = f.take(i as int);
            let b = f.take(i + 1);
            assert forall|k: Seq<char>| #[trigger] m@.contains_key(k) <==> b.contains(k) by {
                if a.contains(k) {
                    let x = choose|x: int| 0 <= x < a.len() && a[x] == k;
                    assert(b[x] == k);
                }
                assert(b[i as int] == f[i as int]);
                if b.contains(k) && k != f[i as int] {
                    let x = choose|x: int| 0 <= x < b.len() && b[x] == k;
                    assert(a[x] == k);
                }
            }
        }
        i = i + 1;
    }
    assert(f.take(f.len() as int) =~= f);
    m
}

proof fn lemma_missing_same_names(
    a: Seq<Seq<char>>,
    b: Seq<Seq<char>>,
    candidates: Seq<(Seq<char>, Seq<char>)>,
)
    requires
        forall|k: Seq<char>| a.contains(k) <==> #[trigger] b.contains(k),
    ensures
        missing(a, candidates) == missing(b, candidates),
    decreases candidates.len(),
{
    if candidates.len() > 0 {
        lemma_missing_same_names(a, b, candidates.drop_last());
        assert(b.contains(candidates.last().0) || !b.contains(candidates.last().0));
    }
}

fn collect_dep_extern(
    units: &Vec<CargoUnit>,
    p: &Prepared,
    i: usize,
    deps: &Vec<(usize, String)>,
) -> (r: Vec<(String, String)>)
    requires
        prepared(units@, *p),
        i < units@.len(),
        forall|k: int| 0 <= k < deps@.len() ==> (#[trigger] deps@[k]).0 < units@.len(),
        dep_views(deps@) == variant_deps(
            units@,
            identity_of(units@[i as int]),
            units@.len(),
        ),
    ensures
        pair_views(r@) == unit_dep_extern(units@, i as int),
{
    let ghost us = units@;
    let u = &units[i];
    let edges = merge_edges(&collect_extern_edges(units, p, deps));
    if unit_kind(u) == UnitKind::BuildScriptRun {
        return edges;
    }
    let features = sort_strings(clone_strings(&u.features));
    let table = collect_activations(units, p, u, &features);
    let present = edge_map(&edges);
    let n: usize = present.len();
    let mut more = find_missing_feature_deps(&present, &features, &table);
    proof {
        let fs = views(features@);
        let names = firsts(pair_views(edges@));
        lemma_activations(us, *u, fs, fs, table@);
        assert forall|k: Seq<char>| present_names(present).contains(k) <==> #[trigger] names.contains(
            k,
        ) by {
            assert(present@.contains_key(k) <==> names.contains(k));
            if present_names(present).contains(k) {
                let x = choose|x: int|
                    0 <= x < present_names(present).len() && present_names(present)[x] == k;
                assert(present@.contains_key(present.keys_seq()[x]));
            }
        }
        lemma_missing_same_names(
            present_names(present),
            names,
            unit_activations(us, identity_order(us), *u, fs),
        );
    }
    let mut all = edges;
    let ghost a = pair_views(all@);
    let ghost b = pair_views(more@);
    all.append(&mut more);
    assert(pair_views(all@) =~= a + b);
    merge_edges(&all)
}

fn swap_pairs(v: &Vec<(String, String)>) -> (r: Vec<(String, String)>)
    ensures
        pair_views(r@) == swapped(pair_views(v@)),
{
    let mut r: Vec<(String, String)> = Vec::new();
    let mut i: usize = 0;
    while i < v.len()
        invariant
            i <= v@.len(),
            r@.len() == i,
            forall|j: int| 0 <= j < i ==> (#[trigger] r@[j]).0@ == v@[j].1@ && r@[j].1@ == v@[j].0@,
        decreases v@.len() - i,
    {
        r.push((v[i].1.clone(), v[i].0.clone()));
        i = i + 1;
    }
    assert(pair_views(r@) =~= swapped(pair_views(v@)));
    r
}

fn find_root_target(
    units: &Vec<CargoUnit>,
    roots: &Vec<usize>,
    p: &Prepared,
    i: usize,
) -> (r: Option<String>)
    requires
        prepared(units@, *p),
        i < units@.len(),
        forall|k: int| 0 <= k < roots@.len() ==> (#[trigger] roots@[k]) < units@.len(),
    ensures
        opt_view(r) == root_target(units@, roots@, key_at(units@, i as int), roots@.len()),
{
    let ghost us = units@;
    let ghost key = key_at(us, i as int);
    let mut n: usize = roots.len();
    while n > 0
        invariant
            us == units@,
            prepared(us, *p),
            i < us.len(),
            key == key_at(us, i as int),
            n <= roots@.len(),
            forall|k: int| 0 <= k < roots@.len() ==> (#[trigger] roots@[k]) < us.len(),
            root_target(us, roots@, key, n as nat) == root_target(us, roots@, key, roots@.len()),
        decreases n,
    {
        let c: usize = roots[n - 1];
        if same(p.keys[c].as_str(), p.keys[i].as_str()) {
            return Some(units[c].target_name.clone());
        }
        n = n - 1;
    }
    None
}

#[verifier::rlimit(60)]
fn make_base_unit(
    units: &Vec<CargoUnit>,
    roots: &Vec<usize>,
    p: &Prepared,
    i: usize,
    source_file: &String,
    src: &str,
    vendor: &str,
) -> (r: NixUnit)
    requires
        prepared(units@, *p),
        graph_wf(units@),
        i < units@.len(),
        units@[i as int].source_file == Some(*source_file),
        forall|k: int| 0 <= k < roots@.len() ==> (#[trigger] roots@[k]) < units@.len(),
    ensures
        r@ == base_unit(units@, roots@, i as int),
{
    let ghost us = units@;
    let u = &units[i];
    let kind = unit_kind(u);
    let features = sort_strings(clone_strings(&u.features));
    let deps = collect_variant_deps(units, p, i);
    let dep_extern = collect_dep_extern(units, p, i, &deps);
    let (run, compile) = script_keys(units, p, &deps);
    let links_dep_keys = if kind == UnitKind::BuildScriptRun {
        swap_pairs(&merge_edges(&collect_links_edges(units, p, &deps)))
    } else {
        Vec::new()
    };
    let mut name = u.pkg_name.clone();
    name.append("-");
    name.append(u.pkg_version.as_str());
    name.append("-");
    name.append(u.target_name.as_str());
    name.append(mode_suffix_for_drv_name(&kind));
    let target = find_root_target(units, roots, p, i);
    let is_root = target.is_some();
    let extra_filename = compute_extra_filename(
        u.pkg_name.as_str(),
        u.pkg_version.as_str(),
        u.target_name.as_str(),
        &features,
        &u.crate_types,
    );
    let compile_test = match u.mode {
        CargoMode::Test => true,
        CargoMode::Check { test } => test,
        _ => false,
    };
    let r = NixUnit {
        key: p.keys[i].clone(),
        drv_name: sanitize_drv_name(name.as_str()),
        kind,
        source_file: map_to_store_path(source_file.as_str(), src, vendor, u.manifest_dir.as_str()),
        crate_name: underscore(u.target_name.as_str()),
        crate_types: clone_strings(&u.crate_types),
        edition: u.edition.clone(),
        features,
        dep_extern,
        all_dep_keys: Vec::new(),
        build_script_dep: if kind == UnitKind::BuildScriptRun {
            None
        } else {
            run
        },
        build_script_compile_key: compile,
        manifest_dir: map_to_store_path(
            u.manifest_dir.as_str(),
            src,
            vendor,
            u.manifest_dir.as_str(),
        ),
        original_manifest_dir: String::new(),
        cargo_envs: compute_cargo_envs(u),
        extra_filename,
        needs_linker: unit_needs_linker(kind, &u.crate_types),
        is_local: u.is_local,
        links: clone_opt(&u.links),
        links_dep_keys,
        is_root,
        target_name: match target {
            Some(t) => t,
            None => String::new(),
        },
        for_host: u.for_host,
        compile_test,
        self_contained_build_script: u.self_contained_build_script,
        sliced_crate_rel: None,
        drv_path: None,
    };
    proof {
        reveal(base_unit);
        assert(r@.all_dep_keys =~= Seq::empty());
        if kind != UnitKind::BuildScriptRun {
            assert(r@.links_dep_keys =~= Seq::empty());
        }
    }
    r
}

proof fn lemma_base_units_err(us: Seq<CargoUnit>, roots: Seq<usize>, order: Seq<int>, n: int)
    requires
        0 <= n <= order.len(),
        base_units(us, roots, order.take(n)) is Err,
    ensures
        base_units(us, roots, order) == base_units(us, roots, order.take(n)),
    decreases order.len(),
{
    if n == order.len() {
        assert(order.take(n) =~= order);
    } else {
        assert(order.drop_last().take(n) =~= order.take(n));
        lemma_base_units_err(us, roots, order.drop_last(), n);
    }
}

fn make_base_units(
    units: &Vec<CargoUnit>,
    roots: &Vec<usize>,
    p: &Prepared,
    order: &Vec<usize>,
    src: &str,
    vendor: &str,
) -> (r: Result<Vec<NixUnit>, String>)
    requires
        prepared(units@, *p),
        graph_wf(units@),
        forall|k: int| 0 <= k < roots@.len() ==> (#[trigger] roots@[k]) < units@.len(),
        forall|k: int| 0 <= k < order@.len() ==> (#[trigger] order@[k]) < units@.len(),
    ensures
        units_result(r) == base_units(units@, roots@, order@.map_values(|x: usize| x as int)),
{
    let ghost us = units@;
    let ghost ord = order@.map_values(|x: usize| x as int);
    let mut v: Vec<NixUnit> = Vec::new();
    let mut n: usize = 0;
    assert(unit_views(v@) =~= Seq::empty());
    while n < order.len()
        invariant
            us == units@,
            prepared(us, *p),
            graph_wf(us),
            ord == order@.map_values(|x: usize| x as int),
            forall|k: int| 0 <= k < roots@.len() ==> (#[trigger] roots@[k]) < us.len(),
            forall|k: int| 0 <= k < order@.len() ==> (#[trigger] order@[k]) < us.len(),
            n <= order@.len(),
            base_units(us, roots@, ord.take(n as int)) == Ok::<Seq<UnitView>, Seq<char>>(
                unit_views(v@),
            ),
        decreases order@.len() - n,
    {
        assert(ord.take(n + 1).drop_last() =~= ord.take(n as int));
        let i: usize = order[n];
        assert(ord.take(n + 1).last() == i as int);
        match &units[i].source_file {
            None => {
                let mut e = owned("Metabuild targets not supported: ");
                e.append(p.keys[i].as_str());
                proof {
                    lemma_base_units_err(us, roots@, ord, n + 1);
                }
                return Err(e);
            },
            Some(s) => {
                let u = make_base_unit(units, roots, p, i, s, src, vendor);
                let ghost before = unit_views(v@);
                let ghost added = u@;
                v.push(u);
                assert(unit_views(v@) =~= before.push(added));
            },
        }
        n = n + 1;
    }
    assert(ord.take(ord.len() as int) =~= ord);
    Ok(v)
}

/// Extracts the units of the plan from cargo's unit graph, dependencies before
/// dependents.
///
/// Units that compile to the same output are merged, and so are units that
/// differ only in their features. `roots` are the positions of the units that
/// the user asked for.
///
/// The order follows the edges of cargo's graph (see [`law_dependencies_stand_first`]).
/// A dependency can stand behind its dependent where the edge is not one of them: where
/// a feature activates it and cargo's graph lacks it, or where the dependent has it from
/// a unit that was merged into it.
pub fn extract_units(units: &Vec<CargoUnit>, roots: &Vec<usize>, src: &str, vendor: &str) -> (r: Result<
    Vec<NixUnit>,
    String,
>)
    requires
        graph_wf(units@),
        forall|k: int| 0 <= k < roots@.len() ==> (#[trigger] roots@[k]) < units@.len(),
    ensures
        extracted(units@, roots@, units_result(r)),
{
    let ghost us = units@;
    let p = prepare(units);
    let chosen = dedup(units, &p);
    let nodes = build_nodes(units, &p, &chosen);
    proof {
        lemma_plan_nodes_distinct(us);
    }
    let ghost ns = plan_nodes(us);
    let sorted = match toposort(&nodes) {
        Err(e) => return Err(e),
        Ok(o) => o,
    };
    proof {
        law_dependencies_first(ns);
    }
    let mut order: Vec<usize> = Vec::new();
    let mut n: usize = 0;
    while n < sorted.len()
        invariant
            us == units@,
            ns == plan_nodes(us),
            chosen@.map_values(|x: usize| x as int) == plan_units(us),
            forall|i: int| 0 <= i < chosen@.len() ==> (#[trigger] chosen@[i]) < us.len(),
            sorted@.map_values(|x: usize| x as int) == full_order(ns),
            forall|q: int| 0 <= q < full_order(ns).len() ==> 0 <= #[trigger] full_order(ns)[q] < ns.len(),
            ns.len() == chosen@.len(),
            n <= sorted@.len(),
            order@.len() == n,
            forall|k: int| 0 <= k < n ==> (#[trigger] order@[k]) < us.len(),
            forall|k: int| 0 <= k < n ==> (#[trigger] order@[k]) == plan_order(us)[k],
        decreases sorted@.len() - n,
    {
        let q: usize = sorted[n];
        assert(full_order(ns)[n as int] == q);
        assert(plan_units(us)[q as int] == chosen@[q as int]);
        order.push(chosen[q]);
        n = n + 1;
    }
    assert(order@.map_values(|x: usize| x as int) =~= plan_order(us));
    match make_base_units(units, roots, &p, &order, src, vendor) {
        Err(e) => Err(e),
        Ok(mut v) => {
            unify_feature_variants(&mut v);
            Ok(close_dependencies(v))
        },
    }
}

// ---------------------------------------------------------------------------
// Order
// ---------------------------------------------------------------------------

proof fn lemma_base_units_at(us: Seq<CargoUnit>, roots: Seq<usize>, order: Seq<int>)
    requires
        base_units(us, roots, order) is Ok,
    ensures
        base_units(us, roots, order)->Ok_0.len() == order.len(),
        forall|p: int|
            0 <= p < order.len() ==> #[trigger] base_units(us, roots, order)->Ok_0[p] == base_unit(
                us,
                roots,
                order[p],
            ),
    decreases order.len(),
{
    if order.len() > 0 {
        lemma_base_units_at(us, roots, order.drop_last());
    }
}

/// The keys of the units before merging are those of the ordered nodes, and differ.
proof fn lemma_base_keys(us: Seq<CargoUnit>, roots: Seq<usize>)
    requires
        base_units(us, roots, plan_order(us)) is Ok,
    ensures
        ({
            let base = base_units(us, roots, plan_order(us))->Ok_0;
            &&& base.len() == plan_order(us).len()
            &&& forall|a: int|
                0 <= a < base.len() ==> (#[trigger] base[a]).key == key_at(us, plan_order(us)[a])
            &&& forall|a: int, b: int|
                0 <= a < base.len() && 0 <= b < base.len() && (#[trigger] base[a]).key == (
                #[trigger] base[b]).key ==> a == b
        }),
{
    let order = plan_order(us);
    let base = base_units(us, roots, order)->Ok_0;
    let ns = plan_nodes(us);
    let o = full_order(ns);
    lemma_plan_nodes_distinct(us);
    law_dependencies_first(ns);
    lemma_base_units_at(us, roots, order);
    assert forall|a: int| 0 <= a < base.len() implies (#[trigger] base[a]).key == key_at(
        us,
        order[a],
    ) by {
        reveal(base_unit);
    }
    assert forall|a: int, b: int|
        0 <= a < base.len() && 0 <= b < base.len() && (#[trigger] base[a]).key == (
        #[trigger] base[b]).key implies a == b by {
        assert(ns[o[a]].key == key_at(us, order[a]));
        assert(ns[o[b]].key == key_at(us, order[b]));
        if a < b {
            assert(o[a] != o[b]);
        } else if b < a {
            assert(o[b] != o[a]);
        }
    }
}

/// A dependency of an ordered unit was ordered before it.
proof fn lemma_dependency_ordered(us: Seq<CargoUnit>, p: int, k: int) -> (q: int)
    requires
        0 <= p < plan_order(us).len(),
        0 <= k < us[plan_order(us)[p]].deps@.len(),
    ensures
        0 <= q < p,
        key_at(us, plan_order(us)[q]) == key_at(us, us[plan_order(us)[p]].deps@[k].unit as int),
{
    let ns = plan_nodes(us);
    let o = full_order(ns);
    let key = key_at(us, us[plan_order(us)[p]].deps@[k].unit as int);
    law_dependencies_first(ns);
    assert(ns[o[p]].deps[k] == key);
    let before = o.take(p);
    assert(placed(ns, before, key));
    let q = choose|d: int| 0 <= d < before.len() && ns[#[trigger] before[d]].key == key;
    assert(before[q] == o[q]);
    q
}

/// A dependency stands before its dependent in the extracted list: for every edge of
/// cargo's graph from the `p`th unit in the order before merging, where that unit is the
/// first of those that are merged with it. The dependency may itself have been merged into
/// another unit: its place is that unit's.
///
/// Left out are the edges of the other units that are merged into the dependent, and
/// those that features add, which are no edges of cargo's graph.
pub proof fn law_dependencies_stand_first(
    us: Seq<CargoUnit>,
    roots: Seq<usize>,
    v: Seq<UnitView>,
    p: int,
    k: int,
)
    requires
        extracted(us, roots, Ok(v)),
        0 <= p < plan_order(us).len(),
        0 <= k < us[plan_order(us)[p]].deps@.len(),
        survivor(base_units(us, roots, plan_order(us))->Ok_0, p) == p,
    ensures
        ({
            let base = base_units(us, roots, plan_order(us))->Ok_0;
            let dep = us[plan_order(us)[p]].deps@[k].unit as int;
            &&& base[p].key == key_at(us, plan_order(us)[p])
            &&& v[place(base, p)].key == redirected(base, base[p].key)
            &&& exists|q: int|
                0 <= q < base.len() && (#[trigger] base[q]).key == key_at(us, dep) && 0 <= place(
                    base,
                    q,
                ) < place(base, p) < v.len() && v[place(base, q)].key == redirected(
                    base,
                    base[q].key,
                )
        }),
{
    let base = base_units(us, roots, plan_order(us))->Ok_0;
    let dep = us[plan_order(us)[p]].deps@[k].unit as int;
    lemma_base_keys(us, roots);
    let q = lemma_dependency_ordered(us, p, k);
    law_place_holds_unit(base, p);
    law_place_holds_unit(base, q);
    law_merging_keeps_order(base, q, p);
    let merged = unified(base, base.len());
    assert(v[place(base, p)].key == merged[place(base, p)].key);
    assert(v[place(base, q)].key == merged[place(base, q)].key);
    assert(base[q].key == key_at(us, dep));
}

} // verus!
