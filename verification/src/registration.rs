//! Planning the derivations of a graph and registering them.
use crate::aterm::{
    aterm_derivation, collect_drv_refs, compute_drv_store_path, drv_refs, drv_store_path,
    serialize_derivation_aterm,
};
use crate::derivation::{construct_derivation, unit_derivation, unit_ready, unit_script, BuildTools};
use crate::graph::{indexes, key_index, lemma_index_of, lemma_unit_index, unit_index};
use crate::hash::sha256_digest;
use crate::json::{Json, JsonView};
use crate::lists::reversed;
use crate::nix_encoding::after_store_dir;
use crate::placeholder::{drv_sliceable, law_computed_path_sliceable};
use crate::scripts::{concat2, extra_filename_ok};
use crate::setup::{rule_views, setup_scripts, unit_setup_scripts, UnitSetupRule};
use crate::strmap::{StrMap, TextMap};
use crate::text::{owned, same, strip_prefix, views};
use crate::units::{
    list_has, opt_view, unit_views, NixUnit, ProfileConfig, TargetConfig, UnitKind, UnitView,
};
use vstd::prelude::*;
use vstd::utf8::*;

verus! {

// ---------------------------------------------------------------------------
// Planning
// ---------------------------------------------------------------------------

/// What is needed of a unit to register its derivation.
pub struct LevelUnit {
    /// Position of the unit in the plan.
    pub i: usize,
    /// Key of the unit.
    pub unit_key: String,
    pub json: Json,
    pub drv_file_name: String,
    pub aterm: Vec<u8>,
    pub refs: Vec<String>,
    pub drv_path: String,
}

/// What is needed of a unit to register its derivation.
pub struct LevelView {
    pub i: int,
    pub unit_key: Seq<char>,
    pub json: JsonView,
    pub drv_file_name: Seq<char>,
    pub aterm: Seq<u8>,
    pub refs: Seq<Seq<char>>,
    pub drv_path: Seq<char>,
}

impl View for LevelUnit {
    type V = LevelView;

    open spec fn view(&self) -> LevelView {
        LevelView {
            i: self.i as int,
            unit_key: self.unit_key@,
            json: self.json@,
            drv_file_name: self.drv_file_name@,
            aterm: self.aterm@,
            refs: views(self.refs@),
            drv_path: self.drv_path@,
        }
    }
}

/// What each unit of a level holds.
pub open spec fn level_views(v: Seq<LevelUnit>) -> Seq<LevelView> {
    Seq::new(v.len(), |i: int| v[i]@)
}

/// What each level of a plan holds.
pub open spec fn plan_views(v: Seq<Vec<LevelUnit>>) -> Seq<Seq<LevelView>> {
    Seq::new(v.len(), |i: int| level_views(v[i]@))
}

/// What all units of a plan share.
pub struct PlanContext {
    pub tools: BuildTools,
    /// Linker for what runs on the build machine.
    pub host_cc_bin_dir: String,
    pub host_cc_closure: Vec<String>,
    /// Linker for the target.
    pub target_cc_bin_dir: String,
    pub target_cc_closure: Vec<String>,
    pub profile: ProfileConfig,
    pub target: TargetConfig,
    pub rules: Vec<UnitSetupRule>,
}

/// A unit is linked for the build machine: it is built for it, or it is the run
/// of a build script.
pub open spec fn links_on_host(u: UnitView) -> bool {
    u.for_host || u.kind == UnitKind::BuildScriptRun
}

/// The directory of the linker of a unit.
pub open spec fn cc_dir(cx: PlanContext, u: UnitView) -> Seq<char> {
    if links_on_host(u) {
        cx.host_cc_bin_dir@
    } else {
        cx.target_cc_bin_dir@
    }
}

/// The closure of the linker of a unit.
pub open spec fn cc_closure(cx: PlanContext, u: UnitView) -> Seq<Seq<char>> {
    if links_on_host(u) {
        views(cx.host_cc_closure@)
    } else {
        views(cx.target_cc_closure@)
    }
}

/// What is needed to register a derivation, or why it cannot be written.
pub open spec fn registered_as(u: UnitView, i: int, json: JsonView) -> Result<
    LevelView,
    Seq<char>,
> {
    match aterm_derivation(json) {
        Ok(aterm) => Ok(
            LevelView {
                i,
                unit_key: u.key,
                json,
                drv_file_name: u.drv_name + ".drv"@,
                aterm,
                refs: drv_refs(json),
                drv_path: drv_store_path(u.drv_name + ".drv"@, aterm, drv_refs(json)),
            },
        ),
        Err(e) => Err(e),
    }
}

/// The plan of a unit whose dependencies have the derivations `drvs`.
pub open spec fn unit_plan(
    us: Seq<UnitView>,
    idx: Map<Seq<char>, usize>,
    drvs: Map<Seq<char>, Seq<char>>,
    cx: PlanContext,
    src_store: Seq<char>,
    has_parent: bool,
    i: int,
) -> Result<LevelView, Seq<char>> {
    let u = us[i];
    match unit_script(
        u,
        us,
        idx,
        drvs,
        cx.tools,
        cc_dir(cx, u),
        cx.profile,
        cx.target,
        src_store,
        has_parent,
        setup_scripts(rule_views(cx.rules@), u),
    ) {
        Ok(script) => registered_as(
            u,
            i,
            unit_derivation(u, us, idx, drvs, cx.tools, cc_closure(cx, u), script),
        ),
        Err(e) => Err(e),
    }
}

/// What a function that plans a unit returned.
pub open spec fn level_view(r: Result<LevelUnit, String>) -> Result<LevelView, Seq<char>> {
    match r {
        Ok(u) => Ok(u@),
        Err(e) => Err(e@),
    }
}

/// Plans a unit: its derivation, the bytes and the store path of the `.drv` file.
pub fn construct_level_unit(
    units: &Vec<NixUnit>,
    i: usize,
    key_to_idx: &StrMap<usize>,
    dep_drv_map: &TextMap,
    cx: &PlanContext,
    src_store: &str,
    has_parent: bool,
) -> (r: Result<LevelUnit, String>)
    requires
        i < units@.len(),
        unit_ready(units@[i as int]@, unit_views(units@), key_to_idx@, dep_drv_map@),
    ensures
        level_view(r) == unit_plan(
            unit_views(units@),
            key_to_idx@,
            dep_drv_map@,
            *cx,
            src_store@,
            has_parent,
            i as int,
        ),
        r matches Ok(u) ==> drv_sliceable(u.drv_path@),
{
    let unit = &units[i];
    let ghost us = unit_views(units@);
    assert(us[i as int] == unit@);
    let on_host = unit.for_host || unit.kind == UnitKind::BuildScriptRun;
    let cc_bin_dir = if on_host {
        cx.host_cc_bin_dir.as_str()
    } else {
        cx.target_cc_bin_dir.as_str()
    };
    let closure = if on_host {
        &cx.host_cc_closure
    } else {
        &cx.target_cc_closure
    };
    let scripts = unit_setup_scripts(unit, &cx.rules);
    let json = match construct_derivation(
        units,
        i,
        key_to_idx,
        dep_drv_map,
        &cx.tools,
        cc_bin_dir,
        closure,
        &cx.profile,
        &cx.target,
        src_store,
        has_parent,
        &scripts,
    ) {
        Ok(j) => j,
        Err(e) => return Err(e),
    };
    let drv_file_name = concat2(unit.drv_name.as_str(), ".drv");
    let aterm = match serialize_derivation_aterm(&json) {
        Ok(a) => a,
        Err(e) => return Err(e),
    };
    let refs = collect_drv_refs(&json);
    let drv_path = compute_drv_store_path(drv_file_name.as_str(), aterm.as_slice(), &refs);
    let after = match strip_prefix(drv_path.as_str(), "/nix/store/") {
        Some(rest) => rest,
        None => drv_path.as_str(),
    };
    let _len: usize = after.as_bytes().len();
    proof {
        assert(after@ == after_store_dir(drv_path@));
        assert(encode_utf8(after@).len() == _len);
        law_computed_path_sliceable(
            sha256_digest(
                encode_utf8(
                    crate::aterm::text_fingerprint_seq(
                        sha256_digest(aterm@),
                        views(refs@),
                        drv_file_name@,
                    ),
                ),
            ),
            drv_file_name@,
        );
    }
    Ok(
        LevelUnit { i, unit_key: unit.key.clone(), json, drv_file_name, aterm, refs, drv_path },
    )
}

/// The plans of the units of a level, or the first message of why one cannot be
/// planned.
pub open spec fn level_plan(
    us: Seq<UnitView>,
    idx: Map<Seq<char>, usize>,
    drvs: Map<Seq<char>, Seq<char>>,
    cx: PlanContext,
    src_stores: Seq<Seq<char>>,
    parents: Seq<bool>,
    level: Seq<int>,
) -> Result<Seq<LevelView>, Seq<char>>
    decreases level.len(),
{
    if level.len() == 0 {
        Ok(Seq::empty())
    } else {
        let i = level.last();
        match level_plan(us, idx, drvs, cx, src_stores, parents, level.drop_last()) {
            Err(e) => Err(e),
            Ok(before) => match unit_plan(us, idx, drvs, cx, src_stores[i], parents[i], i) {
                Ok(l) => Ok(before.push(l)),
                Err(e) => Err(e),
            },
        }
    }
}

proof fn lemma_level_plan_err(
    us: Seq<UnitView>,
    idx: Map<Seq<char>, usize>,
    drvs: Map<Seq<char>, Seq<char>>,
    cx: PlanContext,
    src_stores: Seq<Seq<char>>,
    parents: Seq<bool>,
    level: Seq<int>,
    n: int,
)
    requires
        0 <= n <= level.len(),
        level_plan(us, idx, drvs, cx, src_stores, parents, level.take(n)) is Err,
    ensures
        level_plan(us, idx, drvs, cx, src_stores, parents, level) == level_plan(
            us,
            idx,
            drvs,
            cx,
            src_stores,
            parents,
            level.take(n),
        ),
    decreases level.len() - n,
{
    if n == level.len() {
        assert(level.take(n) =~= level);
    } else {
        assert(level.take(n + 1).drop_last() =~= level.take(n));
        lemma_level_plan_err(us, idx, drvs, cx, src_stores, parents, level, n + 1);
    }
}

/// The derivations by unit, with those of a level.
pub open spec fn drvs_with(drvs: Map<Seq<char>, Seq<char>>, level: Seq<LevelView>) -> Map<
    Seq<char>,
    Seq<char>,
>
    decreases level.len(),
{
    if level.len() == 0 {
        drvs
    } else {
        drvs_with(drvs, level.drop_last()).insert(level.last().unit_key, level.last().drv_path)
    }
}

/// The plans of all levels and the derivations by unit. A level is planned with
/// the derivations of the levels below it.
pub open spec fn levels_plan(
    us: Seq<UnitView>,
    idx: Map<Seq<char>, usize>,
    cx: PlanContext,
    src_stores: Seq<Seq<char>>,
    parents: Seq<bool>,
    levels: Seq<Seq<int>>,
) -> Result<(Seq<Seq<LevelView>>, Map<Seq<char>, Seq<char>>), Seq<char>>
    decreases levels.len(),
{
    if levels.len() == 0 {
        Ok((Seq::empty(), Map::empty()))
    } else {
        match levels_plan(us, idx, cx, src_stores, parents, levels.drop_last()) {
            Err(e) => Err(e),
            Ok((done, drvs)) => match level_plan(
                us,
                idx,
                drvs,
                cx,
                src_stores,
                parents,
                levels.last(),
            ) {
                Err(e) => Err(e),
                Ok(level) => Ok((done.push(level), drvs_with(drvs, level))),
            },
        }
    }
}

proof fn lemma_levels_plan_err(
    us: Seq<UnitView>,
    idx: Map<Seq<char>, usize>,
    cx: PlanContext,
    src_stores: Seq<Seq<char>>,
    parents: Seq<bool>,
    levels: Seq<Seq<int>>,
    n: int,
)
    requires
        0 <= n <= levels.len(),
        levels_plan(us, idx, cx, src_stores, parents, levels.take(n)) is Err,
    ensures
        levels_plan(us, idx, cx, src_stores, parents, levels) == levels_plan(
            us,
            idx,
            cx,
            src_stores,
            parents,
            levels.take(n),
        ),
    decreases levels.len() - n,
{
    if n == levels.len() {
        assert(levels.take(n) =~= levels);
    } else {
        assert(levels.take(n + 1).drop_last() =~= levels.take(n));
        lemma_levels_plan_err(us, idx, cx, src_stores, parents, levels, n + 1);
    }
}

/// The positions of a level as numbers.
pub open spec fn positions(level: Seq<usize>) -> Seq<int> {
    level.map_values(|i: usize| i as int)
}

/// The positions of all levels as numbers.
pub open spec fn all_positions(levels: Seq<Vec<usize>>) -> Seq<Seq<int>> {
    Seq::new(levels.len(), |l: int| positions(levels[l]@))
}

/// Every position is that of a unit.
pub open spec fn in_range(level: Seq<usize>, n: nat) -> bool {
    forall|k: int| 0 <= k < level.len() ==> (#[trigger] level[k]) < n
}

/// Every unit that is compiled has an extra file name.
pub open spec fn filenames_ok(us: Seq<UnitView>) -> bool {
    forall|i: int|
        0 <= i < us.len() && (#[trigger] us[i]).kind != UnitKind::BuildScriptRun
            ==> extra_filename_ok(us[i])
}

/// Every registered derivation is that of a unit, and its path can be cut.
pub open spec fn drvs_known(
    us: Seq<UnitView>,
    idx: Map<Seq<char>, usize>,
    drvs: Map<Seq<char>, Seq<char>>,
) -> bool {
    forall|k: Seq<char>| #[trigger]
        drvs.contains_key(k) ==> idx.contains_key(k) && drv_sliceable(drvs[k])
}

proof fn lemma_ready(
    us: Seq<UnitView>,
    idx: Map<Seq<char>, usize>,
    drvs: Map<Seq<char>, Seq<char>>,
    i: int,
)
    requires
        indexes(idx, us),
        us.len() <= usize::MAX,
        drvs_known(us, idx, drvs),
        filenames_ok(us),
        0 <= i < us.len(),
    ensures
        unit_ready(us[i], us, idx, drvs),
{
    assert forall|k: Seq<char>| #[trigger] idx.contains_key(k) implies idx[k] < us.len() by {
        lemma_index_of(us, k);
    }
    assert forall|k: Seq<char>| #[trigger] drvs.contains_key(k) implies drv_sliceable(drvs[k]) by {}
}

fn plan_level(
    units: &Vec<NixUnit>,
    level: &Vec<usize>,
    key_to_idx: &StrMap<usize>,
    dep_drv_map: &TextMap,
    cx: &PlanContext,
    src_stores: &Vec<String>,
    parents: &Vec<bool>,
) -> (r: Result<Vec<LevelUnit>, String>)
    requires
        indexes(key_to_idx@, unit_views(units@)),
        drvs_known(unit_views(units@), key_to_idx@, dep_drv_map@),
        filenames_ok(unit_views(units@)),
        in_range(level@, units@.len()),
        src_stores@.len() == units@.len(),
        parents@.len() == units@.len(),
    ensures
        match (
            r,
            level_plan(
                unit_views(units@),
                key_to_idx@,
                dep_drv_map@,
                *cx,
                views(src_stores@),
                parents@,
                positions(level@),
            ),
        ) {
            (Ok(v), Ok(l)) => level_views(v@) == l && v@.len() == level@.len(),
            (Err(e), Err(m)) => e@ == m,
            _ => false,
        },
        r matches Ok(v) ==> forall|k: int|
            0 <= k < v@.len() ==> drv_sliceable((#[trigger] v@[k]).drv_path@) && v@[k].i
                < units@.len() && v@[k].unit_key@ == units@[v@[k].i as int]@.key,
{
    let ghost us = unit_views(units@);
    let ghost idx = key_to_idx@;
    let ghost drvs = dep_drv_map@;
    let ghost srcs = views(src_stores@);
    let ghost ps = positions(level@);
    let count: usize = units.len();
    let mut r: Vec<LevelUnit> = Vec::new();
    let mut k: usize = 0;
    assert(level_views(r@) =~= Seq::empty());
    while k < level.len()
        invariant
            k <= level@.len(),
            r@.len() == k,
            count == units@.len(),
            us == unit_views(units@),
            idx == key_to_idx@,
            drvs == dep_drv_map@,
            srcs == views(src_stores@),
            ps == positions(level@),
            indexes(idx, us),
            drvs_known(us, idx, drvs),
            filenames_ok(us),
            in_range(level@, units@.len()),
            src_stores@.len() == units@.len(),
            parents@.len() == units@.len(),
            level_plan(us, idx, drvs, *cx, srcs, parents@, ps.take(k as int)) == Ok::<
                Seq<LevelView>,
                Seq<char>,
            >(level_views(r@)),
            forall|m: int|
                0 <= m < k ==> drv_sliceable((#[trigger] r@[m]).drv_path@) && r@[m].i < units@.len()
                    && r@[m].unit_key@ == units@[r@[m].i as int]@.key,
        decreases level@.len() - k,
    {
        let i: usize = level[k];
        assert(level@[k as int] < units@.len());
        assert(ps.take(k + 1).drop_last() =~= ps.take(k as int));
        assert(ps.take(k + 1).last() == i);
        proof {
            lemma_ready(us, idx, drvs, i as int);
            assert(us[i as int] == units@[i as int]@);
            assert(srcs[i as int] == src_stores@[i as int]@);
        }
        match construct_level_unit(
            units,
            i,
            key_to_idx,
            dep_drv_map,
            cx,
            src_stores[i].as_str(),
            parents[i],
        ) {
            Ok(u) => {
                let ghost before = level_views(r@);
                let ghost uv = u@;
                r.push(u);
                assert(level_views(r@) =~= before.push(uv));
            },
            Err(e) => {
                proof {
                    lemma_level_plan_err(us, idx, drvs, *cx, srcs, parents@, ps, k + 1);
                }
                return Err(e);
            },
        }
        k = k + 1;
    }
    assert(ps.take(ps.len() as int) =~= ps);
    Ok(r)
}

fn add_level(dep_drv_map: &mut TextMap, level: &Vec<LevelUnit>)
    ensures
        final(dep_drv_map)@ == drvs_with(old(dep_drv_map)@, level_views(level@)),
{
    let ghost lv = level_views(level@);
    let mut k: usize = 0;
    while k < level.len()
        invariant
            k <= level@.len(),
            lv == level_views(level@),
            dep_drv_map@ == drvs_with(old(dep_drv_map)@, lv.take(k as int)),
        decreases level@.len() - k,
    {
        assert(lv.take(k + 1).drop_last() =~= lv.take(k as int));
        dep_drv_map.insert(level[k].unit_key.clone(), level[k].drv_path.clone());
        k = k + 1;
    }
    assert(lv.take(lv.len() as int) =~= lv);
}

proof fn lemma_drvs_with_known(
    us: Seq<UnitView>,
    idx: Map<Seq<char>, usize>,
    drvs: Map<Seq<char>, Seq<char>>,
    level: Seq<LevelView>,
)
    requires
        drvs_known(us, idx, drvs),
        forall|k: int|
            0 <= k < level.len() ==> idx.contains_key((#[trigger] level[k]).unit_key)
                && drv_sliceable(level[k].drv_path),
    ensures
        drvs_known(us, idx, drvs_with(drvs, level)),
    decreases level.len(),
{
    if level.len() > 0 {
        let t = level.drop_last();
        assert forall|k: int| 0 <= k < t.len() implies idx.contains_key((#[trigger] t[k]).unit_key)
            && drv_sliceable(t[k].drv_path) by {
            assert(t[k] == level[k]);
        }
        lemma_drvs_with_known(us, idx, drvs, t);
        assert(idx.contains_key(level[level.len() - 1].unit_key));
    }
}

proof fn lemma_unit_indexed(us: Seq<UnitView>, idx: Map<Seq<char>, usize>, i: int)
    requires
        indexes(idx, us),
        0 <= i < us.len(),
    ensures
        idx.contains_key(us[i].key),
{
    lemma_index_of(us, us[i].key);
    assert(idx.contains_key(us[i].key) || !idx.contains_key(us[i].key));
}

/// Plans all units, level by level. The paths are computed without a store, so
/// each level's paths are inputs of the next before anything is registered.
#[verifier::rlimit(50)]
#[verifier::spinoff_prover]
pub fn plan_derivations(
    units: &Vec<NixUnit>,
    levels: &Vec<Vec<usize>>,
    cx: &PlanContext,
    src_stores: &Vec<String>,
    parents: &Vec<bool>,
) -> (r: Result<Vec<Vec<LevelUnit>>, String>)
    requires
        filenames_ok(unit_views(units@)),
        forall|l: int| 0 <= l < levels@.len() ==> in_range((#[trigger] levels@[l])@, units@.len()),
        src_stores@.len() == units@.len(),
        parents@.len() == units@.len(),
    ensures
        match (
            r,
            levels_plan(
                unit_views(units@),
                unit_index(unit_views(units@)),
                *cx,
                views(src_stores@),
                parents@,
                all_positions(levels@),
            ),
        ) {
            (Ok(v), Ok(p)) => plan_views(v@) == p.0,
            (Err(e), Err(m)) => e@ == m,
            _ => false,
        },
        r matches Ok(v) ==> forall|l: int, k: int|
            0 <= l < v@.len() && 0 <= k < v@[l]@.len() ==> (#[trigger] v@[l]@[k]).i < units@.len(),
{
    let ghost us = unit_views(units@);
    let key_to_idx = key_index(units);
    let ghost idx = key_to_idx@;
    let count: usize = units.len();
    proof {
        assert(count == us.len());
        lemma_unit_index(idx, us);
    }
    let ghost srcs = views(src_stores@);
    let ghost ps = all_positions(levels@);
    let mut dep_drv_map = TextMap::new();
    let mut r: Vec<Vec<LevelUnit>> = Vec::new();
    let mut l: usize = 0;
    assert(plan_views(r@) =~= Seq::empty());
    assert(levels_plan(us, idx, *cx, srcs, parents@, ps.take(0)) == Ok::<
        (Seq<Seq<LevelView>>, Map<Seq<char>, Seq<char>>),
        Seq<char>,
    >((plan_views(r@), dep_drv_map@)));
    while l < levels.len()
        invariant
            l <= levels@.len(),
            r@.len() == l,
            us == unit_views(units@),
            idx == key_to_idx@,
            idx == unit_index(us),
            srcs == views(src_stores@),
            ps == all_positions(levels@),
            indexes(idx, us),
            drvs_known(us, idx, dep_drv_map@),
            filenames_ok(us),
            forall|x: int|
                0 <= x < levels@.len() ==> in_range((#[trigger] levels@[x])@, units@.len()),
            src_stores@.len() == units@.len(),
            parents@.len() == units@.len(),
            levels_plan(us, idx, *cx, srcs, parents@, ps.take(l as int)) == Ok::<
                (Seq<Seq<LevelView>>, Map<Seq<char>, Seq<char>>),
                Seq<char>,
            >((plan_views(r@), dep_drv_map@)),
            forall|x: int, k: int|
                0 <= x < r@.len() && 0 <= k < r@[x]@.len() ==> (#[trigger] r@[x]@[k]).i
                    < units@.len(),
        decreases levels@.len() - l,
    {
        assert(ps.take(l + 1).drop_last() =~= ps.take(l as int));
        assert(ps.take(l + 1).last() == positions(levels@[l as int]@));
        match plan_level(units, &levels[l], &key_to_idx, &dep_drv_map, cx, src_stores, parents) {
            Ok(level) => {
                let ghost lv = level_views(level@);
                let ghost before = plan_views(r@);
                let ghost drvs = dep_drv_map@;
                proof {
                    assert forall|k: int| 0 <= k < lv.len() implies idx.contains_key(
                        (#[trigger] lv[k]).unit_key,
                    ) && drv_sliceable(lv[k].drv_path) by {
                        let i = level@[k].i as int;
                        lemma_unit_indexed(us, idx, i);
                        assert(us[i] == units@[i]@);
                    }
                    lemma_drvs_with_known(us, idx, drvs, lv);
                }
                add_level(&mut dep_drv_map, &level);
                r.push(level);
                assert(plan_views(r@) =~= before.push(lv));
            },
            Err(e) => {
                proof {
                    lemma_levels_plan_err(us, idx, *cx, srcs, parents@, ps, l + 1);
                }
                return Err(e);
            },
        }
        l = l + 1;
    }
    assert(ps.take(ps.len() as int) =~= ps);
    Ok(r)
}

// ---------------------------------------------------------------------------
// Recording paths
// ---------------------------------------------------------------------------

/// A unit with the path of its derivation.
pub open spec fn with_drv_path(u: UnitView, path: Seq<char>) -> UnitView {
    UnitView { drv_path: Some(path), ..u }
}

/// The units with the paths of a level.
pub open spec fn with_level_paths(us: Seq<UnitView>, level: Seq<LevelView>) -> Seq<UnitView>
    decreases level.len(),
{
    if level.len() == 0 {
        us
    } else {
        let before = with_level_paths(us, level.drop_last());
        let l = level.last();
        before.update(l.i, with_drv_path(before[l.i], l.drv_path))
    }
}

/// The units with the paths of a plan.
pub open spec fn with_plan_paths(us: Seq<UnitView>, plan: Seq<Seq<LevelView>>) -> Seq<UnitView>
    decreases plan.len(),
{
    if plan.len() == 0 {
        us
    } else {
        with_level_paths(with_plan_paths(us, plan.drop_last()), plan.last())
    }
}

fn record_level_paths(units: &mut Vec<NixUnit>, level: &Vec<LevelUnit>)
    requires
        forall|k: int| 0 <= k < level@.len() ==> (#[trigger] level@[k]).i < old(units)@.len(),
    ensures
        unit_views(final(units)@) == with_level_paths(unit_views(old(units)@), level_views(level@)),
        final(units)@.len() == old(units)@.len(),
{
    let ghost start = unit_views(units@);
    let ghost lv = level_views(level@);
    let mut k: usize = 0;
    while k < level.len()
        invariant
            k <= level@.len(),
            lv == level_views(level@),
            units@.len() == start.len(),
            forall|m: int| 0 <= m < level@.len() ==> (#[trigger] level@[m]).i < units@.len(),
            unit_views(units@) == with_level_paths(start, lv.take(k as int)),
        decreases level@.len() - k,
    {
        assert(lv.take(k + 1).drop_last() =~= lv.take(k as int));
        let ghost before = unit_views(units@);
        let i: usize = level[k].i;
        let mut unit = units[i].clone();
        unit.drv_path = Some(level[k].drv_path.clone());
        let ghost after = with_drv_path(before[i as int], lv[k as int].drv_path);
        assert(unit@ =~= after);
        units.set(i, unit);
        assert(unit_views(units@) =~= before.update(i as int, after));
        k = k + 1;
    }
    assert(lv.take(lv.len() as int) =~= lv);
}

/// Gives every planned unit the path of its derivation.
pub fn record_drv_paths(units: &mut Vec<NixUnit>, plan: &Vec<Vec<LevelUnit>>)
    requires
        forall|l: int, k: int|
            0 <= l < plan@.len() && 0 <= k < plan@[l]@.len() ==> (#[trigger] plan@[l]@[k]).i
                < old(units)@.len(),
    ensures
        unit_views(final(units)@) == with_plan_paths(unit_views(old(units)@), plan_views(plan@)),
{
    let ghost start = unit_views(units@);
    let ghost pv = plan_views(plan@);
    let mut l: usize = 0;
    while l < plan.len()
        invariant
            l <= plan@.len(),
            pv == plan_views(plan@),
            units@.len() == start.len(),
            forall|x: int, k: int|
                0 <= x < plan@.len() && 0 <= k < plan@[x]@.len() ==> (#[trigger] plan@[x]@[k]).i
                    < units@.len(),
            unit_views(units@) == with_plan_paths(start, pv.take(l as int)),
        decreases plan@.len() - l,
    {
        assert(pv.take(l + 1).drop_last() =~= pv.take(l as int));
        assert forall|k: int| 0 <= k < plan@[l as int]@.len() implies (
            #[trigger] plan@[l as int]@[k]).i < units@.len() by {}
        record_level_paths(units, &plan[l]);
        l = l + 1;
    }
    assert(pv.take(pv.len() as int) =~= pv);
}

/// The path of a derivation with the name and kind of what it builds.
pub type RootDrv = (String, String, UnitKind);

/// What each root holds.
pub open spec fn root_views(v: Seq<RootDrv>) -> Seq<(Seq<char>, Seq<char>, UnitKind)> {
    Seq::new(v.len(), |i: int| (v[i].0@, v[i].1@, v[i].2))
}

/// The roots that have a derivation.
pub open spec fn planned_roots(us: Seq<UnitView>) -> Seq<(Seq<char>, Seq<char>, UnitKind)>
    decreases us.len(),
{
    if us.len() == 0 {
        Seq::empty()
    } else {
        let u = us.last();
        let before = planned_roots(us.drop_last());
        if u.is_root && u.drv_path is Some {
            before.push((u.drv_path->0, u.target_name, u.kind))
        } else {
            before
        }
    }
}

/// What a plan builds: its roots, or its last unit where it has none.
pub open spec fn build_roots(us: Seq<UnitView>) -> Result<
    Seq<(Seq<char>, Seq<char>, UnitKind)>,
    Seq<char>,
> {
    let roots = planned_roots(us);
    if roots.len() > 0 {
        Ok(roots)
    } else if us.len() > 0 && us.last().drv_path is Some {
        Ok(seq![(us.last().drv_path->0, us.last().crate_name, UnitKind::Compile)])
    } else {
        Err("No units to build"@)
    }
}

/// Collects what a plan builds.
pub fn collect_root_drvs(units: &Vec<NixUnit>) -> (r: Result<Vec<RootDrv>, String>)
    ensures
        match (r, build_roots(unit_views(units@))) {
            (Ok(v), Ok(roots)) => root_views(v@) == roots,
            (Err(e), Err(m)) => e@ == m,
            _ => false,
        },
{
    let ghost us = unit_views(units@);
    let mut r: Vec<RootDrv> = Vec::new();
    let mut i: usize = 0;
    assert(root_views(r@) =~= Seq::empty());
    while i < units.len()
        invariant
            i <= units@.len(),
            us == unit_views(units@),
            root_views(r@) == planned_roots(us.take(i as int)),
        decreases units@.len() - i,
    {
        assert(us.take(i + 1).drop_last() =~= us.take(i as int));
        assert(us.take(i + 1).last() == units@[i as int]@);
        if units[i].is_root {
            if let Some(path) = &units[i].drv_path {
                let ghost before = root_views(r@);
                r.push((path.clone(), units[i].target_name.clone(), units[i].kind));
                assert(root_views(r@) =~= before.push(
                    (path@, us[i as int].target_name, us[i as int].kind),
                ));
            }
        }
        i = i + 1;
    }
    assert(us.take(us.len() as int) =~= us);
    if r.len() > 0 {
        return Ok(r);
    }
    if units.len() > 0 {
        let last = &units[units.len() - 1];
        assert(us.last() == last@);
        if let Some(path) = &last.drv_path {
            r.push((path.clone(), last.crate_name.clone(), UnitKind::Compile));
            assert(root_views(r@) =~= seq![(path@, last.crate_name@, UnitKind::Compile)]);
            return Ok(r);
        }
    }
    Err(owned("No units to build"))
}

// ---------------------------------------------------------------------------
// Registering
// ---------------------------------------------------------------------------

/// The units of a level that are not registered yet.
pub open spec fn missing_units(level: Seq<LevelView>, valid: Seq<Seq<char>>) -> Seq<LevelView>
    decreases level.len(),
{
    if level.len() == 0 {
        Seq::empty()
    } else if valid.contains(level.last().drv_path) {
        missing_units(level.drop_last(), valid)
    } else {
        missing_units(level.drop_last(), valid).push(level.last())
    }
}

/// Leaves out the units of a level whose derivations are valid already.
pub fn cache_misses(level: Vec<LevelUnit>, valid: &Vec<String>) -> (r: Vec<LevelUnit>)
    ensures
        level_views(r@) == missing_units(level_views(level@), views(valid@)),
{
    let ghost all = level_views(level@);
    let ghost given = level@;
    let ghost vs = views(valid@);
    let mut kept: Vec<LevelUnit> = Vec::new();
    let mut back = reversed(level);
    assert(level_views(kept@) =~= missing_units(all.take(0), vs));
    let mut done: Ghost<nat> = Ghost(0);
    while back.len() > 0
        invariant
            all == level_views(given),
            vs == views(valid@),
            done@ + back@.len() == given.len(),
            forall|k: int|
                0 <= k < back@.len() ==> #[trigger] back@[k] == given[given.len() - 1 - k],
            level_views(kept@) == missing_units(all.take(done@ as int), vs),
        decreases back@.len(),
    {
        let ghost n = back@.len();
        let ghost k = done@ as int;
        assert(back@[n - 1] == given[given.len() - n]);
        assert(all.take(k + 1).drop_last() =~= all.take(k));
        assert(all.take(k + 1).last() == given[k]@);
        if let Some(u) = back.pop() {
            assert(u == given[k]);
            if !list_has(valid, u.drv_path.as_str()) {
                let ghost before = level_views(kept@);
                let ghost uv = u@;
                kept.push(u);
                assert(level_views(kept@) =~= before.push(uv));
            }
        }
        proof {
            done@ = done@ + 1;
        }
    }
    assert(all.take(all.len() as int) =~= all);
    kept
}

/// How many connections register derivations at once. Verifying paths is done
/// with one.
pub open spec fn jobs_of(verify: bool, cpus: usize, wanted: Option<usize>) -> usize {
    let n = match wanted {
        Some(w) => w,
        None => cpus,
    };
    if verify || n < 1 {
        1
    } else {
        n
    }
}

/// How many connections register derivations at once.
pub fn parallel_jobs(verify: bool, cpus: usize, wanted: Option<usize>) -> (r: usize)
    ensures
        r == jobs_of(verify, cpus, wanted),
{
    let n: usize = match wanted {
        Some(w) => w,
        None => cpus,
    };
    if verify || n < 1 {
        1
    } else {
        n
    }
}

/// The elements that fall to worker `c` of `n`.
pub open spec fn chunk_of<T>(v: Seq<T>, n: int, c: int) -> Seq<T>
    decreases v.len(),
{
    if v.len() == 0 {
        Seq::empty()
    } else if (v.len() - 1) % n == c {
        chunk_of(v.drop_last(), n, c).push(v.last())
    } else {
        chunk_of(v.drop_last(), n, c)
    }
}

/// Deals a list out to `n` workers in turn. Workers beyond the elements get none.
pub fn chunk_round_robin<T>(units: Vec<T>, n: usize) -> (r: Vec<Vec<T>>)
    requires
        n > 0 || units@.len() == 0,
    ensures
        r@.len() == n,
        forall|c: int| 0 <= c < n ==> (#[trigger] r@[c])@ == chunk_of(units@, n as int, c),
{
    let ghost given = units@;
    let mut back = reversed(units);
    let mut r: Vec<Vec<T>> = Vec::new();
    let mut c: usize = 0;
    while c < n
        invariant
            c <= n,
            r@.len() == c,
            forall|d: int| 0 <= d < c ==> (#[trigger] r@[d])@ == chunk_of(given.take(0), n as int, d),
        decreases n - c,
    {
        let empty: Vec<T> = Vec::new();
        assert(empty@ =~= chunk_of(given.take(0), n as int, c as int));
        r.push(empty);
        c = c + 1;
    }
    let total: usize = back.len();
    let mut i: usize = 0;
    while i < total
        invariant
            n > 0 || total == 0,
            i <= total,
            total == given.len(),
            i + back@.len() == total,
            r@.len() == n,
            forall|k: int|
                0 <= k < back@.len() ==> #[trigger] back@[k] == given[given.len() - 1 - k],
            forall|d: int|
                0 <= d < n ==> (#[trigger] r@[d])@ == chunk_of(given.take(i as int), n as int, d),
        decreases total - i,
    {
        let w: usize = i % n;
        assert(back@[back@.len() - 1] == given[i as int]);
        assert(given.take(i + 1).drop_last() =~= given.take(i as int));
        if let Some(u) = back.pop() {
            assert(u == given[i as int]);
            let ghost before = r@;
            r[w].push(u);
            assert forall|d: int| 0 <= d < n implies (#[trigger] r@[d])@ == chunk_of(
                given.take(i + 1),
                n as int,
                d,
            ) by {
                assert(before[d]@ == chunk_of(given.take(i as int), n as int, d));
            }
        }
        i = i + 1;
    }
    assert(given.take(given.len() as int) =~= given);
    r
}

/// What is said when the store gives a derivation another path.
pub open spec fn path_mismatch(unit: LevelView, observed: Seq<char>) -> Seq<char> {
    "Path mismatch for "@ + unit.unit_key + ":\n  computed: "@ + unit.drv_path + "\n  observed: "@
        + observed
}

/// Checks that the store gave a derivation the path that was computed.
pub fn ensure_path_match(observed: &str, unit: &LevelUnit) -> (r: Result<(), String>)
    ensures
        match r {
            Ok(_) => observed@ == unit.drv_path@,
            Err(e) => observed@ != unit.drv_path@ && e@ == path_mismatch(unit@, observed@),
        },
{
    if same(observed, unit.drv_path.as_str()) {
        return Ok(());
    }
    let mut e = owned("Path mismatch for ");
    e.append(unit.unit_key.as_str());
    e.append(":\n  computed: ");
    e.append(unit.drv_path.as_str());
    e.append("\n  observed: ");
    e.append(observed);
    Err(e)
}

/// What is said when verifying finds another path.
pub open spec fn verify_mismatch_seq(
    unit: LevelView,
    nix_path: Seq<char>,
    aterm_matches: bool,
) -> Seq<char> {
    "Derivation path mismatch for "@ + unit.unit_key + ":\n  computed: "@ + unit.drv_path
        + "\n  nix:      "@ + nix_path + "\n  aterm matches .drv content: "@ + (if aterm_matches {
        "true"@
    } else {
        "false"@
    })
}

/// Checks a computed path against the one that Nix gave, where `content` is what
/// the file there holds.
pub fn verify_path(unit: &LevelUnit, nix_path: &str, content: &Vec<u8>) -> (r: Result<(), String>)
    ensures
        match r {
            Ok(_) => nix_path@ == unit.drv_path@,
            Err(e) => nix_path@ != unit.drv_path@ && e@ == verify_mismatch_seq(
                unit@,
                nix_path@,
                content@ == unit.aterm@,
            ),
        },
{
    if same(nix_path, unit.drv_path.as_str()) {
        return Ok(());
    }
    let mut equal = content.len() == unit.aterm.len();
    let mut i: usize = 0;
    while equal && i < content.len()
        invariant
            i <= content@.len(),
            equal ==> content@.len() == unit.aterm@.len() && forall|k: int|
                0 <= k < i ==> content@[k] == unit.aterm@[k],
            !equal ==> content@ != unit.aterm@,
        decreases content@.len() - i + if equal {
            1int
        } else {
            0
        },
    {
        if content[i] == unit.aterm[i] {
            i = i + 1;
        } else {
            equal = false;
        }
    }
    assert(equal ==> content@ =~= unit.aterm@);
    let mut e = owned("Derivation path mismatch for ");
    e.append(unit.unit_key.as_str());
    e.append(":\n  computed: ");
    e.append(unit.drv_path.as_str());
    e.append("\n  nix:      ");
    e.append(nix_path);
    e.append("\n  aterm matches .drv content: ");
    e.append(
        if equal {
            "true"
        } else {
            "false"
        },
    );
    Err(e)
}

/// What registering a unit does next.
pub enum RegisterAction {
    /// Add it over the connection at hand.
    UseConnection,
    /// Open a new connection.
    Reconnect,
    /// Add it over the new connection.
    UseNewConnection,
    /// Add it with the command line tool, with no connection from here on.
    UseCli,
    /// Done: the path, and whether to keep the new connection.
    Finish(String, bool),
    /// Failed: the message, and the cause if there is another.
    Abort(String, Option<String>),
}

/// What came of the last action.
pub enum RegisterEvent {
    /// The unit was added at a path.
    Added(String),
    /// A connection was opened.
    Connected,
    /// The action failed.
    Failed(String),
}

/// The first action: the connection at hand if there is one.
pub fn register_start(connected: bool) -> (r: RegisterAction)
    ensures
        r == (if connected {
            RegisterAction::UseConnection
        } else {
            RegisterAction::UseCli
        }),
{
    if connected {
        RegisterAction::UseConnection
    } else {
        RegisterAction::UseCli
    }
}

/// What is said when the command line tool fails.
pub open spec fn add_failed(unit: LevelView) -> Seq<char> {
    "Failed to add derivation for "@ + unit.unit_key
}

/// What follows an action and what came of it. One failure of a connection leads
/// to a new one, a second to the command line tool.
pub open spec fn registers(
    unit: LevelView,
    action: RegisterAction,
    event: RegisterEvent,
    next: RegisterAction,
) -> bool {
    match (action, event) {
        (RegisterAction::UseConnection, RegisterEvent::Failed(_)) => next
            == RegisterAction::Reconnect,
        (RegisterAction::Reconnect, RegisterEvent::Connected) => next
            == RegisterAction::UseNewConnection,
        (RegisterAction::Reconnect, RegisterEvent::Failed(_)) => next == RegisterAction::UseCli,
        (RegisterAction::UseNewConnection, RegisterEvent::Failed(_)) => next
            == RegisterAction::UseCli,
        (RegisterAction::UseCli, RegisterEvent::Failed(cause)) => match next {
            RegisterAction::Abort(e, c) => e@ == add_failed(unit) && opt_view(c) == Some(cause@),
            _ => false,
        },
        (_, RegisterEvent::Added(path)) => match next {
            RegisterAction::Finish(p, keep) => path@ == unit.drv_path && p@ == path@ && keep == (
            action is UseNewConnection),
            RegisterAction::Abort(e, c) => path@ != unit.drv_path && e@ == path_mismatch(
                unit,
                path@,
            ) && c is None,
            _ => false,
        },
        _ => next == RegisterAction::UseCli,
    }
}

/// Decides what follows an action and what came of it.
pub fn register_next(unit: &LevelUnit, action: &RegisterAction, event: RegisterEvent) -> (r:
    RegisterAction)
    requires
        !(action is Finish) && !(action is Abort),
    ensures
        registers(unit@, *action, event, r),
{
    match event {
        RegisterEvent::Added(path) => match ensure_path_match(path.as_str(), unit) {
            Ok(_) => {
                let keep = match action {
                    RegisterAction::UseNewConnection => true,
                    _ => false,
                };
                RegisterAction::Finish(path, keep)
            },
            Err(e) => RegisterAction::Abort(e, None),
        },
        RegisterEvent::Connected => match action {
            RegisterAction::Reconnect => RegisterAction::UseNewConnection,
            _ => RegisterAction::UseCli,
        },
        RegisterEvent::Failed(cause) => match action {
            RegisterAction::UseConnection => RegisterAction::Reconnect,
            RegisterAction::UseCli => {
                let e = concat2("Failed to add derivation for ", unit.unit_key.as_str());
                RegisterAction::Abort(e, Some(cause))
            },
            _ => RegisterAction::UseCli,
        },
    }
}

// ---------------------------------------------------------------------------
// Laws
// ---------------------------------------------------------------------------

/// A unit is registered at the path that was computed for it or not at all.
pub proof fn law_registered_at_computed_path(
    unit: LevelView,
    action: RegisterAction,
    event: RegisterEvent,
    path: String,
    keep: bool,
)
    requires
        !(action is Finish) && !(action is Abort),
        registers(unit, action, event, RegisterAction::Finish(path, keep)),
    ensures
        path@ == unit.drv_path,
        event is Added,
{
}

/// What is left to register of a level are exactly the units whose derivations are not
/// valid yet, each as often as it is given, in the order of the level.
pub proof fn law_registers_what_is_not_valid(level: Seq<LevelView>, valid: Seq<Seq<char>>)
    ensures
        missing_units(level, valid) == level.filter(|u: LevelView| !valid.contains(u.drv_path)),
        forall|u: LevelView| #[trigger]
            missing_units(level, valid).contains(u) <==> level.contains(u) && !valid.contains(
                u.drv_path,
            ),
    decreases level.len(),
{
    let left = |u: LevelView| !valid.contains(u.drv_path);
    let r = missing_units(level, valid);
    reveal_with_fuel(Seq::filter, 2);
    if level.len() > 0 {
        let rest = level.drop_last();
        law_registers_what_is_not_valid(rest, valid);
        let before = missing_units(rest, valid);
        assert forall|u: LevelView| #[trigger] r.contains(u) <==> level.contains(u)
            && !valid.contains(u.drv_path) by {
            if r.contains(u) {
                let k = choose|k: int| 0 <= k < r.len() && r[k] == u;
                if k < before.len() {
                    assert(before[k] == u);
                    assert(before.contains(u));
                    let j = choose|j: int| 0 <= j < rest.len() && rest[j] == u;
                    assert(level[j] == u);
                } else {
                    assert(level[level.len() - 1] == u);
                }
            }
            if level.contains(u) && left(u) {
                let j = choose|j: int| 0 <= j < level.len() && level[j] == u;
                if j < rest.len() {
                    assert(rest[j] == u);
                    assert(rest.contains(u));
                    assert(before.contains(u));
                    let k = choose|k: int| 0 <= k < before.len() && before[k] == u;
                    assert(r[k] == u);
                } else {
                    assert(r[r.len() - 1] == u);
                }
            }
        }
    }
}

/// Every element falls to exactly one worker, and the workers' loads differ by at
/// most one.
pub proof fn law_round_robin_fair<T>(v: Seq<T>, n: int, a: int, b: int)
    requires
        0 <= a < n,
        0 <= b < n,
    ensures
        chunk_of(v, n, a).len() == (v.len() + n - 1 - a) / n,
        -1 <= chunk_of(v, n, a).len() - chunk_of(v, n, b).len() <= 1,
{
    lemma_chunk_len(v, n, a);
    lemma_chunk_len(v, n, b);
    let x = v.len() + n - 1 - a;
    let y = v.len() + n - 1 - b;
    assert(-1 <= x / n - y / n <= 1) by (nonlinear_arith)
        requires
            n > 0,
            -n < x - y < n,
    ;
}

proof fn lemma_chunk_len<T>(v: Seq<T>, n: int, c: int)
    requires
        0 <= c < n,
    ensures
        chunk_of(v, n, c).len() == (v.len() + n - 1 - c) / n,
    decreases v.len(),
{
    let m = v.len() as int;
    if m == 0 {
        assert((n - 1 - c) / n == 0) by (nonlinear_arith)
            requires
                0 <= c < n,
        ;
    } else {
        lemma_chunk_len(v.drop_last(), n, c);
        let k = m - 1;
        if k % n == c {
            assert((k + n - c) / n == (k + n - 1 - c) / n + 1) by (nonlinear_arith)
                requires
                    0 <= c < n,
                    k % n == c,
                    k >= 0,
            ;
        } else {
            assert((k + n - c) / n == (k + n - 1 - c) / n) by (nonlinear_arith)
                requires
                    0 <= c < n,
                    k % n != c,
                    k >= 0,
            ;
        }
    }
}

/// The plan of the lower levels does not depend on the levels above them.
pub proof fn law_lower_levels_first(
    us: Seq<UnitView>,
    idx: Map<Seq<char>, usize>,
    cx: PlanContext,
    src_stores: Seq<Seq<char>>,
    parents: Seq<bool>,
    levels: Seq<Seq<int>>,
    n: int,
)
    requires
        0 <= n <= levels.len(),
        levels_plan(us, idx, cx, src_stores, parents, levels) is Ok,
    ensures
        levels_plan(us, idx, cx, src_stores, parents, levels.take(n)) is Ok,
        levels_plan(us, idx, cx, src_stores, parents, levels)->Ok_0.0.take(n) == levels_plan(
            us,
            idx,
            cx,
            src_stores,
            parents,
            levels.take(n),
        )->Ok_0.0,
        levels_plan(us, idx, cx, src_stores, parents, levels)->Ok_0.0.len() == levels.len(),
    decreases levels.len() - n,
{
    lemma_plan_len(us, idx, cx, src_stores, parents, levels);
    let all = levels_plan(us, idx, cx, src_stores, parents, levels)->Ok_0.0;
    if n == levels.len() {
        assert(levels.take(n) =~= levels);
        assert(all.take(n) =~= all);
    } else {
        law_lower_levels_first(us, idx, cx, src_stores, parents, levels, n + 1);
        assert(levels.take(n + 1).drop_last() =~= levels.take(n));
        let upper = levels_plan(us, idx, cx, src_stores, parents, levels.take(n + 1))->Ok_0.0;
        let lower = levels_plan(us, idx, cx, src_stores, parents, levels.take(n))->Ok_0.0;
        assert(levels_plan(us, idx, cx, src_stores, parents, levels.take(n)) is Ok);
        lemma_plan_len(us, idx, cx, src_stores, parents, levels.take(n));
        assert(upper.drop_last() =~= lower);
        assert(all.take(n) =~= all.take(n + 1).drop_last());
    }
}

proof fn lemma_plan_len(
    us: Seq<UnitView>,
    idx: Map<Seq<char>, usize>,
    cx: PlanContext,
    src_stores: Seq<Seq<char>>,
    parents: Seq<bool>,
    levels: Seq<Seq<int>>,
)
    requires
        levels_plan(us, idx, cx, src_stores, parents, levels) is Ok,
    ensures
        levels_plan(us, idx, cx, src_stores, parents, levels)->Ok_0.0.len() == levels.len(),
    decreases levels.len(),
{
    if levels.len() > 0 {
        lemma_plan_len(us, idx, cx, src_stores, parents, levels.drop_last());
    }
}

} // verus!
