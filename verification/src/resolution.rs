//! Declared feature-resolution scopes and the choice of roots within them.
use crate::graph::{
    append_opt, append_strings, clone_seconds, firsts, index_of, indexes, key_index, lemma_index_of,
    names_unit, opt_seq, resolve_keys, resolved, seconds,
};
use crate::text::{clone_strings, join, join_seq, owned, sorted_set, sorted_unique, views};
use crate::units::{find_pair, list_has, pair_lookup, unit_views, NixUnit, UnitView};
use vstd::prelude::*;

verus! {

/// The package selection cargo resolves features over, independent of which
/// packages the caller asked to build.
#[derive(Debug, Clone, PartialEq, Eq)]
pub enum ResolutionSpec {
    /// Every workspace member.
    Workspace,
    /// A hand-picked member list; what is excluded has been taken out.
    Packages(Vec<String>),
    /// Every workspace member bar the listed ones.
    Exclude(Vec<String>),
}

/// What a selection holds.
pub enum SpecView {
    Workspace,
    Packages(Seq<Seq<char>>),
    Exclude(Seq<Seq<char>>),
}

impl View for ResolutionSpec {
    type V = SpecView;

    open spec fn view(&self) -> SpecView {
        match self {
            ResolutionSpec::Workspace => SpecView::Workspace,
            ResolutionSpec::Packages(p) => SpecView::Packages(views(p@)),
            ResolutionSpec::Exclude(e) => SpecView::Exclude(views(e@)),
        }
    }
}

/// The textual form of a selection.
pub open spec fn spec_component(s: SpecView) -> Seq<char> {
    match s {
        SpecView::Workspace => "workspace"@,
        SpecView::Packages(p) => "packages="@ + join_seq(p, ","@),
        SpecView::Exclude(e) => "exclude="@ + join_seq(e, ","@),
    }
}

impl ResolutionSpec {
    /// Stable textual form of the selection, which feeds the unit-graph cache
    /// key.
    pub fn cache_component(&self) -> (r: String)
        ensures
            r@ == spec_component(self@),
    {
        match self {
            ResolutionSpec::Workspace => owned("workspace"),
            ResolutionSpec::Packages(p) => {
                let mut r = owned("packages=");
                let j = join(p, ",");
                r.append(j.as_str());
                r
            },
            ResolutionSpec::Exclude(e) => {
                let mut r = owned("exclude=");
                let j = join(e, ",");
                r.append(j.as_str());
                r
            },
        }
    }
}

/// A resolution scope together with the manifest key it was read from.
#[derive(Debug, Clone, PartialEq, Eq)]
pub struct ResolutionScope {
    pub key: String,
    pub spec: ResolutionSpec,
}

/// The manifest path of a scope.
pub open spec fn scope_manifest_key(key: Seq<char>) -> Seq<char> {
    "workspace.metadata.schnee.resolution."@ + key
}

impl ResolutionScope {
    /// The manifest path that every diagnostic about the scope points at.
    pub fn manifest_key(&self) -> (r: String)
        ensures
            r@ == scope_manifest_key(self.key@),
    {
        let mut r = owned("workspace.metadata.schnee.resolution.");
        r.append(self.key.as_str());
        r
    }

    /// Cache-key component: the requested key and the selection it resolved to.
    pub fn cache_component(&self) -> (r: String)
        ensures
            r@ == "scope:"@ + self.key@ + ":"@ + spec_component(self.spec@),
    {
        let mut r = owned("scope:");
        r.append(self.key.as_str());
        r.append(":");
        let c = self.spec.cache_component();
        r.append(c.as_str());
        r
    }
}

// ---------------------------------------------------------------------------
// The choice of roots
// ---------------------------------------------------------------------------

/// The package a unit belongs to.
pub open spec fn package_name(u: UnitView) -> Seq<char> {
    match pair_lookup(u.cargo_envs, "CARGO_PKG_NAME"@) {
        Some(v) => v,
        None => ""@,
    }
}

/// The package a unit belongs to, from the variable that every unit carries.
pub fn unit_package_name<'a>(unit: &'a NixUnit) -> (r: &'a str)
    ensures
        r@ == package_name(unit@),
{
    match find_pair(&unit.cargo_envs, "CARGO_PKG_NAME") {
        Some(v) => v.as_str(),
        None => "",
    }
}

/// The elements of a list that do not stand in another.
pub open spec fn without(v: Seq<Seq<char>>, exclude: Seq<Seq<char>>) -> Seq<Seq<char>>
    decreases v.len(),
{
    if v.len() == 0 {
        Seq::empty()
    } else if exclude.contains(v.last()) {
        without(v.drop_last(), exclude)
    } else {
        without(v.drop_last(), exclude).push(v.last())
    }
}

/// Takes the strings of one list out of another.
pub fn subtract(v: &Vec<String>, exclude: &Vec<String>) -> (r: Vec<String>)
    ensures
        views(r@) == without(views(v@), views(exclude@)),
{
    let ghost vs = views(v@);
    let mut r: Vec<String> = Vec::new();
    let mut i: usize = 0;
    assert(views(r@) =~= without(vs.take(0), views(exclude@)));
    while i < v.len()
        invariant
            i <= v@.len(),
            vs == views(v@),
            views(r@) == without(vs.take(i as int), views(exclude@)),
        decreases v@.len() - i,
    {
        assert(vs.take(i + 1).drop_last() =~= vs.take(i as int));
        if !list_has(exclude, v[i].as_str()) {
            let ghost before = views(r@);
            r.push(v[i].clone());
            assert(views(r@) =~= before.push(vs[i as int]));
        }
        i = i + 1;
    }
    assert(vs.take(v@.len() as int) =~= vs);
    r
}

/// The packages of the roots, in unit order.
pub open spec fn root_names(us: Seq<UnitView>) -> Seq<Seq<char>>
    decreases us.len(),
{
    if us.len() == 0 {
        Seq::empty()
    } else if us.last().is_root {
        root_names(us.drop_last()).push(package_name(us.last()))
    } else {
        root_names(us.drop_last())
    }
}

fn collect_root_names(units: &Vec<NixUnit>) -> (r: Vec<String>)
    ensures
        views(r@) == root_names(unit_views(units@)),
{
    let ghost us = unit_views(units@);
    let mut r: Vec<String> = Vec::new();
    let mut i: usize = 0;
    assert(views(r@) =~= root_names(us.take(0)));
    while i < units.len()
        invariant
            i <= units@.len(),
            us == unit_views(units@),
            views(r@) == root_names(us.take(i as int)),
        decreases units@.len() - i,
    {
        assert(us.take(i + 1).drop_last() =~= us.take(i as int));
        if units[i].is_root {
            let ghost before = views(r@);
            r.push(owned(unit_package_name(&units[i])));
            assert(views(r@) =~= before.push(package_name(us[i as int])));
        }
        i = i + 1;
    }
    assert(us.take(units@.len() as int) =~= us);
    r
}

/// Whether a root survives the request: it belongs to a requested package or,
/// where none is named, to none that is excluded.
pub open spec fn keeps_root(
    u: UnitView,
    packages: Seq<Seq<char>>,
    exclude: Seq<Seq<char>>,
) -> bool {
    u.is_root && (if packages.len() == 0 {
        !exclude.contains(package_name(u))
    } else {
        without(packages, exclude).contains(package_name(u))
    })
}

/// For each unit whether it is a root that survives.
pub open spec fn surviving_roots(
    us: Seq<UnitView>,
    packages: Seq<Seq<char>>,
    exclude: Seq<Seq<char>>,
) -> Seq<bool> {
    Seq::new(us.len(), |i: int| keeps_root(us[i], packages, exclude))
}

/// The keys of all units that a unit needs: direct and transitive dependencies,
/// its build script and what that is linked to.
pub open spec fn needed_keys(u: UnitView) -> Seq<Seq<char>> {
    seconds(u.dep_extern) + u.all_dep_keys + opt_seq(u.build_script_dep) + opt_seq(
        u.build_script_compile_key,
    )
}

/// Unit `i` needs unit `j`.
pub open spec fn needs(us: Seq<UnitView>, i: int, j: int) -> bool {
    names_unit(us, needed_keys(us[i]), j) || names_unit(us, firsts(us[i].links_dep_keys), j)
}

/// A way from a root along what units need.
pub open spec fn is_path(us: Seq<UnitView>, roots: Seq<bool>, path: Seq<int>) -> bool {
    &&& path.len() > 0
    &&& forall|p: int| 0 <= p < path.len() ==> 0 <= #[trigger] path[p] < us.len()
    &&& roots[path[0]]
    &&& forall|p: int| 0 < p < path.len() ==> needs(us, path[p - 1], #[trigger] path[p])
}

/// A surviving root needs unit `i`, itself or through others.
pub open spec fn reachable(us: Seq<UnitView>, roots: Seq<bool>, i: int) -> bool {
    exists|path: Seq<int>| is_path(us, roots, path) && #[trigger] path.last() == i
}

/// The links dependency `k` of a unit names no unit, and none before it does so.
pub open spec fn first_dangling(us: Seq<UnitView>, i: int, k: int) -> bool {
    &&& 0 <= i < us.len()
    &&& 0 <= k < us[i].links_dep_keys.len()
    &&& index_of(us, us[i].links_dep_keys[k].0) is None
    &&& forall|m: int| 0 <= m < k ==> index_of(us, (#[trigger] us[i].links_dep_keys[m]).0) is Some
}

/// Some unit that would be kept has a links dependency on no unit.
pub open spec fn has_dangling(us: Seq<UnitView>, roots: Seq<bool>) -> bool {
    exists|i: int, k: int| reachable(us, roots, i) && #[trigger] first_dangling(us, i, k)
}

/// The message for a links dependency on no unit.
pub open spec fn dangling_message(u: UnitView, k: int) -> Seq<char> {
    "unit "@ + u.key + " declares a links dependency on `"@ + u.links_dep_keys[k].1 + "` (key "@
        + u.links_dep_keys[k].0
        + ") that is not in the plan; pruning it would strip the build script's DEP_* environment"@
}

/// The message for a request that excludes all it names.
pub open spec fn all_excluded_message(
    packages: Seq<Seq<char>>,
    exclude: Seq<Seq<char>>,
) -> Seq<char> {
    "every requested package is also excluded: -p "@ + join_seq(packages, ", "@)
        + " with --exclude "@ + join_seq(exclude, ", "@) + " selects nothing to build"@
}

/// The message for a requested package outside the scope.
pub open spec fn outside_scope_message(
    us: Seq<UnitView>,
    package: Seq<char>,
    scope_key: Seq<char>,
) -> Seq<char> {
    "package `"@ + package + "` is not in the resolution scope declared at "@ + scope_manifest_key(
        scope_key,
    ) + ". Scope roots: "@ + join_seq(sorted_set(root_names(us)), ", "@)
}

/// The first requested package that no root belongs to.
pub open spec fn first_outside(us: Seq<UnitView>, requested: Seq<Seq<char>>, i: int) -> bool {
    &&& 0 <= i < requested.len()
    &&& !root_names(us).contains(requested[i])
    &&& forall|j: int| 0 <= j < i ==> root_names(us).contains(#[trigger] requested[j])
}

/// The units among the first `n` that a surviving root needs, with the roots
/// marked anew.
pub open spec fn kept_units(us: Seq<UnitView>, roots: Seq<bool>, n: nat) -> Seq<UnitView>
    decreases n,
{
    if n == 0 {
        Seq::empty()
    } else if reachable(us, roots, n - 1) {
        kept_units(us, roots, (n - 1) as nat).push(
            UnitView { is_root: roots[n - 1], ..us[n - 1] },
        )
    } else {
        kept_units(us, roots, (n - 1) as nat)
    }
}

/// What narrowing returns for each request.
pub open spec fn narrowed(
    us: Seq<UnitView>,
    packages: Seq<Seq<char>>,
    exclude: Seq<Seq<char>>,
    scope_key: Seq<char>,
    r: Result<Seq<UnitView>, Seq<char>>,
) -> bool {
    let requested = without(packages, exclude);
    let roots = surviving_roots(us, packages, exclude);
    if packages.len() == 0 && exclude.len() == 0 {
        r == Ok::<Seq<UnitView>, Seq<char>>(us)
    } else if requested.len() == 0 && packages.len() > 0 {
        r == Err::<Seq<UnitView>, Seq<char>>(all_excluded_message(packages, exclude))
    } else if exists|i: int| first_outside(us, requested, i) {
        exists|i: int|
            first_outside(us, requested, i) && r == Err::<Seq<UnitView>, Seq<char>>(
                outside_scope_message(us, #[trigger] requested[i], scope_key),
            )
    } else if has_dangling(us, roots) {
        exists|i: int, k: int|
            reachable(us, roots, i) && #[trigger] first_dangling(us, i, k) && r == Err::<
                Seq<UnitView>,
                Seq<char>,
            >(dangling_message(us[i], k))
    } else {
        r == Ok::<Seq<UnitView>, Seq<char>>(kept_units(us, roots, us.len()))
    }
}

/// What a function that returns units returned.
pub open spec fn units_result(r: Result<Vec<NixUnit>, String>) -> Result<Seq<UnitView>, Seq<char>> {
    match r {
        Ok(v) => Ok(unit_views(v@)),
        Err(e) => Err(e@),
    }
}

fn unit_needed_keys(u: &NixUnit) -> (r: Vec<String>)
    ensures
        views(r@) == needed_keys(u@),
{
    let mut r = clone_seconds(&u.dep_extern);
    append_strings(&mut r, clone_strings(&u.all_dep_keys));
    append_opt(&mut r, &u.build_script_dep);
    append_opt(&mut r, &u.build_script_compile_key);
    r
}

spec fn unvisited(v: Seq<bool>) -> nat
    decreases v.len(),
{
    if v.len() == 0 {
        0
    } else {
        unvisited(v.drop_last()) + (if v.last() {
            0nat
        } else {
            1nat
        })
    }
}

proof fn lemma_unvisited_update(v: Seq<bool>, i: int)
    requires
        0 <= i < v.len(),
        !v[i],
    ensures
        unvisited(v.update(i, true)) + 1 == unvisited(v),
    decreases v.len(),
{
    if i == v.len() - 1 {
        assert(v.update(i, true).drop_last() =~= v.drop_last());
    } else {
        assert(v.update(i, true).drop_last() =~= v.drop_last().update(i, true));
        lemma_unvisited_update(v.drop_last(), i);
    }
}

proof fn lemma_reach_step(us: Seq<UnitView>, roots: Seq<bool>, i: int, j: int)
    requires
        reachable(us, roots, i),
        needs(us, i, j),
        0 <= j < us.len(),
    ensures
        reachable(us, roots, j),
{
    let path = choose|path: Seq<int>| is_path(us, roots, path) && #[trigger] path.last() == i;
    let longer = path.push(j);
    assert forall|p: int| 0 < p < longer.len() implies needs(us, longer[p - 1], #[trigger] longer[p]) by {
        if p < path.len() {
            assert(needs(us, path[p - 1], path[p]));
        }
    }
    assert(is_path(us, roots, longer));
    assert(longer.last() == j);
}

proof fn lemma_closed_has_path(
    us: Seq<UnitView>,
    roots: Seq<bool>,
    visited: Seq<bool>,
    path: Seq<int>,
    p: int,
)
    requires
        visited.len() == us.len(),
        forall|i: int| 0 <= i < us.len() && roots[i] ==> #[trigger] visited[i],
        forall|i: int, j: int|
            0 <= i < us.len() && 0 <= j < us.len() && visited[i] && #[trigger] needs(us, i, j)
                ==> visited[j],
        is_path(us, roots, path),
        0 <= p < path.len(),
    ensures
        visited[path[p]],
    decreases p,
{
    if p > 0 {
        lemma_closed_has_path(us, roots, visited, path, p - 1);
        assert(needs(us, path[p - 1], path[p]));
    }
}

/// What holds of a walk along what units need.
spec fn walk_state(
    us: Seq<UnitView>,
    roots: Seq<bool>,
    visited: Seq<bool>,
    stack: Seq<usize>,
) -> bool {
    &&& visited.len() == us.len()
    &&& roots.len() == us.len()
    &&& forall|x: int| 0 <= x < stack.len() ==> (#[trigger] stack[x]) < us.len() && reachable(
        us,
        roots,
        stack[x] as int,
    )
    &&& forall|i: int| 0 <= i < us.len() && #[trigger] visited[i] ==> reachable(us, roots, i)
    &&& forall|i: int|
        0 <= i < us.len() && #[trigger] roots[i] ==> visited[i] || stack.contains(i as usize)
    &&& forall|i: int, j: int|
        0 <= i < us.len() && 0 <= j < us.len() && visited[i] && #[trigger] needs(us, i, j) ==> visited[j]
            || stack.contains(j as usize)
    &&& forall|i: int, k: int| 0 <= i < us.len() && visited[i] ==> !#[trigger] first_dangling(us, i, k)
}

fn dangling_text(u: &NixUnit, k: usize) -> (r: String)
    requires
        k < u.links_dep_keys@.len(),
    ensures
        r@ == dangling_message(u@, k as int),
{
    let mut r = owned("unit ");
    r.append(u.key.as_str());
    r.append(" declares a links dependency on `");
    r.append(u.links_dep_keys[k].1.as_str());
    r.append("` (key ");
    r.append(u.links_dep_keys[k].0.as_str());
    r.append(
        ") that is not in the plan; pruning it would strip the build script's DEP_* environment",
    );
    r
}

/// Walks from the roots along what units need. Returns for each unit whether it
/// was reached.
fn walk(units: &Vec<NixUnit>, roots: &Vec<bool>) -> (r: Result<Vec<bool>, String>)
    requires
        roots@.len() == units@.len(),
    ensures
        match r {
            Ok(v) => !has_dangling(unit_views(units@), roots@) && v@.len() == units@.len()
                && forall|i: int|
                0 <= i < v@.len() ==> #[trigger] v@[i] == reachable(unit_views(units@), roots@, i),
            Err(e) => has_dangling(unit_views(units@), roots@) && exists|i: int, k: int|
                reachable(unit_views(units@), roots@, i) && #[trigger] first_dangling(
                    unit_views(units@),
                    i,
                    k,
                ) && e@ == dangling_message(unit_views(units@)[i], k),
        },
{
    let ghost us = unit_views(units@);
    let n: usize = units.len();
    assert(us.len() == n);
    let index = key_index(units);
    let mut visited: Vec<bool> = Vec::new();
    let mut stack: Vec<usize> = Vec::new();
    let mut i: usize = 0;
    while i < n
        invariant
            i <= n,
            n == us.len(),
            roots@.len() == n,
            visited@.len() == i,
            forall|j: int| 0 <= j < i ==> #[trigger] visited@[j] == false,
            forall|x: int| 0 <= x < stack@.len() ==> (#[trigger] stack@[x]) < n && roots@[stack@[x] as int],
            forall|j: int| 0 <= j < i && #[trigger] roots@[j] ==> stack@.contains(j as usize),
        decreases n - i,
    {
        visited.push(false);
        if roots[i] {
            let ghost before = stack@;
            stack.push(i);
            proof {
                assert forall|j: int| 0 <= j < i + 1 && #[trigger] roots@[j] implies stack@.contains(
                    j as usize,
                ) by {
                    if j < i {
                        let x = choose|x: int| 0 <= x < before.len() && before[x] == j as usize;
                        assert(stack@[x] == j as usize);
                    } else {
                        assert(stack@[before.len() as int] == j as usize);
                    }
                }
            }
        }
        i = i + 1;
    }
    proof {
        assert forall|x: int| 0 <= x < stack@.len() implies (#[trigger] stack@[x]) < us.len()
            && reachable(us, roots@, stack@[x] as int) by {
            let path = seq![stack@[x] as int];
            assert(is_path(us, roots@, path));
            assert(path.last() == stack@[x] as int);
        }
    }
    while stack.len() > 0
        invariant
            n == us.len(),
            us == unit_views(units@),
            indexes(index@, us),
            walk_state(us, roots@, visited@, stack@),
        decreases unvisited(visited@), stack@.len(),
    {
        let ghost stack0 = stack@;
        let ghost visited0 = visited@;
        let idx: usize = match stack.pop() {
            Some(x) => x,
            None => {
                assert(false);
                0
            },
        };
        assert(idx == stack0[stack0.len() - 1]);
        assert(stack0 =~= stack@.push(idx));
        if visited[idx] {
            proof {
                assert forall|x: int| stack0.contains(#[trigger] (x as usize)) && 0 <= x < n && !visited@[x] implies stack@.contains(
                    x as usize,
                ) by {
                    let y = choose|y: int| 0 <= y < stack0.len() && stack0[y] == x as usize;
                    assert(stack@[y] == x as usize);
                }
                assert forall|x: int| 0 <= x < stack@.len() implies (#[trigger] stack@[x])
                    < us.len() && reachable(us, roots@, stack@[x] as int) by {
                    assert(stack0[x] == stack@[x]);
                }
                assert forall|i: int| 0 <= i < us.len() && #[trigger] roots@[i] implies visited@[i]
                    || stack@.contains(i as usize) by {
                    if !visited@[i] {
                        assert(stack0.contains(i as usize));
                    }
                }
                assert forall|i: int, j: int|
                    0 <= i < us.len() && 0 <= j < us.len() && visited@[i] && #[trigger] needs(us, i, j) implies visited@[j]
                    || stack@.contains(j as usize) by {
                    if !visited@[j] {
                        assert(stack0.contains(j as usize));
                    }
                }
            }
            continue;
        }
        proof {
            lemma_unvisited_update(visited@, idx as int);
        }
        visited.set(idx, true);
        let ghost u = us[idx as int];
        let ghost rest = stack@;
        assert(reachable(us, roots@, idx as int));
        let keys = unit_needed_keys(&units[idx]);
        let mut found = resolve_keys(&index, &keys, Ghost(us));
        let ghost f = found@;
        assert(resolved(us, needed_keys(u), f));
        stack.append(&mut found);
        assert(stack@ =~= rest + f);
        let ghost mid = stack@;
        proof {
            assert forall|x: int| 0 <= x < mid.len() implies (#[trigger] mid[x]) < us.len()
                && reachable(us, roots@, mid[x] as int) by {
                if x < rest.len() {
                    assert(stack0[x] == mid[x]);
                } else {
                    assert(f[x - rest.len()] == mid[x]);
                    assert(names_unit(us, needed_keys(u), f[x - rest.len()] as int));
                    assert(needs(us, idx as int, mid[x] as int));
                    lemma_reach_step(us, roots@, idx as int, mid[x] as int);
                }
            }
        }
        let mut k: usize = 0;
        while k < units[idx].links_dep_keys.len()
            invariant
                n == us.len(),
                us == unit_views(units@),
                roots@.len() == n,
                idx < n,
                u == us[idx as int],
                indexes(index@, us),
                reachable(us, roots@, idx as int),
                k <= units@[idx as int].links_dep_keys@.len(),
                u.links_dep_keys.len() == units@[idx as int].links_dep_keys@.len(),
                mid.len() <= stack@.len(),
                forall|x: int| 0 <= x < mid.len() ==> #[trigger] stack@[x] == mid[x],
                forall|x: int|
                    0 <= x < stack@.len() ==> (#[trigger] stack@[x]) < us.len() && reachable(
                        us,
                        roots@,
                        stack@[x] as int,
                    ),
                forall|m: int|
                    0 <= m < k ==> match index_of(us, (#[trigger] u.links_dep_keys[m]).0) {
                        Some(j) => stack@.contains(j as usize),
                        None => false,
                    },
            decreases units@[idx as int].links_dep_keys@.len() - k,
        {
            let ghost key = u.links_dep_keys[k as int].0;
            assert(key == units@[idx as int].links_dep_keys@[k as int].0@);
            proof {
                lemma_index_of(us, key);
                assert(index@.contains_key(key) || !index@.contains_key(key));
            }
            match index.get(units[idx].links_dep_keys[k].0.as_str()) {
                None => {
                    assert(first_dangling(us, idx as int, k as int));
                    return Err(dangling_text(&units[idx], k));
                },
                Some(j) => {
                    let ghost before = stack@;
                    let j: usize = *j;
                    stack.push(j);
                    proof {
                        assert(firsts(u.links_dep_keys)[k as int] == key);
                        assert(names_unit(us, firsts(u.links_dep_keys), j as int));
                        assert(needs(us, idx as int, j as int));
                        lemma_reach_step(us, roots@, idx as int, j as int);
                        assert forall|m: int| 0 <= m < k + 1 implies match index_of(
                            us,
                            (#[trigger] u.links_dep_keys[m]).0,
                        ) {
                            Some(j) => stack@.contains(j as usize),
                            None => false,
                        } by {
                            if m < k {
                                let w = index_of(us, u.links_dep_keys[m].0)->0;
                                let x = choose|x: int| 0 <= x < before.len() && before[x] == w as usize;
                                assert(stack@[x] == w as usize);
                            } else {
                                assert(stack@[before.len() as int] == j);
                            }
                        }
                    }
                },
            }
            k = k + 1;
        }
        proof {
            assert forall|i: int| 0 <= i < us.len() && #[trigger] visited@[i] implies reachable(
                us,
                roots@,
                i,
            ) by {
                if i != idx {
                    assert(visited0[i]);
                }
            }
            assert forall|i: int| 0 <= i < us.len() && #[trigger] roots@[i] implies visited@[i]
                || stack@.contains(i as usize) by {
                if i != idx && !visited0[i] {
                    assert(stack0.contains(i as usize));
                    let y = choose|y: int| 0 <= y < stack0.len() && stack0[y] == i as usize;
                    assert(mid[y] == i as usize);
                    assert(stack@[y] == i as usize);
                }
            }
            assert forall|i: int, j: int|
                0 <= i < us.len() && 0 <= j < us.len() && visited@[i] && #[trigger] needs(us, i, j) implies visited@[j]
                || stack@.contains(j as usize) by {
                if j != idx && !visited0[j] {
                    if i != idx {
                        assert(visited0[i]);
                        assert(stack0.contains(j as usize));
                        let y = choose|y: int| 0 <= y < stack0.len() && stack0[y] == j as usize;
                        assert(mid[y] == j as usize);
                        assert(stack@[y] == j as usize);
                    } else if names_unit(us, needed_keys(u), j) {
                        let q = choose|q: int|
                            0 <= q < needed_keys(u).len() && index_of(us, #[trigger] needed_keys(u)[q])
                                == Some(j);
                        assert(f.contains(j as usize));
                        let y = choose|y: int| 0 <= y < f.len() && f[y] == j as usize;
                        assert(mid[rest.len() + y] == j as usize);
                        assert(stack@[rest.len() + y] == j as usize);
                    } else {
                        let l = firsts(u.links_dep_keys);
                        let q = choose|q: int|
                            0 <= q < l.len() && index_of(us, #[trigger] l[q]) == Some(j);
                        assert(l[q] == u.links_dep_keys[q].0);
                    }
                }
            }
            assert forall|i: int, q: int| 0 <= i < us.len() && visited@[i] implies !#[trigger] first_dangling(
                us,
                i,
                q,
            ) by {
                if i == idx {
                    if first_dangling(us, i, q) {
                        assert(index_of(us, u.links_dep_keys[q].0) is Some);
                    }
                } else {
                    assert(visited0[i]);
                }
            }
        }
    }
    proof {
        assert forall|i: int| 0 <= i < n implies #[trigger] visited@[i] == reachable(us, roots@, i) by {
            if reachable(us, roots@, i) {
                let path = choose|path: Seq<int>|
                    is_path(us, roots@, path) && #[trigger] path.last() == i;
                assert forall|a: int| 0 <= a < us.len() && roots@[a] implies #[trigger] visited@[a] by {
                    assert(roots@[a]);
                }
                lemma_closed_has_path(us, roots@, visited@, path, path.len() - 1);
            }
        }
        if has_dangling(us, roots@) {
            let (i, k) = choose|i: int, k: int|
                reachable(us, roots@, i) && #[trigger] first_dangling(us, i, k);
            assert(visited@[i]);
        }
    }
    Ok(visited)
}

/// Keeps the marked units, with the roots marked anew.
fn keep_units(units: Vec<NixUnit>, roots: &Vec<bool>, keep: &Vec<bool>) -> (r: Vec<NixUnit>)
    requires
        roots@.len() == units@.len(),
        keep@.len() == units@.len(),
        forall|i: int|
            0 <= i < keep@.len() ==> #[trigger] keep@[i] == reachable(unit_views(units@), roots@, i),
    ensures
        unit_views(r@) == kept_units(unit_views(units@), roots@, units@.len()),
{
    let ghost us = unit_views(units@);
    let mut kept: Vec<NixUnit> = Vec::new();
    let mut i: usize = 0;
    assert(unit_views(kept@) =~= Seq::empty());
    while i < units.len()
        invariant
            i <= units@.len(),
            us == unit_views(units@),
            roots@.len() == us.len(),
            keep@.len() == us.len(),
            forall|j: int| 0 <= j < keep@.len() ==> #[trigger] keep@[j] == reachable(us, roots@, j),
            unit_views(kept@) == kept_units(us, roots@, i as nat),
        decreases units@.len() - i,
    {
        if keep[i] {
            let ghost before = unit_views(kept@);
            let mut u = units[i].clone();
            u.is_root = roots[i];
            let ghost added = u@;
            kept.push(u);
            assert(unit_views(kept@) =~= before.push(added));
        }
        i = i + 1;
    }
    kept
}

/// Narrows a scope-wide unit graph to the packages the caller asked for.
///
/// `units` is the graph that was resolved over the whole scope, with every scope
/// root marked. The roots that belong to `packages`, minus `exclude`, survive;
/// every unit that none of them needs is dropped, and the others are not
/// touched. Naming neither packages nor exclusions leaves the graph as it is. A
/// package outside the scope and a links dependency on no unit are errors.
pub fn narrow_to_requested_roots(
    units: Vec<NixUnit>,
    packages: &Vec<String>,
    exclude: &Vec<String>,
    scope: &ResolutionScope,
) -> (r: Result<Vec<NixUnit>, String>)
    ensures
        narrowed(
            unit_views(units@),
            views(packages@),
            views(exclude@),
            scope.key@,
            units_result(r),
        ),
{
    let ghost us = unit_views(units@);
    let requested = subtract(packages, exclude);
    assert(views(packages@).len() == packages@.len());
    assert(views(exclude@).len() == exclude@.len());
    assert(views(requested@).len() == requested@.len());
    if packages.len() == 0 && exclude.len() == 0 {
        return Ok(units);
    }
    if requested.len() == 0 && packages.len() > 0 {
        let mut e = owned("every requested package is also excluded: -p ");
        let p = join(packages, ", ");
        e.append(p.as_str());
        e.append(" with --exclude ");
        let x = join(exclude, ", ");
        e.append(x.as_str());
        e.append(" selects nothing to build");
        return Err(e);
    }
    let names = collect_root_names(&units);
    let mut i: usize = 0;
    while i < requested.len()
        invariant
            i <= requested@.len(),
            us == unit_views(units@),
            views(names@) == root_names(us),
            views(requested@) == without(views(packages@), views(exclude@)),
            views(requested@).len() == requested@.len(),
            !(packages@.len() == 0 && exclude@.len() == 0),
            !(requested@.len() == 0 && packages@.len() > 0),
            views(packages@).len() == packages@.len(),
            views(exclude@).len() == exclude@.len(),
            forall|j: int| 0 <= j < i ==> root_names(us).contains(#[trigger] views(requested@)[j]),
        decreases requested@.len() - i,
    {
        assert(views(requested@)[i as int] == requested@[i as int]@);
        if !list_has(&names, requested[i].as_str()) {
            let mut e = owned("package `");
            e.append(requested[i].as_str());
            e.append("` is not in the resolution scope declared at ");
            let m = scope.manifest_key();
            e.append(m.as_str());
            e.append(". Scope roots: ");
            let all = join(&sorted_unique(&names), ", ");
            e.append(all.as_str());
            proof {
                let req = views(requested@);
                assert(first_outside(us, req, i as int));
                assert(e@ == outside_scope_message(us, req[i as int], scope.key@));
            }
            return Err(e);
        }
        i = i + 1;
    }
    let mut roots: Vec<bool> = Vec::new();
    let mut j: usize = 0;
    while j < units.len()
        invariant
            j <= units@.len(),
            us == unit_views(units@),
            views(requested@) == without(views(packages@), views(exclude@)),
            views(packages@).len() == packages@.len(),
            roots@.len() == j,
            forall|k: int|
                0 <= k < j ==> #[trigger] roots@[k] == keeps_root(
                    us[k],
                    views(packages@),
                    views(exclude@),
                ),
        decreases units@.len() - j,
    {
        let keep = if !units[j].is_root {
            false
        } else if packages.len() == 0 {
            !list_has(exclude, unit_package_name(&units[j]))
        } else {
            list_has(&requested, unit_package_name(&units[j]))
        };
        roots.push(keep);
        j = j + 1;
    }
    assert(roots@ =~= surviving_roots(us, views(packages@), views(exclude@)));
    match walk(&units, &roots) {
        Err(e) => Err(e),
        Ok(keep) => Ok(keep_units(units, &roots, &keep)),
    }
}

// ---------------------------------------------------------------------------
// Laws
// ---------------------------------------------------------------------------

/// A kept unit is a unit of the scope that a surviving root needs; of what it
/// holds only the root mark may have changed.
pub proof fn law_kept_is_original(us: Seq<UnitView>, roots: Seq<bool>, n: nat, p: int) -> (i: int)
    requires
        n <= us.len(),
        0 <= p < kept_units(us, roots, n).len(),
    ensures
        0 <= i < n,
        reachable(us, roots, i),
        kept_units(us, roots, n)[p] == (UnitView { is_root: roots[i], ..us[i] }),
    decreases n,
{
    if reachable(us, roots, n - 1) && p == kept_units(us, roots, (n - 1) as nat).len() {
        n - 1
    } else {
        law_kept_is_original(us, roots, (n - 1) as nat, p)
    }
}

/// Every unit that a surviving root needs is kept.
pub proof fn law_needed_is_kept(us: Seq<UnitView>, roots: Seq<bool>, n: nat, i: int)
    requires
        0 <= i < n <= us.len(),
        reachable(us, roots, i),
    ensures
        kept_units(us, roots, n).contains(UnitView { is_root: roots[i], ..us[i] }),
    decreases n,
{
    let k = kept_units(us, roots, n);
    let u = UnitView { is_root: roots[i], ..us[i] };
    if i == n - 1 {
        assert(k[k.len() - 1] == u);
    } else {
        law_needed_is_kept(us, roots, (n - 1) as nat, i);
        let b = kept_units(us, roots, (n - 1) as nat);
        let p = choose|p: int| 0 <= p < b.len() && b[p] == u;
        assert(k[p] == u);
    }
}

/// What is kept is closed: a unit that a kept unit needs is kept too.
pub proof fn law_kept_closed(us: Seq<UnitView>, roots: Seq<bool>, i: int, j: int)
    requires
        reachable(us, roots, i),
        needs(us, i, j),
        0 <= j < us.len(),
    ensures
        reachable(us, roots, j),
{
    lemma_reach_step(us, roots, i, j);
}

/// Two requests within one scope agree on the units that they share: but for the
/// root mark, units with the same key are the same.
pub proof fn law_shared_units_agree(
    us: Seq<UnitView>,
    roots1: Seq<bool>,
    roots2: Seq<bool>,
    p: int,
    q: int,
)
    requires
        forall|i: int, j: int|
            0 <= i < us.len() && 0 <= j < us.len() && (#[trigger] us[i]).key == (#[trigger] us[j]).key
                ==> i == j,
        0 <= p < kept_units(us, roots1, us.len()).len(),
        0 <= q < kept_units(us, roots2, us.len()).len(),
        kept_units(us, roots1, us.len())[p].key == kept_units(us, roots2, us.len())[q].key,
    ensures
        kept_units(us, roots2, us.len())[q] == (UnitView {
            is_root: kept_units(us, roots2, us.len())[q].is_root,
            ..kept_units(us, roots1, us.len())[p]
        }),
{
    let i = law_kept_is_original(us, roots1, us.len(), p);
    let j = law_kept_is_original(us, roots2, us.len(), q);
    assert(us[i].key == us[j].key);
}

} // verus!
