//! Merging units that differ only in their features.
use crate::graph::{clone_firsts, firsts};
use crate::strmap::StrMap;
use crate::text::{
    clone_strings, debug_list, debug_strings, lemma_sorted_set, less, owned, same, sort_seq,
    sort_strings, sorted_set, sorted_unique, str_lt, strictly_sorted, views,
};
use crate::unit_key::{
    compute_extra_filename, extra_filename_seq, host_suffix, identity_seq, identity_text,
    kind_suffix, suffix_of_host, suffix_of_kind, unit_key_seq, unit_key_text,
};
use crate::units::{
    clone_pairs, find_pair, list_has, opt_view, pair_lookup, pair_views, unit_views, NixUnit,
    UnitView,
};
use vstd::prelude::*;

verus! {

// ---------------------------------------------------------------------------
// Groups
// ---------------------------------------------------------------------------

/// What units share that differ only in their features.
pub open spec fn group_key(u: UnitView) -> Seq<char> {
    u.crate_name + "/"@ + u.edition + "/"@ + u.source_file + kind_suffix(u.kind) + host_suffix(
        u.for_host,
    ) + "/"@ + u.manifest_dir + ":"@ + debug_strings(sort_seq(u.crate_types))
}

/// Computes the key by which units that differ only in their features are
/// grouped.
pub fn feature_agnostic_group_key(u: &NixUnit) -> (r: String)
    ensures
        r@ == group_key(u@),
{
    let ct = sort_strings(clone_strings(&u.crate_types));
    let mut r = u.crate_name.clone();
    r.append("/");
    r.append(u.edition.as_str());
    r.append("/");
    r.append(u.source_file.as_str());
    r.append(suffix_of_kind(u.kind));
    r.append(suffix_of_host(u.for_host));
    r.append("/");
    r.append(u.manifest_dir.as_str());
    r.append(":");
    let d = debug_list(&ct);
    r.append(d.as_str());
    r
}

/// Unit `j` belongs to the group `key`.
pub open spec fn member(us: Seq<UnitView>, key: Seq<char>, j: int) -> bool {
    group_key(us[j]) == key
}

/// The first unit at or after `from` that belongs to the group.
pub open spec fn first_member(us: Seq<UnitView>, key: Seq<char>, from: int) -> int
    decreases us.len() - from,
{
    if from >= us.len() || member(us, key, from) {
        from
    } else {
        first_member(us, key, from + 1)
    }
}

/// The unit into which unit `i` is merged: the first of its group.
pub open spec fn survivor(us: Seq<UnitView>, i: int) -> int {
    first_member(us, group_key(us[i]), 0)
}

/// Another unit belongs to the same group.
pub open spec fn is_merged(us: Seq<UnitView>, i: int) -> bool {
    exists|j: int| 0 <= j < us.len() && j != i && #[trigger] member(us, group_key(us[i]), j)
}

/// The features of the group's members among the first `n` units.
pub open spec fn group_features(us: Seq<UnitView>, key: Seq<char>, n: nat) -> Seq<Seq<char>>
    decreases n,
{
    if n == 0 {
        Seq::empty()
    } else if member(us, key, n - 1) {
        group_features(us, key, (n - 1) as nat) + us[n - 1].features
    } else {
        group_features(us, key, (n - 1) as nat)
    }
}

/// The direct dependencies of the group's members among the first `n` units.
pub open spec fn group_edges(us: Seq<UnitView>, key: Seq<char>, n: nat) -> Seq<
    (Seq<char>, Seq<char>),
>
    decreases n,
{
    if n == 0 {
        Seq::empty()
    } else if member(us, key, n - 1) {
        group_edges(us, key, (n - 1) as nat) + us[n - 1].dep_extern
    } else {
        group_edges(us, key, (n - 1) as nat)
    }
}

/// A member of the group among the first `n` units is a root.
pub open spec fn group_is_root(us: Seq<UnitView>, key: Seq<char>, n: nat) -> bool
    decreases n,
{
    n > 0 && (group_is_root(us, key, (n - 1) as nat) || (member(us, key, n - 1) && us[n
        - 1].is_root))
}

/// The first non-empty target name of a root of the group among the first `n`
/// units.
pub open spec fn group_target(us: Seq<UnitView>, key: Seq<char>, n: nat) -> Seq<char>
    decreases n,
{
    if n == 0 {
        Seq::empty()
    } else {
        let before = group_target(us, key, (n - 1) as nat);
        if before.len() == 0 && member(us, key, n - 1) && us[n - 1].is_root {
            us[n - 1].target_name
        } else {
            before
        }
    }
}

/// The smallest unit key under which the edges list a crate.
pub open spec fn least_key(edges: Seq<(Seq<char>, Seq<char>)>, name: Seq<char>) -> Option<Seq<char>>
    decreases edges.len(),
{
    if edges.len() == 0 {
        None
    } else {
        let before = least_key(edges.drop_last(), name);
        let e = edges.last();
        if e.0 != name {
            before
        } else {
            match before {
                None => Some(e.1),
                Some(k) => if str_lt(e.1, k) {
                    Some(e.1)
                } else {
                    Some(k)
                },
            }
        }
    }
}

/// One edge for each crate name, in name order, to the smallest key.
pub open spec fn least_edges(edges: Seq<(Seq<char>, Seq<char>)>) -> Seq<(Seq<char>, Seq<char>)> {
    let names = sorted_set(firsts(edges));
    Seq::new(names.len(), |i: int| (names[i], least_key(edges, names[i])->0))
}

// ---------------------------------------------------------------------------
// The merged unit
// ---------------------------------------------------------------------------

/// A variable of a unit, or its crate name.
pub open spec fn env_or_crate_name(u: UnitView, name: Seq<char>) -> Seq<char> {
    match pair_lookup(u.cargo_envs, name) {
        Some(v) => v,
        None => u.crate_name,
    }
}

/// The package version of a unit.
pub open spec fn unit_version(u: UnitView) -> Seq<char> {
    match pair_lookup(u.cargo_envs, "CARGO_PKG_VERSION"@) {
        Some(v) => v,
        None => "0.0.0"@,
    }
}

/// The features of a whole group.
pub open spec fn unified_features(us: Seq<UnitView>, i: int) -> Seq<Seq<char>> {
    sorted_set(group_features(us, group_key(us[i]), us.len()))
}

/// The identity of a merged unit.
pub open spec fn unified_identity(u: UnitView, features: Seq<Seq<char>>) -> Seq<char> {
    identity_seq(
        env_or_crate_name(u, "CARGO_PKG_NAME"@),
        unit_version(u),
        env_or_crate_name(u, "CARGO_CRATE_NAME"@),
        kind_suffix(u.kind),
        u.for_host,
        u.edition,
        debug_strings(sort_seq(u.crate_types)),
        features,
    )
}

/// The key of a merged unit.
pub open spec fn unified_key(u: UnitView, features: Seq<Seq<char>>) -> Seq<char> {
    unit_key_seq(
        env_or_crate_name(u, "CARGO_PKG_NAME"@),
        unit_version(u),
        env_or_crate_name(u, "CARGO_CRATE_NAME"@),
        kind_suffix(u.kind),
        u.crate_types.contains("proc-macro"@),
        unified_identity(u, features),
    )
}

/// The key under which unit `i` lives on in its group.
pub open spec fn new_key(us: Seq<UnitView>, i: int) -> Seq<char> {
    unified_key(us[survivor(us, i)], unified_features(us, i))
}

/// The key that replaces a unit's key, as far as one of the first `n` units that
/// bears it was merged.
pub open spec fn redirect(us: Seq<UnitView>, key: Seq<char>, n: nat) -> Option<Seq<char>>
    decreases n,
{
    if n == 0 {
        None
    } else if us[n - 1].key == key && is_merged(us, n - 1) {
        Some(new_key(us, n - 1))
    } else {
        redirect(us, key, (n - 1) as nat)
    }
}

/// A key after all merges.
pub open spec fn redirected(us: Seq<UnitView>, key: Seq<char>) -> Seq<char> {
    match redirect(us, key, us.len()) {
        Some(k) => k,
        None => key,
    }
}

/// An optional key after all merges.
pub open spec fn redirected_opt(us: Seq<UnitView>, key: Option<Seq<char>>) -> Option<Seq<char>> {
    match key {
        Some(k) => Some(redirected(us, k)),
        None => None,
    }
}

/// A survivor with what its group holds together.
#[verifier::opaque]
pub open spec fn merged_unit(us: Seq<UnitView>, i: int) -> UnitView {
    let u = us[i];
    let key = group_key(u);
    let n = us.len();
    if !is_merged(us, i) {
        u
    } else {
        UnitView {
            key: new_key(us, i),
            features: unified_features(us, i),
            extra_filename: extra_filename_seq(
                env_or_crate_name(u, "CARGO_PKG_NAME"@),
                unit_version(u),
                env_or_crate_name(u, "CARGO_CRATE_NAME"@),
                unified_features(us, i),
                u.crate_types,
            ),
            is_root: group_is_root(us, key, n),
            target_name: if group_is_root(us, key, n) && group_target(us, key, n).len() > 0 {
                group_target(us, key, n)
            } else {
                u.target_name
            },
            dep_extern: least_edges(group_edges(us, key, n)),
            ..u
        }
    }
}

/// A unit whose edges lead to the merged units.
#[verifier::opaque]
pub open spec fn redirected_unit(us: Seq<UnitView>, u: UnitView) -> UnitView {
    UnitView {
        dep_extern: Seq::new(
            u.dep_extern.len(),
            |k: int| (u.dep_extern[k].0, redirected(us, u.dep_extern[k].1)),
        ),
        build_script_dep: redirected_opt(us, u.build_script_dep),
        build_script_compile_key: redirected_opt(us, u.build_script_compile_key),
        links_dep_keys: Seq::new(
            u.links_dep_keys.len(),
            |k: int| (redirected(us, u.links_dep_keys[k].0), u.links_dep_keys[k].1),
        ),
        ..u
    }
}

/// The units that remain of the first `n`: the first of each group, merged and
/// redirected.
pub open spec fn unified(us: Seq<UnitView>, n: nat) -> Seq<UnitView>
    decreases n,
{
    if n == 0 {
        Seq::empty()
    } else if survivor(us, n - 1) == n - 1 {
        unified(us, (n - 1) as nat).push(redirected_unit(us, merged_unit(us, n - 1)))
    } else {
        unified(us, (n - 1) as nat)
    }
}

/// The place in the merged list of the unit into which unit `j` is merged.
pub open spec fn place(us: Seq<UnitView>, j: int) -> int {
    unified(us, survivor(us, j) as nat).len() as int
}

// ---------------------------------------------------------------------------
// Code
// ---------------------------------------------------------------------------

/// The strings are the group keys of the units.
pub open spec fn group_keys(us: Seq<UnitView>, keys: Seq<String>) -> bool {
    &&& keys.len() == us.len()
    &&& forall|i: int| 0 <= i < us.len() ==> (#[trigger] keys[i])@ == group_key(us[i])
}

fn all_group_keys(units: &Vec<NixUnit>) -> (r: Vec<String>)
    ensures
        group_keys(unit_views(units@), r@),
{
    let mut r: Vec<String> = Vec::new();
    let mut i: usize = 0;
    while i < units.len()
        invariant
            i <= units@.len(),
            r@.len() == i,
            forall|j: int| 0 <= j < i ==> (#[trigger] r@[j])@ == group_key(units@[j]@),
        decreases units@.len() - i,
    {
        r.push(feature_agnostic_group_key(&units[i]));
        i = i + 1;
    }
    r
}

fn find_survivor(keys: &Vec<String>, i: usize, us: Ghost<Seq<UnitView>>) -> (r: usize)
    requires
        group_keys(us@, keys@),
        i < us@.len(),
    ensures
        r == survivor(us@, i as int),
        r <= i,
{
    let ghost key = group_key(us@[i as int]);
    let mut j: usize = 0;
    while !same(keys[j].as_str(), keys[i].as_str())
        invariant
            group_keys(us@, keys@),
            j <= i < us@.len(),
            key == group_key(us@[i as int]),
            first_member(us@, key, j as int) == first_member(us@, key, 0),
        decreases i - j,
    {
        j = j + 1;
    }
    assert(keys@[j as int]@ == group_key(us@[j as int]));
    j
}

fn has_other_member(keys: &Vec<String>, i: usize, us: Ghost<Seq<UnitView>>) -> (r: bool)
    requires
        group_keys(us@, keys@),
        i < us@.len(),
    ensures
        r == is_merged(us@, i as int),
{
    let ghost key = group_key(us@[i as int]);
    let mut j: usize = 0;
    while j < keys.len()
        invariant
            group_keys(us@, keys@),
            i < us@.len(),
            j <= us@.len(),
            key == group_key(us@[i as int]),
            forall|k: int| 0 <= k < j && k != i ==> !#[trigger] member(us@, key, k),
        decreases us@.len() - j,
    {
        if j != i && same(keys[j].as_str(), keys[i].as_str()) {
            assert(member(us@, key, j as int));
            return true;
        }
        j = j + 1;
    }
    false
}

fn collect_features(units: &Vec<NixUnit>, keys: &Vec<String>, i: usize) -> (r: Vec<String>)
    requires
        group_keys(unit_views(units@), keys@),
        i < units@.len(),
    ensures
        views(r@) == unified_features(unit_views(units@), i as int),
{
    let ghost us = unit_views(units@);
    let ghost key = group_key(us[i as int]);
    let mut all: Vec<String> = Vec::new();
    let mut j: usize = 0;
    assert(views(all@) =~= Seq::empty());
    while j < units.len()
        invariant
            us == unit_views(units@),
            group_keys(us, keys@),
            i < us.len(),
            j <= us.len(),
            key == group_key(us[i as int]),
            views(all@) == group_features(us, key, j as nat),
        decreases us.len() - j,
    {
        if same(keys[j].as_str(), keys[i].as_str()) {
            let mut f = clone_strings(&units[j].features);
            let ghost a = views(all@);
            let ghost b = views(f@);
            all.append(&mut f);
            assert(views(all@) =~= a + b);
        }
        j = j + 1;
    }
    sorted_unique(&all)
}

fn collect_edges(units: &Vec<NixUnit>, keys: &Vec<String>, i: usize) -> (r: Vec<(String, String)>)
    requires
        group_keys(unit_views(units@), keys@),
        i < units@.len(),
    ensures
        pair_views(r@) == group_edges(
            unit_views(units@),
            group_key(unit_views(units@)[i as int]),
            units@.len(),
        ),
{
    let ghost us = unit_views(units@);
    let ghost key = group_key(us[i as int]);
    let mut all: Vec<(String, String)> = Vec::new();
    let mut j: usize = 0;
    assert(pair_views(all@) =~= Seq::empty());
    while j < units.len()
        invariant
            us == unit_views(units@),
            group_keys(us, keys@),
            i < us.len(),
            j <= us.len(),
            key == group_key(us[i as int]),
            pair_views(all@) == group_edges(us, key, j as nat),
        decreases us.len() - j,
    {
        if same(keys[j].as_str(), keys[i].as_str()) {
            let mut f = clone_pairs(&units[j].dep_extern);
            let ghost a = pair_views(all@);
            let ghost b = pair_views(f@);
            all.append(&mut f);
            assert(pair_views(all@) =~= a + b);
        }
        j = j + 1;
    }
    all
}

fn find_least_key<'a>(edges: &'a Vec<(String, String)>, name: &str) -> (r: Option<&'a String>)
    ensures
        match r {
            Some(k) => least_key(pair_views(edges@), name@) == Some(k@),
            None => least_key(pair_views(edges@), name@) is None,
        },
{
    let ghost e = pair_views(edges@);
    let mut best: Option<&'a String> = None;
    let mut i: usize = 0;
    while i < edges.len()
        invariant
            i <= edges@.len(),
            e == pair_views(edges@),
            match best {
                Some(k) => least_key(e.take(i as int), name@) == Some(k@),
                None => least_key(e.take(i as int), name@) is None,
            },
        decreases edges@.len() - i,
    {
        assert(e.take(i + 1).drop_last() =~= e.take(i as int));
        if same(edges[i].0.as_str(), name) {
            match best {
                None => {
                    best = Some(&edges[i].1);
                },
                Some(k) => {
                    if less(edges[i].1.as_str(), k.as_str()) {
                        best = Some(&edges[i].1);
                    }
                },
            }
        }
        i = i + 1;
    }
    assert(e.take(edges@.len() as int) =~= e);
    best
}

proof fn lemma_least_key_some(edges: Seq<(Seq<char>, Seq<char>)>, name: Seq<char>)
    requires
        firsts(edges).contains(name),
    ensures
        least_key(edges, name) is Some,
    decreases edges.len(),
{
    let k = choose|k: int| 0 <= k < firsts(edges).len() && firsts(edges)[k] == name;
    if edges.last().0 != name {
        assert(firsts(edges.drop_last())[k] == name);
        lemma_least_key_some(edges.drop_last(), name);
    }
}

/// One edge for each crate name, in name order, to the smallest key.
pub fn merge_edges(edges: &Vec<(String, String)>) -> (r: Vec<(String, String)>)
    ensures
        pair_views(r@) == least_edges(pair_views(edges@)),
{
    let ghost e = pair_views(edges@);
    let names = sorted_unique(&clone_firsts(edges));
    let mut r: Vec<(String, String)> = Vec::new();
    let mut i: usize = 0;
    assert(views(names@).len() == names@.len());
    while i < names.len()
        invariant
            i <= names@.len(),
            e == pair_views(edges@),
            views(names@) == sorted_set(firsts(e)),
            views(names@).len() == names@.len(),
            r@.len() == i,
            pair_views(r@) == least_edges(e).take(i as int),
        decreases names@.len() - i,
    {
        let ghost name = views(names@)[i as int];
        assert(name == names@[i as int]@);
        proof {
            lemma_sorted_set(firsts(e));
            assert(sorted_set(firsts(e)).contains(name));
            lemma_least_key_some(e, name);
        }
        match find_least_key(edges, names[i].as_str()) {
            Some(k) => {
                r.push((names[i].clone(), k.clone()));
            },
            None => {
                assert(false);
            },
        }
        assert(pair_views(r@) =~= least_edges(e).take(i + 1));
        i = i + 1;
    }
    assert(least_edges(e).take(names@.len() as int) =~= least_edges(e));
    r
}

fn group_root(units: &Vec<NixUnit>, keys: &Vec<String>, i: usize) -> (r: (bool, String))
    requires
        group_keys(unit_views(units@), keys@),
        i < units@.len(),
    ensures
        r.0 == group_is_root(
            unit_views(units@),
            group_key(unit_views(units@)[i as int]),
            units@.len(),
        ),
        r.1@ == group_target(
            unit_views(units@),
            group_key(unit_views(units@)[i as int]),
            units@.len(),
        ),
{
    let ghost us = unit_views(units@);
    let ghost key = group_key(us[i as int]);
    let mut root = false;
    let mut target = String::new();
    let mut j: usize = 0;
    while j < units.len()
        invariant
            us == unit_views(units@),
            group_keys(us, keys@),
            i < us.len(),
            j <= us.len(),
            key == group_key(us[i as int]),
            root == group_is_root(us, key, j as nat),
            target@ == group_target(us, key, j as nat),
        decreases us.len() - j,
    {
        if same(keys[j].as_str(), keys[i].as_str()) && units[j].is_root {
            root = true;
            if target.as_str().is_empty() {
                target = units[j].target_name.clone();
            }
        }
        j = j + 1;
    }
    (root, target)
}

fn env_or_name<'a>(u: &'a NixUnit, name: &str) -> (r: &'a String)
    ensures
        r@ == env_or_crate_name(u@, name@),
{
    match find_pair(&u.cargo_envs, name) {
        Some(v) => v,
        None => &u.crate_name,
    }
}

fn version_of(u: &NixUnit) -> (r: String)
    ensures
        r@ == unit_version(u@),
{
    match find_pair(&u.cargo_envs, "CARGO_PKG_VERSION") {
        Some(v) => v.clone(),
        None => owned("0.0.0"),
    }
}

fn merged_key(u: &NixUnit, features: &Vec<String>) -> (r: String)
    ensures
        r@ == unified_key(u@, views(features@)),
{
    let pkg = env_or_name(u, "CARGO_PKG_NAME");
    let version = version_of(u);
    let target = env_or_name(u, "CARGO_CRATE_NAME");
    let ct = sort_strings(clone_strings(&u.crate_types));
    let printed = debug_list(&ct);
    let identity = identity_text(
        pkg.as_str(),
        version.as_str(),
        target.as_str(),
        suffix_of_kind(u.kind),
        u.for_host,
        u.edition.as_str(),
        printed.as_str(),
        features,
    );
    unit_key_text(
        pkg.as_str(),
        version.as_str(),
        target.as_str(),
        suffix_of_kind(u.kind),
        list_has(&u.crate_types, "proc-macro"),
        identity.as_str(),
    )
}

/// A map gives each replaced key.
pub open spec fn redirects(m: Map<Seq<char>, String>, us: Seq<UnitView>, n: nat) -> bool {
    forall|k: Seq<char>|
        match redirect(us, k, n) {
            Some(v) => #[trigger] m.contains_key(k) && m[k]@ == v,
            None => !m.contains_key(k),
        }
}

fn collect_redirects(units: &Vec<NixUnit>, keys: &Vec<String>) -> (m: StrMap<String>)
    requires
        group_keys(unit_views(units@), keys@),
    ensures
        redirects(m@, unit_views(units@), units@.len()),
{
    let ghost us = unit_views(units@);
    let mut m: StrMap<String> = StrMap::new();
    let mut i: usize = 0;
    while i < units.len()
        invariant
            us == unit_views(units@),
            group_keys(us, keys@),
            i <= us.len(),
            redirects(m@, us, i as nat),
        decreases us.len() - i,
    {
        let ghost before = m@;
        if has_other_member(keys, i, Ghost(us)) {
            let s: usize = find_survivor(keys, i, Ghost(us));
            let features = collect_features(units, keys, i);
            let key = merged_key(&units[s], &features);
            assert(key@ == new_key(us, i as int));
            m.insert(units[i].key.clone(), key);
        }
        proof {
            assert forall|k: Seq<char>|
                match redirect(us, k, (i + 1) as nat) {
                    Some(v) => #[trigger] m@.contains_key(k) && m@[k]@ == v,
                    None => !m@.contains_key(k),
                } by {
                assert(before.contains_key(k) || !before.contains_key(k));
            }
        }
        i = i + 1;
    }
    m
}

fn apply_redirect(m: &StrMap<String>, key: &String, us: Ghost<Seq<UnitView>>) -> (r: String)
    requires
        redirects(m@, us@, us@.len()),
    ensures
        r@ == redirected(us@, key@),
{
    assert(m@.contains_key(key@) || !m@.contains_key(key@));
    match m.get(key.as_str()) {
        Some(v) => v.clone(),
        None => key.clone(),
    }
}

fn apply_opt(m: &StrMap<String>, key: &Option<String>, us: Ghost<Seq<UnitView>>) -> (r: Option<
    String,
>)
    requires
        redirects(m@, us@, us@.len()),
    ensures
        opt_view(r) == redirected_opt(us@, opt_view(*key)),
{
    match key {
        Some(k) => Some(apply_redirect(m, k, us)),
        None => None,
    }
}

fn redirect_unit(m: &StrMap<String>, u: &NixUnit, us: Ghost<Seq<UnitView>>) -> (r: NixUnit)
    requires
        redirects(m@, us@, us@.len()),
    ensures
        r@ == redirected_unit(us@, u@),
{
    let mut deps: Vec<(String, String)> = Vec::new();
    let mut i: usize = 0;
    while i < u.dep_extern.len()
        invariant
            i <= u.dep_extern@.len(),
            redirects(m@, us@, us@.len()),
            deps@.len() == i,
            forall|k: int|
                0 <= k < i ==> (#[trigger] deps@[k]).0@ == u.dep_extern@[k].0@ && deps@[k].1@
                    == redirected(us@, u.dep_extern@[k].1@),
        decreases u.dep_extern@.len() - i,
    {
        deps.push((u.dep_extern[i].0.clone(), apply_redirect(m, &u.dep_extern[i].1, us)));
        i = i + 1;
    }
    let mut links: Vec<(String, String)> = Vec::new();
    let mut j: usize = 0;
    while j < u.links_dep_keys.len()
        invariant
            j <= u.links_dep_keys@.len(),
            redirects(m@, us@, us@.len()),
            links@.len() == j,
            forall|k: int|
                0 <= k < j ==> (#[trigger] links@[k]).1@ == u.links_dep_keys@[k].1@ && links@[k].0@
                    == redirected(us@, u.links_dep_keys@[k].0@),
        decreases u.links_dep_keys@.len() - j,
    {
        links.push((apply_redirect(m, &u.links_dep_keys[j].0, us), u.links_dep_keys[j].1.clone()));
        j = j + 1;
    }
    let mut r = u.clone();
    r.dep_extern = deps;
    r.links_dep_keys = links;
    r.build_script_dep = apply_opt(m, &u.build_script_dep, us);
    r.build_script_compile_key = apply_opt(m, &u.build_script_compile_key, us);
    proof {
        reveal(redirected_unit);
        assert(r@ =~= redirected_unit(us@, u@));
    }
    r
}

fn merge_unit(units: &Vec<NixUnit>, keys: &Vec<String>, i: usize) -> (r: NixUnit)
    requires
        group_keys(unit_views(units@), keys@),
        i < units@.len(),
        survivor(unit_views(units@), i as int) == i,
    ensures
        r@ == merged_unit(unit_views(units@), i as int),
{
    let ghost us = unit_views(units@);
    let mut r = units[i].clone();
    proof {
        reveal(merged_unit);
    }
    if !has_other_member(keys, i, Ghost(us)) {
        return r;
    }
    let features = collect_features(units, keys, i);
    let u = &units[i];
    let extra = compute_extra_filename(
        env_or_name(u, "CARGO_PKG_NAME").as_str(),
        version_of(u).as_str(),
        env_or_name(u, "CARGO_CRATE_NAME").as_str(),
        &features,
        &u.crate_types,
    );
    let key = merged_key(u, &features);
    let (root, target) = group_root(units, keys, i);
    let edges = collect_edges(units, keys, i);
    r.key = key;
    r.features = features;
    r.extra_filename = extra;
    r.is_root = root;
    if root && !target.as_str().is_empty() {
        r.target_name = target;
    }
    r.dep_extern = merge_edges(&edges);
    assert(r@ =~= merged_unit(us, i as int));
    r
}

/// Merges units that differ only in their features into one with all of them,
/// and leads every edge to the merged unit. Without this, users of a crate could
/// be linked against different variants of it.
pub fn unify_feature_variants(units: &mut Vec<NixUnit>)
    ensures
        unit_views(final(units)@) == unified(unit_views(old(units)@), old(units)@.len()),
{
    let ghost us = unit_views(units@);
    let keys = all_group_keys(units);
    let m = collect_redirects(units, &keys);
    let mut r: Vec<NixUnit> = Vec::new();
    let mut i: usize = 0;
    assert(unit_views(r@) =~= Seq::empty());
    while i < units.len()
        invariant
            us == unit_views(units@),
            *units == *old(units),
            group_keys(us, keys@),
            redirects(m@, us, us.len()),
            i <= us.len(),
            unit_views(r@) == unified(us, i as nat),
        decreases us.len() - i,
    {
        let s: usize = find_survivor(&keys, i, Ghost(us));
        if s == i {
            let merged = merge_unit(units, &keys, i);
            let u = redirect_unit(&m, &merged, Ghost(us));
            let ghost before = unit_views(r@);
            let ghost added = u@;
            r.push(u);
            assert(unit_views(r@) =~= before.push(added));
        }
        i = i + 1;
    }
    *units = r;
}

// ---------------------------------------------------------------------------
// Laws
// ---------------------------------------------------------------------------

proof fn lemma_first_member(us: Seq<UnitView>, key: Seq<char>, from: int, j: int)
    requires
        0 <= from <= j < us.len(),
        member(us, key, j),
    ensures
        from <= first_member(us, key, from) <= j,
        member(us, key, first_member(us, key, from)),
    decreases us.len() - from,
{
    if !member(us, key, from) {
        lemma_first_member(us, key, from + 1, j);
    }
}

/// A merged unit has the features of all members of its group and no others, in
/// order.
pub proof fn law_unified_features(us: Seq<UnitView>, i: int)
    requires
        0 <= i < us.len(),
    ensures
        strictly_sorted(unified_features(us, i)),
        forall|f: Seq<char>| #[trigger]
            unified_features(us, i).contains(f) <==> exists|j: int|
                0 <= j < us.len() && member(us, group_key(us[i]), j) && (
                #[trigger] us[j]).features.contains(f),
{
    let key = group_key(us[i]);
    lemma_sorted_set(group_features(us, key, us.len()));
    assert forall|f: Seq<char>| #[trigger] unified_features(us, i).contains(f) <==> exists|j: int|
        0 <= j < us.len() && member(us, key, j) && (#[trigger] us[j]).features.contains(f) by {
        lemma_group_features(us, key, us.len(), f);
    }
}

proof fn lemma_group_features(us: Seq<UnitView>, key: Seq<char>, n: nat, f: Seq<char>)
    requires
        n <= us.len(),
    ensures
        group_features(us, key, n).contains(f) <==> exists|j: int|
            0 <= j < n && member(us, key, j) && (#[trigger] us[j]).features.contains(f),
    decreases n,
{
    if n > 0 {
        lemma_group_features(us, key, (n - 1) as nat, f);
        let before = group_features(us, key, (n - 1) as nat);
        let after = group_features(us, key, n);
        if member(us, key, n - 1) {
            let last = us[n - 1].features;
            if after.contains(f) {
                let k = choose|k: int| 0 <= k < after.len() && after[k] == f;
                if k < before.len() {
                    assert(before[k] == f);
                } else {
                    assert(last[k - before.len()] == f);
                    assert(us[n - 1].features.contains(f));
                }
            }
            if before.contains(f) {
                let k = choose|k: int| 0 <= k < before.len() && before[k] == f;
                assert(after[k] == f);
            }
            if last.contains(f) {
                let k = choose|k: int| 0 <= k < last.len() && last[k] == f;
                assert(after[before.len() + k] == f);
            }
        }
    }
}

/// Units for the host and for the target are never merged: with all else alike,
/// their groups differ.
pub proof fn law_host_and_target_apart(a: UnitView, b: UnitView)
    requires
        a.crate_name == b.crate_name,
        a.edition == b.edition,
        a.source_file == b.source_file,
        a.kind == b.kind,
        a.manifest_dir == b.manifest_dir,
        a.crate_types == b.crate_types,
        a.for_host != b.for_host,
    ensures
        group_key(a) != group_key(b),
{
    reveal_strlit("-host");
    reveal_strlit("");
    assert(group_key(a).len() != group_key(b).len());
}

/// Where no two units share a key, every edge to a unit leads to the unit into
/// which it was merged.
pub proof fn law_edges_follow_merges(us: Seq<UnitView>, j: int)
    requires
        forall|a: int, b: int|
            0 <= a < us.len() && 0 <= b < us.len() && (#[trigger] us[a]).key == (
            #[trigger] us[b]).key ==> a == b,
        0 <= j < us.len(),
    ensures
        0 <= survivor(us, j) < us.len(),
        redirected(us, us[j].key) == merged_unit(us, survivor(us, j)).key,
{
    reveal(merged_unit);
    let key = group_key(us[j]);
    assert(member(us, key, j));
    lemma_first_member(us, key, 0, j);
    let s = survivor(us, j);
    assert(group_key(us[s]) == key);
    lemma_redirect_unique(us, j, us.len());
    if is_merged(us, j) {
        if s == j {
        } else {
            assert(member(us, group_key(us[s]), j));
        }
        assert(is_merged(us, s));
    } else {
        if s != j {
            assert(member(us, key, s));
        }
    }
}

proof fn lemma_redirect_unique(us: Seq<UnitView>, j: int, n: nat)
    requires
        forall|a: int, b: int|
            0 <= a < us.len() && 0 <= b < us.len() && (#[trigger] us[a]).key == (
            #[trigger] us[b]).key ==> a == b,
        0 <= j < us.len(),
        n <= us.len(),
    ensures
        redirect(us, us[j].key, n) == (if j < n && is_merged(us, j) {
            Some(new_key(us, j))
        } else {
            None
        }),
    decreases n,
{
    if n > 0 {
        lemma_redirect_unique(us, j, (n - 1) as nat);
        if us[n - 1].key == us[j].key {
            assert(n - 1 == j);
        }
    }
}

/// The first of a group stands in the merged list behind what remains of the units
/// before it.
proof fn lemma_unified_at(us: Seq<UnitView>, s: int, n: nat)
    requires
        0 <= s < n <= us.len(),
        survivor(us, s) == s,
    ensures
        unified(us, s as nat).len() < unified(us, n).len(),
        unified(us, n)[unified(us, s as nat).len() as int] == redirected_unit(
            us,
            merged_unit(us, s),
        ),
    decreases n,
{
    if s < n - 1 {
        lemma_unified_at(us, s, (n - 1) as nat);
    }
}

/// Where no two units share a key, the place of a unit holds the unit to which all edges
/// to it lead.
pub proof fn law_place_holds_unit(us: Seq<UnitView>, j: int)
    requires
        forall|a: int, b: int|
            0 <= a < us.len() && 0 <= b < us.len() && (#[trigger] us[a]).key == (
            #[trigger] us[b]).key ==> a == b,
        0 <= j < us.len(),
    ensures
        0 <= place(us, j) < unified(us, us.len()).len(),
        unified(us, us.len())[place(us, j)].key == redirected(us, us[j].key),
{
    reveal(redirected_unit);
    let key = group_key(us[j]);
    assert(member(us, key, j));
    lemma_first_member(us, key, 0, j);
    law_edges_follow_merges(us, j);
    lemma_unified_at(us, survivor(us, j), us.len());
}

/// Merging keeps the order: a unit that comes before the first of another group is
/// merged into one that comes before that group's.
pub proof fn law_merging_keeps_order(us: Seq<UnitView>, q: int, p: int)
    requires
        0 <= q < p < us.len(),
        survivor(us, p) == p,
    ensures
        place(us, q) < place(us, p),
{
    let key = group_key(us[q]);
    assert(member(us, key, q));
    lemma_first_member(us, key, 0, q);
    lemma_unified_at(us, survivor(us, q), p as nat);
}

/// The unit of the original list from which a remaining unit was made.
proof fn lemma_unified_origin(us: Seq<UnitView>, n: nat, p: int) -> (i: int)
    requires
        n <= us.len(),
        0 <= p < unified(us, n).len(),
    ensures
        p <= i < n,
        survivor(us, i) == i,
        unified(us, n)[p] == redirected_unit(us, merged_unit(us, i)),
    decreases n,
{
    let before = unified(us, (n - 1) as nat);
    if survivor(us, n - 1) == n - 1 && p == before.len() {
        lemma_unified_len(us, (n - 1) as nat);
        n - 1
    } else {
        lemma_unified_origin(us, (n - 1) as nat, p)
    }
}

proof fn lemma_unified_len(us: Seq<UnitView>, n: nat)
    ensures
        unified(us, n).len() <= n,
    decreases n,
{
    if n > 0 {
        lemma_unified_len(us, (n - 1) as nat);
    }
}

proof fn lemma_unified_distinct(us: Seq<UnitView>, n: nat, p: int, q: int)
    requires
        n <= us.len(),
        0 <= p < q < unified(us, n).len(),
    ensures
        group_key(unified(us, n)[p]) != group_key(unified(us, n)[q]),
    decreases n,
{
    reveal(merged_unit);
    reveal(redirected_unit);
    let before = unified(us, (n - 1) as nat);
    if q < before.len() {
        lemma_unified_distinct(us, (n - 1) as nat, p, q);
    } else {
        let i = lemma_unified_origin(us, (n - 1) as nat, p);
        assert(unified(us, n)[p] == before[p]);
        assert(survivor(us, n - 1) == n - 1);
        if group_key(us[i]) == group_key(us[n - 1]) {
            assert(survivor(us, i) == survivor(us, n - 1));
        }
    }
}

/// Merging again changes nothing.
pub proof fn law_unify_stable(us: Seq<UnitView>)
    ensures
        unified(unified(us, us.len()), unified(us, us.len()).len()) == unified(us, us.len()),
{
    let vs = unified(us, us.len());
    lemma_unify_stable(us, vs.len());
    assert(vs.take(vs.len() as int) =~= vs);
}

proof fn lemma_unify_stable(us: Seq<UnitView>, n: nat)
    requires
        n <= unified(us, us.len()).len(),
    ensures
        unified(unified(us, us.len()), n) == unified(us, us.len()).take(n as int),
    decreases n,
{
    let vs = unified(us, us.len());
    if n == 0 {
        assert(vs.take(0) =~= unified(vs, 0));
    } else {
        lemma_unify_stable(us, (n - 1) as nat);
        let p = n - 1;
        assert forall|a: int, b: int|
            0 <= a < vs.len() && 0 <= b < vs.len() && #[trigger] member(
                vs,
                group_key(#[trigger] vs[a]),
                b,
            ) implies a == b by {
            if a < b {
                lemma_unified_distinct(us, us.len(), a, b);
            } else if b < a {
                lemma_unified_distinct(us, us.len(), b, a);
            }
        }
        assert(member(vs, group_key(vs[p]), p));
        lemma_first_member(vs, group_key(vs[p]), 0, p);
        assert(survivor(vs, p) == p);
        assert forall|a: int| 0 <= a < vs.len() implies !#[trigger] is_merged(vs, a) by {
            if is_merged(vs, a) {
                let b = choose|b: int|
                    0 <= b < vs.len() && b != a && #[trigger] member(vs, group_key(vs[a]), b);
                assert(member(vs, group_key(vs[a]), b));
            }
        }
        assert forall|k: Seq<char>| #[trigger] redirected(vs, k) == k by {
            lemma_no_redirect(vs, k, vs.len());
        }
        reveal(merged_unit);
        reveal(redirected_unit);
        assert(merged_unit(vs, p) == vs[p]);
        assert(redirected_unit(vs, vs[p]) =~= vs[p]);
        assert(vs.take(n as int) =~= vs.take(n - 1).push(vs[p]));
    }
}

proof fn lemma_no_redirect(vs: Seq<UnitView>, k: Seq<char>, n: nat)
    requires
        n <= vs.len(),
        forall|a: int| 0 <= a < vs.len() ==> !#[trigger] is_merged(vs, a),
    ensures
        redirect(vs, k, n) is None,
    decreases n,
{
    if n > 0 {
        lemma_no_redirect(vs, k, (n - 1) as nat);
        assert(!is_merged(vs, n - 1));
    }
}

} // verus!
