//! What a plan takes from its surroundings: the sources of a cached graph, the
//! store paths of tools and libraries, and their closures.
use crate::slices::{move_path, moved};
use crate::strmap::StrMap;
use crate::text::{
    clone_strings, first_of, owned, same, sorted_set, sorted_unique, split, split_once, split_seq,
    starts, starts_with, strip_prefix, views,
};
use crate::units::{
    find_pair, list_has, opt_view, pair_lookup, pair_views, unit_views, NixUnit, UnitView,
};
use vstd::prelude::*;

verus! {

// ---------------------------------------------------------------------------
// Cached graphs
// ---------------------------------------------------------------------------

/// A unit of a cached graph on the current source, without a derivation.
pub open spec fn refreshed(u: UnitView, old_src: Seq<char>, src: Seq<char>) -> UnitView {
    UnitView {
        source_file: moved(u.source_file, old_src, src),
        manifest_dir: moved(u.manifest_dir, old_src, src),
        drv_path: None,
        ..u
    }
}

/// Moves the units of a cached graph from the source it was made for onto the
/// current one, and forgets their derivations.
pub fn refresh_cached_units(units: &mut Vec<NixUnit>, old_src: &str, src: &str)
    ensures
        final(units)@.len() == old(units)@.len(),
        forall|i: int|
            0 <= i < old(units)@.len() ==> (#[trigger] final(units)@[i])@ == refreshed(
                old(units)@[i]@,
                old_src@,
                src@,
            ),
{
    let ghost before = units@;
    let n: usize = units.len();
    let mut i: usize = 0;
    while i < n
        invariant
            i <= n,
            n == before.len(),
            units@.len() == n,
            forall|k: int|
                0 <= k < i ==> (#[trigger] units@[k])@ == refreshed(before[k]@, old_src@, src@),
            forall|k: int| i <= k < n ==> #[trigger] units@[k] == before[k],
        decreases n - i,
    {
        let mut u = units[i].clone();
        u.source_file = move_path(u.source_file.as_str(), old_src, src);
        u.manifest_dir = move_path(u.manifest_dir.as_str(), old_src, src);
        u.drv_path = None;
        assert(u@ =~= refreshed(before[i as int]@, old_src@, src@));
        units.set(i, u);
        i = i + 1;
    }
}

/// A unit that knows where its crate lies in the project.
pub open spec fn with_original_dir(u: UnitView, src: Seq<char>, project: Seq<char>) -> UnitView {
    if starts(u.manifest_dir, src) {
        UnitView {
            original_manifest_dir: project + u.manifest_dir.skip(src.len() as int),
            ..u
        }
    } else {
        u
    }
}

/// Records where the crates lie in the project, for units whose crates lie in the
/// source.
pub fn set_original_manifest_dirs(units: &mut Vec<NixUnit>, src: &str, project: &str)
    ensures
        final(units)@.len() == old(units)@.len(),
        forall|i: int|
            0 <= i < old(units)@.len() ==> (#[trigger] final(units)@[i])@ == with_original_dir(
                old(units)@[i]@,
                src@,
                project@,
            ),
{
    let ghost before = units@;
    let n: usize = units.len();
    let mut i: usize = 0;
    while i < n
        invariant
            i <= n,
            n == before.len(),
            units@.len() == n,
            forall|k: int|
                0 <= k < i ==> (#[trigger] units@[k])@ == with_original_dir(
                    before[k]@,
                    src@,
                    project@,
                ),
            forall|k: int| i <= k < n ==> #[trigger] units@[k] == before[k],
        decreases n - i,
    {
        let mut u = units[i].clone();
        let mut dir: Option<String> = None;
        if let Some(suffix) = strip_prefix(u.manifest_dir.as_str(), src) {
            let mut d = owned(project);
            d.append(suffix);
            dir = Some(d);
        }
        if let Some(d) = dir {
            u.original_manifest_dir = d;
        }
        assert(u@ =~= with_original_dir(before[i as int]@, src@, project@));
        units.set(i, u);
        i = i + 1;
    }
}

// ---------------------------------------------------------------------------
// Store paths
// ---------------------------------------------------------------------------

/// The store path that a path lies inside.
pub open spec fn store_root(path: Seq<char>) -> Option<Seq<char>> {
    if starts(path, "/nix/store/"@) {
        let rest = path.skip("/nix/store/"@.len() as int);
        match first_of(rest, '/') {
            Some(end) => Some("/nix/store/"@ + rest.take(end)),
            None => None,
        }
    } else {
        None
    }
}

/// The store path that a path lies inside; none if it is a store path itself or
/// lies elsewhere.
pub fn store_root_of(path: &str) -> (r: Option<String>)
    ensures
        opt_view(r) == store_root(path@),
{
    match strip_prefix(path, "/nix/store/") {
        Some(rest) => match split_once(rest, '/') {
            Some((name, _)) => {
                let mut r = owned("/nix/store/");
                r.append(name.as_str());
                Some(r)
            },
            None => None,
        },
        None => None,
    }
}

/// `v` with `x` at its end unless it is there already.
pub open spec fn push_new(v: Seq<Seq<char>>, x: Seq<char>) -> Seq<Seq<char>> {
    if v.contains(x) {
        v
    } else {
        v.push(x)
    }
}

/// Puts a string at the end of a list unless it is there already.
pub fn add_new(v: &mut Vec<String>, x: String)
    ensures
        views(final(v)@) == push_new(views(old(v)@), x@),
{
    let ghost before = views(v@);
    let ghost xv = x@;
    if !list_has(v, x.as_str()) {
        v.push(x);
        assert(views(v@) =~= before.push(xv));
    }
}

/// The store paths that the parts of a search path lie inside, each once.
pub open spec fn path_roots(parts: Seq<Seq<char>>) -> Seq<Seq<char>>
    decreases parts.len(),
{
    if parts.len() == 0 {
        Seq::empty()
    } else {
        let before = path_roots(parts.drop_last());
        match store_root(parts.last()) {
            Some(root) => push_new(before, root),
            None => before,
        }
    }
}

/// Collects the store paths that the parts of a search path lie inside.
pub fn search_path_roots(path: &str) -> (r: Vec<String>)
    ensures
        views(r@) == path_roots(split_seq(path@, ':')),
{
    let parts = split(path, ':');
    let ghost ps = views(parts@);
    let mut r: Vec<String> = Vec::new();
    let mut i: usize = 0;
    assert(views(r@) =~= Seq::empty());
    while i < parts.len()
        invariant
            i <= parts@.len(),
            ps == views(parts@),
            views(r@) == path_roots(ps.take(i as int)),
        decreases parts@.len() - i,
    {
        assert(ps.take(i + 1).drop_last() =~= ps.take(i as int));
        if let Some(root) = store_root_of(parts[i].as_str()) {
            add_new(&mut r, root);
        }
        i = i + 1;
    }
    assert(ps.take(ps.len() as int) =~= ps);
    r
}

/// The store path that a part of a value lies inside or is.
pub open spec fn value_root(part: Seq<char>) -> Option<Seq<char>> {
    match store_root(part) {
        Some(root) => Some(root),
        None => if starts(part, "/nix/store/"@) {
            Some(part)
        } else {
            None
        },
    }
}

/// The store paths that the parts of a value add.
pub open spec fn add_value_roots(v: Seq<Seq<char>>, parts: Seq<Seq<char>>) -> Seq<Seq<char>>
    decreases parts.len(),
{
    if parts.len() == 0 {
        v
    } else {
        let before = add_value_roots(v, parts.drop_last());
        match value_root(parts.last()) {
            Some(root) => push_new(before, root),
            None => before,
        }
    }
}

/// The store paths that the values of environment variables mention, each once.
pub open spec fn env_roots(envs: Seq<(Seq<char>, Seq<char>)>) -> Seq<Seq<char>>
    decreases envs.len(),
{
    if envs.len() == 0 {
        Seq::empty()
    } else {
        add_value_roots(env_roots(envs.drop_last()), split_seq(envs.last().1, ':'))
    }
}

fn add_roots_of_value(r: &mut Vec<String>, value: &str)
    ensures
        views(final(r)@) == add_value_roots(views(old(r)@), split_seq(value@, ':')),
{
    let ghost start = views(r@);
    let parts = split(value, ':');
    let ghost ps = views(parts@);
    let mut i: usize = 0;
    while i < parts.len()
        invariant
            i <= parts@.len(),
            ps == views(parts@),
            views(r@) == add_value_roots(start, ps.take(i as int)),
        decreases parts@.len() - i,
    {
        assert(ps.take(i + 1).drop_last() =~= ps.take(i as int));
        match store_root_of(parts[i].as_str()) {
            Some(root) => {
                add_new(r, root);
            },
            None => {
                if starts_with(parts[i].as_str(), "/nix/store/") {
                    add_new(r, parts[i].clone());
                }
            },
        }
        i = i + 1;
    }
    assert(ps.take(ps.len() as int) =~= ps);
}

/// Collects the store paths that the values of environment variables mention.
pub fn passthru_roots(envs: &Vec<(String, String)>) -> (r: Vec<String>)
    ensures
        views(r@) == env_roots(pair_views(envs@)),
{
    let ghost es = pair_views(envs@);
    let mut r: Vec<String> = Vec::new();
    let mut i: usize = 0;
    assert(views(r@) =~= Seq::empty());
    while i < envs.len()
        invariant
            i <= envs@.len(),
            es == pair_views(envs@),
            views(r@) == env_roots(es.take(i as int)),
        decreases envs@.len() - i,
    {
        assert(es.take(i + 1).drop_last() =~= es.take(i as int));
        add_roots_of_value(&mut r, envs[i].1.as_str());
        i = i + 1;
    }
    assert(es.take(es.len() as int) =~= es);
    r
}

/// The search path of pkg-config: that for the target before the general one.
pub open spec fn joined_search_path(for_target: Seq<char>, base: Seq<char>) -> Seq<char> {
    if for_target.len() == 0 {
        base
    } else if base.len() == 0 {
        for_target
    } else {
        for_target + ":"@ + base
    }
}

/// Joins the search paths of pkg-config.
pub fn pkg_config_search_path(for_target: &str, base: &str) -> (r: String)
    ensures
        r@ == joined_search_path(for_target@, base@),
{
    if for_target.is_empty() {
        owned(base)
    } else if base.is_empty() {
        owned(for_target)
    } else {
        let mut r = owned(for_target);
        r.append(":");
        r.append(base);
        r
    }
}

// ---------------------------------------------------------------------------
// Windows SDK
// ---------------------------------------------------------------------------

/// The library directories of a Windows SDK.
pub open spec fn sdk_lib_dirs(dir: Seq<char>, arch: Seq<char>) -> Seq<Seq<char>> {
    seq![
        dir + "/crt/lib/"@ + arch,
        dir + "/sdk/lib/um/"@ + arch,
        dir + "/sdk/lib/ucrt/"@ + arch,
    ]
}

/// Lists the library directories of a Windows SDK.
pub fn win_sdk_lib_dirs(dir: &str, arch: &str) -> (r: Vec<String>)
    ensures
        views(r@) == sdk_lib_dirs(dir@, arch@),
{
    let mut crt = owned(dir);
    crt.append("/crt/lib/");
    crt.append(arch);
    let mut um = owned(dir);
    um.append("/sdk/lib/um/");
    um.append(arch);
    let mut ucrt = owned(dir);
    ucrt.append("/sdk/lib/ucrt/");
    ucrt.append(arch);
    let mut r: Vec<String> = Vec::new();
    r.push(crt);
    r.push(um);
    r.push(ucrt);
    assert(views(r@) =~= sdk_lib_dirs(dir@, arch@));
    r
}

/// The store path of a Windows SDK: the one it lies inside, or its own.
pub open spec fn sdk_store(dir: Seq<char>) -> Seq<char> {
    match store_root(dir) {
        Some(root) => root,
        None => dir,
    }
}

/// The store path of a Windows SDK.
pub fn win_sdk_store(dir: &str) -> (r: String)
    ensures
        r@ == sdk_store(dir@),
{
    match store_root_of(dir) {
        Some(root) => root,
        None => owned(dir),
    }
}

// ---------------------------------------------------------------------------
// Closures
// ---------------------------------------------------------------------------

/// The store paths whose closures a plan needs.
pub struct ClosureRoots {
    pub rustc_store: String,
    pub host_cc_store: String,
    pub target_cc_store: String,
    pub clippy_store: Option<String>,
    pub win_sdk_store: Option<String>,
    pub sys_store_roots: Vec<String>,
    pub pkg_config_store: Option<String>,
    pub passthru_store_roots: Vec<String>,
}

/// An optional string as a list.
pub open spec fn opt_list(o: Option<String>) -> Seq<Seq<char>> {
    match o {
        Some(s) => seq![s@],
        None => Seq::empty(),
    }
}

/// The store paths whose closures a plan needs, in order and each once.
pub open spec fn closure_paths_seq(c: ClosureRoots, cross: bool) -> Seq<Seq<char>> {
    sorted_set(
        seq![c.rustc_store@, c.host_cc_store@] + opt_list(c.clippy_store) + (if cross {
            seq![c.target_cc_store@]
        } else {
            Seq::empty()
        }) + opt_list(c.win_sdk_store) + views(c.sys_store_roots@) + opt_list(c.pkg_config_store)
            + views(c.passthru_store_roots@),
    )
}

fn push_opt(v: &mut Vec<String>, o: &Option<String>)
    ensures
        views(final(v)@) == views(old(v)@) + opt_list(*o),
{
    let ghost before = views(v@);
    match o {
        Some(s) => {
            v.push(s.clone());
            assert(views(v@) =~= before + seq![s@]);
        },
        None => {
            assert(before + Seq::<Seq<char>>::empty() =~= before);
        },
    }
}

fn push_all(v: &mut Vec<String>, more: &Vec<String>)
    ensures
        views(final(v)@) == views(old(v)@) + views(more@),
{
    let ghost before = views(v@);
    let mut extra = clone_strings(more);
    let ghost e = views(extra@);
    v.append(&mut extra);
    assert(views(v@) =~= before + e);
}

/// Lists the store paths whose closures a plan needs.
pub fn closure_store_paths(c: &ClosureRoots, cross: bool) -> (r: Vec<String>)
    ensures
        views(r@) == closure_paths_seq(*c, cross),
{
    let mut v: Vec<String> = Vec::new();
    v.push(c.rustc_store.clone());
    v.push(c.host_cc_store.clone());
    assert(views(v@) =~= seq![c.rustc_store@, c.host_cc_store@]);
    push_opt(&mut v, &c.clippy_store);
    let ghost before = views(v@);
    if cross {
        v.push(c.target_cc_store.clone());
        assert(views(v@) =~= before + seq![c.target_cc_store@]);
    } else {
        assert(before + Seq::<Seq<char>>::empty() =~= before);
    }
    push_opt(&mut v, &c.win_sdk_store);
    push_all(&mut v, &c.sys_store_roots);
    push_opt(&mut v, &c.pkg_config_store);
    push_all(&mut v, &c.passthru_store_roots);
    sorted_unique(&v)
}

/// The closures that are known, by store path.
pub open spec fn closures(m: Map<Seq<char>, Vec<String>>) -> Map<Seq<char>, Seq<Seq<char>>> {
    m.map_values(|v: Vec<String>| views(v@))
}

/// The paths whose closure is not known.
pub open spec fn unknown_paths(paths: Seq<Seq<char>>, known: Map<Seq<char>, Seq<Seq<char>>>) -> Seq<
    Seq<char>,
>
    decreases paths.len(),
{
    if paths.len() == 0 {
        Seq::empty()
    } else if known.contains_key(paths.last()) {
        unknown_paths(paths.drop_last(), known)
    } else {
        unknown_paths(paths.drop_last(), known).push(paths.last())
    }
}

/// Lists the paths whose closure is not known.
pub fn uncached_paths(paths: &Vec<String>, cache: &StrMap<Vec<String>>) -> (r: Vec<String>)
    ensures
        views(r@) == unknown_paths(views(paths@), closures(cache@)),
{
    let ghost ps = views(paths@);
    let ghost known = closures(cache@);
    let mut r: Vec<String> = Vec::new();
    let mut i: usize = 0;
    assert(views(r@) =~= Seq::empty());
    while i < paths.len()
        invariant
            i <= paths@.len(),
            ps == views(paths@),
            known == closures(cache@),
            views(r@) == unknown_paths(ps.take(i as int), known),
        decreases paths@.len() - i,
    {
        assert(ps.take(i + 1).drop_last() =~= ps.take(i as int));
        if !cache.contains_key(paths[i].as_str()) {
            let ghost before = views(r@);
            r.push(paths[i].clone());
            assert(views(r@) =~= before.push(ps[i as int]));
        }
        i = i + 1;
    }
    assert(ps.take(ps.len() as int) =~= ps);
    r
}

/// The closure of a store path; empty if it is not known.
pub open spec fn closure_of(known: Map<Seq<char>, Seq<Seq<char>>>, path: Seq<char>) -> Seq<
    Seq<char>,
> {
    if known.contains_key(path) {
        known[path]
    } else {
        Seq::empty()
    }
}

/// The closure of a store path.
pub fn cached_closure(cache: &StrMap<Vec<String>>, path: &str) -> (r: Vec<String>)
    ensures
        views(r@) == closure_of(closures(cache@), path@),
{
    match cache.get(path) {
        Some(v) => clone_strings(v),
        None => {
            let r: Vec<String> = Vec::new();
            assert(views(r@) =~= Seq::empty());
            r
        },
    }
}

/// `v` with the strings of `more` that it does not hold.
pub open spec fn push_all_new(v: Seq<Seq<char>>, more: Seq<Seq<char>>) -> Seq<Seq<char>>
    decreases more.len(),
{
    if more.len() == 0 {
        v
    } else {
        push_new(push_all_new(v, more.drop_last()), more.last())
    }
}

/// The closures of several store paths together, each path once.
pub open spec fn closure_union(
    known: Map<Seq<char>, Seq<Seq<char>>>,
    roots: Seq<Seq<char>>,
) -> Seq<Seq<char>>
    decreases roots.len(),
{
    if roots.len() == 0 {
        Seq::empty()
    } else {
        push_all_new(closure_union(known, roots.drop_last()), closure_of(known, roots.last()))
    }
}

fn add_all_new(r: &mut Vec<String>, more: &Vec<String>)
    ensures
        views(final(r)@) == push_all_new(views(old(r)@), views(more@)),
{
    let ghost start = views(r@);
    let ghost ms = views(more@);
    let mut i: usize = 0;
    while i < more.len()
        invariant
            i <= more@.len(),
            ms == views(more@),
            views(r@) == push_all_new(start, ms.take(i as int)),
        decreases more@.len() - i,
    {
        assert(ms.take(i + 1).drop_last() =~= ms.take(i as int));
        add_new(r, more[i].clone());
        i = i + 1;
    }
    assert(ms.take(ms.len() as int) =~= ms);
}

/// Joins the closures of several store paths.
pub fn union_of_closures(cache: &StrMap<Vec<String>>, roots: &Vec<String>) -> (r: Vec<String>)
    ensures
        views(r@) == closure_union(closures(cache@), views(roots@)),
{
    let ghost rs = views(roots@);
    let ghost known = closures(cache@);
    let mut r: Vec<String> = Vec::new();
    let mut i: usize = 0;
    assert(views(r@) =~= Seq::empty());
    while i < roots.len()
        invariant
            i <= roots@.len(),
            rs == views(roots@),
            known == closures(cache@),
            views(r@) == closure_union(known, rs.take(i as int)),
        decreases roots@.len() - i,
    {
        assert(rs.take(i + 1).drop_last() =~= rs.take(i as int));
        let closure = cached_closure(cache, roots[i].as_str());
        add_all_new(&mut r, &closure);
        i = i + 1;
    }
    assert(rs.take(rs.len() as int) =~= rs);
    r
}

// ---------------------------------------------------------------------------
// System libraries
// ---------------------------------------------------------------------------

/// The first strings of pairs hold a string.
pub open spec fn has_first(v: Seq<(Seq<char>, Seq<char>)>, s: Seq<char>) -> bool {
    exists|i: int| 0 <= i < v.len() && (#[trigger] v[i]).0 == s
}

/// The package that a unit is named after: its own, or its crate.
pub open spec fn shown_package(u: UnitView) -> Seq<char> {
    match pair_lookup(u.cargo_envs, "CARGO_PKG_NAME"@) {
        Some(name) => name,
        None => u.crate_name,
    }
}

/// The native libraries that units link to, each with the package that needs it
/// first.
pub open spec fn libraries(us: Seq<UnitView>) -> Seq<(Seq<char>, Seq<char>)>
    decreases us.len(),
{
    if us.len() == 0 {
        Seq::empty()
    } else {
        let before = libraries(us.drop_last());
        match us.last().links {
            Some(l) if !has_first(before, l) => before.push((l, shown_package(us.last()))),
            _ => before,
        }
    }
}

fn first_has(v: &Vec<(String, String)>, s: &str) -> (r: bool)
    ensures
        r == has_first(pair_views(v@), s@),
{
    let ghost ps = pair_views(v@);
    let mut i: usize = 0;
    while i < v.len()
        invariant
            i <= v@.len(),
            ps == pair_views(v@),
            forall|j: int| 0 <= j < i ==> (#[trigger] ps[j]).0 != s@,
        decreases v@.len() - i,
    {
        assert(ps[i as int].0 == v@[i as int].0@);
        if same(v[i].0.as_str(), s) {
            return true;
        }
        i = i + 1;
    }
    false
}

/// Lists the native libraries that units link to, each with the package that
/// needs it first.
pub fn system_libraries(units: &Vec<NixUnit>) -> (r: Vec<(String, String)>)
    ensures
        pair_views(r@) == libraries(unit_views(units@)),
{
    let ghost us = unit_views(units@);
    let mut r: Vec<(String, String)> = Vec::new();
    let mut i: usize = 0;
    assert(pair_views(r@) =~= Seq::empty());
    while i < units.len()
        invariant
            i <= units@.len(),
            us == unit_views(units@),
            pair_views(r@) == libraries(us.take(i as int)),
        decreases units@.len() - i,
    {
        assert(us.take(i + 1).drop_last() =~= us.take(i as int));
        assert(us.take(i + 1).last() == units@[i as int]@);
        if let Some(links) = &units[i].links {
            if !first_has(&r, links.as_str()) {
                let ghost before = pair_views(r@);
                let name = match find_pair(&units[i].cargo_envs, "CARGO_PKG_NAME") {
                    Some(name) => name.clone(),
                    None => units[i].crate_name.clone(),
                };
                let ghost nv = name@;
                r.push((links.clone(), name));
                assert(pair_views(r@) =~= before.push((links@, nv)));
            }
        }
        i = i + 1;
    }
    assert(us.take(us.len() as int) =~= us);
    r
}

/// The warning about a native library that pkg-config does not find.
pub open spec fn library_warning_seq(library: Seq<char>, package: Seq<char>) -> Seq<char> {
    "System library '"@ + library + "' (needed by "@ + package
        + ") not found via pkg-config. Add the corresponding package to buildInputs to make it available."@
}

/// Writes the warning about a native library that pkg-config does not find.
pub fn library_warning(library: &str, package: &str) -> (r: String)
    ensures
        r@ == library_warning_seq(library@, package@),
{
    let mut r = owned("System library '");
    r.append(library);
    r.append("' (needed by ");
    r.append(package);
    r.append(
        ") not found via pkg-config. Add the corresponding package to buildInputs to make it available.",
    );
    r
}

// ---------------------------------------------------------------------------
// Laws
// ---------------------------------------------------------------------------

/// Refreshing a graph for the source it was made for only forgets derivations.
pub proof fn law_refresh_same_source(u: UnitView, src: Seq<char>)
    ensures
        refreshed(u, src, src) == (UnitView { drv_path: None, ..u }),
{
    if starts(u.source_file, src) {
        assert(src + u.source_file.skip(src.len() as int) =~= u.source_file);
    }
    if starts(u.manifest_dir, src) {
        assert(src + u.manifest_dir.skip(src.len() as int) =~= u.manifest_dir);
    }
    assert(refreshed(u, src, src) =~= (UnitView { drv_path: None, ..u }));
}

/// Refreshing a graph twice is refreshing it for the last source.
pub proof fn law_refresh_composes(u: UnitView, a: Seq<char>, b: Seq<char>, c: Seq<char>)
    requires
        starts(u.source_file, a),
        starts(u.manifest_dir, a),
    ensures
        refreshed(refreshed(u, a, b), b, c) == refreshed(u, a, c),
{
    let s = u.source_file.skip(a.len() as int);
    let m = u.manifest_dir.skip(a.len() as int);
    assert((b + s).take(b.len() as int) =~= b);
    assert((b + s).skip(b.len() as int) =~= s);
    assert((b + m).take(b.len() as int) =~= b);
    assert((b + m).skip(b.len() as int) =~= m);
}

/// A union of closures holds exactly what the closures hold.
pub proof fn law_union_holds_closures(
    known: Map<Seq<char>, Seq<Seq<char>>>,
    roots: Seq<Seq<char>>,
    x: Seq<char>,
)
    ensures
        closure_union(known, roots).contains(x) <==> exists|i: int|
            0 <= i < roots.len() && closure_of(known, #[trigger] roots[i]).contains(x),
    decreases roots.len(),
{
    if roots.len() > 0 {
        let t = roots.drop_last();
        let last = closure_of(known, roots.last());
        law_union_holds_closures(known, t, x);
        lemma_push_all_new(closure_union(known, t), last, x);
        if closure_union(known, roots).contains(x) {
            if closure_union(known, t).contains(x) {
                let i = choose|i: int|
                    0 <= i < t.len() && closure_of(known, #[trigger] t[i]).contains(x);
                assert(roots[i] == t[i]);
            } else {
                assert(closure_of(known, roots[roots.len() - 1]).contains(x));
            }
        }
        if exists|i: int| 0 <= i < roots.len() && closure_of(known, #[trigger] roots[i]).contains(
            x,
        ) {
            let i = choose|i: int|
                0 <= i < roots.len() && closure_of(known, #[trigger] roots[i]).contains(x);
            if i < t.len() {
                assert(t[i] == roots[i]);
            }
        }
    }
}

proof fn lemma_push_all_new(v: Seq<Seq<char>>, more: Seq<Seq<char>>, x: Seq<char>)
    ensures
        push_all_new(v, more).contains(x) <==> v.contains(x) || more.contains(x),
    decreases more.len(),
{
    if more.len() > 0 {
        let t = more.drop_last();
        lemma_push_all_new(v, t, x);
        let before = push_all_new(v, t);
        let y = more.last();
        if more.contains(x) && x != y {
            let i = choose|i: int| 0 <= i < more.len() && more[i] == x;
            assert(t[i] == x);
        }
        if t.contains(x) {
            let i = choose|i: int| 0 <= i < t.len() && t[i] == x;
            assert(more[i] == x);
        }
        assert(more[more.len() - 1] == y);
        if !before.contains(y) {
            let p = before.push(y);
            assert(p[before.len() as int] == y);
            if before.contains(x) {
                let i = choose|i: int| 0 <= i < before.len() && before[i] == x;
                assert(p[i] == x);
            }
            if p.contains(x) && x != y {
                let i = choose|i: int| 0 <= i < p.len() && p[i] == x;
                assert(before[i] == x);
            }
        }
    }
}

} // verus!
