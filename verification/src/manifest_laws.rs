//! Where a manifest's entries are read, and which paths of it are followed.
use crate::manifest::{
    bin_name_of, extra_includes_of, has_workspace, member_patterns_of, package_name_of,
    package_version_of, scope_of, sys_env_of, text_entries, ScopeView,
};
use crate::path_deps::{inner_place, paths_in, paths_under, taken_in, Place};
use crate::paths::{below_dir, extra_source_name, path_below, relative, same_path};
use crate::resolution::SpecView;
use crate::toml_doc::{entry_lookup, texts_among, toml_dig, toml_get, toml_str, TomlView};
use vstd::prelude::*;

verus! {

proof fn lemma_dig_two(t: TomlView, a: Seq<char>, b: Seq<char>)
    ensures
        toml_dig(Some(t), seq![a, b]) == (match toml_get(t, a) {
            Some(v) => toml_get(v, b),
            None => None,
        }),
{
    let keys = seq![a, b];
    assert(keys.drop_last() =~= seq![a]);
    assert(keys.drop_last().drop_last() =~= Seq::empty());
    assert(toml_dig(Some(t), keys.drop_last().drop_last()) == Some(t));
    assert(toml_dig(Some(t), keys.drop_last()) == toml_get(t, a));
}

proof fn lemma_dig_four(t: TomlView, a: Seq<char>, b: Seq<char>, c: Seq<char>, d: Seq<char>)
    ensures
        toml_dig(Some(t), seq![a, b, c, d]) == (match toml_get(t, a) {
            Some(v) => match toml_get(v, b) {
                Some(w) => match toml_get(w, c) {
                    Some(x) => toml_get(x, d),
                    None => None,
                },
                None => None,
            },
            None => None,
        }),
{
    let keys = seq![a, b, c, d];
    let three = keys.drop_last();
    let two = three.drop_last();
    assert(two =~= seq![a, b]);
    assert(three.last() == c);
    lemma_dig_two(t, a, b);
    assert(toml_dig(Some(t), three) == (match toml_dig(Some(t), two) {
        Some(w) => toml_get(w, c),
        None => None,
    }));
}

/// A package's name and version are the entries of its table.
pub proof fn law_package_entries(t: TomlView, package: TomlView)
    requires
        toml_get(t, "package"@) == Some(package),
    ensures
        package_name_of(t) == toml_str(toml_get(package, "name"@)),
        package_version_of(t) == toml_str(toml_get(package, "version"@)),
{
    lemma_dig_two(t, "package"@, "name"@);
    lemma_dig_two(t, "package"@, "version"@);
}

/// Without its table a package has no name and no version.
pub proof fn law_no_package(t: TomlView)
    requires
        toml_get(t, "package"@) is None,
    ensures
        package_name_of(t) is None,
        package_version_of(t) is None,
{
    lemma_dig_two(t, "package"@, "name"@);
    lemma_dig_two(t, "package"@, "version"@);
}

/// A program is named by the first of the manifest's programs, or by the package.
pub proof fn law_program_is_named(t: TomlView, bins: Seq<TomlView>, name: Seq<char>)
    ensures
        toml_get(t, "bin"@) == Some(TomlView::Array(bins)) && bins.len() > 0 && toml_get(
            bins[0],
            "name"@,
        ) == Some(TomlView::Text(name)) ==> bin_name_of(t) == Some(name),
        toml_get(t, "bin"@) is None ==> bin_name_of(t) == package_name_of(t),
        toml_get(t, "bin"@) == Some(TomlView::Array(Seq::empty())) ==> bin_name_of(t)
            == package_name_of(t),
{
}

/// A manifest that has the table is a workspace's, and its members are the texts of the
/// list there.
pub proof fn law_workspace_members(t: TomlView, ws: TomlView, members: Seq<TomlView>)
    requires
        toml_get(t, "workspace"@) == Some(ws),
    ensures
        has_workspace(t),
        toml_get(ws, "members"@) == Some(TomlView::Array(members)) ==> member_patterns_of(t) == Some(
            texts_among(members),
        ),
        toml_get(ws, "members"@) is None ==> member_patterns_of(t) is None,
{
    lemma_dig_two(t, "workspace"@, "members"@);
}

/// The texts of a list are kept in order, and nothing else is.
pub proof fn law_texts_are_kept(v: Seq<TomlView>)
    ensures
        texts_among(v) == v.filter(|x: TomlView| x is Text).map_values(|x: TomlView| x->Text_0),
    decreases v.len(),
{
    reveal(Seq::filter);
    let p = |x: TomlView| x is Text;
    let f = |x: TomlView| x->Text_0;
    if v.len() > 0 {
        law_texts_are_kept(v.drop_last());
        let rest = v.drop_last().filter(p);
        if p(v.last()) {
            assert(v.filter(p) == rest.push(v.last()));
            assert(rest.push(v.last()).map_values(f) =~= rest.map_values(f).push(f(v.last())));
        } else {
            assert(v.filter(p) == rest);
        }
    } else {
        assert(v.filter(p).map_values(f) =~= Seq::empty());
    }
}

/// The entry of this tool's table under an owner.
pub open spec fn own_entry(t: TomlView, owner: Seq<char>, key: Seq<char>) -> Option<TomlView> {
    match toml_get(t, owner) {
        Some(o) => match toml_get(o, "metadata"@) {
            Some(m) => match toml_get(m, "schnee"@) {
                Some(s) => toml_get(s, key),
                None => None,
            },
            None => None,
        },
        None => None,
    }
}

/// Extra files and the project's own variables are taken from the workspace's metadata,
/// and from the package's where the workspace has none.
pub proof fn law_workspace_comes_first(
    t: TomlView,
    items: Seq<TomlView>,
    entries: Seq<(Seq<char>, TomlView)>,
)
    ensures
        own_entry(t, "workspace"@, "extra-includes"@) == Some(TomlView::Array(items))
            ==> extra_includes_of(t) == texts_among(items),
        own_entry(t, "workspace"@, "extra-includes"@) is None && own_entry(
            t,
            "package"@,
            "extra-includes"@,
        ) == Some(TomlView::Array(items)) ==> extra_includes_of(t) == texts_among(items),
        own_entry(t, "workspace"@, "extra-includes"@) is None && own_entry(
            t,
            "package"@,
            "extra-includes"@,
        ) is None ==> extra_includes_of(t).len() == 0,
        own_entry(t, "workspace"@, "sys-env"@) == Some(TomlView::Table(entries)) ==> sys_env_of(t)
            == text_entries(entries),
        own_entry(t, "workspace"@, "sys-env"@) is None && own_entry(t, "package"@, "sys-env"@)
            == Some(TomlView::Table(entries)) ==> sys_env_of(t) == text_entries(entries),
        own_entry(t, "workspace"@, "sys-env"@) is None && own_entry(t, "package"@, "sys-env"@)
            is None ==> sys_env_of(t).len() == 0,
{
    lemma_dig_four(t, "workspace"@, "metadata"@, "schnee"@, "extra-includes"@);
    lemma_dig_four(t, "package"@, "metadata"@, "schnee"@, "extra-includes"@);
    lemma_dig_four(t, "workspace"@, "metadata"@, "schnee"@, "sys-env"@);
    lemma_dig_four(t, "package"@, "metadata"@, "schnee"@, "sys-env"@);
}

/// Of a table the entries that are texts are kept, in order.
pub proof fn law_text_entries_are_kept(m: Seq<(Seq<char>, TomlView)>)
    ensures
        text_entries(m) == m.filter(|e: (Seq<char>, TomlView)| e.1 is Text).map_values(
            |e: (Seq<char>, TomlView)| (e.0, e.1->Text_0),
        ),
    decreases m.len(),
{
    reveal(Seq::filter);
    let p = |e: (Seq<char>, TomlView)| e.1 is Text;
    let f = |e: (Seq<char>, TomlView)| (e.0, e.1->Text_0);
    if m.len() > 0 {
        law_text_entries_are_kept(m.drop_last());
        let rest = m.drop_last().filter(p);
        if p(m.last()) {
            assert(m.filter(p) == rest.push(m.last()));
            assert(rest.push(m.last()).map_values(f) =~= rest.map_values(f).push(f(m.last())));
        } else {
            assert(m.filter(p) == rest);
        }
    } else {
        assert(m.filter(p).map_values(f) =~= Seq::empty());
    }
}

/// A scope is the one with the key that was asked for, or the default where there is no
/// such key; without either, and without a table of scopes, there is none.
pub proof fn law_scope_is_found(
    t: TomlView,
    key: Seq<char>,
    path: Seq<char>,
    scopes: Seq<(Seq<char>, TomlView)>,
)
    ensures
        own_entry(t, "workspace"@, "resolution"@) is None ==> scope_of(t, key, path) is Err,
        own_entry(t, "workspace"@, "resolution"@) == Some(TomlView::Table(scopes)) ==> {
            &&& entry_lookup(scopes, key) is Some ==> (scope_of(t, key, path) matches Ok(s)
                ==> s.key == key)
            &&& entry_lookup(scopes, key) == Some(TomlView::Text("workspace"@)) ==> scope_of(
                t,
                key,
                path,
            ) == Ok::<ScopeView, Seq<char>>(ScopeView { key, spec: SpecView::Workspace })
            &&& entry_lookup(scopes, key) is None ==> scope_of(t, key, path) is Ok
                ==> entry_lookup(scopes, "default"@) is Some && scope_of(t, key, path)->Ok_0.key
                == "default"@
            &&& entry_lookup(scopes, key) is None && entry_lookup(scopes, "default"@) is None
                ==> scope_of(t, key, path) is Err
        },
{
    lemma_dig_four(t, "workspace"@, "metadata"@, "schnee"@, "resolution"@);
}

// ---------------------------------------------------------------------------
// Path dependencies
// ---------------------------------------------------------------------------

proof fn lemma_paths_under(place: Place, m: Seq<(Seq<char>, TomlView)>, i: int, inner: Place, p: Seq<char>)
    requires
        0 <= i < m.len(),
        inner_place(place, m[i].0) == Some(inner),
        paths_in(inner, m[i].1).contains(p),
    ensures
        paths_under(place, m).contains(p),
    decreases m.len(),
{
    let before = paths_under(place, m.drop_last());
    let all = paths_under(place, m);
    let more = match inner_place(place, m.last().0) {
        Some(inner) => paths_in(inner, m.last().1),
        None => Seq::empty(),
    };
    assert(all == before + more);
    if i == m.len() - 1 {
        let k = choose|k: int| 0 <= k < more.len() && more[k] == p;
        assert(all[before.len() + k] == p);
    } else {
        lemma_paths_under(place, m.drop_last(), i, inner, p);
        let k = choose|k: int| 0 <= k < before.len() && before[k] == p;
        assert(all[k] == p);
    }
}

/// A table of dependencies holds a dependency with a path.
pub open spec fn depends_on_path(deps: TomlView, j: int, p: Seq<char>) -> bool {
    deps is Table && 0 <= j < deps->Table_0.len() && toml_str(
        toml_get(deps->Table_0[j].1, "path"@),
    ) == Some(p)
}

proof fn lemma_dependencies(deps: TomlView, j: int, p: Seq<char>)
    requires
        depends_on_path(deps, j, p),
    ensures
        paths_in(Place::Dependencies, deps).contains(p),
{
    let d = deps->Table_0[j].1;
    assert(d is Table);
    assert(paths_in(Place::Dependency, d) == seq![p]);
    assert(seq![p][0] == p);
    lemma_paths_under(Place::Dependencies, deps->Table_0, j, Place::Dependency, p);
}

/// Every path of a dependency is found: of an ordinary one, of one of tests and of one of
/// build scripts.
pub proof fn law_paths_are_found(t: TomlView, i: int, j: int, p: Seq<char>)
    requires
        t is Table,
        0 <= i < t->Table_0.len(),
        depends_on_path(t->Table_0[i].1, j, p),
        t->Table_0[i].0 == "dependencies"@ || t->Table_0[i].0 == "dev-dependencies"@
            || t->Table_0[i].0 == "build-dependencies"@,
    ensures
        paths_in(Place::Document, t).contains(p),
{
    lemma_dependencies(t->Table_0[i].1, j, p);
    lemma_paths_under(Place::Document, t->Table_0, i, Place::Dependencies, p);
}

/// The dependencies of a workspace, and patches, are followed too.
pub proof fn law_shared_paths_are_found(t: TomlView, i: int, k: int, j: int, p: Seq<char>)
    requires
        t is Table,
        0 <= i < t->Table_0.len(),
        t->Table_0[i].1 is Table,
        0 <= k < t->Table_0[i].1->Table_0.len(),
        depends_on_path(t->Table_0[i].1->Table_0[k].1, j, p),
        (t->Table_0[i].0 == "workspace"@ && t->Table_0[i].1->Table_0[k].0 == "dependencies"@)
            || t->Table_0[i].0 == "patch"@,
    ensures
        paths_in(Place::Document, t).contains(p),
{
    lemma_section_names();
    let inner = t->Table_0[i].1;
    lemma_dependencies(inner->Table_0[k].1, j, p);
    let place = if t->Table_0[i].0 == "workspace"@ {
        Place::Workspace
    } else {
        Place::Patches
    };
    lemma_paths_under(place, inner->Table_0, k, Place::Dependencies, p);
    assert(paths_in(place, inner) == paths_under(place, inner->Table_0));
    lemma_paths_under(Place::Document, t->Table_0, i, place, p);
}

/// The dependencies of one target are followed too.
pub proof fn law_target_paths_are_found(t: TomlView, i: int, g: int, k: int, j: int, p: Seq<char>)
    requires
        t is Table,
        0 <= i < t->Table_0.len(),
        t->Table_0[i].0 == "target"@,
        t->Table_0[i].1 is Table,
        0 <= g < t->Table_0[i].1->Table_0.len(),
        t->Table_0[i].1->Table_0[g].1 is Table,
        0 <= k < t->Table_0[i].1->Table_0[g].1->Table_0.len(),
        ({
            let section = t->Table_0[i].1->Table_0[g].1->Table_0[k];
            &&& section.0 == "dependencies"@ || section.0 == "dev-dependencies"@ || section.0
                == "build-dependencies"@
            &&& depends_on_path(section.1, j, p)
        }),
    ensures
        paths_in(Place::Document, t).contains(p),
{
    lemma_section_names();
    let targets = t->Table_0[i].1;
    let sections = targets->Table_0[g].1;
    lemma_dependencies(sections->Table_0[k].1, j, p);
    lemma_paths_under(Place::Sections, sections->Table_0, k, Place::Dependencies, p);
    assert(paths_in(Place::Sections, sections) == paths_under(
        Place::Sections,
        sections->Table_0,
    ));
    lemma_paths_under(Place::Targets, targets->Table_0, g, Place::Sections, p);
    assert(paths_in(Place::Targets, targets) == paths_under(Place::Targets, targets->Table_0));
    lemma_paths_under(Place::Document, t->Table_0, i, Place::Targets, p);
}

proof fn lemma_section_names()
    ensures
        inner_place(Place::Document, "workspace"@) == Some(Place::Workspace),
        inner_place(Place::Document, "patch"@) == Some(Place::Patches),
        inner_place(Place::Document, "target"@) == Some(Place::Targets),
{
    reveal_strlit("dependencies");
    reveal_strlit("dev-dependencies");
    reveal_strlit("build-dependencies");
    reveal_strlit("workspace");
    reveal_strlit("target");
    reveal_strlit("patch");
    assert("dependencies"@.len() == 12 && "dev-dependencies"@.len() == 16);
    assert("build-dependencies"@.len() == 18 && "workspace"@.len() == 9);
    assert("target"@.len() == 6 && "patch"@.len() == 5);
}

/// A dependency that lies in the project is not taken in. One outside is, under its own
/// name, and with it the workspace that it belongs to, if any.
pub proof fn law_outside_is_taken_in(
    project_dir: Seq<char>,
    project: Seq<char>,
    canonical: Seq<char>,
    w: Seq<char>,
    name: Seq<char>,
)
    ensures
        path_below(canonical, project) ==> taken_in(project_dir, project, canonical, None).len()
            == 0 && taken_in(project_dir, project, canonical, Some(w)).len() == 0,
        !path_below(canonical, project) && extra_source_name(relative(project_dir, canonical)) == Ok::<
            Seq<char>,
            Seq<char>,
        >(name) ==> taken_in(project_dir, project, canonical, None) == seq![(canonical, name)],
        !path_below(canonical, project) && extra_source_name(relative(project_dir, w)) == Ok::<
            Seq<char>,
            Seq<char>,
        >(name) ==> {
            let taken = taken_in(project_dir, project, canonical, Some(w));
            &&& taken[0] == (w, name)
            &&& same_path(canonical, w) ==> taken.len() == 1
            &&& !same_path(canonical, w) && path_below(canonical, w) ==> taken.len() == 2
                && taken[1] == (canonical, name + "/"@ + below_dir(canonical, w))
        },
{
}

} // verus!
