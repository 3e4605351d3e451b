//! Dependencies by path: those that lie outside the project are taken into its
//! source, and the manifests are rewritten to find them there.
use crate::lists::reversed;
use crate::manifest::{declares_workspace, manifest_declares};
use crate::paths::{
    below_dir, extra_source_name, is_path_below, is_same_path, path_below, push_path, pushed,
    relative, relative_path, same_path, sanitise_extra_source_name, strip_dir,
};
use crate::text::{
    insert_unique, lemma_insert_unique_props, lemma_split_nonempty, lemma_str_lt_order, less, owned,
    same, split, split_seq, str_lt, strictly_sorted, views,
};
use crate::toml_doc::{
    as_text, entry_keys, entry_lookup, entry_views, find_entry, item_views, lemma_all_well_formed,
    lemma_toml_array, lemma_toml_table, lemma_values_well_formed, parse_toml, toml_document,
    toml_str, toml_text, values_well_formed, well_formed, write_toml, written, Toml, TomlView,
};
use crate::units::{list_has, pair_views};
use vstd::prelude::*;

verus! {

// ---------------------------------------------------------------------------
// Where dependencies stand
// ---------------------------------------------------------------------------

/// A part of a manifest, by what stands in it.
#[derive(Clone, Copy, PartialEq, Eq, Structural)]
pub enum Place {
    /// The whole manifest.
    Document,
    /// The workspace.
    Workspace,
    /// The tables of the targets.
    Targets,
    /// A table with sections of dependencies.
    Sections,
    /// The tables of the patched sources.
    Patches,
    /// A table of dependencies.
    Dependencies,
    /// A dependency.
    Dependency,
}

/// A key under which dependencies stand.
pub open spec fn is_section(key: Seq<char>) -> bool {
    key == "dependencies"@ || key == "dev-dependencies"@ || key == "build-dependencies"@
}

/// What stands under a key of a part, where dependencies can stand below it.
pub open spec fn inner_place(place: Place, key: Seq<char>) -> Option<Place> {
    match place {
        Place::Document => if is_section(key) {
            Some(Place::Dependencies)
        } else if key == "workspace"@ {
            Some(Place::Workspace)
        } else if key == "target"@ {
            Some(Place::Targets)
        } else if key == "patch"@ {
            Some(Place::Patches)
        } else {
            None
        },
        Place::Workspace => if key == "dependencies"@ {
            Some(Place::Dependencies)
        } else {
            None
        },
        Place::Targets => Some(Place::Sections),
        Place::Sections => if is_section(key) {
            Some(Place::Dependencies)
        } else {
            None
        },
        Place::Patches => Some(Place::Dependencies),
        Place::Dependencies => Some(Place::Dependency),
        Place::Dependency => None,
    }
}

fn names_section(key: &str) -> (r: bool)
    ensures
        r == is_section(key@),
{
    same(key, "dependencies") || same(key, "dev-dependencies") || same(key, "build-dependencies")
}

fn place_under(place: Place, key: &str) -> (r: Option<Place>)
    ensures
        r == inner_place(place, key@),
{
    match place {
        Place::Document => if names_section(key) {
            Some(Place::Dependencies)
        } else if same(key, "workspace") {
            Some(Place::Workspace)
        } else if same(key, "target") {
            Some(Place::Targets)
        } else if same(key, "patch") {
            Some(Place::Patches)
        } else {
            None
        },
        Place::Workspace => if same(key, "dependencies") {
            Some(Place::Dependencies)
        } else {
            None
        },
        Place::Targets => Some(Place::Sections),
        Place::Sections => if names_section(key) {
            Some(Place::Dependencies)
        } else {
            None
        },
        Place::Patches => Some(Place::Dependencies),
        Place::Dependencies => Some(Place::Dependency),
        Place::Dependency => None,
    }
}

/// The path of a dependency.
pub open spec fn dependency_path(v: TomlView) -> Option<Seq<char>> {
    match v {
        TomlView::Table(m) => toml_str(entry_lookup(m, "path"@)),
        _ => None,
    }
}

/// The paths of the dependencies in a part of a manifest.
pub open spec fn paths_in(place: Place, v: TomlView) -> Seq<Seq<char>>
    decreases v,
{
    if place == Place::Dependency {
        match dependency_path(v) {
            Some(p) => seq![p],
            None => Seq::empty(),
        }
    } else {
        match v {
            TomlView::Table(m) => paths_under(place, m),
            _ => Seq::empty(),
        }
    }
}

/// The paths of the dependencies in the entries of a part.
pub open spec fn paths_under(place: Place, m: Seq<(Seq<char>, TomlView)>) -> Seq<Seq<char>>
    decreases m,
{
    if m.len() == 0 {
        Seq::empty()
    } else {
        paths_under(place, m.drop_last()) + (match inner_place(place, m.last().0) {
            Some(inner) => paths_in(inner, m.last().1),
            None => Seq::empty(),
        })
    }
}

fn collect_paths(place: Place, v: &Toml) -> (r: Vec<String>)
    ensures
        views(r@) == paths_in(place, v@),
    decreases v,
{
    let mut r: Vec<String> = Vec::new();
    assert(views(r@) =~= Seq::empty());
    match v {
        Toml::Table(m) => {
            proof {
                lemma_toml_table(*m);
            }
            if place == Place::Dependency {
                if let Some(p) = as_text(find_entry(m, "path")) {
                    r.push(p.clone());
                    assert(views(r@) =~= seq![p@]);
                }
                return r;
            }
            let ghost all = entry_views(m@);
            let mut i: usize = 0;
            while i < m.len()
                invariant
                    i <= m@.len(),
                    v is Table,
                    *m == v->Table_0,
                    all == entry_views(m@),
                    place != Place::Dependency,
                    views(r@) == paths_under(place, all.take(i as int)),
                decreases m@.len() - i,
            {
                assert(all.take(i + 1).drop_last() =~= all.take(i as int));
                assert(all.take(i + 1).last() == (m@[i as int].0@, m@[i as int].1@));
                let ghost before = views(r@);
                match place_under(place, m[i].0.as_str()) {
                    Some(inner) => {
                        assert(decreases_to!(*v => v->Table_0));
                        let mut more = collect_paths(inner, &m[i].1);
                        let ghost mv = views(more@);
                        r.append(&mut more);
                        assert(views(r@) =~= before + mv);
                    },
                    None => {
                        assert(before + Seq::<Seq<char>>::empty() =~= before);
                    },
                }
                i = i + 1;
            }
            assert(all.take(all.len() as int) =~= all);
            r
        },
        Toml::Array(a) => {
            proof {
                lemma_toml_array(*a);
            }
            r
        },
        _ => r,
    }
}

/// Lists the paths of all dependencies of a manifest.
pub fn path_dependencies(doc: &Toml) -> (r: Vec<String>)
    ensures
        views(r@) == paths_in(Place::Document, doc@),
{
    collect_paths(Place::Document, doc)
}

/// Reads the paths of all dependencies from a manifest; none if it is no TOML
/// document.
pub fn read_path_dependencies(text: &str) -> (r: Option<Vec<String>>)
    ensures
        match (r, toml_document(text@)) {
            (Some(v), Ok(t)) => views(v@) == paths_in(Place::Document, t),
            (None, Err(_)) => true,
            _ => false,
        },
{
    match parse_toml(text) {
        Ok(doc) => Some(path_dependencies(&doc)),
        Err(_) => None,
    }
}

// ---------------------------------------------------------------------------
// Dependencies outside the project
// ---------------------------------------------------------------------------

/// What a dependency at `canonical` adds to the sources that are taken in, each
/// with its name there. One inside a workspace of its own takes the whole
/// workspace in.
pub open spec fn taken_in(
    project_dir: Seq<char>,
    project_canonical: Seq<char>,
    canonical: Seq<char>,
    workspace: Option<Seq<char>>,
) -> Seq<(Seq<char>, Seq<char>)> {
    if path_below(canonical, project_canonical) {
        Seq::empty()
    } else {
        match workspace {
            Some(w) => match extra_source_name(relative(project_dir, w)) {
                Ok(name) => if same_path(canonical, w) {
                    seq![(w, name)]
                } else {
                    seq![
                        (w, name),
                        (
                            canonical,
                            name + "/"@ + (if path_below(canonical, w) {
                                below_dir(canonical, w)
                            } else {
                                Seq::empty()
                            }),
                        ),
                    ]
                },
                Err(_) => Seq::empty(),
            },
            None => match extra_source_name(relative(project_dir, canonical)) {
                Ok(name) => seq![(canonical, name)],
                Err(_) => Seq::empty(),
            },
        }
    }
}

/// Names what a dependency adds to the sources that are taken in. `canonical` is
/// where it lies, and `workspace` the root of the workspace around it if that lies
/// outside the project.
pub fn external_sources(
    project_dir: &str,
    project_canonical: &str,
    canonical: &str,
    workspace: Option<&str>,
) -> (r: Vec<(String, String)>)
    ensures
        pair_views(r@) == taken_in(
            project_dir@,
            project_canonical@,
            canonical@,
            match workspace {
                Some(w) => Some(w@),
                None => None,
            },
        ),
{
    let mut r: Vec<(String, String)> = Vec::new();
    assert(pair_views(r@) =~= Seq::empty());
    if is_path_below(canonical, project_canonical) {
        return r;
    }
    match workspace {
        Some(w) => {
            let rel = relative_path(project_dir, w);
            if let Ok(name) = sanitise_extra_source_name(rel.as_str()) {
                if is_same_path(canonical, w) {
                    r.push((owned(w), name));
                    assert(pair_views(r@) =~= seq![(w@, name@)]);
                } else {
                    let mut inner = name.clone();
                    inner.append("/");
                    if is_path_below(canonical, w) {
                        let sub = strip_dir(canonical, w);
                        inner.append(sub.as_str());
                    } else {
                        assert(inner@ + Seq::<char>::empty() =~= inner@);
                    }
                    r.push((owned(w), name));
                    r.push((owned(canonical), inner));
                    assert(pair_views(r@) =~= seq![(w@, name@), (canonical@, inner@)]);
                }
            }
        },
        None => {
            let rel = relative_path(project_dir, canonical);
            if let Ok(name) = sanitise_extra_source_name(rel.as_str()) {
                r.push((owned(canonical), name));
                assert(pair_views(r@) =~= seq![(canonical@, name@)]);
            }
        },
    }
    r
}

/// The name of a path in a list of sources.
pub open spec fn source_name(v: Seq<(Seq<char>, Seq<char>)>, path: Seq<char>) -> Option<Seq<char>>
    decreases v.len(),
{
    if v.len() == 0 {
        None
    } else if same_path(v[0].0, path) {
        Some(v[0].1)
    } else {
        source_name(v.drop_first(), path)
    }
}

/// Looks up the name of a path in a list of sources.
pub fn find_source<'a>(v: &'a Vec<(String, String)>, path: &str) -> (r: Option<&'a String>)
    ensures
        match r {
            Some(s) => source_name(pair_views(v@), path@) == Some(s@),
            None => source_name(pair_views(v@), path@) is None,
        },
{
    let ghost all = pair_views(v@);
    let mut i: usize = 0;
    assert(all.skip(0) =~= all);
    while i < v.len()
        invariant
            i <= v@.len(),
            all == pair_views(v@),
            source_name(all.skip(i as int), path@) == source_name(all, path@),
        decreases v@.len() - i,
    {
        if is_same_path(v[i].0.as_str(), path) {
            return Some(&v[i].1);
        }
        assert(all.skip(i as int).drop_first() =~= all.skip(i + 1));
        i = i + 1;
    }
    None
}

/// A list of sources with more, where what is there already stays.
pub open spec fn merged(
    v: Seq<(Seq<char>, Seq<char>)>,
    more: Seq<(Seq<char>, Seq<char>)>,
) -> Seq<(Seq<char>, Seq<char>)>
    decreases more.len(),
{
    if more.len() == 0 {
        v
    } else {
        let before = merged(v, more.drop_last());
        if source_name(before, more.last().0) is Some {
            before
        } else {
            before.push(more.last())
        }
    }
}

/// Adds sources to a list, where what is there already stays.
pub fn merge_sources(v: &mut Vec<(String, String)>, more: &Vec<(String, String)>)
    ensures
        pair_views(final(v)@) == merged(pair_views(old(v)@), pair_views(more@)),
{
    let ghost start = pair_views(v@);
    let ghost ms = pair_views(more@);
    let mut i: usize = 0;
    while i < more.len()
        invariant
            i <= more@.len(),
            ms == pair_views(more@),
            pair_views(v@) == merged(start, ms.take(i as int)),
        decreases more@.len() - i,
    {
        assert(ms.take(i + 1).drop_last() =~= ms.take(i as int));
        if find_source(v, more[i].0.as_str()).is_none() {
            let ghost before = pair_views(v@);
            v.push((more[i].0.clone(), more[i].1.clone()));
            assert(pair_views(v@) =~= before.push(ms[i as int]));
        }
        i = i + 1;
    }
    assert(ms.take(ms.len() as int) =~= ms);
}

/// The walk up to a workspace ends at a directory: the project, one above it, or a
/// relative one.
pub open spec fn ends_walk(candidate: Seq<char>, project: Seq<char>) -> bool {
    path_below(project, candidate) || !path_below(candidate, "/"@)
}

/// Whether the walk up to a workspace ends at a directory.
pub fn walk_ends(candidate: &str, project: &str) -> (r: bool)
    ensures
        r == ends_walk(candidate@, project@),
{
    is_path_below(project, candidate) || !is_path_below(candidate, "/")
}

/// A directory above a dependency: its canonical path, and its manifest if it has one
/// that can be read.
pub type Above = (String, Option<String>);

/// The manifest of a directory declares a workspace.
pub open spec fn is_workspace_root(dir: Above) -> bool {
    match dir.1 {
        Some(text) => manifest_declares(text@),
        None => false,
    }
}

/// The first of the directories above a dependency that is the root of a workspace,
/// unless the walk up ends before.
pub fn enclosing_workspace(above: &Vec<Above>, project: &str) -> (r: Option<usize>)
    ensures
        match r {
            Some(i) => i < above@.len() && is_workspace_root(above@[i as int]) && (forall|j: int|
                0 <= j <= i ==> !ends_walk((#[trigger] above@[j]).0@, project@)) && (forall|j: int|
                0 <= j < i ==> !is_workspace_root(#[trigger] above@[j])),
            None => forall|i: int|
                0 <= i < above@.len() && is_workspace_root(#[trigger] above@[i]) ==> exists|j: int|
                    0 <= j <= i && ends_walk((#[trigger] above@[j]).0@, project@),
        },
{
    let mut i: usize = 0;
    while i < above.len()
        invariant
            i <= above@.len(),
            forall|j: int|
                0 <= j < i ==> !ends_walk((#[trigger] above@[j]).0@, project@)
                    && !is_workspace_root(above@[j]),
        decreases above@.len() - i,
    {
        if walk_ends(above[i].0.as_str(), project) {
            return None;
        }
        if let Some(text) = &above[i].1 {
            if declares_workspace(text.as_str()) {
                return Some(i);
            }
        }
        i = i + 1;
    }
    None
}

/// Another source lies around this one, so that it is taken in with it.
pub open spec fn inside_other(v: Seq<(Seq<char>, Seq<char>)>, path: Seq<char>) -> bool {
    exists|i: int|
        0 <= i < v.len() && !same_path((#[trigger] v[i]).0, path) && path_below(path, v[i].0)
}

/// Whether another source lies around this one.
pub fn is_dominated(v: &Vec<(String, String)>, path: &str) -> (r: bool)
    ensures
        r == inside_other(pair_views(v@), path@),
{
    let ghost all = pair_views(v@);
    let mut i: usize = 0;
    while i < v.len()
        invariant
            i <= v@.len(),
            all == pair_views(v@),
            forall|j: int|
                0 <= j < i ==> same_path((#[trigger] all[j]).0, path@) || !path_below(
                    path@,
                    all[j].0,
                ),
        decreases v@.len() - i,
    {
        assert(all[i as int].0 == v@[i as int].0@);
        if !is_same_path(v[i].0.as_str(), path) && is_path_below(path, v[i].0.as_str()) {
            return true;
        }
        i = i + 1;
    }
    false
}

// ---------------------------------------------------------------------------
// Rewriting
// ---------------------------------------------------------------------------

/// What rewriting a manifest needs to know.
pub struct Rewrite {
    /// Where the paths of its dependencies lead.
    pub resolved: Vec<(String, String)>,
    /// The sources that were taken in, each with its name.
    pub mappings: Vec<(String, String)>,
    /// The directory of the manifest.
    pub manifest_dir: String,
    /// The root of the source.
    pub dest: String,
}

/// Where a path leads.
pub open spec fn leads_to(v: Seq<(Seq<char>, Seq<char>)>, path: Seq<char>) -> Option<Seq<char>>
    decreases v.len(),
{
    if v.len() == 0 {
        None
    } else if v[0].0 == path {
        Some(v[0].1)
    } else {
        leads_to(v.drop_first(), path)
    }
}

/// The new path of a dependency whose source was taken in.
pub open spec fn new_path(rw: Rewrite, path: Seq<char>) -> Option<Seq<char>> {
    match leads_to(pair_views(rw.resolved@), path) {
        Some(canonical) => match source_name(pair_views(rw.mappings@), canonical) {
            Some(name) => Some(relative(rw.manifest_dir@, pushed(rw.dest@, name))),
            None => None,
        },
        None => None,
    }
}

fn find_new_path(rw: &Rewrite, path: &str) -> (r: Option<String>)
    ensures
        match r {
            Some(s) => new_path(*rw, path@) == Some(s@),
            None => new_path(*rw, path@) is None,
        },
{
    let ghost all = pair_views(rw.resolved@);
    let mut i: usize = 0;
    assert(all.skip(0) =~= all);
    while i < rw.resolved.len()
        invariant
            i <= rw.resolved@.len(),
            all == pair_views(rw.resolved@),
            leads_to(all.skip(i as int), path@) == leads_to(all, path@),
        decreases rw.resolved@.len() - i,
    {
        if same(rw.resolved[i].0.as_str(), path) {
            return match find_source(&rw.mappings, rw.resolved[i].1.as_str()) {
                Some(name) => {
                    let target = push_path(rw.dest.as_str(), name.as_str());
                    Some(relative_path(rw.manifest_dir.as_str(), target.as_str()))
                },
                None => None,
            };
        }
        assert(all.skip(i as int).drop_first() =~= all.skip(i + 1));
        i = i + 1;
    }
    None
}

/// The entries with another value under a key.
pub open spec fn with_value(m: Seq<(Seq<char>, TomlView)>, key: Seq<char>, value: TomlView) -> Seq<
    (Seq<char>, TomlView),
> {
    Seq::new(
        m.len(),
        |i: int|
            (
                m[i].0,
                if m[i].0 == key {
                    value
                } else {
                    m[i].1
                },
            ),
    )
}

/// A part of a manifest with the new paths of its dependencies.
pub open spec fn rewritten(rw: Rewrite, place: Place, v: TomlView) -> TomlView
    decreases v,
{
    match v {
        TomlView::Table(m) => if place == Place::Dependency {
            match toml_str(entry_lookup(m, "path"@)) {
                Some(p) => match new_path(rw, p) {
                    Some(q) => TomlView::Table(with_value(m, "path"@, TomlView::Text(q))),
                    None => v,
                },
                None => v,
            }
        } else {
            TomlView::Table(rewritten_entries(rw, place, m))
        },
        _ => v,
    }
}

/// The entries of a part with the new paths of their dependencies.
pub open spec fn rewritten_entries(
    rw: Rewrite,
    place: Place,
    m: Seq<(Seq<char>, TomlView)>,
) -> Seq<(Seq<char>, TomlView)>
    decreases m,
{
    if m.len() == 0 {
        Seq::empty()
    } else {
        rewritten_entries(rw, place, m.drop_last()).push(
            (
                m.last().0,
                match inner_place(place, m.last().0) {
                    Some(inner) => rewritten(rw, inner, m.last().1),
                    None => m.last().1,
                },
            ),
        )
    }
}

proof fn lemma_rewritten_keys(rw: Rewrite, place: Place, m: Seq<(Seq<char>, TomlView)>)
    ensures
        entry_keys(rewritten_entries(rw, place, m)) == entry_keys(m),
    decreases m.len(),
{
    let r = rewritten_entries(rw, place, m);
    if m.len() > 0 {
        lemma_rewritten_keys(rw, place, m.drop_last());
        let t = rewritten_entries(rw, place, m.drop_last());
        assert(entry_keys(t).len() == entry_keys(m.drop_last()).len());
        assert forall|i: int| 0 <= i < m.len() implies #[trigger] entry_keys(r)[i] == entry_keys(
            m,
        )[i] by {
            if i < m.len() - 1 {
                assert(entry_keys(t)[i] == entry_keys(m.drop_last())[i]);
            }
        }
    }
    assert(entry_keys(r) =~= entry_keys(m));
}

/// Rewriting keeps a document well-formed.
proof fn lemma_rewritten_well_formed(rw: Rewrite, place: Place, v: TomlView)
    requires
        well_formed(v),
    ensures
        well_formed(rewritten(rw, place, v)),
    decreases v,
{
    if let TomlView::Table(m) = v {
        if place == Place::Dependency {
            if let Some(p) = toml_str(entry_lookup(m, "path"@)) {
                if let Some(q) = new_path(rw, p) {
                    let w = with_value(m, "path"@, TomlView::Text(q));
                    assert(entry_keys(w) =~= entry_keys(m));
                    lemma_values_well_formed(m);
                    assert forall|i: int| 0 <= i < w.len() implies well_formed(
                        (#[trigger] w[i]).1,
                    ) by {
                        assert(well_formed(m[i].1));
                    }
                    lemma_values_well_formed(w);
                }
            }
        } else {
            lemma_rewritten_keys(rw, place, m);
            lemma_rewritten_values(rw, place, m);
        }
    }
}

proof fn lemma_rewritten_values(rw: Rewrite, place: Place, m: Seq<(Seq<char>, TomlView)>)
    requires
        values_well_formed(m),
    ensures
        values_well_formed(rewritten_entries(rw, place, m)),
    decreases m,
{
    if m.len() > 0 {
        lemma_rewritten_values(rw, place, m.drop_last());
        if let Some(inner) = inner_place(place, m.last().0) {
            lemma_rewritten_well_formed(rw, inner, m.last().1);
        }
        let r = rewritten_entries(rw, place, m);
        assert(r.drop_last() =~= rewritten_entries(rw, place, m.drop_last()));
    }
}

fn rewrite_dependency(rw: &Rewrite, m: Vec<(String, Toml)>) -> (r: Toml)
    ensures
        r@ == rewritten(*rw, Place::Dependency, TomlView::Table(entry_views(m@))),
{
    let ghost given = m@;
    let ghost all = entry_views(given);
    let fresh = match as_text(find_entry(&m, "path")) {
        Some(p) => find_new_path(rw, p.as_str()),
        None => None,
    };
    match fresh {
        None => {
            proof {
                lemma_toml_table(m);
            }
            Toml::Table(m)
        },
        Some(q) => {
            let ghost w = with_value(all, "path"@, TomlView::Text(q@));
            let mut back = reversed(m);
            let mut r: Vec<(String, Toml)> = Vec::new();
            while back.len() > 0
                invariant
                    all == entry_views(given),
                    w == with_value(all, "path"@, TomlView::Text(q@)),
                    r@.len() + back@.len() == given.len(),
                    forall|k: int|
                        0 <= k < back@.len() ==> #[trigger] back@[k] == given[given.len() - 1 - k],
                    forall|k: int|
                        0 <= k < r@.len() ==> (#[trigger] r@[k]).0@ == w[k].0 && r@[k].1@ == w[k].1,
                decreases back@.len(),
            {
                let ghost k = r@.len() as int;
                assert(back@[back@.len() - 1] == given[k]);
                if let Some((key, v)) = back.pop() {
                    assert(key == given[k].0 && v == given[k].1);
                    let is_path = same(key.as_str(), "path");
                    let value = if is_path {
                        Toml::Text(q.clone())
                    } else {
                        v
                    };
                    r.push((key, value));
                }
            }
            proof {
                lemma_toml_table(r);
                assert(entry_views(r@) =~= w);
            }
            Toml::Table(r)
        },
    }
}

fn rewrite_part(rw: &Rewrite, place: Place, v: Toml) -> (r: Toml)
    ensures
        r@ == rewritten(*rw, place, v@),
    decreases v,
{
    match v {
        Toml::Table(m) => {
            proof {
                lemma_toml_table(m);
            }
            if place == Place::Dependency {
                return rewrite_dependency(rw, m);
            }
            let ghost given = m@;
            let ghost all = entry_views(given);
            assert(decreases_to!(v => v->Table_0));
            let mut back = reversed(m);
            let mut r: Vec<(String, Toml)> = Vec::new();
            assert(entry_views(r@) =~= rewritten_entries(*rw, place, all.take(0)));
            while back.len() > 0
                invariant
                    v is Table,
                    given == v->Table_0@,
                    decreases_to!(v => v->Table_0),
                    all == entry_views(given),
                    r@.len() + back@.len() == given.len(),
                    forall|k: int|
                        0 <= k < back@.len() ==> #[trigger] back@[k] == given[given.len() - 1 - k],
                    entry_views(r@) == rewritten_entries(*rw, place, all.take(r@.len() as int)),
                decreases back@.len(),
            {
                let ghost k = r@.len() as int;
                assert(back@[back@.len() - 1] == given[k]);
                assert(all.take(k + 1).drop_last() =~= all.take(k));
                assert(all.take(k + 1).last() == (given[k].0@, given[k].1@));
                if let Some((key, value)) = back.pop() {
                    assert(key == given[k].0 && value == given[k].1);
                    let ghost before = entry_views(r@);
                    let ghost kv = key@;
                    let fresh = match place_under(place, key.as_str()) {
                        Some(inner) => rewrite_part(rw, inner, value),
                        None => value,
                    };
                    let ghost fv = fresh@;
                    r.push((key, fresh));
                    assert(entry_views(r@) =~= before.push((kv, fv)));
                }
            }
            proof {
                assert(all.take(all.len() as int) =~= all);
                lemma_toml_table(r);
            }
            Toml::Table(r)
        },
        other => {
            proof {
                if other is Array {
                    lemma_toml_array(other->Array_0);
                }
            }
            other
        },
    }
}

/// Rewrites the paths of the dependencies of a document whose sources were taken
/// in.
pub fn rewrite_paths(rw: &Rewrite, doc: Toml) -> (r: Toml)
    ensures
        r@ == rewritten(*rw, Place::Document, doc@),
        well_formed(doc@) ==> well_formed(r@),
{
    proof {
        if well_formed(doc@) {
            lemma_rewritten_well_formed(*rw, Place::Document, doc@);
        }
    }
    rewrite_part(rw, Place::Document, doc)
}

/// One of the paths gets a new one.
pub open spec fn some_new(rw: Rewrite, paths: Seq<Seq<char>>) -> bool {
    exists|i: int| 0 <= i < paths.len() && new_path(rw, #[trigger] paths[i]) is Some
}

fn any_new(rw: &Rewrite, paths: &Vec<String>) -> (r: bool)
    ensures
        r == some_new(*rw, views(paths@)),
{
    let ghost ps = views(paths@);
    let mut i: usize = 0;
    while i < paths.len()
        invariant
            i <= paths@.len(),
            ps == views(paths@),
            forall|j: int| 0 <= j < i ==> new_path(*rw, #[trigger] ps[j]) is None,
        decreases paths@.len() - i,
    {
        assert(ps[i as int] == paths@[i as int]@);
        if find_new_path(rw, paths[i].as_str()).is_some() {
            return true;
        }
        i = i + 1;
    }
    false
}

/// The new text of a manifest whose dependencies are rewritten; none if nothing
/// changes or the manifest is no TOML document.
pub open spec fn manifest_rewritten(rw: Rewrite, text: Seq<char>) -> Option<
    Result<Seq<char>, Seq<char>>,
> {
    match toml_document(text) {
        Err(_) => None,
        Ok(t) => if some_new(rw, paths_in(Place::Document, t)) {
            Some(toml_text(rewritten(rw, Place::Document, t)))
        } else {
            None
        },
    }
}

/// What writing a changed manifest comes to.
pub open spec fn changed_text(r: Option<Result<String, String>>) -> Option<
    Result<Seq<char>, Seq<char>>,
> {
    match r {
        Some(w) => Some(written(w)),
        None => None,
    }
}

/// Rewrites a manifest so that dependencies whose sources were taken in are found
/// there.
pub fn rewrite_manifest(rw: &Rewrite, text: &str) -> (r: Option<Result<String, String>>)
    ensures
        changed_text(r) == manifest_rewritten(*rw, text@),
{
    let doc = match parse_toml(text) {
        Ok(d) => d,
        Err(_) => return None,
    };
    let paths = path_dependencies(&doc);
    if !any_new(rw, &paths) {
        return None;
    }
    let fresh = rewrite_paths(rw, doc);
    Some(write_toml(fresh))
}

// ---------------------------------------------------------------------------
// Workspace members
// ---------------------------------------------------------------------------

/// The directory that a source's name starts with.
pub open spec fn top_dir(name: Seq<char>) -> Seq<char> {
    split_seq(name, '/')[0]
}

/// The directories that are to be excluded beside those that are, each once.
pub open spec fn added_excludes(items: Seq<TomlView>, names: Seq<Seq<char>>) -> Seq<Seq<char>>
    decreases names.len(),
{
    if names.len() == 0 {
        Seq::empty()
    } else {
        let before = added_excludes(items, names.drop_last());
        let top = top_dir(names.last());
        if before.contains(top) || items.contains(TomlView::Text(top)) {
            before
        } else {
            before.push(top)
        }
    }
}

/// The elements of an array with strings behind them.
pub open spec fn with_texts(items: Seq<TomlView>, more: Seq<Seq<char>>) -> Seq<TomlView> {
    items + Seq::new(more.len(), |i: int| TomlView::Text(more[i]))
}

/// The entries with one more at its place in the order of keys.
pub open spec fn with_entry(m: Seq<(Seq<char>, TomlView)>, key: Seq<char>, value: TomlView) -> Seq<
    (Seq<char>, TomlView),
>
    decreases m.len(),
{
    if m.len() == 0 || str_lt(m.last().0, key) {
        m.push((key, value))
    } else {
        with_entry(m.drop_last(), key, value).push(m.last())
    }
}

/// The elements of a workspace's list of excluded directories; none yet if it has
/// no such list, and nothing at all if what stands there is no list.
pub open spec fn exclude_items(ws: Seq<(Seq<char>, TomlView)>) -> Option<Seq<TomlView>> {
    match entry_lookup(ws, "exclude"@) {
        None => Some(Seq::empty()),
        Some(TomlView::Array(items)) => Some(items),
        Some(_) => None,
    }
}

/// A workspace with more excluded directories; none if nothing changes.
pub open spec fn workspace_excluding(
    ws: Seq<(Seq<char>, TomlView)>,
    names: Seq<Seq<char>>,
) -> Option<Seq<(Seq<char>, TomlView)>> {
    match exclude_items(ws) {
        None => None,
        Some(items) => {
            let more = added_excludes(items, names);
            if more.len() == 0 {
                None
            } else {
                let list = TomlView::Array(with_texts(items, more));
                Some(
                    if entry_lookup(ws, "exclude"@) is Some {
                        with_value(ws, "exclude"@, list)
                    } else {
                        with_entry(ws, "exclude"@, list)
                    },
                )
            }
        },
    }
}

/// A document whose workspace excludes the directories of the given sources; none
/// if nothing changes.
pub open spec fn excluding(t: TomlView, names: Seq<Seq<char>>) -> Option<TomlView> {
    match t {
        TomlView::Table(m) => match entry_lookup(m, "workspace"@) {
            Some(TomlView::Table(ws)) => match workspace_excluding(ws, names) {
                Some(w) => Some(TomlView::Table(with_value(m, "workspace"@, TomlView::Table(w)))),
                None => None,
            },
            _ => None,
        },
        _ => None,
    }
}

fn has_text(items: &Vec<Toml>, s: &str) -> (r: bool)
    ensures
        r == item_views(items@).contains(TomlView::Text(s@)),
{
    let ghost all = item_views(items@);
    let mut i: usize = 0;
    while i < items.len()
        invariant
            i <= items@.len(),
            all == item_views(items@),
            forall|j: int| 0 <= j < i ==> #[trigger] all[j] != TomlView::Text(s@),
        decreases items@.len() - i,
    {
        assert(all[i as int] == items@[i as int]@);
        match &items[i] {
            Toml::Text(t) => {
                if same(t.as_str(), s) {
                    return true;
                }
            },
            Toml::Array(a) => {
                proof {
                    lemma_toml_array(*a);
                }
            },
            Toml::Table(t) => {
                proof {
                    lemma_toml_table(*t);
                }
            },
            Toml::Plain(_) => {},
        }
        i = i + 1;
    }
    false
}

fn top_of(name: &str) -> (r: String)
    ensures
        r@ == top_dir(name@),
{
    proof {
        lemma_split_nonempty(name@, '/');
    }
    let parts = split(name, '/');
    assert(views(parts@)[0] == parts@[0]@);
    parts[0].clone()
}

fn find_excludes(items: &Vec<Toml>, names: &Vec<String>) -> (r: Vec<String>)
    ensures
        views(r@) == added_excludes(item_views(items@), views(names@)),
{
    let ghost all = item_views(items@);
    let ghost ns = views(names@);
    let mut r: Vec<String> = Vec::new();
    let mut i: usize = 0;
    assert(views(r@) =~= Seq::empty());
    while i < names.len()
        invariant
            i <= names@.len(),
            all == item_views(items@),
            ns == views(names@),
            views(r@) == added_excludes(all, ns.take(i as int)),
        decreases names@.len() - i,
    {
        assert(ns.take(i + 1).drop_last() =~= ns.take(i as int));
        let top = top_of(names[i].as_str());
        if !list_has(&r, top.as_str()) && !has_text(items, top.as_str()) {
            let ghost before = views(r@);
            let ghost tv = top@;
            r.push(top);
            assert(views(r@) =~= before.push(tv));
        }
        i = i + 1;
    }
    assert(ns.take(ns.len() as int) =~= ns);
    r
}

fn push_texts(items: Vec<Toml>, more: Vec<String>) -> (r: Toml)
    ensures
        r@ == TomlView::Array(with_texts(item_views(items@), views(more@))),
{
    let ghost start = item_views(items@);
    let ghost ms = views(more@);
    let mut r = items;
    let mut i: usize = 0;
    assert(item_views(r@) =~= with_texts(start, ms.take(0)));
    while i < more.len()
        invariant
            i <= more@.len(),
            ms == views(more@),
            item_views(r@) == with_texts(start, ms.take(i as int)),
        decreases more@.len() - i,
    {
        let ghost before = item_views(r@);
        r.push(Toml::Text(more[i].clone()));
        assert(item_views(r@) =~= before.push(TomlView::Text(ms[i as int])));
        assert(before.push(TomlView::Text(ms[i as int])) =~= with_texts(start, ms.take(i + 1)));
        i = i + 1;
    }
    proof {
        assert(ms.take(ms.len() as int) =~= ms);
        lemma_toml_array(r);
    }
    Toml::Array(r)
}

fn set_value(m: Vec<(String, Toml)>, key: &str, value: Toml) -> (r: Vec<(String, Toml)>)
    requires
        strictly_sorted(entry_keys(entry_views(m@))),
    ensures
        entry_views(r@) == with_value(entry_views(m@), key@, value@),
{
    let ghost given = m@;
    let ghost all = entry_views(given);
    let ghost vv = value@;
    let ghost w = with_value(all, key@, vv);
    let mut fresh: Option<Toml> = Some(value);
    let mut back = reversed(m);
    let mut r: Vec<(String, Toml)> = Vec::new();
    while back.len() > 0
        invariant
            all == entry_views(given),
            strictly_sorted(entry_keys(all)),
            w == with_value(all, key@, vv),
            r@.len() + back@.len() == given.len(),
            forall|k: int|
                0 <= k < back@.len() ==> #[trigger] back@[k] == given[given.len() - 1 - k],
            forall|k: int|
                0 <= k < r@.len() ==> (#[trigger] r@[k]).0@ == w[k].0 && r@[k].1@ == w[k].1,
            fresh matches Some(f) ==> f@ == vv,
            fresh is None ==> exists|k: int| 0 <= k < r@.len() && #[trigger] entry_keys(all)[k]
                == key@,
        decreases back@.len(),
    {
        let ghost k = r@.len() as int;
        assert(back@[back@.len() - 1] == given[k]);
        if let Some((name, v)) = back.pop() {
            assert(name == given[k].0 && v == given[k].1);
            assert(entry_keys(all)[k] == name@);
            if same(name.as_str(), key) {
                let mut value: Option<Toml> = None;
                std::mem::swap(&mut value, &mut fresh);
                match value {
                    Some(f) => {
                        r.push((name, f));
                    },
                    None => {
                        proof {
                            let j = choose|j: int| 0 <= j < k && #[trigger] entry_keys(all)[j]
                                == key@;
                            assert(str_lt(entry_keys(all)[j], entry_keys(all)[k]));
                            lemma_str_lt_order(key@, key@, key@);
                        }
                        r.push((name, v));
                    },
                }
            } else {
                r.push((name, v));
            }
        }
    }
    assert(entry_views(r@) =~= w);
    r
}

proof fn lemma_with_entry_at(m: Seq<(Seq<char>, TomlView)>, key: Seq<char>, value: TomlView, p: int)
    requires
        0 <= p <= m.len(),
        forall|j: int| p <= j < m.len() ==> !str_lt((#[trigger] m[j]).0, key),
        p > 0 ==> str_lt(m[p - 1].0, key),
    ensures
        with_entry(m, key, value) == m.insert(p, (key, value)),
    decreases m.len(),
{
    if m.len() == 0 || p == m.len() {
        assert(m.insert(p, (key, value)) =~= m.push((key, value)));
    } else {
        assert(!str_lt(m[m.len() - 1].0, key));
        lemma_with_entry_at(m.drop_last(), key, value, p);
        assert(m.insert(p, (key, value)) =~= m.drop_last().insert(p, (key, value)).push(m.last()));
    }
}

fn add_entry(m: Vec<(String, Toml)>, key: &str, value: Toml) -> (r: Vec<(String, Toml)>)
    ensures
        entry_views(r@) == with_entry(entry_views(m@), key@, value@),
{
    let ghost all = entry_views(m@);
    let ghost vv = value@;
    let mut r = m;
    let mut p: usize = r.len();
    while p > 0 && !less(r[p - 1].0.as_str(), key)
        invariant
            p <= r@.len(),
            all == entry_views(r@),
            forall|j: int| p <= j < all.len() ==> !str_lt((#[trigger] all[j]).0, key@),
        decreases p,
    {
        p = p - 1;
    }
    proof {
        if p > 0 {
            assert(all[p - 1].0 == r@[p - 1].0@);
        }
        lemma_with_entry_at(all, key@, vv, p as int);
    }
    r.insert(p, (owned(key), value));
    assert(entry_views(r@) =~= all.insert(p as int, (key@, vv)));
    r
}

proof fn lemma_with_entry_keys(m: Seq<(Seq<char>, TomlView)>, key: Seq<char>, value: TomlView)
    requires
        strictly_sorted(entry_keys(m)),
        !entry_keys(m).contains(key),
    ensures
        entry_keys(with_entry(m, key, value)) == insert_unique(entry_keys(m), key),
    decreases m.len(),
{
    let ks = entry_keys(m);
    let r = with_entry(m, key, value);
    if m.len() == 0 {
        assert(entry_keys(r) =~= seq![key]);
    } else {
        assert(ks[m.len() - 1] == m.last().0);
        lemma_str_lt_order(m.last().0, key, key);
        lemma_str_lt_order(key, m.last().0, key);
        assert(ks.last() == m.last().0 && ks.contains(ks[m.len() - 1]));
        if str_lt(m.last().0, key) {
            assert(entry_keys(r) =~= ks.push(key));
            lemma_str_lt_order(key, key, key);
        } else {
            let t = m.drop_last();
            assert(entry_keys(t) =~= ks.drop_last());
            assert forall|i: int, j: int| 0 <= i < j < entry_keys(t).len() implies str_lt(
                #[trigger] entry_keys(t)[i],
                #[trigger] entry_keys(t)[j],
            ) by {
                assert(str_lt(ks[i], ks[j]));
            }
            if entry_keys(t).contains(key) {
                let i = choose|i: int| 0 <= i < entry_keys(t).len() && entry_keys(t)[i] == key;
                assert(ks[i] == key);
            }
            lemma_with_entry_keys(t, key, value);
            assert(entry_keys(r) =~= entry_keys(with_entry(t, key, value)).push(m.last().0));
        }
    }
}

proof fn lemma_with_entry_values(m: Seq<(Seq<char>, TomlView)>, key: Seq<char>, value: TomlView)
    requires
        values_well_formed(m),
        well_formed(value),
    ensures
        values_well_formed(with_entry(m, key, value)),
    decreases m.len(),
{
    let r = with_entry(m, key, value);
    if m.len() == 0 || str_lt(m.last().0, key) {
        assert(r.drop_last() =~= m);
    } else {
        lemma_with_entry_values(m.drop_last(), key, value);
        assert(r.drop_last() =~= with_entry(m.drop_last(), key, value));
    }
}

proof fn lemma_with_value_well_formed(
    m: Seq<(Seq<char>, TomlView)>,
    key: Seq<char>,
    value: TomlView,
)
    requires
        well_formed(TomlView::Table(m)),
        well_formed(value),
    ensures
        well_formed(TomlView::Table(with_value(m, key, value))),
{
    let w = with_value(m, key, value);
    assert(entry_keys(w) =~= entry_keys(m));
    lemma_values_well_formed(m);
    assert forall|i: int| 0 <= i < w.len() implies well_formed((#[trigger] w[i]).1) by {
        assert(well_formed(m[i].1));
    }
    lemma_values_well_formed(w);
}

proof fn lemma_lookup_none(m: Seq<(Seq<char>, TomlView)>, key: Seq<char>)
    requires
        entry_lookup(m, key) is None,
    ensures
        !entry_keys(m).contains(key),
    decreases m.len(),
{
    if m.len() > 0 {
        let t = m.drop_first();
        lemma_lookup_none(t, key);
        if entry_keys(m).contains(key) {
            let i = choose|i: int| 0 <= i < m.len() && entry_keys(m)[i] == key;
            if i > 0 {
                assert(entry_keys(t)[i - 1] == key);
            }
        }
    }
}

proof fn lemma_lookup_well_formed(m: Seq<(Seq<char>, TomlView)>, key: Seq<char>)
    requires
        values_well_formed(m),
    ensures
        entry_lookup(m, key) matches Some(v) ==> well_formed(v),
    decreases m.len(),
{
    lemma_values_well_formed(m);
    if m.len() > 0 {
        assert(well_formed(m[0].1));
        let t = m.drop_first();
        assert forall|i: int| 0 <= i < t.len() implies well_formed((#[trigger] t[i]).1) by {
            assert(well_formed(m[i + 1].1));
        }
        lemma_values_well_formed(t);
        lemma_lookup_well_formed(t, key);
    }
}

proof fn lemma_with_texts_well_formed(items: Seq<TomlView>, more: Seq<Seq<char>>)
    requires
        well_formed(TomlView::Array(items)),
    ensures
        well_formed(TomlView::Array(with_texts(items, more))),
{
    let w = with_texts(items, more);
    lemma_all_well_formed(items);
    assert forall|i: int| 0 <= i < w.len() implies well_formed(#[trigger] w[i]) by {
        if i < items.len() {
            assert(well_formed(items[i]));
        }
    }
    lemma_all_well_formed(w);
}

fn take_items(m: &mut Vec<(String, Toml)>, key: &str) -> (r: Vec<Toml>)
    requires
        strictly_sorted(entry_keys(entry_views(old(m)@))),
        entry_lookup(entry_views(old(m)@), key@) matches Some(TomlView::Array(_)),
    ensures
        TomlView::Array(item_views(r@)) == entry_lookup(entry_views(old(m)@), key@)->0,
        forall|value: TomlView| #[trigger]
            with_value(entry_views(final(m)@), key@, value) == with_value(
                entry_views(old(m)@),
                key@,
                value,
            ),
        entry_keys(entry_views(final(m)@)) == entry_keys(entry_views(old(m)@)),
{
    let ghost start = entry_views(m@);
    let mut i: usize = 0;
    assert(start.skip(0) =~= start);
    while i < m.len()
        invariant
            i <= m@.len(),
            start == entry_views(m@),
            entry_lookup(start.skip(i as int), key@) == entry_lookup(start, key@),
            entry_lookup(start, key@) matches Some(TomlView::Array(_)),
            start == entry_views(old(m)@),
        decreases m@.len() - i,
    {
        if same(m[i].0.as_str(), key) {
            let (name, v) = m.remove(i);
            let empty: Vec<Toml> = Vec::new();
            match v {
                Toml::Array(items) => {
                    proof {
                        lemma_toml_array(items);
                    }
                    m.insert(i, (name, Toml::Array(empty)));
                    proof {
                        let after = entry_views(m@);
                        assert(entry_keys(after) =~= entry_keys(start));
                        assert forall|value: TomlView| #[trigger]
                            with_value(after, key@, value) == with_value(start, key@, value) by {
                            assert(with_value(after, key@, value) =~= with_value(
                                start,
                                key@,
                                value,
                            ));
                        }
                    }
                    return items;
                },
                other => {
                    proof {
                        if other is Table {
                            lemma_toml_table(other->Table_0);
                        }
                        assert(false);
                    }
                    return empty;
                },
            }
        }
        assert(start.skip(i as int).drop_first() =~= start.skip(i + 1));
        i = i + 1;
    }
    Vec::new()
}

fn exclude_in_workspace(ws: Vec<(String, Toml)>, names: &Vec<String>) -> (r: Option<
    Vec<(String, Toml)>,
>)
    requires
        well_formed(TomlView::Table(entry_views(ws@))),
    ensures
        match (r, workspace_excluding(entry_views(ws@), views(names@))) {
            (Some(v), Some(w)) => entry_views(v@) == w && well_formed(TomlView::Table(w)),
            (None, None) => true,
            _ => false,
        },
{
    let ghost all = entry_views(ws@);
    proof {
        lemma_lookup_well_formed(all, "exclude"@);
    }
    let mut m = ws;
    let (present, listed) = match find_entry(&m, "exclude") {
        Some(Toml::Array(a)) => {
            proof {
                lemma_toml_array(*a);
            }
            (true, true)
        },
        Some(Toml::Table(t)) => {
            proof {
                lemma_toml_table(*t);
            }
            (true, false)
        },
        Some(_) => (true, false),
        None => (false, false),
    };
    if !present {
        let items: Vec<Toml> = Vec::new();
        assert(item_views(items@) =~= Seq::empty());
        let more = find_excludes(&items, names);
        assert(views(more@).len() == more@.len());
        if more.len() == 0 {
            return None;
        }
        let ghost mv = views(more@);
        let list = push_texts(items, more);
        let ghost lv = list@;
        proof {
            lemma_with_texts_well_formed(Seq::empty(), mv);
            lemma_lookup_none(all, "exclude"@);
            lemma_with_entry_keys(all, "exclude"@, lv);
            lemma_insert_unique_props(entry_keys(all), "exclude"@);
            lemma_with_entry_values(all, "exclude"@, lv);
        }
        return Some(add_entry(m, "exclude", list));
    }
    if !listed {
        return None;
    }
    let items = take_items(&mut m, "exclude");
    let more = find_excludes(&items, names);
    assert(views(more@).len() == more@.len());
    if more.len() == 0 {
        return None;
    }
    let ghost iv = item_views(items@);
    let ghost mv = views(more@);
    let list = push_texts(items, more);
    let ghost lv = list@;
    proof {
        lemma_with_texts_well_formed(iv, mv);
        lemma_with_value_well_formed(all, "exclude"@, lv);
        assert(with_value(entry_views(m@), "exclude"@, lv) == with_value(all, "exclude"@, lv));
    }
    Some(set_value(m, "exclude", list))
}

fn take_table(m: &mut Vec<(String, Toml)>, key: &str) -> (r: Option<Vec<(String, Toml)>>)
    ensures
        match r {
            Some(t) => entry_lookup(entry_views(old(m)@), key@) == Some(
                TomlView::Table(entry_views(t@)),
            ) && entry_keys(entry_views(final(m)@)) == entry_keys(entry_views(old(m)@)) && forall|
                value: TomlView,
            | #[trigger]
                with_value(entry_views(final(m)@), key@, value) == with_value(
                    entry_views(old(m)@),
                    key@,
                    value,
                ),
            None => !(entry_lookup(entry_views(old(m)@), key@) matches Some(TomlView::Table(_))),
        },
{
    let ghost start = entry_views(m@);
    let mut i: usize = 0;
    assert(start.skip(0) =~= start);
    while i < m.len()
        invariant
            i <= m@.len(),
            start == entry_views(m@),
            entry_lookup(start.skip(i as int), key@) == entry_lookup(start, key@),
            start == entry_views(old(m)@),
        decreases m@.len() - i,
    {
        if same(m[i].0.as_str(), key) {
            let is_table = match &m[i].1 {
                Toml::Table(t) => {
                    proof {
                        lemma_toml_table(*t);
                    }
                    true
                },
                Toml::Array(a) => {
                    proof {
                        lemma_toml_array(*a);
                    }
                    false
                },
                _ => false,
            };
            if !is_table {
                return None;
            }
            let (name, v) = m.remove(i);
            let empty: Vec<(String, Toml)> = Vec::new();
            match v {
                Toml::Table(t) => {
                    m.insert(i, (name, Toml::Table(empty)));
                    proof {
                        let after = entry_views(m@);
                        assert(entry_keys(after) =~= entry_keys(start));
                        assert forall|value: TomlView| #[trigger]
                            with_value(after, key@, value) == with_value(start, key@, value) by {
                            assert(with_value(after, key@, value) =~= with_value(
                                start,
                                key@,
                                value,
                            ));
                        }
                    }
                    return Some(t);
                },
                _ => {
                    return None;
                },
            }
        }
        assert(start.skip(i as int).drop_first() =~= start.skip(i + 1));
        i = i + 1;
    }
    None
}

/// Excludes the directories of the given sources from the members of a
/// document's workspace; none if nothing changes.
pub fn exclude_sources(doc: Toml, names: &Vec<String>) -> (r: Option<Toml>)
    requires
        well_formed(doc@),
    ensures
        match (r, excluding(doc@, views(names@))) {
            (Some(d), Some(t)) => d@ == t && well_formed(t),
            (None, None) => true,
            _ => false,
        },
{
    match doc {
        Toml::Table(m) => {
            proof {
                lemma_toml_table(m);
            }
            let ghost all = entry_views(m@);
            proof {
                lemma_lookup_well_formed(all, "workspace"@);
            }
            let mut rest = m;
            let ws = match take_table(&mut rest, "workspace") {
                Some(t) => t,
                None => return None,
            };
            match exclude_in_workspace(ws, names) {
                Some(w) => {
                    proof {
                        lemma_toml_table(w);
                    }
                    let value = Toml::Table(w);
                    let ghost vv = value@;
                    proof {
                        lemma_with_value_well_formed(all, "workspace"@, vv);
                        assert(with_value(entry_views(rest@), "workspace"@, vv) == with_value(
                            all,
                            "workspace"@,
                            vv,
                        ));
                    }
                    let fresh = set_value(rest, "workspace", value);
                    proof {
                        lemma_toml_table(fresh);
                    }
                    Some(Toml::Table(fresh))
                },
                None => None,
            }
        },
        Toml::Array(a) => {
            proof {
                lemma_toml_array(a);
            }
            None
        },
        _ => None,
    }
}

/// The new text of a manifest whose workspace excludes the directories of the
/// given sources; none if nothing changes or the manifest is no TOML document.
pub open spec fn manifest_excluding(text: Seq<char>, names: Seq<Seq<char>>) -> Option<
    Result<Seq<char>, Seq<char>>,
> {
    match toml_document(text) {
        Err(_) => None,
        Ok(t) => match excluding(t, names) {
            Some(d) => Some(toml_text(d)),
            None => None,
        },
    }
}

/// Excludes the directories of the given sources from the members of a
/// manifest's workspace, so that they are not taken for members.
pub fn update_workspace_exclude(text: &str, names: &Vec<String>) -> (r: Option<
    Result<String, String>,
>)
    ensures
        changed_text(r) == manifest_excluding(text@, views(names@)),
{
    let doc = match parse_toml(text) {
        Ok(d) => d,
        Err(_) => return None,
    };
    match exclude_sources(doc, names) {
        Some(d) => Some(write_toml(d)),
        None => None,
    }
}

// ---------------------------------------------------------------------------
// Laws
// ---------------------------------------------------------------------------

/// The path of a dependency after rewriting.
pub open spec fn path_after(rw: Rewrite, path: Seq<char>) -> Seq<char> {
    match new_path(rw, path) {
        Some(q) => q,
        None => path,
    }
}

/// The paths of dependencies after rewriting.
pub open spec fn paths_after(rw: Rewrite, paths: Seq<Seq<char>>) -> Seq<Seq<char>> {
    Seq::new(paths.len(), |i: int| path_after(rw, paths[i]))
}

proof fn lemma_lookup_with_value(m: Seq<(Seq<char>, TomlView)>, key: Seq<char>, value: TomlView)
    requires
        entry_lookup(m, key) is Some,
    ensures
        entry_lookup(with_value(m, key, value), key) == Some(value),
    decreases m.len(),
{
    let w = with_value(m, key, value);
    if m.len() > 0 && m[0].0 != key {
        lemma_lookup_with_value(m.drop_first(), key, value);
        assert(w.drop_first() =~= with_value(m.drop_first(), key, value));
    }
}

/// Rewriting changes the paths of dependencies that were taken in, in place, and
/// no others.
pub proof fn law_rewriting_maps_paths(rw: Rewrite, place: Place, v: TomlView)
    ensures
        paths_in(place, rewritten(rw, place, v)) == paths_after(rw, paths_in(place, v)),
    decreases v,
{
    match v {
        TomlView::Table(m) => {
            if place == Place::Dependency {
                match toml_str(entry_lookup(m, "path"@)) {
                    Some(p) => {
                        if let Some(q) = new_path(rw, p) {
                            lemma_lookup_with_value(m, "path"@, TomlView::Text(q));
                        }
                        assert(paths_after(rw, seq![p]) =~= seq![path_after(rw, p)]);
                    },
                    None => {
                        assert(paths_after(rw, Seq::empty()) =~= Seq::empty());
                    },
                }
            } else {
                lemma_entries_map_paths(rw, place, m);
            }
        },
        _ => {
            assert(paths_after(rw, Seq::empty()) =~= Seq::empty());
        },
    }
}

proof fn lemma_entries_map_paths(rw: Rewrite, place: Place, m: Seq<(Seq<char>, TomlView)>)
    ensures
        paths_under(place, rewritten_entries(rw, place, m)) == paths_after(
            rw,
            paths_under(place, m),
        ),
    decreases m,
{
    if m.len() == 0 {
        assert(paths_after(rw, Seq::empty()) =~= Seq::empty());
    } else {
        let t = m.drop_last();
        let r = rewritten_entries(rw, place, m);
        lemma_entries_map_paths(rw, place, t);
        assert(r.drop_last() =~= rewritten_entries(rw, place, t));
        let a = paths_under(place, t);
        let b = match inner_place(place, m.last().0) {
            Some(inner) => paths_in(inner, m.last().1),
            None => Seq::empty(),
        };
        if let Some(inner) = inner_place(place, m.last().0) {
            law_rewriting_maps_paths(rw, inner, m.last().1);
        }
        assert(paths_after(rw, Seq::empty()) =~= Seq::<Seq<char>>::empty());
        assert(paths_after(rw, a + b) =~= paths_after(rw, a) + paths_after(rw, b));
    }
}

/// A part without dependencies that were taken in stays as it is.
pub proof fn law_rewriting_spares_the_rest(rw: Rewrite, place: Place, v: TomlView)
    requires
        !some_new(rw, paths_in(place, v)),
    ensures
        rewritten(rw, place, v) == v,
    decreases v,
{
    if let TomlView::Table(m) = v {
        if place == Place::Dependency {
            if let Some(p) = toml_str(entry_lookup(m, "path"@)) {
                assert(paths_in(place, v)[0] == p);
            }
        } else {
            lemma_entries_spared(rw, place, m);
        }
    }
}

proof fn lemma_entries_spared(rw: Rewrite, place: Place, m: Seq<(Seq<char>, TomlView)>)
    requires
        !some_new(rw, paths_under(place, m)),
    ensures
        rewritten_entries(rw, place, m) == m,
    decreases m,
{
    if m.len() == 0 {
        assert(m =~= Seq::empty());
    } else {
        let t = m.drop_last();
        let all = paths_under(place, m);
        let a = paths_under(place, t);
        assert forall|i: int| 0 <= i < a.len() implies new_path(rw, #[trigger] a[i]) is None by {
            assert(all[i] == a[i]);
        }
        lemma_entries_spared(rw, place, t);
        if let Some(inner) = inner_place(place, m.last().0) {
            let b = paths_in(inner, m.last().1);
            assert forall|i: int| 0 <= i < b.len() implies new_path(rw, #[trigger] b[i]) is None by {
                assert(all[a.len() + i] == b[i]);
            }
            law_rewriting_spares_the_rest(rw, inner, m.last().1);
        }
        assert(t.push(m.last()) =~= m);
    }
}

/// Once the sources are excluded, the directory of each stands in the list.
pub proof fn law_sources_are_excluded(items: Seq<TomlView>, names: Seq<Seq<char>>, i: int)
    requires
        0 <= i < names.len(),
    ensures
        with_texts(items, added_excludes(items, names)).contains(TomlView::Text(top_dir(names[i]))),
    decreases names.len(),
{
    let more = added_excludes(items, names);
    let w = with_texts(items, more);
    let top = top_dir(names[i]);
    if i == names.len() - 1 {
        let before = added_excludes(items, names.drop_last());
        if items.contains(TomlView::Text(top)) {
            let k = choose|k: int| 0 <= k < items.len() && items[k] == TomlView::Text(top);
            assert(w[k] == TomlView::Text(top));
        } else if before.contains(top) {
            let k = choose|k: int| 0 <= k < before.len() && before[k] == top;
            assert(w[items.len() + k] == TomlView::Text(top));
        } else {
            assert(more.last() == top);
            assert(w[items.len() + more.len() - 1] == TomlView::Text(top));
        }
    } else {
        let t = names.drop_last();
        assert(t[i] == names[i]);
        law_sources_are_excluded(items, t, i);
        let v = with_texts(items, added_excludes(items, t));
        let k = choose|k: int| 0 <= k < v.len() && v[k] == TomlView::Text(top);
        assert(w[k] == v[k]);
    }
}

/// What is excluded already stays excluded.
pub proof fn law_excludes_stay(items: Seq<TomlView>, names: Seq<Seq<char>>, i: int)
    requires
        0 <= i < items.len(),
    ensures
        with_texts(items, added_excludes(items, names))[i] == items[i],
{
}

} // verus!
