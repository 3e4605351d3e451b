//! What a `Cargo.toml` says.
use crate::resolution::{subtract, without, ResolutionScope, ResolutionSpec, SpecView};
use crate::text::{debug_str, debug_string, owned, same, views};
use crate::toml_doc::{
    as_entries, as_items, as_text, collect_texts, dig2, dig4, entry_lookup, entry_views, find_entry,
    item_views, lemma_toml_array, lemma_toml_table, parse_toml, texts_among, toml_dig,
    toml_document, toml_entries, toml_get, toml_items, toml_str, Toml, TomlView,
};
use crate::units::{opt_view, pair_views};
use vstd::prelude::*;

verus! {

/// Why a manifest could not be used: what is said of it, and the cause if there
/// is one.
#[derive(Debug)]
pub struct Fault {
    pub message: String,
    pub cause: Option<String>,
}

/// What a fault says.
pub struct FaultView {
    pub message: Seq<char>,
    pub cause: Option<Seq<char>>,
}

impl View for Fault {
    type V = FaultView;

    open spec fn view(&self) -> FaultView {
        FaultView { message: self.message@, cause: opt_view(self.cause) }
    }
}

/// A fault without a cause.
pub open spec fn plain_fault(message: Seq<char>) -> FaultView {
    FaultView { message, cause: None }
}

fn fault(message: String) -> (r: Fault)
    ensures
        r@ == plain_fault(message@),
{
    Fault { message, cause: None }
}

/// The fault of a manifest that is no TOML document.
pub open spec fn parse_fault(path: Seq<char>, cause: Seq<char>) -> FaultView {
    FaultView { message: "Failed to parse "@ + path, cause: Some(cause) }
}

/// Reads a manifest.
pub fn parse_manifest(text: &str, path: &str) -> (r: Result<Toml, Fault>)
    ensures
        match (r, toml_document(text@)) {
            (Ok(t), Ok(tree)) => t@ == tree,
            (Err(f), Err(m)) => f@ == parse_fault(path@, m),
            _ => false,
        },
{
    match parse_toml(text) {
        Ok(t) => Ok(t),
        Err(e) => {
            let mut message = owned("Failed to parse ");
            message.append(path);
            Err(Fault { message, cause: Some(e) })
        },
    }
}

// ---------------------------------------------------------------------------
// Names and versions
// ---------------------------------------------------------------------------

/// The name of the package.
pub open spec fn package_name_of(t: TomlView) -> Option<Seq<char>> {
    toml_str(toml_dig(Some(t), seq!["package"@, "name"@]))
}

/// The name of the package.
pub fn package_name_in<'a>(doc: &'a Toml) -> (r: Option<&'a String>)
    ensures
        match r {
            Some(s) => package_name_of(doc@) == Some(s@),
            None => package_name_of(doc@) is None,
        },
{
    as_text(dig2(doc, "package", "name"))
}

/// The name of the package of a manifest, or why it has none.
pub open spec fn package_name_read(text: Seq<char>, path: Seq<char>) -> Result<
    Seq<char>,
    FaultView,
> {
    match toml_document(text) {
        Err(e) => Err(parse_fault(path, e)),
        Ok(t) => match package_name_of(t) {
            Some(name) => Ok(name),
            None => Err(plain_fault("No [package].name found in "@ + path)),
        },
    }
}

/// What a read of a string from a manifest comes to.
pub open spec fn string_read(r: Result<String, Fault>) -> Result<Seq<char>, FaultView> {
    match r {
        Ok(s) => Ok(s@),
        Err(f) => Err(f@),
    }
}

/// Reads the name of the package from a manifest.
pub fn read_package_name(text: &str, path: &str) -> (r: Result<String, Fault>)
    ensures
        string_read(r) == package_name_read(text@, path@),
{
    let doc = match parse_manifest(text, path) {
        Ok(d) => d,
        Err(f) => return Err(f),
    };
    match package_name_in(&doc) {
        Some(s) => Ok(s.clone()),
        None => {
            let mut m = owned("No [package].name found in ");
            m.append(path);
            Err(fault(m))
        },
    }
}

/// The name of the first binary target that has one.
pub open spec fn first_bin_name(t: TomlView) -> Option<Seq<char>> {
    match toml_items(toml_get(t, "bin"@)) {
        Some(bins) => if bins.len() > 0 {
            toml_str(toml_get(bins[0], "name"@))
        } else {
            None
        },
        None => None,
    }
}

/// The name of the binary target: that of the first one that is declared, else
/// that of the package.
pub open spec fn bin_name_of(t: TomlView) -> Option<Seq<char>> {
    match first_bin_name(t) {
        Some(name) => Some(name),
        None => package_name_of(t),
    }
}

/// The name of the binary target.
pub fn bin_name_in<'a>(doc: &'a Toml) -> (r: Option<&'a String>)
    ensures
        match r {
            Some(s) => bin_name_of(doc@) == Some(s@),
            None => bin_name_of(doc@) is None,
        },
{
    if let Some(bins) = as_items(doc.get("bin")) {
        if bins.len() > 0 {
            assert(item_views(bins@)[0] == bins@[0]@);
            if let Some(name) = as_text(bins[0].get("name")) {
                return Some(name);
            }
        }
    }
    package_name_in(doc)
}

/// The name of the binary target of a manifest, or why it has none.
pub open spec fn bin_name_read(text: Seq<char>, path: Seq<char>) -> Result<Seq<char>, FaultView> {
    match toml_document(text) {
        Err(e) => Err(parse_fault(path, e)),
        Ok(t) => match bin_name_of(t) {
            Some(name) => Ok(name),
            None => Err(plain_fault("Could not determine binary name from "@ + path)),
        },
    }
}

/// Reads the name of the binary target from a manifest.
pub fn read_bin_target_name(text: &str, path: &str) -> (r: Result<String, Fault>)
    ensures
        string_read(r) == bin_name_read(text@, path@),
{
    let doc = match parse_manifest(text, path) {
        Ok(d) => d,
        Err(f) => return Err(f),
    };
    match bin_name_in(&doc) {
        Some(s) => Ok(s.clone()),
        None => {
            let mut m = owned("Could not determine binary name from ");
            m.append(path);
            Err(fault(m))
        },
    }
}

/// The version of the package.
pub open spec fn package_version_of(t: TomlView) -> Option<Seq<char>> {
    toml_str(toml_dig(Some(t), seq!["package"@, "version"@]))
}

/// The version of the package.
pub fn package_version_in<'a>(doc: &'a Toml) -> (r: Option<&'a String>)
    ensures
        match r {
            Some(s) => package_version_of(doc@) == Some(s@),
            None => package_version_of(doc@) is None,
        },
{
    as_text(dig2(doc, "package", "version"))
}

/// Reads the version of the package from a manifest.
pub fn read_package_version(text: &str) -> (r: Option<String>)
    ensures
        opt_view(r) == (match toml_document(text@) {
            Ok(t) => package_version_of(t),
            Err(_) => None,
        }),
{
    match parse_toml(text) {
        Ok(doc) => match package_version_in(&doc) {
            Some(s) => Some(s.clone()),
            None => None,
        },
        Err(_) => None,
    }
}

/// A manifest declares a workspace.
pub open spec fn has_workspace(t: TomlView) -> bool {
    toml_get(t, "workspace"@) is Some
}

/// The text of a manifest declares a workspace. One that is no TOML document does
/// not.
pub open spec fn manifest_declares(text: Seq<char>) -> bool {
    match toml_document(text) {
        Ok(t) => has_workspace(t),
        Err(_) => false,
    }
}

/// Whether a manifest declares a workspace.
pub fn declares_workspace(text: &str) -> (r: bool)
    ensures
        r == manifest_declares(text@),
{
    match parse_toml(text) {
        Ok(doc) => doc.get("workspace").is_some(),
        Err(_) => false,
    }
}

/// The patterns of the workspace members, if the manifest lists members.
pub open spec fn member_patterns_of(t: TomlView) -> Option<Seq<Seq<char>>> {
    match toml_items(toml_dig(Some(t), seq!["workspace"@, "members"@])) {
        Some(items) => Some(texts_among(items)),
        None => None,
    }
}

/// What a read of member patterns comes to.
pub open spec fn patterns_read(r: Result<Option<Vec<String>>, Fault>) -> Result<
    Option<Seq<Seq<char>>>,
    FaultView,
> {
    match r {
        Ok(Some(v)) => Ok(Some(views(v@))),
        Ok(None) => Ok(None),
        Err(f) => Err(f@),
    }
}

/// Reads the patterns of the workspace members from a manifest.
pub fn read_member_patterns(text: &str, path: &str) -> (r: Result<Option<Vec<String>>, Fault>)
    ensures
        patterns_read(r) == (match toml_document(text@) {
            Ok(t) => Ok::<Option<Seq<Seq<char>>>, FaultView>(member_patterns_of(t)),
            Err(e) => Err(parse_fault(path@, e)),
        }),
{
    let doc = match parse_manifest(text, path) {
        Ok(d) => d,
        Err(f) => return Err(f),
    };
    match as_items(dig2(&doc, "workspace", "members")) {
        Some(items) => Ok(Some(collect_texts(items))),
        None => Ok(None),
    }
}

// ---------------------------------------------------------------------------
// Metadata
// ---------------------------------------------------------------------------

/// The keys of an entry of the project's own metadata.
pub open spec fn metadata_keys(owner: Seq<char>, key: Seq<char>) -> Seq<Seq<char>> {
    seq![owner, "metadata"@, "schnee"@, key]
}

/// The patterns of extra files, from the workspace or else from the package.
pub open spec fn extra_includes_of(t: TomlView) -> Seq<Seq<char>> {
    match toml_items(toml_dig(Some(t), metadata_keys("workspace"@, "extra-includes"@))) {
        Some(items) => texts_among(items),
        None => match toml_items(
            toml_dig(Some(t), metadata_keys("package"@, "extra-includes"@)),
        ) {
            Some(items) => texts_among(items),
            None => Seq::empty(),
        },
    }
}

/// The patterns of extra files.
pub fn extra_includes_in(doc: &Toml) -> (r: Vec<String>)
    ensures
        views(r@) == extra_includes_of(doc@),
{
    if let Some(items) = as_items(dig4(doc, "workspace", "metadata", "schnee", "extra-includes")) {
        return collect_texts(items);
    }
    if let Some(items) = as_items(dig4(doc, "package", "metadata", "schnee", "extra-includes")) {
        return collect_texts(items);
    }
    let r: Vec<String> = Vec::new();
    assert(views(r@) =~= Seq::empty());
    r
}

/// Reads the patterns of extra files from a manifest. One that is no TOML document
/// has none.
pub fn read_extra_includes(text: &str) -> (r: Vec<String>)
    ensures
        views(r@) == (match toml_document(text@) {
            Ok(t) => extra_includes_of(t),
            Err(_) => Seq::<Seq<char>>::empty(),
        }),
{
    match parse_toml(text) {
        Ok(doc) => extra_includes_in(&doc),
        Err(_) => {
            let r: Vec<String> = Vec::new();
            assert(views(r@) =~= Seq::empty());
            r
        },
    }
}

/// The entries of a table that are strings, in the order of their keys.
pub open spec fn text_entries(m: Seq<(Seq<char>, TomlView)>) -> Seq<(Seq<char>, Seq<char>)>
    decreases m.len(),
{
    if m.len() == 0 {
        Seq::empty()
    } else {
        let before = text_entries(m.drop_last());
        match m.last().1 {
            TomlView::Text(s) => before.push((m.last().0, s)),
            _ => before,
        }
    }
}

fn collect_text_entries(m: &Vec<(String, Toml)>) -> (r: Vec<(String, String)>)
    ensures
        pair_views(r@) == text_entries(entry_views(m@)),
{
    let ghost all = entry_views(m@);
    let mut r: Vec<(String, String)> = Vec::new();
    let mut i: usize = 0;
    assert(pair_views(r@) =~= Seq::empty());
    while i < m.len()
        invariant
            i <= m@.len(),
            all == entry_views(m@),
            pair_views(r@) == text_entries(all.take(i as int)),
        decreases m@.len() - i,
    {
        assert(all.take(i + 1).drop_last() =~= all.take(i as int));
        assert(all.take(i + 1).last() == (m@[i as int].0@, m@[i as int].1@));
        if let Toml::Text(s) = &m[i].1 {
            let ghost before = pair_views(r@);
            r.push((m[i].0.clone(), s.clone()));
            assert(pair_views(r@) =~= before.push((m@[i as int].0@, s@)));
        }
        i = i + 1;
    }
    assert(all.take(all.len() as int) =~= all);
    r
}

/// The variables that name native libraries, from the workspace or else from the
/// package.
pub open spec fn sys_env_of(t: TomlView) -> Seq<(Seq<char>, Seq<char>)> {
    match toml_entries(toml_dig(Some(t), metadata_keys("workspace"@, "sys-env"@))) {
        Some(m) => text_entries(m),
        None => match toml_entries(toml_dig(Some(t), metadata_keys("package"@, "sys-env"@))) {
            Some(m) => text_entries(m),
            None => Seq::empty(),
        },
    }
}

/// The variables that name native libraries.
pub fn sys_env_in(doc: &Toml) -> (r: Vec<(String, String)>)
    ensures
        pair_views(r@) == sys_env_of(doc@),
{
    if let Some(m) = as_entries(dig4(doc, "workspace", "metadata", "schnee", "sys-env")) {
        return collect_text_entries(m);
    }
    if let Some(m) = as_entries(dig4(doc, "package", "metadata", "schnee", "sys-env")) {
        return collect_text_entries(m);
    }
    let r: Vec<(String, String)> = Vec::new();
    assert(pair_views(r@) =~= Seq::empty());
    r
}

/// Reads the variables that name native libraries from a manifest, in the order of
/// the libraries. A manifest that is no TOML document has none.
pub fn read_custom_sys_env(text: &str) -> (r: Vec<(String, String)>)
    ensures
        pair_views(r@) == (match toml_document(text@) {
            Ok(t) => sys_env_of(t),
            Err(_) => Seq::<(Seq<char>, Seq<char>)>::empty(),
        }),
{
    match parse_toml(text) {
        Ok(doc) => sys_env_in(&doc),
        Err(_) => {
            let r: Vec<(String, String)> = Vec::new();
            assert(pair_views(r@) =~= Seq::empty());
            r
        },
    }
}

// ---------------------------------------------------------------------------
// Resolution scopes
// ---------------------------------------------------------------------------

/// Where a scope is declared.
pub open spec fn scope_place(key: Seq<char>, path: Seq<char>) -> Seq<char> {
    "workspace.metadata.schnee.resolution."@ + key + " in "@ + path
}

fn scope_place_text(key: &str, path: &str) -> (r: String)
    ensures
        r@ == scope_place(key@, path@),
{
    let mut r = owned("workspace.metadata.schnee.resolution.");
    r.append(key);
    r.append(" in ");
    r.append(path);
    r
}

/// The first key of a table that a scope does not have.
pub open spec fn first_unknown(m: Seq<(Seq<char>, TomlView)>) -> Option<Seq<char>>
    decreases m.len(),
{
    if m.len() == 0 {
        None
    } else {
        match first_unknown(m.drop_last()) {
            Some(k) => Some(k),
            None => if m.last().0 == "packages"@ || m.last().0 == "exclude"@ {
                None
            } else {
                Some(m.last().0)
            },
        }
    }
}

proof fn lemma_first_unknown_stays(m: Seq<(Seq<char>, TomlView)>, n: int)
    requires
        0 <= n <= m.len(),
        first_unknown(m.take(n)) is Some,
    ensures
        first_unknown(m) == first_unknown(m.take(n)),
    decreases m.len() - n,
{
    if n == m.len() {
        assert(m.take(n) =~= m);
    } else {
        assert(m.take(n + 1).drop_last() =~= m.take(n));
        lemma_first_unknown_stays(m, n + 1);
    }
}

fn find_unknown<'a>(m: &'a Vec<(String, Toml)>) -> (r: Option<&'a String>)
    ensures
        match r {
            Some(k) => first_unknown(entry_views(m@)) == Some(k@),
            None => first_unknown(entry_views(m@)) is None,
        },
{
    let ghost all = entry_views(m@);
    let mut i: usize = 0;
    while i < m.len()
        invariant
            i <= m@.len(),
            all == entry_views(m@),
            first_unknown(all.take(i as int)) is None,
        decreases m@.len() - i,
    {
        assert(all.take(i + 1).drop_last() =~= all.take(i as int));
        let k = &m[i].0;
        assert(all.take(i + 1).last().0 == k@);
        if !same(k.as_str(), "packages") && !same(k.as_str(), "exclude") {
            proof {
                lemma_first_unknown_stays(all, i + 1);
            }
            return Some(k);
        }
        i = i + 1;
    }
    assert(all.take(all.len() as int) =~= all);
    None
}

/// Every element is a string.
pub open spec fn all_texts(v: Seq<TomlView>) -> bool {
    forall|i: int| 0 <= i < v.len() ==> (#[trigger] v[i]) is Text
}

/// What is said of a field that is no list of strings.
pub open spec fn not_strings(place: Seq<char>, field: Seq<char>) -> Seq<char> {
    place + ": `"@ + field + "` must be an array of strings"@
}

/// The list of strings of a field, which may be left out.
pub open spec fn scope_list(
    m: Seq<(Seq<char>, TomlView)>,
    field: Seq<char>,
    place: Seq<char>,
) -> Result<Seq<Seq<char>>, Seq<char>> {
    match entry_lookup(m, field) {
        None => Ok(Seq::empty()),
        Some(TomlView::Array(v)) => if all_texts(v) {
            Ok(texts_among(v))
        } else {
            Err(not_strings(place, field))
        },
        Some(_) => Err(not_strings(place, field)),
    }
}

fn only_texts(v: &Vec<Toml>) -> (r: bool)
    ensures
        r == all_texts(item_views(v@)),
{
    let ghost all = item_views(v@);
    let mut i: usize = 0;
    while i < v.len()
        invariant
            i <= v@.len(),
            all == item_views(v@),
            forall|j: int| 0 <= j < i ==> (#[trigger] all[j]) is Text,
        decreases v@.len() - i,
    {
        assert(all[i as int] == v@[i as int]@);
        match &v[i] {
            Toml::Text(_) => {},
            Toml::Array(a) => {
                proof {
                    lemma_toml_array(*a);
                }
                return false;
            },
            Toml::Table(t) => {
                proof {
                    lemma_toml_table(*t);
                }
                return false;
            },
            Toml::Plain(_) => return false,
        }
        i = i + 1;
    }
    true
}

fn read_scope_list(m: &Vec<(String, Toml)>, field: &str, place: &str) -> (r: Result<
    Vec<String>,
    String,
>)
    ensures
        match (r, scope_list(entry_views(m@), field@, place@)) {
            (Ok(v), Ok(l)) => views(v@) == l,
            (Err(e), Err(x)) => e@ == x,
            _ => false,
        },
{
    let entry = find_entry(m, field);
    if entry.is_none() {
        let r: Vec<String> = Vec::new();
        assert(views(r@) =~= Seq::empty());
        return Ok(r);
    }
    if let Some(items) = as_items(entry) {
        if only_texts(items) {
            return Ok(collect_texts(items));
        }
    }
    let mut e = owned(place);
    e.append(": `");
    e.append(field);
    e.append("` must be an array of strings");
    Err(e)
}

/// The selection that a scope's value declares, or what is wrong with it.
pub open spec fn selection_of(v: TomlView, place: Seq<char>) -> Result<SpecView, Seq<char>> {
    match v {
        TomlView::Text(s) => if s == "workspace"@ {
            Ok(SpecView::Workspace)
        } else {
            Err(
                place + ": the only accepted string value is \"workspace\" (got "@ + debug_string(s)
                    + ")"@,
            )
        },
        TomlView::Table(m) => match first_unknown(m) {
            Some(k) => Err(
                place + ": unknown field "@ + debug_string(k)
                    + ", expected `packages` or `exclude`"@,
            ),
            None => match (scope_list(m, "packages"@, place), scope_list(m, "exclude"@, place)) {
                (Err(e), _) => Err(e),
                (_, Err(e)) => Err(e),
                (Ok(packages), Ok(exclude)) => selection_from(packages, exclude, place),
            },
        },
        _ => Err(place + ": expected \"workspace\" or a table"@),
    }
}

/// The selection of listed packages without the excluded ones, or of all but the
/// excluded ones where none are listed.
pub open spec fn selection_from(
    packages: Seq<Seq<char>>,
    exclude: Seq<Seq<char>>,
    place: Seq<char>,
) -> Result<SpecView, Seq<char>> {
    if packages.len() == 0 {
        if exclude.len() == 0 {
            Err(place + ": needs `packages`, `exclude`, or the string \"workspace\""@)
        } else {
            Ok(SpecView::Exclude(exclude))
        }
    } else if without(packages, exclude).len() == 0 {
        Err(place + ": `exclude` removes every entry of `packages`"@)
    } else {
        Ok(SpecView::Packages(without(packages, exclude)))
    }
}

/// What reading a selection comes to.
pub open spec fn selection_read(r: Result<ResolutionSpec, String>) -> Result<SpecView, Seq<char>> {
    match r {
        Ok(s) => Ok(s@),
        Err(e) => Err(e@),
    }
}

fn select(packages: Vec<String>, exclude: Vec<String>, place: String) -> (r: Result<
    ResolutionSpec,
    String,
>)
    ensures
        selection_read(r) == selection_from(views(packages@), views(exclude@), place@),
{
    if packages.len() == 0 {
        if exclude.len() == 0 {
            let mut e = place;
            e.append(": needs `packages`, `exclude`, or the string \"workspace\"");
            return Err(e);
        }
        return Ok(ResolutionSpec::Exclude(exclude));
    }
    let kept = subtract(&packages, &exclude);
    assert(views(kept@).len() == kept@.len());
    if kept.len() == 0 {
        let mut e = place;
        e.append(": `exclude` removes every entry of `packages`");
        return Err(e);
    }
    Ok(ResolutionSpec::Packages(kept))
}

/// Reads the selection that a scope's value declares.
pub fn parse_resolution_spec(value: &Toml, key: &str, path: &str) -> (r: Result<
    ResolutionSpec,
    String,
>)
    ensures
        selection_read(r) == selection_of(value@, scope_place(key@, path@)),
{
    let place = scope_place_text(key, path);
    match value {
        Toml::Text(s) => {
            if same(s.as_str(), "workspace") {
                return Ok(ResolutionSpec::Workspace);
            }
            let mut e = place;
            e.append(": the only accepted string value is \"workspace\" (got ");
            let shown = debug_str(s.as_str());
            e.append(shown.as_str());
            e.append(")");
            Err(e)
        },
        Toml::Table(m) => {
            proof {
                lemma_toml_table(*m);
            }
            if let Some(k) = find_unknown(m) {
                let mut e = place;
                e.append(": unknown field ");
                let shown = debug_str(k.as_str());
                e.append(shown.as_str());
                e.append(", expected `packages` or `exclude`");
                return Err(e);
            }
            let packages = match read_scope_list(m, "packages", place.as_str()) {
                Ok(v) => v,
                Err(e) => return Err(e),
            };
            let exclude = match read_scope_list(m, "exclude", place.as_str()) {
                Ok(v) => v,
                Err(e) => return Err(e),
            };
            assert(views(packages@).len() == packages@.len());
            assert(views(exclude@).len() == exclude@.len());
            select(packages, exclude, place)
        },
        Toml::Array(v) => {
            proof {
                lemma_toml_array(*v);
            }
            let mut e = place;
            e.append(": expected \"workspace\" or a table");
            Err(e)
        },
        Toml::Plain(_) => {
            let mut e = place;
            e.append(": expected \"workspace\" or a table");
            Err(e)
        },
    }
}

/// What a scope holds.
pub struct ScopeView {
    pub key: Seq<char>,
    pub spec: SpecView,
}

/// The scope that is declared under a key of the resolution table.
pub open spec fn scope_under(
    m: Seq<(Seq<char>, TomlView)>,
    key: Seq<char>,
    path: Seq<char>,
) -> Option<Result<ScopeView, Seq<char>>> {
    match entry_lookup(m, key) {
        Some(v) => Some(
            match selection_of(v, scope_place(key, path)) {
                Ok(spec) => Ok(ScopeView { key, spec }),
                Err(e) => Err(e),
            },
        ),
        None => None,
    }
}

/// What is said of a manifest that declares no scopes.
pub open spec fn no_scopes(key: Seq<char>, path: Seq<char>) -> Seq<char> {
    "resolution scope "@ + debug_string(key) + " was requested but "@ + path
        + " declares no [workspace.metadata.schnee.resolution] table"@
}

/// What is said of a manifest that declares neither the scope nor a default.
pub open spec fn no_default(key: Seq<char>, path: Seq<char>) -> Seq<char> {
    "workspace.metadata.schnee.resolution in "@ + path + " has neither a "@ + debug_string(key)
        + " key nor a `default` key"@
}

/// The scope that a manifest declares for a key: that of the key itself, else the
/// default. Only the workspace's table counts.
pub open spec fn scope_of(t: TomlView, key: Seq<char>, path: Seq<char>) -> Result<
    ScopeView,
    Seq<char>,
> {
    match toml_entries(toml_dig(Some(t), metadata_keys("workspace"@, "resolution"@))) {
        None => Err(no_scopes(key, path)),
        Some(m) => match scope_under(m, key, path) {
            Some(r) => r,
            None => match scope_under(m, "default"@, path) {
                Some(r) => r,
                None => Err(no_default(key, path)),
            },
        },
    }
}

/// What reading a scope comes to.
pub open spec fn scope_view(r: Result<ResolutionScope, String>) -> Result<ScopeView, Seq<char>> {
    match r {
        Ok(s) => Ok(ScopeView { key: s.key@, spec: s.spec@ }),
        Err(e) => Err(e@),
    }
}

fn scope_from(value: &Toml, key: &str, path: &str) -> (r: Result<ResolutionScope, String>)
    ensures
        scope_view(r) == (match selection_of(value@, scope_place(key@, path@)) {
            Ok(spec) => Ok::<ScopeView, Seq<char>>(ScopeView { key: key@, spec }),
            Err(e) => Err(e),
        }),
{
    match parse_resolution_spec(value, key, path) {
        Ok(spec) => Ok(ResolutionScope { key: owned(key), spec }),
        Err(e) => Err(e),
    }
}

/// The scope that a manifest declares for a key.
pub fn resolution_scope_in(doc: &Toml, key: &str, path: &str) -> (r: Result<
    ResolutionScope,
    String,
>)
    ensures
        scope_view(r) == scope_of(doc@, key@, path@),
{
    let m = match as_entries(dig4(doc, "workspace", "metadata", "schnee", "resolution")) {
        Some(m) => m,
        None => {
            let mut e = owned("resolution scope ");
            let shown = debug_str(key);
            e.append(shown.as_str());
            e.append(" was requested but ");
            e.append(path);
            e.append(" declares no [workspace.metadata.schnee.resolution] table");
            return Err(e);
        },
    };
    if let Some(value) = find_entry(m, key) {
        return scope_from(value, key, path);
    }
    if let Some(value) = find_entry(m, "default") {
        return scope_from(value, "default", path);
    }
    let mut e = owned("workspace.metadata.schnee.resolution in ");
    e.append(path);
    e.append(" has neither a ");
    let shown = debug_str(key);
    e.append(shown.as_str());
    e.append(" key nor a `default` key");
    Err(e)
}

/// What reading a scope from a manifest comes to.
pub open spec fn scope_read(r: Result<ResolutionScope, Fault>) -> Result<ScopeView, FaultView> {
    match r {
        Ok(s) => Ok(ScopeView { key: s.key@, spec: s.spec@ }),
        Err(f) => Err(f@),
    }
}

/// Reads the scope that a manifest declares for a key. With the key the selection
/// of packages over which features are resolved is fixed, whatever is built.
pub fn read_resolution_scope(text: &str, path: &str, key: &str) -> (r: Result<
    ResolutionScope,
    Fault,
>)
    ensures
        scope_read(r) == (match toml_document(text@) {
            Err(e) => Err::<ScopeView, FaultView>(parse_fault(path@, e)),
            Ok(t) => match scope_of(t, key@, path@) {
                Ok(s) => Ok(s),
                Err(e) => Err(plain_fault(e)),
            },
        }),
{
    let doc = match parse_manifest(text, path) {
        Ok(d) => d,
        Err(f) => return Err(f),
    };
    match resolution_scope_in(&doc, key, path) {
        Ok(s) => Ok(s),
        Err(e) => Err(fault(e)),
    }
}

// ---------------------------------------------------------------------------
// Laws
// ---------------------------------------------------------------------------

/// A scope is read from the workspace's table and from nothing else.
pub proof fn law_scope_from_workspace_only(
    a: TomlView,
    b: TomlView,
    key: Seq<char>,
    path: Seq<char>,
)
    requires
        toml_dig(Some(a), metadata_keys("workspace"@, "resolution"@)) == toml_dig(
            Some(b),
            metadata_keys("workspace"@, "resolution"@),
        ),
    ensures
        scope_of(a, key, path) == scope_of(b, key, path),
{
}

/// A selection of listed packages is never empty and holds no excluded package.
pub proof fn law_selection_sound(
    packages: Seq<Seq<char>>,
    exclude: Seq<Seq<char>>,
    place: Seq<char>,
    kept: Seq<Seq<char>>,
    x: Seq<char>,
)
    requires
        selection_from(packages, exclude, place) == Ok::<SpecView, Seq<char>>(
            SpecView::Packages(kept),
        ),
    ensures
        kept.len() > 0,
        kept.contains(x) <==> packages.contains(x) && !exclude.contains(x),
{
    lemma_without(packages, exclude, x);
}

proof fn lemma_without(v: Seq<Seq<char>>, exclude: Seq<Seq<char>>, x: Seq<char>)
    ensures
        without(v, exclude).contains(x) <==> v.contains(x) && !exclude.contains(x),
    decreases v.len(),
{
    if v.len() > 0 {
        let t = v.drop_last();
        let w = without(t, exclude);
        lemma_without(t, exclude, x);
        if v.contains(x) && x != v.last() {
            let i = choose|i: int| 0 <= i < v.len() && v[i] == x;
            assert(t[i] == x);
        }
        if t.contains(x) {
            let i = choose|i: int| 0 <= i < t.len() && t[i] == x;
            assert(v[i] == x);
        }
        assert(v[v.len() - 1] == v.last());
        if !exclude.contains(v.last()) {
            let p = w.push(v.last());
            assert(p[w.len() as int] == v.last());
            if w.contains(x) {
                let i = choose|i: int| 0 <= i < w.len() && w[i] == x;
                assert(p[i] == x);
            }
            if p.contains(x) && x != v.last() {
                let i = choose|i: int| 0 <= i < p.len() && p[i] == x;
                assert(w[i] == x);
            }
        }
    }
}

} // verus!
