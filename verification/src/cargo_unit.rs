//! Cargo's compilation units as plain values, and what is derived from one of
//! them.
use crate::text::{
    clone_strings, debug_list, debug_strings, decimal, decimal_seq, join, join_seq, owned, replace,
    replace_seq, sort_seq, sort_strings, views,
};
use crate::unit_key::{identity_seq, identity_text, unit_key_seq, unit_key_text};
use crate::units::{list_has, opt_view, pair_views, UnitKind};
use vstd::prelude::*;

verus! {

/// How cargo means to compile a unit.
#[derive(Debug, Clone, Copy, PartialEq, Eq, Structural)]
pub enum CargoMode {
    /// Regular build.
    Build,
    /// Metadata only; with the test harness if `test`.
    Check { test: bool },
    /// Documentation.
    Doc,
    /// With the test harness.
    Test,
    /// Run of a compiled build script.
    RunCustomBuild,
}

/// An edge of cargo's unit graph.
pub struct CargoDep {
    /// Position of the unit depended on.
    pub unit: usize,
    /// The name under which it is linked.
    pub extern_name: String,
}

/// What a feature enables.
pub enum FeatureRef {
    /// An optional dependency.
    Dep(String),
    /// A feature of a dependency, which it enables too unless weak.
    DepFeature { dep_name: String, weak: bool },
    /// Another feature of the package.
    Feature,
}

/// A unit of cargo's unit graph.
pub struct CargoUnit {
    pub pkg_name: String,
    pub pkg_version: String,
    pub version_major: u64,
    pub version_minor: u64,
    pub version_patch: u64,
    pub version_pre: String,
    pub target_name: String,
    pub mode: CargoMode,
    /// Whether the target is a build script.
    pub is_custom_build: bool,
    /// Whether the target is a library.
    pub is_lib: bool,
    pub for_host: bool,
    pub edition: String,
    pub crate_types: Vec<String>,
    /// Enabled features.
    pub features: Vec<String>,
    pub deps: Vec<CargoDep>,
    /// The package's `links` value.
    pub links: Option<String>,
    /// The target's source file; targets generated by cargo have none.
    pub source_file: Option<String>,
    /// The package's directory.
    pub manifest_dir: String,
    /// Whether the package is given by a path.
    pub is_local: bool,
    pub authors: Vec<String>,
    pub description: Option<String>,
    pub homepage: Option<String>,
    pub repository: Option<String>,
    pub license: Option<String>,
    pub license_file: Option<String>,
    pub rust_version: Option<String>,
    pub readme: Option<String>,
    /// The package's features and what each enables.
    pub feature_table: Vec<(String, Vec<FeatureRef>)>,
    /// The package's dependencies: name in the manifest and package name.
    pub dependencies: Vec<(String, String)>,
    /// Whether the build script reads only its own crate directory.
    pub self_contained_build_script: bool,
}

// ---------------------------------------------------------------------------
// Kind, identity and key
// ---------------------------------------------------------------------------

/// The kind of derivation a unit becomes.
pub open spec fn kind_of(u: CargoUnit) -> UnitKind {
    if u.mode == CargoMode::RunCustomBuild {
        UnitKind::BuildScriptRun
    } else if u.is_custom_build {
        UnitKind::BuildScriptCompile
    } else if u.mode == CargoMode::Test {
        UnitKind::TestCompile
    } else if u.mode is Check {
        UnitKind::Check
    } else if u.mode == CargoMode::Doc {
        UnitKind::Doc
    } else {
        UnitKind::Compile
    }
}

/// The kind of derivation a unit becomes.
pub fn unit_kind(u: &CargoUnit) -> (r: UnitKind)
    ensures
        r == kind_of(*u),
{
    match u.mode {
        CargoMode::RunCustomBuild => UnitKind::BuildScriptRun,
        _ if u.is_custom_build => UnitKind::BuildScriptCompile,
        CargoMode::Test => UnitKind::TestCompile,
        CargoMode::Check { .. } => UnitKind::Check,
        CargoMode::Doc => UnitKind::Doc,
        CargoMode::Build => UnitKind::Compile,
    }
}

/// The suffix of a mode in identities and keys.
pub open spec fn mode_suffix(u: CargoUnit) -> Seq<char> {
    match u.mode {
        CargoMode::RunCustomBuild => "-run"@,
        CargoMode::Test => "-test"@,
        CargoMode::Check { .. } => "-check"@,
        CargoMode::Doc => "-doc"@,
        CargoMode::Build => if u.is_custom_build {
            "-build-script"@
        } else {
            ""@
        },
    }
}

fn suffix_of_mode(u: &CargoUnit) -> (r: &'static str)
    ensures
        r@ == mode_suffix(*u),
{
    match u.mode {
        CargoMode::RunCustomBuild => "-run",
        CargoMode::Test => "-test",
        CargoMode::Check { .. } => "-check",
        CargoMode::Doc => "-doc",
        CargoMode::Build => if u.is_custom_build {
            "-build-script"
        } else {
            ""
        },
    }
}

/// The identity of a unit: units that share it compile to the same output.
#[verifier::opaque]
pub open spec fn identity_of(u: CargoUnit) -> Seq<char> {
    identity_seq(
        u.pkg_name@,
        u.pkg_version@,
        u.target_name@,
        mode_suffix(u),
        u.for_host,
        u.edition@,
        debug_strings(sort_seq(views(u.crate_types@))),
        sort_seq(views(u.features@)),
    )
}

/// Computes the identity of a unit. Host and target compilations differ in it.
pub fn compilation_identity(u: &CargoUnit) -> (r: String)
    ensures
        r@ == identity_of(*u),
{
    proof {
        reveal(identity_of);
    }
    let ct = sort_strings(clone_strings(&u.crate_types));
    let printed = debug_list(&ct);
    let features = sort_strings(clone_strings(&u.features));
    identity_text(
        u.pkg_name.as_str(),
        u.pkg_version.as_str(),
        u.target_name.as_str(),
        suffix_of_mode(u),
        u.for_host,
        u.edition.as_str(),
        printed.as_str(),
        &features,
    )
}

/// The key of a unit.
#[verifier::opaque]
pub open spec fn key_of_unit(u: CargoUnit) -> Seq<char> {
    unit_key_seq(
        u.pkg_name@,
        u.pkg_version@,
        u.target_name@,
        mode_suffix(u),
        views(u.crate_types@).contains("proc-macro"@),
        identity_of(u),
    )
}

/// Generates a deterministic key for a unit.
pub fn make_unit_key(u: &CargoUnit) -> (r: String)
    ensures
        r@ == key_of_unit(*u),
{
    proof {
        reveal(key_of_unit);
    }
    let identity = compilation_identity(u);
    unit_key_text(
        u.pkg_name.as_str(),
        u.pkg_version.as_str(),
        u.target_name.as_str(),
        suffix_of_mode(u),
        list_has(&u.crate_types, "proc-macro"),
        identity.as_str(),
    )
}

/// A name with underscores for dashes, as rustc takes it.
pub open spec fn underscored(s: Seq<char>) -> Seq<char> {
    replace_seq(s, "-"@, "_"@)
}

/// A name with underscores for dashes.
pub fn underscore(s: &str) -> (r: String)
    ensures
        r@ == underscored(s@),
{
    proof {
        reveal_strlit("-");
    }
    replace(s, "-", "_")
}

/// A path of a unit as it enters the plan: sources and vendored crates are in
/// the store already, so every path is kept.
pub fn map_to_store_path(path: &str, _src: &str, _vendor: &str, _pkg_root: &str) -> (r: String)
    ensures
        r@ == path@,
{
    owned(path)
}

// ---------------------------------------------------------------------------
// Variables
// ---------------------------------------------------------------------------

/// A variable for a value that the manifest may leave out.
pub open spec fn opt_env(name: Seq<char>, value: Option<Seq<char>>) -> Seq<(Seq<char>, Seq<char>)> {
    match value {
        Some(v) => seq![(name, v)],
        None => Seq::empty(),
    }
}

/// The standard cargo variables of a unit.
pub open spec fn cargo_envs_of(u: CargoUnit) -> Seq<(Seq<char>, Seq<char>)> {
    seq![
        ("CARGO_PKG_NAME"@, u.pkg_name@),
        ("CARGO_PKG_VERSION"@, u.pkg_version@),
        ("CARGO_PKG_VERSION_MAJOR"@, decimal_seq(u.version_major as nat)),
        ("CARGO_PKG_VERSION_MINOR"@, decimal_seq(u.version_minor as nat)),
        ("CARGO_PKG_VERSION_PATCH"@, decimal_seq(u.version_patch as nat)),
        ("CARGO_PKG_VERSION_PRE"@, u.version_pre@),
        ("CARGO_CRATE_NAME"@, underscored(u.target_name@)),
        ("CARGO_PKG_AUTHORS"@, join_seq(views(u.authors@), ":"@)),
    ] + opt_env("CARGO_PKG_DESCRIPTION"@, opt_view(u.description)) + opt_env(
        "CARGO_PKG_HOMEPAGE"@,
        opt_view(u.homepage),
    ) + opt_env("CARGO_PKG_REPOSITORY"@, opt_view(u.repository)) + opt_env(
        "CARGO_PKG_LICENSE"@,
        opt_view(u.license),
    ) + opt_env("CARGO_PKG_LICENSE_FILE"@, opt_view(u.license_file)) + opt_env(
        "CARGO_PKG_RUST_VERSION"@,
        opt_view(u.rust_version),
    ) + opt_env("CARGO_PKG_README"@, opt_view(u.readme))
}

fn push_env(envs: &mut Vec<(String, String)>, name: &str, value: String)
    ensures
        pair_views(final(envs)@) == pair_views(old(envs)@).push((name@, value@)),
{
    envs.push((owned(name), value));
    assert(pair_views(envs@) =~= pair_views(old(envs)@).push((name@, value@)));
}

fn push_opt_env(envs: &mut Vec<(String, String)>, name: &str, value: &Option<String>)
    ensures
        pair_views(final(envs)@) == pair_views(old(envs)@) + opt_env(name@, opt_view(*value)),
{
    if let Some(v) = value {
        push_env(envs, name, v.clone());
    }
    assert(pair_views(envs@) =~= pair_views(old(envs)@) + opt_env(name@, opt_view(*value)));
}

/// Computes the standard cargo variables of a unit.
pub fn compute_cargo_envs(u: &CargoUnit) -> (r: Vec<(String, String)>)
    ensures
        pair_views(r@) == cargo_envs_of(*u),
{
    let mut envs: Vec<(String, String)> = Vec::new();
    push_env(&mut envs, "CARGO_PKG_NAME", u.pkg_name.clone());
    push_env(&mut envs, "CARGO_PKG_VERSION", u.pkg_version.clone());
    push_env(&mut envs, "CARGO_PKG_VERSION_MAJOR", decimal(u.version_major));
    push_env(&mut envs, "CARGO_PKG_VERSION_MINOR", decimal(u.version_minor));
    push_env(&mut envs, "CARGO_PKG_VERSION_PATCH", decimal(u.version_patch));
    push_env(&mut envs, "CARGO_PKG_VERSION_PRE", u.version_pre.clone());
    push_env(&mut envs, "CARGO_CRATE_NAME", underscore(u.target_name.as_str()));
    push_env(&mut envs, "CARGO_PKG_AUTHORS", join(&u.authors, ":"));
    assert(pair_views(envs@) =~= seq![
        ("CARGO_PKG_NAME"@, u.pkg_name@),
        ("CARGO_PKG_VERSION"@, u.pkg_version@),
        ("CARGO_PKG_VERSION_MAJOR"@, decimal_seq(u.version_major as nat)),
        ("CARGO_PKG_VERSION_MINOR"@, decimal_seq(u.version_minor as nat)),
        ("CARGO_PKG_VERSION_PATCH"@, decimal_seq(u.version_patch as nat)),
        ("CARGO_PKG_VERSION_PRE"@, u.version_pre@),
        ("CARGO_CRATE_NAME"@, underscored(u.target_name@)),
        ("CARGO_PKG_AUTHORS"@, join_seq(views(u.authors@), ":"@)),
    ]);
    push_opt_env(&mut envs, "CARGO_PKG_DESCRIPTION", &u.description);
    push_opt_env(&mut envs, "CARGO_PKG_HOMEPAGE", &u.homepage);
    push_opt_env(&mut envs, "CARGO_PKG_REPOSITORY", &u.repository);
    push_opt_env(&mut envs, "CARGO_PKG_LICENSE", &u.license);
    push_opt_env(&mut envs, "CARGO_PKG_LICENSE_FILE", &u.license_file);
    push_opt_env(&mut envs, "CARGO_PKG_RUST_VERSION", &u.rust_version);
    push_opt_env(&mut envs, "CARGO_PKG_README", &u.readme);
    envs
}

/// Whether a unit is linked.
pub open spec fn needs_linker_of(kind: UnitKind, crate_types: Seq<Seq<char>>) -> bool {
    kind != UnitKind::Check && (kind == UnitKind::TestCompile || crate_types.contains("proc-macro"@)
        || crate_types.contains("bin"@) || crate_types.contains("cdylib"@) || crate_types.contains(
        "dylib"@,
    ))
}

/// Whether a unit is linked: test harnesses, proc-macros, binaries and dynamic
/// libraries are, unless only checked.
pub fn unit_needs_linker(kind: UnitKind, crate_types: &Vec<String>) -> (r: bool)
    ensures
        r == needs_linker_of(kind, views(crate_types@)),
{
    kind != UnitKind::Check && (kind == UnitKind::TestCompile || list_has(crate_types, "proc-macro")
        || list_has(crate_types, "bin") || list_has(crate_types, "cdylib") || list_has(
        crate_types,
        "dylib",
    ))
}

} // verus!
