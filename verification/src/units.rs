//! The units of a build and its configuration.
use crate::text::{
    clone_strings, contains, has_substring, join, join_seq, owned, replace, replace_seq, same,
    sorted_set, sorted_unique, split, split_seq, upper, uppercase, views,
};
use vstd::prelude::*;

verus! {

// ---------------------------------------------------------------------------
// Pairs and options of strings
// ---------------------------------------------------------------------------

/// The characters of each pair of a list.
pub open spec fn pair_views(v: Seq<(String, String)>) -> Seq<(Seq<char>, Seq<char>)> {
    Seq::new(v.len(), |i: int| (v[i].0@, v[i].1@))
}

/// The characters of an optional string.
pub open spec fn opt_view(o: Option<String>) -> Option<Seq<char>> {
    match o {
        Some(s) => Some(s@),
        None => None,
    }
}

/// A copy of a list of pairs.
pub fn clone_pairs(v: &Vec<(String, String)>) -> (r: Vec<(String, String)>)
    ensures
        pair_views(r@) == pair_views(v@),
        r@.len() == v@.len(),
{
    let mut r: Vec<(String, String)> = Vec::new();
    let mut i: usize = 0;
    while i < v.len()
        invariant
            i <= v@.len(),
            r@.len() == i,
            forall|j: int| 0 <= j < i ==> (#[trigger] r@[j]).0@ == v@[j].0@ && r@[j].1@ == v@[j].1@,
        decreases v@.len() - i,
    {
        r.push((v[i].0.clone(), v[i].1.clone()));
        i = i + 1;
    }
    assert(pair_views(r@) =~= pair_views(v@));
    r
}

/// A copy of an optional string.
pub fn clone_opt(o: &Option<String>) -> (r: Option<String>)
    ensures
        opt_view(r) == opt_view(*o),
{
    match o {
        Some(s) => Some(s.clone()),
        None => None,
    }
}

/// The value of the first pair with the given name.
pub open spec fn pair_lookup(v: Seq<(Seq<char>, Seq<char>)>, key: Seq<char>) -> Option<Seq<char>>
    decreases v.len(),
{
    if v.len() == 0 {
        None
    } else if v[0].0 == key {
        Some(v[0].1)
    } else {
        pair_lookup(v.drop_first(), key)
    }
}

/// The value of the first pair with the given name.
pub fn find_pair<'a>(v: &'a Vec<(String, String)>, key: &str) -> (r: Option<&'a String>)
    ensures
        match r {
            Some(s) => pair_lookup(pair_views(v@), key@) == Some(s@),
            None => pair_lookup(pair_views(v@), key@) is None,
        },
{
    let ghost p = pair_views(v@);
    let mut i: usize = 0;
    assert(p.skip(0) =~= p);
    while i < v.len()
        invariant
            i <= v@.len(),
            p == pair_views(v@),
            pair_lookup(p.skip(i as int), key@) == pair_lookup(p, key@),
        decreases v@.len() - i,
    {
        if same(v[i].0.as_str(), key) {
            return Some(&v[i].1);
        }
        assert(p.skip(i as int).drop_first() =~= p.skip(i + 1));
        i = i + 1;
    }
    None
}

/// Whether a list holds a string.
pub fn list_has(v: &Vec<String>, s: &str) -> (r: bool)
    ensures
        r == views(v@).contains(s@),
{
    let mut i: usize = 0;
    while i < v.len()
        invariant
            i <= v@.len(),
            forall|j: int| 0 <= j < i ==> views(v@)[j] != s@,
        decreases v@.len() - i,
    {
        if same(v[i].as_str(), s) {
            assert(views(v@)[i as int] == s@);
            return true;
        }
        i = i + 1;
    }
    false
}

// ---------------------------------------------------------------------------
// Build configuration
// ---------------------------------------------------------------------------

/// The build profile.
pub struct ProfileConfig {
    pub name: String,
    pub opt_level: &'static str,
    pub debug_info: bool,
}

impl ProfileConfig {
    /// The profile of a development build.
    pub fn dev() -> (r: Self)
        ensures
            r.name@ == "dev"@,
            r.opt_level@ == "0"@,
            r.debug_info,
    {
        ProfileConfig { name: owned("dev"), opt_level: "0", debug_info: true }
    }

    /// The profile of a release build.
    pub fn release() -> (r: Self)
        ensures
            r.name@ == "release"@,
            r.opt_level@ == "3"@,
            !r.debug_info,
    {
        ProfileConfig { name: owned("release"), opt_level: "3", debug_info: false }
    }
}

/// The machines a build runs on and for.
pub struct TargetConfig {
    pub host_triple: String,
    pub target_triple: String,
    /// Nix system string for the build machine. All derivations use it, even
    /// cross-compiled ones: the builder always runs on the host.
    pub nix_system: String,
}

/// The first component of a target triple.
pub open spec fn triple_arch(triple: Seq<char>) -> Seq<char> {
    split_seq(triple, '-')[0]
}

/// Microsoft's name for an architecture.
pub open spec fn ms_arch_name(arch: Seq<char>) -> Seq<char> {
    if arch == "x86_64"@ {
        "x64"@
    } else if arch == "aarch64"@ {
        "arm64"@
    } else if arch == "i686"@ || arch == "i586"@ {
        "x86"@
    } else {
        "x64"@
    }
}

impl TargetConfig {
    /// A build for the machine it runs on, whose architecture is `arch`.
    pub fn native(arch: &str) -> (r: Self)
        ensures
            r.host_triple@ == arch@ + "-unknown-linux-gnu"@,
            r.target_triple@ == arch@ + "-unknown-linux-gnu"@,
            r.nix_system@ == arch@ + "-linux"@,
    {
        let mut host_triple = owned(arch);
        host_triple.append("-unknown-linux-gnu");
        let mut target_triple = owned(arch);
        target_triple.append("-unknown-linux-gnu");
        let mut nix_system = owned(arch);
        nix_system.append("-linux");
        TargetConfig { host_triple, target_triple, nix_system }
    }

    /// A build for another target, on a machine whose architecture is
    /// `host_arch`.
    pub fn with_target(target_triple: &str, host_arch: &str) -> (r: Self)
        ensures
            r.host_triple@ == host_arch@ + "-unknown-linux-gnu"@,
            r.target_triple@ == target_triple@,
            r.nix_system@ == host_arch@ + "-linux"@,
    {
        let mut host_triple = owned(host_arch);
        host_triple.append("-unknown-linux-gnu");
        let mut nix_system = owned(host_arch);
        nix_system.append("-linux");
        TargetConfig { host_triple, target_triple: owned(target_triple), nix_system }
    }

    /// Whether the target differs from the host.
    pub fn is_cross(&self) -> (r: bool)
        ensures
            r == (self.host_triple@ != self.target_triple@),
    {
        !same(self.host_triple.as_str(), self.target_triple.as_str())
    }

    /// Whether the target uses the MSVC toolchain.
    pub fn is_msvc(&self) -> (r: bool)
        ensures
            r == has_substring(self.target_triple@, "msvc"@),
    {
        contains(self.target_triple.as_str(), "msvc")
    }

    /// Whether the target is Windows.
    pub fn is_windows(&self) -> (r: bool)
        ensures
            r == has_substring(self.target_triple@, "windows"@),
    {
        contains(self.target_triple.as_str(), "windows")
    }

    /// The target architecture in Microsoft's notation, for Windows SDK paths;
    /// `None` for other targets.
    pub fn ms_arch(&self) -> (r: Option<&'static str>)
        ensures
            match r {
                Some(a) => has_substring(self.target_triple@, "windows"@) && a@ == ms_arch_name(
                    triple_arch(self.target_triple@),
                ),
                None => !has_substring(self.target_triple@, "windows"@),
            },
    {
        if !self.is_windows() {
            return None;
        }
        let parts = split(self.target_triple.as_str(), '-');
        let arch = parts[0].as_str();
        assert(arch@ == views(parts@)[0]);
        if same(arch, "x86_64") {
            Some("x64")
        } else if same(arch, "aarch64") {
            Some("arm64")
        } else if same(arch, "i686") || same(arch, "i586") {
            Some("x86")
        } else {
            Some("x64")
        }
    }
}

/// A configuration option that rustc reports for a target.
pub enum Cfg {
    /// An option that is set.
    Name(String),
    /// A value of an option.
    KeyPair(String, String),
}

/// The options that get a variable: all but `debug_assertions`.
pub open spec fn cfg_names(cfgs: Seq<Cfg>) -> Seq<Seq<char>>
    decreases cfgs.len(),
{
    if cfgs.len() == 0 {
        Seq::empty()
    } else {
        match cfgs.last() {
            Cfg::Name(n) => if n@ == "debug_assertions"@ {
                cfg_names(cfgs.drop_last())
            } else {
                cfg_names(cfgs.drop_last()).push(n@)
            },
            Cfg::KeyPair(k, v) => cfg_names(cfgs.drop_last()).push(k@),
        }
    }
}

/// The values of an option, in the order given.
pub open spec fn cfg_values(cfgs: Seq<Cfg>, key: Seq<char>) -> Seq<Seq<char>>
    decreases cfgs.len(),
{
    if cfgs.len() == 0 {
        Seq::empty()
    } else {
        match cfgs.last() {
            Cfg::KeyPair(k, v) => if k@ == key {
                cfg_values(cfgs.drop_last(), key).push(v@)
            } else {
                cfg_values(cfgs.drop_last(), key)
            },
            Cfg::Name(n) => cfg_values(cfgs.drop_last(), key),
        }
    }
}

/// The variable of an option.
pub open spec fn cfg_env_name(key: Seq<char>) -> Seq<char> {
    "CARGO_CFG_"@ + replace_seq(uppercase(key), "-"@, "_"@)
}

/// The variables of the options, in the order of the options' names.
pub open spec fn cfg_envs_seq(cfgs: Seq<Cfg>) -> Seq<(Seq<char>, Seq<char>)> {
    let keys = sorted_set(cfg_names(cfgs));
    Seq::new(
        keys.len(),
        |i: int| (cfg_env_name(keys[i]), join_seq(cfg_values(cfgs, keys[i]), ","@)),
    )
}

fn values_of(cfgs: &Vec<Cfg>, key: &str) -> (r: Vec<String>)
    ensures
        views(r@) == cfg_values(cfgs@, key@),
{
    let mut r: Vec<String> = Vec::new();
    let mut i: usize = 0;
    assert(views(r@) =~= cfg_values(cfgs@.take(0), key@));
    while i < cfgs.len()
        invariant
            i <= cfgs@.len(),
            views(r@) == cfg_values(cfgs@.take(i as int), key@),
        decreases cfgs@.len() - i,
    {
        assert(cfgs@.take(i + 1).drop_last() =~= cfgs@.take(i as int));
        let ghost before = views(r@);
        match &cfgs[i] {
            Cfg::KeyPair(k, v) => {
                if same(k.as_str(), key) {
                    r.push(v.clone());
                    assert(views(r@) =~= before.push(v@));
                }
            },
            Cfg::Name(_) => {},
        }
        i = i + 1;
    }
    assert(cfgs@.take(cfgs@.len() as int) =~= cfgs@);
    r
}

/// Extracts the `CARGO_CFG_*` variables from the options that rustc reports for
/// a target, as cargo sets them for build scripts.
pub fn extract_cfg_envs(cfgs: &Vec<Cfg>) -> (r: Vec<(String, String)>)
    ensures
        pair_views(r@) == cfg_envs_seq(cfgs@),
{
    let mut all: Vec<String> = Vec::new();
    let mut i: usize = 0;
    assert(views(all@) =~= cfg_names(cfgs@.take(0)));
    while i < cfgs.len()
        invariant
            i <= cfgs@.len(),
            views(all@) == cfg_names(cfgs@.take(i as int)),
        decreases cfgs@.len() - i,
    {
        assert(cfgs@.take(i + 1).drop_last() =~= cfgs@.take(i as int));
        let ghost before = views(all@);
        match &cfgs[i] {
            Cfg::Name(n) => {
                if !same(n.as_str(), "debug_assertions") {
                    all.push(n.clone());
                    assert(views(all@) =~= before.push(n@));
                }
            },
            Cfg::KeyPair(k, _) => {
                all.push(k.clone());
                assert(views(all@) =~= before.push(k@));
            },
        }
        i = i + 1;
    }
    assert(cfgs@.take(cfgs@.len() as int) =~= cfgs@);
    let keys = sorted_unique(&all);
    let mut r: Vec<(String, String)> = Vec::new();
    let mut j: usize = 0;
    assert(views(keys@).len() == keys@.len());
    while j < keys.len()
        invariant
            j <= keys@.len(),
            views(keys@) == sorted_set(cfg_names(cfgs@)),
            views(keys@).len() == keys@.len(),
            pair_views(r@) == cfg_envs_seq(cfgs@).take(j as int),
            r@.len() == j,
        decreases keys@.len() - j,
    {
        let ghost before = pair_views(r@);
        assert(views(keys@)[j as int] == keys@[j as int]@);
        let values = values_of(cfgs, keys[j].as_str());
        let mut name = owned("CARGO_CFG_");
        proof {
            reveal_strlit("-");
        }
        let rest = replace(upper(keys[j].as_str()).as_str(), "-", "_");
        name.append(rest.as_str());
        r.push((name, join(&values, ",")));
        assert(pair_views(r@) =~= cfg_envs_seq(cfgs@).take(j + 1));
        j = j + 1;
    }
    assert(cfg_envs_seq(cfgs@).take(keys@.len() as int) =~= cfg_envs_seq(cfgs@));
    r
}

// ---------------------------------------------------------------------------
// Units
// ---------------------------------------------------------------------------

/// The kind of derivation a unit represents.
#[derive(Debug, Clone, Copy, PartialEq, Eq, Hash, Structural)]
pub enum UnitKind {
    /// Regular rustc compilation (lib, bin, proc-macro, etc.)
    Compile,
    /// Metadata-only check (no code generation)
    Check,
    /// Documentation generation via rustdoc
    Doc,
    /// Compilation with `--test` (test/bench harness)
    TestCompile,
    /// Compilation of a build script binary
    BuildScriptCompile,
    /// Execution of a compiled build script
    BuildScriptRun,
}

/// A unit in the generated Nix graph.
#[derive(Debug)]
pub struct NixUnit {
    /// Deterministic key of the unit.
    pub key: String,
    /// Name of the unit's derivation.
    pub drv_name: String,
    /// What the derivation does.
    pub kind: UnitKind,
    /// Source file path (store path).
    pub source_file: String,
    /// Crate name as rustc takes it.
    pub crate_name: String,
    /// Crate types as rustc takes them.
    pub crate_types: Vec<String>,
    /// Rust edition.
    pub edition: String,
    /// Enabled features, each a `--cfg feature`.
    pub features: Vec<String>,
    /// Direct dependencies: extern crate name and unit key.
    pub dep_extern: Vec<(String, String)>,
    /// Keys of all transitive dependencies.
    pub all_dep_keys: Vec<String>,
    /// Key of the build-script run this unit depends on.
    pub build_script_dep: Option<String>,
    /// Key of the build-script compilation, for a run.
    pub build_script_compile_key: Option<String>,
    /// `CARGO_MANIFEST_DIR` of the package, as a store path.
    pub manifest_dir: String,
    /// The manifest directory before it was mapped to the store; empty if unknown.
    pub original_manifest_dir: String,
    /// Standard cargo environment variables.
    pub cargo_envs: Vec<(String, String)>,
    /// Hash for `-C extra-filename` and `-C metadata`, with a leading dash.
    pub extra_filename: String,
    /// Whether the unit is linked (proc-macro, bin, cdylib, dylib).
    pub needs_linker: bool,
    /// Whether this is a crate of the project rather than a dependency.
    pub is_local: bool,
    /// The package's `links` value.
    pub links: Option<String>,
    /// Other build-script runs this one depends on: key and links name.
    pub links_dep_keys: Vec<(String, String)>,
    /// Whether the user requested this unit.
    pub is_root: bool,
    /// Target name from cargo, for a root.
    pub target_name: String,
    /// Whether the unit compiles for the host.
    pub for_host: bool,
    /// Whether the unit is compiled with `--test`.
    pub compile_test: bool,
    /// Whether the crate's build script reads only its own crate directory.
    pub self_contained_build_script: bool,
    /// The crate's directory below the project, where the unit's source was cut down to it.
    pub sliced_crate_rel: Option<String>,
    /// Store path of the derivation, once registered.
    pub drv_path: Option<String>,
}

/// What a unit holds.
#[verifier::ext_equal]
pub struct UnitView {
    pub key: Seq<char>,
    pub drv_name: Seq<char>,
    pub kind: UnitKind,
    pub source_file: Seq<char>,
    pub crate_name: Seq<char>,
    pub crate_types: Seq<Seq<char>>,
    pub edition: Seq<char>,
    pub features: Seq<Seq<char>>,
    pub dep_extern: Seq<(Seq<char>, Seq<char>)>,
    pub all_dep_keys: Seq<Seq<char>>,
    pub build_script_dep: Option<Seq<char>>,
    pub build_script_compile_key: Option<Seq<char>>,
    pub manifest_dir: Seq<char>,
    pub original_manifest_dir: Seq<char>,
    pub cargo_envs: Seq<(Seq<char>, Seq<char>)>,
    pub extra_filename: Seq<char>,
    pub needs_linker: bool,
    pub is_local: bool,
    pub links: Option<Seq<char>>,
    pub links_dep_keys: Seq<(Seq<char>, Seq<char>)>,
    pub is_root: bool,
    pub target_name: Seq<char>,
    pub for_host: bool,
    pub compile_test: bool,
    pub self_contained_build_script: bool,
    pub sliced_crate_rel: Option<Seq<char>>,
    pub drv_path: Option<Seq<char>>,
}

impl View for NixUnit {
    type V = UnitView;

    open spec fn view(&self) -> UnitView {
        UnitView {
            key: self.key@,
            drv_name: self.drv_name@,
            kind: self.kind,
            source_file: self.source_file@,
            crate_name: self.crate_name@,
            crate_types: views(self.crate_types@),
            edition: self.edition@,
            features: views(self.features@),
            dep_extern: pair_views(self.dep_extern@),
            all_dep_keys: views(self.all_dep_keys@),
            build_script_dep: opt_view(self.build_script_dep),
            build_script_compile_key: opt_view(self.build_script_compile_key),
            manifest_dir: self.manifest_dir@,
            original_manifest_dir: self.original_manifest_dir@,
            cargo_envs: pair_views(self.cargo_envs@),
            extra_filename: self.extra_filename@,
            needs_linker: self.needs_linker,
            is_local: self.is_local,
            links: opt_view(self.links),
            links_dep_keys: pair_views(self.links_dep_keys@),
            is_root: self.is_root,
            target_name: self.target_name@,
            for_host: self.for_host,
            compile_test: self.compile_test,
            self_contained_build_script: self.self_contained_build_script,
            sliced_crate_rel: opt_view(self.sliced_crate_rel),
            drv_path: opt_view(self.drv_path),
        }
    }
}

impl Clone for NixUnit {
    fn clone(&self) -> (r: Self)
        ensures
            r@ == self@,
    {
        NixUnit {
            key: self.key.clone(),
            drv_name: self.drv_name.clone(),
            kind: self.kind,
            source_file: self.source_file.clone(),
            crate_name: self.crate_name.clone(),
            crate_types: clone_strings(&self.crate_types),
            edition: self.edition.clone(),
            features: clone_strings(&self.features),
            dep_extern: clone_pairs(&self.dep_extern),
            all_dep_keys: clone_strings(&self.all_dep_keys),
            build_script_dep: clone_opt(&self.build_script_dep),
            build_script_compile_key: clone_opt(&self.build_script_compile_key),
            manifest_dir: self.manifest_dir.clone(),
            original_manifest_dir: self.original_manifest_dir.clone(),
            cargo_envs: clone_pairs(&self.cargo_envs),
            extra_filename: self.extra_filename.clone(),
            needs_linker: self.needs_linker,
            is_local: self.is_local,
            links: clone_opt(&self.links),
            links_dep_keys: clone_pairs(&self.links_dep_keys),
            is_root: self.is_root,
            target_name: self.target_name.clone(),
            for_host: self.for_host,
            compile_test: self.compile_test,
            self_contained_build_script: self.self_contained_build_script,
            sliced_crate_rel: clone_opt(&self.sliced_crate_rel),
            drv_path: clone_opt(&self.drv_path),
        }
    }
}

/// What each unit of a list holds.
pub open spec fn unit_views(units: Seq<NixUnit>) -> Seq<UnitView> {
    Seq::new(units.len(), |i: int| units[i]@)
}

/// A file name made of a prefix, the crate name, its hash and a suffix.
pub open spec fn lib_file(prefix: Seq<char>, u: UnitView, suffix: Seq<char>) -> Seq<char> {
    prefix + u.crate_name + u.extra_filename + suffix
}

/// The file that a unit's derivation leaves for those that link against it. A
/// crate that is compiled both as a `cdylib` and as an `rlib` is linked by the
/// `rlib`.
pub open spec fn output_file(u: UnitView) -> Seq<char> {
    if u.kind == UnitKind::Check {
        lib_file("lib"@, u, ".rmeta"@)
    } else if u.kind == UnitKind::Doc {
        "doc/"@ + u.crate_name
    } else if u.crate_types.contains("bin"@) || u.kind == UnitKind::BuildScriptCompile {
        u.crate_name + u.extra_filename
    } else if u.crate_types.contains("proc-macro"@) {
        lib_file("lib"@, u, ".so"@)
    } else if u.crate_types.contains("rlib"@) || u.crate_types.contains("lib"@) {
        lib_file("lib"@, u, ".rlib"@)
    } else if u.crate_types.contains("dylib"@) || u.crate_types.contains("cdylib"@) {
        lib_file("lib"@, u, ".so"@)
    } else {
        lib_file("lib"@, u, ".rlib"@)
    }
}

impl NixUnit {
    /// Forgets the derivation's store path.
    pub fn clear_drv_path(&mut self)
        ensures
            final(self)@ == (UnitView { drv_path: None, ..old(self)@ }),
    {
        self.drv_path = None;
    }

    fn lib_name(&self, suffix: &str) -> (r: String)
        ensures
            r@ == lib_file("lib"@, self@, suffix@),
    {
        let mut r = owned("lib");
        r.append(self.crate_name.as_str());
        r.append(self.extra_filename.as_str());
        r.append(suffix);
        r
    }

    /// The file that rustc will produce for this unit.
    pub fn output_lib_filename(&self) -> (r: String)
        ensures
            r@ == output_file(self@),
    {
        if self.kind == UnitKind::Check {
            return self.lib_name(".rmeta");
        }
        if self.kind == UnitKind::Doc {
            let mut r = owned("doc/");
            r.append(self.crate_name.as_str());
            return r;
        }
        if list_has(&self.crate_types, "bin") || self.kind == UnitKind::BuildScriptCompile {
            let mut r = self.crate_name.clone();
            r.append(self.extra_filename.as_str());
            r
        } else if list_has(&self.crate_types, "proc-macro") {
            self.lib_name(".so")
        } else if list_has(&self.crate_types, "rlib") || list_has(&self.crate_types, "lib") {
            self.lib_name(".rlib")
        } else if list_has(&self.crate_types, "dylib") || list_has(&self.crate_types, "cdylib") {
            self.lib_name(".so")
        } else {
            self.lib_name(".rlib")
        }
    }
}

/// The characters of each string slice of a list.
pub open spec fn str_views(v: Seq<&str>) -> Seq<Seq<char>> {
    Seq::new(v.len(), |i: int| v[i]@)
}

/// The derivation paths of the local units that compile a crate or a build script, as
/// far as they were registered.
pub open spec fn local_drv_paths(units: Seq<UnitView>) -> Seq<Seq<char>>
    decreases units.len(),
{
    if units.len() == 0 {
        Seq::empty()
    } else {
        let u = units.last();
        match u.drv_path {
            Some(p) if u.is_local && (u.kind == UnitKind::Compile || u.kind
                == UnitKind::BuildScriptCompile) => local_drv_paths(units.drop_last()).push(p),
            _ => local_drv_paths(units.drop_last()),
        }
    }
}

/// The derivation paths of the local units that compile a crate or a build script,
/// whose diagnostics are replayed after a warm build.
pub fn local_compile_drv_paths(units: &Vec<NixUnit>) -> (r: Vec<&str>)
    ensures
        str_views(r@) == local_drv_paths(unit_views(units@)),
{
    let ghost u = unit_views(units@);
    let mut r: Vec<&str> = Vec::new();
    let mut i: usize = 0;
    assert(str_views(r@) =~= local_drv_paths(u.take(0)));
    while i < units.len()
        invariant
            i <= units@.len(),
            u == unit_views(units@),
            str_views(r@) == local_drv_paths(u.take(i as int)),
        decreases units@.len() - i,
    {
        assert(u.take(i + 1).drop_last() =~= u.take(i as int));
        let ghost before = str_views(r@);
        if units[i].is_local && (units[i].kind == UnitKind::Compile || units[i].kind
            == UnitKind::BuildScriptCompile) {
            if let Some(p) = &units[i].drv_path {
                r.push(p.as_str());
                assert(str_views(r@) =~= before.push(p@));
            }
        }
        i = i + 1;
    }
    assert(u.take(units@.len() as int) =~= u);
    r
}

} // verus!
