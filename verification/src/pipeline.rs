//! The decisions of a build: its profile, what is cached, and where its results go.
use crate::paths::{push_path, pushed};
use crate::resolution::without;
use crate::text::{
    decimal, decimal_seq, ends, ends_with, from_chars, join, join_seq, owned, same, starts,
    strip_prefix, to_chars, trim_end_char, trim_end_of, views,
};
use crate::units::{
    list_has, opt_view, str_views, unit_views, NixUnit, ProfileConfig, TargetConfig, UnitKind,
    UnitView,
};
use vstd::prelude::*;

verus! {

// ---------------------------------------------------------------------------
// Profile and packages
// ---------------------------------------------------------------------------

/// The name of the profile that was asked for.
pub open spec fn profile_name(release: bool, profile: Option<Seq<char>>) -> Seq<char> {
    if release {
        "release"@
    } else {
        match profile {
            Some(p) => p,
            None => "dev"@,
        }
    }
}

/// Chooses the profile. One that is neither `dev` nor `release` is compiled as
/// `dev` is.
pub fn choose_profile(release: bool, profile: &Option<String>) -> (r: ProfileConfig)
    ensures
        ({
            let name = profile_name(release, opt_view(*profile));
            &&& r.name@ == name
            &&& r.opt_level@ == (if name == "release"@ {
                "3"@
            } else {
                "0"@
            })
            &&& r.debug_info == (name != "release"@)
        }),
{
    proof {
        reveal_strlit("dev");
        reveal_strlit("release");
        assert("dev"@.len() != "release"@.len());
    }
    if release {
        return ProfileConfig::release();
    }
    match profile {
        Some(p) => if same(p.as_str(), "dev") {
            ProfileConfig::dev()
        } else if same(p.as_str(), "release") {
            ProfileConfig::release()
        } else {
            ProfileConfig { name: p.clone(), opt_level: "0", debug_info: true }
        },
        None => ProfileConfig::dev(),
    }
}

/// What is said of a profile once a build has finished.
pub open spec fn profile_text(name: Seq<char>) -> Seq<char> {
    if name == "dev"@ {
        "`dev` profile [unoptimized + debuginfo]"@
    } else if name == "release"@ {
        "`release` profile [optimized]"@
    } else {
        "`"@ + name + "` profile"@
    }
}

/// Describes a profile.
pub fn describe_profile(name: &str) -> (r: String)
    ensures
        r@ == profile_text(name@),
{
    if same(name, "dev") {
        owned("`dev` profile [unoptimized + debuginfo]")
    } else if same(name, "release") {
        owned("`release` profile [optimized]")
    } else {
        let mut r = owned("`");
        r.append(name);
        r.append("` profile");
        r
    }
}

/// Whether a build is limited to the package of the manifest it was started from: it
/// is where no packages were named and the manifest is not that of the workspace.
pub fn is_scoped_to_member(packages: &Vec<String>, manifest: &str, root_manifest: &str) -> (r: bool)
    ensures
        r == (packages@.len() == 0 && manifest@ != root_manifest@),
{
    packages.len() == 0 && !same(manifest, root_manifest)
}

/// What is wanted of a project.
#[derive(Debug, Clone, Copy, PartialEq, Eq, Structural)]
pub enum Intent {
    Build,
    Check,
    Test,
    Bench,
    Doc,
}

/// The name under which the graphs of an intent are cached.
pub open spec fn intent_text(intent: Intent) -> Seq<char> {
    match intent {
        Intent::Check => "check"@,
        Intent::Test => "test"@,
        Intent::Bench => "bench"@,
        _ => "build"@,
    }
}

/// Names an intent.
pub fn intent_name(intent: Intent) -> (r: &'static str)
    ensures
        r@ == intent_text(intent),
{
    match intent {
        Intent::Check => "check",
        Intent::Test => "test",
        Intent::Bench => "bench",
        _ => "build",
    }
}

// ---------------------------------------------------------------------------
// Caching
// ---------------------------------------------------------------------------

/// What a graph of units depends on.
pub struct GraphInputs {
    pub lockfile_hash: String,
    pub manifest_hash: String,
    pub profile: String,
    pub target_triple: String,
    pub intent: String,
    pub packages: Vec<String>,
    pub features: Vec<String>,
    pub no_default_features: bool,
}

/// The key under which a graph of units is cached.
pub open spec fn graph_key(g: GraphInputs) -> Seq<char> {
    g.lockfile_hash@ + ":"@ + g.manifest_hash@ + ":"@ + g.profile@ + ":"@ + g.target_triple@ + ":"@
        + g.intent@ + ":"@ + join_seq(views(g.packages@), ","@) + ":"@ + join_seq(
        views(g.features@),
        ","@,
    ) + ":"@ + (if g.no_default_features {
        "true"@
    } else {
        "false"@
    })
}

/// Writes the key under which a graph of units is cached.
pub fn unit_graph_key(g: &GraphInputs) -> (r: String)
    ensures
        r@ == graph_key(*g),
{
    let packages = join(&g.packages, ",");
    let features = join(&g.features, ",");
    let mut r = g.lockfile_hash.clone();
    r.append(":");
    r.append(g.manifest_hash.as_str());
    r.append(":");
    r.append(g.profile.as_str());
    r.append(":");
    r.append(g.target_triple.as_str());
    r.append(":");
    r.append(g.intent.as_str());
    r.append(":");
    r.append(packages.as_str());
    r.append(":");
    r.append(features.as_str());
    r.append(":");
    r.append(if g.no_default_features { "true" } else { "false" });
    r
}

/// Builds that differ only in the packages they were limited to share a cached graph
/// only if they were limited to the same. A build of one package does not take the
/// place of that of the whole workspace.
pub proof fn law_packages_kept_apart(g: GraphInputs, h: GraphInputs)
    requires
        g.lockfile_hash@ == h.lockfile_hash@,
        g.manifest_hash@ == h.manifest_hash@,
        g.profile@ == h.profile@,
        g.target_triple@ == h.target_triple@,
        g.intent@ == h.intent@,
        views(g.features@) == views(h.features@),
        g.no_default_features == h.no_default_features,
    ensures
        graph_key(g) == graph_key(h) <==> join_seq(views(g.packages@), ","@) == join_seq(
            views(h.packages@),
            ","@,
        ),
        g.packages@.len() == 0 && h.packages@.len() == 1 && h.packages@[0]@.len() > 0 ==> graph_key(
            g,
        ) != graph_key(h),
{
    let before = g.lockfile_hash@ + ":"@ + g.manifest_hash@ + ":"@ + g.profile@ + ":"@
        + g.target_triple@ + ":"@ + g.intent@ + ":"@;
    let behind = ":"@ + join_seq(views(g.features@), ","@) + ":"@ + (if g.no_default_features {
        "true"@
    } else {
        "false"@
    });
    let a = join_seq(views(g.packages@), ","@);
    let b = join_seq(views(h.packages@), ","@);
    assert(graph_key(g) =~= before + a + behind);
    assert(graph_key(h) =~= before + b + behind);
    if graph_key(g) == graph_key(h) {
        assert(a.len() == b.len());
        let n = before.len() as int;
        assert(a =~= graph_key(g).subrange(n, n + a.len()));
        assert(b =~= graph_key(h).subrange(n, n + b.len()));
    }
    if h.packages@.len() == 1 {
        assert(b == h.packages@[0]@);
    }
}

/// Where the vendored dependencies come from.
#[derive(Debug, Clone, Copy, PartialEq, Eq, Structural)]
pub enum VendorChoice {
    /// The directory that was given.
    Provided,
    /// The store path of an earlier build with the same lock file.
    Cached,
    /// They are vendored again, because the path of the earlier build is gone.
    Gone,
    /// They are vendored for a new lock file.
    Vendor,
}

/// Decides where the vendored dependencies come from: from the directory that was
/// given, or from an earlier build whose lock file was the same and whose store path
/// is still there.
pub fn choose_vendor(
    provided: bool,
    lockfile_hash: &str,
    cached_hash: &Option<String>,
    cached_exists: bool,
) -> (r: VendorChoice)
    ensures
        r == (if provided {
            VendorChoice::Provided
        } else if opt_view(*cached_hash) != Some(lockfile_hash@) {
            VendorChoice::Vendor
        } else if cached_exists {
            VendorChoice::Cached
        } else {
            VendorChoice::Gone
        }),
{
    let same_lock = match cached_hash {
        Some(h) => same(h.as_str(), lockfile_hash),
        None => false,
    };
    if provided {
        VendorChoice::Provided
    } else if !same_lock {
        VendorChoice::Vendor
    } else if cached_exists {
        VendorChoice::Cached
    } else {
        VendorChoice::Gone
    }
}

// ---------------------------------------------------------------------------
// Results
// ---------------------------------------------------------------------------

/// The directory that a profile's results go to.
pub open spec fn profile_dir(name: Seq<char>) -> Seq<char> {
    if name == "dev"@ {
        "debug"@
    } else {
        name
    }
}

/// The directory that the results of a build go to.
pub open spec fn results_dir(
    project: Seq<char>,
    profile: Seq<char>,
    host: Seq<char>,
    target: Seq<char>,
) -> Seq<char> {
    let base = pushed(project, "target"@);
    pushed(
        if host != target {
            pushed(base, target)
        } else {
            base
        },
        profile_dir(profile),
    )
}

/// Names the directory that the results of a build go to: below the target's own
/// directory if it is not the host.
pub fn output_dir(project_dir: &str, profile: &str, target: &TargetConfig) -> (r: String)
    ensures
        r@ == results_dir(project_dir@, profile@, target.host_triple@, target.target_triple@),
{
    let mut dir = push_path(project_dir, "target");
    if target.is_cross() {
        dir = push_path(dir.as_str(), target.target_triple.as_str());
    }
    let last = if same(profile, "dev") {
        "debug"
    } else {
        profile
    };
    push_path(dir.as_str(), last)
}

/// What is said of a root that has no output path.
pub open spec fn missing_output_seq(target: Seq<char>, got: nat, wanted: nat) -> Seq<char> {
    "Missing output path for root "@ + target + " (got "@ + decimal_seq(got)
        + " paths for "@ + decimal_seq(wanted) + " roots)"@
}

/// Writes what is said of a root that has no output path.
pub fn missing_output(target_name: &str, got: usize, wanted: usize) -> (r: String)
    ensures
        r@ == missing_output_seq(target_name@, got as nat, wanted as nat),
{
    let g = decimal(got as u64);
    let w = decimal(wanted as u64);
    let mut r = owned("Missing output path for root ");
    r.append(target_name);
    r.append(" (got ");
    r.append(g.as_str());
    r.append(" paths for ");
    r.append(w.as_str());
    r.append(" roots)");
    r
}

/// Whether a file of an output is the binary: by its ending on Windows, whose
/// binaries carry no execute permission, and by the permission elsewhere.
pub fn is_binary_file(name: &str, executable: bool, windows: bool) -> (r: bool)
    ensures
        r == if windows {
            ends(name@, ".exe"@) || ends(name@, ".dll"@)
        } else {
            executable
        },
{
    if windows {
        ends_with(name, ".exe") || ends_with(name, ".dll")
    } else {
        executable
    }
}

/// The last dot of a name.
pub open spec fn last_dot(s: Seq<char>) -> Option<int>
    decreases s.len(),
{
    if s.len() == 0 {
        None
    } else if s.last() == '.' {
        Some(s.len() - 1)
    } else {
        last_dot(s.drop_last())
    }
}

/// The extension of a file's name: what stands behind its last dot, unless that dot
/// stands first.
pub open spec fn extension(name: Seq<char>) -> Option<Seq<char>> {
    match last_dot(name) {
        Some(i) => if i > 0 && name != ".."@ {
            Some(name.skip(i + 1))
        } else {
            None
        },
        None => None,
    }
}

/// Finds the extension of a file's name.
pub fn file_extension(name: &str) -> (r: Option<String>)
    ensures
        match r {
            Some(e) => extension(name@) == Some(e@),
            None => extension(name@) is None,
        },
{
    let chars = to_chars(name);
    let mut n: usize = chars.len();
    assert(name@.take(n as int) =~= name@);
    while n > 0
        invariant
            n <= chars@.len(),
            chars@ == name@,
            last_dot(name@.take(n as int)) == last_dot(name@),
        decreases n,
    {
        assert(name@.take(n as int).drop_last() =~= name@.take(n - 1));
        if chars[n - 1] == '.' {
            if n == 1 || same(name, "..") {
                return None;
            }
            let e = from_chars(&chars, n, chars.len());
            assert(e@ =~= name@.skip(n as int));
            return Some(e);
        }
        n = n - 1;
    }
    None
}

/// The name without a hash that a binary is linked under.
pub open spec fn clean_name_seq(target: Seq<char>, file: Seq<char>, windows: bool) -> Seq<char> {
    match extension(file) {
        Some(e) => if windows && e.len() > 0 {
            target + "."@ + e
        } else {
            target
        },
        None => target,
    }
}

/// Names the link to a binary: after its target, on Windows with the ending of the
/// binary.
pub fn clean_name(target_name: &str, file: &str, windows: bool) -> (r: String)
    ensures
        r@ == clean_name_seq(target_name@, file@, windows),
{
    let mut r = owned(target_name);
    if let Some(e) = file_extension(file) {
        if windows && e.as_str().unicode_len() > 0 {
            r.append(".");
            r.append(e.as_str());
        }
    }
    r
}

/// Whether a root's binary gets a link under its target's name: those of tests do
/// not, so that they never replace the binary itself.
pub fn gets_clean_link(kind: UnitKind) -> (r: bool)
    ensures
        r == (kind != UnitKind::TestCompile),
{
    kind != UnitKind::TestCompile
}

/// Lists the local derivations that were not built anew. Their compiler messages
/// are replayed.
pub fn cached_local_drvs(local: &Vec<&str>, built: &Vec<String>) -> (r: Vec<String>)
    ensures
        views(r@) == without(str_views(local@), views(built@)),
{
    let ghost ls = str_views(local@);
    let mut r: Vec<String> = Vec::new();
    let mut i: usize = 0;
    assert(views(r@) =~= without(ls.take(0), views(built@)));
    while i < local.len()
        invariant
            i <= local@.len(),
            ls == str_views(local@),
            views(r@) == without(ls.take(i as int), views(built@)),
        decreases local@.len() - i,
    {
        assert(ls.take(i + 1).drop_last() =~= ls.take(i as int));
        assert(ls.take(i + 1).last() == local@[i as int]@);
        if !list_has(built, local[i]) {
            let ghost before = views(r@);
            r.push(owned(local[i]));
            assert(views(r@) =~= before.push(ls[i as int]));
        }
        i = i + 1;
    }
    assert(ls.take(ls.len() as int) =~= ls);
    r
}

/// Every local derivation is built anew or replayed, and none is both.
pub proof fn law_built_or_replayed(local: Seq<Seq<char>>, built: Seq<Seq<char>>, drv: Seq<char>)
    ensures
        without(local, built).contains(drv) <==> local.contains(drv) && !built.contains(drv),
    decreases local.len(),
{
    if local.len() > 0 {
        let rest = local.drop_last();
        law_built_or_replayed(rest, built, drv);
        let some = without(rest, built);
        if local.contains(drv) && local.last() != drv {
            let i = choose|i: int| 0 <= i < local.len() && local[i] == drv;
            assert(rest[i] == drv);
        }
        if rest.contains(drv) {
            let i = choose|i: int| 0 <= i < rest.len() && rest[i] == drv;
            assert(local[i] == drv);
        }
        assert(local.last() == local[local.len() - 1]);
        if !built.contains(local.last()) {
            let all = some.push(local.last());
            assert(all[some.len() as int] == local.last());
            if some.contains(drv) {
                let i = choose|i: int| 0 <= i < some.len() && some[i] == drv;
                assert(all[i] == drv);
            }
            if all.contains(drv) && drv != local.last() {
                let i = choose|i: int| 0 <= i < all.len() && all[i] == drv;
                assert(some[i] == drv);
            }
        }
    }
}

/// A manifest's directory in the project, where the store's copy holds it.
pub open spec fn project_manifest_dir(dir: Seq<char>, src: Seq<char>, project: Seq<char>) -> Seq<
    char,
> {
    let prefix = trim_end_char(src + "/"@, '/');
    if starts(dir, prefix) {
        project + dir.skip(prefix.len() as int)
    } else {
        dir
    }
}

/// The first unit whose derivation this is.
pub open spec fn unit_of_drv(us: Seq<UnitView>, drv: Seq<char>, from: int) -> Option<int>
    decreases us.len() - from,
{
    if from >= us.len() {
        None
    } else if us[from].drv_path == Some(drv) {
        Some(from)
    } else {
        unit_of_drv(us, drv, from + 1)
    }
}

/// The directory of the manifest of the unit that a derivation builds.
pub open spec fn root_dir(
    us: Seq<UnitView>,
    drv: Seq<char>,
    src: Seq<char>,
    project: Seq<char>,
) -> Seq<char> {
    match unit_of_drv(us, drv, 0) {
        Some(i) => project_manifest_dir(us[i].manifest_dir, src, project),
        None => Seq::empty(),
    }
}

/// Finds the directory of the manifest of the unit that a derivation builds, in the
/// project rather than in the store.
pub fn root_manifest_dir(
    units: &Vec<NixUnit>,
    drv_path: &str,
    src_store: &str,
    project_dir: &str,
) -> (r: String)
    ensures
        r@ == root_dir(unit_views(units@), drv_path@, src_store@, project_dir@),
{
    let ghost us = unit_views(units@);
    let mut i: usize = 0;
    while i < units.len()
        invariant
            i <= units@.len(),
            us == unit_views(units@),
            unit_of_drv(us, drv_path@, i as int) == unit_of_drv(us, drv_path@, 0),
        decreases units@.len() - i,
    {
        let found = match &units[i].drv_path {
            Some(p) => same(p.as_str(), drv_path),
            None => false,
        };
        assert(us[i as int] == units@[i as int]@);
        if found {
            let mut src = owned(src_store);
            src.append("/");
            let prefix = trim_end_of(src.as_str(), '/');
            let dir = units[i].manifest_dir.as_str();
            return match strip_prefix(dir, prefix) {
                Some(rest) => {
                    let mut r = owned(project_dir);
                    r.append(rest);
                    r
                },
                None => owned(dir),
            };
        }
        i = i + 1;
    }
    proof {
        reveal_strlit("");
        assert(""@ =~= Seq::<char>::empty());
    }
    owned("")
}

} // verus!
