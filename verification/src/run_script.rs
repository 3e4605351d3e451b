//! The script that runs a compiled build script.
use crate::placeholder::{
    downstream_placeholder, drv_sliceable, output_placeholder, text_view, TextResult,
};
use crate::scripts::{add_exports, concat2, exports, plan_ok, setup_fragment, setup_source_fragment};
use crate::strmap::{StrMap, TextMap};
use crate::text::{
    all_ascii, has_substring, owned, replace, replace_seq, same, starts, strip_prefix, trim_start_char, trim_start_of, upper,
    uppercase, views,
};
use crate::units::{
    find_pair, opt_view, output_file, pair_lookup, pair_views, unit_views, NixUnit, ProfileConfig,
    TargetConfig, UnitView,
};
use crate::util::{quoted, shell_quote};
use crate::wording::{lemma_holds_before, lemma_holds_behind, lemma_holds_itself};
use vstd::prelude::*;

verus! {

/// The variable that makes a `-sys` crate use pkg-config instead of building
/// bundled C code, by the crate's `links` value.
pub open spec fn builtin_sys_env(links: Seq<char>) -> Option<Seq<char>> {
    if links == "cubeb"@ {
        Some("LIBCUBEB_SYS_USE_PKG_CONFIG"@)
    } else if links == "git2"@ {
        Some("LIBGIT2_NO_VENDOR"@)
    } else if links == "openssl"@ {
        Some("OPENSSL_NO_VENDOR"@)
    } else if links == "sqlite3"@ {
        Some("LIBSQLITE3_SYS_USE_PKG_CONFIG"@)
    } else if links == "ssh2"@ {
        Some("LIBSSH2_SYS_USE_PKG_CONFIG"@)
    } else if links == "z"@ {
        Some("LIBZ_SYS_USE_PKG_CONFIG"@)
    } else if links == "zip"@ {
        Some("LIBZIP_SYS_USE_PKG_CONFIG"@)
    } else if links == "zstd"@ {
        Some("ZSTD_SYS_USE_PKG_CONFIG"@)
    } else {
        None
    }
}

/// The variable that makes a `-sys` crate use pkg-config.
pub fn find_builtin_sys_env(links: &str) -> (r: Option<&'static str>)
    ensures
        match r {
            Some(v) => builtin_sys_env(links@) == Some(v@),
            None => builtin_sys_env(links@) is None,
        },
{
    if same(links, "cubeb") {
        Some("LIBCUBEB_SYS_USE_PKG_CONFIG")
    } else if same(links, "git2") {
        Some("LIBGIT2_NO_VENDOR")
    } else if same(links, "openssl") {
        Some("OPENSSL_NO_VENDOR")
    } else if same(links, "sqlite3") {
        Some("LIBSQLITE3_SYS_USE_PKG_CONFIG")
    } else if same(links, "ssh2") {
        Some("LIBSSH2_SYS_USE_PKG_CONFIG")
    } else if same(links, "z") {
        Some("LIBZ_SYS_USE_PKG_CONFIG")
    } else if same(links, "zip") {
        Some("LIBZIP_SYS_USE_PKG_CONFIG")
    } else if same(links, "zstd") {
        Some("ZSTD_SYS_USE_PKG_CONFIG")
    } else {
        None
    }
}

/// The command that makes a `-sys` crate use pkg-config, where that is set up
/// and meant for the machine the script runs for. A project's own table comes
/// before the built-in one.
pub open spec fn sys_env_part(
    u: UnitView,
    target: TargetConfig,
    pkg_config_path: Seq<char>,
    custom: Seq<(Seq<char>, Seq<char>)>,
) -> Seq<char> {
    match u.links {
        Some(links) if pkg_config_path.len() > 0 && (u.for_host || target.host_triple@
            == target.target_triple@) => {
            let var = match pair_lookup(custom, links) {
                Some(v) => Some(v),
                None => builtin_sys_env(links),
            };
            match var {
                Some(v) => "export "@ + v + "=1 && "@,
                None => Seq::empty(),
            }
        },
        _ => Seq::empty(),
    }
}

fn sys_env_text(
    unit: &NixUnit,
    target: &TargetConfig,
    pkg_config_path: &str,
    custom_sys_env: &Vec<(String, String)>,
) -> (r: String)
    ensures
        r@ == sys_env_part(unit@, *target, pkg_config_path@, pair_views(custom_sys_env@)),
{
    let mut r = String::new();
    if let Some(links) = &unit.links {
        if !pkg_config_path.is_empty() && (unit.for_host || !target.is_cross()) {
            let var: Option<&str> = match find_pair(custom_sys_env, links.as_str()) {
                Some(v) => Some(v.as_str()),
                None => find_builtin_sys_env(links.as_str()),
            };
            if let Some(v) = var {
                r.append("export ");
                r.append(v);
                r.append("=1 && ");
                assert(r@ =~= "export "@ + v@ + "=1 && "@);
            }
        }
    }
    r
}

/// The search path of a build script: the compiler's, the core utilities' and
/// pkg-config's directory.
pub open spec fn run_path(
    cc_bin_dir: Seq<char>,
    coreutils_store: Seq<char>,
    pkg_config_dir: Option<Seq<char>>,
) -> Seq<char> {
    cc_bin_dir + ":"@ + coreutils_store + "/bin"@ + (match pkg_config_dir {
        Some(d) => ":"@ + d,
        None => Seq::empty(),
    })
}

/// The directories that are set up first, with the search paths.
pub open spec fn run_head(
    mkdir_path: Seq<char>,
    path: Seq<char>,
    pkg_config_path: Seq<char>,
) -> Seq<char> {
    quoted(mkdir_path) + " -p $out $out/out_dir && "@ + "export PATH="@ + path + " && "@ + (
    if pkg_config_path.len() > 0 {
        "export PKG_CONFIG_PATH="@ + quoted(pkg_config_path) + " && "@
    } else {
        Seq::empty()
    })
}

fn run_head_text(
    mkdir_path: &str,
    coreutils_store: &str,
    cc_bin_dir: &str,
    pkg_config_dir: &Option<String>,
    pkg_config_path: &str,
) -> (r: String)
    ensures
        r@ == run_head(
            mkdir_path@,
            run_path(cc_bin_dir@, coreutils_store@, opt_view(*pkg_config_dir)),
            pkg_config_path@,
        ),
{
    let mut path = concat2(cc_bin_dir, ":");
    path.append(coreutils_store);
    path.append("/bin");
    let ghost base = path@;
    match pkg_config_dir {
        Some(d) => {
            path.append(":");
            path.append(d.as_str());
            assert(path@ =~= base + (":"@ + d@));
        },
        None => {
            assert(base + Seq::<char>::empty() =~= base);
        },
    }
    let mut r = shell_quote(mkdir_path);
    r.append(" -p $out $out/out_dir && ");
    r.append("export PATH=");
    r.append(path.as_str());
    r.append(" && ");
    let ghost head = r@;
    if !pkg_config_path.is_empty() {
        let q = shell_quote(pkg_config_path);
        r.append("export PKG_CONFIG_PATH=");
        r.append(q.as_str());
        r.append(" && ");
        assert(r@ =~= head + ("export PKG_CONFIG_PATH="@ + quoted(pkg_config_path@) + " && "@));
    } else {
        assert(head + Seq::<char>::empty() =~= head);
    }
    r
}

/// The standard variables of a build script. What compiles for the host sees the
/// host as its target.
pub open spec fn run_standard(
    u: UnitView,
    rustc_path: Seq<char>,
    profile: ProfileConfig,
    target: TargetConfig,
) -> Seq<char> {
    "export OUT_DIR=$out/out_dir && export RUSTC="@ + quoted(rustc_path) + " && export HOST="@
        + target.host_triple@ + " && export TARGET="@ + (if u.for_host {
        target.host_triple@
    } else {
        target.target_triple@
    }) + " && export NUM_JOBS=1 && export OPT_LEVEL="@ + profile.opt_level@ + " && export DEBUG="@
        + (if profile.debug_info {
        "true"@
    } else {
        "false"@
    }) + " && export PROFILE="@ + profile.name@ + " && "@
}

fn run_standard_text(
    unit: &NixUnit,
    rustc_path: &str,
    profile: &ProfileConfig,
    target: &TargetConfig,
) -> (r: String)
    ensures
        r@ == run_standard(unit@, rustc_path@, *profile, *target),
{
    let q = shell_quote(rustc_path);
    let mut r = owned("export OUT_DIR=$out/out_dir && export RUSTC=");
    r.append(q.as_str());
    r.append(" && export HOST=");
    r.append(target.host_triple.as_str());
    r.append(" && export TARGET=");
    if unit.for_host {
        r.append(target.host_triple.as_str());
    } else {
        r.append(target.target_triple.as_str());
    }
    r.append(" && export NUM_JOBS=1 && export OPT_LEVEL=");
    r.append(profile.opt_level);
    r.append(" && export DEBUG=");
    if profile.debug_info {
        r.append("true");
    } else {
        r.append("false");
    }
    r.append(" && export PROFILE=");
    r.append(profile.name.as_str());
    r.append(" && ");
    r
}

/// A name in upper case with underscores for dashes.
pub open spec fn env_form(s: Seq<char>) -> Seq<char> {
    replace_seq(uppercase(s), "-"@, "_"@)
}

/// A name of ASCII characters as a variable's: each dash is an underscore, each small
/// letter its capital, and every other character stays.
pub open spec fn variable_name(s: Seq<char>) -> Seq<char> {
    Seq::new(
        s.len(),
        |i: int|
            if s[i] == '-' {
                '_'
            } else if 'a' <= s[i] && s[i] <= 'z' {
                (s[i] as u32 - 32) as char
            } else {
                s[i]
            },
    )
}

/// Where dashes are replaced by underscores, each character stands where it stood.
pub proof fn lemma_dashes_replaced(s: Seq<char>)
    ensures
        replace_seq(s, "-"@, "_"@).len() == s.len(),
        forall|i: int|
            0 <= i < s.len() ==> #[trigger] replace_seq(s, "-"@, "_"@)[i] == (if s[i] == '-' {
                '_'
            } else {
                s[i]
            }),
    decreases s.len(),
{
    reveal_strlit("-");
    reveal_strlit("_");
    if s.len() > 0 {
        lemma_dashes_replaced(s.drop_first());
        assert(s.skip(1) =~= s.drop_first());
        let rest = replace_seq(s.drop_first(), "-"@, "_"@);
        let all = replace_seq(s, "-"@, "_"@);
        if s[0] == '-' {
            assert(s.take(1) =~= "-"@);
            assert(all == "_"@ + rest);
        } else {
            assert(s.take(1)[0] == s[0]);
            assert(!starts(s, "-"@));
            assert(all == seq![s[0]] + rest);
        }
        assert forall|i: int| 0 <= i < s.len() implies #[trigger] all[i] == (if s[i] == '-' {
            '_'
        } else {
            s[i]
        }) by {
            if i > 0 {
                assert(all[i] == rest[i - 1]);
                assert(s.drop_first()[i - 1] == s[i]);
            }
        }
    }
}

fn env_form_text(s: &str) -> (r: String)
    ensures
        r@ == env_form(s@),
        all_ascii(s@) ==> r@ == variable_name(s@),
{
    proof {
        reveal_strlit("-");
    }
    let up = upper(s);
    let r = replace(up.as_str(), "-", "_");
    proof {
        lemma_dashes_replaced(up@);
        if all_ascii(s@) {
            assert(r@ =~= variable_name(s@));
        }
    }
    r
}

/// One variable for each enabled feature.
pub open spec fn feature_exports(features: Seq<Seq<char>>) -> Seq<char>
    decreases features.len(),
{
    if features.len() == 0 {
        Seq::empty()
    } else {
        feature_exports(features.drop_last()) + ("export CARGO_FEATURE_"@ + env_form(features.last())
            + "=1 && "@)
    }
}

/// For each feature with an ASCII name the text exports a variable that is named by
/// the feature.
pub open spec fn exports_features(text: Seq<char>, features: Seq<Seq<char>>) -> bool {
    forall|i: int|
        0 <= i < features.len() && all_ascii(#[trigger] features[i]) ==> has_substring(
            text,
            "export CARGO_FEATURE_"@ + variable_name(features[i]) + "=1 && "@,
        )
}

proof fn lemma_exports_features(a: Seq<char>, t: Seq<char>, b: Seq<char>, features: Seq<Seq<char>>)
    requires
        exports_features(t, features),
    ensures
        exports_features(a + t + b, features),
{
    assert forall|i: int|
        0 <= i < features.len() && all_ascii(#[trigger] features[i]) implies has_substring(
        a + t + b,
        "export CARGO_FEATURE_"@ + variable_name(features[i]) + "=1 && "@,
    ) by {
        let e = "export CARGO_FEATURE_"@ + variable_name(features[i]) + "=1 && "@;
        lemma_holds_behind(a, t, e);
        lemma_holds_before(a + t, b, e);
    }
}

fn add_feature_exports(script: &mut String, features: &Vec<String>)
    ensures
        final(script)@ == old(script)@ + feature_exports(views(features@)),
        exports_features(final(script)@, views(features@)),
{
    let ghost start = script@;
    let ghost fs = views(features@);
    let mut i: usize = 0;
    assert(start + feature_exports(fs.take(0)) =~= start);
    while i < features.len()
        invariant
            i <= features@.len(),
            fs == views(features@),
            script@ == start + feature_exports(fs.take(i as int)),
            exports_features(script@, fs.take(i as int)),
        decreases features@.len() - i,
    {
        assert(fs.take(i + 1).drop_last() =~= fs.take(i as int));
        let ghost before = script@;
        let f = env_form_text(features[i].as_str());
        script.append("export CARGO_FEATURE_");
        script.append(f.as_str());
        script.append("=1 && ");
        assert(script@ =~= start + feature_exports(fs.take(i + 1)));
        proof {
            let e = "export CARGO_FEATURE_"@ + f@ + "=1 && "@;
            assert(script@ =~= before + e);
            lemma_holds_itself(e);
            lemma_holds_behind(before, e, e);
            assert forall|j: int|
                0 <= j < fs.take(i + 1).len() && all_ascii(
                    #[trigger] fs.take(i + 1)[j],
                ) implies has_substring(
                script@,
                "export CARGO_FEATURE_"@ + variable_name(fs.take(i + 1)[j]) + "=1 && "@,
            ) by {
                if j < i {
                    assert(fs.take(i + 1)[j] == fs.take(i as int)[j]);
                    lemma_holds_before(
                        before,
                        e,
                        "export CARGO_FEATURE_"@ + variable_name(fs[j]) + "=1 && "@,
                    );
                }
            }
        }
        i = i + 1;
    }
    assert(fs.take(fs.len() as int) =~= fs);
}

/// The package's variables: those of the target's options, cargo's, the manifest
/// and the features, and those passed through from outside.
pub open spec fn run_package(
    u: UnitView,
    cfg_envs: Seq<(Seq<char>, Seq<char>)>,
    host_cfg_envs: Seq<(Seq<char>, Seq<char>)>,
    passthru: Seq<(Seq<char>, Seq<char>)>,
) -> Seq<char> {
    exports(
        if u.for_host {
            host_cfg_envs
        } else {
            cfg_envs
        },
    ) + exports(u.cargo_envs) + "export CARGO_MANIFEST_DIR="@ + quoted(u.manifest_dir)
        + " && export CARGO_MANIFEST_PATH="@ + quoted(u.manifest_dir) + "/Cargo.toml && "@ + (
    match u.links {
        Some(l) => "export CARGO_MANIFEST_LINKS="@ + l + " && "@,
        None => Seq::empty(),
    }) + feature_exports(u.features) + exports(passthru)
}

fn run_package_text(
    unit: &NixUnit,
    cfg_envs: &Vec<(String, String)>,
    host_cfg_envs: &Vec<(String, String)>,
    passthru_envs: &Vec<(String, String)>,
) -> (r: String)
    ensures
        r@ == run_package(
            unit@,
            pair_views(cfg_envs@),
            pair_views(host_cfg_envs@),
            pair_views(passthru_envs@),
        ),
        exports_features(r@, unit@.features),
{
    let mut r = String::new();
    if unit.for_host {
        add_exports(&mut r, host_cfg_envs);
    } else {
        add_exports(&mut r, cfg_envs);
    }
    assert(r@ =~= exports(
        if unit@.for_host {
            pair_views(host_cfg_envs@)
        } else {
            pair_views(cfg_envs@)
        },
    ));
    add_exports(&mut r, &unit.cargo_envs);
    let q = shell_quote(unit.manifest_dir.as_str());
    r.append("export CARGO_MANIFEST_DIR=");
    r.append(q.as_str());
    r.append(" && export CARGO_MANIFEST_PATH=");
    r.append(q.as_str());
    r.append("/Cargo.toml && ");
    let ghost head = r@;
    match &unit.links {
        Some(l) => {
            r.append("export CARGO_MANIFEST_LINKS=");
            r.append(l.as_str());
            r.append(" && ");
            assert(r@ =~= head + ("export CARGO_MANIFEST_LINKS="@ + l@ + " && "@));
        },
        None => {
            assert(head + Seq::<char>::empty() =~= head);
        },
    }
    add_feature_exports(&mut r, &unit.features);
    let ghost featured = r@;
    add_exports(&mut r, passthru_envs);
    proof {
        lemma_exports_features(
            Seq::empty(),
            featured,
            exports(pair_views(passthru_envs@)),
            unit@.features,
        );
        assert(Seq::<char>::empty() + featured + exports(pair_views(passthru_envs@)) =~= r@);
    }
    r
}

/// Exports what a dependency's build script reported, under its `links` name.
pub open spec fn dep_metadata(ph: Seq<char>, links: Seq<char>) -> Seq<char> {
    "if [ -f "@ + ph
        + "/output ]; then while IFS= read -r line; do case \"$line\" in cargo:*=*) key=\"${line#cargo:}\"; key=\"${key%%=*}\"; val=\"${line#*=}\"; case \"$key\" in rustc-cfg|rustc-env|rustc-link-lib|rustc-link-search|rerun-if-changed|rerun-if-env-changed|warning) ;; *) export \"DEP_"@
        + links
        + "_$(echo \"$key\" | tr '[:lower:]-' '[:upper:]_')=$val\" ;; esac ;; esac; done < "@ + ph
        + "/output; fi && "@
}

fn dep_metadata_text(ph: &str, links: &str) -> (r: String)
    ensures
        r@ == dep_metadata(ph@, links@),
{
    let mut r = owned("if [ -f ");
    r.append(ph);
    r.append(
        "/output ]; then while IFS= read -r line; do case \"$line\" in cargo:*=*) key=\"${line#cargo:}\"; key=\"${key%%=*}\"; val=\"${line#*=}\"; case \"$key\" in rustc-cfg|rustc-env|rustc-link-lib|rustc-link-search|rerun-if-changed|rerun-if-env-changed|warning) ;; *) export \"DEP_",
    );
    r.append(links);
    r.append("_$(echo \"$key\" | tr '[:lower:]-' '[:upper:]_')=$val\" ;; esac ;; esac; done < ");
    r.append(ph);
    r.append("/output; fi && ");
    r
}

/// What the build scripts reported to which this one is linked.
pub open spec fn dep_metadata_parts(
    drvs: Map<Seq<char>, Seq<char>>,
    links: Seq<(Seq<char>, Seq<char>)>,
) -> TextResult
    decreases links.len(),
{
    if links.len() == 0 {
        Ok(Seq::empty())
    } else {
        match dep_metadata_parts(drvs, links.drop_last()) {
            Err(e) => Err(e),
            Ok(t) => {
                let l = links.last();
                if !drvs.contains_key(l.0) {
                    Ok(t)
                } else {
                    match output_placeholder(drvs[l.0], "out"@) {
                        Err(e) => Err(e),
                        Ok(ph) => Ok(t + dep_metadata(ph, env_form(l.1))),
                    }
                }
            },
        }
    }
}

proof fn lemma_dep_metadata_err(
    drvs: Map<Seq<char>, Seq<char>>,
    links: Seq<(Seq<char>, Seq<char>)>,
    n: int,
)
    requires
        0 <= n <= links.len(),
        dep_metadata_parts(drvs, links.take(n)) is Err,
    ensures
        dep_metadata_parts(drvs, links) == dep_metadata_parts(drvs, links.take(n)),
    decreases links.len(),
{
    if n == links.len() {
        assert(links.take(n) =~= links);
    } else {
        assert(links.drop_last().take(n) =~= links.take(n));
        lemma_dep_metadata_err(drvs, links.drop_last(), n);
    }
}

fn dep_metadata_all(links: &Vec<(String, String)>, dep_drv_map: &TextMap) -> (r: Result<
    String,
    String,
>)
    requires
        forall|k: Seq<char>| #[trigger]
            dep_drv_map@.contains_key(k) ==> drv_sliceable(dep_drv_map@[k]),
    ensures
        text_view(r) == dep_metadata_parts(dep_drv_map@, pair_views(links@)),
{
    let ghost drvs = dep_drv_map@;
    let ghost ls = pair_views(links@);
    let mut t = String::new();
    let mut i: usize = 0;
    while i < links.len()
        invariant
            drvs == dep_drv_map@,
            forall|k: Seq<char>| #[trigger] drvs.contains_key(k) ==> drv_sliceable(drvs[k]),
            ls == pair_views(links@),
            i <= links@.len(),
            dep_metadata_parts(drvs, ls.take(i as int)) == TextResult::Ok(t@),
        decreases links@.len() - i,
    {
        assert(ls.take(i + 1).drop_last() =~= ls.take(i as int));
        if let Some(drv) = dep_drv_map.get(links[i].0.as_str()) {
            match downstream_placeholder(drv.as_str(), "out") {
                Err(e) => {
                    proof {
                        lemma_dep_metadata_err(drvs, ls, i + 1);
                    }
                    return Err(e);
                },
                Ok(ph) => {
                    let name = env_form_text(links[i].1.as_str());
                    let d = dep_metadata_text(ph.as_str(), name.as_str());
                    t.append(d.as_str());
                },
            }
        }
        i = i + 1;
    }
    assert(ls.take(ls.len() as int) =~= ls);
    Ok(t)
}

/// The directory of a crate below the source, if it is not the source itself.
pub open spec fn nested_crate(manifest_dir: Seq<char>, src_store: Seq<char>) -> Option<Seq<char>> {
    if starts(manifest_dir, src_store) {
        let rel = trim_start_char(manifest_dir.skip(src_store.len() as int), '/');
        if rel.len() > 0 {
            Some(rel)
        } else {
            None
        }
    } else {
        None
    }
}

/// The commands that make a writable copy of the crate. A nested crate gets the
/// whole workspace, so that paths to its siblings resolve; what lies outside the
/// project (`has_parent`) goes one level above it.
pub open spec fn workdir_part(u: UnitView, src_store: Seq<char>, has_parent: bool) -> Seq<char> {
    "export HOME=$TMPDIR && _orig_manifest_dir=$CARGO_MANIFEST_DIR && "@ + (match nested_crate(
        u.manifest_dir,
        src_store,
    ) {
        Some(rel) => "_bs_workdir=$TMPDIR/workdir/"@ + rel + " && cp -r --no-preserve=mode "@
            + quoted(src_store) + "/. $TMPDIR/workdir/ && "@ + (if has_parent {
            "cp -r --no-preserve=mode $TMPDIR/workdir/.parent/. $TMPDIR/ && rm -rf $TMPDIR/workdir/.parent && "@
        } else {
            Seq::empty()
        }),
        None =>
        "_bs_workdir=$TMPDIR/workdir && cp -r --no-preserve=mode $CARGO_MANIFEST_DIR/. $_bs_workdir && "@
            + (if has_parent && u.manifest_dir == src_store {
            "cp -r --no-preserve=mode $_bs_workdir/.parent/. $TMPDIR/ && rm -rf $_bs_workdir/.parent && "@
        } else {
            Seq::empty()
        }),
    })
}

fn workdir_text(unit: &NixUnit, src_store: &str, has_parent: bool) -> (r: String)
    ensures
        r@ == workdir_part(unit@, src_store@, has_parent),
{
    let nested: Option<&str> = match strip_prefix(unit.manifest_dir.as_str(), src_store) {
        Some(rest) => {
            let rel = trim_start_of(rest, '/');
            if rel.is_empty() {
                None
            } else {
                Some(rel)
            }
        },
        None => None,
    };
    let mut tail = String::new();
    match nested {
        Some(rel) => {
            tail.append("_bs_workdir=$TMPDIR/workdir/");
            assert(tail@ =~= "_bs_workdir=$TMPDIR/workdir/"@);
            tail.append(rel);
            tail.append(" && cp -r --no-preserve=mode ");
            let q = shell_quote(src_store);
            tail.append(q.as_str());
            tail.append("/. $TMPDIR/workdir/ && ");
            let ghost head = tail@;
            if has_parent {
                tail.append(
                    "cp -r --no-preserve=mode $TMPDIR/workdir/.parent/. $TMPDIR/ && rm -rf $TMPDIR/workdir/.parent && ",
                );
            } else {
                assert(head + Seq::<char>::empty() =~= head);
            }
        },
        None => {
            tail.append(
                "_bs_workdir=$TMPDIR/workdir && cp -r --no-preserve=mode $CARGO_MANIFEST_DIR/. $_bs_workdir && ",
            );
            let ghost head = tail@;
            assert(head
                =~= "_bs_workdir=$TMPDIR/workdir && cp -r --no-preserve=mode $CARGO_MANIFEST_DIR/. $_bs_workdir && "@);
            if has_parent && same(unit.manifest_dir.as_str(), src_store) {
                tail.append(
                    "cp -r --no-preserve=mode $_bs_workdir/.parent/. $TMPDIR/ && rm -rf $_bs_workdir/.parent && ",
                );
            } else {
                assert(head + Seq::<char>::empty() =~= head);
            }
        },
    }
    let mut r = owned("export HOME=$TMPDIR && _orig_manifest_dir=$CARGO_MANIFEST_DIR && ");
    r.append(tail.as_str());
    r
}

/// The commands that point the script at the writable copy, build a shim that
/// keeps copied files writable, source the setup scripts, run the binary and
/// lead paths in its output back to the store.
pub open spec fn run_tail(ph: Seq<char>, binary: Seq<char>, setup: Seq<Seq<char>>) -> Seq<char> {
    "export CARGO_MANIFEST_DIR=$_bs_workdir && export CARGO_MANIFEST_PATH=$_bs_workdir/Cargo.toml && cat > $TMPDIR/_wdirs.c << 'WDIRS_EOF'\n#define _GNU_SOURCE\n#include <dlfcn.h>\n#include <sys/stat.h>\nint chmod(const char *p, mode_t m) {\n  int (*f)(const char*,mode_t)=dlsym(RTLD_NEXT,\"chmod\");\n  return f(p,m|0200); }\nint fchmod(int d, mode_t m) {\n  int (*f)(int,mode_t)=dlsym(RTLD_NEXT,\"fchmod\");\n  return f(d,m|0200); }\nint fchmodat(int d,const char *p, mode_t m, int fl) {\n  int (*f)(int,const char*,mode_t,int)=dlsym(RTLD_NEXT,\"fchmodat\");\n  return f(d,p,m|0200,fl); }\nint mkdir(const char *p, mode_t m) {\n  int (*f)(const char*,mode_t)=dlsym(RTLD_NEXT,\"mkdir\");\n  return f(p,m|0200); }\nint mkdirat(int d, const char *p, mode_t m) {\n  int (*f)(int,const char*,mode_t)=dlsym(RTLD_NEXT,\"mkdirat\");\n  return f(d,p,m|0200); }\nWDIRS_EOF\ncc -shared -fPIC -o $TMPDIR/_wdirs.so $TMPDIR/_wdirs.c -ldl && "@
        + setup_fragment(setup) + "cd $_bs_workdir && LD_PRELOAD=$TMPDIR/_wdirs.so "@ + ph + "/"@
        + binary
        + " > $out/output && _tmp=$out/output.tmp && while IFS= read -r _line; do printf '%s\\n' \"${_line//$_bs_workdir/$_orig_manifest_dir}\"; done < $out/output > $_tmp && mv $_tmp $out/output"@
}

fn run_tail_text(ph: &str, binary: &str, setup_scripts: &Vec<String>) -> (r: String)
    ensures
        r@ == run_tail(ph@, binary@, views(setup_scripts@)),
{
    let mut r = owned(
        "export CARGO_MANIFEST_DIR=$_bs_workdir && export CARGO_MANIFEST_PATH=$_bs_workdir/Cargo.toml && cat > $TMPDIR/_wdirs.c << 'WDIRS_EOF'\n#define _GNU_SOURCE\n#include <dlfcn.h>\n#include <sys/stat.h>\nint chmod(const char *p, mode_t m) {\n  int (*f)(const char*,mode_t)=dlsym(RTLD_NEXT,\"chmod\");\n  return f(p,m|0200); }\nint fchmod(int d, mode_t m) {\n  int (*f)(int,mode_t)=dlsym(RTLD_NEXT,\"fchmod\");\n  return f(d,m|0200); }\nint fchmodat(int d,const char *p, mode_t m, int fl) {\n  int (*f)(int,const char*,mode_t,int)=dlsym(RTLD_NEXT,\"fchmodat\");\n  return f(d,p,m|0200,fl); }\nint mkdir(const char *p, mode_t m) {\n  int (*f)(const char*,mode_t)=dlsym(RTLD_NEXT,\"mkdir\");\n  return f(p,m|0200); }\nint mkdirat(int d, const char *p, mode_t m) {\n  int (*f)(int,const char*,mode_t)=dlsym(RTLD_NEXT,\"mkdirat\");\n  return f(d,p,m|0200); }\nWDIRS_EOF\ncc -shared -fPIC -o $TMPDIR/_wdirs.so $TMPDIR/_wdirs.c -ldl && ",
    );
    let setup = setup_source_fragment(setup_scripts);
    r.append(setup.as_str());
    r.append("cd $_bs_workdir && LD_PRELOAD=$TMPDIR/_wdirs.so ");
    r.append(ph);
    r.append("/");
    r.append(binary);
    r.append(
        " > $out/output && _tmp=$out/output.tmp && while IFS= read -r _line; do printf '%s\\n' \"${_line//$_bs_workdir/$_orig_manifest_dir}\"; done < $out/output > $_tmp && mv $_tmp $out/output",
    );
    r
}

/// The script of a run: everything but the run of the binary itself needs no
/// placeholder of it.
#[verifier::opaque]
pub open spec fn run_script(
    u: UnitView,
    us: Seq<UnitView>,
    idx: Map<Seq<char>, usize>,
    drvs: Map<Seq<char>, Seq<char>>,
    mkdir_path: Seq<char>,
    coreutils_store: Seq<char>,
    rustc_path: Seq<char>,
    cc_bin_dir: Seq<char>,
    pkg_config_dir: Option<Seq<char>>,
    pkg_config_path: Seq<char>,
    profile: ProfileConfig,
    target: TargetConfig,
    cfg_envs: Seq<(Seq<char>, Seq<char>)>,
    host_cfg_envs: Seq<(Seq<char>, Seq<char>)>,
    custom_sys_env: Seq<(Seq<char>, Seq<char>)>,
    passthru: Seq<(Seq<char>, Seq<char>)>,
    src_store: Seq<char>,
    has_parent: bool,
    setup: Seq<Seq<char>>,
) -> TextResult {
    match u.build_script_compile_key {
        None => Err("BuildScriptRun "@ + u.key + " has no compile key"@),
        Some(k) => if !drvs.contains_key(k) {
            Err("Build script compile drv not found for "@ + k)
        } else {
            match output_placeholder(drvs[k], "out"@) {
                Err(e) => Err(e),
                Ok(ph) => match dep_metadata_parts(drvs, u.links_dep_keys) {
                    Err(e) => Err(e),
                    Ok(deps) => Ok(
                        run_head(
                            mkdir_path,
                            run_path(cc_bin_dir, coreutils_store, pkg_config_dir),
                            pkg_config_path,
                        ) + sys_env_part(u, target, pkg_config_path, custom_sys_env) + run_standard(
                            u,
                            rustc_path,
                            profile,
                            target,
                        ) + run_package(u, cfg_envs, host_cfg_envs, passthru) + deps + workdir_part(
                            u,
                            src_store,
                            has_parent,
                        ) + run_tail(ph, output_file(us[idx[k] as int]), setup),
                    ),
                },
            }
        },
    }
}

/// The compilation of the build script, if it was registered, is a unit of the
/// index.
pub open spec fn script_known(
    u: UnitView,
    idx: Map<Seq<char>, usize>,
    drvs: Map<Seq<char>, Seq<char>>,
) -> bool {
    match u.build_script_compile_key {
        Some(k) => drvs.contains_key(k) ==> idx.contains_key(k),
        None => true,
    }
}

/// Builds the script that runs a compiled build script. `pkg_config_dir` is the
/// directory of pkg-config, and `has_parent` says whether the source holds files
/// from outside the project under `.parent`.
pub fn build_run_script(
    unit: &NixUnit,
    units: &Vec<NixUnit>,
    key_to_idx: &StrMap<usize>,
    dep_drv_map: &TextMap,
    mkdir_path: &str,
    coreutils_store: &str,
    rustc_path: &str,
    cc_bin_dir: &str,
    pkg_config_dir: &Option<String>,
    pkg_config_path: &str,
    profile: &ProfileConfig,
    target: &TargetConfig,
    cfg_envs: &Vec<(String, String)>,
    host_cfg_envs: &Vec<(String, String)>,
    custom_sys_env: &Vec<(String, String)>,
    passthru_envs: &Vec<(String, String)>,
    src_store: &str,
    has_parent: bool,
    setup_scripts: &Vec<String>,
) -> (r: Result<String, String>)
    requires
        plan_ok(unit_views(units@), key_to_idx@, dep_drv_map@),
        script_known(unit@, key_to_idx@, dep_drv_map@),
    ensures
        text_view(r) == run_script(
            unit@,
            unit_views(units@),
            key_to_idx@,
            dep_drv_map@,
            mkdir_path@,
            coreutils_store@,
            rustc_path@,
            cc_bin_dir@,
            opt_view(*pkg_config_dir),
            pkg_config_path@,
            *profile,
            *target,
            pair_views(cfg_envs@),
            pair_views(host_cfg_envs@),
            pair_views(custom_sys_env@),
            pair_views(passthru_envs@),
            src_store@,
            has_parent,
            views(setup_scripts@),
        ),
        match r {
            Ok(t) => exports_features(t@, unit@.features),
            Err(_) => true,
        },
{
    proof {
        reveal(run_script);
    }
    let key = match &unit.build_script_compile_key {
        Some(k) => k,
        None => {
            let mut e = owned("BuildScriptRun ");
            e.append(unit.key.as_str());
            e.append(" has no compile key");
            return Err(e);
        },
    };
    let drv = match dep_drv_map.get(key.as_str()) {
        Some(d) => d,
        None => {
            return Err(concat2("Build script compile drv not found for ", key.as_str()));
        },
    };
    let binary = match key_to_idx.get(key.as_str()) {
        Some(j) => units[*j].output_lib_filename(),
        None => {
            assert(false);
            String::new()
        },
    };
    let ph = match downstream_placeholder(drv.as_str(), "out") {
        Ok(p) => p,
        Err(e) => return Err(e),
    };
    let deps = match dep_metadata_all(&unit.links_dep_keys, dep_drv_map) {
        Ok(t) => t,
        Err(e) => return Err(e),
    };
    let mut script = run_head_text(
        mkdir_path,
        coreutils_store,
        cc_bin_dir,
        pkg_config_dir,
        pkg_config_path,
    );
    let sys = sys_env_text(unit, target, pkg_config_path, custom_sys_env);
    script.append(sys.as_str());
    let standard = run_standard_text(unit, rustc_path, profile, target);
    script.append(standard.as_str());
    let ghost front = script@;
    let package = run_package_text(unit, cfg_envs, host_cfg_envs, passthru_envs);
    script.append(package.as_str());
    script.append(deps.as_str());
    let workdir = workdir_text(unit, src_store, has_parent);
    script.append(workdir.as_str());
    let tail = run_tail_text(ph.as_str(), binary.as_str(), setup_scripts);
    script.append(tail.as_str());
    proof {
        lemma_exports_features(front, package@, deps@ + workdir@ + tail@, unit@.features);
        assert(front + package@ + (deps@ + workdir@ + tail@) =~= script@);
    }
    Ok(script)
}

} // verus!
