//! What the script of a build script's run does.
use crate::placeholder::{output_placeholder, TextResult};
use crate::run_script::{
    builtin_sys_env, dep_metadata, dep_metadata_parts, env_form, feature_exports,
    lemma_dashes_replaced, run_head, run_package, run_path, run_script, run_standard, run_tail,
    sys_env_part, workdir_part,
};
use crate::script_laws::{lemma_exported, lemma_sourced};
use crate::scripts::{exports, setup_fragment, source_commands};
use crate::text::{ends, has_substring, uppercase};
use crate::units::{output_file, pair_lookup, ProfileConfig, TargetConfig, UnitView};
use crate::util::quoted;
use crate::wording::{
    in_turn, lemma_holds_before, lemma_holds_behind, lemma_holds_itself, lemma_holds_within,
    lemma_in_turn, lemma_in_turn_behind,
};
use vstd::prelude::*;

verus! {

/// Everything that decides what the script of a run does.
pub struct RunInputs {
    pub u: UnitView,
    pub us: Seq<UnitView>,
    pub idx: Map<Seq<char>, usize>,
    pub drvs: Map<Seq<char>, Seq<char>>,
    pub mkdir_path: Seq<char>,
    pub coreutils_store: Seq<char>,
    pub rustc_path: Seq<char>,
    pub cc_bin_dir: Seq<char>,
    pub pkg_config_dir: Option<Seq<char>>,
    pub pkg_config_path: Seq<char>,
    pub profile: ProfileConfig,
    pub target: TargetConfig,
    pub cfg_envs: Seq<(Seq<char>, Seq<char>)>,
    pub host_cfg_envs: Seq<(Seq<char>, Seq<char>)>,
    pub custom_sys_env: Seq<(Seq<char>, Seq<char>)>,
    pub passthru: Seq<(Seq<char>, Seq<char>)>,
    pub src_store: Seq<char>,
    pub has_parent: bool,
    pub setup: Seq<Seq<char>>,
}

impl RunInputs {
    /// The script that is written for them.
    pub open spec fn script(self) -> TextResult {
        run_script(
            self.u,
            self.us,
            self.idx,
            self.drvs,
            self.mkdir_path,
            self.coreutils_store,
            self.rustc_path,
            self.cc_bin_dir,
            self.pkg_config_dir,
            self.pkg_config_path,
            self.profile,
            self.target,
            self.cfg_envs,
            self.host_cfg_envs,
            self.custom_sys_env,
            self.passthru,
            self.src_store,
            self.has_parent,
            self.setup,
        )
    }

    /// The command that runs the compiled build script.
    pub open spec fn run(self) -> Seq<char> {
        let key = self.u.build_script_compile_key->Some_0;
        "cd $_bs_workdir && LD_PRELOAD=$TMPDIR/_wdirs.so "@ + output_placeholder(
            self.drvs[key],
            "out"@,
        )->Ok_0 + "/"@ + output_file(self.us[self.idx[key] as int]) + " > $out/output && "@
    }

    spec fn head(self) -> Seq<char> {
        run_head(
            self.mkdir_path,
            run_path(self.cc_bin_dir, self.coreutils_store, self.pkg_config_dir),
            self.pkg_config_path,
        )
    }

    spec fn sys(self) -> Seq<char> {
        sys_env_part(self.u, self.target, self.pkg_config_path, self.custom_sys_env)
    }

    spec fn standard(self) -> Seq<char> {
        run_standard(self.u, self.rustc_path, self.profile, self.target)
    }

    spec fn package(self) -> Seq<char> {
        run_package(self.u, self.cfg_envs, self.host_cfg_envs, self.passthru)
    }

    spec fn deps(self) -> Seq<char> {
        dep_metadata_parts(self.drvs, self.u.links_dep_keys)->Ok_0
    }

    spec fn workdir(self) -> Seq<char> {
        workdir_part(self.u, self.src_store, self.has_parent)
    }

    spec fn tail(self) -> Seq<char> {
        let key = self.u.build_script_compile_key->Some_0;
        run_tail(
            output_placeholder(self.drvs[key], "out"@)->Ok_0,
            output_file(self.us[self.idx[key] as int]),
            self.setup,
        )
    }
}

/// A name as a variable's: of its upper case form every character stays in its place,
/// but for dashes, which are underscores.
pub proof fn law_env_form(name: Seq<char>)
    ensures
        env_form(name).len() == uppercase(name).len(),
        forall|i: int|
            0 <= i < uppercase(name).len() && uppercase(name)[i] != '-' ==> #[trigger] env_form(
                name,
            )[i] == uppercase(name)[i],
        forall|i: int|
            0 <= i < uppercase(name).len() && uppercase(name)[i] == '-' ==> #[trigger] env_form(
                name,
            )[i] == '_',
        !env_form(name).contains('-'),
{
    lemma_dashes_replaced(uppercase(name));
}

/// A run needs the compilation of its build script: without one that was registered
/// there is no script.
pub proof fn law_run_needs_its_script(c: RunInputs)
    ensures
        c.script() is Ok ==> c.u.build_script_compile_key is Some && c.drvs.contains_key(
            c.u.build_script_compile_key->Some_0,
        ),
{
    reveal(run_script);
}

/// The commands in front of the setup scripts, at the end of a run's script.
spec fn shim() -> Seq<char> {
    "export CARGO_MANIFEST_DIR=$_bs_workdir && export CARGO_MANIFEST_PATH=$_bs_workdir/Cargo.toml && cat > $TMPDIR/_wdirs.c << 'WDIRS_EOF'\n#define _GNU_SOURCE\n#include <dlfcn.h>\n#include <sys/stat.h>\nint chmod(const char *p, mode_t m) {\n  int (*f)(const char*,mode_t)=dlsym(RTLD_NEXT,\"chmod\");\n  return f(p,m|0200); }\nint fchmod(int d, mode_t m) {\n  int (*f)(int,mode_t)=dlsym(RTLD_NEXT,\"fchmod\");\n  return f(d,m|0200); }\nint fchmodat(int d,const char *p, mode_t m, int fl) {\n  int (*f)(int,const char*,mode_t,int)=dlsym(RTLD_NEXT,\"fchmodat\");\n  return f(d,p,m|0200,fl); }\nint mkdir(const char *p, mode_t m) {\n  int (*f)(const char*,mode_t)=dlsym(RTLD_NEXT,\"mkdir\");\n  return f(p,m|0200); }\nint mkdirat(int d, const char *p, mode_t m) {\n  int (*f)(int,const char*,mode_t)=dlsym(RTLD_NEXT,\"mkdirat\");\n  return f(d,p,m|0200); }\nWDIRS_EOF\ncc -shared -fPIC -o $TMPDIR/_wdirs.so $TMPDIR/_wdirs.c -ldl && "@
}

proof fn lemma_parts(c: RunInputs) -> (rest: Seq<char>)
    requires
        c.script() is Ok,
    ensures
        c.script()->Ok_0 == c.head() + c.sys() + c.standard() + c.package() + c.deps()
            + c.workdir() + c.tail(),
        c.tail() == shim() + setup_fragment(c.setup) + (c.run() + rest),
        has_substring(c.tail(), c.run()),
        ends(
            c.tail(),
            " > $out/output && _tmp=$out/output.tmp && while IFS= read -r _line; do printf '%s\\n' \"${_line//$_bs_workdir/$_orig_manifest_dir}\"; done < $out/output > $_tmp && mv $_tmp $out/output"@,
        ),
{
    reveal(run_script);
    let last =
        " > $out/output && _tmp=$out/output.tmp && while IFS= read -r _line; do printf '%s\\n' \"${_line//$_bs_workdir/$_orig_manifest_dir}\"; done < $out/output > $_tmp && mv $_tmp $out/output"@;
    reveal_strlit(" > $out/output && ");
    reveal_strlit(
        " > $out/output && _tmp=$out/output.tmp && while IFS= read -r _line; do printf '%s\\n' \"${_line//$_bs_workdir/$_orig_manifest_dir}\"; done < $out/output > $_tmp && mv $_tmp $out/output",
    );
    let redirect = " > $out/output && "@;
    let rest = last.skip(redirect.len() as int);
    assert(last =~= redirect + rest);
    let front = shim() + setup_fragment(c.setup);
    assert(c.tail() =~= front + (c.run() + rest));
    assert(c.tail().skip(c.tail().len() - last.len()) =~= last);
    lemma_holds_itself(c.run());
    lemma_holds_before(c.run(), rest, c.run());
    lemma_holds_behind(front, c.run() + rest, c.run());
    rest
}

proof fn lemma_either(a: Seq<char>, b: Seq<char>, p: Seq<char>)
    requires
        has_substring(a, p) || has_substring(b, p),
    ensures
        has_substring(a + b, p),
{
    if has_substring(a, p) {
        lemma_holds_before(a, b, p);
    } else {
        lemma_holds_behind(a, b, p);
    }
}

/// What stands in one of six parts stands in the whole.
proof fn lemma_any_of_six(
    p0: Seq<char>,
    p1: Seq<char>,
    p2: Seq<char>,
    p3: Seq<char>,
    p4: Seq<char>,
    p5: Seq<char>,
    p: Seq<char>,
)
    requires
        has_substring(p0, p) || has_substring(p1, p) || has_substring(p2, p) || has_substring(p3, p)
            || has_substring(p4, p) || has_substring(p5, p),
    ensures
        has_substring(p0 + p1 + p2 + p3 + p4 + p5, p),
{
    if has_substring(p0, p) || has_substring(p1, p) {
        lemma_either(p0, p1, p);
    }
    if has_substring(p0 + p1, p) || has_substring(p2, p) {
        lemma_either(p0 + p1, p2, p);
    }
    if has_substring(p0 + p1 + p2, p) || has_substring(p3, p) {
        lemma_either(p0 + p1 + p2, p3, p);
    }
    if has_substring(p0 + p1 + p2 + p3, p) || has_substring(p4, p) {
        lemma_either(p0 + p1 + p2 + p3, p4, p);
    }
    lemma_either(p0 + p1 + p2 + p3 + p4, p5, p);
}

/// What stands in a part of the script in front of the run stands there in the script.
proof fn lemma_before_run(c: RunInputs, part: Seq<char>, p: Seq<char>)
    requires
        c.script() is Ok,
        has_substring(part, p),
        ({
            ||| part == c.head()
            ||| part == c.sys()
            ||| part == c.standard()
            ||| part == c.package()
            ||| part == c.deps()
            ||| part == c.workdir()
        }),
    ensures
        in_turn(c.script()->Ok_0, p, c.run()),
{
    let rest = lemma_parts(c);
    lemma_any_of_six(
        c.head(),
        c.sys(),
        c.standard(),
        c.package(),
        c.deps(),
        c.workdir(),
        p,
    );
    lemma_in_turn(
        c.head() + c.sys() + c.standard() + c.package() + c.deps() + c.workdir(),
        c.tail(),
        p,
        c.run(),
    );
}

proof fn lemma_feature_exported(features: Seq<Seq<char>>, n: int)
    requires
        0 <= n < features.len(),
    ensures
        has_substring(
            feature_exports(features),
            "export CARGO_FEATURE_"@ + env_form(features[n]) + "=1 && "@,
        ),
    decreases features.len(),
{
    let e = "export CARGO_FEATURE_"@ + env_form(features[n]) + "=1 && "@;
    if n == features.len() - 1 {
        lemma_holds_itself(e);
        lemma_holds_behind(feature_exports(features.drop_last()), e, e);
    } else {
        lemma_feature_exported(features.drop_last(), n);
        lemma_holds_before(
            feature_exports(features.drop_last()),
            "export CARGO_FEATURE_"@ + env_form(features.last()) + "=1 && "@,
            e,
        );
    }
}

/// Each enabled feature has a variable when the build script runs: its name is that of
/// the feature in upper case, with an underscore for each dash.
pub proof fn law_features_are_exported(c: RunInputs, n: int, name: Seq<char>)
    requires
        c.script() is Ok,
        0 <= n < c.u.features.len(),
        name.len() == uppercase(c.u.features[n]).len(),
        forall|i: int|
            0 <= i < name.len() ==> #[trigger] name[i] == (if uppercase(c.u.features[n])[i] == '-' {
                '_'
            } else {
                uppercase(c.u.features[n])[i]
            }),
    ensures
        in_turn(c.script()->Ok_0, "export CARGO_FEATURE_"@ + name + "=1 && "@, c.run()),
{
    law_env_form(c.u.features[n]);
    assert(name =~= env_form(c.u.features[n]));
    let e = "export CARGO_FEATURE_"@ + name + "=1 && "@;
    lemma_feature_exported(c.u.features, n);
    lemma_package_holds(c, feature_exports(c.u.features), e);
    lemma_before_run(c, c.package(), e);
}

proof fn lemma_package_holds(c: RunInputs, part: Seq<char>, p: Seq<char>)
    requires
        has_substring(part, p),
        ({
            ||| part == exports(
                if c.u.for_host {
                    c.host_cfg_envs
                } else {
                    c.cfg_envs
                },
            )
            ||| part == exports(c.u.cargo_envs)
            ||| part == "export CARGO_MANIFEST_DIR="@ + quoted(c.u.manifest_dir)
                + " && export CARGO_MANIFEST_PATH="@ + quoted(c.u.manifest_dir)
                + "/Cargo.toml && "@
            ||| (c.u.links is Some && part == "export CARGO_MANIFEST_LINKS="@ + c.u.links->Some_0
                + " && "@)
            ||| part == feature_exports(c.u.features)
            ||| part == exports(c.passthru)
        }),
    ensures
        has_substring(c.package(), p),
{
    let p0 = exports(
        if c.u.for_host {
            c.host_cfg_envs
        } else {
            c.cfg_envs
        },
    );
    let p1 = exports(c.u.cargo_envs);
    let p2 = "export CARGO_MANIFEST_DIR="@ + quoted(c.u.manifest_dir)
        + " && export CARGO_MANIFEST_PATH="@ + quoted(c.u.manifest_dir) + "/Cargo.toml && "@;
    let p3 = match c.u.links {
        Some(l) => "export CARGO_MANIFEST_LINKS="@ + l + " && "@,
        None => Seq::empty(),
    };
    let p4 = feature_exports(c.u.features);
    let p5 = exports(c.passthru);
    assert(c.package() =~= p0 + p1 + p2 + p3 + p4 + p5);
    lemma_any_of_six(p0, p1, p2, p3, p4, p5, p);
}

/// When the build script runs, the options of the machine that it compiles for are
/// exported, and so are cargo's variables, those passed through from outside, and the
/// name of the library that the package links.
pub proof fn law_package_is_exported(c: RunInputs, n: int)
    requires
        c.script() is Ok,
    ensures
        !c.u.for_host && 0 <= n < c.cfg_envs.len() ==> in_turn(
            c.script()->Ok_0,
            "export "@ + c.cfg_envs[n].0 + "="@ + quoted(c.cfg_envs[n].1) + " && "@,
            c.run(),
        ),
        c.u.for_host && 0 <= n < c.host_cfg_envs.len() ==> in_turn(
            c.script()->Ok_0,
            "export "@ + c.host_cfg_envs[n].0 + "="@ + quoted(c.host_cfg_envs[n].1) + " && "@,
            c.run(),
        ),
        0 <= n < c.u.cargo_envs.len() ==> in_turn(
            c.script()->Ok_0,
            "export "@ + c.u.cargo_envs[n].0 + "="@ + quoted(c.u.cargo_envs[n].1) + " && "@,
            c.run(),
        ),
        0 <= n < c.passthru.len() ==> in_turn(
            c.script()->Ok_0,
            "export "@ + c.passthru[n].0 + "="@ + quoted(c.passthru[n].1) + " && "@,
            c.run(),
        ),
        c.u.links matches Some(l) ==> in_turn(
            c.script()->Ok_0,
            "export CARGO_MANIFEST_LINKS="@ + l + " && "@,
            c.run(),
        ),
{
    let cfg = if c.u.for_host {
        c.host_cfg_envs
    } else {
        c.cfg_envs
    };
    if 0 <= n < cfg.len() {
        let e = "export "@ + cfg[n].0 + "="@ + quoted(cfg[n].1) + " && "@;
        lemma_exported(cfg, n);
        lemma_package_holds(c, exports(cfg), e);
        lemma_before_run(c, c.package(), e);
    }
    if 0 <= n < c.u.cargo_envs.len() {
        let v = c.u.cargo_envs[n];
        let e = "export "@ + v.0 + "="@ + quoted(v.1) + " && "@;
        lemma_exported(c.u.cargo_envs, n);
        lemma_package_holds(c, exports(c.u.cargo_envs), e);
        lemma_before_run(c, c.package(), e);
    }
    if 0 <= n < c.passthru.len() {
        let e = "export "@ + c.passthru[n].0 + "="@ + quoted(c.passthru[n].1) + " && "@;
        lemma_exported(c.passthru, n);
        lemma_package_holds(c, exports(c.passthru), e);
        lemma_before_run(c, c.package(), e);
    }
    if let Some(l) = c.u.links {
        let e = "export CARGO_MANIFEST_LINKS="@ + l + " && "@;
        lemma_holds_itself(e);
        lemma_package_holds(c, e, e);
        lemma_before_run(c, c.package(), e);
    }
}

/// When the build script runs, it finds the directory for what it writes, the compiler,
/// the machine that runs it and the machine it compiles for (the same one where it
/// compiles for the host), and the profile's settings.
#[verifier::spinoff_prover]
#[verifier::rlimit(60)]
pub proof fn law_standard_variables(c: RunInputs)
    requires
        c.script() is Ok,
    ensures
        in_turn(c.script()->Ok_0, "export OUT_DIR=$out/out_dir && "@, c.run()),
        in_turn(c.script()->Ok_0, "export RUSTC="@ + quoted(c.rustc_path) + " && "@, c.run()),
        in_turn(c.script()->Ok_0, "export HOST="@ + c.target.host_triple@ + " && "@, c.run()),
        c.u.for_host ==> in_turn(
            c.script()->Ok_0,
            "export TARGET="@ + c.target.host_triple@ + " && "@,
            c.run(),
        ),
        !c.u.for_host ==> in_turn(
            c.script()->Ok_0,
            "export TARGET="@ + c.target.target_triple@ + " && "@,
            c.run(),
        ),
        in_turn(c.script()->Ok_0, "export OPT_LEVEL="@ + c.profile.opt_level@ + " && "@, c.run()),
        c.profile.debug_info ==> in_turn(c.script()->Ok_0, "export DEBUG=true && "@, c.run()),
        !c.profile.debug_info ==> in_turn(c.script()->Ok_0, "export DEBUG=false && "@, c.run()),
        in_turn(c.script()->Ok_0, "export PROFILE="@ + c.profile.name@ + " && "@, c.run()),
{
    let target = if c.u.for_host {
        c.target.host_triple@
    } else {
        c.target.target_triple@
    };
    let debug = if c.profile.debug_info {
        "true"@
    } else {
        "false"@
    };
    let and = " && "@;
    let e1 = "export OUT_DIR=$out/out_dir && "@;
    let e2 = "export RUSTC="@ + quoted(c.rustc_path) + and;
    let e3 = "export HOST="@ + c.target.host_triple@ + and;
    let e4 = "export TARGET="@ + target + and;
    let e5 = "export NUM_JOBS=1 && "@;
    let e6 = "export OPT_LEVEL="@ + c.profile.opt_level@ + and;
    let e7 = "export DEBUG="@ + debug + and;
    let e8 = "export PROFILE="@ + c.profile.name@ + and;
    reveal_strlit(" && ");
    reveal_strlit("export OUT_DIR=$out/out_dir && export RUSTC=");
    reveal_strlit("export OUT_DIR=$out/out_dir && ");
    reveal_strlit("export RUSTC=");
    reveal_strlit(" && export HOST=");
    reveal_strlit("export HOST=");
    reveal_strlit(" && export TARGET=");
    reveal_strlit("export TARGET=");
    reveal_strlit(" && export NUM_JOBS=1 && export OPT_LEVEL=");
    reveal_strlit("export NUM_JOBS=1 && ");
    reveal_strlit("export OPT_LEVEL=");
    reveal_strlit(" && export DEBUG=");
    reveal_strlit("export DEBUG=");
    reveal_strlit(" && export PROFILE=");
    reveal_strlit("export PROFILE=");
    assert("export OUT_DIR=$out/out_dir && export RUSTC="@ =~= e1 + "export RUSTC="@);
    assert(" && export HOST="@ =~= and + "export HOST="@);
    assert(" && export TARGET="@ =~= and + "export TARGET="@);
    assert(" && export NUM_JOBS=1 && export OPT_LEVEL="@ =~= and + e5 + "export OPT_LEVEL="@);
    assert(" && export DEBUG="@ =~= and + "export DEBUG="@);
    assert(" && export PROFILE="@ =~= and + "export PROFILE="@);
    lemma_standard_parts(c, e1, e2, e3, e4, e5, e6, e7, e8);
    lemma_before_run(c, c.standard(), e1);
    lemma_before_run(c, c.standard(), e2);
    lemma_before_run(c, c.standard(), e3);
    lemma_before_run(c, c.standard(), e4);
    lemma_before_run(c, c.standard(), e6);
    lemma_before_run(c, c.standard(), e7);
    lemma_before_run(c, c.standard(), e8);
    reveal_strlit("true");
    reveal_strlit("false");
    reveal_strlit("export DEBUG=true && ");
    reveal_strlit("export DEBUG=false && ");
    if c.profile.debug_info {
        assert(e7 =~= "export DEBUG=true && "@);
    } else {
        assert(e7 =~= "export DEBUG=false && "@);
    }
}

proof fn lemma_standard_parts(
    c: RunInputs,
    e1: Seq<char>,
    e2: Seq<char>,
    e3: Seq<char>,
    e4: Seq<char>,
    e5: Seq<char>,
    e6: Seq<char>,
    e7: Seq<char>,
    e8: Seq<char>,
)
    requires
        c.standard() =~= e1 + e2 + e3 + e4 + e5 + e6 + e7 + e8,
    ensures
        has_substring(c.standard(), e1),
        has_substring(c.standard(), e2),
        has_substring(c.standard(), e3),
        has_substring(c.standard(), e4),
        has_substring(c.standard(), e6),
        has_substring(c.standard(), e7),
        has_substring(c.standard(), e8),
{
    lemma_middle(Seq::empty(), e1, e2 + e3 + e4 + e5 + e6 + e7 + e8, c.standard());
    lemma_middle(e1, e2, e3 + e4 + e5 + e6 + e7 + e8, c.standard());
    lemma_middle(e1 + e2, e3, e4 + e5 + e6 + e7 + e8, c.standard());
    lemma_middle(e1 + e2 + e3, e4, e5 + e6 + e7 + e8, c.standard());
    lemma_middle(e1 + e2 + e3 + e4 + e5, e6, e7 + e8, c.standard());
    lemma_middle(e1 + e2 + e3 + e4 + e5 + e6, e7, e8, c.standard());
    lemma_middle(e1 + e2 + e3 + e4 + e5 + e6 + e7, e8, Seq::empty(), c.standard());
}

proof fn lemma_middle(a: Seq<char>, p: Seq<char>, b: Seq<char>, s: Seq<char>)
    requires
        s =~= a + p + b,
    ensures
        has_substring(s, p),
{
    lemma_holds_itself(p);
    lemma_holds_behind(a, p, p);
    lemma_holds_before(a + p, b, p);
}

/// The first command makes the directories of a run. The C compiler comes first on the
/// search path, then the core utilities, then pkg-config where there is one; what
/// pkg-config searches is exported where there is anything.
#[verifier::spinoff_prover]
#[verifier::rlimit(60)]
pub proof fn law_run_search_paths(c: RunInputs)
    requires
        c.script() is Ok,
    ensures
        c.script()->Ok_0.take((quoted(c.mkdir_path) + " -p $out $out/out_dir && "@).len() as int)
            == quoted(c.mkdir_path) + " -p $out $out/out_dir && "@,
        c.pkg_config_dir matches Some(d) ==> in_turn(
            c.script()->Ok_0,
            "export PATH="@ + c.cc_bin_dir + ":"@ + c.coreutils_store + "/bin"@ + ":"@ + d
                + " && "@,
            c.run(),
        ),
        c.pkg_config_dir is None ==> in_turn(
            c.script()->Ok_0,
            "export PATH="@ + c.cc_bin_dir + ":"@ + c.coreutils_store + "/bin"@ + " && "@,
            c.run(),
        ),
        c.pkg_config_path.len() > 0 ==> in_turn(
            c.script()->Ok_0,
            "export PKG_CONFIG_PATH="@ + quoted(c.pkg_config_path) + " && "@,
            c.run(),
        ),
{
    let s = c.script()->Ok_0;
    let first = quoted(c.mkdir_path) + " -p $out $out/out_dir && "@;
    let path = "export PATH="@ + c.cc_bin_dir + ":"@ + c.coreutils_store + "/bin"@ + (
    match c.pkg_config_dir {
        Some(d) => ":"@ + d,
        None => Seq::empty(),
    }) + " && "@;
    let search = if c.pkg_config_path.len() > 0 {
        "export PKG_CONFIG_PATH="@ + quoted(c.pkg_config_path) + " && "@
    } else {
        Seq::empty()
    };
    let rest = lemma_parts(c);
    assert(c.head() =~= first + path + search);
    assert(c.head().take(first.len() as int) =~= first);
    assert(s.take(first.len() as int) =~= c.head().take(first.len() as int));
    lemma_middle(first, path, search, c.head());
    lemma_before_run(c, c.head(), path);
    match c.pkg_config_dir {
        Some(d) => {
            assert(path =~= "export PATH="@ + c.cc_bin_dir + ":"@ + c.coreutils_store + "/bin"@
                + ":"@ + d + " && "@);
        },
        None => {
            assert(path =~= "export PATH="@ + c.cc_bin_dir + ":"@ + c.coreutils_store + "/bin"@
                + " && "@);
        },
    }
    if c.pkg_config_path.len() > 0 {
        lemma_middle(first + path, search, Seq::empty(), c.head());
        lemma_before_run(c, c.head(), search);
    }
}

/// A package that links a library uses pkg-config, where that is set up and the build
/// script compiles for the machine that pkg-config is set up for: the variable that asks
/// for it is set, the project's own table coming before the built-in one.
pub proof fn law_pkg_config_is_asked_for(c: RunInputs, links: Seq<char>)
    requires
        c.script() is Ok,
        c.u.links == Some(links),
        c.pkg_config_path.len() > 0,
        c.u.for_host || c.target.host_triple@ == c.target.target_triple@,
    ensures
        pair_lookup(c.custom_sys_env, links) matches Some(v) ==> in_turn(
            c.script()->Ok_0,
            "export "@ + v + "=1 && "@,
            c.run(),
        ),
        pair_lookup(c.custom_sys_env, links) is None ==> (builtin_sys_env(links) matches Some(v)
            ==> in_turn(c.script()->Ok_0, "export "@ + v + "=1 && "@, c.run())),
{
    if c.sys().len() > 0 {
        lemma_holds_itself(c.sys());
        lemma_before_run(c, c.sys(), c.sys());
    }
    match pair_lookup(c.custom_sys_env, links) {
        Some(v) => {
            reveal_strlit("=1 && ");
            assert(c.sys() == "export "@ + v + "=1 && "@);
        },
        None => {
            if let Some(v) = builtin_sys_env(links) {
                reveal_strlit("=1 && ");
                assert(c.sys() == "export "@ + v + "=1 && "@);
            }
        },
    }
}

proof fn lemma_dep_holds(
    drvs: Map<Seq<char>, Seq<char>>,
    links: Seq<(Seq<char>, Seq<char>)>,
    n: int,
)
    requires
        dep_metadata_parts(drvs, links) is Ok,
        0 <= n < links.len(),
        drvs.contains_key(links[n].0),
    ensures
        output_placeholder(drvs[links[n].0], "out"@) is Ok,
        has_substring(
            dep_metadata_parts(drvs, links)->Ok_0,
            dep_metadata(
                output_placeholder(drvs[links[n].0], "out"@)->Ok_0,
                env_form(links[n].1),
            ),
        ),
    decreases links.len(),
{
    let t = dep_metadata_parts(drvs, links.drop_last())->Ok_0;
    let d = dep_metadata(
        output_placeholder(drvs[links[n].0], "out"@)->Ok_0,
        env_form(links[n].1),
    );
    if n == links.len() - 1 {
        lemma_holds_itself(d);
        lemma_holds_behind(t, d, d);
    } else {
        lemma_dep_holds(drvs, links.drop_last(), n);
        if drvs.contains_key(links.last().0) {
            lemma_holds_before(
                t,
                dep_metadata(
                    output_placeholder(drvs[links.last().0], "out"@)->Ok_0,
                    env_form(links.last().1),
                ),
                d,
            );
        }
    }
}

/// Before a build script runs, it reads what each registered dependency that links a
/// library has put out, and exports it under that library's name.
#[verifier::spinoff_prover]
#[verifier::rlimit(60)]
pub proof fn law_metadata_is_read(c: RunInputs, n: int)
    requires
        c.script() is Ok,
        0 <= n < c.u.links_dep_keys.len(),
        c.drvs.contains_key(c.u.links_dep_keys[n].0),
    ensures
        output_placeholder(c.drvs[c.u.links_dep_keys[n].0], "out"@) matches Ok(ph) && {
            &&& in_turn(c.script()->Ok_0, "done < "@ + ph + "/output; fi && "@, c.run())
            &&& in_turn(
                c.script()->Ok_0,
                "export \"DEP_"@ + env_form(c.u.links_dep_keys[n].1) + "_$(echo \"$key\""@,
                c.run(),
            )
        },
{
    reveal(run_script);
    let (key, name) = c.u.links_dep_keys[n];
    lemma_dep_holds(c.drvs, c.u.links_dep_keys, n);
    let ph = output_placeholder(c.drvs[key], "out"@)->Ok_0;
    let links = env_form(name);
    let d = dep_metadata(ph, links);
    let front =
        "/output ]; then while IFS= read -r line; do case \"$line\" in cargo:*=*) key=\"${line#cargo:}\"; key=\"${key%%=*}\"; val=\"${line#*=}\"; case \"$key\" in rustc-cfg|rustc-env|rustc-link-lib|rustc-link-search|rerun-if-changed|rerun-if-env-changed|warning) ;; *) export \"DEP_"@;
    let back = "_$(echo \"$key\" | tr '[:lower:]-' '[:upper:]_')=$val\" ;; esac ;; esac; done < "@;
    reveal_strlit(
        "/output ]; then while IFS= read -r line; do case \"$line\" in cargo:*=*) key=\"${line#cargo:}\"; key=\"${key%%=*}\"; val=\"${line#*=}\"; case \"$key\" in rustc-cfg|rustc-env|rustc-link-lib|rustc-link-search|rerun-if-changed|rerun-if-env-changed|warning) ;; *) export \"DEP_",
    );
    reveal_strlit("_$(echo \"$key\" | tr '[:lower:]-' '[:upper:]_')=$val\" ;; esac ;; esac; done < ");
    reveal_strlit("export \"DEP_");
    reveal_strlit("_$(echo \"$key\"");
    reveal_strlit("done < ");
    let export = "export \"DEP_"@;
    let echo = "_$(echo \"$key\""@;
    let done = "done < "@;
    let end = "/output; fi && "@;
    let f0 = front.take(front.len() - export.len());
    assert(front =~= f0 + export);
    let b0 = back.skip(echo.len() as int);
    assert(back =~= echo + b0);
    let b1 = back.take(back.len() - done.len());
    assert(back =~= b1 + done);
    let start = "if [ -f "@ + ph;
    assert(d =~= start + front + links + back + ph + end);
    lemma_middle(start + f0, export + links + echo, b0 + ph + end, d);
    lemma_middle(start + front + links + b1, done + ph + end, Seq::empty(), d);
    let e1 = export + links + echo;
    let e2 = done + ph + end;
    lemma_holds_within(c.deps(), d, e1);
    lemma_holds_within(c.deps(), d, e2);
    lemma_before_run(c, c.deps(), e1);
    lemma_before_run(c, c.deps(), e2);
}

/// The setup scripts are sourced in front of the run of the build script, whose output
/// is kept with the paths of the working copy led back to where the source lies.
pub proof fn law_run_is_set_up(c: RunInputs, n: int)
    requires
        c.script() is Ok,
    ensures
        0 <= n < c.setup.len() ==> in_turn(
            c.script()->Ok_0,
            ". "@ + quoted(c.setup[n]) + " && "@,
            c.run(),
        ),
        ends(
            c.script()->Ok_0,
            " > $out/output && _tmp=$out/output.tmp && while IFS= read -r _line; do printf '%s\\n' \"${_line//$_bs_workdir/$_orig_manifest_dir}\"; done < $out/output > $_tmp && mv $_tmp $out/output"@,
        ),
{
    let rest = lemma_parts(c);
    let s = c.script()->Ok_0;
    let last =
        " > $out/output && _tmp=$out/output.tmp && while IFS= read -r _line; do printf '%s\\n' \"${_line//$_bs_workdir/$_orig_manifest_dir}\"; done < $out/output > $_tmp && mv $_tmp $out/output"@;
    let before = c.head() + c.sys() + c.standard() + c.package() + c.deps() + c.workdir();
    assert(s.skip(s.len() - last.len()) =~= c.tail().skip(c.tail().len() - last.len()));
    if 0 <= n < c.setup.len() {
        let e = ". "@ + quoted(c.setup[n]) + " && "@;
        let aux = "export SCHNEE_AUX_DIR=$out/schnee-aux && "@;
        let setup = setup_fragment(c.setup);
        lemma_sourced(c.setup, n);
        lemma_holds_behind(aux, source_commands(c.setup), e);
        lemma_holds_behind(shim(), setup, e);
        lemma_holds_itself(c.run());
        lemma_holds_before(c.run(), rest, c.run());
        lemma_in_turn(shim() + setup, c.run() + rest, e, c.run());
        lemma_in_turn_behind(before, c.tail(), e, c.run());
    }
}

} // verus!
