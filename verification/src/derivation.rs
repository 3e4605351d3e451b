//! The derivation of a unit.
use crate::graph::{
    append_opt, append_strings, clone_firsts, clone_seconds, firsts, opt_seq, seconds,
};
use crate::json::{lemma_view_object, member_views, text, text_array, texts, Json, JsonView};
use crate::placeholder::{own_placeholder, self_placeholder, text_view, TextResult};
use crate::run_script::{build_run_script, run_script, script_known};
use crate::scripts::{
    build_compile_script, build_doc_script, compile_script, concat2, deps_known, doc_script,
    extra_filename_ok, plan_ok,
};
use crate::strmap::{StrMap, TextMap};
use crate::text::{clone_strings, owned, sorted_set, sorted_unique, views};
use crate::units::{
    list_has, opt_view, pair_views, unit_views, NixUnit, ProfileConfig, TargetConfig, UnitKind,
    UnitView,
};
use crate::util::{collect_store_paths, lemma_insert_all, store_roots};
use vstd::prelude::*;

verus! {

// ---------------------------------------------------------------------------
// Input derivations
// ---------------------------------------------------------------------------

/// The build scripts of the transitive dependencies of a unit, whose link
/// directives it reads.
pub open spec fn linked_scripts(
    us: Seq<UnitView>,
    idx: Map<Seq<char>, usize>,
    keys: Seq<Seq<char>>,
) -> Seq<Seq<char>>
    decreases keys.len(),
{
    if keys.len() == 0 {
        Seq::empty()
    } else {
        let before = linked_scripts(us, idx, keys.drop_last());
        if idx.contains_key(keys.last()) {
            before + opt_seq(us[idx[keys.last()] as int].build_script_dep)
        } else {
            before
        }
    }
}

/// The keys of the units whose outputs a unit reads.
pub open spec fn input_keys(
    u: UnitView,
    us: Seq<UnitView>,
    idx: Map<Seq<char>, usize>,
) -> Seq<Seq<char>> {
    seconds(u.dep_extern) + u.all_dep_keys + opt_seq(u.build_script_dep) + opt_seq(
        u.build_script_compile_key,
    ) + firsts(u.links_dep_keys) + (if u.needs_linker && u.kind != UnitKind::BuildScriptRun {
        linked_scripts(us, idx, u.all_dep_keys)
    } else {
        Seq::empty()
    })
}

/// The derivations of the keys that were registered, each once.
pub open spec fn input_drvs(drvs: Map<Seq<char>, Seq<char>>, keys: Seq<Seq<char>>) -> Seq<Seq<char>>
    decreases keys.len(),
{
    if keys.len() == 0 {
        Seq::empty()
    } else {
        let before = input_drvs(drvs, keys.drop_last());
        let k = keys.last();
        if drvs.contains_key(k) && !before.contains(drvs[k]) {
            before.push(drvs[k])
        } else {
            before
        }
    }
}

fn collect_linked_scripts(
    units: &Vec<NixUnit>,
    key_to_idx: &StrMap<usize>,
    keys: &Vec<String>,
) -> (r: Vec<String>)
    requires
        forall|k: Seq<char>| #[trigger]
            key_to_idx@.contains_key(k) ==> key_to_idx@[k] < units@.len(),
    ensures
        views(r@) == linked_scripts(unit_views(units@), key_to_idx@, views(keys@)),
{
    let ghost us = unit_views(units@);
    let ghost idx = key_to_idx@;
    let ghost ks = views(keys@);
    let mut r: Vec<String> = Vec::new();
    let mut i: usize = 0;
    assert(views(r@) =~= Seq::empty());
    while i < keys.len()
        invariant
            us == unit_views(units@),
            idx == key_to_idx@,
            forall|k: Seq<char>| #[trigger] idx.contains_key(k) ==> idx[k] < us.len(),
            ks == views(keys@),
            i <= keys@.len(),
            views(r@) == linked_scripts(us, idx, ks.take(i as int)),
        decreases keys@.len() - i,
    {
        assert(ks.take(i + 1).drop_last() =~= ks.take(i as int));
        if let Some(j) = key_to_idx.get(keys[i].as_str()) {
            append_opt(&mut r, &units[*j].build_script_dep);
        }
        i = i + 1;
    }
    assert(ks.take(ks.len() as int) =~= ks);
    r
}

fn collect_input_keys(unit: &NixUnit, units: &Vec<NixUnit>, key_to_idx: &StrMap<usize>) -> (r: Vec<
    String,
>)
    requires
        forall|k: Seq<char>| #[trigger]
            key_to_idx@.contains_key(k) ==> key_to_idx@[k] < units@.len(),
    ensures
        views(r@) == input_keys(unit@, unit_views(units@), key_to_idx@),
{
    let mut r = clone_seconds(&unit.dep_extern);
    append_strings(&mut r, clone_strings(&unit.all_dep_keys));
    append_opt(&mut r, &unit.build_script_dep);
    append_opt(&mut r, &unit.build_script_compile_key);
    append_strings(&mut r, clone_firsts(&unit.links_dep_keys));
    let ghost before = views(r@);
    if unit.needs_linker && unit.kind != UnitKind::BuildScriptRun {
        append_strings(&mut r, collect_linked_scripts(units, key_to_idx, &unit.all_dep_keys));
    } else {
        assert(before + Seq::<Seq<char>>::empty() =~= before);
    }
    r
}

fn collect_input_drvs(keys: &Vec<String>, dep_drv_map: &TextMap) -> (r: Vec<String>)
    ensures
        views(r@) == input_drvs(dep_drv_map@, views(keys@)),
{
    let ghost drvs = dep_drv_map@;
    let ghost ks = views(keys@);
    let mut r: Vec<String> = Vec::new();
    let mut i: usize = 0;
    assert(views(r@) =~= Seq::empty());
    while i < keys.len()
        invariant
            drvs == dep_drv_map@,
            ks == views(keys@),
            i <= keys@.len(),
            views(r@) == input_drvs(drvs, ks.take(i as int)),
        decreases keys@.len() - i,
    {
        assert(ks.take(i + 1).drop_last() =~= ks.take(i as int));
        if let Some(drv) = dep_drv_map.get(keys[i].as_str()) {
            if !list_has(&r, drv.as_str()) {
                let ghost before = views(r@);
                r.push(drv.clone());
                assert(views(r@) =~= before.push(drv@));
            }
        }
        i = i + 1;
    }
    assert(ks.take(ks.len() as int) =~= ks);
    r
}

/// What is taken from an input derivation: its only output.
pub open spec fn input_drv_json() -> JsonView {
    JsonView::Object(
        seq![
            ("dynamicOutputs"@, JsonView::Object(Seq::empty())),
            ("outputs"@, text_array(seq!["out"@])),
        ],
    )
}

/// The input derivations as an object.
pub open spec fn input_drvs_json(paths: Seq<Seq<char>>) -> JsonView {
    JsonView::Object(Seq::new(paths.len(), |i: int| (paths[i], input_drv_json())))
}

fn make_input_drv() -> (r: Json)
    ensures
        r@ == input_drv_json(),
{
    let mut out: Vec<String> = Vec::new();
    out.push(owned("out"));
    assert(views(out@) =~= seq!["out"@]);
    let none: Vec<(String, Json)> = Vec::new();
    proof {
        lemma_view_object(none);
        assert(member_views(none@) =~= Seq::empty());
    }
    let mut m: Vec<(String, Json)> = Vec::new();
    m.push((owned("dynamicOutputs"), Json::Object(none)));
    m.push((owned("outputs"), texts(&out)));
    proof {
        lemma_view_object(m);
        assert(member_views(m@) =~= input_drv_json()->Object_0);
    }
    Json::Object(m)
}

/// Writes the input derivations as an object.
pub fn make_input_drvs(paths: &Vec<String>) -> (r: Json)
    ensures
        r@ == input_drvs_json(views(paths@)),
{
    let mut m: Vec<(String, Json)> = Vec::new();
    let mut i: usize = 0;
    while i < paths.len()
        invariant
            i <= paths@.len(),
            m@.len() == i,
            forall|j: int|
                0 <= j < i ==> (#[trigger] m@[j]).0@ == paths@[j]@ && m@[j].1@ == input_drv_json(),
        decreases paths@.len() - i,
    {
        m.push((paths[i].clone(), make_input_drv()));
        i = i + 1;
    }
    proof {
        lemma_view_object(m);
        assert(member_views(m@) =~= input_drvs_json(views(paths@))->Object_0);
    }
    Json::Object(m)
}

// ---------------------------------------------------------------------------
// Input sources
// ---------------------------------------------------------------------------

/// What is mounted into the sandbox of a unit beside its inputs: the compiler,
/// the tools it runs, and what it links against.
pub open spec fn tool_sources(
    u: UnitView,
    rustc_closure: Seq<Seq<char>>,
    lints: bool,
    clippy_closure: Seq<Seq<char>>,
    coreutils_store: Seq<char>,
    bash_store: Seq<char>,
    cc_closure: Seq<Seq<char>>,
    sys_build_closure: Seq<Seq<char>>,
    win_sdk_closure: Seq<Seq<char>>,
    vendor_store: Seq<char>,
    passthru_closure: Seq<Seq<char>>,
) -> Seq<Seq<char>> {
    let run = u.kind == UnitKind::BuildScriptRun;
    rustc_closure + (if lints {
        clippy_closure
    } else {
        Seq::empty()
    }) + seq![coreutils_store, bash_store] + (if u.needs_linker || run {
        cc_closure + sys_build_closure
    } else {
        Seq::empty()
    }) + (if u.needs_linker && !u.for_host {
        win_sdk_closure
    } else {
        Seq::empty()
    }) + (if (run || u.needs_linker) && vendor_store.len() > 0 {
        seq![vendor_store]
    } else {
        Seq::empty()
    }) + (if run {
        passthru_closure
    } else {
        Seq::empty()
    })
}

fn extend_clone(r: &mut Vec<String>, more: &Vec<String>, wanted: bool)
    ensures
        views(final(r)@) == views(old(r)@) + (if wanted {
            views(more@)
        } else {
            Seq::empty()
        }),
{
    if wanted {
        append_strings(r, clone_strings(more));
    } else {
        assert(views(r@) + Seq::<Seq<char>>::empty() =~= views(r@));
    }
}

fn collect_tool_sources(
    unit: &NixUnit,
    rustc_closure: &Vec<String>,
    lints: bool,
    clippy_closure: &Vec<String>,
    coreutils_store: &str,
    bash_store: &str,
    cc_closure: &Vec<String>,
    sys_build_closure: &Vec<String>,
    win_sdk_closure: &Vec<String>,
    vendor_store: &str,
    passthru_closure: &Vec<String>,
) -> (r: Vec<String>)
    ensures
        views(r@) == tool_sources(
            unit@,
            views(rustc_closure@),
            lints,
            views(clippy_closure@),
            coreutils_store@,
            bash_store@,
            views(cc_closure@),
            views(sys_build_closure@),
            views(win_sdk_closure@),
            vendor_store@,
            views(passthru_closure@),
        ),
{
    let run = unit.kind == UnitKind::BuildScriptRun;
    let mut r = clone_strings(rustc_closure);
    extend_clone(&mut r, clippy_closure, lints);
    let ghost before = views(r@);
    r.push(owned(coreutils_store));
    r.push(owned(bash_store));
    assert(views(r@) =~= before + seq![coreutils_store@, bash_store@]);
    let linked = unit.needs_linker || run;
    let ghost before = views(r@);
    extend_clone(&mut r, cc_closure, linked);
    extend_clone(&mut r, sys_build_closure, linked);
    assert(views(r@) =~= before + (if linked {
        views(cc_closure@) + views(sys_build_closure@)
    } else {
        Seq::empty()
    }));
    extend_clone(&mut r, win_sdk_closure, unit.needs_linker && !unit.for_host);
    let ghost before = views(r@);
    if (run || unit.needs_linker) && !vendor_store.is_empty() {
        r.push(owned(vendor_store));
        assert(views(r@) =~= before + seq![vendor_store@]);
    } else {
        assert(before + Seq::<Seq<char>>::empty() =~= before);
    }
    extend_clone(&mut r, passthru_closure, run);
    r
}

// ---------------------------------------------------------------------------
// The derivation
// ---------------------------------------------------------------------------

/// The environment of a derivation: the placeholder of its output, and that it
/// is built locally.
pub open spec fn env_json() -> JsonView {
    JsonView::Object(
        seq![
            ("out"@, JsonView::Text(own_placeholder("out"@))),
            ("preferLocalBuild"@, JsonView::Text("1"@)),
            ("allowSubstitutes"@, JsonView::Text(""@)),
        ],
    )
}

fn make_env() -> (r: Json)
    ensures
        r@ == env_json(),
{
    let mut m: Vec<(String, Json)> = Vec::new();
    let ph = self_placeholder("out");
    m.push((owned("out"), text(ph.as_str())));
    m.push((owned("preferLocalBuild"), text("1")));
    m.push((owned("allowSubstitutes"), text("")));
    proof {
        lemma_view_object(m);
        assert(member_views(m@) =~= env_json()->Object_0);
    }
    Json::Object(m)
}

/// The outputs of a derivation: one, whose path its contents decide.
pub open spec fn outputs_json() -> JsonView {
    JsonView::Object(
        seq![
            (
                "out"@,
                JsonView::Object(
                    seq![
                        ("hashAlgo"@, JsonView::Text("sha256"@)),
                        ("method"@, JsonView::Text("nar"@)),
                    ],
                ),
            ),
        ],
    )
}

/// Writes the outputs of a derivation.
pub fn make_outputs() -> (r: Json)
    ensures
        r@ == outputs_json(),
{
    let mut out: Vec<(String, Json)> = Vec::new();
    out.push((owned("hashAlgo"), text("sha256")));
    out.push((owned("method"), text("nar")));
    proof {
        lemma_view_object(out);
        assert(member_views(out@) =~= seq![
            ("hashAlgo"@, JsonView::Text("sha256"@)),
            ("method"@, JsonView::Text("nar"@)),
        ]);
    }
    let mut m: Vec<(String, Json)> = Vec::new();
    m.push((owned("out"), Json::Object(out)));
    proof {
        lemma_view_object(m);
        assert(member_views(m@) =~= outputs_json()->Object_0);
    }
    Json::Object(m)
}

/// A derivation that runs a shell script.
pub open spec fn derivation_json(
    name: Seq<char>,
    system: Seq<char>,
    builder: Seq<char>,
    script: Seq<char>,
    drvs: Seq<Seq<char>>,
    srcs: Seq<Seq<char>>,
) -> JsonView {
    JsonView::Object(
        seq![
            ("name"@, JsonView::Text(name)),
            ("system"@, JsonView::Text(system)),
            ("builder"@, JsonView::Text(builder)),
            ("args"@, text_array(seq!["-c"@, script])),
            ("env"@, env_json()),
            ("inputDrvs"@, input_drvs_json(drvs)),
            ("inputSrcs"@, text_array(srcs)),
            ("outputs"@, outputs_json()),
        ],
    )
}

/// Writes a derivation that runs a shell script.
pub fn make_derivation(
    name: &str,
    system: &str,
    builder: &str,
    script: &str,
    drvs: &Vec<String>,
    srcs: &Vec<String>,
) -> (r: Json)
    ensures
        r@ == derivation_json(name@, system@, builder@, script@, views(drvs@), views(srcs@)),
{
    let mut args: Vec<String> = Vec::new();
    args.push(owned("-c"));
    args.push(owned(script));
    assert(views(args@) =~= seq!["-c"@, script@]);
    let mut m: Vec<(String, Json)> = Vec::new();
    m.push((owned("name"), text(name)));
    m.push((owned("system"), text(system)));
    m.push((owned("builder"), text(builder)));
    m.push((owned("args"), texts(&args)));
    m.push((owned("env"), make_env()));
    m.push((owned("inputDrvs"), make_input_drvs(drvs)));
    m.push((owned("inputSrcs"), texts(srcs)));
    m.push((owned("outputs"), make_outputs()));
    proof {
        lemma_view_object(m);
        assert(member_views(m@) =~= derivation_json(
            name@,
            system@,
            builder@,
            script@,
            views(drvs@),
            views(srcs@),
        )->Object_0);
    }
    Json::Object(m)
}

/// A unit is linted: a crate of the project that is compiled while a lint driver
/// is given.
pub open spec fn is_linted(u: UnitView, clippy_path: Option<Seq<char>>) -> bool {
    clippy_path is Some && u.is_local && u.kind != UnitKind::Doc && u.kind
        != UnitKind::BuildScriptRun
}

/// The tools and settings of a build, which all its units share.
pub struct BuildTools {
    /// The shell that runs the scripts, and the store path that holds it.
    pub bash_path: String,
    pub bash_store: String,
    pub rustc_path: String,
    pub rustdoc_path: String,
    pub resolved_sysroot: String,
    pub mkdir_path: String,
    pub coreutils_store: String,
    /// Nix system string of the build machine.
    pub system: String,
    pub rustc_closure: Vec<String>,
    /// The directory of pkg-config.
    pub pkg_config_dir: Option<String>,
    pub pkg_config_path: String,
    pub sys_build_closure: Vec<String>,
    pub cfg_envs: Vec<(String, String)>,
    pub host_cfg_envs: Vec<(String, String)>,
    pub custom_sys_env: Vec<(String, String)>,
    pub passthru_envs: Vec<(String, String)>,
    pub vendor_store: String,
    pub win_sdk_lib_dirs: Vec<String>,
    pub win_sdk_closure: Vec<String>,
    pub document_private_items: bool,
    pub passthru_closure: Vec<String>,
    /// The lint driver that takes rustc's place for crates of the project.
    pub clippy_path: Option<String>,
    pub clippy_closure: Vec<String>,
    pub clippy_lint_args: Vec<String>,
    /// Pairs of a path below the project's source and what replaces it in
    /// diagnostics.
    pub path_prefix_remaps: Vec<(String, String)>,
}

/// The script of a unit.
#[verifier::opaque]
pub open spec fn unit_script(
    u: UnitView,
    us: Seq<UnitView>,
    idx: Map<Seq<char>, usize>,
    drvs: Map<Seq<char>, Seq<char>>,
    t: BuildTools,
    cc_bin_dir: Seq<char>,
    profile: ProfileConfig,
    target: TargetConfig,
    src_store: Seq<char>,
    has_parent: bool,
    setup: Seq<Seq<char>>,
) -> TextResult {
    let bin_dir = t.coreutils_store@ + "/bin"@;
    if u.kind == UnitKind::BuildScriptRun {
        run_script(
            u,
            us,
            idx,
            drvs,
            t.mkdir_path@,
            t.coreutils_store@,
            t.rustc_path@,
            cc_bin_dir,
            opt_view(t.pkg_config_dir),
            t.pkg_config_path@,
            profile,
            target,
            pair_views(t.cfg_envs@),
            pair_views(t.host_cfg_envs@),
            pair_views(t.custom_sys_env@),
            pair_views(t.passthru_envs@),
            src_store,
            has_parent,
            setup,
        )
    } else if u.kind == UnitKind::Doc {
        doc_script(
            u,
            us,
            idx,
            drvs,
            t.rustdoc_path@,
            t.resolved_sysroot@,
            bin_dir,
            t.document_private_items,
            pair_views(t.path_prefix_remaps@),
            src_store,
            setup,
        )
    } else {
        let linted = is_linted(u, opt_view(t.clippy_path));
        compile_script(
            u,
            us,
            idx,
            drvs,
            if linted {
                t.clippy_path->0@
            } else {
                t.rustc_path@
            },
            t.resolved_sysroot@,
            bin_dir,
            cc_bin_dir,
            profile,
            target,
            views(t.win_sdk_lib_dirs@),
            if linted {
                views(t.clippy_lint_args@)
            } else {
                Seq::empty()
            },
            pair_views(t.path_prefix_remaps@),
            src_store,
            setup,
        )
    }
}

/// What must hold of a plan for the script of a unit to be written.
pub open spec fn unit_ready(
    u: UnitView,
    us: Seq<UnitView>,
    idx: Map<Seq<char>, usize>,
    drvs: Map<Seq<char>, Seq<char>>,
) -> bool {
    &&& plan_ok(us, idx, drvs)
    &&& if u.kind == UnitKind::BuildScriptRun {
        script_known(u, idx, drvs)
    } else {
        deps_known(u, idx, drvs) && extra_filename_ok(u)
    }
}

fn build_script_of(
    unit: &NixUnit,
    units: &Vec<NixUnit>,
    key_to_idx: &StrMap<usize>,
    dep_drv_map: &TextMap,
    t: &BuildTools,
    cc_bin_dir: &str,
    profile: &ProfileConfig,
    target: &TargetConfig,
    src_store: &str,
    has_parent: bool,
    setup_scripts: &Vec<String>,
) -> (r: Result<String, String>)
    requires
        unit_ready(unit@, unit_views(units@), key_to_idx@, dep_drv_map@),
    ensures
        text_view(r) == unit_script(
            unit@,
            unit_views(units@),
            key_to_idx@,
            dep_drv_map@,
            *t,
            cc_bin_dir@,
            *profile,
            *target,
            src_store@,
            has_parent,
            views(setup_scripts@),
        ),
{
    proof {
        reveal(unit_script);
    }
    let bin_dir = concat2(t.coreutils_store.as_str(), "/bin");
    match unit.kind {
        UnitKind::BuildScriptRun => build_run_script(
            unit,
            units,
            key_to_idx,
            dep_drv_map,
            t.mkdir_path.as_str(),
            t.coreutils_store.as_str(),
            t.rustc_path.as_str(),
            cc_bin_dir,
            &t.pkg_config_dir,
            t.pkg_config_path.as_str(),
            profile,
            target,
            &t.cfg_envs,
            &t.host_cfg_envs,
            &t.custom_sys_env,
            &t.passthru_envs,
            src_store,
            has_parent,
            setup_scripts,
        ),
        UnitKind::Doc => build_doc_script(
            unit,
            units,
            key_to_idx,
            dep_drv_map,
            t.rustdoc_path.as_str(),
            t.resolved_sysroot.as_str(),
            bin_dir.as_str(),
            t.document_private_items,
            &t.path_prefix_remaps,
            src_store,
            setup_scripts,
        ),
        _ => {
            let none: Vec<String> = Vec::new();
            assert(views(none@) =~= Seq::empty());
            let linted = t.clippy_path.is_some() && unit.is_local;
            let driver = match &t.clippy_path {
                Some(p) => if unit.is_local {
                    p.as_str()
                } else {
                    t.rustc_path.as_str()
                },
                None => t.rustc_path.as_str(),
            };
            build_compile_script(
                unit,
                units,
                key_to_idx,
                dep_drv_map,
                driver,
                t.resolved_sysroot.as_str(),
                bin_dir.as_str(),
                cc_bin_dir,
                profile,
                target,
                &t.win_sdk_lib_dirs,
                if linted {
                    &t.clippy_lint_args
                } else {
                    &none
                },
                &t.path_prefix_remaps,
                src_store,
                setup_scripts,
            )
        },
    }
}

/// The input sources of a unit whose script is known: the tools it needs, and every
/// store path that the script mentions.
pub open spec fn unit_sources(
    u: UnitView,
    t: BuildTools,
    cc_closure: Seq<Seq<char>>,
    script: Seq<char>,
) -> Seq<Seq<char>> {
    sorted_set(
        tool_sources(
            u,
            views(t.rustc_closure@),
            is_linted(u, opt_view(t.clippy_path)),
            views(t.clippy_closure@),
            t.coreutils_store@,
            t.bash_store@,
            cc_closure,
            views(t.sys_build_closure@),
            views(t.win_sdk_closure@),
            t.vendor_store@,
            views(t.passthru_closure@),
        ) + store_roots(script, script.len()),
    )
}

/// The derivation of a unit whose script is known.
pub open spec fn unit_derivation(
    u: UnitView,
    us: Seq<UnitView>,
    idx: Map<Seq<char>, usize>,
    drvs: Map<Seq<char>, Seq<char>>,
    t: BuildTools,
    cc_closure: Seq<Seq<char>>,
    script: Seq<char>,
) -> JsonView {
    derivation_json(
        u.drv_name,
        t.system@,
        t.bash_path@,
        script,
        input_drvs(drvs, input_keys(u, us, idx)),
        unit_sources(u, t, cc_closure, script),
    )
}

/// Builds the derivation of a unit. Its inputs are the derivations of the units
/// whose outputs it reads, and its sources the tools and every store path that
/// its script mentions. The linker stands in `cc_bin_dir`.
pub fn construct_derivation(
    units: &Vec<NixUnit>,
    idx: usize,
    key_to_idx: &StrMap<usize>,
    dep_drv_map: &TextMap,
    tools: &BuildTools,
    cc_bin_dir: &str,
    cc_closure: &Vec<String>,
    profile: &ProfileConfig,
    target: &TargetConfig,
    src_store: &str,
    has_parent: bool,
    setup_scripts: &Vec<String>,
) -> (r: Result<Json, String>)
    requires
        idx < units@.len(),
        unit_ready(units@[idx as int]@, unit_views(units@), key_to_idx@, dep_drv_map@),
    ensures
        match (r, unit_script(
            units@[idx as int]@,
            unit_views(units@),
            key_to_idx@,
            dep_drv_map@,
            *tools,
            cc_bin_dir@,
            *profile,
            *target,
            src_store@,
            has_parent,
            views(setup_scripts@),
        )) {
            (Ok(j), Ok(script)) => j@ == unit_derivation(
                units@[idx as int]@,
                unit_views(units@),
                key_to_idx@,
                dep_drv_map@,
                *tools,
                views(cc_closure@),
                script,
            ),
            (Err(e), Err(m)) => e@ == m,
            _ => false,
        },
{
    let unit = &units[idx];
    let script = match build_script_of(
        unit,
        units,
        key_to_idx,
        dep_drv_map,
        tools,
        cc_bin_dir,
        profile,
        target,
        src_store,
        has_parent,
        setup_scripts,
    ) {
        Ok(s) => s,
        Err(e) => return Err(e),
    };
    let keys = collect_input_keys(unit, units, key_to_idx);
    let drvs = collect_input_drvs(&keys, dep_drv_map);
    let lints = tools.clippy_path.is_some() && unit.is_local && unit.kind != UnitKind::Doc
        && unit.kind != UnitKind::BuildScriptRun;
    let sources = collect_tool_sources(
        unit,
        &tools.rustc_closure,
        lints,
        &tools.clippy_closure,
        tools.coreutils_store.as_str(),
        tools.bash_store.as_str(),
        cc_closure,
        &tools.sys_build_closure,
        &tools.win_sdk_closure,
        tools.vendor_store.as_str(),
        &tools.passthru_closure,
    );
    let mut srcs = sorted_unique(&sources);
    collect_store_paths(script.as_str(), &mut srcs);
    proof {
        lemma_insert_all(views(sources@), store_roots(script@, script@.len()));
    }
    Ok(
        make_derivation(
            unit.drv_name.as_str(),
            tools.system.as_str(),
            tools.bash_path.as_str(),
            script.as_str(),
            &drvs,
            &srcs,
        ),
    )
}

} // verus!
