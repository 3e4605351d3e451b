use cargo_schnee::aggregator::construct_aggregator_drv;
use cargo_schnee::aterm::compute_drv_store_path;
use cargo_schnee::closure::close_dependencies;
use cargo_schnee::derivation::{construct_derivation, BuildTools};
use cargo_schnee::graph::key_index;
use cargo_schnee::planner::{plan_units, prepare_units};
use cargo_schnee::registration::{
    cache_misses, ensure_path_match, register_next, register_start, verify_path, PlanContext,
    RegisterAction, RegisterEvent,
};
use cargo_schnee::resolution::{ResolutionScope, ResolutionSpec};
use cargo_schnee::setup::UnitSetupRule;
use cargo_schnee::slices::{assign_per_crate_src_stores, crates_to_slice};
use cargo_schnee::strmap::TextMap;
use cargo_schnee::units::{NixUnit, ProfileConfig, TargetConfig, UnitKind};

const SRC: &str = "/nix/store/aaaaaaaaaaaaaaaaaaaaaaaaaaaaaaaa-project-src";

fn unit(name: &str, deps: &[&str], is_local: bool, is_root: bool) -> NixUnit {
    NixUnit {
        key: format!("{name}-key"),
        drv_name: format!("{name}-1.0.0-{name}"),
        kind: UnitKind::Compile,
        source_file: format!("{SRC}/{name}/src/lib.rs"),
        crate_name: name.to_string(),
        crate_types: vec!["lib".to_string()],
        edition: "2021".to_string(),
        features: vec![],
        dep_extern: deps
            .iter()
            .map(|d| (d.to_string(), format!("{d}-key")))
            .collect(),
        all_dep_keys: vec![],
        build_script_dep: None,
        build_script_compile_key: None,
        manifest_dir: format!("{SRC}/{name}"),
        original_manifest_dir: String::new(),
        cargo_envs: vec![("CARGO_PKG_NAME".to_string(), name.to_string())],
        extra_filename: "-0123456789abcdef".to_string(),
        needs_linker: false,
        is_local,
        links: None,
        links_dep_keys: vec![],
        is_root,
        target_name: name.to_string(),
        for_host: false,
        compile_test: false,
        self_contained_build_script: false,
        sliced_crate_rel: None,
        drv_path: None,
    }
}

fn tools(clippy: bool) -> BuildTools {
    BuildTools {
        bash_path: "/nix/store/bbbbbbbbbbbbbbbbbbbbbbbbbbbbbbbb-bash/bin/bash".to_string(),
        bash_store: "/nix/store/bbbbbbbbbbbbbbbbbbbbbbbbbbbbbbbb-bash".to_string(),
        rustc_path: "/nix/store/cccccccccccccccccccccccccccccccc-rustc/bin/rustc".to_string(),
        rustdoc_path: String::new(),
        resolved_sysroot: "/nix/store/cccccccccccccccccccccccccccccccc-rustc".to_string(),
        mkdir_path: "/nix/store/dddddddddddddddddddddddddddddddd-coreutils/bin/mkdir".to_string(),
        coreutils_store: "/nix/store/dddddddddddddddddddddddddddddddd-coreutils".to_string(),
        system: "x86_64-linux".to_string(),
        rustc_closure: vec!["/nix/store/cccccccccccccccccccccccccccccccc-rustc".to_string()],
        pkg_config_dir: None,
        pkg_config_path: String::new(),
        sys_build_closure: vec![],
        cfg_envs: vec![],
        host_cfg_envs: vec![],
        custom_sys_env: vec![],
        passthru_envs: vec![],
        vendor_store: String::new(),
        win_sdk_lib_dirs: vec![],
        win_sdk_closure: vec![],
        document_private_items: false,
        passthru_closure: vec![],
        clippy_path: if clippy {
            Some("/nix/store/ffffffffffffffffffffffffffffffff-clippy/bin/clippy-driver".to_string())
        } else {
            None
        },
        clippy_closure: vec!["/nix/store/ffffffffffffffffffffffffffffffff-clippy".to_string()],
        clippy_lint_args: vec!["--deny".to_string(), "warnings".to_string()],
        path_prefix_remaps: vec![],
    }
}

fn context(clippy: bool, rules: Vec<UnitSetupRule>) -> PlanContext {
    PlanContext {
        tools: tools(clippy),
        host_cc_bin_dir: "/nix/store/gggggggggggggggggggggggggggggggg-cc/bin".to_string(),
        host_cc_closure: vec!["/nix/store/gggggggggggggggggggggggggggggggg-cc".to_string()],
        target_cc_bin_dir: "/nix/store/gggggggggggggggggggggggggggggggg-cc/bin".to_string(),
        target_cc_closure: vec!["/nix/store/gggggggggggggggggggggggggggggggg-cc".to_string()],
        profile: ProfileConfig::dev(),
        target: TargetConfig::native("x86_64"),
        rules,
    }
}

fn graph() -> Vec<NixUnit> {
    close_dependencies(vec![
        unit("app", &["lib", "dep"], true, true),
        unit("lib", &["dep"], true, false),
        unit("dep", &[], false, false),
    ])
}

fn plan(clippy: bool, rules: Vec<UnitSetupRule>) -> Vec<NixUnit> {
    let mut units = graph();
    let stores = vec![SRC.to_string(); 3];
    plan_units(&mut units, &context(clippy, rules), &stores, &vec![false; 3])
        .ok()
        .unwrap();
    units
}

#[test]
fn a_graph_is_planned_level_by_level() {
    let mut units = graph();
    let stores = vec![SRC.to_string(); 3];
    let (levels, roots) = plan_units(
        &mut units,
        &context(false, vec![]),
        &stores,
        &vec![false; 3],
    )
    .ok()
    .unwrap();
    let order: Vec<Vec<usize>> = levels
        .iter()
        .map(|l| l.iter().map(|u| u.i).collect())
        .collect();
    assert_eq!(order, vec![vec![2], vec![1], vec![0]]);
    for level in &levels {
        for u in level {
            assert_eq!(u.drv_file_name, format!("{}.drv", units[u.i].drv_name));
            assert_eq!(
                u.drv_path,
                compute_drv_store_path(&u.drv_file_name, &u.aterm, &u.refs)
            );
            assert_eq!(units[u.i].drv_path.as_deref(), Some(u.drv_path.as_str()));
        }
    }
    // The upper derivations refer to the lower ones.
    assert!(levels[2][0].refs.contains(&levels[0][0].drv_path));
    assert!(levels[2][0].refs.contains(&levels[1][0].drv_path));
    assert_eq!(roots.len(), 1);
    assert_eq!(roots[0].0, levels[2][0].drv_path);
    assert_eq!(roots[0].1, "app");
    assert_eq!(roots[0].2, UnitKind::Compile);
}

#[test]
fn linting_spares_dependencies() {
    let plain = plan(false, vec![]);
    let linted = plan(true, vec![]);
    assert_ne!(plain[0].drv_path, linted[0].drv_path);
    assert_ne!(plain[1].drv_path, linted[1].drv_path);
    assert_eq!(plain[2].drv_path, linted[2].drv_path);
}

#[test]
fn linting_spares_documentation() {
    let plan_one = |clippy: bool, kind: UnitKind| {
        let mut u = unit("app", &[], true, true);
        u.kind = kind;
        let mut units = close_dependencies(vec![u]);
        plan_units(
            &mut units,
            &context(clippy, vec![]),
            &vec![SRC.to_string()],
            &vec![false],
        )
        .ok()
        .unwrap();
        units[0].drv_path.clone()
    };
    assert_eq!(plan_one(false, UnitKind::Doc), plan_one(true, UnitKind::Doc));
    assert_ne!(plan_one(false, UnitKind::Check), plan_one(true, UnitKind::Check));
}

#[test]
fn rules_change_only_what_they_match() {
    let rule = |package: &str| UnitSetupRule {
        package: package.to_string(),
        kinds: vec![UnitKind::Compile],
        targets: None,
        script: "/nix/store/hhhhhhhhhhhhhhhhhhhhhhhhhhhhhhhh-setup.sh".to_string(),
    };
    let plain = plan(false, vec![]);
    let other = plan(false, vec![rule("unknown")]);
    let app = plan(false, vec![rule("app")]);
    for i in 0..3 {
        assert_eq!(plain[i].drv_path, other[i].drv_path);
    }
    assert_ne!(plain[0].drv_path, app[0].drv_path);
    assert_eq!(plain[1].drv_path, app[1].drv_path);
}

fn plan_with(units: Vec<NixUnit>, stores: &[&str], vendor: &str) -> Vec<NixUnit> {
    let mut units = close_dependencies(units);
    let stores: Vec<String> = stores.iter().map(|s| s.to_string()).collect();
    let parents = vec![false; units.len()];
    let mut cx = context(false, vec![]);
    cx.tools.vendor_store = vendor.to_string();
    plan_units(&mut units, &cx, &stores, &parents).ok().unwrap();
    units
}

#[test]
fn a_changed_crate_spares_those_that_do_not_read_it() {
    let stores = ["/nix/store/a", "/nix/store/b", "/nix/store/c"];
    let graph = || {
        vec![
            unit("app", &["lib"], true, true),
            unit("lib", &[], true, false),
            unit("other", &[], true, true),
        ]
    };
    let before = plan_with(graph(), &stores, "");
    let mut edited = graph();
    edited[1].source_file = "/nix/store/edited/src/lib.rs".to_string();
    let after = plan_with(edited, &[stores[0], "/nix/store/edited", stores[2]], "");
    assert_ne!(before[1].drv_path, after[1].drv_path);
    // The change reaches what reads the crate, and nothing else.
    assert_ne!(before[0].drv_path, after[0].drv_path);
    assert_eq!(before[2].drv_path, after[2].drv_path);
}

#[test]
fn a_sliced_crate_does_not_know_the_whole_source() {
    let slice = |src: &str, sibling: &str| {
        let mut units = vec![
            unit("lib", &[], true, true),
            unit("other", &[], true, true),
        ];
        for u in &mut units {
            u.source_file = format!("{src}/crates/{}/src/lib.rs", u.crate_name);
            u.manifest_dir = format!("{src}/crates/{}", u.crate_name);
        }
        let slices = crates_to_slice(&units, src, "");
        assert_eq!(slices[0].path(), format!("{src}/crates/lib"));
        let given = vec!["/nix/store/lib".to_string(), sibling.to_string()];
        let stores = assign_per_crate_src_stores(&mut units, src, "", &given);
        (units, stores)
    };
    let (before, stores) = slice("/nix/store/before", "/nix/store/o1");
    let (after, stores_after) = slice("/nix/store/after", "/nix/store/o2");
    assert_eq!(before[0].source_file, "/nix/store/lib/src/lib.rs");
    assert_eq!(before[0].source_file, after[0].source_file);
    assert_eq!(before[0].manifest_dir, after[0].manifest_dir);
    assert_eq!(stores[0], stores_after[0]);
    assert_ne!(before[1].source_file, after[1].source_file);
}

#[test]
fn an_updated_dependency_spares_those_that_do_not_have_it() {
    let mut linked = unit("tool", &[], true, true);
    linked.needs_linker = true;
    let before = plan_with(
        vec![
            unit("lib", &["old"], true, true),
            unit("old", &[], false, false),
            unit("other", &[], true, true),
            linked.clone(),
        ],
        &["/nix/store/a", "/nix/store/o", "/nix/store/c", "/nix/store/d"],
        "/nix/store/vendor-one",
    );
    // Units come and go and stand elsewhere.
    let after = plan_with(
        vec![
            unit("other", &[], true, true),
            unit("new", &["extra"], false, false),
            linked,
            unit("extra", &[], false, false),
            unit("lib", &["new"], true, true),
        ],
        &["/nix/store/c", "/nix/store/n", "/nix/store/d", "/nix/store/e", "/nix/store/a"],
        "/nix/store/vendor-two",
    );
    assert_eq!(before[2].drv_path, after[0].drv_path);
    assert_ne!(before[0].drv_path, after[4].drv_path);
    // A linked unit takes the directory of the vendored dependencies with it.
    assert_ne!(before[3].drv_path, after[2].drv_path);
}

#[test]
fn a_plan_without_units_fails() {
    let mut units: Vec<NixUnit> = vec![];
    let r = plan_units(&mut units, &context(false, vec![]), &vec![], &vec![]);
    assert_eq!(r.err().unwrap(), "No units to build");
}

#[test]
fn units_are_prepared() {
    let mut units = graph();
    units[0].drv_path = Some("/nix/store/old.drv".to_string());
    let scope = ResolutionScope {
        key: "default".to_string(),
        spec: ResolutionSpec::Workspace,
    };
    let ready = prepare_units(
        units,
        Some(SRC),
        "/nix/store/new-src",
        Some(&scope),
        &vec!["app".to_string()],
        &vec![],
        Some("/home/me/project"),
    )
    .ok()
    .unwrap();
    assert_eq!(ready.len(), 3);
    assert_eq!(ready[0].source_file, "/nix/store/new-src/app/src/lib.rs");
    assert_eq!(ready[0].original_manifest_dir, "/home/me/project/app");
    assert_eq!(ready[0].drv_path, None);

    let err = prepare_units(
        graph(),
        None,
        SRC,
        Some(&scope),
        &vec!["gone".to_string()],
        &vec![],
        None,
    )
    .err()
    .unwrap();
    assert!(err.contains("workspace.metadata.schnee.resolution.default"));
}

#[test]
fn the_derivation_of_a_unit() {
    let units = vec![unit("dep", &[], false, true)];
    let json = construct_derivation(
        &units,
        0,
        &key_index(&units),
        &TextMap::new(),
        &tools(false),
        "/nix/store/gggggggggggggggggggggggggggggggg-cc/bin",
        &vec![],
        &ProfileConfig::dev(),
        &TargetConfig::native("x86_64"),
        SRC,
        false,
        &vec![],
    )
    .ok()
    .unwrap();
    assert_eq!(json.get_str("name").unwrap(), "dep-1.0.0-dep");
    assert_eq!(json.get_str("system").unwrap(), "x86_64-linux");
    let srcs = json.get_array("inputSrcs").unwrap();
    // The source, rustc, coreutils and bash.
    assert_eq!(srcs.len(), 4);
    assert!(json.get_object("inputDrvs").unwrap().is_empty());
}

#[test]
fn roots_are_linked_by_one_derivation() {
    let roots = vec![
        (
            "/nix/store/aaaaaaaaaaaaaaaaaaaaaaaaaaaaaaaa-a.drv".to_string(),
            "a".to_string(),
            UnitKind::Compile,
        ),
        (
            "/nix/store/bbbbbbbbbbbbbbbbbbbbbbbbbbbbbbbb-b.drv".to_string(),
            "b".to_string(),
            UnitKind::TestCompile,
        ),
    ];
    let json = construct_aggregator_drv("p", "build", &roots, "x86_64-linux", "/b", "/bs", "/cs")
        .ok()
        .unwrap();
    assert_eq!(json.get_str("name").unwrap(), "p-build-aggregator");
    assert_eq!(json.get_object("inputDrvs").unwrap().len(), 2);
    let env = json.get("env").unwrap();
    assert_eq!(env.get_str("rootNames").unwrap(), "a\nb");
    assert_eq!(env.get_str("rootOuts").unwrap().split(' ').count(), 2);
    let short = vec![("/x".to_string(), "a".to_string(), UnitKind::Compile)];
    assert!(construct_aggregator_drv("p", "i", &short, "s", "/b", "/bs", "/cs").is_err());
}

// -- registering --------------------------------------------------------------------

#[test]
fn registering_falls_back() {
    let mut units = vec![unit("dep", &[], false, true)];
    let (mut levels, _) = plan_units(
        &mut units,
        &context(false, vec![]),
        &vec![SRC.to_string()],
        &vec![false],
    )
    .ok()
    .unwrap();
    let u = levels.pop().unwrap().pop().unwrap();

    // A connection that works.
    let first = register_start(true);
    assert!(matches!(first, RegisterAction::UseConnection));
    let next = register_next(&u, &first, RegisterEvent::Added(u.drv_path.clone()));
    assert!(matches!(&next, RegisterAction::Finish(p, _) if *p == u.drv_path));

    // One that breaks: a new connection is tried, and then the command line tool.
    let next = register_next(&u, &first, RegisterEvent::Failed("broken".to_string()));
    assert!(matches!(next, RegisterAction::Reconnect));
    let again = register_next(&u, &next, RegisterEvent::Connected);
    assert!(matches!(again, RegisterAction::UseNewConnection));
    let cli = register_next(&u, &next, RegisterEvent::Failed("refused".to_string()));
    assert!(matches!(cli, RegisterAction::UseCli));
    let failed = register_next(&u, &cli, RegisterEvent::Failed("no nix".to_string()));
    assert!(matches!(failed, RegisterAction::Abort(m, Some(c))
        if m == "Failed to add derivation for dep-key" && c == "no nix"));
    assert!(matches!(register_start(false), RegisterAction::UseCli));

    // Another path is never taken.
    let other = register_next(&u, &first, RegisterEvent::Added("/nix/store/x.drv".to_string()));
    assert!(matches!(other, RegisterAction::Abort(_, _)));
    assert!(ensure_path_match(&u.drv_path, &u).is_ok());
    assert!(ensure_path_match("/nix/store/x.drv", &u).is_err());
    assert!(verify_path(&u, &u.drv_path, &vec![]).is_ok());
    let said = verify_path(&u, "/nix/store/x.drv", &u.aterm).unwrap_err();
    assert!(said.contains("aterm matches .drv content: true"), "{}", said);

    let valid = vec![u.drv_path.clone()];
    assert!(cache_misses(vec![u], &valid).is_empty());
}
