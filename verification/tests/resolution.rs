use cargo_schnee::resolution::{
    narrow_to_requested_roots, subtract, unit_package_name, ResolutionScope, ResolutionSpec,
};
use cargo_schnee::units::{NixUnit, UnitKind};

fn scope() -> ResolutionScope {
    ResolutionScope {
        key: "x86_64-pc-windows-msvc".into(),
        spec: ResolutionSpec::Workspace,
    }
}

fn strings(v: &[&str]) -> Vec<String> {
    v.iter().map(|s| s.to_string()).collect()
}

fn unit(key: &str, pkg: &str, kind: UnitKind, is_root: bool) -> NixUnit {
    NixUnit {
        key: key.to_string(),
        drv_name: key.to_string(),
        kind,
        source_file: String::new(),
        crate_name: pkg.replace('-', "_"),
        crate_types: vec!["lib".to_string()],
        edition: "2021".to_string(),
        features: vec![],
        dep_extern: vec![],
        all_dep_keys: vec![],
        build_script_dep: None,
        build_script_compile_key: None,
        manifest_dir: String::new(),
        original_manifest_dir: String::new(),
        cargo_envs: vec![("CARGO_PKG_NAME".to_string(), pkg.to_string())],
        extra_filename: String::new(),
        needs_linker: false,
        is_local: true,
        links: None,
        links_dep_keys: vec![],
        is_root,
        target_name: pkg.to_string(),
        for_host: false,
        compile_test: false,
        self_contained_build_script: false,
        sliced_crate_rel: None,
        drv_path: None,
    }
}

fn keys(units: &[NixUnit]) -> Vec<&str> {
    units.iter().map(|u| u.key.as_str()).collect()
}

fn error_of(r: Result<Vec<NixUnit>, String>) -> String {
    match r {
        Ok(_) => panic!("no error"),
        Err(e) => e,
    }
}

/// Two scope roots sharing a dependency: asking for one keeps the
/// shared dep and drops the sibling's exclusive subtree.
#[test]
fn siblings_are_pruned_but_shared_deps_survive() {
    let mut a = unit("a", "a", UnitKind::Compile, true);
    a.dep_extern = vec![("shared".into(), "shared".into())];
    let mut b = unit("b", "b", UnitKind::Compile, true);
    b.dep_extern = vec![
        ("shared".into(), "shared".into()),
        ("only_b".into(), "only-b".into()),
    ];
    let units = vec![
        a,
        b,
        unit("shared", "shared", UnitKind::Compile, false),
        unit("only-b", "only-b", UnitKind::Compile, false),
    ];
    let kept = narrow_to_requested_roots(units, &strings(&["a"]), &vec![], &scope())
        .ok()
        .unwrap();
    assert_eq!(keys(&kept), vec!["a", "shared"]);
    assert!(kept[0].is_root);
    assert!(!kept[1].is_root);
}

/// `all_dep_keys` skips BuildScriptRun units and `links_dep_keys` is
/// populated only on them, so a walk over either alone loses edges.
#[test]
fn links_deps_are_followed_off_build_script_runs() {
    let mut root = unit("root", "root", UnitKind::Compile, true);
    root.build_script_dep = Some("run".into());
    let mut run = unit("run", "root", UnitKind::BuildScriptRun, false);
    run.build_script_compile_key = Some("bsc".into());
    run.links_dep_keys = vec![("sys-run".into(), "z".into())];
    let units = vec![
        root,
        run,
        unit("bsc", "root", UnitKind::BuildScriptCompile, false),
        unit("sys-run", "z-sys", UnitKind::BuildScriptRun, false),
        unit("unrelated", "unrelated", UnitKind::Compile, false),
    ];
    let kept = narrow_to_requested_roots(units, &strings(&["root"]), &vec![], &scope())
        .ok()
        .unwrap();
    assert_eq!(keys(&kept), vec!["root", "run", "bsc", "sys-run"]);
}

/// A links dep that resolves to nothing would silently cost the build
/// script its `DEP_*` environment, so it is an error, not a skip.
#[test]
fn dangling_links_dep_is_an_error() {
    let mut root = unit("root", "root", UnitKind::Compile, true);
    root.build_script_dep = Some("run".into());
    let mut run = unit("run", "root", UnitKind::BuildScriptRun, false);
    run.links_dep_keys = vec![("gone".into(), "z".into())];
    let err = error_of(narrow_to_requested_roots(
        vec![root, run],
        &strings(&["root"]),
        &vec![],
        &scope(),
    ));
    assert!(err.contains("DEP_*"), "{err}");
}

#[test]
fn requesting_a_non_scope_package_names_the_manifest_key() {
    let units = vec![unit("a", "a", UnitKind::Compile, true)];
    let err = error_of(narrow_to_requested_roots(
        units,
        &strings(&["b"]),
        &vec![],
        &scope(),
    ));
    assert!(
        err.contains("workspace.metadata.schnee.resolution.x86_64-pc-windows-msvc"),
        "{err}",
    );
}

/// No `-p` means "every root in the scope", so nothing is narrowed.
#[test]
fn empty_request_keeps_the_whole_scope() {
    let units = vec![
        unit("a", "a", UnitKind::Compile, true),
        unit("orphan", "orphan", UnitKind::Compile, false),
    ];
    let kept = narrow_to_requested_roots(units, &vec![], &vec![], &scope())
        .ok()
        .unwrap();
    assert_eq!(keys(&kept), vec!["a", "orphan"]);
}

/// Excluding everything that was requested selects nothing, which is an
/// error.  Treating it as "no request" would invert the selection and
/// build every root in the scope except the excluded one.
#[test]
fn requesting_and_excluding_the_same_package_is_an_error() {
    let units = vec![
        unit("a", "a", UnitKind::Compile, true),
        unit("b", "b", UnitKind::Compile, true),
    ];
    let err = error_of(narrow_to_requested_roots(
        units,
        &strings(&["a"]),
        &strings(&["a"]),
        &scope(),
    ));
    assert!(err.contains("selects nothing to build"), "{err}");
}

#[test]
fn excluded_roots_leave_the_scope() {
    let units = vec![
        unit("a", "a", UnitKind::Compile, true),
        unit("b", "b", UnitKind::Compile, true),
    ];
    let kept = narrow_to_requested_roots(units, &vec![], &strings(&["a"]), &scope())
        .ok()
        .unwrap();
    assert_eq!(keys(&kept), vec!["b"]);
}

#[test]
fn selections_as_keys_of_the_cache() {
    let s = |spec| ResolutionScope { key: "k".into(), spec };
    assert_eq!(s(ResolutionSpec::Workspace).cache_component(), "scope:k:workspace");
    assert_eq!(
        s(ResolutionSpec::Exclude(strings(&["x", "y"]))).cache_component(),
        "scope:k:exclude=x,y"
    );
}

#[test]
fn names_and_lists() {
    assert_eq!(unit_package_name(&unit("k", "pkg", UnitKind::Doc, false)), "pkg");
    assert_eq!(
        subtract(&strings(&["a", "b", "c"]), &strings(&["b"])),
        strings(&["a", "c"])
    );
}
