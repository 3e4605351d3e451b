use cargo_schnee::cargo_unit::{
    compilation_identity, compute_cargo_envs, make_unit_key, unit_kind, unit_needs_linker, CargoDep,
    CargoMode, CargoUnit, FeatureRef,
};
use cargo_schnee::closure::close_dependencies;
use cargo_schnee::extract::extract_units;
use cargo_schnee::toposort::{toposort, TopoNode};
use cargo_schnee::units::UnitKind;

fn strings(v: &[&str]) -> Vec<String> {
    v.iter().map(|s| s.to_string()).collect()
}

fn node(key: &str, deps: &[&str]) -> TopoNode {
    TopoNode {
        key: key.to_string(),
        deps: strings(deps),
    }
}

fn cargo_unit(name: &str, features: &[&str], deps: &[(usize, &str)]) -> CargoUnit {
    CargoUnit {
        pkg_name: name.to_string(),
        pkg_version: "1.2.3".to_string(),
        version_major: 1,
        version_minor: 2,
        version_patch: 3,
        version_pre: String::new(),
        target_name: name.to_string(),
        mode: CargoMode::Build,
        is_custom_build: false,
        is_lib: true,
        for_host: false,
        edition: "2021".to_string(),
        crate_types: strings(&["lib"]),
        features: strings(features),
        deps: deps
            .iter()
            .map(|(unit, n)| CargoDep {
                unit: *unit,
                extern_name: n.to_string(),
            })
            .collect(),
        links: None,
        source_file: Some(format!("/src/{name}/src/lib.rs")),
        manifest_dir: format!("/src/{name}"),
        is_local: true,
        authors: strings(&["A", "B"]),
        description: None,
        homepage: None,
        repository: None,
        license: None,
        license_file: None,
        rust_version: None,
        readme: None,
        feature_table: vec![],
        dependencies: vec![],
        self_contained_build_script: false,
    }
}

#[test]
fn nodes_stand_behind_their_dependencies() {
    let nodes = vec![node("c", &["a", "b"]), node("b", &["a"]), node("a", &[])];
    assert_eq!(toposort(&nodes).unwrap(), vec![2, 1, 0]);
    // Among those that may come next the smallest key is taken.
    let free = vec![node("z", &[]), node("m", &[]), node("b", &[])];
    assert_eq!(toposort(&free).unwrap(), vec![2, 1, 0]);
}

#[test]
fn cycles_are_told() {
    let nodes = vec![node("a", &["b"]), node("b", &["a"]), node("c", &[])];
    let err = toposort(&nodes).unwrap_err();
    assert!(err.contains('a') && err.contains('b'), "{}", err);
}

#[test]
fn kinds_of_units() {
    let mut u = cargo_unit("x", &[], &[]);
    assert_eq!(unit_kind(&u), UnitKind::Compile);
    u.mode = CargoMode::Check { test: true };
    assert_eq!(unit_kind(&u), UnitKind::Check);
    u.mode = CargoMode::Test;
    assert_eq!(unit_kind(&u), UnitKind::TestCompile);
    u.mode = CargoMode::Doc;
    assert_eq!(unit_kind(&u), UnitKind::Doc);
    u.is_custom_build = true;
    u.mode = CargoMode::Build;
    assert_eq!(unit_kind(&u), UnitKind::BuildScriptCompile);
    u.mode = CargoMode::RunCustomBuild;
    assert_eq!(unit_kind(&u), UnitKind::BuildScriptRun);
}

#[test]
fn keys_tell_units_apart() {
    let u = cargo_unit("x", &["f"], &[]);
    assert_eq!(make_unit_key(&u), make_unit_key(&cargo_unit("x", &["f"], &[])));
    assert!(make_unit_key(&u).starts_with("x-1.2.3-x"));
    assert_ne!(make_unit_key(&u), make_unit_key(&cargo_unit("x", &["g"], &[])));
    let mut host = cargo_unit("x", &["f"], &[]);
    host.for_host = true;
    assert_ne!(compilation_identity(&u), compilation_identity(&host));
    assert_eq!(compilation_identity(&u), "x-1.2.3-x-2021-[\"lib\"]-f");
    assert_eq!(compilation_identity(&host), "x-1.2.3-x-host-2021-[\"lib\"]-f");
    host.crate_types = strings(&["rlib", "a\"b", "cdylib"]);
    let mut sorted = host.crate_types.clone();
    sorted.sort();
    assert_eq!(
        compilation_identity(&host),
        format!("x-1.2.3-x-host-2021-{sorted:?}-f")
    );
    host.crate_types = vec![];
    assert_eq!(compilation_identity(&host), "x-1.2.3-x-host-2021-[]-f");
}

#[test]
fn variables_of_a_package() {
    let envs = compute_cargo_envs(&cargo_unit("my-lib", &[], &[]));
    let get = |k: &str| envs.iter().find(|(n, _)| n == k).map(|(_, v)| v.as_str());
    assert_eq!(get("CARGO_PKG_NAME"), Some("my-lib"));
    assert_eq!(get("CARGO_CRATE_NAME"), Some("my_lib"));
    assert_eq!(get("CARGO_PKG_VERSION"), Some("1.2.3"));
    assert_eq!(get("CARGO_PKG_VERSION_MINOR"), Some("2"));
    assert_eq!(get("CARGO_PKG_AUTHORS"), Some("A:B"));
}

#[test]
fn what_is_linked() {
    assert!(unit_needs_linker(UnitKind::Compile, &strings(&["bin"])));
    assert!(unit_needs_linker(UnitKind::Compile, &strings(&["proc-macro"])));
    assert!(!unit_needs_linker(UnitKind::Compile, &strings(&["lib"])));
    assert!(!unit_needs_linker(UnitKind::Check, &strings(&["bin"])));
}

#[test]
fn units_are_extracted() {
    let units = vec![
        cargo_unit("app", &[], &[(1, "lib_a"), (2, "lib_a2")]),
        cargo_unit("lib-a", &["x"], &[]),
        cargo_unit("lib-b", &[], &[(1, "lib_a")]),
    ];
    let r = extract_units(&units, &vec![0], "/src", "/vendor").ok().unwrap();
    assert_eq!(r.len(), 3);
    let app = r.iter().find(|u| u.crate_name == "app").unwrap();
    assert!(app.is_root && app.is_local);
    assert_eq!(app.target_name, "app");
    assert_eq!(app.dep_extern.len(), 2);
    assert_eq!(app.source_file, "/src/app/src/lib.rs");
    let lib = r.iter().find(|u| u.crate_name == "lib_a").unwrap();
    assert!(!lib.is_root);
    assert_eq!(lib.features, strings(&["x"]));
    // Dependencies come first.
    let at = |n: &str| r.iter().position(|u| u.crate_name == n).unwrap();
    assert!(at("lib_a") < at("lib_b") && at("lib_b") < at("app"));
}

#[test]
fn feature_variants_become_one() {
    let mut units = vec![
        cargo_unit("app", &[], &[(1, "lib"), (3, "other")]),
        cargo_unit("lib", &["a"], &[]),
        cargo_unit("lib", &["b"], &[]),
        cargo_unit("other", &[], &[(2, "lib")]),
    ];
    units[0].is_lib = false;
    let r = extract_units(&units, &vec![0], "/src", "/vendor").ok().unwrap();
    let libs: Vec<_> = r.iter().filter(|u| u.crate_name == "lib").collect();
    assert_eq!(libs.len(), 1);
    assert_eq!(libs[0].features, strings(&["a", "b"]));
    // The merged unit stands where the first of its variants stood.
    let at = |n: &str| r.iter().position(|u| u.crate_name == n).unwrap();
    assert!(at("lib") < at("other") && at("other") < at("app"));
    for u in &r {
        for (_, k) in &u.dep_extern {
            assert!(r.iter().any(|v| v.key == *k));
        }
    }
}

#[test]
fn dependencies_that_only_a_feature_names() {
    let mut app = cargo_unit("app", &["serde"], &[]);
    app.feature_table = vec![(
        "serde".to_string(),
        vec![FeatureRef::Dep("serde".to_string())],
    )];
    app.dependencies = vec![("serde".to_string(), "serde".to_string())];
    let units = vec![app, cargo_unit("serde", &[], &[])];
    let r = extract_units(&units, &vec![0, 1], "/src", "/vendor").ok().unwrap();
    let app = r.iter().find(|u| u.crate_name == "app").unwrap();
    assert_eq!(app.dep_extern.len(), 1);
    assert_eq!(app.dep_extern[0].0, "serde");
}

#[test]
fn dependencies_are_closed() {
    let units = vec![
        cargo_unit("a", &[], &[(1, "b")]),
        cargo_unit("b", &[], &[(2, "c")]),
        cargo_unit("c", &[], &[]),
    ];
    let r = extract_units(&units, &vec![0], "/src", "/vendor").ok().unwrap();
    let closed = close_dependencies(r);
    let a = closed.iter().find(|u| u.crate_name == "a").unwrap();
    assert_eq!(a.all_dep_keys.len(), 2);
    let c = closed.iter().find(|u| u.crate_name == "c").unwrap();
    assert!(c.all_dep_keys.is_empty());
}
