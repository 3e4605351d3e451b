use cargo_schnee::placeholder::{
    downstream_placeholder, is_drv_sliceable, placeholder_from_digest, self_placeholder,
};
use cargo_schnee::run_script::build_run_script;
use cargo_schnee::scripts::{
    build_compile_script, build_doc_script, remap_args, setup_source_fragment,
    tmp_manifest_from_digest, tmp_manifest_path,
};
use cargo_schnee::strmap::{StrMap, TextMap};
use cargo_schnee::units::{NixUnit, ProfileConfig, TargetConfig, UnitKind};
use cargo_schnee::util::shell_quote;

// Rewrites the project's source root to `crates`.
fn root_remap() -> Vec<(String, String)> {
    vec![(String::new(), "crates".to_string())]
}

fn index(keys: &[&str]) -> StrMap<usize> {
    let mut m = StrMap::new();
    for (i, k) in keys.iter().enumerate() {
        m.insert(k.to_string(), i);
    }
    m
}

fn drv_map(pairs: &[(&str, &str)]) -> TextMap {
    let mut m = TextMap::new();
    for (k, v) in pairs {
        m.insert(k.to_string(), v.to_string());
    }
    m
}

#[test]
fn remap_non_sliced_root_maps_store_to_replacement() {
    let args = remap_args(&root_remap(), "/nix/store/h-project-src", None);
    assert_eq!(
        args,
        vec![
            "--remap-path-prefix".to_string(),
            shell_quote("/nix/store/h-project-src=crates"),
        ]
    );
}

#[test]
fn remap_sliced_root_preserves_member_dir() {
    // A per-crate-sliced unit's src_store is the flat `<hash>-<member>`
    // store. The root remap must target `crates/<member>`, not bare
    // `crates`, or the member directory is dropped and every crate's
    // `src/lib.rs` collapses to `crates/src/lib.rs`.
    let args = remap_args(
        &root_remap(),
        "/nix/store/h-skeptiva-ai-common",
        Some("skeptiva-ai-common"),
    );
    assert_eq!(
        args,
        vec![
            "--remap-path-prefix".to_string(),
            shell_quote("/nix/store/h-skeptiva-ai-common=crates/skeptiva-ai-common"),
        ]
    );
}

#[test]
fn remap_sliced_member_under_subdir() {
    let args = remap_args(
        &root_remap(),
        "/nix/store/h-msedge-shim",
        Some("crates/skeptiva-ai-msedge-shim"),
    );
    assert_eq!(
        args[1],
        shell_quote("/nix/store/h-msedge-shim=crates/crates/skeptiva-ai-msedge-shim"),
    );
}

#[test]
fn remap_non_root_entry_not_crate_rel_adjusted() {
    let remaps = vec![("sub/dir".to_string(), "X".to_string())];
    let args = remap_args(&remaps, "/nix/store/h-crate", Some("member"));
    assert_eq!(
        args,
        vec![
            "--remap-path-prefix".to_string(),
            shell_quote("/nix/store/h-crate/sub/dir=X"),
        ]
    );
}

#[test]
fn remap_sorts_shortest_src_relative_first() {
    // rustc resolves overlapping remaps "last matching wins", so the
    // most specific (longest src_relative) must be emitted last.
    let remaps = vec![
        ("aa/bb".to_string(), "deep".to_string()),
        (String::new(), "root".to_string()),
    ];
    let args = remap_args(&remaps, "/nix/store/h-src", None);
    assert_eq!(args[1], shell_quote("/nix/store/h-src=root"));
    assert_eq!(args[3], shell_quote("/nix/store/h-src/aa/bb=deep"));
}

#[test]
fn self_placeholder_format() {
    let ph = self_placeholder("out");
    assert_eq!(ph.len(), 53);
    assert!(ph.starts_with('/'));
    assert_eq!(ph, "/1rz4g4znpzjwh1xymhjpm42vipw92pr73vdgl6xs1hycac8kf2n9");
}

#[test]
fn self_placeholder_deterministic() {
    assert_eq!(self_placeholder("out"), self_placeholder("out"));
}

#[test]
fn self_placeholder_differs_by_name() {
    assert_ne!(self_placeholder("out"), self_placeholder("dev"));
}

#[test]
fn downstream_placeholder_format() {
    let drv_path = "/nix/store/aaaaaaaaaaaaaaaaaaaaaaaaaaaaaaaa-foo.drv";
    let ph = downstream_placeholder(drv_path, "out").unwrap();
    assert_eq!(ph.len(), 53);
    assert!(ph.starts_with('/'));
}

#[test]
fn downstream_placeholder_differs_by_output() {
    let drv_path = "/nix/store/aaaaaaaaaaaaaaaaaaaaaaaaaaaaaaaa-foo.drv";
    let out = downstream_placeholder(drv_path, "out").unwrap();
    let dev = downstream_placeholder(drv_path, "dev").unwrap();
    assert_ne!(out, dev);
}

#[test]
fn downstream_placeholder_short_path() {
    assert!(downstream_placeholder("/nix/store/short", "out").is_err());
}

#[test]
fn placeholders_need_characters_to_cut_at() {
    assert!(is_drv_sliceable("/nix/store/short"));
    assert!(is_drv_sliceable(
        "/nix/store/aaaaaaaaaaaaaaaaaaaaaaaaaaaaaaaa-foo.drv"
    ));
    assert!(!is_drv_sliceable(
        "/nix/store/aaaaaaaaaaaaaaaaaaaaaaaaaaaaaaaé-foo.drv"
    ));
    assert_eq!(placeholder_from_digest(&[0u8; 32]), format!("/{}", "0".repeat(52)));
}

// -- build_doc_script ---------------------------------------------------------

fn make_doc_unit(name: &str, features: &[&str], deps: &[(&str, &str)], is_local: bool) -> NixUnit {
    NixUnit {
        key: format!("{}-doc", name),
        drv_name: format!("{}-0.1.0-{}-doc", name, name),
        kind: UnitKind::Doc,
        source_file: format!("/nix/store/fake-src/{}/src/lib.rs", name),
        crate_name: name.replace('-', "_"),
        crate_types: vec!["lib".to_string()],
        edition: "2021".into(),
        features: features.iter().map(|f| f.to_string()).collect(),
        dep_extern: deps
            .iter()
            .map(|(ext, key)| (ext.to_string(), key.to_string()))
            .collect(),
        all_dep_keys: Vec::new(),
        build_script_dep: None,
        build_script_compile_key: None,
        manifest_dir: format!("/nix/store/fake-src/{}", name),
        original_manifest_dir: String::new(),
        cargo_envs: vec![("CARGO_PKG_NAME".into(), name.into())],
        extra_filename: "-abc123".into(),
        needs_linker: false,
        is_local,
        links: None,
        links_dep_keys: Vec::new(),
        is_root: true,
        target_name: name.to_string(),
        for_host: false,
        compile_test: false,
        self_contained_build_script: false,
        sliced_crate_rel: None,
        drv_path: None,
    }
}

fn doc_script(unit: NixUnit, private: bool, remaps: Vec<(String, String)>, setup: &[&str]) -> String {
    let keys = index(&[unit.key.as_str()]);
    let units = vec![unit];
    let setup: Vec<String> = setup.iter().map(|s| s.to_string()).collect();
    build_doc_script(
        &units[0],
        &units,
        &keys,
        &drv_map(&[]),
        "/nix/store/rustdoc-bin/bin/rustdoc",
        "/nix/store/rust-sysroot",
        "/nix/store/coreutils/bin",
        private,
        &remaps,
        "/nix/store/aaaaaaaaaaaaaaaaaaaaaaaaaaaaaaaa-project-src",
        &setup,
    )
    .unwrap()
}

#[test]
fn build_doc_script_basic_structure() {
    let script = doc_script(make_doc_unit("my-lib", &[], &[], true), false, vec![], &[]);

    // Must invoke rustdoc, not rustc
    assert!(script.contains("/nix/store/rustdoc-bin/bin/rustdoc"));
    assert!(!script.contains("rustc"));
    // Must include --output $out/doc
    assert!(script.contains("--output $out/doc"));
    // Must include --crate-name
    assert!(script.contains("--crate-name my_lib"));
    // Must include --edition
    assert!(script.contains("--edition 2021"));
    // Must include --crate-type
    assert!(script.contains("--crate-type lib"));
    // Must include --sysroot
    assert!(script.contains("--sysroot /nix/store/rust-sysroot"));
    // Must create $out/doc directory
    assert!(script.contains("mkdir"));
    assert!(script.contains("$out/doc"));
    // Must NOT have --emit (rustdoc doesn't use it)
    assert!(!script.contains("--emit"));
    // Must NOT have optimization flags
    assert!(!script.contains("opt-level"));
    // Must capture diagnostics
    assert!(script.contains("diagnostics"));
    // Must NOT have --document-private-items
    assert!(!script.contains("--document-private-items"));
    // With no remaps there is nothing to gate, so no unstable opt-in.
    assert!(!script.contains("-Z unstable-options"));
    assert!(!script.contains("RUSTC_BOOTSTRAP"));
}

#[test]
fn build_doc_script_remap_opts_into_unstable_options() {
    let script = doc_script(
        make_doc_unit("my-lib", &[], &[], true),
        false,
        root_remap(),
        &[],
    );

    // rustdoc gates `--remap-path-prefix` behind `-Z unstable-options`,
    // which the stable-reporting toolchain only accepts with
    // `RUSTC_BOOTSTRAP` set.
    assert!(script.contains("--remap-path-prefix"));
    assert!(script.contains("-Z unstable-options"));
    assert!(script.contains("export RUSTC_BOOTSTRAP=1 &&"));
}

#[test]
fn build_doc_script_private_items() {
    let script = doc_script(make_doc_unit("my-lib", &[], &[], true), true, vec![], &[]);
    assert!(script.contains("--document-private-items"));
}

#[test]
fn build_doc_script_private_items_skipped_for_deps() {
    let script = doc_script(make_doc_unit("serde", &[], &[], false), true, vec![], &[]);
    // --document-private-items should only apply to local crates
    assert!(!script.contains("--document-private-items"));
}

#[test]
fn build_doc_script_with_features() {
    let script = doc_script(
        make_doc_unit("my-lib", &["serde", "async"], &[], true),
        false,
        vec![],
        &[],
    );
    assert!(script.contains(r#"--cfg 'feature="serde"'"#));
    assert!(script.contains(r#"--cfg 'feature="async"'"#));
}

#[test]
fn build_doc_script_cap_lints_for_deps() {
    let script = doc_script(make_doc_unit("serde", &[], &[], false), false, vec![], &[]);
    assert!(script.contains("--cap-lints allow"));
}

#[test]
fn build_doc_script_no_cap_lints_for_local() {
    let script = doc_script(make_doc_unit("my-lib", &[], &[], true), false, vec![], &[]);
    assert!(!script.contains("--cap-lints"));
}

// -- unit setup scripts -------------------------------------------------------

const SETUP_A: &str = "/nix/store/bbbbbbbbbbbbbbbbbbbbbbbbbbbbbbbb-setup-a.sh";
const SETUP_B: &str = "/nix/store/cccccccccccccccccccccccccccccccc-setup-b.sh";
const SRC_STORE: &str = "/nix/store/aaaaaaaaaaaaaaaaaaaaaaaaaaaaaaaa-project-src";

fn make_check_unit(name: &str) -> NixUnit {
    let mut unit = make_doc_unit(name, &[], &[], true);
    unit.kind = UnitKind::Check;
    unit.key = format!("{}-check", name);
    unit
}

fn check_script(setup_scripts: &[String]) -> String {
    let units = vec![make_check_unit("my-lib")];
    build_compile_script(
        &units[0],
        &units,
        &index(&["my-lib-check"]),
        &drv_map(&[]),
        "/nix/store/rustc-bin/bin/rustc",
        "/nix/store/rust-sysroot",
        "/nix/store/coreutils/bin",
        "/nix/store/cc/bin",
        &ProfileConfig::dev(),
        &TargetConfig::native("x86_64"),
        &vec![],
        &vec![],
        &vec![],
        SRC_STORE,
        &setup_scripts.to_vec(),
    )
    .unwrap()
}

#[test]
fn check_script_sources_setup_between_envs_and_driver() {
    // The sourcing fragment sits after the CARGO_MANIFEST_DIR export
    // and before the driver invocation, with `mkdir -p $out` and the
    // SCHNEE_AUX_DIR export preceding it — so a script's exports are
    // readable, $out exists, and its exports reach the driver.
    let script = check_script(&[SETUP_A.to_string()]);
    let manifest = script.find("export CARGO_MANIFEST_DIR=").unwrap();
    let mkdir = script
        .find("/nix/store/coreutils/bin/mkdir -p $out && ")
        .unwrap();
    let aux = script
        .find("export SCHNEE_AUX_DIR=$out/schnee-aux && ")
        .unwrap();
    let source = script.find(&format!(". {} && ", SETUP_A)).unwrap();
    let driver = script.find("/nix/store/rustc-bin/bin/rustc").unwrap();
    assert!(manifest < mkdir, "mkdir must follow the cargo env exports");
    assert!(mkdir < aux, "$out must exist before SCHNEE_AUX_DIR is set");
    assert!(
        aux < source,
        "SCHNEE_AUX_DIR must be exported before sourcing"
    );
    assert!(
        source < driver,
        "scripts must source before the driver runs"
    );
}

#[test]
fn check_script_sources_two_scripts_in_list_order() {
    let script = check_script(&[SETUP_A.to_string(), SETUP_B.to_string()]);
    let a = script.find(&format!(". {} && ", SETUP_A)).unwrap();
    let b = script.find(&format!(". {} && ", SETUP_B)).unwrap();
    assert!(a < b, "matched scripts must source in rule order");
}

#[test]
fn check_script_without_setup_is_byte_identical_to_pre_feature_shape() {
    // No matched scripts: no hook artefacts at all, and the mkdir
    // stays directly adjacent to the driver invocation.
    let script = check_script(&[]);
    assert!(!script.contains("SCHNEE_AUX_DIR"));
    assert!(
        script.contains("/nix/store/coreutils/bin/mkdir -p $out && /nix/store/rustc-bin/bin/rustc")
    );
    // And the with-scripts variant differs only by the inserted
    // fragment: removing it restores the byte-identical script.
    let with = check_script(&[SETUP_A.to_string()]);
    let fragment = format!("export SCHNEE_AUX_DIR=$out/schnee-aux && . {} && ", SETUP_A);
    assert_eq!(with.replacen(&fragment, "", 1), script);
}

#[test]
fn doc_script_sources_setup_between_mkdir_and_rustdoc() {
    let script = doc_script(
        make_doc_unit("my-lib", &[], &[], true),
        false,
        vec![],
        &[SETUP_A],
    );
    let mkdir = script
        .find("/nix/store/coreutils/bin/mkdir -p $out/doc && ")
        .unwrap();
    let aux = script
        .find("export SCHNEE_AUX_DIR=$out/schnee-aux && ")
        .unwrap();
    let source = script.find(&format!(". {} && ", SETUP_A)).unwrap();
    let driver = script.find("/nix/store/rustdoc-bin/bin/rustdoc").unwrap();
    assert!(mkdir < aux && aux < source && source < driver);
}

fn run_script(crate_name: Option<&str>, setup: &[&str]) -> String {
    let mut bs_compile = make_doc_unit("my-lib", &[], &[], true);
    bs_compile.kind = UnitKind::BuildScriptCompile;
    bs_compile.key = "my-lib-bsc".into();
    if let Some(name) = crate_name {
        bs_compile.crate_name = name.into();
    }
    bs_compile.crate_types = vec!["bin".into()];
    let mut run = make_doc_unit("my-lib", &[], &[], true);
    run.kind = UnitKind::BuildScriptRun;
    run.key = "my-lib-bsr".into();
    run.build_script_compile_key = Some("my-lib-bsc".into());
    let units = vec![bs_compile, run];
    let setup: Vec<String> = setup.iter().map(|s| s.to_string()).collect();
    build_run_script(
        &units[1],
        &units,
        &index(&["my-lib-bsc", "my-lib-bsr"]),
        &drv_map(&[(
            "my-lib-bsc",
            "/nix/store/dddddddddddddddddddddddddddddddd-bs.drv",
        )]),
        "/nix/store/coreutils/bin/mkdir",
        "/nix/store/coreutils",
        "/nix/store/rustc-bin/bin/rustc",
        "/nix/store/cc/bin",
        &None,
        "",
        &ProfileConfig::dev(),
        &TargetConfig::native("x86_64"),
        &vec![],
        &vec![],
        &vec![],
        &vec![],
        SRC_STORE,
        false,
        &setup,
    )
    .unwrap()
}

#[test]
fn run_script_sources_setup_before_build_script_binary() {
    let script = run_script(Some("build_script_build"), &[SETUP_A]);
    let mkdir = script
        .find("/nix/store/coreutils/bin/mkdir -p $out $out/out_dir && ")
        .unwrap();
    let manifest = script.rfind("export CARGO_MANIFEST_DIR=").unwrap();
    let aux = script
        .find("export SCHNEE_AUX_DIR=$out/schnee-aux && ")
        .unwrap();
    let source = script.find(&format!(". {} && ", SETUP_A)).unwrap();
    let exec = script.find("cd $_bs_workdir && LD_PRELOAD=").unwrap();
    assert!(mkdir < aux, "$out must exist before SCHNEE_AUX_DIR is set");
    assert!(
        manifest < aux,
        "the hook must follow the workdir-rewritten CARGO_MANIFEST_DIR export"
    );
    assert!(aux < source && source < exec);
}

#[test]
fn run_script_without_setup_has_no_hook_artefacts() {
    let script = run_script(None, &[]);
    assert!(!script.contains("SCHNEE_AUX_DIR"));
    assert!(script.contains("_wdirs.c -ldl && cd $_bs_workdir"));
}

#[test]
fn setup_fragment_of_scripts() {
    assert_eq!(setup_source_fragment(&vec![]), "");
    assert_eq!(
        setup_source_fragment(&vec!["/a".to_string(), "/b".to_string()]),
        "export SCHNEE_AUX_DIR=$out/schnee-aux && . /a && . /b && "
    );
}

#[test]
fn manifest_links_are_deterministic() {
    assert_eq!(
        tmp_manifest_from_digest(&[0xab; 32]),
        "/tmp/_schnee_md_abababababababab"
    );
    let p = tmp_manifest_path("/home/user/project");
    assert!(p.starts_with("/tmp/_schnee_md_"));
    assert_eq!(p.len(), "/tmp/_schnee_md_".len() + 16);
    assert_ne!(p, tmp_manifest_path("/home/user/other"));
}
