use cargo_schnee::extract::find_missing_feature_deps;
use cargo_schnee::graph::{compute_topo_levels, is_acyclic, unit_dep_keys};
use cargo_schnee::strmap::StrMap;
use cargo_schnee::unify::{feature_agnostic_group_key, unify_feature_variants};
use cargo_schnee::unit_key::{compute_extra_filename, mode_suffix_for_drv_name, short_hash};
use cargo_schnee::units::{
    extract_cfg_envs, local_compile_drv_paths, Cfg, NixUnit, ProfileConfig, TargetConfig, UnitKind,
};
use cargo_schnee::util::sanitize_drv_name;
use sha2::{Digest, Sha256};

fn strings(v: &[&str]) -> Vec<String> {
    v.iter().map(|s| s.to_string()).collect()
}

/// A minimal unit with the fields that unification and levels look at.
fn make_unit(name: &str, version: &str, features: &[&str], deps: &[(&str, &str)]) -> NixUnit {
    let feats: Vec<String> = features.iter().map(|f| f.to_string()).collect();
    let crate_types = vec!["lib".to_string()];
    let extra_filename = compute_extra_filename(name, version, name, &feats, &crate_types);
    let identity = format!(
        "{}-{}-{}-{}-{:?}-{}",
        name,
        version,
        name,
        "2021",
        crate_types,
        feats.join(","),
    );
    let hash = Sha256::digest(identity.as_bytes());
    let short_hash = format!(
        "{:016x}",
        u64::from_le_bytes(hash[..8].try_into().expect("8 bytes"))
    );
    let key = sanitize_drv_name(&format!("{}-{}-{}-{}", name, version, name, short_hash));
    NixUnit {
        key,
        drv_name: format!("{}-{}-{}", name, version, name),
        kind: UnitKind::Compile,
        source_file: format!("/nix/store/fake/{}/src/lib.rs", name),
        crate_name: name.replace('-', "_"),
        crate_types,
        edition: "2021".into(),
        features: feats,
        dep_extern: deps
            .iter()
            .map(|(ext, key)| (ext.to_string(), key.to_string()))
            .collect(),
        all_dep_keys: Vec::new(),
        build_script_dep: None,
        build_script_compile_key: None,
        manifest_dir: format!("/nix/store/fake/{}", name),
        original_manifest_dir: String::new(),
        cargo_envs: vec![
            ("CARGO_PKG_NAME".into(), name.into()),
            ("CARGO_PKG_VERSION".into(), version.into()),
            ("CARGO_CRATE_NAME".into(), name.replace('-', "_")),
        ],
        extra_filename,
        needs_linker: false,
        is_local: false,
        links: None,
        links_dep_keys: Vec::new(),
        is_root: false,
        target_name: String::new(),
        for_host: false,
        compile_test: false,
        self_contained_build_script: false,
        sliced_crate_rel: None,
        drv_path: None,
    }
}

// -- feature_agnostic_group_key -----------------------------------------------

#[test]
fn group_key_same_for_different_features() {
    let a = make_unit("proc-macro2", "1.0.106", &["default"], &[]);
    let b = make_unit(
        "proc-macro2",
        "1.0.106",
        &["default", "span-locations"],
        &[],
    );
    assert_eq!(
        feature_agnostic_group_key(&a),
        feature_agnostic_group_key(&b)
    );
}

#[test]
fn group_key_differs_for_different_crates() {
    let a = make_unit("proc-macro2", "1.0.106", &["default"], &[]);
    let b = make_unit("quote", "1.0.40", &["default"], &[]);
    assert_ne!(
        feature_agnostic_group_key(&a),
        feature_agnostic_group_key(&b)
    );
}

#[test]
fn group_key_differs_for_host_vs_target() {
    let mut a = make_unit("proc-macro2", "1.0.106", &["default"], &[]);
    let b = make_unit("proc-macro2", "1.0.106", &["default"], &[]);
    a.for_host = true;
    assert_ne!(
        feature_agnostic_group_key(&a),
        feature_agnostic_group_key(&b)
    );
}

#[test]
fn group_key_differs_for_different_kinds() {
    let mut a = make_unit("foo", "1.0.0", &[], &[]);
    let b = make_unit("foo", "1.0.0", &[], &[]);
    a.kind = UnitKind::TestCompile;
    assert_ne!(
        feature_agnostic_group_key(&a),
        feature_agnostic_group_key(&b)
    );
}

// -- unify_feature_variants -----------------------------------------------------

#[test]
fn unify_noop_when_no_duplicates() {
    let mut units = vec![
        make_unit("serde", "1.0.0", &["default", "derive"], &[]),
        make_unit("quote", "1.0.0", &["default"], &[]),
    ];
    let keys_before: Vec<String> = units.iter().map(|u| u.key.clone()).collect();
    unify_feature_variants(&mut units);
    assert_eq!(units.len(), 2);
    let keys_after: Vec<String> = units.iter().map(|u| u.key.clone()).collect();
    assert_eq!(keys_before, keys_after);
}

#[test]
fn unify_merges_feature_variants() {
    let mut units = vec![
        make_unit("proc-macro2", "1.0.106", &["default", "proc-macro"], &[]),
        make_unit(
            "proc-macro2",
            "1.0.106",
            &["default", "proc-macro", "span-locations"],
            &[],
        ),
    ];
    unify_feature_variants(&mut units);
    assert_eq!(units.len(), 1, "should merge into one unit");
    assert_eq!(
        units[0].features,
        vec!["default", "proc-macro", "span-locations"],
        "features should be the union"
    );
}

#[test]
fn unify_merges_non_subset_features() {
    // Features {A, B} and {A, C} → {A, B, C}
    let mut units = vec![
        make_unit("foo", "1.0.0", &["a", "b"], &[]),
        make_unit("foo", "1.0.0", &["a", "c"], &[]),
    ];
    unify_feature_variants(&mut units);
    assert_eq!(units.len(), 1);
    assert_eq!(units[0].features, vec!["a", "b", "c"]);
}

#[test]
fn unify_redirects_dep_edges() {
    // Simulate the proc_macro2 scenario:
    //   pm2_v1 (key "pm2-v1") — features {default}
    //   pm2_v2 (key "pm2-v2") — features {default, span-locations}
    //   quote  depends on pm2_v1
    //   attr   depends on pm2_v2
    // After unification, both quote and attr should point to the SAME pm2 key.
    let mut pm2_v1 = make_unit("proc-macro2", "1.0.0", &["default"], &[]);
    pm2_v1.key = "pm2-v1".into();
    let mut pm2_v2 = make_unit("proc-macro2", "1.0.0", &["default", "span-locations"], &[]);
    pm2_v2.key = "pm2-v2".into();

    let mut quote = make_unit("quote", "1.0.0", &["default"], &[("proc_macro2", "pm2-v1")]);
    quote.key = "quote-key".into();

    let mut attr = make_unit(
        "proc-macro-error-attr2",
        "2.0.0",
        &["default"],
        &[("proc_macro2", "pm2-v2"), ("quote", "quote-key")],
    );
    attr.key = "attr-key".into();

    let mut units = vec![pm2_v1, pm2_v2, quote, attr];
    unify_feature_variants(&mut units);

    // pm2 variants merged into one
    let pm2_units: Vec<_> = units
        .iter()
        .filter(|u| u.crate_name == "proc_macro2")
        .collect();
    assert_eq!(pm2_units.len(), 1, "pm2 should be merged into one unit");
    let merged_pm2_key = &pm2_units[0].key;

    // Both quote and attr should now reference the same pm2 key
    let quote_unit = units.iter().find(|u| u.crate_name == "quote").unwrap();
    let attr_unit = units
        .iter()
        .find(|u| u.crate_name == "proc_macro_error_attr2")
        .unwrap();

    let quote_pm2_dep = quote_unit
        .dep_extern
        .iter()
        .find(|(name, _)| name == "proc_macro2")
        .map(|(_, k)| k.as_str());
    let attr_pm2_dep = attr_unit
        .dep_extern
        .iter()
        .find(|(name, _)| name == "proc_macro2")
        .map(|(_, k)| k.as_str());

    assert_eq!(
        quote_pm2_dep,
        Some(merged_pm2_key.as_str()),
        "quote's proc_macro2 dep should point to merged key"
    );
    assert_eq!(
        attr_pm2_dep,
        Some(merged_pm2_key.as_str()),
        "attr's proc_macro2 dep should point to merged key"
    );
    assert_eq!(
        quote_pm2_dep, attr_pm2_dep,
        "quote and attr must agree on which proc_macro2 they link"
    );
}

#[test]
fn unify_preserves_root_status() {
    let mut a = make_unit("my-bin", "0.1.0", &["feat-a"], &[]);
    a.is_root = true;
    a.target_name = "my-bin".into();
    let b = make_unit("my-bin", "0.1.0", &["feat-a", "feat-b"], &[]);

    let mut units = vec![a, b];
    unify_feature_variants(&mut units);
    assert_eq!(units.len(), 1);
    assert!(units[0].is_root, "root status should be preserved");
    assert_eq!(units[0].target_name, "my-bin");
}

#[test]
fn unify_does_not_merge_host_and_target() {
    let mut host = make_unit("proc-macro2", "1.0.0", &["default"], &[]);
    host.for_host = true;
    let target = make_unit("proc-macro2", "1.0.0", &["default", "span-locations"], &[]);

    let mut units = vec![host, target];
    unify_feature_variants(&mut units);
    assert_eq!(
        units.len(),
        2,
        "host and target variants must NOT be merged"
    );
}

#[test]
fn unify_redirects_build_script_dep() {
    let mut bs_v1 = make_unit("proc-macro2", "1.0.0", &["default"], &[]);
    bs_v1.key = "pm2-bs-v1".into();
    bs_v1.kind = UnitKind::BuildScriptRun;
    let mut bs_v2 = make_unit("proc-macro2", "1.0.0", &["default", "span-locations"], &[]);
    bs_v2.key = "pm2-bs-v2".into();
    bs_v2.kind = UnitKind::BuildScriptRun;

    let mut consumer = make_unit("proc-macro2", "1.0.0", &["default"], &[]);
    consumer.key = "pm2-lib".into();
    consumer.build_script_dep = Some("pm2-bs-v1".into());

    let mut units = vec![bs_v1, bs_v2, consumer];
    unify_feature_variants(&mut units);

    let lib_unit = units.iter().find(|u| u.kind == UnitKind::Compile).unwrap();
    let bs_units: Vec<_> = units
        .iter()
        .filter(|u| u.kind == UnitKind::BuildScriptRun)
        .collect();
    assert_eq!(bs_units.len(), 1, "build script variants should merge");
    assert_eq!(
        lib_unit.build_script_dep.as_deref(),
        Some(bs_units[0].key.as_str()),
        "build_script_dep should be redirected to the merged key"
    );
}

#[test]
fn unify_preserves_underscores_in_key() {
    let a = make_unit("serde_core", "1.0.228", &["result"], &[]);
    let b = make_unit("serde_core", "1.0.228", &["alloc", "result"], &[]);

    // Record original key prefix pattern (should contain "serde_core")
    assert!(
        a.key.contains("serde_core"),
        "original key should preserve underscores: {}",
        a.key,
    );

    let mut consumer = make_unit("serde", "1.0.228", &[], &[("serde_core", &a.key)]);
    consumer.key = "serde-key".into();

    let mut units = vec![a, b, consumer];
    unify_feature_variants(&mut units);

    let serde_core_unit = units.iter().find(|u| u.crate_name == "serde_core").unwrap();
    // The unified key must still contain "serde_core" (not "serde-core")
    assert!(
        serde_core_unit.key.contains("serde_core"),
        "unified key should preserve underscores: {}",
        serde_core_unit.key,
    );
    assert!(
        !serde_core_unit.key.contains("serde-core"),
        "unified key should NOT convert underscores to hyphens: {}",
        serde_core_unit.key,
    );
}

// -- compute_extra_filename -----------------------------------------------------

#[test]
fn extra_filename_differs_with_features() {
    let a = compute_extra_filename("foo", "1.0.0", "foo", &strings(&["a"]), &strings(&["lib"]));
    let b = compute_extra_filename(
        "foo",
        "1.0.0",
        "foo",
        &strings(&["a", "b"]),
        &strings(&["lib"]),
    );
    assert_ne!(
        a, b,
        "different features must produce different extra_filename"
    );
}

#[test]
fn extra_filename_deterministic() {
    let a = compute_extra_filename("foo", "1.0.0", "foo", &strings(&["x"]), &strings(&["lib"]));
    let b = compute_extra_filename("foo", "1.0.0", "foo", &strings(&["x"]), &strings(&["lib"]));
    assert_eq!(a, b);
}

#[test]
fn short_hash_of_a_digest() {
    let mut digest = [0u8; 32];
    digest[0] = 0x2a;
    assert_eq!(short_hash(&digest), "000000000000002a");
    digest[7] = 0xff;
    assert_eq!(short_hash(&digest), "ff0000000000002a");
}

// -- find_missing_feature_deps --------------------------------------------------

fn text_map(pairs: &[(&str, &str)]) -> StrMap<String> {
    let mut m = StrMap::new();
    for (k, v) in pairs {
        m.insert(k.to_string(), v.to_string());
    }
    m
}

fn activation_map(pairs: &[(&str, &[(&str, &str)])]) -> StrMap<Vec<(String, String)>> {
    let mut m = StrMap::new();
    for (k, v) in pairs {
        m.insert(
            k.to_string(),
            v.iter()
                .map(|(a, b)| (a.to_string(), b.to_string()))
                .collect(),
        );
    }
    m
}

#[test]
fn missing_feature_deps_adds_cfg_any_dep() {
    // Simulate indexmap: features=["serde"] activates dep:serde_core and
    // dep:serde, but cargo omits both from the unit graph because serde is
    // under [target.'cfg(any())'.dependencies].
    let dep_extern = text_map(&[
        ("equivalent", "equivalent-key"),
        ("hashbrown", "hashbrown-key"),
    ]);

    let features = strings(&["default", "std", "serde"]);

    let activations = activation_map(&[(
        "serde",
        &[("serde_core", "serde-core-key"), ("serde", "serde-key")],
    )]);

    let additions = find_missing_feature_deps(&dep_extern, &features, &activations);

    assert_eq!(
        additions.len(),
        2,
        "both serde and serde_core should be added"
    );
    assert!(
        additions
            .iter()
            .any(|(e, k)| e == "serde" && k == "serde-key"),
        "serde should be added"
    );
    assert!(
        additions
            .iter()
            .any(|(e, k)| e == "serde_core" && k == "serde-core-key"),
        "serde_core should be added"
    );
}

#[test]
fn missing_feature_deps_skips_already_present() {
    // If serde is already in dep_extern (normal case without cfg(any())),
    // no additions should be made.
    let dep_extern = text_map(&[("serde", "serde-key")]);

    let features = strings(&["serde"]);
    let activations = activation_map(&[("serde", &[("serde", "serde-different-key")])]);

    let additions = find_missing_feature_deps(&dep_extern, &features, &activations);
    assert!(
        additions.is_empty(),
        "should not duplicate a dep that already exists"
    );
}

#[test]
fn missing_feature_deps_noop_when_no_dep_features() {
    let dep_extern = text_map(&[]);
    let features = strings(&["default", "std"]);
    let activations = activation_map(&[]);

    let additions = find_missing_feature_deps(&dep_extern, &features, &activations);
    assert!(additions.is_empty());
}

#[test]
fn missing_feature_deps_no_duplicate_across_features() {
    // Two features both activate the same dep — it should only appear once.
    let dep_extern = text_map(&[]);
    let features = strings(&["feat_a", "feat_b"]);
    let activations = activation_map(&[
        ("feat_a", &[("serde", "serde-key")]),
        ("feat_b", &[("serde", "serde-key-alt")]),
    ]);

    let additions = find_missing_feature_deps(&dep_extern, &features, &activations);
    assert_eq!(additions.len(), 1, "serde should appear only once");
    assert_eq!(additions[0].0, "serde");
}

// -- compute_topo_levels --------------------------------------------------------

#[test]
fn topo_levels_basic_chain() {
    // A → B → C  (linear chain)
    let mut c = make_unit("c", "1.0.0", &[], &[]);
    c.key = "c-key".into();
    let mut b = make_unit("b", "1.0.0", &[], &[("c", "c-key")]);
    b.key = "b-key".into();
    let mut a = make_unit("a", "1.0.0", &[], &[("b", "b-key")]);
    a.key = "a-key".into();

    // Units in correct topo order
    let units = vec![c, b, a];
    let levels = compute_topo_levels(&units);
    assert_eq!(levels.len(), 3);
    assert_eq!(levels[0], vec![0]); // c
    assert_eq!(levels[1], vec![1]); // b
    assert_eq!(levels[2], vec![2]); // a
}

#[test]
fn topo_levels_parallel_deps() {
    // A depends on both B and C (independent)
    let mut b = make_unit("b", "1.0.0", &[], &[]);
    b.key = "b-key".into();
    let mut c = make_unit("c", "1.0.0", &[], &[]);
    c.key = "c-key".into();
    let mut a = make_unit("a", "1.0.0", &[], &[("b", "b-key"), ("c", "c-key")]);
    a.key = "a-key".into();

    let units = vec![b, c, a];
    let levels = compute_topo_levels(&units);
    assert_eq!(levels.len(), 2);
    assert_eq!(levels[0], vec![0, 1]); // b, c at level 0
    assert_eq!(levels[1], vec![2]); // a at level 1
}

/// A dependency that cargo's own order does not know of is still built first.
#[test]
fn topo_levels_cfg_any_dep_before_dependent() {
    // serde_core (no deps)
    let mut serde_core = make_unit("serde_core", "1.0.228", &[], &[]);
    serde_core.key = "serde_core-key".into();

    // serde depends on serde_core
    let mut serde = make_unit("serde", "1.0.228", &[], &[("serde_core", "serde_core-key")]);
    serde.key = "serde-key".into();

    // equivalent (no deps, indexmap's normal dep)
    let mut equivalent = make_unit("equivalent", "1.0.2", &[], &[]);
    equivalent.key = "equivalent-key".into();

    // hashbrown (no deps, indexmap's normal dep)
    let mut hashbrown = make_unit("hashbrown", "0.15.0", &[], &[]);
    hashbrown.key = "hashbrown-key".into();

    // indexmap depends on equivalent, hashbrown (from Cargo edges) AND
    // serde, serde_core (from a feature — NOT in Cargo's edges).
    let mut indexmap = make_unit(
        "indexmap",
        "2.13.0",
        &["serde"],
        &[
            ("equivalent", "equivalent-key"),
            ("hashbrown", "hashbrown-key"),
            ("serde", "serde-key"),
            ("serde_core", "serde_core-key"),
        ],
    );
    indexmap.key = "indexmap-key".into();

    let units = vec![equivalent, hashbrown, indexmap, serde_core, serde];

    let levels = compute_topo_levels(&units);

    // Find which level each unit is at
    let level_of = |idx: usize| -> usize { levels.iter().position(|l| l.contains(&idx)).unwrap() };

    let equivalent_level = level_of(0);
    let hashbrown_level = level_of(1);
    let indexmap_level = level_of(2);
    let serde_core_level = level_of(3);
    let serde_level = level_of(4);

    // serde_core must be before serde
    assert!(
        serde_core_level < serde_level,
        "serde_core (level {}) must be before serde (level {})",
        serde_core_level,
        serde_level,
    );
    // serde must be before indexmap (the critical invariant)
    assert!(
        serde_level < indexmap_level,
        "serde (level {}) must be before indexmap (level {})",
        serde_level,
        indexmap_level,
    );
    // equivalent and hashbrown must be before indexmap
    assert!(
        equivalent_level < indexmap_level,
        "equivalent (level {}) must be before indexmap (level {})",
        equivalent_level,
        indexmap_level,
    );
    assert!(
        hashbrown_level < indexmap_level,
        "hashbrown (level {}) must be before indexmap (level {})",
        hashbrown_level,
        indexmap_level,
    );
}

/// Deeply chained dependencies in reverse order, the worst case for convergence.
#[test]
fn topo_levels_reverse_order_chain() {
    let mut d = make_unit("d", "1.0.0", &[], &[]);
    d.key = "d-key".into();
    let mut c = make_unit("c", "1.0.0", &[], &[("d", "d-key")]);
    c.key = "c-key".into();
    let mut b = make_unit("b", "1.0.0", &[], &[("c", "c-key")]);
    b.key = "b-key".into();
    let mut a = make_unit("a", "1.0.0", &[], &[("b", "b-key")]);
    a.key = "a-key".into();

    // Reverse order: a is first, d is last
    let units = vec![a, b, c, d];
    let levels = compute_topo_levels(&units);

    assert_eq!(levels.len(), 4, "4 levels for a 4-unit chain");
    // d at level 0, c at level 1, b at level 2, a at level 3
    assert!(levels[0].contains(&3), "d (idx 3) should be at level 0");
    assert!(levels[1].contains(&2), "c (idx 2) should be at level 1");
    assert!(levels[2].contains(&1), "b (idx 1) should be at level 2");
    assert!(levels[3].contains(&0), "a (idx 0) should be at level 3");
}

#[test]
fn cycles_are_found() {
    let mut a = make_unit("a", "1.0.0", &[], &[("b", "b-key")]);
    a.key = "a-key".into();
    let mut b = make_unit("b", "1.0.0", &[], &[]);
    b.key = "b-key".into();
    assert!(is_acyclic(&vec![a.clone(), b.clone()]));
    b.dep_extern = vec![("a".to_string(), "a-key".to_string())];
    assert!(!is_acyclic(&vec![a, b]));
}

#[test]
fn dependencies_of_a_unit() {
    let mut u = make_unit("a", "1.0.0", &[], &[("b", "b-key")]);
    u.build_script_dep = Some("run-key".to_string());
    u.links_dep_keys = vec![("sys-key".to_string(), "z".to_string())];
    let keys = unit_dep_keys(&u);
    assert!(keys.contains(&"b-key".to_string()));
    assert!(keys.contains(&"run-key".to_string()));
}

// -- configuration ----------------------------------------------------------------

#[test]
fn targets_and_profiles() {
    let native = TargetConfig::native("x86_64");
    assert!(!native.is_cross());
    assert_eq!(native.nix_system, "x86_64-linux");
    assert_eq!(native.ms_arch(), None);
    let windows = TargetConfig::with_target("aarch64-pc-windows-msvc", "x86_64");
    assert!(windows.is_cross() && windows.is_windows() && windows.is_msvc());
    assert_eq!(windows.ms_arch(), Some("arm64"));
    assert_eq!(windows.nix_system, "x86_64-linux");
    assert_eq!(ProfileConfig::release().opt_level, "3");
    assert!(ProfileConfig::dev().debug_info);
}

#[test]
fn cfg_variables() {
    let cfgs = vec![
        Cfg::KeyPair("target_family".to_string(), "unix".to_string()),
        Cfg::Name("unix".to_string()),
        Cfg::KeyPair("target_feature".to_string(), "sse2".to_string()),
        Cfg::KeyPair("target_feature".to_string(), "fxsr".to_string()),
    ];
    let envs = extract_cfg_envs(&cfgs);
    assert!(envs.contains(&("CARGO_CFG_UNIX".to_string(), "".to_string())));
    assert!(envs.contains(&("CARGO_CFG_TARGET_FAMILY".to_string(), "unix".to_string())));
    assert!(envs
        .iter()
        .any(|(k, v)| k == "CARGO_CFG_TARGET_FEATURE" && v.contains("sse2") && v.contains("fxsr")));
}

#[test]
fn names_of_outputs() {
    let mut u = make_unit("my-lib", "1.0.0", &[], &[]);
    u.extra_filename = "-abc".to_string();
    assert_eq!(u.output_lib_filename(), "libmy_lib-abc.rlib");
    u.kind = UnitKind::Check;
    assert_eq!(u.output_lib_filename(), "libmy_lib-abc.rmeta");
    assert_eq!(mode_suffix_for_drv_name(&UnitKind::Doc), "-doc");
}

#[test]
fn local_derivations() {
    let mut a = make_unit("a", "1.0.0", &[], &[]);
    a.is_local = true;
    a.drv_path = Some("/nix/store/a.drv".to_string());
    let mut b = make_unit("b", "1.0.0", &[], &[]);
    b.drv_path = Some("/nix/store/b.drv".to_string());
    let units = vec![a.clone(), b];
    assert_eq!(local_compile_drv_paths(&units), vec!["/nix/store/a.drv"]);
    for (kind, paths) in [
        (UnitKind::Compile, vec!["/nix/store/a.drv"]),
        (UnitKind::BuildScriptCompile, vec!["/nix/store/a.drv"]),
        (UnitKind::Check, vec![]),
        (UnitKind::Doc, vec![]),
        (UnitKind::TestCompile, vec![]),
        (UnitKind::BuildScriptRun, vec![]),
    ] {
        a.kind = kind;
        assert_eq!(local_compile_drv_paths(&vec![a.clone()]), paths);
    }
    a.kind = UnitKind::Compile;
    a.clear_drv_path();
    assert_eq!(a.drv_path, None);
    assert!(local_compile_drv_paths(&vec![a]).is_empty());
}
