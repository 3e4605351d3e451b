use cargo_schnee::bootstrap::{
    cargo_config, git_source_overrides, lockfile_git_sources, select_packages, Selection,
};
use cargo_schnee::nar::{compute_nar_store_path, serialize_nar, FsNode};
use cargo_schnee::registration::{chunk_round_robin, parallel_jobs};
use cargo_schnee::resolution::{ResolutionScope, ResolutionSpec};
use cargo_schnee::slices::{assign_per_crate_src_stores, crates_to_slice};
use cargo_schnee::units::{NixUnit, UnitKind};

#[test]
fn chunk_round_robin_distributes_evenly() {
    let chunks = chunk_round_robin(vec![0, 1, 2, 3, 4, 5, 6, 7], 4);
    assert_eq!(chunks, vec![vec![0, 4], vec![1, 5], vec![2, 6], vec![3, 7]]);
}

#[test]
fn chunk_round_robin_handles_uneven_input() {
    // 5 items into 3 chunks: round-robin gives 2/2/1.
    let chunks = chunk_round_robin(vec!['a', 'b', 'c', 'd', 'e'], 3);
    assert_eq!(chunks, vec![vec!['a', 'd'], vec!['b', 'e'], vec!['c']]);
}

#[test]
fn chunk_round_robin_handles_overprovisioned_workers() {
    // More chunks than items: trailing chunks are empty.
    let chunks = chunk_round_robin(vec![1, 2], 4);
    assert_eq!(chunks, vec![vec![1], vec![2], vec![], vec![]]);
}

#[test]
fn chunk_round_robin_handles_empty_input() {
    let chunks: Vec<Vec<i32>> = chunk_round_robin(vec![], 3);
    assert_eq!(chunks, vec![Vec::<i32>::new(); 3]);
}

const LOCK: &str = "\
[[package]]
name = \"euc\"
version = \"0.6.0\"
source = \"git+https://github.com/zesterer/euc#e8f7aeece8f7aeece8f7aeece8f7aeece8f7aeec\"

[[package]]
name = \"clipline\"
version = \"0.2.0\"
source = \"registry+https://github.com/rust-lang/crates.io-index\"
checksum = \"deadbeefdeadbeef\"

[[package]]
name = \"pinned\"
version = \"2.0.0\"
source = \"git+https://example.com/pinned?branch=main#abc123abc123abc123abc123abc123abc123abcd\"
";

#[test]
fn git_sources_get_vendored_source_overrides() {
    // A lock with a default-branch git dep, a crates.io dep, and a
    // branch-pinned git dep. The offline planner needs a `[source."git+…"]`
    // redirect for each git source, or cargo tries to fetch it over the
    // (sandbox-forbidden) network.
    let cfg = git_source_overrides(LOCK);

    // Default-branch git dep: keyed by its url, no ref line.
    assert!(cfg.contains("[source.\"git+https://github.com/zesterer/euc\"]"));
    assert!(cfg.contains("git = \"https://github.com/zesterer/euc\""));

    // Branch-pinned git dep: the `?branch=` ref is carried over.
    assert!(cfg.contains("[source.\"git+https://example.com/pinned?branch=main\"]"));
    assert!(cfg.contains("branch = \"main\""));

    // Both git sources redirect to vendored copies …
    assert_eq!(
        cfg.matches("replace-with = \"vendored-sources\"").count(),
        2
    );
    // … and the crates.io registry dep is left to the existing crates-io redirect.
    assert!(!cfg.contains("crates.io-index"));
}

#[test]
fn git_sources_are_listed_once() {
    let twice = format!("{}{}", LOCK, LOCK);
    assert_eq!(lockfile_git_sources(LOCK), lockfile_git_sources(&twice));
    assert_eq!(lockfile_git_sources(LOCK).len(), 2);
}

#[test]
fn configuration_for_vendored_sources() {
    let plain = cargo_config("/nix/store/vendor", None);
    assert!(plain.contains("[source.crates-io]"));
    assert!(plain.contains("/nix/store/vendor"));
    let with = cargo_config("/nix/store/vendor", Some(LOCK));
    assert!(with.starts_with(&plain));
    assert!(with.contains(&git_source_overrides(LOCK)));
}

#[test]
fn packages_to_resolve() {
    let none: Vec<String> = vec![];
    let some = vec!["a".to_string()];
    let scope = ResolutionScope {
        key: "k".to_string(),
        spec: ResolutionSpec::Packages(vec!["x".to_string()]),
    };
    assert!(matches!(
        select_packages(Some(&scope), &some, &none, false),
        Selection::Packages(p) if p == vec!["x".to_string()]
    ));
    assert!(matches!(
        select_packages(None, &some, &none, false),
        Selection::Packages(p) if p == vec!["a".to_string()]
    ));
}

#[test]
fn jobs_of_a_registration() {
    assert_eq!(parallel_jobs(true, 16, Some(4)), 1);
    assert_eq!(parallel_jobs(false, 16, Some(4)), 4);
    assert!(parallel_jobs(false, 0, None) >= 1);
}

// -- per-crate sources --------------------------------------------------------------

fn unit(is_local: bool, kind: UnitKind, crate_rel: &str, root: &str) -> NixUnit {
    NixUnit {
        key: crate_rel.to_string(),
        drv_name: crate_rel.to_string(),
        kind,
        source_file: format!("{root}/{crate_rel}/src/lib.rs"),
        crate_name: crate_rel.to_string(),
        crate_types: vec!["lib".to_string()],
        edition: "2021".to_string(),
        features: vec![],
        dep_extern: vec![],
        all_dep_keys: vec![],
        build_script_dep: None,
        build_script_compile_key: None,
        manifest_dir: format!("{root}/{crate_rel}"),
        original_manifest_dir: String::new(),
        cargo_envs: vec![],
        extra_filename: String::new(),
        needs_linker: false,
        is_local,
        links: None,
        links_dep_keys: vec![],
        is_root: false,
        target_name: String::new(),
        for_host: false,
        compile_test: false,
        self_contained_build_script: false,
        sliced_crate_rel: None,
        drv_path: None,
    }
}

/// The store path of a crate with the given body.
fn ca_add(name: &str, body: &str) -> String {
    let file = |text: &str| FsNode::File {
        executable: false,
        contents: text.as_bytes().to_vec(),
    };
    let tree = FsNode::Directory(vec![
        (
            "Cargo.toml".to_string(),
            file(&format!("[package]\nname = \"{name}\"\n")),
        ),
        (
            "src".to_string(),
            FsNode::Directory(vec![("lib.rs".to_string(), file(body))]),
        ),
    ]);
    compute_nar_store_path(&format!("{name}-src"), &serialize_nar(&tree, None).unwrap())
}

/// Where a vendored crate with the given body lies.
fn vendored(store: &str, name: &str, body: &str) -> String {
    let mut h = 1469598103934665603u64;
    for b in body.bytes() {
        h ^= b as u64;
        h = h.wrapping_mul(1099511628211);
    }
    format!("{store}/{h:x}-{name}/{name}")
}

/// The store paths of the crates that are sliced.
fn stores(units: &Vec<NixUnit>, src: &str, vendor: &str, bodies: &[(&str, &str)]) -> Vec<String> {
    crates_to_slice(units, src, vendor)
        .iter()
        .map(|slice| {
            let body = bodies.iter().find(|(n, _)| *n == slice.crate_rel).unwrap().1;
            if slice.local {
                assert_eq!(slice.path(), format!("{src}/{}", slice.crate_rel));
                ca_add(&slice.crate_rel, body)
            } else {
                vendored("/store", &slice.crate_rel, body)
            }
        })
        .collect()
}

/// Editing a local crate leaves the sources of the other crates as they are, and the
/// local run of a build script keeps the whole tree. A vendored crate's units are
/// sliced off the directory of all of them, and do not move with another crate.
#[test]
fn assign_decouples_local_and_vendored_crates() {
    let src = "/work/src";
    let vendor = "/work/vendor";
    let before = [
        ("crate-a", "pub fn a() {}\n"),
        ("crate-b", "pub fn b() {}\n"),
        ("serde", "pub fn s() {}\n"),
        ("once_cell", "pub fn o() {}\n"),
    ];

    let mk = || {
        let mut self_contained = unit(true, UnitKind::BuildScriptRun, "crate-b", src);
        self_contained.self_contained_build_script = true;
        vec![
            unit(true, UnitKind::Compile, "crate-a", src),
            unit(true, UnitKind::Compile, "crate-b", src),
            unit(true, UnitKind::BuildScriptRun, "crate-a", src),
            unit(false, UnitKind::Compile, "serde", vendor),
            unit(false, UnitKind::BuildScriptRun, "once_cell", vendor),
            self_contained, // index 5: local self-contained build-script-run.
        ]
    };

    let mut units = mk();
    let at = stores(&units, src, vendor, &before);
    let s1 = assign_per_crate_src_stores(&mut units, src, vendor, &at);

    // Local compile unit: sliced off the whole tree, paths rewritten onto it.
    assert_ne!(
        s1[0], src,
        "crate-a compile unit must be sliced off the whole tree"
    );
    assert!(
        units[0].source_file.starts_with(&s1[0]),
        "source_file rewritten onto per-crate store"
    );
    assert_eq!(
        units[0].manifest_dir, s1[0],
        "manifest_dir rewritten onto per-crate store"
    );
    // A sliced local unit records its project-src-relative dir so the
    // remap builder can keep diagnostics rooted at the real workspace path.
    assert_eq!(
        units[0].sliced_crate_rel.as_deref(),
        Some("crate-a"),
        "sliced local unit must record its crate_rel"
    );
    // Local build-script-run unit keeps the whole tree (sibling reads).
    assert_eq!(
        s1[2], src,
        "local build-script-run unit keeps the whole-tree src_store"
    );
    assert_eq!(
        units[2].sliced_crate_rel, None,
        "non-sliced local unit must not record a crate_rel"
    );
    // Vendored units slice off the vendor dir, so they keep None.
    assert_eq!(
        units[3].sliced_crate_rel, None,
        "vendored sliced unit must not record a crate_rel"
    );
    assert_eq!(
        units[2].source_file,
        format!("{src}/crate-a/src/lib.rs"),
        "local build-script unit not rewritten"
    );
    // A local build-script-run that opts into self-contained IS sliced to its own
    // per-crate source, so it stops re-keying on unrelated workspace edits.
    assert_ne!(
        s1[5], src,
        "self-contained local build-script-run unit must be sliced off the whole tree"
    );
    assert_eq!(
        units[5].manifest_dir, s1[5],
        "self-contained build-script unit manifest_dir rewritten onto per-crate store"
    );
    // Vendored units, including the vendored build-script-run unit (a vendored
    // crate is self-contained).
    assert!(
        s1[3].starts_with("/store"),
        "vendored serde resolves to its per-crate store target"
    );
    assert_eq!(
        units[3].manifest_dir, s1[3],
        "vendored serde manifest_dir rewritten onto per-crate target"
    );
    assert!(
        units[3].source_file.starts_with(&s1[3]),
        "vendored serde source_file rewritten onto its target"
    );
    assert!(
        s1[4].starts_with("/store"),
        "vendored once_cell build-script-run unit resolves to its target"
    );
    assert_eq!(
        units[4].manifest_dir, s1[4],
        "vendored once_cell manifest_dir rewritten onto per-crate target"
    );

    let a_store_before = s1[0].clone();
    let b_store_before = s1[1].clone();
    let serde_store_before = s1[3].clone();
    let once_cell_before = s1[4].clone();

    // Edit ONLY local crate-b and vendored once_cell; re-run on fresh units.
    let after = [
        ("crate-a", "pub fn a() {}\n"),
        ("crate-b", "pub fn b() { let _ = 1; }\n"),
        ("serde", "pub fn s() {}\n"),
        ("once_cell", "pub fn o() { let _ = 1; }\n"),
    ];
    let mut units2 = mk();
    let at2 = stores(&units2, src, vendor, &after);
    let s2 = assign_per_crate_src_stores(&mut units2, src, vendor, &at2);

    assert_eq!(
        s2[0], a_store_before,
        "editing crate-b must NOT change crate-a's assigned source store"
    );
    assert_ne!(
        s2[1], b_store_before,
        "crate-b's own assigned source store changes"
    );
    assert_eq!(
        s2[3], serde_store_before,
        "bumping once_cell must NOT change serde's per-crate vendor target"
    );
    assert_ne!(
        s2[4], once_cell_before,
        "once_cell's own per-crate vendor target changes"
    );
}
