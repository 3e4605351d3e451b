use cargo_schnee::build_output::{
    classify_line, failed_derivations, failure_report, message_text, output_paths, BuildLog,
    LineKind, LogContext,
};
use cargo_schnee::path_deps::enclosing_workspace;
use cargo_schnee::pipeline::{
    cached_local_drvs, choose_profile, choose_vendor, clean_name, describe_profile, file_extension,
    gets_clean_link, intent_name, is_binary_file, is_scoped_to_member, missing_output, output_dir,
    root_manifest_dir, unit_graph_key, GraphInputs, Intent, VendorChoice,
};
use cargo_schnee::plan::{build_plan, format_build_plan, format_mermaid_graph, PlanUnit};
use cargo_schnee::profile_report::{durations, format_report, label_of_drv, BuiltDrv, ReportHead};
use cargo_schnee::runner::{
    bench_args, binary_name, cannot_execute, is_cross_target, roots_of_kind, runner_env_from,
    runner_env_key, select_binary, split_runner,
};
use cargo_schnee::sources::{
    content_hash, extra_glob, is_excluded_name, is_stale_temp, lockfile_above, manifests_hash,
    member_glob, place_extra, project_files, ExtraPlace,
};
use cargo_schnee::strmap::StrMap;
use cargo_schnee::toolchain::{
    cached_closure, closure_store_paths, library_warning, passthru_roots, pkg_config_search_path,
    refresh_cached_units, search_path_roots, set_original_manifest_dirs, store_root_of,
    system_libraries, uncached_paths, union_of_closures, win_sdk_lib_dirs, win_sdk_store,
    ClosureRoots,
};
use cargo_schnee::units::{NixUnit, TargetConfig, UnitKind};

const HASH: &str = "aaaaaaaaaaaaaaaaaaaaaaaaaaaaaaaa";

fn strings(v: &[&str]) -> Vec<String> {
    v.iter().map(|s| s.to_string()).collect()
}

fn drv(name: &str) -> String {
    format!("/nix/store/{HASH}-{name}.drv")
}

fn context(verbose: bool) -> LogContext {
    LogContext {
        project_pkg_name: Some("app".to_string()),
        project_dir: "/p".to_string(),
        verbose,
        src_store_prefix: "/nix/store/src/".to_string(),
        project_dir_prefix: "/p/".to_string(),
    }
}

fn unit(name: &str, kind: UnitKind, types: &[&str]) -> NixUnit {
    NixUnit {
        key: name.to_string(),
        drv_name: format!("{name}-1.0.0-{name}"),
        kind,
        source_file: format!("/nix/store/src/{name}/src/lib.rs"),
        crate_name: name.to_string(),
        crate_types: strings(types),
        edition: "2021".to_string(),
        features: vec![],
        dep_extern: vec![],
        all_dep_keys: vec![],
        build_script_dep: None,
        build_script_compile_key: None,
        manifest_dir: format!("/nix/store/src/{name}"),
        original_manifest_dir: String::new(),
        cargo_envs: vec![],
        extra_filename: String::new(),
        needs_linker: false,
        is_local: true,
        links: None,
        links_dep_keys: vec![],
        is_root: false,
        target_name: name.to_string(),
        for_host: false,
        compile_test: false,
        self_contained_build_script: false,
        sliced_crate_rel: None,
        drv_path: Some(drv(name)),
    }
}

// -- what nix-store prints ------------------------------------------------------------

#[test]
fn kinds_of_lines() {
    let building = format!("building '{}'...", drv("a-1.0.0-a"));
    assert!(matches!(classify_line(&building), LineKind::Building(d) if d == drv("a-1.0.0-a")));
    assert!(matches!(
        classify_line("these 12 derivations will be built:"),
        LineKind::Announcement(Some(12))
    ));
    assert!(matches!(
        classify_line("this derivation will be built:"),
        LineKind::Announcement(Some(1))
    ));
    assert!(matches!(
        classify_line("these many paths will be fetched:"),
        LineKind::Announcement(None)
    ));
    assert!(matches!(classify_line("copying path '/x'"), LineKind::Ignored));
    assert!(matches!(classify_line("  "), LineKind::Ignored));
    assert!(matches!(classify_line("/nix/store/x"), LineKind::Ignored));
    assert!(matches!(classify_line("/nix/store/x failed"), LineKind::Output(_)));
    assert!(matches!(classify_line(" > oh no "), LineKind::Output(l) if l == "> oh no"));
}

#[test]
fn packages_are_announced_once() {
    let cx = context(false);
    let mut log = BuildLog::new();
    log.note_line("these 3 derivations will be built:", None, &cx);
    log.note_line("these 9 derivations will be built:", None, &cx);
    assert_eq!(log.total, Some(3));

    let shown = log.note_line(&format!("building '{}'", drv("app-0.1.0-app")), None, &cx);
    assert_eq!(
        shown.status,
        Some(("Compiling".to_string(), "app v0.1.0 (/p)".to_string()))
    );
    assert_eq!(shown.tick, Some((1, 3, ": app".to_string())));
    let shown = log.note_line(&format!("building '{}'", drv("app-0.1.0-app-test")), None, &cx);
    assert_eq!(shown.status, None);
    let shown = log.note_line(&format!("building '{}'", drv("serde-1.0.210-serde")), None, &cx);
    assert_eq!(
        shown.status,
        Some(("Compiling".to_string(), "serde v1.0.210".to_string()))
    );
    assert_eq!(log.built.len(), 3);
    assert_eq!(log.seen, strings(&["app-0.1.0", "serde-1.0.210"]));
}

#[test]
fn checks_are_shown_as_such() {
    let cx = context(false);
    let mut log = BuildLog::new();
    let shown = log.note_line(&format!("building '{}'", drv("app-0.1.0-app-check")), None, &cx);
    assert_eq!(
        shown.status,
        Some(("Checking".to_string(), "app v0.1.0 (/p)".to_string()))
    );
    let shown = log.note_line(&format!("building '{}'", drv("app-0.1.0-app-test")), None, &cx);
    assert_eq!(shown.status, None);
    assert_eq!(log.seen, strings(&["app-0.1.0"]));
}

#[test]
fn build_scripts_are_shown_when_asked() {
    let line = format!(
        "building '{}'",
        drv("libc-0.2.1-build-script-build-run-build-script")
    );
    let mut log = BuildLog::new();
    assert_eq!(log.note_line(&line, None, &context(false)).status, None);
    assert_eq!(
        log.note_line(&line, None, &context(true)).status,
        Some((
            "Running".to_string(),
            "build script for libc v0.2.1".to_string()
        ))
    );
    assert_eq!(log.total, None);
}

#[test]
fn other_lines_are_kept() {
    let cx = context(false);
    let mut log = BuildLog::new();
    assert_eq!(message_text("error: no space").as_deref(), Some("error: no space"));
    let shown = log.note_line("error: no space", None, &cx);
    assert_eq!(shown.text, None);
    assert_eq!(log.errors, strings(&["error: no space"]));
    // A message of the compiler is shown, with the project's paths.
    let message = "{\"$message_type\":\"diagnostic\",\"rendered\":\"warning: /nix/store/src/a.rs\\n\"}";
    let line = format!("> {message}");
    let text = message_text(&line).unwrap();
    assert_eq!(text, message);
    let doc: serde_json::Value = serde_json::from_str(&text).unwrap();
    let rendered = doc["rendered"].as_str().map(|s| s.to_string());
    let shown = log.note_line(&line, Some(rendered), &cx);
    assert_eq!(shown.text.as_deref(), Some("warning: /p/a.rs\n"));
    assert_eq!(log.errors.len(), 1);
    // A line that is no output holds no message.
    assert_eq!(message_text("copying path '/x'"), None);
    assert_eq!(message_text(&format!("building '{}'", drv("a-1.0.0-a"))), None);
}

#[test]
fn failures_are_told() {
    let lines = vec![
        "some text".to_string(),
        format!("builder for '{}' failed with exit code 1", drv("a")),
        "builder for '/nix/store/x' failed".to_string(),
    ];
    assert_eq!(failed_derivations(&lines), vec![drv("a")]);
    let report = failure_report(&lines).unwrap();
    assert_eq!(report.len(), 5);
    assert_eq!(report[3], "For derivation logs, run:");
    assert_eq!(report[4], format!("  nix log {}", drv("a")));
    assert_eq!(failure_report(&strings(&["x"])).unwrap(), strings(&["x"]));

    let ca = strings(&["error: experimental feature 'ca-derivations' is disabled"]);
    assert!(failure_report(&ca)
        .unwrap_err()
        .starts_with("Ensure your nix.conf includes:\n  experimental-features"));
}

#[test]
fn results_of_a_build() {
    assert_eq!(
        output_paths(" /nix/store/a \n\n/nix/store/b\n"),
        strings(&["/nix/store/a", "/nix/store/b"])
    );
}

// -- the decisions of a build ---------------------------------------------------------

#[test]
fn profiles() {
    assert_eq!(choose_profile(true, &None).name, "release");
    assert_eq!(choose_profile(false, &None).name, "dev");
    assert_eq!(choose_profile(false, &Some("release".to_string())).opt_level, "3");
    let own = choose_profile(false, &Some("bench".to_string()));
    assert_eq!((own.name.as_str(), own.opt_level, own.debug_info), ("bench", "0", true));
    assert_eq!(
        describe_profile("dev"),
        "`dev` profile [unoptimized + debuginfo]"
    );
    assert_eq!(describe_profile("release"), "`release` profile [optimized]");
    assert_eq!(describe_profile("bench"), "`bench` profile");
}

#[test]
fn members_scope_a_build() {
    assert!(is_scoped_to_member(&vec![], "/p/a/Cargo.toml", "/p/Cargo.toml"));
    assert!(!is_scoped_to_member(&vec![], "/p/Cargo.toml", "/p/Cargo.toml"));
    assert!(!is_scoped_to_member(
        &strings(&["b"]),
        "/p/a/Cargo.toml",
        "/p/Cargo.toml"
    ));
}

#[test]
fn keys_of_the_unit_graph() {
    let mut g = GraphInputs {
        lockfile_hash: "l".to_string(),
        manifest_hash: "m".to_string(),
        profile: "dev".to_string(),
        target_triple: "x86_64-unknown-linux-gnu".to_string(),
        intent: "build".to_string(),
        packages: strings(&["a", "b"]),
        features: strings(&["f"]),
        no_default_features: false,
    };
    assert_eq!(
        unit_graph_key(&g),
        "l:m:dev:x86_64-unknown-linux-gnu:build:a,b:f:false"
    );
    g.no_default_features = true;
    assert!(unit_graph_key(&g).ends_with(":f:true"));
    let limited = unit_graph_key(&g);
    g.packages = vec![];
    assert_ne!(unit_graph_key(&g), limited);
    assert_eq!(intent_name(Intent::Check), "check");
    assert_eq!(intent_name(Intent::Doc), "build");
}

#[test]
fn vendoring_is_skipped() {
    let cached = Some("h".to_string());
    assert!(matches!(choose_vendor(true, "h", &None, false), VendorChoice::Provided));
    assert!(matches!(choose_vendor(false, "h", &cached, true), VendorChoice::Cached));
    assert!(matches!(choose_vendor(false, "h", &cached, false), VendorChoice::Gone));
    assert!(matches!(choose_vendor(false, "i", &cached, true), VendorChoice::Vendor));
    assert!(matches!(choose_vendor(false, "h", &None, true), VendorChoice::Vendor));
}

#[test]
fn where_results_go() {
    let native = TargetConfig::native("x86_64");
    let cross = TargetConfig::with_target("x86_64-pc-windows-gnu", "x86_64");
    assert_eq!(output_dir("/p", "dev", &native), "/p/target/debug");
    assert_eq!(output_dir("/p", "release", &native), "/p/target/release");
    assert_eq!(
        output_dir("/p", "dev", &cross),
        "/p/target/x86_64-pc-windows-gnu/debug"
    );
    assert_eq!(
        missing_output("app", 1, 2),
        "Missing output path for root app (got 1 paths for 2 roots)"
    );
    assert!(is_binary_file("app", true, false));
    assert!(!is_binary_file("app.exe", false, false));
    assert!(is_binary_file("app.exe", false, true));
    assert!(is_binary_file("app.dll", false, true));
    assert!(!is_binary_file("app.pdb", true, true));
    assert_eq!(file_extension("a.b.exe").as_deref(), Some("exe"));
    assert_eq!(file_extension("app"), None);
    assert_eq!(file_extension(".app"), None);
    assert_eq!(file_extension("app.").as_deref(), Some(""));
    assert_eq!(clean_name("app", "app-0123.exe", true), "app.exe");
    assert_eq!(clean_name("app", "app-0123.exe", false), "app");
    assert!(gets_clean_link(UnitKind::Compile));
    assert!(!gets_clean_link(UnitKind::TestCompile));
}

#[test]
fn a_local_unit_is_built_or_replayed() {
    let (a, b) = (drv("a"), drv("b"));
    let local = vec![a.as_str(), b.as_str()];
    assert_eq!(cached_local_drvs(&local, &vec![b.clone()]), vec![a.clone()]);
    assert!(cached_local_drvs(&local, &vec![b.clone(), a.clone()]).is_empty());
}

#[test]
fn manifests_are_found_in_the_project() {
    let units = vec![unit("a", UnitKind::Compile, &["lib"])];
    assert_eq!(
        root_manifest_dir(&units, &drv("a"), "/nix/store/src", "/p"),
        "/p/a"
    );
    assert_eq!(
        root_manifest_dir(&units, &drv("a"), "/nix/store/other", "/p"),
        "/nix/store/src/a"
    );
    assert_eq!(root_manifest_dir(&units, &drv("b"), "/nix/store/src", "/p"), "");
}

// -- running what was built -----------------------------------------------------------

#[test]
fn runners() {
    assert_eq!(
        runner_env_key("x86_64-pc-windows-gnu"),
        "CARGO_TARGET_X86_64_PC_WINDOWS_GNU_RUNNER"
    );
    assert_eq!(runner_env_from("AB"), "CARGO_TARGET_AB_RUNNER");
    assert_eq!(
        split_runner(" wine64  -x y "),
        Some(("wine64".to_string(), strings(&["-x", "y"])))
    );
    assert_eq!(split_runner("  "), None);
    assert!(!is_cross_target(&None, "x86_64"));
    assert!(!is_cross_target(
        &Some("x86_64-unknown-linux-gnu".to_string()),
        "x86_64"
    ));
    assert!(is_cross_target(
        &Some("x86_64-unknown-linux-gnu".to_string()),
        "aarch64"
    ));
    assert_eq!(
        cannot_execute("t", "K"),
        "cannot execute cross-compiled binary for target `t`\nSet K to a runner (e.g. `wine64` for Windows targets)"
    );
    assert_eq!(bench_args(&strings(&["x"])), strings(&["--bench", "x"]));
}

#[test]
fn names_of_binaries() {
    assert_eq!(binary_name("app", &None), "app");
    assert_eq!(
        binary_name("app", &Some("x86_64-pc-windows-gnu".to_string())),
        "app.exe"
    );
}

#[test]
fn the_named_binary_is_run() {
    let roots = vec![
        ("a".to_string(), UnitKind::Compile),
        ("t".to_string(), UnitKind::TestCompile),
        ("b".to_string(), UnitKind::Compile),
    ];
    assert_eq!(roots_of_kind(&roots, UnitKind::TestCompile), vec![1]);
    assert_eq!(select_binary(&roots, &Some("b".to_string())), Ok(2));
    assert_eq!(
        select_binary(&roots, &Some("t".to_string())),
        Err("no bin target named `t`\navailable targets: a, b".to_string())
    );
    assert_eq!(
        select_binary(&roots, &None),
        Err("multiple binary targets found, use --bin to specify one: a, b".to_string())
    );
    assert_eq!(select_binary(&roots[..2].to_vec(), &None), Ok(0));
}

// -- sources --------------------------------------------------------------------------

#[test]
fn files_of_the_project() {
    let paths = strings(&["src/a.rs", "sub/x.rs", "sub/y/z.rs", "subx/w.rs", "sub/x.rs"]);
    let mut below = project_files(&paths, "sub");
    below.sort();
    below.dedup();
    assert_eq!(below, strings(&["x.rs", "y/z.rs"]));
    assert_eq!(project_files(&strings(&["a", "b/c"]), "").len(), 2);
    assert!(is_excluded_name("target") && is_excluded_name(".git"));
    assert!(is_excluded_name(".direnv") && is_excluded_name("result"));
    assert!(!is_excluded_name("src"));
}

#[test]
fn extra_files_have_their_place() {
    assert_eq!(extra_glob("/p", "gen/**"), "/p/gen/**/*");
    assert_eq!(extra_glob("/p", "*.txt"), "/p/*.txt");
    assert_eq!(member_glob("/p", "crates/*"), "/p/crates/*/Cargo.toml");
    assert!(matches!(place_extra("/w/p", "/w/p/a/b"), ExtraPlace::Inside(s) if s == "a/b"));
    assert!(matches!(place_extra("/w/p", "/w/q/b"), ExtraPlace::Outside(s) if s == ".parent/q/b"));
}

#[test]
fn hashes_of_contents() {
    assert_eq!(
        content_hash(b"abc"),
        "ba7816bf8f01cfea414140de5dae2223b00361a396177a9cb410ff61f20015ad"
    );
    assert_eq!(
        manifests_hash(&b"a".to_vec(), &vec![b"b".to_vec(), b"c".to_vec()]),
        content_hash(b"abc")
    );
}

#[test]
fn lock_files_above_a_project() {
    let above = vec![(true, false), (false, true), (true, true), (true, true)];
    assert_eq!(lockfile_above(false, &above), Some(2));
    assert_eq!(lockfile_above(true, &above), None);
    assert_eq!(lockfile_above(false, &above[..2].to_vec()), None);
}

#[test]
fn workspaces_around_a_dependency() {
    let text = |s: &str| Some(s.to_string());
    let above = vec![
        ("/w/ext/crates".to_string(), text("[package]\nname = \"x\"\n")),
        ("/w/ext".to_string(), text("[workspace]\n")),
        ("/w".to_string(), text("[workspace]\n")),
        ("/".to_string(), None),
    ];
    assert_eq!(enclosing_workspace(&above, "/w/project"), Some(1));
    // A workspace around the project itself is none.
    assert_eq!(enclosing_workspace(&above[2..].to_vec(), "/w/project"), None);
    assert_eq!(enclosing_workspace(&above[..1].to_vec(), "/w/project"), None);
}

#[test]
fn stale_directories() {
    assert!(is_stale_temp("cargo-schnee-x", 3601, 0));
    assert!(is_stale_temp("cargo-schnee-x", 3600, 1));
    assert!(!is_stale_temp("cargo-schnee-x", 3600, 0));
    assert!(!is_stale_temp("other", 9999, 0));
}

// -- the profile of a build -----------------------------------------------------------

#[test]
fn durations_from_one_start_to_the_next() {
    assert_eq!(durations(&vec![5, 8, 8], 20), vec![3, 0, 12]);
    assert_eq!(durations(&vec![9], 4), vec![0]);
    assert!(durations(&vec![], 4).is_empty());
}

#[test]
fn the_report_lists_the_longest_first() {
    assert_eq!(label_of_drv(&drv("a-1.0.0-a-test")), "a v1.0.0 (test)");
    assert_eq!(label_of_drv(&drv("a-1.0.0-b-build-script")), "a v1.0.0 (build script)");
    assert_eq!(label_of_drv(&drv("a-1.0.0-a-check")), "a v1.0.0 (check)");
    assert_eq!(label_of_drv("plain"), "plain");
    let phase = |s: &str| (format!("{:>7}", s), " 25.0".to_string());
    let head = ReportHead {
        package: "app".to_string(),
        version: "0.1.0".to_string(),
        path: "/p".to_string(),
        date: "today".to_string(),
        total: "4.00".to_string(),
        vendoring: phase("1.00"),
        planning: phase("1.00"),
        building: phase("1.00"),
        copying: phase("1.00"),
    };
    let built = |d: &str, nanos: u64, shown: &str| BuiltDrv {
        drv: drv(d),
        nanos,
        shown: format!("{:>7}", shown),
    };
    let rows = vec![
        built("a-1.0.0-a", 1, "0.10"),
        built("long-2.0.0-b", 9, "0.90"),
    ];
    let text = format_report(&head, Some(5), rows);
    let expected = "cargo-schnee build profile
==========================

Project: app v0.1.0
Path:    /p
Date:    today
Total:   4.00s

Phase Breakdown
---------------
  Vendoring       1.00s  25.0%
  Planning        1.00s  25.0%
  Building        1.00s  25.0%
  Copying         1.00s  25.0%

Build Phase Details
-------------------
  2 derivations built, 3 cached

  Derivation   Duration
  long v2.0.0     0.90s
  a v1.0.0        0.10s
";
    assert_eq!(text, expected);
    assert!(format_report(&head, None, vec![]).ends_with("  0 derivations built, 0 cached\n"));
}

// -- the plan -------------------------------------------------------------------------

fn plan_unit(name: &str, deps: Vec<(usize, String)>, is_local: bool) -> PlanUnit {
    PlanUnit {
        package_name: name.to_string(),
        package_version: "1.0.0".to_string(),
        target_name: name.to_string(),
        target_kind: "Lib".to_string(),
        compile_mode: "Build".to_string(),
        features: if is_local { vec![] } else { strings(&["std", "x"]) },
        is_local,
        deps,
    }
}

#[test]
fn the_plan_is_printed() {
    let units = vec![
        plan_unit("app", vec![(1, "dep_a".to_string())], true),
        plan_unit("dep-a", vec![], false),
    ];
    let plan = build_plan(&units, &vec![0]);
    assert_eq!(plan.roots, strings(&["app-1.0.0-app-0"]));
    assert_eq!(plan.units[0].deps[0].unit_id, "dep-a-1.0.0-dep-a-1");
    assert_ne!(plan.units[0].id, plan.units[1].id);
    let expected = "
=== Build Plan: 2 units ===

  app v1.0.0 (target: app, kind: Lib, mode: Build) (local) [ROOT]
    -> dep-a-1.0.0-dep-a-1 (as dep_a)
  dep-a v1.0.0 (target: dep-a, kind: Lib, mode: Build)
    features: std, x

";
    assert_eq!(format_build_plan(&plan), expected);
}

#[test]
fn the_graph_is_drawn() {
    let mut app = unit("app", UnitKind::Compile, &["bin"]);
    app.is_root = true;
    app.dep_extern = vec![
        ("mac".to_string(), "mac".to_string()),
        ("gone".to_string(), "gone".to_string()),
    ];
    app.build_script_dep = Some("app-run".to_string());
    let mac = unit("mac", UnitKind::Compile, &["proc-macro"]);
    let mut run = unit("app-run", UnitKind::BuildScriptRun, &[]);
    run.drv_name = "app-1.0.0-build-script-build-run-build-script".to_string();
    run.build_script_compile_key = Some("mac".to_string());
    let text = format_mermaid_graph(&vec![app, mac, run]);
    let expected = "graph LR
    n0([\"app [bin]\"]):::root
    n1[[\"mac [proc-macro]\"]]:::pmacro
    n2{{\"build(app) [run]\"}}:::build

    n0 --> n1
    n0 -.-> n2
    n2 --> n1

    classDef root fill:#f6d365,stroke:#f39c12,color:#000
    classDef local fill:#a8e6cf,stroke:#2ecc71,color:#000
    classDef dep fill:#74b9ff,stroke:#0984e3,color:#000
    classDef pmacro fill:#a29bfe,stroke:#6c5ce7,color:#000
    classDef build fill:#dfe6e9,stroke:#636e72,color:#000
";
    assert_eq!(text, expected);
}

// -- toolchains -----------------------------------------------------------------------

#[test]
fn cached_units_move_to_the_new_source() {
    let mut units = vec![unit("a", UnitKind::Compile, &["lib"])];
    refresh_cached_units(&mut units, "/nix/store/src", "/nix/store/new");
    assert_eq!(units[0].source_file, "/nix/store/new/a/src/lib.rs");
    assert_eq!(units[0].manifest_dir, "/nix/store/new/a");
    set_original_manifest_dirs(&mut units, "/nix/store/new", "/p");
    assert_eq!(units[0].original_manifest_dir, "/p/a");
}

#[test]
fn roots_in_the_store() {
    assert_eq!(
        store_root_of("/nix/store/abc-x/lib/y").as_deref(),
        Some("/nix/store/abc-x")
    );
    assert_eq!(store_root_of("/usr/lib"), None);
    assert_eq!(
        search_path_roots("/nix/store/a-x/lib:/nix/store/a-x/share:/usr:/nix/store/b-y/bin:/nix/store/c-z"),
        strings(&["/nix/store/a-x", "/nix/store/b-y"])
    );
    let envs = vec![
        ("A".to_string(), "/nix/store/a-x/bin".to_string()),
        ("B".to_string(), "plain:/nix/store/b-y".to_string()),
    ];
    assert_eq!(
        passthru_roots(&envs),
        strings(&["/nix/store/a-x", "/nix/store/b-y"])
    );
}

#[test]
fn closures_of_tools() {
    let mut cache: StrMap<Vec<String>> = StrMap::new();
    cache.insert("/a".to_string(), strings(&["/a", "/c"]));
    cache.insert("/b".to_string(), strings(&["/c", "/b"]));
    assert_eq!(uncached_paths(&strings(&["/a", "/x"]), &cache), strings(&["/x"]));
    assert_eq!(cached_closure(&cache, "/b"), strings(&["/c", "/b"]));
    assert!(cached_closure(&cache, "/x").is_empty());
    assert_eq!(
        union_of_closures(&cache, &strings(&["/a", "/x", "/b"])),
        strings(&["/a", "/c", "/b"])
    );
}

#[test]
fn system_libraries_are_asked_for_once() {
    let mut first = unit("ssl-sys", UnitKind::Compile, &["lib"]);
    first.links = Some("ssl".to_string());
    first.cargo_envs = vec![("CARGO_PKG_NAME".to_string(), "openssl-sys".to_string())];
    let mut second = unit("other", UnitKind::Compile, &["lib"]);
    second.links = Some("ssl".to_string());
    let mut third = unit("z_sys", UnitKind::Compile, &["lib"]);
    third.links = Some("z".to_string());
    assert_eq!(
        system_libraries(&vec![first, second, third]),
        vec![
            ("ssl".to_string(), "openssl-sys".to_string()),
            ("z".to_string(), "z_sys".to_string())
        ]
    );
}

#[test]
fn paths_of_toolchains() {
    assert_eq!(pkg_config_search_path("/t", "/b"), "/t:/b");
    assert_eq!(pkg_config_search_path("", "/b"), "/b");
    assert_eq!(
        win_sdk_lib_dirs("/nix/store/s-sdk", "x64"),
        strings(&[
            "/nix/store/s-sdk/crt/lib/x64",
            "/nix/store/s-sdk/sdk/lib/um/x64",
            "/nix/store/s-sdk/sdk/lib/ucrt/x64"
        ])
    );
    assert_eq!(win_sdk_store("/nix/store/s-sdk/splat"), "/nix/store/s-sdk");
    let roots = ClosureRoots {
        rustc_store: "/r".to_string(),
        host_cc_store: "/h".to_string(),
        target_cc_store: "/t".to_string(),
        clippy_store: None,
        win_sdk_store: None,
        sys_store_roots: strings(&["/s"]),
        pkg_config_store: Some("/pc".to_string()),
        passthru_store_roots: vec![],
    };
    let native = closure_store_paths(&roots, false);
    assert!(native.contains(&"/h".to_string()) && !native.contains(&"/t".to_string()));
    assert!(closure_store_paths(&roots, true).contains(&"/t".to_string()));
    assert_eq!(
        library_warning("z", "libz-sys"),
        "System library 'z' (needed by libz-sys) not found via pkg-config. Add the corresponding package to buildInputs to make it available."
    );
}
