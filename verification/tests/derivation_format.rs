use cargo_schnee::derivation_format::{parse_version, NixDerivation, StoreDir, TargetNix};
use cargo_schnee::json::Json;
use cargo_schnee::json_text::parse_json;

#[test]
fn version_dispatch() {
    assert_eq!(TargetNix::for_version(2, 18), TargetNix::PreNix232);
    assert_eq!(TargetNix::for_version(2, 31), TargetNix::PreNix232);
    assert_eq!(TargetNix::for_version(2, 32), TargetNix::Nix232);
    assert_eq!(TargetNix::for_version(2, 33), TargetNix::Nix233);
    assert_eq!(TargetNix::for_version(2, 34), TargetNix::Nix233);
    assert_eq!(TargetNix::for_version(3, 0), TargetNix::Nix233);
}

#[test]
fn parses_daemon_and_cli_version_strings() {
    // Daemon protocol >= 1.33 sends a bare version string.
    assert_eq!(parse_version("2.34.7"), Some((2, 34)));
    assert_eq!(parse_version("2.31.3\n"), Some((2, 31)));
    // `nix --version` CLI output.
    assert_eq!(parse_version("nix (Nix) 2.31.3\n"), Some((2, 31)));
    assert_eq!(parse_version("nix (Nix) 2.34.7"), Some((2, 34)));
    // Lix CLI marker.
    assert_eq!(parse_version("lix (Lix, like Nix) 2.93.0"), Some((2, 93)));
    // Edge cases — fail loudly rather than guess.
    assert_eq!(parse_version(""), None);
    assert_eq!(parse_version("nix-2.18.1\n"), None);
}

#[test]
fn store_dir_strips_default_prefix() {
    let s = StoreDir::new("/nix/store");
    assert_eq!(s.basename("/nix/store/abc-foo"), "abc-foo");
    assert_eq!(s.basename("/nix/store/abc-foo.drv"), "abc-foo.drv");
    // Non-matching prefix is passed through untouched.
    assert_eq!(s.basename("not-a-store-path"), "not-a-store-path");
}

#[test]
fn store_dir_strips_custom_prefix() {
    let s = StoreDir::new("/opt/nix/store");
    assert_eq!(s.basename("/opt/nix/store/zzz-bar"), "zzz-bar");
    // The default prefix must NOT be stripped against a custom store.
    assert_eq!(s.basename("/nix/store/zzz-bar"), "/nix/store/zzz-bar");
}

fn ir(store: &str) -> Json {
    parse_json(
        &r#"{
            "name": "anstyle-1.0.14-anstyle",
            "system": "x86_64-linux",
            "builder": "STORE/aaa-bash/bin/bash",
            "args": ["-c", "exit 0"],
            "env": { "out": "placeholder" },
            "inputDrvs": {
                "STORE/bbb-coreutils.drv": {
                    "dynamicOutputs": {},
                    "outputs": ["out"]
                }
            },
            "inputSrcs": [
                "STORE/ccc-glibc",
                "STORE/ddd-vendor"
            ],
            "outputs": { "out": { "hashAlgo": "sha256", "method": "nar" } }
        }"#
        .replace("STORE", store),
    )
    .unwrap()
}

fn text_of(j: &Json) -> &str {
    match j {
        Json::Text(s) => s.as_str(),
        _ => panic!("no text"),
    }
}

fn keys(j: &Json) -> Vec<&str> {
    match j {
        Json::Object(members) => members.iter().map(|(k, _)| k.as_str()).collect(),
        _ => panic!("no object"),
    }
}

fn texts(j: &Json) -> Vec<&str> {
    match j {
        Json::Array(items) => items.iter().map(text_of).collect(),
        _ => panic!("no array"),
    }
}

fn number(j: &Json) -> u64 {
    match j {
        Json::Number(n) => *n,
        _ => panic!("no number"),
    }
}

#[test]
fn pre_nix232_passthrough_keeps_full_paths() {
    let store = StoreDir::new("/nix/store");
    let drv = NixDerivation::from_ir(&ir("/nix/store"), TargetNix::PreNix232, &store).unwrap();
    let v = drv.to_json();

    // No version key; structural store paths stay full.
    assert!(v.get("version").is_none());
    assert!(keys(v.get("inputDrvs").unwrap()).contains(&"/nix/store/bbb-coreutils.drv"));
    let srcs = texts(v.get("inputSrcs").unwrap());
    assert_eq!(srcs[0], "/nix/store/ccc-glibc");
    assert_eq!(srcs[1], "/nix/store/ddd-vendor");
}

#[test]
fn nix232_strips_store_dir_and_stamps_version_3() {
    let store = StoreDir::new("/nix/store");
    let drv = NixDerivation::from_ir(&ir("/nix/store"), TargetNix::Nix232, &store).unwrap();
    let v = drv.to_json();

    assert_eq!(number(v.get("version").unwrap()), 3);
    assert!(keys(v.get("inputDrvs").unwrap()).contains(&"bbb-coreutils.drv"));
    let srcs = texts(v.get("inputSrcs").unwrap());
    assert_eq!(srcs[0], "ccc-glibc");
    assert_eq!(srcs[1], "ddd-vendor");

    // Builder and args stay verbatim — store paths there are content,
    // not structural.
    assert_eq!(text_of(v.get("builder").unwrap()), "/nix/store/aaa-bash/bin/bash");
    assert_eq!(texts(v.get("args").unwrap()), vec!["-c", "exit 0"]);
}

#[test]
fn nix233_nests_inputs_and_stamps_version_4() {
    let store = StoreDir::new("/nix/store");
    let drv = NixDerivation::from_ir(&ir("/nix/store"), TargetNix::Nix233, &store).unwrap();
    let v = drv.to_json();

    assert_eq!(number(v.get("version").unwrap()), 4);
    assert!(v.get("inputDrvs").is_none());
    assert!(v.get("inputSrcs").is_none());

    let inputs = v.get("inputs").unwrap();
    assert!(keys(inputs.get("drvs").unwrap()).contains(&"bbb-coreutils.drv"));
    let srcs = texts(inputs.get("srcs").unwrap());
    assert_eq!(srcs[0], "ccc-glibc");
    assert_eq!(srcs[1], "ddd-vendor");

    // Inner shape preserved: v4 keeps `{outputs, dynamicOutputs}` per drv.
    let dep = inputs.get("drvs").unwrap().get("bbb-coreutils.drv").unwrap();
    assert_eq!(texts(dep.get("outputs").unwrap()), vec!["out"]);
    assert!(keys(dep.get("dynamicOutputs").unwrap()).is_empty());
}

#[test]
fn nix233_top_level_keys_match_upstream_schema() {
    let store = StoreDir::new("/nix/store");
    let drv = NixDerivation::from_ir(&ir("/nix/store"), TargetNix::Nix233, &store).unwrap();
    let v = drv.to_json();
    let mut keys: Vec<&str> = keys(&v);
    keys.sort();
    assert_eq!(
        keys,
        vec!["args", "builder", "env", "inputs", "name", "outputs", "system", "version"],
    );
}

#[test]
fn conversion_honours_custom_store_dir() {
    let store = StoreDir::new("/opt/nix/store");
    let drv = NixDerivation::from_ir(&ir("/opt/nix/store"), TargetNix::Nix233, &store).unwrap();
    let v = drv.to_json();

    let inputs = v.get("inputs").unwrap();
    let drvs = keys(inputs.get("drvs").unwrap());
    assert!(
        drvs.contains(&"bbb-coreutils.drv"),
        "basename should be stripped against the custom store dir, got: {:?}",
        drvs,
    );
    assert_eq!(texts(inputs.get("srcs").unwrap())[0], "ccc-glibc");
}

#[test]
fn conversion_rejects_other_documents() {
    let store = StoreDir::new("/nix/store");
    assert!(NixDerivation::from_ir(&Json::Null, TargetNix::Nix233, &store).is_err());
    let no_name = parse_json(r#"{"system": "s"}"#).unwrap();
    assert!(NixDerivation::from_ir(&no_name, TargetNix::PreNix232, &store).is_err());
}

#[test]
fn store_dir_with_a_trailing_slash() {
    assert_eq!(StoreDir::new("/nix/store/").basename("/nix/store/x"), "x");
}
