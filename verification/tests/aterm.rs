use cargo_schnee::aterm::{
    aterm_string, collect_drv_refs, compute_drv_store_path, serialize_derivation_aterm,
};
use cargo_schnee::derivation::make_derivation;
use cargo_schnee::json_text::parse_json;

const ALPHABET: &str = "0123456789abcdfghijklmnpqrsvwxyz";

fn strings(v: &[&str]) -> Vec<String> {
    v.iter().map(|s| s.to_string()).collect()
}

#[test]
fn aterm_string_basic() {
    let mut out = Vec::new();
    aterm_string(&mut out, "hello");
    assert_eq!(out, b"\"hello\"");
}

#[test]
fn aterm_string_escaping() {
    let mut out = Vec::new();
    aterm_string(&mut out, "a\\b\"c\nd\te");
    assert_eq!(out, b"\"a\\\\b\\\"c\\nd\\te\"");
}

#[test]
fn aterm_string_empty() {
    let mut out = Vec::new();
    aterm_string(&mut out, "");
    assert_eq!(out, b"\"\"");
}

#[test]
fn compute_drv_store_path_deterministic() {
    let aterm =
        b"Derive([],[],[],\"x86_64-linux\",\"/bin/sh\",[\"-c\",\"echo\"],[(\"out\",\"\")])";
    let refs: Vec<String> = vec![];
    let p1 = compute_drv_store_path("test.drv", aterm, &refs);
    let p2 = compute_drv_store_path("test.drv", aterm, &refs);
    assert_eq!(p1, p2);
}

#[test]
fn compute_drv_store_path_format() {
    let aterm = b"Derive(stuff)";
    let p = compute_drv_store_path("test.drv", aterm, &vec![]);
    assert!(p.starts_with("/nix/store/"));
    assert!(p.ends_with("-test.drv"));
    let hash = &p["/nix/store/".len()..p.len() - "-test.drv".len()];
    assert_eq!(hash.len(), 32);
    assert!(hash.chars().all(|c| ALPHABET.contains(c)));
}

#[test]
fn compute_drv_store_path_ref_order_independent() {
    let aterm = b"Derive(test)";
    let p1 = compute_drv_store_path(
        "x.drv",
        aterm,
        &strings(&["/nix/store/aaa-a", "/nix/store/bbb-b"]),
    );
    let p2 = compute_drv_store_path(
        "x.drv",
        aterm,
        &strings(&["/nix/store/bbb-b", "/nix/store/aaa-a"]),
    );
    assert_eq!(p1, p2);
}

#[test]
fn serialize_derivation_aterm_minimal() {
    let json = parse_json(
        r#"{
            "name": "test",
            "system": "x86_64-linux",
            "builder": "/bin/sh",
            "args": ["-c", "echo hi"],
            "env": {"out": "/placeholder"},
            "inputDrvs": {},
            "inputSrcs": [],
            "outputs": {"out": {"hashAlgo": "sha256", "method": "nar"}}
        }"#,
    )
    .unwrap();
    let aterm = serialize_derivation_aterm(&json).unwrap();
    let s = String::from_utf8(aterm).unwrap();
    assert!(s.starts_with("Derive("));
    assert!(s.ends_with(')'));
    assert!(s.contains("\"x86_64-linux\""));
    assert_eq!(
        s,
        "Derive([(\"out\",\"\",\"r:sha256\",\"\")],[],[],\"x86_64-linux\",\"/bin/sh\",[\"-c\",\"echo hi\"],[(\"out\",\"/placeholder\")])"
    );
}

#[test]
fn serialize_derivation_aterm_missing_outputs() {
    let json = parse_json(
        r#"{
            "system": "x86_64-linux",
            "builder": "/bin/sh",
            "args": [],
            "env": {},
            "inputDrvs": {},
            "inputSrcs": []
        }"#,
    )
    .unwrap();
    let err = serialize_derivation_aterm(&json).unwrap_err();
    assert!(
        err.contains("outputs"),
        "expected 'outputs' in error: {}",
        err
    );
}

#[test]
fn serialize_derivation_aterm_missing_env() {
    let json = parse_json(
        r#"{
            "outputs": {"out": {"hashAlgo": "sha256", "method": "nar"}},
            "system": "x86_64-linux",
            "builder": "/bin/sh",
            "args": [],
            "inputDrvs": {},
            "inputSrcs": []
        }"#,
    )
    .unwrap();
    let err = serialize_derivation_aterm(&json).unwrap_err();
    assert!(err.contains("env"), "expected 'env' in error: {}", err);
}

#[test]
fn serialize_derivation_aterm_non_string_env_value() {
    let json = parse_json(
        r#"{
            "outputs": {"out": {"hashAlgo": "sha256", "method": "nar"}},
            "system": "x86_64-linux",
            "builder": "/bin/sh",
            "args": [],
            "env": {"out": 42},
            "inputDrvs": {},
            "inputSrcs": []
        }"#,
    )
    .unwrap();
    let err = serialize_derivation_aterm(&json).unwrap_err();
    assert!(
        err.contains("non-string env value"),
        "expected 'non-string env value' in error: {}",
        err
    );
}

#[test]
fn serialize_derivation_aterm_non_string_arg() {
    let json = parse_json(
        r#"{
            "outputs": {"out": {"hashAlgo": "sha256", "method": "nar"}},
            "system": "x86_64-linux",
            "builder": "/bin/sh",
            "args": [42],
            "env": {"out": "/placeholder"},
            "inputDrvs": {},
            "inputSrcs": []
        }"#,
    )
    .unwrap();
    let err = serialize_derivation_aterm(&json).unwrap_err();
    assert!(
        err.contains("non-string in args"),
        "expected 'non-string in args' in error: {}",
        err
    );
}

#[test]
fn names_are_sorted_and_lists_keep_their_order() {
    let json = parse_json(
        r#"{
            "outputs": {"out": {"hashAlgo": "sha256", "method": "nar"}},
            "system": "s",
            "builder": "b",
            "args": [],
            "env": {"b": "2", "a": "1"},
            "inputDrvs": {
                "/nix/store/bbb.drv": {"dynamicOutputs": {}, "outputs": ["out"]},
                "/nix/store/aaa.drv": {"dynamicOutputs": {}, "outputs": ["out", "dev"]}
            },
            "inputSrcs": ["/nix/store/zzz", "/nix/store/yyy"]
        }"#,
    )
    .unwrap();
    let s = String::from_utf8(serialize_derivation_aterm(&json).unwrap()).unwrap();
    assert_eq!(
        s,
        "Derive([(\"out\",\"\",\"r:sha256\",\"\")],[(\"/nix/store/aaa.drv\",[\"out\",\"dev\"]),(\"/nix/store/bbb.drv\",[\"out\"])],[\"/nix/store/zzz\",\"/nix/store/yyy\"],\"s\",\"b\",[],[(\"a\",\"1\"),(\"b\",\"2\")])"
    );
    let mut refs = collect_drv_refs(&json);
    refs.sort();
    assert_eq!(
        refs,
        strings(&[
            "/nix/store/aaa.drv",
            "/nix/store/bbb.drv",
            "/nix/store/yyy",
            "/nix/store/zzz"
        ])
    );
}

#[test]
fn the_path_depends_on_all_it_is_computed_from() {
    let base = compute_drv_store_path("x.drv", b"one", &strings(&["/nix/store/a"]));
    assert_ne!(base, compute_drv_store_path("y.drv", b"one", &strings(&["/nix/store/a"])));
    assert_ne!(base, compute_drv_store_path("x.drv", b"two", &strings(&["/nix/store/a"])));
    assert_ne!(base, compute_drv_store_path("x.drv", b"one", &strings(&["/nix/store/b"])));
}

#[test]
fn derivations_that_differ_are_written_differently() {
    let list = |v: &[&str]| v.iter().map(|s| s.to_string()).collect::<Vec<String>>();
    let write = |system: &str, script: &str, drvs: &[&str], srcs: &[&str]| {
        let json = make_derivation("n", system, "/bin/sh", script, &list(drvs), &list(srcs));
        serialize_derivation_aterm(&json).unwrap()
    };
    let plain = write("s", "true", &["/nix/store/a.drv"], &["/nix/store/b"]);
    assert_ne!(plain, write("t", "true", &["/nix/store/a.drv"], &["/nix/store/b"]));
    assert_ne!(plain, write("s", "false", &["/nix/store/a.drv"], &["/nix/store/b"]));
    assert_ne!(plain, write("s", "true", &[], &["/nix/store/b"]));
    assert_ne!(plain, write("s", "true", &["/nix/store/a.drv"], &[]));
    // A quote or a comma does not blur where a string ends.
    assert_ne!(
        write("s", "true", &[], &["a\",\"b"]),
        write("s", "true", &[], &["a", "b"])
    );
}
