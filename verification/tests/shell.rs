use cargo_schnee::shell::{
    align_right, parse_building_line, parse_drv_display, skip_hash, status_line, DrvKind,
};

#[test]
fn parse_drv_display_compile() {
    let (pkg, ver, kind) = parse_drv_display(
        "/nix/store/aaaaaaaaaaaaaaaaaaaaaaaaaaaaaaaa-serde-1.0.210-serde-abcdef0123456789.drv",
    );
    assert_eq!(pkg, "serde");
    assert_eq!(ver, "1.0.210");
    assert_eq!(kind, DrvKind::Compile);
}

#[test]
fn parse_drv_display_build_script_run() {
    let (pkg, ver, kind) = parse_drv_display(
        "/nix/store/aaaaaaaaaaaaaaaaaaaaaaaaaaaaaaaa-openssl-sys-0.9.104-build-script-run-build-script.drv",
    );
    assert_eq!(pkg, "openssl-sys");
    assert_eq!(ver, "0.9.104");
    assert_eq!(kind, DrvKind::BuildScriptRun);
}

#[test]
fn parse_drv_display_build_script_compile() {
    let (pkg, ver, kind) = parse_drv_display(
        "/nix/store/aaaaaaaaaaaaaaaaaaaaaaaaaaaaaaaa-cc-1.2.5-build-script-build-script.drv",
    );
    assert_eq!(pkg, "cc");
    assert_eq!(ver, "1.2.5");
    assert_eq!(kind, DrvKind::BuildScriptCompile);
}

#[test]
fn parse_drv_display_no_version() {
    let (pkg, ver, kind) =
        parse_drv_display("/nix/store/aaaaaaaaaaaaaaaaaaaaaaaaaaaaaaaa-my-crate-target.drv");
    assert_eq!(pkg, "my-crate-target");
    assert!(ver.is_empty());
    assert_eq!(kind, DrvKind::Compile);
}

#[test]
fn parse_building_line_valid() {
    let line = "building '/nix/store/abc123-foo.drv'...";
    assert_eq!(parse_building_line(line), Some("/nix/store/abc123-foo.drv"));
}

#[test]
fn parse_building_line_not_drv() {
    let line = "building '/nix/store/abc123-foo.tar.gz'...";
    assert_eq!(parse_building_line(line), None);
}

#[test]
fn parse_building_line_no_match() {
    assert_eq!(parse_building_line("some other output"), None);
    assert_eq!(parse_building_line(""), None);
}

#[test]
fn parse_building_line_trims_and_needs_both_quotes() {
    assert_eq!(parse_building_line("  building '/x.drv'  "), Some("/x.drv"));
    assert_eq!(parse_building_line("building '/x.drv"), None);
}

#[test]
fn test_suffix_is_read_back() {
    let (pkg, ver, kind) =
        parse_drv_display("/nix/store/aaaaaaaaaaaaaaaaaaaaaaaaaaaaaaaa-a-b-2.0.1-x-test.drv");
    assert_eq!((pkg.as_str(), ver.as_str()), ("a-b", "2.0.1"));
    assert_eq!(kind, DrvKind::TestCompile);
}

#[test]
fn check_suffix_is_read_back() {
    let (pkg, ver, kind) =
        parse_drv_display("/nix/store/aaaaaaaaaaaaaaaaaaaaaaaaaaaaaaaa-a-b-2.0.1-x-check.drv");
    assert_eq!((pkg.as_str(), ver.as_str()), ("a-b", "2.0.1"));
    assert_eq!(kind, DrvKind::Check);
    assert_eq!(parse_drv_display("plain-check"), ("plain".to_string(), String::new(), DrvKind::Check));
}

#[test]
fn short_names_keep_everything() {
    let (pkg, ver, kind) = parse_drv_display("foo");
    assert_eq!((pkg.as_str(), ver.as_str()), ("foo", ""));
    assert_eq!(kind, DrvKind::Compile);
    // A leading part is never a version.
    assert_eq!(parse_drv_display("1.0-x").0, "1.0-x");
}

#[test]
fn hash_is_skipped_by_bytes() {
    assert_eq!(skip_hash("aaaaaaaaaaaaaaaaaaaaaaaaaaaaaaaa-name"), "name");
    assert_eq!(skip_hash("aaaaaaaaaaaaaaaaaaaaaaaaaaaaaaaaname"), "aaaaaaaaaaaaaaaaaaaaaaaaaaaaaaaaname");
    // Thirty-two bytes in sixteen characters.
    let wide = "éééééééééééééééé-name";
    assert_eq!(skip_hash(wide), "name");
}

#[test]
fn status_lines() {
    assert_eq!(status_line("Compiling", "foo v1", false), "   Compiling foo v1");
    assert_eq!(
        status_line("Compiling", "foo v1", true),
        "\x1b[1;32m   Compiling\x1b[0m foo v1"
    );
    assert_eq!(align_right("abc", 2), "abc");
    assert_eq!(align_right("abc", 5), format!("{:>5}", "abc"));
}
