use cargo_schnee::util::{
    collect_store_paths, is_sysroot_rlib, linker_candidates, linker_env_key, no_linker_message,
    sanitize_drv_name, shell_quote,
};

fn has(paths: &Vec<String>, p: &str) -> bool {
    paths.iter().any(|q| q == p)
}

#[test]
fn shell_quote_plain() {
    assert_eq!(shell_quote("hello"), "hello");
    assert_eq!(shell_quote("/nix/store/abc-def"), "/nix/store/abc-def");
}

#[test]
fn shell_quote_special() {
    assert_eq!(shell_quote("hello world"), "'hello world'");
    assert_eq!(shell_quote("it's"), r"'it'\''s'");
}

#[test]
fn shell_quote_dollar_out() {
    assert_eq!(shell_quote("$out"), "$out");
    assert_eq!(shell_quote("$HOME"), "$HOME");
}

#[test]
fn sanitize_drv_name_basic() {
    assert_eq!(sanitize_drv_name("hello-world_1.0"), "hello-world_1.0");
}

#[test]
fn sanitize_drv_name_leading_dot() {
    assert_eq!(sanitize_drv_name(".hidden"), "_.hidden");
}

#[test]
fn sanitize_drv_name_spaces() {
    assert_eq!(sanitize_drv_name("hello world!"), "hello-world-");
}

#[test]
fn collect_store_paths_finds_paths() {
    let mut paths = Vec::new();
    collect_store_paths(
        "something /nix/store/aaaaaaaaaaaaaaaaaaaaaaaaaaaaaaaa-foo and /nix/store/bbbbbbbbbbbbbbbbbbbbbbbbbbbbbbbb-bar/bin",
        &mut paths,
    );
    assert!(has(&paths, "/nix/store/aaaaaaaaaaaaaaaaaaaaaaaaaaaaaaaa-foo"));
    assert!(has(&paths, "/nix/store/bbbbbbbbbbbbbbbbbbbbbbbbbbbbbbbb-bar"));
}

#[test]
fn collect_store_paths_no_paths() {
    let mut paths = Vec::new();
    collect_store_paths("no nix paths here", &mut paths);
    assert!(paths.is_empty());
}

#[test]
fn collect_store_paths_multiple_in_string() {
    let mut paths = Vec::new();
    let input = format!(
        "{} {} {}",
        "/nix/store/aaaaaaaaaaaaaaaaaaaaaaaaaaaaaaaa-gcc",
        "/nix/store/bbbbbbbbbbbbbbbbbbbbbbbbbbbbbbbb-glibc/lib",
        "/nix/store/cccccccccccccccccccccccccccccccc-rust"
    );
    collect_store_paths(&input, &mut paths);
    assert_eq!(paths.len(), 3);
}

#[test]
fn collect_store_paths_skips_invalid_base32() {
    let mut paths = Vec::new();
    // 'e' is not in the Nix base32 alphabet — this matches clang wrapper placeholders
    collect_store_paths(
        "/nix/store/eeeeeeeeeeeeeeeeeeeeeeeeeeeeeeee-gcc-15.2.0",
        &mut paths,
    );
    assert!(paths.is_empty(), "placeholder path should be rejected");
}

#[test]
fn collect_store_paths_mixed_valid_and_placeholder() {
    let mut paths = Vec::new();
    let input = "-I/nix/store/eeeeeeeeeeeeeeeeeeeeeeeeeeeeeeee-gcc-15.2.0/include \
                  -L/nix/store/aaaaaaaaaaaaaaaaaaaaaaaaaaaaaaaa-glibc/lib";
    collect_store_paths(input, &mut paths);
    assert_eq!(paths.len(), 1);
    assert!(has(&paths, "/nix/store/aaaaaaaaaaaaaaaaaaaaaaaaaaaaaaaa-glibc"));
}

#[test]
fn collect_store_paths_no_dash_at_32() {
    let mut paths = Vec::new();
    collect_store_paths("/nix/store/aaaaaaaaaaaaaaaaaaaaaaaaaaaaaaaafoo", &mut paths);
    assert!(paths.is_empty());
}

#[test]
fn collect_store_paths_nested() {
    let mut paths = Vec::new();
    collect_store_paths(
        "/nix/store/aaaaaaaaaaaaaaaaaaaaaaaaaaaaaaaa-outer/nix/store/bbbbbbbbbbbbbbbbbbbbbbbbbbbbbbbb-inner",
        &mut paths,
    );
    assert!(has(&paths, "/nix/store/aaaaaaaaaaaaaaaaaaaaaaaaaaaaaaaa-outer"));
    assert!(has(&paths, "/nix/store/bbbbbbbbbbbbbbbbbbbbbbbbbbbbbbbb-inner"));
}

#[test]
fn collect_store_paths_at_string_boundary() {
    let mut paths = Vec::new();
    collect_store_paths(
        "/nix/store/aaaaaaaaaaaaaaaaaaaaaaaaaaaaaaaa-start",
        &mut paths,
    );
    assert!(has(&paths, "/nix/store/aaaaaaaaaaaaaaaaaaaaaaaaaaaaaaaa-start"));
}

#[test]
fn shell_quote_dollar_passthrough() {
    assert_eq!(shell_quote("$out"), "$out");
    assert_eq!(shell_quote("$out/bin"), "$out/bin");
}

#[test]
fn linker_of_a_target() {
    assert_eq!(
        linker_env_key("aarch64-unknown-linux-gnu"),
        "CARGO_TARGET_AARCH64_UNKNOWN_LINUX_GNU_LINKER"
    );
    let names = linker_candidates("aarch64-unknown-linux-gnu");
    assert!(!names.is_empty());
    assert!(names.iter().all(|n| n.starts_with("aarch64-")));
    assert!(no_linker_message("aarch64-unknown-linux-gnu").contains("aarch64-unknown-linux-gnu"));
}

#[test]
fn sysroot_libraries() {
    assert!(is_sysroot_rlib("libproc_macro-0123.rlib", "proc_macro"));
    assert!(!is_sysroot_rlib("libproc_macro-0123.rmeta", "proc_macro"));
    assert!(!is_sysroot_rlib("libstd-0123.rlib", "proc_macro"));
}
