use cargo_schnee::manifest::{
    declares_workspace, read_bin_target_name, read_custom_sys_env, read_extra_includes,
    read_member_patterns, read_package_name, read_package_version, read_resolution_scope,
};
use cargo_schnee::resolution::{ResolutionScope, ResolutionSpec};
use cargo_schnee::toml_doc::{parse_toml, write_toml, Toml};

const PATH: &str = "/project/Cargo.toml";

#[test]
fn read_bin_target_name_from_package() {
    let manifest = r#"
[package]
name = "my-app"
version = "0.1.0"
edition = "2021"
"#;
    assert_eq!(read_bin_target_name(manifest, PATH).unwrap(), "my-app");
}

#[test]
fn read_bin_target_name_from_bin() {
    let manifest = r#"
[package]
name = "my-app"
version = "0.1.0"
edition = "2021"

[[bin]]
name = "custom-bin"
path = "src/main.rs"
"#;
    assert_eq!(read_bin_target_name(manifest, PATH).unwrap(), "custom-bin");
}

#[test]
fn read_bin_target_name_missing() {
    let err = read_bin_target_name("[dependencies]\n", PATH).unwrap_err();
    assert_eq!(
        err.message,
        "Could not determine binary name from /project/Cargo.toml"
    );
}

#[test]
fn read_package_version_present() {
    let manifest = r#"
[package]
name = "foo"
version = "1.2.3"
"#;
    assert_eq!(read_package_version(manifest), Some("1.2.3".to_string()));
}

#[test]
fn read_package_version_missing() {
    assert_eq!(read_package_version("[dependencies]\n"), None);
}

#[test]
fn package_names() {
    assert_eq!(
        read_package_name("[package]\nname = \"a\"\n", PATH).unwrap(),
        "a"
    );
    let err = read_package_name("[workspace]\n", PATH).unwrap_err();
    assert_eq!(
        err.message,
        "No [package].name found in /project/Cargo.toml"
    );
    let err = read_package_name("[package", PATH).unwrap_err();
    assert_eq!(err.message, "Failed to parse /project/Cargo.toml");
    assert!(err.cause.is_some());
}

#[test]
fn workspaces_and_members() {
    assert!(declares_workspace("[workspace]\nmembers = [\"*\"]\n"));
    assert!(!declares_workspace("[package]\nname = \"a\"\n"));
    assert!(!declares_workspace("not toml ["));
    assert_eq!(
        read_member_patterns("[workspace]\nmembers = [\"a\", \"b/*\", 3]\n", PATH).unwrap(),
        Some(vec!["a".to_string(), "b/*".to_string()])
    );
    assert_eq!(read_member_patterns("[package]\n", PATH).unwrap(), None);
    assert!(read_member_patterns("[package", PATH).is_err());
}

#[test]
fn extra_files() {
    let both = "[workspace.metadata.schnee]\nextra-includes = [\"a\", \"b\"]\n[package.metadata.schnee]\nextra-includes = [\"c\"]\n";
    assert_eq!(read_extra_includes(both), vec!["a", "b"]);
    let package = "[package.metadata.schnee]\nextra-includes = [\"c\"]\n";
    assert_eq!(read_extra_includes(package), vec!["c"]);
    assert!(read_extra_includes("[package]\n").is_empty());
    assert!(read_extra_includes("[").is_empty());
}

#[test]
fn variables_of_system_libraries() {
    let text = "[workspace.metadata.schnee.sys-env]\nfoo = \"FOO_NO_VENDOR\"\nbar = \"B\"\nn = 3\n";
    assert_eq!(
        read_custom_sys_env(text),
        vec![
            ("bar".to_string(), "B".to_string()),
            ("foo".to_string(), "FOO_NO_VENDOR".to_string()),
        ]
    );
    assert!(read_custom_sys_env("[package]\n").is_empty());
}

// -- resolution scope -------------------------------------------------------------

#[test]
fn target_key_wins_over_default() {
    let text = "[workspace.metadata.schnee.resolution]\n\
         default = \"workspace\"\n\
         x86_64-pc-windows-msvc = { packages = [\"a\", \"b\"] }\n";
    let scope = read_resolution_scope(text, PATH, "x86_64-pc-windows-msvc").unwrap();
    assert_eq!(scope.key, "x86_64-pc-windows-msvc");
    assert_eq!(
        scope.spec,
        ResolutionSpec::Packages(vec!["a".into(), "b".into()]),
    );
}

#[test]
fn unknown_key_falls_back_to_default() {
    let text = "[workspace.metadata.schnee.resolution]\ndefault = \"workspace\"\n";
    let scope = read_resolution_scope(text, PATH, "aarch64-unknown-linux-gnu").unwrap();
    assert_eq!(scope.key, "default");
    assert_eq!(scope.spec, ResolutionSpec::Workspace);
    assert_eq!(
        scope.manifest_key(),
        "workspace.metadata.schnee.resolution.default",
    );
}

#[test]
fn exclude_subtracts_from_packages() {
    let text = "[workspace.metadata.schnee.resolution]\n\
         default = { packages = [\"a\", \"b\", \"c\"], exclude = [\"b\"] }\n";
    let scope = read_resolution_scope(text, PATH, "default").unwrap();
    assert_eq!(
        scope.spec,
        ResolutionSpec::Packages(vec!["a".into(), "c".into()]),
    );
}

#[test]
fn exclude_alone_opts_out_of_the_workspace() {
    let text = "[workspace.metadata.schnee.resolution]\n\
         default = { exclude = [\"slow\"] }\n";
    let scope = read_resolution_scope(text, PATH, "default").unwrap();
    assert_eq!(scope.spec, ResolutionSpec::Exclude(vec!["slow".into()]));
}

/// A member declaring its own scope would reintroduce the divergence
/// the scope exists to remove, so only the workspace table is read.
#[test]
fn package_table_is_not_read() {
    let text = "[package.metadata.schnee.resolution]\ndefault = \"workspace\"\n";
    let err = read_resolution_scope(text, PATH, "default").unwrap_err().message;
    assert!(
        err.contains("[workspace.metadata.schnee.resolution]"),
        "{err}"
    );
}

#[test]
fn missing_key_and_no_default_is_an_error() {
    let text = "[workspace.metadata.schnee.resolution]\nx86_64-pc-windows-msvc = \"workspace\"\n";
    let err = read_resolution_scope(text, PATH, "aarch64-apple-darwin")
        .unwrap_err()
        .message;
    assert!(err.contains("`default` key"), "{err}");
}

#[test]
fn unknown_field_is_rejected() {
    let text = "[workspace.metadata.schnee.resolution]\ndefault = { members = [\"a\"] }\n";
    let err = read_resolution_scope(text, PATH, "default").unwrap_err().message;
    assert!(err.contains("unknown field"), "{err}");
}

#[test]
fn only_workspace_is_an_accepted_string() {
    let text = "[workspace.metadata.schnee.resolution]\ndefault = \"all\"\n";
    let err = read_resolution_scope(text, PATH, "default").unwrap_err().message;
    assert!(err.contains("\"workspace\""), "{err}");
}

#[test]
fn cache_component_names_key_and_selection() {
    let scope = ResolutionScope {
        key: "x86_64-pc-windows-msvc".into(),
        spec: ResolutionSpec::Packages(vec!["a".into(), "b".into()]),
    };
    assert_eq!(
        scope.cache_component(),
        "scope:x86_64-pc-windows-msvc:packages=a,b",
    );
}

// -- documents --------------------------------------------------------------------

#[test]
fn documents_survive_a_round_trip() {
    let text = "a = 1\nb = [1.5, true, \"x\"]\n\n[c]\nd = 1979-05-27T07:32:00Z\n";
    let tree = parse_toml(text).unwrap();
    match tree.get("b") {
        Some(Toml::Array(items)) => assert_eq!(items.len(), 3),
        _ => panic!("no array"),
    }
    let again = write_toml(tree).unwrap();
    let back: toml::Value = toml::from_str(&again).unwrap();
    let first: toml::Value = toml::from_str(text).unwrap();
    assert_eq!(back, first);
}

#[test]
fn broken_documents_are_refused() {
    assert!(parse_toml("a = ").is_err());
    assert!(parse_toml("a = 1\na = 2\n").is_err());
}
