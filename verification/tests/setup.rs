use cargo_schnee::setup::{
    de_unit_setup_kinds, default_unit_setup_kinds, unit_setup_scripts,
    unmatched_unit_setup_rules, unmatched_warning, UnitSetupRule,
};
use cargo_schnee::units::{NixUnit, UnitKind};
use serde::de::{Error, MapAccess, Visitor};
use serde::{Deserialize, Deserializer};

fn unit(pkg: &str, target: &str, kind: UnitKind, is_local: bool) -> NixUnit {
    NixUnit {
        key: format!("{pkg}-{target}-{kind:?}"),
        drv_name: format!("{pkg}-{target}"),
        kind,
        source_file: String::new(),
        crate_name: target.replace('-', "_"),
        crate_types: vec!["lib".to_string()],
        edition: "2021".to_string(),
        features: vec![],
        dep_extern: vec![],
        all_dep_keys: vec![],
        build_script_dep: None,
        build_script_compile_key: None,
        manifest_dir: String::new(),
        original_manifest_dir: String::new(),
        cargo_envs: vec![("CARGO_PKG_NAME".into(), pkg.into())],
        extra_filename: String::new(),
        needs_linker: false,
        is_local,
        links: None,
        links_dep_keys: vec![],
        is_root: false,
        target_name: String::new(),
        for_host: false,
        compile_test: false,
        self_contained_build_script: false,
        sliced_crate_rel: None,
        drv_path: None,
    }
}

/// A rule as callers write it.
struct Record(UnitSetupRule);

struct RecordVisitor;

impl<'de> Visitor<'de> for RecordVisitor {
    type Value = Record;

    fn expecting(&self, f: &mut std::fmt::Formatter) -> std::fmt::Result {
        f.write_str("a setup rule")
    }

    fn visit_map<A: MapAccess<'de>>(self, mut members: A) -> Result<Record, A::Error> {
        let (mut package, mut kinds, mut targets, mut script) = (None, None, None, None);
        while let Some(key) = members.next_key::<String>()? {
            match key.as_str() {
                "package" if package.is_none() => package = Some(members.next_value()?),
                "kinds" if kinds.is_none() => {
                    let names: Vec<String> = members.next_value()?;
                    kinds = Some(de_unit_setup_kinds(&names).map_err(Error::custom)?);
                }
                "targets" if targets.is_none() => targets = Some(members.next_value()?),
                "script" if script.is_none() => script = Some(members.next_value()?),
                _ => return Err(Error::custom(format!("unexpected field {key}"))),
            }
        }
        Ok(Record(UnitSetupRule {
            package: package.ok_or_else(|| Error::missing_field("package"))?,
            kinds: kinds.unwrap_or_else(default_unit_setup_kinds),
            targets: targets.unwrap_or(None),
            script: script.ok_or_else(|| Error::missing_field("script"))?,
        }))
    }
}

impl<'de> Deserialize<'de> for Record {
    fn deserialize<D: Deserializer<'de>>(d: D) -> Result<Self, D::Error> {
        d.deserialize_map(RecordVisitor)
    }
}

fn rule(package: &str, kinds: &str, targets: &str, script: &str) -> UnitSetupRule {
    // Built from JSON, as the rules that a caller hands over are.
    let mut json = format!(r#"{{"package": "{package}", "script": "{script}""#);
    if !kinds.is_empty() {
        json.push_str(&format!(r#", "kinds": {kinds}"#));
    }
    if !targets.is_empty() {
        json.push_str(&format!(r#", "targets": {targets}"#));
    }
    json.push('}');
    serde_json::from_str::<Record>(&json).unwrap().0
}

#[test]
fn default_kinds_cover_macro_expansion_kinds_only() {
    // The default kind set covers compile, check, test-compile and
    // doc — but neither build-script kind.
    let rules = vec![rule("my-backend", "", "", "/nix/store/s")];
    for kind in [
        UnitKind::Compile,
        UnitKind::Check,
        UnitKind::TestCompile,
        UnitKind::Doc,
    ] {
        let u = unit("my-backend", "my-backend", kind, true);
        assert_eq!(unit_setup_scripts(&u, &rules), ["/nix/store/s"]);
    }
    for kind in [UnitKind::BuildScriptCompile, UnitKind::BuildScriptRun] {
        let u = unit("my-backend", "build-script-build", kind, true);
        assert!(unit_setup_scripts(&u, &rules).is_empty());
    }
}

#[test]
fn kind_filter_leaves_other_kinds_untouched() {
    // kinds = ["check"]: the same package's doc and build-script
    // units get no scripts.
    let rules = vec![rule("pkg", r#"["check"]"#, "", "/nix/store/s")];
    let hit = unit("pkg", "pkg", UnitKind::Check, true);
    assert_eq!(unit_setup_scripts(&hit, &rules), ["/nix/store/s"]);
    for kind in [
        UnitKind::Compile,
        UnitKind::Doc,
        UnitKind::TestCompile,
        UnitKind::BuildScriptCompile,
        UnitKind::BuildScriptRun,
    ] {
        let miss = unit("pkg", "pkg", kind, true);
        assert!(unit_setup_scripts(&miss, &rules).is_empty(), "{kind:?}");
    }
}

#[test]
fn build_script_kinds_matchable_when_named_explicitly() {
    let rules = vec![rule(
        "pkg",
        r#"["build-script-compile", "build-script-run"]"#,
        "",
        "/nix/store/s",
    )];
    for kind in [UnitKind::BuildScriptCompile, UnitKind::BuildScriptRun] {
        let u = unit("pkg", "build-script-build", kind, true);
        assert_eq!(unit_setup_scripts(&u, &rules), ["/nix/store/s"]);
    }
}

#[test]
fn target_filter_matches_named_targets_only() {
    // A package with a lib target and a bin target: restricting to
    // the lib leaves the bin unit without scripts.
    let rules = vec![rule(
        "my-backend",
        r#"["check"]"#,
        r#"["my-backend"]"#,
        "/nix/store/s",
    )];
    let lib = unit("my-backend", "my-backend", UnitKind::Check, true);
    let bin = unit("my-backend", "my-ctl", UnitKind::Check, true);
    assert_eq!(unit_setup_scripts(&lib, &rules), ["/nix/store/s"]);
    assert!(unit_setup_scripts(&bin, &rules).is_empty());
}

#[test]
fn package_filter_matches_vendored_packages() {
    // A rule naming a vendored package injects into that package's
    // units and no others.
    let rules = vec![rule("serde", "", "", "/nix/store/s")];
    let vendored = unit("serde", "serde", UnitKind::Compile, false);
    let sibling = unit("serde_json", "serde_json", UnitKind::Compile, false);
    let local = unit("my-backend", "my-backend", UnitKind::Compile, true);
    assert_eq!(unit_setup_scripts(&vendored, &rules), ["/nix/store/s"]);
    assert!(unit_setup_scripts(&sibling, &rules).is_empty());
    assert!(unit_setup_scripts(&local, &rules).is_empty());
}

#[test]
fn star_matches_every_package() {
    let rules = vec![rule("*", "", "", "/nix/store/s")];
    let vendored = unit("serde", "serde", UnitKind::Compile, false);
    let local = unit("my-backend", "my-backend", UnitKind::Compile, true);
    assert_eq!(unit_setup_scripts(&vendored, &rules), ["/nix/store/s"]);
    assert_eq!(unit_setup_scripts(&local, &rules), ["/nix/store/s"]);
}

#[test]
fn matching_rules_contribute_in_list_order() {
    let rules = vec![
        rule("*", "", "", "/nix/store/first"),
        rule("pkg", "", "", "/nix/store/second"),
    ];
    let u = unit("pkg", "pkg", UnitKind::Check, true);
    assert_eq!(
        unit_setup_scripts(&u, &rules),
        ["/nix/store/first", "/nix/store/second"]
    );
}

#[test]
fn empty_rule_list_matches_nothing() {
    let u = unit("pkg", "pkg", UnitKind::Check, true);
    assert!(unit_setup_scripts(&u, &vec![]).is_empty());
}

#[test]
fn unmatched_rules_reported_by_index() {
    // A typo'd package name and a kind absent from the plan are both
    // flagged; the rule that matches is not.
    let rules = vec![
        rule("my-bakend", "", "", "/nix/store/typo"),
        rule("my-backend", "", "", "/nix/store/hit"),
        rule(
            "my-backend",
            r#"["test-compile"]"#,
            "",
            "/nix/store/wrong-kind",
        ),
    ];
    let units = vec![unit("my-backend", "my-backend", UnitKind::Check, true)];
    assert_eq!(unmatched_unit_setup_rules(&units, &rules), [0, 2]);
    assert!(unmatched_warning(&rules[0]).contains("my-bakend"));
}

#[test]
fn all_matching_rules_report_nothing() {
    let rules = vec![rule("*", "", "", "/nix/store/s")];
    let units = vec![unit("pkg", "pkg", UnitKind::Compile, true)];
    assert!(unmatched_unit_setup_rules(&units, &rules).is_empty());
}

#[test]
fn unknown_kind_is_rejected_at_parse_time() {
    let err = serde_json::from_str::<Vec<Record>>(
        r#"[{"package": "p", "script": "/nix/store/s", "kinds": ["chekc"]}]"#,
    )
    .err()
    .unwrap()
    .to_string();
    assert!(err.contains("unknown unit kind"));
    assert!(err.contains("\"chekc\""));
}

#[test]
fn unknown_rule_field_is_rejected_at_parse_time() {
    assert!(serde_json::from_str::<Vec<Record>>(
        r#"[{"package": "p", "script": "/nix/store/s", "target": ["oops"]}]"#,
    )
    .is_err());
}

#[test]
fn kinds_by_name() {
    let names: Vec<String> = ["compile", "doc", "build-script-run"]
        .iter()
        .map(|s| s.to_string())
        .collect();
    assert_eq!(
        de_unit_setup_kinds(&names).unwrap(),
        vec![UnitKind::Compile, UnitKind::Doc, UnitKind::BuildScriptRun]
    );
}
