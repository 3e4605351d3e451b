use cargo_schnee::diagnostics::{emit_line, remap_paths};
use serde::de::{Error, IgnoredAny, MapAccess, SeqAccess, Visitor};
use serde::{Deserialize, Deserializer};

/// A compiler message: an object of which the rendered text is looked at and all else is
/// passed over.
struct CompilerMessage {
    rendered: Option<String>,
}

struct MessageVisitor;

impl<'de> Visitor<'de> for MessageVisitor {
    type Value = CompilerMessage;

    fn expecting(&self, f: &mut std::fmt::Formatter) -> std::fmt::Result {
        f.write_str("a compiler message")
    }

    fn visit_seq<A: SeqAccess<'de>>(self, mut items: A) -> Result<CompilerMessage, A::Error> {
        match items.next_element()? {
            Some(rendered) => Ok(CompilerMessage { rendered }),
            None => Err(Error::invalid_length(0, &self)),
        }
    }

    fn visit_map<A: MapAccess<'de>>(self, mut members: A) -> Result<CompilerMessage, A::Error> {
        let mut rendered: Option<Option<String>> = None;
        while let Some(key) = members.next_key::<String>()? {
            if key != "rendered" {
                members.next_value::<IgnoredAny>()?;
            } else if rendered.is_some() {
                return Err(Error::duplicate_field("rendered"));
            } else {
                rendered = Some(members.next_value()?);
            }
        }
        Ok(CompilerMessage {
            rendered: rendered.unwrap_or(None),
        })
    }
}

impl<'de> Deserialize<'de> for CompilerMessage {
    fn deserialize<D: Deserializer<'de>>(d: D) -> Result<Self, D::Error> {
        d.deserialize_struct("CompilerMessage", &["rendered"], MessageVisitor)
    }
}

/// What a line reads as.
fn read(line: &str) -> Option<Option<String>> {
    serde_json::from_str::<CompilerMessage>(line)
        .ok()
        .map(|m| m.rendered)
}

#[test]
fn emit_returns_true_for_diagnostic() {
    let json = r#"{"rendered":"warning: unused variable\n","message":"unused variable","level":"warning","code":null,"spans":[],"children":[]}"#;
    assert!(emit_line(read(json), "/nix/store/src/", "/home/user/").diagnostic);
}

#[test]
fn emit_returns_true_for_artifact_json() {
    let json = r#"{"artifact":"/nix/store/foo","emit":"link"}"#;
    assert!(emit_line(read(json), "/nix/store/src/", "/home/user/").diagnostic);
}

#[test]
fn emit_returns_false_for_non_json() {
    assert!(
        !emit_line(
            read("building '/nix/store/foo.drv'..."),
            "/nix/store/src/",
            "/home/user/"
        )
        .diagnostic
    );
    assert!(!emit_line(read(""), "/nix/store/src/", "/home/user/").diagnostic);
}

#[test]
fn emit_returns_true_for_summary_messages() {
    let json = r#"{"rendered":"aborting due to 3 previous errors\n"}"#;
    assert!(emit_line(read(json), "/nix/store/src/", "/home/user/").diagnostic);

    let json = r#"{"rendered":"warning: 2 warnings emitted\n"}"#;
    assert!(emit_line(read(json), "/nix/store/src/", "/home/user/").diagnostic);

    let json = r#"{"rendered":"warning: 1 warning emitted\n"}"#;
    assert!(emit_line(read(json), "/nix/store/src/", "/home/user/").diagnostic);
}

#[test]
fn remap_nix_paths() {
    let text = "/nix/store/abc123-project-src/src/main.rs:5:1 warning: unused";
    let remapped = remap_paths(
        text,
        "/nix/store/abc123-project-src/",
        "/home/user/project/",
    );
    assert_eq!(
        remapped,
        "/home/user/project/src/main.rs:5:1 warning: unused"
    );
}

#[test]
fn remap_no_match() {
    let text = "error: some other message";
    let remapped = remap_paths(text, "/nix/store/xyz/", "/home/user/project/");
    assert_eq!(remapped, text);
}

#[test]
fn remap_replaces_every_place() {
    assert_eq!(remap_paths("/s/a /s/b", "/s/", "/p/"), "/p/a /p/b");
    assert_eq!(remap_paths("ab", "", "-"), "ab".replace("", "-"));
}

#[test]
fn emitted_text_is_remapped() {
    let json = r#"{"rendered":"warning: unused\n --> /nix/store/src/lib.rs:1:1\n"}"#;
    let out = emit_line(read(json), "/nix/store/src/", "/home/user/");
    assert!(out.diagnostic);
    assert_eq!(
        out.text.as_deref(),
        Some("warning: unused\n --> /home/user/lib.rs:1:1\n")
    );
}

#[test]
fn nothing_is_emitted_for_summaries_and_artifacts() {
    for json in [
        r#"{"rendered":"error: aborting due to 1 previous error\n"}"#,
        r#"{"rendered":null}"#,
        r#"{"artifact":"x"}"#,
    ] {
        let out = emit_line(read(json), "/s/", "/p/");
        assert!(out.diagnostic);
        assert!(out.text.is_none());
    }
}

#[test]
fn other_json_is_no_diagnostic() {
    for json in [r#"{"rendered":3}"#, "17", "\"text\"", "[]", r#"["a","b"]"#, "true"] {
        assert!(!emit_line(read(json), "/s/", "/p/").diagnostic, "{}", json);
    }
    assert!(emit_line(read(r#"["hello"]"#), "/s/", "/p/").diagnostic);
    assert!(emit_line(read("[null]"), "/s/", "/p/").diagnostic);
}

#[test]
fn only_the_rendered_text_is_looked_at() {
    // Deeply nested expansions, and members that hold no value of any type.
    let deep = format!(
        r#"{{"spans":{}{},"rendered":"at /s/x"}}"#,
        "[".repeat(500),
        "]".repeat(500)
    );
    for json in [
        deep.as_str(),
        r#"{"code":1e999,"rendered":"at /s/x"}"#,
        r#"{"label":"\ud800","rendered":"at /s/x"}"#,
    ] {
        let out = emit_line(read(json), "/s/", "/p/");
        assert!(out.diagnostic);
        assert_eq!(out.text.as_deref(), Some("at /p/x"));
    }
    // A text that is given twice is none.
    let twice = r#"{"rendered":"a","rendered":"b"}"#;
    assert!(!emit_line(read(twice), "/s/", "/p/").diagnostic);
}
