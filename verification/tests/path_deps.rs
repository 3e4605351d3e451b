use cargo_schnee::path_deps::{
    external_sources, find_source, is_dominated, merge_sources, read_path_dependencies,
    rewrite_manifest, update_workspace_exclude, walk_ends, Rewrite,
};
use cargo_schnee::paths::{
    components, is_path_below, is_same_path, outside_store_path, push_path, relative_path,
    sanitise_extra_source_name, strip_dir,
};

fn pairs(v: &[(&str, &str)]) -> Vec<(String, String)> {
    v.iter().map(|(a, b)| (a.to_string(), b.to_string())).collect()
}

fn excludes(text: &str) -> Vec<String> {
    let doc: toml::Value = toml::from_str(text).unwrap();
    doc["workspace"]["exclude"]
        .as_array()
        .unwrap()
        .iter()
        .filter_map(|v| v.as_str())
        .map(String::from)
        .collect()
}

#[test]
fn sanitise_strips_dot_dot() {
    assert_eq!(sanitise_extra_source_name("../foo").unwrap(), "foo");
    assert_eq!(
        sanitise_extra_source_name("../../bar/baz").unwrap(),
        "bar/baz"
    );
}

#[test]
fn sanitise_handles_intermediate_dot_dot() {
    // Only leading ../ components are stripped; intermediate ones are preserved
    assert_eq!(
        sanitise_extra_source_name("../foo/../bar").unwrap(),
        "foo/../bar"
    );
}

#[test]
fn sanitise_rejects_no_dot_dot() {
    assert!(sanitise_extra_source_name("foo").is_err());
    assert!(sanitise_extra_source_name("./foo").is_err());
    assert_eq!(
        sanitise_extra_source_name("..").unwrap_err(),
        "Extra source path has no name after stripping '../': .."
    );
}

#[test]
fn relative_path_sibling() {
    assert_eq!(relative_path("/a/b/project", "/a/b/sibling"), "../sibling");
}

#[test]
fn relative_path_deeper() {
    assert_eq!(
        relative_path("/a/b/project/crates/foo", "/a/b/sibling"),
        "../../../sibling"
    );
}

#[test]
fn relative_path_same() {
    assert_eq!(relative_path("/a/b/c", "/a/b/c"), ".");
}

#[test]
fn update_workspace_exclude_adds_top_level_dir() {
    let root = "[workspace]\nmembers = [\"*\"]\nexclude = [\"target\"]\nresolver = \"2\"\n";
    let names = vec!["my-lib".to_string(), "other/sub".to_string()];

    let content = update_workspace_exclude(root, &names).unwrap().unwrap();
    let exclude_strs = excludes(&content);

    assert!(
        exclude_strs.contains(&"target".to_string()),
        "should preserve existing excludes: {:?}",
        exclude_strs
    );
    assert!(
        exclude_strs.contains(&"my-lib".to_string()),
        "should add top-level dir: {:?}",
        exclude_strs
    );
    // "other/sub" should be excluded as "other" (top-level component only)
    assert!(
        exclude_strs.contains(&"other".to_string()),
        "should use top-level component, not full path: {:?}",
        exclude_strs
    );
    assert!(
        !exclude_strs.contains(&"other/sub".to_string()),
        "should NOT use full sanitised path: {:?}",
        exclude_strs
    );
}

#[test]
fn rewrite_cargo_tomls_with_workspace_glob() {
    // A workspace with members=["*"] and a member with a dependency whose source was
    // copied into the tree. Without proper exclude, cargo would try to load it as a
    // workspace member and fail.
    let root = "[workspace]\nmembers = [\"*\"]\nexclude = [\"target\"]\nresolver = \"2\"\n";
    let app = "[package]\nname = \"app\"\nversion = \"0.1.0\"\nedition = \"2024\"\n\n[dependencies]\nmy-lib = { path = \"../../my-lib\" }\n";
    let mappings = pairs(&[("/work/my-lib", "my-lib")]);

    let rw = Rewrite {
        resolved: pairs(&[("../../my-lib", "/work/my-lib")]),
        mappings: pairs(&[("/work/my-lib", "my-lib")]),
        manifest_dir: "/dest/app".to_string(),
        dest: "/dest".to_string(),
    };
    let rewritten = rewrite_manifest(&rw, app).unwrap().unwrap();
    let doc: toml::Value = toml::from_str(&rewritten).unwrap();
    assert_eq!(
        doc["dependencies"]["my-lib"]["path"].as_str(),
        Some("../my-lib")
    );
    assert_eq!(doc["package"]["name"].as_str(), Some("app"));

    let names: Vec<String> = mappings.iter().map(|(_, n)| n.clone()).collect();
    let root_content = update_workspace_exclude(root, &names).unwrap().unwrap();
    let exclude_strs = excludes(&root_content);
    assert!(
        exclude_strs.contains(&"my-lib".to_string()),
        "workspace.exclude should contain 'my-lib': {:?}",
        exclude_strs
    );
}

#[test]
fn unchanged_manifests_are_left_alone() {
    let rw = Rewrite {
        resolved: pairs(&[("../other", "/work/other")]),
        mappings: pairs(&[("/work/my-lib", "my-lib")]),
        manifest_dir: "/dest/app".to_string(),
        dest: "/dest".to_string(),
    };
    let app = "[dependencies]\nother = { path = \"../other\" }\n";
    assert!(rewrite_manifest(&rw, app).is_none());
    assert!(rewrite_manifest(&rw, "not toml [").is_none());
    assert!(update_workspace_exclude("[package]\n", &vec!["x".to_string()]).is_none());
    let done = "[workspace]\nexclude = [\"x\"]\n";
    assert!(update_workspace_exclude(done, &vec!["x/y".to_string()]).is_none());
}

#[test]
fn every_section_is_rewritten() {
    let text = "[dependencies]\na = { path = \"p\" }\n[dev-dependencies]\nb = { path = \"p\" }\n[build-dependencies]\nc = { path = \"p\" }\n[workspace.dependencies]\nd = { path = \"p\" }\n[target.x.dependencies]\ne = { path = \"p\" }\n[patch.crates-io]\nf = { path = \"p\" }\n";
    assert_eq!(read_path_dependencies(text).unwrap(), vec!["p"; 6]);
    let rw = Rewrite {
        resolved: pairs(&[("p", "/out/p")]),
        mappings: pairs(&[("/out/p", "p2")]),
        manifest_dir: "/dest".to_string(),
        dest: "/dest".to_string(),
    };
    let out = rewrite_manifest(&rw, text).unwrap().unwrap();
    assert_eq!(read_path_dependencies(&out).unwrap(), vec!["p2"; 6]);
}

#[test]
fn sources_outside_the_project() {
    // A dependency on its own.
    assert_eq!(
        external_sources("/a/project", "/a/project", "/a/lib", None),
        pairs(&[("/a/lib", "lib")])
    );
    // A crate in a workspace: the workspace is taken in too.
    assert_eq!(
        external_sources("/a/project", "/a/project", "/a/ws/lib", Some("/a/ws")),
        pairs(&[("/a/ws", "ws"), ("/a/ws/lib", "ws/lib")])
    );
    // Inside the project nothing is taken in.
    assert!(external_sources("/a/project", "/a/project", "/a/project/lib", None).is_empty());

    let mut all = pairs(&[("/a/ws", "ws")]);
    merge_sources(&mut all, &pairs(&[("/a/ws", "again"), ("/a/ws/lib", "ws/lib")]));
    assert_eq!(all, pairs(&[("/a/ws", "ws"), ("/a/ws/lib", "ws/lib")]));
    assert_eq!(find_source(&all, "/a/ws").unwrap(), "ws");
    assert!(is_dominated(&all, "/a/ws/lib"));
    assert!(!is_dominated(&all, "/a/ws"));
}

#[test]
fn the_walk_for_a_workspace_stops() {
    assert!(walk_ends("/a", "/a/project"));
    assert!(walk_ends("/a/project", "/a/project"));
    assert!(walk_ends("relative", "/a/project"));
    assert!(!walk_ends("/b/ws", "/a/project"));
}

#[test]
fn paths_by_component() {
    assert_eq!(components("/a//b/./c/"), vec!["/", "a", "b", "c"]);
    assert_eq!(components("./a"), vec![".", "a"]);
    assert_eq!(push_path("/a", "b"), "/a/b");
    assert_eq!(push_path("/a/", "b"), "/a/b");
    assert_eq!(push_path("/a", "/b"), "/b");
    assert!(is_path_below("/a/b/c", "/a/b"));
    assert!(!is_path_below("/a/bc", "/a/b"));
    assert!(is_same_path("/a//b", "/a/b/"));
    assert_eq!(strip_dir("/a/b/c", "/a"), "b/c");
    assert_eq!(
        outside_store_path("/a/b/project", "/a/shared/x.txt"),
        ".parent/.parent/shared/x.txt"
    );
}
