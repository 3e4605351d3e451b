use cargo_schnee::nar::{
    compute_nar_store_path, crate_source_store_path, nar_bytes, nar_string, serialize_nar,
    serialize_nar_skeleton, skeleton_source_store_path, FsNode,
};

const ALPHABET: &str = "0123456789abcdfghijklmnpqrsvwxyz";

fn parts(path: &str) -> Vec<String> {
    path.split('/').map(|s| s.to_string()).collect()
}

fn all_parts(paths: &[&str]) -> Vec<Vec<String>> {
    paths.iter().map(|p| parts(p)).collect()
}

/// The tree of files given by their paths and contents.
fn tree(files: &[(&str, &str)]) -> FsNode {
    let mut entries: Vec<(String, Vec<(String, String)>)> = Vec::new();
    let mut nodes: Vec<(String, FsNode)> = Vec::new();
    for (path, text) in files {
        match path.split_once('/') {
            None => nodes.push((
                path.to_string(),
                FsNode::File {
                    executable: false,
                    contents: text.as_bytes().to_vec(),
                },
            )),
            Some((dir, rest)) => {
                if !entries.iter().any(|(d, _)| d == dir) {
                    entries.push((dir.to_string(), Vec::new()));
                }
                let slot = entries.iter_mut().find(|(d, _)| d == dir).unwrap();
                slot.1.push((rest.to_string(), text.to_string()));
            }
        }
    }
    for (dir, inner) in entries {
        let inner: Vec<(&str, &str)> = inner.iter().map(|(a, b)| (a.as_str(), b.as_str())).collect();
        nodes.push((dir, tree(&inner)));
    }
    FsNode::Directory(nodes)
}

fn sub<'a>(node: &'a FsNode, name: &str) -> &'a FsNode {
    match node {
        FsNode::Directory(entries) => &entries.iter().find(|(n, _)| n == name).unwrap().1,
        _ => panic!("not a directory"),
    }
}

#[test]
fn nar_string_length_and_padding() {
    let mut buf = Vec::new();
    nar_string(&mut buf, "abc");
    // 8 bytes length (3 as u64le) + 3 bytes data + 5 bytes padding = 16
    assert_eq!(buf.len(), 16);
    assert_eq!(&buf[..8], &3u64.to_le_bytes());
    assert_eq!(&buf[8..11], b"abc");
    assert_eq!(&buf[11..16], &[0, 0, 0, 0, 0]);
}

#[test]
fn nar_string_aligned() {
    let mut buf = Vec::new();
    nar_string(&mut buf, "abcdefgh"); // exactly 8 bytes, no padding needed
    assert_eq!(buf.len(), 16);
    assert_eq!(&buf[8..16], b"abcdefgh");
}

#[test]
fn nar_string_empty() {
    let mut buf = Vec::new();
    nar_string(&mut buf, "");
    assert_eq!(buf.len(), 8); // just the length
    assert_eq!(&buf[..8], &0u64.to_le_bytes());
}

/// A crate's source path is a function of only its own files, so editing a sibling
/// crate leaves it as it is, whereas the archive of the whole tree moves.
#[test]
fn per_crate_source_path_independent_of_siblings() {
    let before = tree(&[
        ("crate-a/Cargo.toml", "[package]\nname = \"crate-a\"\n"),
        ("crate-a/src/lib.rs", "pub fn a() {}\n"),
        ("crate-b/Cargo.toml", "[package]\nname = \"crate-b\"\n"),
        ("crate-b/src/lib.rs", "pub fn b() {}\n"),
    ]);
    let after = tree(&[
        ("crate-a/Cargo.toml", "[package]\nname = \"crate-a\"\n"),
        ("crate-a/src/lib.rs", "pub fn a() {}\n"),
        ("crate-b/Cargo.toml", "[package]\nname = \"crate-b\"\n"),
        ("crate-b/src/lib.rs", "pub fn b() { /* changed */ }\n"),
    ]);
    let allowed = all_parts(&[
        "crate-a/Cargo.toml",
        "crate-a/src/lib.rs",
        "crate-b/Cargo.toml",
        "crate-b/src/lib.rs",
    ]);

    let a1 = crate_source_store_path(sub(&before, "crate-a"), &parts("crate-a"), &allowed).unwrap();
    let b1 = crate_source_store_path(sub(&before, "crate-b"), &parts("crate-b"), &allowed).unwrap();
    let whole1 =
        compute_nar_store_path("project-src", &serialize_nar(&before, Some(&allowed)).unwrap());

    let a2 = crate_source_store_path(sub(&after, "crate-a"), &parts("crate-a"), &allowed).unwrap();
    let b2 = crate_source_store_path(sub(&after, "crate-b"), &parts("crate-b"), &allowed).unwrap();
    let whole2 =
        compute_nar_store_path("project-src", &serialize_nar(&after, Some(&allowed)).unwrap());

    assert_eq!(
        a1, a2,
        "editing crate-b must NOT change crate-a's per-crate source path"
    );
    assert_ne!(
        b1, b2,
        "editing crate-b must change crate-b's per-crate source path"
    );
    assert_ne!(
        whole1, whole2,
        "the whole-tree NAR couples all crates: it moves on any edit"
    );
}

/// The planner's skeleton does not move with the body of a source file; it does with
/// a manifest and with the set of files.
#[test]
fn skeleton_source_path_is_body_independent() {
    let manifest = ("Cargo.toml", "[workspace]\nmembers = [\"crate-a\"]\n");
    let lock = ("Cargo.lock", "# lock\n");
    let member = ("crate-a/Cargo.toml", "[package]\nname = \"crate-a\"\n");
    let member2 = (
        "crate-a/Cargo.toml",
        "[package]\nname = \"crate-a\"\nedition = \"2021\"\n",
    );
    let body = ("crate-a/src/lib.rs", "pub fn a() {}\n");
    let body2 = ("crate-a/src/lib.rs", "pub fn a() { let _ = 1; }\n");
    let allowed = all_parts(&[
        "Cargo.toml",
        "Cargo.lock",
        "crate-a/Cargo.toml",
        "crate-a/src/lib.rs",
    ]);

    let s1 = skeleton_source_store_path(&tree(&[manifest, lock, member, body]), "p", &allowed)
        .unwrap();

    // A source BODY edit must not move the skeleton.
    let s2 = skeleton_source_store_path(&tree(&[manifest, lock, member, body2]), "p", &allowed)
        .unwrap();
    assert_eq!(s1, s2, "a .rs body edit must NOT move the planner skeleton");

    // A manifest edit must move it.
    let s3 = skeleton_source_store_path(&tree(&[manifest, lock, member2, body2]), "p", &allowed)
        .unwrap();
    assert_ne!(s2, s3, "a manifest edit must move the planner skeleton");

    // Adding a source path must move it (autodiscovered targets depend on file presence).
    let extra = ("crate-a/src/bin/extra.rs", "fn main() {}\n");
    let mut allowed2 = allowed.clone();
    allowed2.push(parts("crate-a/src/bin/extra.rs"));
    let s4 = skeleton_source_store_path(
        &tree(&[manifest, lock, member2, body2, extra]),
        "p",
        &allowed2,
    )
    .unwrap();
    assert_ne!(
        s3, s4,
        "adding a source file must move the planner skeleton"
    );
}

#[test]
fn compute_nar_store_path_deterministic() {
    let nar = b"test nar content";
    let p1 = compute_nar_store_path("test-name", nar);
    let p2 = compute_nar_store_path("test-name", nar);
    assert_eq!(p1, p2);
}

#[test]
fn compute_nar_store_path_format() {
    let nar = b"some nar data";
    let path = compute_nar_store_path("my-source", nar);
    assert!(path.starts_with("/nix/store/"));
    assert!(path.ends_with("-my-source"));
    // Hash part is 32 chars in nix base32
    let after_store = path.strip_prefix("/nix/store/").unwrap();
    let hash_part = &after_store[..32];
    assert_eq!(hash_part.len(), 32);
    assert!(hash_part.chars().all(|c| ALPHABET.contains(c)));
}

#[test]
fn archive_of_a_file() {
    let file = FsNode::File {
        executable: true,
        contents: b"hi".to_vec(),
    };
    let mut expected: Vec<u8> = Vec::new();
    for s in ["nix-archive-1", "(", "type", "regular", "executable", "", "contents", "hi", ")"] {
        nar_string(&mut expected, s);
    }
    assert_eq!(serialize_nar(&file, None).unwrap(), expected);
    assert_eq!(expected.len() % 8, 0);
}

#[test]
fn archive_of_a_directory_is_in_name_order() {
    // Links inside a directory are left out.
    let link = FsNode::Symlink("b".to_string());
    let dir = FsNode::Directory(vec![
        ("y".to_string(), link),
        (
            "z".to_string(),
            FsNode::File {
                executable: false,
                contents: b"zz".to_vec(),
            },
        ),
        (
            "b".to_string(),
            FsNode::File {
                executable: false,
                contents: Vec::new(),
            },
        ),
    ]);
    let mut expected: Vec<u8> = Vec::new();
    for s in [
        "nix-archive-1", "(", "type", "directory", "entry", "(", "name", "b", "node", "(", "type",
        "regular", "contents", "", ")", ")", "entry", "(", "name", "z", "node", "(", "type",
        "regular", "contents", "zz", ")", ")", ")",
    ] {
        nar_string(&mut expected, s);
    }
    assert_eq!(serialize_nar(&dir, None).unwrap(), expected);

    let mut expected: Vec<u8> = Vec::new();
    for s in ["nix-archive-1", "(", "type", "symlink", "target", "b", ")"] {
        nar_string(&mut expected, s);
    }
    let root = FsNode::Symlink("b".to_string());
    assert_eq!(serialize_nar(&root, None).unwrap(), expected);
}

#[test]
fn files_that_are_not_listed_are_left_out() {
    let one = tree(&[("a.txt", "a"), ("b.txt", "b"), ("d/c.txt", "c")]);
    let other = tree(&[("a.txt", "a"), ("b.txt", "other"), ("e/c.txt", "c")]);
    let allowed = all_parts(&["a.txt"]);
    assert_eq!(
        serialize_nar(&one, Some(&allowed)).unwrap(),
        serialize_nar(&other, Some(&allowed)).unwrap()
    );
}

#[test]
fn unreadable_files_fail() {
    let bad = FsNode::Directory(vec![(
        "x".to_string(),
        FsNode::UnreadableFile("no permission".to_string()),
    )]);
    assert_eq!(serialize_nar(&bad, None).unwrap_err(), "no permission");
    // A skeleton does not read the contents.
    assert!(serialize_nar_skeleton(&bad, "p", None).is_ok());
    let failed = FsNode::Failed("gone".to_string());
    assert_eq!(serialize_nar(&failed, None).unwrap_err(), "gone");
    let dir = FsNode::UnreadableDirectory("locked".to_string());
    assert_eq!(serialize_nar(&dir, None).unwrap_err(), "locked");
}

#[test]
fn framing_of_bytes() {
    let mut buf = Vec::new();
    nar_bytes(&mut buf, &[1, 2, 3, 4, 5, 6, 7, 8, 9]);
    assert_eq!(buf.len(), 8 + 16);
    assert_eq!(&buf[17..], &[0, 0, 0, 0, 0, 0, 0]);
}

#[test]
fn archives_differ_where_what_is_archived_does() {
    let archive = |files: &[(&str, &str)]| serialize_nar(&tree(files), None).unwrap();
    let base = archive(&[("a", "1"), ("d/b", "2")]);
    assert_eq!(base, archive(&[("d/b", "2"), ("a", "1")]));
    for other in [
        archive(&[("a", "1"), ("d/b", "3")]),
        archive(&[("a", "1"), ("d/c", "2")]),
        archive(&[("a", "1"), ("b", "2")]),
        archive(&[("a", "1")]),
        archive(&[("a", "1\0"), ("d/b", "2")]),
    ] {
        assert_ne!(base, other);
    }
    let file = |executable: bool| {
        let node = FsNode::File {
            executable,
            contents: b"x".to_vec(),
        };
        serialize_nar(&node, None).unwrap()
    };
    assert_ne!(file(true), file(false));
    let blank = |name: &str, text: &str| {
        serialize_nar_skeleton(&tree(&[(name, text)]), "src", None).unwrap()
    };
    assert_eq!(blank("lib.rs", "a"), blank("lib.rs", "b"));
    assert_ne!(blank("lib.rs", "a"), blank("main.rs", "a"));
    assert_ne!(blank("Cargo.lock", "a"), blank("Cargo.lock", "b"));
}
