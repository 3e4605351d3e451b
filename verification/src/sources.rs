//! Which files of a project go into the store, and what of them is hashed.
use crate::hash::{sha256, sha256_digest};
use crate::nix_encoding::{hex_lower, hex_seq};
use crate::paths::{
    below_dir, is_path_below, outside_place, outside_store_path, path_below, push_path, pushed,
    strip_dir,
};
use crate::text::{ends, ends_with, owned, same, starts, starts_with, views};
use crate::toolchain::{add_new, push_new};
use vstd::prelude::*;

verus! {

// ---------------------------------------------------------------------------
// Files
// ---------------------------------------------------------------------------

/// Whether an entry of a directory outside version control is left out: build
/// results and the directories of tools.
pub fn is_excluded_name(name: &str) -> (r: bool)
    ensures
        r == (name@ == "target"@ || name@ == ".git"@ || name@ == ".direnv"@ || name@ == "result"@),
{
    same(name, "target") || same(name, ".git") || same(name, ".direnv") || same(name, "result")
}

/// The paths below a directory, seen from it, each once.
pub open spec fn files_below(paths: Seq<Seq<char>>, prefix: Seq<char>) -> Seq<Seq<char>>
    decreases paths.len(),
{
    if paths.len() == 0 {
        Seq::empty()
    } else if path_below(paths.last(), prefix) {
        push_new(files_below(paths.drop_last(), prefix), below_dir(paths.last(), prefix))
    } else {
        files_below(paths.drop_last(), prefix)
    }
}

/// Lists the files of a project among those of its repository, seen from the
/// project's directory.
pub fn project_files(paths: &Vec<String>, prefix: &str) -> (r: Vec<String>)
    ensures
        views(r@) == files_below(views(paths@), prefix@),
{
    let ghost ps = views(paths@);
    let mut r: Vec<String> = Vec::new();
    let mut i: usize = 0;
    assert(views(r@) =~= files_below(ps.take(0), prefix@));
    while i < paths.len()
        invariant
            i <= paths@.len(),
            ps == views(paths@),
            views(r@) == files_below(ps.take(i as int), prefix@),
        decreases paths@.len() - i,
    {
        assert(ps.take(i + 1).drop_last() =~= ps.take(i as int));
        assert(ps.take(i + 1).last() == paths@[i as int]@);
        if is_path_below(paths[i].as_str(), prefix) {
            let rel = strip_dir(paths[i].as_str(), prefix);
            add_new(&mut r, rel);
        }
        i = i + 1;
    }
    assert(ps.take(ps.len() as int) =~= ps);
    r
}

/// The files of a project are those of its repository that lie below it.
pub proof fn law_files_are_those_below(paths: Seq<Seq<char>>, prefix: Seq<char>, file: Seq<char>)
    ensures
        files_below(paths, prefix).contains(file) <==> exists|i: int|
            0 <= i < paths.len() && path_below(#[trigger] paths[i], prefix) && below_dir(
                paths[i],
                prefix,
            ) == file,
    decreases paths.len(),
{
    if paths.len() > 0 {
        let rest = paths.drop_last();
        let before = files_below(rest, prefix);
        let after = files_below(paths, prefix);
        law_files_are_those_below(rest, prefix, file);
        if before.contains(file) {
            let i = choose|i: int|
                0 <= i < rest.len() && path_below(#[trigger] rest[i], prefix) && below_dir(
                    rest[i],
                    prefix,
                ) == file;
            assert(paths[i] == rest[i]);
            let k = choose|k: int| 0 <= k < before.len() && before[k] == file;
            assert(after[k] == file);
        }
        if path_below(paths.last(), prefix) && below_dir(paths.last(), prefix) == file {
            assert(paths[paths.len() - 1] == paths.last());
            if !before.contains(file) {
                assert(after[before.len() as int] == file);
            }
        }
        if after.contains(file) && !before.contains(file) {
            let k = choose|k: int| 0 <= k < after.len() && after[k] == file;
            assert(k == before.len());
            assert(paths[paths.len() - 1] == paths.last());
        }
        if exists|i: int|
            0 <= i < paths.len() && path_below(#[trigger] paths[i], prefix) && below_dir(
                paths[i],
                prefix,
            ) == file {
            let i = choose|i: int|
                0 <= i < paths.len() && path_below(#[trigger] paths[i], prefix) && below_dir(
                    paths[i],
                    prefix,
                ) == file;
            if i < rest.len() {
                assert(rest[i] == paths[i]);
            }
        }
    } else {
        assert(files_below(paths, prefix) =~= Seq::empty());
    }
}

// ---------------------------------------------------------------------------
// Patterns
// ---------------------------------------------------------------------------

/// The pattern of extra files, as the `glob` crate takes it: `dir/**` alone matches
/// directories only.
pub open spec fn glob_pattern(pattern: Seq<char>) -> Seq<char> {
    if ends(pattern, "**"@) {
        pattern + "/*"@
    } else {
        pattern
    }
}

/// Writes the pattern of extra files below a project's directory.
pub fn extra_glob(project_dir: &str, pattern: &str) -> (r: String)
    ensures
        r@ == pushed(project_dir@, glob_pattern(pattern@)),
{
    let mut p = owned(pattern);
    if ends_with(pattern, "**") {
        p.append("/*");
    }
    push_path(project_dir, p.as_str())
}

/// Writes the pattern of the manifests of a workspace's members.
pub fn member_glob(project_dir: &str, pattern: &str) -> (r: String)
    ensures
        r@ == pushed(pushed(project_dir@, pattern@), "Cargo.toml"@),
{
    let dir = push_path(project_dir, pattern);
    push_path(dir.as_str(), "Cargo.toml")
}

/// Where an extra file goes in the store's copy of a project.
pub enum ExtraPlace {
    /// It lies in the project, and keeps its place.
    Inside(String),
    /// It lies outside of the project.
    Outside(String),
}

/// Decides where an extra file goes.
pub fn place_extra(project: &str, file: &str) -> (r: ExtraPlace)
    ensures
        match r {
            ExtraPlace::Inside(rel) => path_below(file@, project@) && rel@ == below_dir(
                file@,
                project@,
            ),
            ExtraPlace::Outside(rel) => !path_below(file@, project@) && rel@ == outside_place(
                project@,
                file@,
            ),
        },
{
    if is_path_below(file, project) {
        ExtraPlace::Inside(strip_dir(file, project))
    } else {
        ExtraPlace::Outside(outside_store_path(project, file))
    }
}

// ---------------------------------------------------------------------------
// Hashes
// ---------------------------------------------------------------------------

/// The digest of a file's contents, in hexadecimal.
pub fn content_hash(content: &[u8]) -> (r: String)
    ensures
        r@ == hex_seq(sha256_digest(content@)),
{
    let digest = sha256(content);
    hex_lower(digest.as_slice())
}

/// The contents one behind the other.
pub open spec fn concatenated(parts: Seq<Vec<u8>>) -> Seq<u8>
    decreases parts.len(),
{
    if parts.len() == 0 {
        Seq::empty()
    } else {
        concatenated(parts.drop_last()) + parts.last()@
    }
}

/// The digest of a workspace's manifest and those of its members, in the order in
/// which they are given.
pub fn manifests_hash(root: &Vec<u8>, members: &Vec<Vec<u8>>) -> (r: String)
    ensures
        r@ == hex_seq(sha256_digest(root@ + concatenated(members@))),
{
    let mut all: Vec<u8> = Vec::new();
    all.extend_from_slice(root.as_slice());
    let mut i: usize = 0;
    assert(all@ =~= root@ + concatenated(members@.take(0)));
    while i < members.len()
        invariant
            i <= members@.len(),
            all@ == root@ + concatenated(members@.take(i as int)),
        decreases members@.len() - i,
    {
        assert(members@.take(i + 1).drop_last() =~= members@.take(i as int));
        all.extend_from_slice(members[i].as_slice());
        i = i + 1;
        assert(all@ =~= root@ + concatenated(members@.take(i as int)));
    }
    assert(members@.take(members@.len() as int) =~= members@);
    content_hash(all.as_slice())
}

/// A directory holds the lock file of a workspace: one next to a manifest.
pub open spec fn locks_workspace(dir: (bool, bool)) -> bool {
    dir.0 && dir.1
}

/// Finds the directory above a project whose lock file it uses. A project with one of
/// its own uses none from above. Of each directory, from the nearest up, it is told
/// whether it has a lock file and whether it has a manifest.
pub fn lockfile_above(own: bool, above: &Vec<(bool, bool)>) -> (r: Option<usize>)
    ensures
        match r {
            Some(i) => !own && i < above@.len() && locks_workspace(above@[i as int]) && forall|j: int|
                0 <= j < i ==> !locks_workspace(#[trigger] above@[j]),
            None => own || forall|j: int|
                0 <= j < above@.len() ==> !locks_workspace(#[trigger] above@[j]),
        },
{
    if own {
        return None;
    }
    let mut i: usize = 0;
    while i < above.len()
        invariant
            !own,
            i <= above@.len(),
            forall|j: int| 0 <= j < i ==> !locks_workspace(#[trigger] above@[j]),
        decreases above@.len() - i,
    {
        if above[i].0 && above[i].1 {
            return Some(i);
        }
        i = i + 1;
    }
    None
}

// ---------------------------------------------------------------------------
// Temporary directories
// ---------------------------------------------------------------------------

/// Whether a temporary directory was left behind by an earlier run: it bears this
/// tool's name and is older than an hour.
pub fn is_stale_temp(name: &str, age_secs: u64, age_nanos: u32) -> (r: bool)
    ensures
        r == (starts(name@, "cargo-schnee-"@) && (age_secs > 3600 || (age_secs == 3600 && age_nanos
            > 0))),
{
    starts_with(name, "cargo-schnee-") && (age_secs > 3600 || (age_secs == 3600 && age_nanos > 0))
}

} // verus!
