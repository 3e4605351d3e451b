//! NAR serialization and the store paths of sources.
//!
//! NAR (Nix ARchive) is the deterministic archive format whose hash names a
//! source in the store. A tree that was read from disk is given as an
//! [`FsNode`].
use crate::aterm::{piece_view, push_bytes, store_path_from_digest, store_path_seq, Piece};
use crate::hash::{sha256, sha256_digest};
use crate::nix_encoding::{hex_lower, hex_seq};
use crate::text::{lemma_str_lt_order, less, owned, same, str_lt, views};
use vstd::bytes::*;
use vstd::prelude::*;
use vstd::utf8::*;

verus! {

/// A node of a file tree. What could not be read carries the message of why.
pub enum FsNode {
    /// A directory with its entries by name.
    Directory(Vec<(String, FsNode)>),
    /// A directory that could not be listed.
    UnreadableDirectory(String),
    /// A regular file.
    File { executable: bool, contents: Vec<u8> },
    /// A regular file that could not be read.
    UnreadableFile(String),
    /// A symbolic link and its target.
    Symlink(String),
    /// Anything that could not be inspected or has no archive form.
    Failed(String),
}

// ---------------------------------------------------------------------------
// Framing
// ---------------------------------------------------------------------------

/// The number of zero bytes behind `n` bytes.
pub open spec fn padding_len(n: nat) -> nat {
    ((8 - (n % 8)) % 8) as nat
}

/// Bytes with their length in front, padded with zeros to a multiple of eight.
pub open spec fn framed(data: Seq<u8>) -> Seq<u8> {
    spec_u64_to_le_bytes(data.len() as u64) + data + Seq::new(padding_len(data.len()), |i: int| 0u8)
}

/// A string with its length in front, padded with zeros.
pub open spec fn framed_str(s: Seq<char>) -> Seq<u8> {
    framed(encode_utf8(s))
}

/// Writes bytes: length, bytes, zero padding to an eight-byte boundary.
pub fn nar_bytes(buf: &mut Vec<u8>, data: &[u8])
    ensures
        final(buf)@ == old(buf)@ + framed(data@),
{
    let mut len = u64_to_le_bytes(data.len() as u64);
    buf.append(&mut len);
    buf.extend_from_slice(data);
    let padding: usize = (8 - (data.len() % 8)) % 8;
    let ghost before = buf@;
    assert(before =~= old(buf)@ + spec_u64_to_le_bytes(data@.len() as u64) + data@);
    let mut i: usize = 0;
    while i < padding
        invariant
            i <= padding,
            buf@ == before + Seq::new(i as nat, |j: int| 0u8),
        decreases padding - i,
    {
        buf.push(0);
        assert(buf@ =~= before + Seq::new((i + 1) as nat, |j: int| 0u8));
        i = i + 1;
    }
    assert(padding == padding_len(data@.len()));
    assert(buf@ =~= old(buf)@ + framed(data@));
}

/// Writes a string: length, bytes, zero padding to an eight-byte boundary.
pub fn nar_string(buf: &mut Vec<u8>, s: &str)
    ensures
        final(buf)@ == old(buf)@ + framed_str(s@),
{
    nar_bytes(buf, s.as_bytes());
}

// ---------------------------------------------------------------------------
// Filtering
// ---------------------------------------------------------------------------

/// The components of each path of a list.
pub open spec fn path_views(v: Seq<Vec<String>>) -> Seq<Seq<Seq<char>>> {
    Seq::new(v.len(), |i: int| views(v[i]@))
}

/// The paths of an optional list.
pub open spec fn filter_view(v: Option<&Vec<Vec<String>>>) -> Option<Seq<Seq<Seq<char>>>> {
    match v {
        Some(p) => Some(path_views(p@)),
        None => None,
    }
}

/// `dir` stands at the start of `path`, component by component.
pub open spec fn below(path: Seq<Seq<char>>, dir: Seq<Seq<char>>) -> bool {
    dir.len() <= path.len() && path.take(dir.len() as int) == dir
}

/// Whether a directory's entry goes into the archive. Symbolic links never do.
/// With a filter, a file goes in if it is listed and a directory if a listed
/// file lies below it.
pub open spec fn included(
    node: FsNode,
    rel: Seq<Seq<char>>,
    allowed: Option<Seq<Seq<Seq<char>>>>,
) -> bool {
    match (node, allowed) {
        (FsNode::Symlink(_), _) => false,
        (_, None) => true,
        (FsNode::File { .. }, Some(a)) => exists|i: int| 0 <= i < a.len() && #[trigger] a[i] == rel,
        (FsNode::UnreadableFile(_), Some(a)) => exists|i: int|
            0 <= i < a.len() && #[trigger] a[i] == rel,
        (FsNode::Directory(_), Some(a)) => exists|i: int|
            0 <= i < a.len() && below(#[trigger] a[i], rel),
        (FsNode::UnreadableDirectory(_), Some(a)) => exists|i: int|
            0 <= i < a.len() && below(#[trigger] a[i], rel),
        (FsNode::Failed(_), Some(a)) => true,
    }
}

/// Whether `dir` stands at the start of `path`.
pub fn is_below(path: &Vec<String>, dir: &Vec<String>) -> (r: bool)
    ensures
        r == below(views(path@), views(dir@)),
{
    if dir.len() > path.len() {
        return false;
    }
    let ghost p = views(path@);
    let ghost d = views(dir@);
    let mut i: usize = 0;
    while i < dir.len()
        invariant
            i <= dir@.len() <= path@.len(),
            p == views(path@),
            d == views(dir@),
            forall|j: int| 0 <= j < i ==> p[j] == d[j],
        decreases dir@.len() - i,
    {
        if !same(path[i].as_str(), dir[i].as_str()) {
            assert(p.take(d.len() as int)[i as int] != d[i as int]);
            return false;
        }
        i = i + 1;
    }
    assert(p.take(d.len() as int) =~= d);
    true
}

fn listed(allowed: &Vec<Vec<String>>, rel: &Vec<String>, exact: bool) -> (r: bool)
    ensures
        exact ==> r == (exists|i: int|
            0 <= i < path_views(allowed@).len() && #[trigger] path_views(allowed@)[i] == views(rel@)),
        !exact ==> r == (exists|i: int|
            0 <= i < path_views(allowed@).len() && below(
                #[trigger] path_views(allowed@)[i],
                views(rel@),
            )),
{
    let ghost a = path_views(allowed@);
    let mut i: usize = 0;
    while i < allowed.len()
        invariant
            i <= allowed@.len(),
            a == path_views(allowed@),
            forall|j: int| 0 <= j < i ==> if exact {
                #[trigger] a[j] != views(rel@)
            } else {
                !below(a[j], views(rel@))
            },
        decreases allowed@.len() - i,
    {
        assert(a[i as int] == views(allowed@[i as int]@));
        if is_below(&allowed[i], rel) {
            if !exact || allowed[i].len() == rel.len() {
                assert(a[i as int].take(a[i as int].len() as int) =~= a[i as int]);
                return true;
            }
        } else if exact && allowed[i].len() == rel.len() {
            assert(a[i as int].take(a[i as int].len() as int) =~= a[i as int]);
        }
        i = i + 1;
    }
    false
}

fn wanted(node: &FsNode, rel: &Vec<String>, allowed: Option<&Vec<Vec<String>>>) -> (r: bool)
    ensures
        r == included(*node, views(rel@), filter_view(allowed)),
{
    match node {
        FsNode::Symlink(_) => false,
        FsNode::Failed(_) => true,
        FsNode::File { .. } => match allowed {
            None => true,
            Some(a) => listed(a, rel, true),
        },
        FsNode::UnreadableFile(_) => match allowed {
            None => true,
            Some(a) => listed(a, rel, true),
        },
        FsNode::Directory(_) => match allowed {
            None => true,
            Some(a) => listed(a, rel, false),
        },
        FsNode::UnreadableDirectory(_) => match allowed {
            None => true,
            Some(a) => listed(a, rel, false),
        },
    }
}

// ---------------------------------------------------------------------------
// The archive of a node
// ---------------------------------------------------------------------------

/// A file whose contents the planner reads.
pub open spec fn manifest_name(name: Seq<char>) -> bool {
    name == "Cargo.toml"@ || name == "Cargo.lock"@
}

/// Whether a file is a manifest whose contents the planner reads; kept verbatim
/// in the skeleton.
pub fn is_manifest(name: &str) -> (r: bool)
    ensures
        r == manifest_name(name@),
{
    same(name, "Cargo.toml") || same(name, "Cargo.lock")
}

/// An entry put behind every entry whose name does not come after its own.
pub open spec fn insert_entry(
    s: Seq<(Seq<char>, Piece)>,
    e: (Seq<char>, Piece),
) -> Seq<(Seq<char>, Piece)>
    decreases s.len(),
{
    if s.len() == 0 {
        seq![e]
    } else if str_lt(e.0, s.last().0) {
        insert_entry(s.drop_last(), e).push(s.last())
    } else {
        s.push(e)
    }
}

/// The archived entries among the first `n` of a directory, in name order.
pub open spec fn dir_entries(
    children: Vec<(String, FsNode)>,
    n: nat,
    rel: Seq<Seq<char>>,
    allowed: Option<Seq<Seq<Seq<char>>>>,
    skeleton: bool,
) -> Seq<(Seq<char>, Piece)>
    decreases children, n,
{
    if n == 0 || n > children@.len() {
        Seq::empty()
    } else {
        let before = dir_entries(children, (n - 1) as nat, rel, allowed, skeleton);
        let name = children@[n - 1].0@;
        let node = children@[n - 1].1;
        if included(node, rel.push(name), allowed) {
            insert_entry(before, (name, nar_node(node, name, rel.push(name), allowed, skeleton)))
        } else {
            before
        }
    }
}

/// One directory entry around the archive of its node.
pub open spec fn entry_bytes(name: Seq<char>, node: Seq<u8>) -> Seq<u8> {
    framed_str("entry"@) + framed_str("("@) + framed_str("name"@) + framed_str(name) + framed_str(
        "node"@,
    ) + node + framed_str(")"@)
}

/// The entries one after the other, or the message of the first that failed.
pub open spec fn entries_bytes(e: Seq<(Seq<char>, Piece)>) -> Piece
    decreases e.len(),
{
    if e.len() == 0 {
        Ok(Seq::empty())
    } else {
        match entries_bytes(e.drop_last()) {
            Err(m) => Err(m),
            Ok(acc) => match e.last().1 {
                Err(m) => Err(m),
                Ok(b) => Ok(acc + entry_bytes(e.last().0, b)),
            },
        }
    }
}

/// The archive of a regular file.
pub open spec fn file_bytes(executable: bool, contents: Seq<u8>) -> Seq<u8> {
    framed_str("("@) + framed_str("type"@) + framed_str("regular"@) + (if executable {
        framed_str("executable"@) + framed_str(""@)
    } else {
        Seq::empty()
    }) + framed_str("contents"@) + framed(contents) + framed_str(")"@)
}

/// The archive of a node that bears the name `name`. A skeleton archive blanks
/// every file that is no manifest.
pub open spec fn nar_node(
    node: FsNode,
    name: Seq<char>,
    rel: Seq<Seq<char>>,
    allowed: Option<Seq<Seq<Seq<char>>>>,
    skeleton: bool,
) -> Piece
    decreases node, 0nat,
{
    match node {
        FsNode::Directory(children) => match entries_bytes(
            dir_entries(children, children@.len(), rel, allowed, skeleton),
        ) {
            Err(m) => Err(m),
            Ok(b) => Ok(
                framed_str("("@) + framed_str("type"@) + framed_str("directory"@) + b + framed_str(
                    ")"@,
                ),
            ),
        },
        FsNode::File { executable, contents } => if skeleton && !manifest_name(name) {
            Ok(file_bytes(false, Seq::empty()))
        } else {
            Ok(file_bytes(executable, contents@))
        },
        FsNode::UnreadableFile(message) => if skeleton && !manifest_name(name) {
            Ok(file_bytes(false, Seq::empty()))
        } else {
            Err(message@)
        },
        FsNode::Symlink(target) => Ok(
            framed_str("("@) + framed_str("type"@) + framed_str("symlink"@) + framed_str("target"@)
                + framed_str(target@) + framed_str(")"@),
        ),
        FsNode::UnreadableDirectory(message) => Err(message@),
        FsNode::Failed(message) => Err(message@),
    }
}

/// The views of archived entries.
pub open spec fn entry_views(
    v: Seq<(String, Result<Vec<u8>, String>)>,
) -> Seq<(Seq<char>, Piece)> {
    Seq::new(v.len(), |i: int| (v[i].0@, piece_view(v[i].1)))
}

proof fn lemma_insert_entry_at(s: Seq<(Seq<char>, Piece)>, e: (Seq<char>, Piece), p: int)
    requires
        0 <= p <= s.len(),
        forall|j: int| p <= j < s.len() ==> str_lt(e.0, (#[trigger] s[j]).0),
        p > 0 ==> !str_lt(e.0, s[p - 1].0),
    ensures
        insert_entry(s, e) == s.insert(p, e),
    decreases s.len(),
{
    if s.len() == 0 {
        assert(s.insert(p, e) =~= seq![e]);
    } else if p == s.len() {
        assert(s.insert(p, e) =~= s.push(e));
    } else {
        lemma_insert_entry_at(s.drop_last(), e, p);
        assert(s.insert(p, e) =~= s.drop_last().insert(p, e).push(s.last()));
    }
}

fn add_entry(v: &mut Vec<(String, Result<Vec<u8>, String>)>, name: &str, piece: Result<Vec<u8>, String>)
    ensures
        entry_views(final(v)@) == insert_entry(entry_views(old(v)@), (name@, piece_view(piece))),
{
    let ghost e = (name@, piece_view(piece));
    let ghost before = entry_views(v@);
    let mut p: usize = v.len();
    while p > 0 && less(name, v[p - 1].0.as_str())
        invariant
            p <= v@.len(),
            before == entry_views(v@),
            e.0 == name@,
            forall|j: int| p <= j < v@.len() ==> str_lt(e.0, (#[trigger] before[j]).0),
        decreases p,
    {
        p = p - 1;
    }
    proof {
        lemma_insert_entry_at(before, e, p as int);
    }
    v.insert(p, (owned(name), piece));
    assert(entry_views(v@) =~= before.insert(p as int, e));
}

proof fn lemma_entries_err(e: Seq<(Seq<char>, Piece)>, n: int)
    requires
        0 <= n <= e.len(),
        entries_bytes(e.take(n)) is Err,
    ensures
        entries_bytes(e) == entries_bytes(e.take(n)),
    decreases e.len(),
{
    if n == e.len() {
        assert(e.take(n) =~= e);
    } else {
        assert(e.drop_last().take(n) =~= e.take(n));
        lemma_entries_err(e.drop_last(), n);
    }
}

fn write_entries(v: Vec<(String, Result<Vec<u8>, String>)>) -> (r: Result<Vec<u8>, String>)
    ensures
        piece_view(r) == entries_bytes(entry_views(v@)),
{
    let ghost e = entry_views(v@);
    let mut acc: Vec<u8> = Vec::new();
    let mut i: usize = 0;
    assert(e.take(0) =~= Seq::empty());
    assert(acc@ =~= Seq::empty());
    while i < v.len()
        invariant
            i <= v@.len(),
            e == entry_views(v@),
            entries_bytes(e.take(i as int)) == Piece::Ok(acc@),
        decreases v@.len() - i,
    {
        assert(e.take(i + 1).drop_last() =~= e.take(i as int));
        match &v[i].1 {
            Err(m) => {
                proof {
                    lemma_entries_err(e, i + 1);
                }
                return Err(m.clone());
            },
            Ok(node) => {
                let ghost before = acc@;
                nar_string(&mut acc, "entry");
                nar_string(&mut acc, "(");
                nar_string(&mut acc, "name");
                nar_string(&mut acc, v[i].0.as_str());
                nar_string(&mut acc, "node");
                push_bytes(&mut acc, node);
                nar_string(&mut acc, ")");
                assert(acc@ =~= before + entry_bytes(v@[i as int].0@, node@));
            },
        }
        i = i + 1;
    }
    assert(e.take(v@.len() as int) =~= e);
    Ok(acc)
}

fn write_file(executable: bool, contents: &[u8]) -> (r: Vec<u8>)
    ensures
        r@ == file_bytes(executable, contents@),
{
    let mut buf: Vec<u8> = Vec::new();
    nar_string(&mut buf, "(");
    assert(buf@ =~= framed_str("("@));
    nar_string(&mut buf, "type");
    nar_string(&mut buf, "regular");
    let ghost head = buf@;
    if executable {
        nar_string(&mut buf, "executable");
        nar_string(&mut buf, "");
        assert(buf@ =~= head + (framed_str("executable"@) + framed_str(""@)));
    } else {
        assert(head =~= head + Seq::empty());
    }
    nar_string(&mut buf, "contents");
    nar_bytes(&mut buf, contents);
    nar_string(&mut buf, ")");
    buf
}

fn extend_path(rel: &Vec<String>, name: &str) -> (r: Vec<String>)
    ensures
        views(r@) == views(rel@).push(name@),
{
    let mut r = crate::text::clone_strings(rel);
    let ghost before = views(r@);
    r.push(owned(name));
    assert(views(r@) =~= before.push(name@));
    r
}

/// Archives the node that bears the name `name` and stands at `rel` below the
/// root.
pub fn nar_serialize_path(
    node: &FsNode,
    name: &str,
    rel: &Vec<String>,
    allowed: Option<&Vec<Vec<String>>>,
    skeleton: bool,
) -> (r: Result<Vec<u8>, String>)
    ensures
        piece_view(r) == nar_node(*node, name@, views(rel@), filter_view(allowed), skeleton),
    decreases *node,
{
    match node {
        FsNode::Directory(children) => {
            let mut entries: Vec<(String, Result<Vec<u8>, String>)> = Vec::new();
            let mut i: usize = 0;
            assert(entry_views(entries@) =~= Seq::empty());
            while i < children.len()
                invariant
                    i <= children@.len(),
                    *node == FsNode::Directory(*children),
                    entry_views(entries@) == dir_entries(
                        *children,
                        i as nat,
                        views(rel@),
                        filter_view(allowed),
                        skeleton,
                    ),
                decreases children@.len() - i,
            {
                let child_name = children[i].0.as_str();
                let child = &children[i].1;
                let child_rel = extend_path(rel, child_name);
                if wanted(child, &child_rel, allowed) {
                    assert(decreases_to!(*node => node->Directory_0));
                    assert(decreases_to!(*children => children@));
                    assert(decreases_to!(children@ => children@[i as int]));
                    let piece = nar_serialize_path(child, child_name, &child_rel, allowed, skeleton);
                    add_entry(&mut entries, child_name, piece);
                }
                i = i + 1;
            }
            match write_entries(entries) {
                Err(m) => Err(m),
                Ok(b) => {
                    let mut buf: Vec<u8> = Vec::new();
                    nar_string(&mut buf, "(");
                    assert(buf@ =~= framed_str("("@));
                    nar_string(&mut buf, "type");
                    nar_string(&mut buf, "directory");
                    push_bytes(&mut buf, &b);
                    nar_string(&mut buf, ")");
                    Ok(buf)
                },
            }
        },
        FsNode::File { executable, contents } => {
            if skeleton && !is_manifest(name) {
                let none: Vec<u8> = Vec::new();
                assert(none@ =~= Seq::empty());
                Ok(write_file(false, none.as_slice()))
            } else {
                Ok(write_file(*executable, contents.as_slice()))
            }
        },
        FsNode::UnreadableFile(message) => {
            if skeleton && !is_manifest(name) {
                let none: Vec<u8> = Vec::new();
                assert(none@ =~= Seq::empty());
                Ok(write_file(false, none.as_slice()))
            } else {
                Err(message.clone())
            }
        },
        FsNode::Symlink(target) => {
            let mut buf: Vec<u8> = Vec::new();
            nar_string(&mut buf, "(");
            assert(buf@ =~= framed_str("("@));
            nar_string(&mut buf, "type");
            nar_string(&mut buf, "symlink");
            nar_string(&mut buf, "target");
            nar_string(&mut buf, target.as_str());
            nar_string(&mut buf, ")");
            Ok(buf)
        },
        FsNode::UnreadableDirectory(message) => Err(message.clone()),
        FsNode::Failed(message) => Err(message.clone()),
    }
}

/// The archive of a tree: the format's magic string and the root node.
pub open spec fn nar_seq(
    root: FsNode,
    name: Seq<char>,
    allowed: Option<Seq<Seq<Seq<char>>>>,
    skeleton: bool,
) -> Piece {
    match nar_node(root, name, Seq::empty(), allowed, skeleton) {
        Err(m) => Err(m),
        Ok(b) => Ok(framed_str("nix-archive-1"@) + b),
    }
}

fn serialize(
    root: &FsNode,
    name: &str,
    allowed: Option<&Vec<Vec<String>>>,
    skeleton: bool,
) -> (r: Result<Vec<u8>, String>)
    ensures
        piece_view(r) == nar_seq(*root, name@, filter_view(allowed), skeleton),
{
    let rel: Vec<String> = Vec::new();
    assert(views(rel@) =~= Seq::empty());
    match nar_serialize_path(root, name, &rel, allowed, skeleton) {
        Err(m) => Err(m),
        Ok(b) => {
            let mut buf: Vec<u8> = Vec::new();
            nar_string(&mut buf, "nix-archive-1");
            assert(buf@ =~= framed_str("nix-archive-1"@));
            push_bytes(&mut buf, &b);
            Ok(buf)
        },
    }
}

/// Serializes a file or directory to NAR format.
///
/// With `allowed_files`, only the listed files (given by their components below
/// the root) are archived.
pub fn serialize_nar(root: &FsNode, allowed_files: Option<&Vec<Vec<String>>>) -> (r: Result<
    Vec<u8>,
    String,
>)
    ensures
        piece_view(r) == nar_seq(*root, ""@, filter_view(allowed_files), false),
{
    serialize(root, "", allowed_files, false)
}

/// Serializes a tree to NAR format, but blanks the contents of every file except
/// `Cargo.toml` and `Cargo.lock`. `name` is the name of the root itself.
pub fn serialize_nar_skeleton(
    root: &FsNode,
    name: &str,
    allowed_files: Option<&Vec<Vec<String>>>,
) -> (r: Result<Vec<u8>, String>)
    ensures
        piece_view(r) == nar_seq(*root, name@, filter_view(allowed_files), true),
{
    serialize(root, name, allowed_files, true)
}

// ---------------------------------------------------------------------------
// Store paths of sources
// ---------------------------------------------------------------------------

/// The fingerprint of a source: the digest of its archive and its name.
pub open spec fn source_fingerprint_seq(inner: Seq<u8>, name: Seq<char>) -> Seq<char> {
    "source:sha256:"@ + hex_seq(inner) + ":/nix/store:"@ + name
}

/// The fingerprint of a source.
pub fn source_fingerprint(inner: &[u8], name: &str) -> (r: String)
    ensures
        r@ == source_fingerprint_seq(inner@, name@),
{
    let mut r = owned("source:sha256:");
    let hex = hex_lower(inner);
    r.append(hex.as_str());
    r.append(":/nix/store:");
    r.append(name);
    r
}

/// The store path of a source with the given archive.
pub open spec fn nar_store_path(name: Seq<char>, nar: Seq<u8>) -> Seq<char> {
    store_path_seq(
        sha256_digest(encode_utf8(source_fingerprint_seq(sha256_digest(nar), name))),
        name,
    )
}

/// Computes the store path of a source: the digest of its archive goes into a
/// fingerprint, whose own digest gives the path.
pub fn compute_nar_store_path(name: &str, nar: &[u8]) -> (r: String)
    ensures
        r@ == nar_store_path(name@, nar@),
{
    let inner = sha256(nar);
    let fingerprint = source_fingerprint(inner.as_slice(), name);
    let outer = sha256(fingerprint.as_str().as_bytes());
    store_path_from_digest(outer.as_slice(), name)
}

/// The paths below `dir`, without its components in front.
pub open spec fn rebased(files: Seq<Seq<Seq<char>>>, dir: Seq<Seq<char>>) -> Seq<Seq<Seq<char>>>
    decreases files.len(),
{
    if files.len() == 0 {
        Seq::empty()
    } else if below(files.last(), dir) {
        rebased(files.drop_last(), dir).push(files.last().skip(dir.len() as int))
    } else {
        rebased(files.drop_last(), dir)
    }
}

/// The name of a crate's source in the store: that of its directory.
pub open spec fn crate_source_name(crate_rel: Seq<Seq<char>>) -> Seq<char> {
    (if crate_rel.len() > 0 && crate_rel.last() != ".."@ {
        crate_rel.last()
    } else {
        "crate"@
    }) + "-src"@
}

fn rebase(files: &Vec<Vec<String>>, dir: &Vec<String>) -> (r: Vec<Vec<String>>)
    ensures
        path_views(r@) == rebased(path_views(files@), views(dir@)),
{
    let ghost f = path_views(files@);
    let mut r: Vec<Vec<String>> = Vec::new();
    let mut i: usize = 0;
    assert(f.take(0) =~= Seq::empty());
    assert(path_views(r@) =~= Seq::empty());
    while i < files.len()
        invariant
            i <= files@.len(),
            f == path_views(files@),
            path_views(r@) == rebased(f.take(i as int), views(dir@)),
        decreases files@.len() - i,
    {
        assert(f.take(i + 1).drop_last() =~= f.take(i as int));
        if is_below(&files[i], dir) {
            let mut rest: Vec<String> = Vec::new();
            let mut j: usize = dir.len();
            while j < files[i].len()
                invariant
                    i < files@.len(),
                    dir@.len() <= j <= files@[i as int]@.len(),
                    rest@.len() == j - dir@.len(),
                    forall|k: int|
                        0 <= k < rest@.len() ==> (#[trigger] rest@[k])@ == files@[i as int]@[k
                            + dir@.len()]@,
                decreases files@[i as int]@.len() - j,
            {
                rest.push(files[i][j].clone());
                j = j + 1;
            }
            assert(views(rest@) =~= f[i as int].skip(dir@.len() as int));
            let ghost before = path_views(r@);
            let ghost added = views(rest@);
            r.push(rest);
            assert(path_views(r@) =~= before.push(added));
        }
        i = i + 1;
    }
    assert(f.take(files@.len() as int) =~= f);
    r
}

/// Computes the store path of a single crate's source subtree.
///
/// `crate_tree` is the crate's directory, `crate_rel` the components of its path
/// below the project, and `allowed_files` are project-relative. The archive is
/// rooted at the crate directory, so nothing outside it enters the result.
pub fn crate_source_store_path(
    crate_tree: &FsNode,
    crate_rel: &Vec<String>,
    allowed_files: &Vec<Vec<String>>,
) -> (r: Result<String, String>)
    ensures
        match (r, nar_seq(
            *crate_tree,
            ""@,
            Some(rebased(path_views(allowed_files@), views(crate_rel@))),
            false,
        )) {
            (Ok(p), Ok(nar)) => p@ == nar_store_path(crate_source_name(views(crate_rel@)), nar),
            (Err(e), Err(m)) => e@ == m,
            _ => false,
        },
{
    let crate_files = rebase(allowed_files, crate_rel);
    match serialize_nar(crate_tree, Some(&crate_files)) {
        Err(e) => Err(e),
        Ok(nar) => {
            let mut name = if crate_rel.len() > 0 && !same(
                crate_rel[crate_rel.len() - 1].as_str(),
                "..",
            ) {
                crate_rel[crate_rel.len() - 1].clone()
            } else {
                owned("crate")
            };
            name.append("-src");
            Ok(compute_nar_store_path(name.as_str(), nar.as_slice()))
        },
    }
}

/// Computes the store path of the planner's skeleton source: manifests verbatim,
/// every other file blanked.
pub fn skeleton_source_store_path(
    project: &FsNode,
    name: &str,
    allowed_files: &Vec<Vec<String>>,
) -> (r: Result<String, String>)
    ensures
        match (r, nar_seq(*project, name@, Some(path_views(allowed_files@)), true)) {
            (Ok(p), Ok(nar)) => p@ == nar_store_path("project-src-skeleton"@, nar),
            (Err(e), Err(m)) => e@ == m,
            _ => false,
        },
{
    match serialize_nar_skeleton(project, name, Some(allowed_files)) {
        Err(e) => Err(e),
        Ok(nar) => Ok(compute_nar_store_path("project-src-skeleton", nar.as_slice())),
    }
}

// ---------------------------------------------------------------------------
// Laws
// ---------------------------------------------------------------------------

/// Framed bytes fill whole groups of eight.
pub proof fn law_framed_aligned(data: Seq<u8>)
    ensures
        framed(data).len() == 8 + data.len() + padding_len(data.len()),
        framed(data).len() % 8 == 0,
{
    lemma_auto_spec_u64_to_from_le_bytes();
    assert(spec_u64_to_le_bytes(data.len() as u64).len() == 8);
}

/// Whole groups of eight bytes.
#[verifier::opaque]
pub open spec fn aligned(b: Seq<u8>) -> bool {
    b.len() % 8 == 0
}

broadcast proof fn lemma_aligned_framed(data: Seq<u8>)
    ensures
        #[trigger] aligned(framed(data)),
{
    reveal(aligned);
    law_framed_aligned(data);
}

broadcast proof fn lemma_aligned_concat(a: Seq<u8>, b: Seq<u8>)
    requires
        aligned(a),
        aligned(b),
    ensures
        #[trigger] aligned(a + b),
{
    reveal(aligned);
}

/// Every archive fills whole groups of eight bytes.
pub proof fn law_nar_aligned(
    root: FsNode,
    name: Seq<char>,
    allowed: Option<Seq<Seq<Seq<char>>>>,
    skeleton: bool,
)
    ensures
        nar_seq(root, name, allowed, skeleton) matches Ok(b) ==> b.len() % 8 == 0,
{
    broadcast use {lemma_aligned_framed, lemma_aligned_concat};

    lemma_node_aligned(root, name, Seq::empty(), allowed, skeleton);
    if let Ok(b) = nar_seq(root, name, allowed, skeleton) {
        assert(aligned(b));
        reveal(aligned);
    }
}

spec fn all_aligned(e: Seq<(Seq<char>, Piece)>) -> bool {
    forall|i: int| 0 <= i < e.len() ==> ((#[trigger] e[i]).1 matches Ok(b) ==> aligned(b))
}

proof fn lemma_insert_aligned(s: Seq<(Seq<char>, Piece)>, e: (Seq<char>, Piece))
    requires
        all_aligned(s),
        e.1 matches Ok(b) ==> aligned(b),
    ensures
        all_aligned(insert_entry(s, e)),
    decreases s.len(),
{
    if s.len() > 0 && str_lt(e.0, s.last().0) {
        lemma_insert_aligned(s.drop_last(), e);
    }
}

proof fn lemma_entries_aligned(e: Seq<(Seq<char>, Piece)>)
    requires
        all_aligned(e),
    ensures
        entries_bytes(e) matches Ok(b) ==> aligned(b),
    decreases e.len(),
{
    broadcast use {lemma_aligned_framed, lemma_aligned_concat};

    if e.len() > 0 {
        lemma_entries_aligned(e.drop_last());
    } else {
        reveal(aligned);
    }
}

proof fn lemma_dir_aligned(
    children: Vec<(String, FsNode)>,
    n: nat,
    rel: Seq<Seq<char>>,
    allowed: Option<Seq<Seq<Seq<char>>>>,
    skeleton: bool,
)
    ensures
        all_aligned(dir_entries(children, n, rel, allowed, skeleton)),
    decreases children, n,
{
    if n > 0 && n <= children@.len() {
        lemma_dir_aligned(children, (n - 1) as nat, rel, allowed, skeleton);
        let name = children@[n - 1].0@;
        let node = children@[n - 1].1;
        if included(node, rel.push(name), allowed) {
            lemma_node_aligned(node, name, rel.push(name), allowed, skeleton);
            lemma_insert_aligned(
                dir_entries(children, (n - 1) as nat, rel, allowed, skeleton),
                (name, nar_node(node, name, rel.push(name), allowed, skeleton)),
            );
        }
    }
}

proof fn lemma_node_aligned(
    node: FsNode,
    name: Seq<char>,
    rel: Seq<Seq<char>>,
    allowed: Option<Seq<Seq<Seq<char>>>>,
    skeleton: bool,
)
    ensures
        nar_node(node, name, rel, allowed, skeleton) matches Ok(b) ==> aligned(b),
    decreases node, 0nat,
{
    broadcast use {lemma_aligned_framed, lemma_aligned_concat};

    assert(aligned(Seq::empty())) by {
        reveal(aligned);
    }
    match node {
        FsNode::Directory(children) => {
            lemma_dir_aligned(children, children@.len(), rel, allowed, skeleton);
            lemma_entries_aligned(
                dir_entries(children, children@.len(), rel, allowed, skeleton),
            );
        },
        _ => {},
    }
}

/// A regular file, readable or not.
pub open spec fn is_file(node: FsNode) -> bool {
    node is File || node is UnreadableFile
}

/// Two trees with the same entries whose manifests are the same. The bodies of
/// all other files may differ.
pub open spec fn same_outline(a: FsNode, b: FsNode, name: Seq<char>) -> bool
    decreases a,
{
    match (a, b) {
        (FsNode::Directory(x), FsNode::Directory(y)) => x@.len() == y@.len() && forall|i: int|
            0 <= i < x@.len() ==> (#[trigger] x@[i]).0@ == y@[i].0@ && same_outline(
                x@[i].1,
                y@[i].1,
                x@[i].0@,
            ),
        (FsNode::Symlink(x), FsNode::Symlink(y)) => x@ == y@,
        (FsNode::UnreadableDirectory(x), FsNode::UnreadableDirectory(y)) => x@ == y@,
        (FsNode::Failed(x), FsNode::Failed(y)) => x@ == y@,
        (
            FsNode::File { executable: ea, contents: ca },
            FsNode::File { executable: eb, contents: cb },
        ) => manifest_name(name) ==> ea == eb && ca@ == cb@,
        (FsNode::UnreadableFile(x), FsNode::UnreadableFile(y)) => manifest_name(name) ==> x@ == y@,
        _ => is_file(a) && is_file(b) && !manifest_name(name),
    }
}

/// The skeleton archive is a function of the manifests and of the set of source
/// paths: an edit to the body of any other file does not change it.
pub proof fn law_skeleton_ignores_bodies(
    a: FsNode,
    b: FsNode,
    name: Seq<char>,
    allowed: Option<Seq<Seq<Seq<char>>>>,
)
    requires
        same_outline(a, b, name),
    ensures
        nar_seq(a, name, allowed, true) == nar_seq(b, name, allowed, true),
{
    lemma_skeleton_node(a, b, name, Seq::empty(), allowed);
}

proof fn lemma_skeleton_node(
    a: FsNode,
    b: FsNode,
    name: Seq<char>,
    rel: Seq<Seq<char>>,
    allowed: Option<Seq<Seq<Seq<char>>>>,
)
    requires
        same_outline(a, b, name),
    ensures
        nar_node(a, name, rel, allowed, true) == nar_node(b, name, rel, allowed, true),
    decreases a, 0nat,
{
    match (a, b) {
        (FsNode::Directory(x), FsNode::Directory(y)) => {
            lemma_skeleton_entries(a, b, x, y, name, x@.len(), rel, allowed);
        },
        _ => {},
    }
}

proof fn lemma_skeleton_entries(
    a: FsNode,
    b: FsNode,
    x: Vec<(String, FsNode)>,
    y: Vec<(String, FsNode)>,
    name: Seq<char>,
    n: nat,
    rel: Seq<Seq<char>>,
    allowed: Option<Seq<Seq<Seq<char>>>>,
)
    requires
        a == FsNode::Directory(x),
        b == FsNode::Directory(y),
        same_outline(a, b, name),
        n <= x@.len(),
    ensures
        dir_entries(x, n, rel, allowed, true) == dir_entries(y, n, rel, allowed, true),
    decreases x, n,
{
    if n > 0 {
        lemma_skeleton_entries(a, b, x, y, name, (n - 1) as nat, rel, allowed);
        let child = x@[n - 1];
        assert(same_outline(child.1, y@[n - 1].1, child.0@));
        lemma_skeleton_node(child.1, y@[n - 1].1, child.0@, rel.push(child.0@), allowed);
    }
}

/// A file outside a crate's directory does not enter the crate's source: with
/// or without it in the project's list, the crate's list is the same.
pub proof fn law_crate_source_ignores_others(
    before: Seq<Seq<Seq<char>>>,
    other: Seq<Seq<char>>,
    after: Seq<Seq<Seq<char>>>,
    crate_rel: Seq<Seq<char>>,
)
    requires
        !below(other, crate_rel),
    ensures
        rebased(before + seq![other] + after, crate_rel) == rebased(before + after, crate_rel),
    decreases after.len(),
{
    if after.len() == 0 {
        assert((before + seq![other] + after).drop_last() =~= before);
        assert(before + after =~= before);
    } else {
        law_crate_source_ignores_others(before, other, after.drop_last(), crate_rel);
        assert((before + seq![other] + after).drop_last() =~= before + seq![other]
            + after.drop_last());
        assert((before + after).drop_last() =~= before + after.drop_last());
    }
}

/// The entries of a directory are archived in name order.
pub proof fn law_entries_in_name_order(
    children: Vec<(String, FsNode)>,
    n: nat,
    rel: Seq<Seq<char>>,
    allowed: Option<Seq<Seq<Seq<char>>>>,
    skeleton: bool,
)
    ensures
        entries_sorted(dir_entries(children, n, rel, allowed, skeleton)),
    decreases n,
{
    if n > 0 && n <= children@.len() {
        law_entries_in_name_order(children, (n - 1) as nat, rel, allowed, skeleton);
        let name = children@[n - 1].0@;
        let node = children@[n - 1].1;
        lemma_insert_entry_sorted(
            dir_entries(children, (n - 1) as nat, rel, allowed, skeleton),
            (name, nar_node(node, name, rel.push(name), allowed, skeleton)),
        );
    }
}

/// No entry's name comes before that of an earlier one.
pub open spec fn entries_sorted(e: Seq<(Seq<char>, Piece)>) -> bool {
    forall|i: int, j: int| 0 <= i < j < e.len() ==> !str_lt((#[trigger] e[j]).0, (#[trigger] e[i]).0)
}

proof fn lemma_insert_entry_sorted(s: Seq<(Seq<char>, Piece)>, e: (Seq<char>, Piece))
    requires
        entries_sorted(s),
    ensures
        entries_sorted(insert_entry(s, e)),
        forall|i: int|
            0 <= i < insert_entry(s, e).len() ==> (#[trigger] insert_entry(s, e)[i] == e || s.contains(
                insert_entry(s, e)[i],
            )),
    decreases s.len(),
{
    let r = insert_entry(s, e);
    if s.len() > 0 && str_lt(e.0, s.last().0) {
        let t = s.drop_last();
        lemma_insert_entry_sorted(t, e);
        let q = insert_entry(t, e);
        assert forall|i: int| 0 <= i < r.len() implies (#[trigger] r[i] == e || s.contains(r[i])) by {
            if i < q.len() {
                if q[i] != e {
                    let k = choose|k: int| 0 <= k < t.len() && t[k] == q[i];
                    assert(s[k] == q[i]);
                }
            } else {
                assert(s[s.len() - 1] == r[i]);
            }
        }
        assert forall|i: int, j: int| 0 <= i < j < r.len() implies !str_lt(
            (#[trigger] r[j]).0,
            (#[trigger] r[i]).0,
        ) by {
            if j == q.len() {
                if q[i] == e {
                    lemma_str_lt_order(s.last().0, e.0, e.0);
                } else {
                    let k = choose|k: int| 0 <= k < t.len() && t[k] == q[i];
                    assert(!str_lt(s[s.len() - 1].0, s[k].0));
                }
            } else {
                assert(!str_lt(q[j].0, q[i].0));
            }
        }
    } else {
        assert forall|i: int| 0 <= i < r.len() implies (#[trigger] r[i] == e || s.contains(r[i])) by {
            if i < s.len() {
                assert(s[i] == r[i]);
            }
        }
        assert forall|i: int, j: int| 0 <= i < j < r.len() implies !str_lt(
            (#[trigger] r[j]).0,
            (#[trigger] r[i]).0,
        ) by {
            if j == s.len() {
                let l = s[s.len() - 1].0;
                if i < s.len() - 1 {
                    assert(!str_lt(l, s[i].0));
                }
                lemma_str_lt_order(e.0, s[i].0, l);
                lemma_str_lt_order(l, s[i].0, l);
                lemma_str_lt_order(s[i].0, l, l);
            } else {
                assert(!str_lt(s[j].0, s[i].0));
            }
        }
    }
}

proof fn lemma_insert_commutes(
    s: Seq<(Seq<char>, Piece)>,
    a: (Seq<char>, Piece),
    b: (Seq<char>, Piece),
)
    requires
        a.0 != b.0,
    ensures
        insert_entry(insert_entry(s, a), b) == insert_entry(insert_entry(s, b), a),
    decreases s.len(),
{
    lemma_str_lt_order(a.0, b.0, a.0);
    if s.len() == 0 {
        reveal_with_fuel(insert_entry, 3);
        assert(seq![a].drop_last() =~= s);
        assert(seq![b].drop_last() =~= s);
        assert(seq![a].push(b).drop_last() =~= seq![a]);
        assert(seq![b].push(a).drop_last() =~= seq![b]);
    } else {
        let l = s.last();
        let t = s.drop_last();
        lemma_str_lt_order(a.0, l.0, b.0);
        lemma_str_lt_order(b.0, l.0, a.0);
        lemma_insert_commutes(t, a, b);
        assert(insert_entry(t, a).push(l).drop_last() =~= insert_entry(t, a));
        assert(insert_entry(t, b).push(l).drop_last() =~= insert_entry(t, b));
        assert(s.push(a).drop_last() =~= s);
        assert(s.push(b).drop_last() =~= s);
    }
}

/// The order in which a directory lists its entries does not matter: with two
/// neighbouring entries of different names exchanged, the archive is the same.
pub proof fn law_listing_order_irrelevant(
    x: Vec<(String, FsNode)>,
    y: Vec<(String, FsNode)>,
    i: int,
    name: Seq<char>,
    rel: Seq<Seq<char>>,
    allowed: Option<Seq<Seq<Seq<char>>>>,
    skeleton: bool,
)
    requires
        0 <= i < x@.len() - 1,
        y@ == x@.update(i, x@[i + 1]).update(i + 1, x@[i]),
        x@[i].0@ != x@[i + 1].0@,
    ensures
        nar_node(FsNode::Directory(x), name, rel, allowed, skeleton) == nar_node(
            FsNode::Directory(y),
            name,
            rel,
            allowed,
            skeleton,
        ),
{
    lemma_listing(x, y, i, x@.len(), rel, allowed, skeleton);
}

proof fn lemma_listing(
    x: Vec<(String, FsNode)>,
    y: Vec<(String, FsNode)>,
    i: int,
    n: nat,
    rel: Seq<Seq<char>>,
    allowed: Option<Seq<Seq<Seq<char>>>>,
    skeleton: bool,
)
    requires
        0 <= i < x@.len() - 1,
        y@ == x@.update(i, x@[i + 1]).update(i + 1, x@[i]),
        x@[i].0@ != x@[i + 1].0@,
        n <= x@.len(),
        n != i + 1,
    ensures
        dir_entries(x, n, rel, allowed, skeleton) == dir_entries(y, n, rel, allowed, skeleton),
    decreases n,
{
    if n == i + 2 {
        lemma_listing(x, y, i, i as nat, rel, allowed, skeleton);
        let s = dir_entries(x, i as nat, rel, allowed, skeleton);
        let a = x@[i];
        let b = x@[i + 1];
        reveal_with_fuel(dir_entries, 3);
        lemma_insert_commutes(
            s,
            (a.0@, nar_node(a.1, a.0@, rel.push(a.0@), allowed, skeleton)),
            (b.0@, nar_node(b.1, b.0@, rel.push(b.0@), allowed, skeleton)),
        );
    } else if n > 0 {
        lemma_listing(x, y, i, (n - 1) as nat, rel, allowed, skeleton);
    }
}

} // verus!
