//! What is merged, what a unit waits for, and which files a source has.
use crate::graph::{dep_keys, firsts, index_of, opt_seq, seconds};
use crate::graph_laws::law_least_edges;
use crate::nar::{below, included, rebased, FsNode};
use crate::resolution::without;
use crate::text::{debug_strings, sort_seq};
use crate::tool_laws::lemma_contains_concat;
use crate::unify::{
    group_edges, group_is_root, group_key, is_merged, least_edges, member, merged_unit,
};
use crate::unit_key::{host_suffix, kind_suffix};
use crate::units::{UnitKind, UnitView};
use crate::wording::{lemma_cancel, lemma_cancel_front};
use vstd::prelude::*;

verus! {

// ---------------------------------------------------------------------------
// Merged units
// ---------------------------------------------------------------------------

proof fn lemma_kind_suffixes(a: UnitKind, b: UnitKind)
    requires
        kind_suffix(a) == kind_suffix(b),
    ensures
        a == b,
{
    reveal_strlit("-run");
    reveal_strlit("-build-script");
    reveal_strlit("-test");
    reveal_strlit("-check");
    reveal_strlit("-doc");
    reveal_strlit("");
    assert("-run"@.len() == 4 && "-build-script"@.len() == 13 && "-test"@.len() == 5);
    assert("-check"@.len() == 6 && "-doc"@.len() == 4 && ""@.len() == 0);
    assert("-run"@[1] == 'r' && "-doc"@[1] == 'd');
}

/// Units that differ in one of these are not merged: the crate's name, the edition, the
/// source file, the kind and the package's directory.
#[verifier::spinoff_prover]
#[verifier::rlimit(60)]
pub proof fn law_groups_keep_apart(u: UnitView, other: Seq<char>, kind: UnitKind)
    ensures
        other != u.crate_name ==> group_key(UnitView { crate_name: other, ..u }) != group_key(u),
        other != u.edition ==> group_key(UnitView { edition: other, ..u }) != group_key(u),
        other != u.source_file ==> group_key(UnitView { source_file: other, ..u }) != group_key(u),
        kind != u.kind ==> group_key(UnitView { kind, ..u }) != group_key(u),
        other != u.manifest_dir ==> group_key(UnitView { manifest_dir: other, ..u }) != group_key(u),
{
    let d = "/"@;
    let k = kind_suffix(u.kind);
    let h = host_suffix(u.for_host);
    let c = ":"@;
    let t = debug_strings(sort_seq(u.crate_types));
    let b0 = u.crate_name;
    let b1 = b0 + d;
    let b2 = b1 + u.edition;
    let b3 = b2 + d;
    let b4 = b3 + u.source_file;
    let b5 = b4 + k;
    let b6 = b5 + h;
    let b7 = b6 + d;
    let b8 = b7 + u.manifest_dir;
    let b9 = b8 + c;
    let b10 = b9 + t;
    if group_key(UnitView { crate_name: other, ..u }) == group_key(u) {
        let o = other;
        let a0 = o;
        let a1 = a0 + d;
        let a2 = a1 + u.edition;
        let a3 = a2 + d;
        let a4 = a3 + u.source_file;
        let a5 = a4 + k;
        let a6 = a5 + h;
        let a7 = a6 + d;
        let a8 = a7 + u.manifest_dir;
        let a9 = a8 + c;
        let a10 = a9 + t;
        lemma_cancel(a9, b9, t);
        lemma_cancel(a8, b8, c);
        lemma_cancel(a7, b7, u.manifest_dir);
        lemma_cancel(a6, b6, d);
        lemma_cancel(a5, b5, h);
        lemma_cancel(a4, b4, k);
        lemma_cancel(a3, b3, u.source_file);
        lemma_cancel(a2, b2, d);
        lemma_cancel(a1, b1, u.edition);
        lemma_cancel(a0, b0, d);
    }
    if group_key(UnitView { edition: other, ..u }) == group_key(u) {
        let o = other;
        let a2 = b1 + o;
        let a3 = a2 + d;
        let a4 = a3 + u.source_file;
        let a5 = a4 + k;
        let a6 = a5 + h;
        let a7 = a6 + d;
        let a8 = a7 + u.manifest_dir;
        let a9 = a8 + c;
        let a10 = a9 + t;
        lemma_cancel(a9, b9, t);
        lemma_cancel(a8, b8, c);
        lemma_cancel(a7, b7, u.manifest_dir);
        lemma_cancel(a6, b6, d);
        lemma_cancel(a5, b5, h);
        lemma_cancel(a4, b4, k);
        lemma_cancel(a3, b3, u.source_file);
        lemma_cancel(a2, b2, d);
        lemma_cancel_front(b1, o, u.edition);
    }
    if group_key(UnitView { source_file: other, ..u }) == group_key(u) {
        let o = other;
        let a4 = b3 + o;
        let a5 = a4 + k;
        let a6 = a5 + h;
        let a7 = a6 + d;
        let a8 = a7 + u.manifest_dir;
        let a9 = a8 + c;
        let a10 = a9 + t;
        lemma_cancel(a9, b9, t);
        lemma_cancel(a8, b8, c);
        lemma_cancel(a7, b7, u.manifest_dir);
        lemma_cancel(a6, b6, d);
        lemma_cancel(a5, b5, h);
        lemma_cancel(a4, b4, k);
        lemma_cancel_front(b3, o, u.source_file);
    }
    if group_key(UnitView { kind, ..u }) == group_key(u) {
        let o = kind_suffix(kind);
        let a5 = b4 + o;
        let a6 = a5 + h;
        let a7 = a6 + d;
        let a8 = a7 + u.manifest_dir;
        let a9 = a8 + c;
        let a10 = a9 + t;
        lemma_cancel(a9, b9, t);
        lemma_cancel(a8, b8, c);
        lemma_cancel(a7, b7, u.manifest_dir);
        lemma_cancel(a6, b6, d);
        lemma_cancel(a5, b5, h);
        lemma_cancel_front(b4, o, k);
        lemma_kind_suffixes(kind, u.kind);
    }
    if group_key(UnitView { manifest_dir: other, ..u }) == group_key(u) {
        let o = other;
        let a8 = b7 + o;
        let a9 = a8 + c;
        let a10 = a9 + t;
        lemma_cancel(a9, b9, t);
        lemma_cancel(a8, b8, c);
        lemma_cancel_front(b7, o, u.manifest_dir);
    }
}

proof fn lemma_group_edges(us: Seq<UnitView>, key: Seq<char>, n: nat, j: int, k: int)
    requires
        0 <= j < n <= us.len(),
        member(us, key, j),
        0 <= k < us[j].dep_extern.len(),
    ensures
        group_edges(us, key, n).contains(us[j].dep_extern[k]),
    decreases n,
{
    let before = group_edges(us, key, (n - 1) as nat);
    let all = group_edges(us, key, n);
    let x = us[j].dep_extern[k];
    if j == n - 1 {
        assert(all[before.len() + k] == x);
    } else {
        lemma_group_edges(us, key, (n - 1) as nat, j, k);
        let m = choose|m: int| 0 <= m < before.len() && before[m] == x;
        assert(all[m] == x);
    }
}

proof fn lemma_group_root(us: Seq<UnitView>, key: Seq<char>, n: nat)
    requires
        n <= us.len(),
    ensures
        group_is_root(us, key, n) <==> exists|j: int|
            0 <= j < n && member(us, key, j) && (#[trigger] us[j]).is_root,
    decreases n,
{
    if n > 0 {
        lemma_group_root(us, key, (n - 1) as nat);
        if member(us, key, n - 1) && us[n - 1].is_root {
            assert(us[n - 1].is_root);
        }
        if exists|j: int| 0 <= j < n && member(us, key, j) && (#[trigger] us[j]).is_root {
            let j = choose|j: int| 0 <= j < n && member(us, key, j) && (#[trigger] us[j]).is_root;
            if j < n - 1 {
                assert(us[j].is_root);
            }
        }
    }
}

/// A unit with no other to be merged with stays as it is. A merged one is a root where
/// one of its group is, and depends on every crate that one of its group depends on; its
/// kind, its source and the machine it is for stay.
pub proof fn law_merged_units(us: Seq<UnitView>, i: int, j: int, k: int)
    requires
        0 <= i < us.len(),
    ensures
        !is_merged(us, i) ==> merged_unit(us, i) == us[i],
        is_merged(us, i) ==> (merged_unit(us, i).is_root <==> exists|m: int|
            0 <= m < us.len() && member(us, group_key(us[i]), m) && (#[trigger] us[m]).is_root),
        is_merged(us, i) && 0 <= j < us.len() && member(us, group_key(us[i]), j) && 0 <= k
            < us[j].dep_extern.len() ==> firsts(merged_unit(us, i).dep_extern).contains(
            us[j].dep_extern[k].0,
        ),
        merged_unit(us, i).kind == us[i].kind,
        merged_unit(us, i).source_file == us[i].source_file,
        merged_unit(us, i).for_host == us[i].for_host,
        merged_unit(us, i).build_script_dep == us[i].build_script_dep,
{
    reveal(merged_unit);
    let key = group_key(us[i]);
    lemma_group_root(us, key, us.len());
    if is_merged(us, i) && 0 <= j < us.len() && member(us, key, j) && 0 <= k
        < us[j].dep_extern.len() {
        lemma_group_edges(us, key, us.len(), j, k);
        let edges = group_edges(us, key, us.len());
        let m = choose|m: int| 0 <= m < edges.len() && edges[m] == us[j].dep_extern[k];
        law_least_edges(edges, m);
        assert(merged_unit(us, i).dep_extern == least_edges(edges));
    }
}

// ---------------------------------------------------------------------------
// Dependencies
// ---------------------------------------------------------------------------

/// A unit waits for the crates it is linked against, the run of its build script, the
/// compilation of the build script it runs, and the runs of linked packages; for nothing
/// else.
pub proof fn law_unit_waits_for(u: UnitView, key: Seq<char>)
    ensures
        dep_keys(u).contains(key) <==> {
            ||| exists|i: int| 0 <= i < u.dep_extern.len() && (#[trigger] u.dep_extern[i]).1 == key
            ||| u.build_script_dep == Some(key)
            ||| u.build_script_compile_key == Some(key)
            ||| exists|i: int|
                0 <= i < u.links_dep_keys.len() && (#[trigger] u.links_dep_keys[i]).0 == key
        },
{
    let a = seconds(u.dep_extern);
    let b = opt_seq(u.build_script_dep);
    let c = opt_seq(u.build_script_compile_key);
    let d = firsts(u.links_dep_keys);
    lemma_contains_concat(a, b, key);
    lemma_contains_concat(a + b, c, key);
    lemma_contains_concat(a + b + c, d, key);
    if a.contains(key) {
        let i = choose|i: int| 0 <= i < a.len() && a[i] == key;
        assert(u.dep_extern[i].1 == key);
    }
    if exists|i: int| 0 <= i < u.dep_extern.len() && (#[trigger] u.dep_extern[i]).1 == key {
        let i = choose|i: int| 0 <= i < u.dep_extern.len() && (#[trigger] u.dep_extern[i]).1 == key;
        assert(a[i] == key);
    }
    if d.contains(key) {
        let i = choose|i: int| 0 <= i < d.len() && d[i] == key;
        assert(u.links_dep_keys[i].0 == key);
    }
    if exists|i: int| 0 <= i < u.links_dep_keys.len() && (#[trigger] u.links_dep_keys[i]).0
        == key {
        let i = choose|i: int|
            0 <= i < u.links_dep_keys.len() && (#[trigger] u.links_dep_keys[i]).0 == key;
        assert(d[i] == key);
    }
    if let Some(k) = u.build_script_dep {
        assert(b[0] == k);
    }
    if let Some(k) = u.build_script_compile_key {
        assert(c[0] == k);
    }
}

/// A unit is found by its key, and nothing is found by a key that no unit has.
pub proof fn law_units_are_found(us: Seq<UnitView>, key: Seq<char>)
    ensures
        index_of(us, key) matches Some(i) ==> 0 <= i < us.len() && us[i].key == key,
        index_of(us, key) is None ==> forall|i: int|
            0 <= i < us.len() ==> (#[trigger] us[i]).key != key,
    decreases us.len(),
{
    if us.len() > 0 {
        law_units_are_found(us.drop_last(), key);
        if index_of(us, key) is None {
            assert forall|i: int| 0 <= i < us.len() implies (#[trigger] us[i]).key != key by {
                if i < us.len() - 1 {
                    assert(us.drop_last()[i] == us[i]);
                }
            }
        }
    }
}

/// What is excluded is taken out, and the rest stays in order.
pub proof fn law_excluded_are_taken_out(v: Seq<Seq<char>>, exclude: Seq<Seq<char>>)
    ensures
        without(v, exclude) == v.filter(|x: Seq<char>| !exclude.contains(x)),
    decreases v.len(),
{
    reveal(Seq::filter);
    if v.len() > 0 {
        law_excluded_are_taken_out(v.drop_last(), exclude);
    } else {
        assert(v.filter(|x: Seq<char>| !exclude.contains(x)) =~= Seq::empty());
    }
}

// ---------------------------------------------------------------------------
// Files
// ---------------------------------------------------------------------------

/// A link goes into no source. Where the files are listed a file goes in that is listed,
/// and a directory that one of them lies in; else everything does.
pub proof fn law_what_goes_in(
    node: FsNode,
    rel: Seq<Seq<char>>,
    files: Seq<Seq<Seq<char>>>,
    i: int,
)
    ensures
        node is Symlink ==> !included(node, rel, None) && !included(node, rel, Some(files)),
        node !is Symlink ==> included(node, rel, None),
        node is File && 0 <= i < files.len() && files[i] == rel ==> included(node, rel, Some(files)),
        node is File && !files.contains(rel) ==> !included(node, rel, Some(files)),
        node is Directory && 0 <= i < files.len() && rel.len() <= files[i].len() && files[i].take(
            rel.len() as int,
        ) == rel ==> included(node, rel, Some(files)),
        node is Directory && (forall|k: int|
            0 <= k < files.len() ==> !below(#[trigger] files[k], rel)) ==> !included(
            node,
            rel,
            Some(files),
        ),
{
    if 0 <= i < files.len() && rel.len() <= files[i].len() && files[i].take(rel.len() as int)
        == rel {
        assert(below(files[i], rel));
    }
    if node is File {
        if 0 <= i < files.len() && files[i] == rel {
            assert(exists|k: int| 0 <= k < files.len() && #[trigger] files[k] == rel);
        }
        if included(node, rel, Some(files)) {
            let k = choose|k: int| 0 <= k < files.len() && #[trigger] files[k] == rel;
            assert(files.contains(files[k]));
        }
    }
}

/// The files of a crate are those below its directory, seen from there.
pub proof fn law_files_of_a_crate(
    files: Seq<Seq<Seq<char>>>,
    dir: Seq<Seq<char>>,
    rest: Seq<Seq<char>>,
)
    ensures
        rebased(files, dir).contains(rest) <==> files.contains(dir + rest),
    decreases files.len(),
{
    if files.len() > 0 {
        let t = files.drop_last();
        let last = files.last();
        law_files_of_a_crate(t, dir, rest);
        let before = rebased(t, dir);
        let all = rebased(files, dir);
        assert(files[files.len() - 1] == last);
        if before.contains(rest) {
            let k = choose|k: int| 0 <= k < before.len() && before[k] == rest;
            assert(all[k] == rest);
        }
        if t.contains(dir + rest) {
            let k = choose|k: int| 0 <= k < t.len() && t[k] == dir + rest;
            assert(files[k] == dir + rest);
        }
        if last == dir + rest {
            assert((dir + rest).take(dir.len() as int) =~= dir);
            assert((dir + rest).skip(dir.len() as int) =~= rest);
            assert(all.last() == rest);
        }
        if files.contains(dir + rest) && last != dir + rest {
            let k = choose|k: int| 0 <= k < files.len() && files[k] == dir + rest;
            assert(t[k] == dir + rest);
        }
        if all.contains(rest) && !before.contains(rest) {
            let k = choose|k: int| 0 <= k < all.len() && all[k] == rest;
            if k < before.len() {
                assert(before[k] == rest);
            }
            assert(last.skip(dir.len() as int) == rest);
            assert(last =~= last.take(dir.len() as int) + last.skip(dir.len() as int));
        }
    }
}

} // verus!
