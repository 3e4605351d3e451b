//! What placeholders, paths and choices of tools are made of.
use crate::hash::sha256_digest;
use crate::nix_encoding::{
    after_store_dir, base32_alphabet, base32_digit, base32_len, base32_seq, bit_at,
};
use crate::pipeline::{
    clean_name_seq, graph_key, last_dot, profile_name, project_manifest_dir, results_dir,
    GraphInputs,
};
use crate::placeholder::{
    drop_bytes, drv_name_of, output_placeholder, own_placeholder, placeholder_input,
    placeholder_seq, take_bytes, TextResult,
};
use crate::runner::{binary_name_seq, chosen_binary, first_named, of_kind, runner_parts};
use crate::text::{
    has_substring, is_space, join_seq, lemma_sorted_set, split_seq, starts, strictly_sorted,
    trim_end_char, views, words_open, words_seq,
};
use crate::toolchain::{
    add_value_roots, closure_paths_seq, env_roots, has_first, libraries, opt_list, path_roots,
    push_new, refreshed, shown_package, store_root, unknown_paths, value_root, with_original_dir,
    ClosureRoots,
};
use crate::units::{opt_view, UnitKind, UnitView};
use crate::wording::{lemma_first_at, lemma_first_none, lemma_split_joined};
use vstd::prelude::*;
use vstd::utf8::*;

verus! {

// ---------------------------------------------------------------------------
// Placeholders
// ---------------------------------------------------------------------------

/// The value of a base32 digit: the digits and the small letters without e, o, t and u.
pub open spec fn base32_value(c: char) -> int {
    if '0' <= c && c <= '9' {
        c as int - '0' as int
    } else if 'a' <= c && c <= 'd' {
        c as int - 'a' as int + 10
    } else if 'f' <= c && c <= 'n' {
        c as int - 'f' as int + 14
    } else if 'p' <= c && c <= 's' {
        c as int - 'p' as int + 23
    } else if 'v' <= c && c <= 'z' {
        c as int - 'v' as int + 27
    } else {
        -1
    }
}

proof fn lemma_base32_letters(d: int)
    requires
        0 <= d < 32,
    ensures
        base32_value(base32_alphabet()[d]) == d,
{
    reveal_strlit("0123456789abcdfghijklmnpqrsvwxyz");
    let a = base32_alphabet();
    if d < 8 {
        assert(d == 0 || d == 1 || d == 2 || d == 3 || d == 4 || d == 5 || d == 6 || d == 7);
    } else if d < 16 {
        assert(d == 8 || d == 9 || d == 10 || d == 11 || d == 12 || d == 13 || d == 14 || d == 15);
    } else if d < 24 {
        assert(d == 16 || d == 17 || d == 18 || d == 19 || d == 20 || d == 21 || d == 22 || d
            == 23);
    } else {
        assert(d == 24 || d == 25 || d == 26 || d == 27 || d == 28 || d == 29 || d == 30 || d
            == 31);
    }
}

proof fn lemma_bit(input: Seq<u8>, p: int)
    ensures
        0 <= bit_at(input, p) <= 1,
{
    let x = input[p / 8];
    let k = (p % 8) as u8;
    assert((x >> k) & 1u8 <= 1u8) by (bit_vector);
}

/// A base32 text reads back to the bits of its bytes: each character stands for five of
/// them, the lowest in the last.
pub proof fn law_base32_reads_back(input: Seq<u8>, n: int)
    requires
        0 <= n < base32_len(input.len()),
    ensures
        ({
            let s = base32_seq(input);
            let v = base32_value(s[s.len() - 1 - n]);
            &&& s.len() == base32_len(input.len())
            &&& bit_at(input, 5 * n) == v % 2
            &&& bit_at(input, 5 * n + 1) == (v / 2) % 2
            &&& bit_at(input, 5 * n + 2) == (v / 4) % 2
            &&& bit_at(input, 5 * n + 3) == (v / 8) % 2
            &&& bit_at(input, 5 * n + 4) == v / 16
        }),
{
    lemma_bit(input, 5 * n);
    lemma_bit(input, 5 * n + 1);
    lemma_bit(input, 5 * n + 2);
    lemma_bit(input, 5 * n + 3);
    lemma_bit(input, 5 * n + 4);
    assert(n * 5 == 5 * n);
    lemma_base32_letters(base32_digit(input, n));
}

proof fn lemma_encode_concat(a: Seq<char>, b: Seq<char>)
    ensures
        encode_utf8(a + b) == encode_utf8(a) + encode_utf8(b),
    decreases a.len(),
{
    if a.len() == 0 {
        assert(a + b =~= b);
        assert(encode_utf8(a) + encode_utf8(b) =~= encode_utf8(b));
    } else {
        lemma_encode_concat(a.drop_first(), b);
        assert((a + b).drop_first() =~= a.drop_first() + b);
        assert((a + b)[0] == a[0]);
        assert(encode_utf8(a + b) =~= encode_utf8(a) + encode_utf8(b));
    }
}

proof fn lemma_encode_ascii(s: Seq<char>)
    requires
        is_ascii_chars(s),
    ensures
        encode_utf8(s).len() == s.len(),
{
    is_ascii_chars_encode_utf8(s);
}

/// The placeholder of an output of a derivation is made of the hash and the name in the
/// derivation's path, without its ending; an output other than `out` is named behind.
pub proof fn law_placeholder_of_derivation(hash: Seq<char>, name: Seq<char>, output: Seq<char>)
    requires
        hash.len() == 32,
        is_ascii_chars(hash),
    ensures
        ({
            let path = "/nix/store/"@ + hash + "-"@ + name + ".drv"@;
            &&& placeholder_input(path, "out"@) == "nix-upstream-output:"@ + hash + ":"@ + name
            &&& output != "out"@ ==> placeholder_input(path, output) == "nix-upstream-output:"@
                + hash + ":"@ + name + "-"@ + output
            &&& output_placeholder(path, output) == TextResult::Ok(
                "/"@ + base32_seq(sha256_digest(encode_utf8(placeholder_input(path, output)))),
            )
        }),
{
    let path = "/nix/store/"@ + hash + "-"@ + name + ".drv"@;
    let rest = hash + "-"@ + name + ".drv"@;
    let file = name + ".drv"@;
    reveal_strlit("-");
    reveal_strlit(".drv");
    assert(path.take("/nix/store/"@.len() as int) =~= "/nix/store/"@);
    assert(path.skip("/nix/store/"@.len() as int) =~= rest);
    assert(after_store_dir(path) == rest);
    assert(rest =~= hash + ("-"@ + file));
    assert(rest =~= (hash + "-"@) + file);
    lemma_encode_concat(hash, "-"@ + file);
    lemma_encode_concat(hash + "-"@, file);
    lemma_encode_ascii(hash);
    let cut = hash + "-"@;
    assert forall|i: int| 0 <= i < cut.len() implies '\0' <= #[trigger] cut[i] <= '\u{7f}' by {
        if i < 32 {
            assert(cut[i] == hash[i]);
        }
    }
    lemma_encode_ascii(cut);
    encode_utf8_decode_utf8(hash);
    encode_utf8_decode_utf8(file);
    assert(encode_utf8(rest).take(32) =~= encode_utf8(hash));
    assert(encode_utf8(rest).skip(33) =~= encode_utf8(file));
    assert(take_bytes(rest, 32) == hash);
    assert(drop_bytes(rest, 33) == file);
    lemma_encode_concat(name, ".drv"@);
    lemma_encode_ascii(".drv"@);
    assert(file.skip(file.len() - 4) =~= ".drv"@);
    assert(file.take(file.len() - 4) =~= name);
    assert(drv_name_of(path) == name);
    assert(placeholder_input(path, "out"@) =~= "nix-upstream-output:"@ + hash + ":"@ + name);
    if output != "out"@ {
        assert(placeholder_input(path, output) =~= "nix-upstream-output:"@ + hash + ":"@ + name
            + "-"@ + output);
    }
    assert(encode_utf8(rest).len() > 33);
    assert(encode_utf8(after_store_dir(path)).len() > 33);
    reveal(output_placeholder);
    assert(output_placeholder(path, output) == TextResult::Ok(
        placeholder_seq(sha256_digest(encode_utf8(placeholder_input(path, output)))),
    ));
}

/// A derivation's own output is named by what it is called.
pub proof fn law_own_placeholder(output: Seq<char>)
    ensures
        own_placeholder(output) == "/"@ + base32_seq(
            sha256_digest(encode_utf8("nix-output:"@ + output)),
        ),
{
}

// ---------------------------------------------------------------------------
// Graphs and results
// ---------------------------------------------------------------------------

/// The key of a cached graph tells, between colons, the lock file, the manifests, the
/// profile, the target, what is built, the packages, the features and whether the
/// default features are off.
#[verifier::spinoff_prover]
#[verifier::rlimit(60)]
pub proof fn law_graph_key_parts(g: GraphInputs)
    requires
        !g.lockfile_hash@.contains(':'),
        !g.manifest_hash@.contains(':'),
        !g.profile@.contains(':'),
        !g.target_triple@.contains(':'),
        !g.intent@.contains(':'),
        !join_seq(views(g.packages@), ","@).contains(':'),
        !join_seq(views(g.features@), ","@).contains(':'),
    ensures
        split_seq(graph_key(g), ':') == seq![
            g.lockfile_hash@,
            g.manifest_hash@,
            g.profile@,
            g.target_triple@,
            g.intent@,
            join_seq(views(g.packages@), ","@),
            join_seq(views(g.features@), ","@),
            if g.no_default_features {
                "true"@
            } else {
                "false"@
            },
        ],
{
    reveal_strlit(":");
    reveal_strlit("true");
    reveal_strlit("false");
    let c = seq![':'];
    assert(":"@ =~= c);
    let p0 = g.lockfile_hash@;
    let p1 = g.manifest_hash@;
    let p2 = g.profile@;
    let p3 = g.target_triple@;
    let p4 = g.intent@;
    let p5 = join_seq(views(g.packages@), ","@);
    let p6 = join_seq(views(g.features@), ","@);
    let p7 = if g.no_default_features {
        "true"@
    } else {
        "false"@
    };
    let parts = seq![p0, p1, p2, p3, p4, p5, p6, p7];
    lemma_split_joined(parts, ':');
    let q6 = parts.drop_last();
    let q5 = q6.drop_last();
    let q4 = q5.drop_last();
    let q3 = q4.drop_last();
    let q2 = q3.drop_last();
    let q1 = q2.drop_last();
    let q0 = q1.drop_last();
    assert(q0.len() == 1 && q0[0] == p0);
    assert(join_seq(q0, c) == p0);
    assert(q1.last() == p1);
    assert(join_seq(q1, c) == p0 + c + p1);
    assert(q2.last() == p2);
    assert(join_seq(q2, c) == p0 + c + p1 + c + p2);
    assert(q3.last() == p3);
    assert(join_seq(q3, c) == p0 + c + p1 + c + p2 + c + p3);
    assert(q4.last() == p4);
    assert(join_seq(q4, c) == p0 + c + p1 + c + p2 + c + p3 + c + p4);
    assert(q5.last() == p5);
    assert(join_seq(q5, c) == p0 + c + p1 + c + p2 + c + p3 + c + p4 + c + p5);
    assert(q6.last() == p6);
    assert(join_seq(q6, c) == p0 + c + p1 + c + p2 + c + p3 + c + p4 + c + p5 + c + p6);
    assert(join_seq(parts, c) == graph_key(g));
}

/// A release asks for its own profile; else the one that was named is used, or `dev`.
pub proof fn law_profile_names(profile: Seq<char>)
    ensures
        profile_name(true, Some(profile)) == "release"@,
        profile_name(true, None) == "release"@,
        profile_name(false, Some(profile)) == profile,
        profile_name(false, None) == "dev"@,
{
}

/// Results lie in the project's target directory, those for another machine in a
/// directory of that one, by profile; the profile `dev` has the directory `debug`.
pub proof fn law_results_lie(
    project: Seq<char>,
    profile: Seq<char>,
    host: Seq<char>,
    target: Seq<char>,
)
    requires
        project.len() > 0,
        project.last() != '/',
        target.len() > 0,
        target[0] != '/',
        target.last() != '/',
        profile.len() > 0,
        profile[0] != '/',
    ensures
        profile != "dev"@ && host == target ==> results_dir(project, profile, host, target)
            == project + "/target/"@ + profile,
        profile != "dev"@ && host != target ==> results_dir(project, profile, host, target)
            == project + "/target/"@ + target + "/"@ + profile,
        profile == "dev"@ && host == target ==> results_dir(project, profile, host, target)
            == project + "/target/debug"@,
        profile == "dev"@ && host != target ==> results_dir(project, profile, host, target)
            == project + "/target/"@ + target + "/debug"@,
{
    reveal_strlit("target");
    reveal_strlit("/");
    reveal_strlit("/target/");
    reveal_strlit("debug");
    reveal_strlit("/debug");
    reveal_strlit("/target/debug");
    assert("target"@[0] == 't' && "target"@[5] == 't' && "target"@.len() == 6);
    let base = project + "/"@ + "target"@;
    assert(base.last() == 't');
    let dir = if profile == "dev"@ {
        "debug"@
    } else {
        profile
    };
    assert("debug"@[0] == 'd');
    let r = results_dir(project, profile, host, target);
    if host == target {
        assert(r == base + "/"@ + dir);
        if profile == "dev"@ {
            assert(r =~= project + "/target/debug"@);
        } else {
            assert(r =~= project + "/target/"@ + profile);
        }
    } else {
        let cross = base + "/"@ + target;
        assert(cross.last() == target.last());
        assert(r == cross + "/"@ + dir);
        if profile == "dev"@ {
            assert(r =~= project + "/target/"@ + target + "/debug"@);
        } else {
            assert(r =~= project + "/target/"@ + target + "/"@ + profile);
        }
    }
}

/// A result is linked under its target's name; on Windows it keeps the ending of its
/// file.
pub proof fn law_clean_names(target: Seq<char>, stem: Seq<char>, end: Seq<char>)
    requires
        stem.len() > 0,
        end.len() > 0,
        !end.contains('.'),
    ensures
        clean_name_seq(target, stem + "."@ + end, true) == target + "."@ + end,
        clean_name_seq(target, stem + "."@ + end, false) == target,
        !stem.contains('.') ==> clean_name_seq(target, stem, true) == target,
{
    reveal_strlit(".");
    reveal_strlit("..");
    let f = stem + "."@ + end;
    lemma_last_dot(f, stem.len() as int);
    assert(f.last() == end.last());
    assert(end.contains(end[end.len() - 1]));
    assert(f != ".."@) by {
        assert(".."@.last() == '.');
    }
    assert(f.skip(stem.len() as int + 1) =~= end);
    if !stem.contains('.') {
        lemma_no_dot(stem);
    }
}

proof fn lemma_last_dot(s: Seq<char>, i: int)
    requires
        0 <= i < s.len(),
        s[i] == '.',
        forall|j: int| i < j < s.len() ==> s[j] != '.',
    ensures
        last_dot(s) == Some(i),
    decreases s.len(),
{
    if i < s.len() - 1 {
        lemma_last_dot(s.drop_last(), i);
    }
}

proof fn lemma_no_dot(s: Seq<char>)
    requires
        !s.contains('.'),
    ensures
        last_dot(s) is None,
    decreases s.len(),
{
    if s.len() > 0 {
        assert(s.contains(s[s.len() - 1]));
        assert forall|x: char| s.drop_last().contains(x) implies s.contains(x) by {
            let i = choose|i: int| 0 <= i < s.len() - 1 && s.drop_last()[i] == x;
            assert(s[i] == x);
        }
        lemma_no_dot(s.drop_last());
    }
}

// ---------------------------------------------------------------------------
// Runs
// ---------------------------------------------------------------------------

/// A program for Windows has an ending; another has none.
pub proof fn law_program_names(name: Seq<char>, target: Seq<char>)
    ensures
        has_substring(target, "windows"@) ==> binary_name_seq(name, Some(target)) == name + ".exe"@,
        !has_substring(target, "windows"@) ==> binary_name_seq(name, Some(target)) == name,
        binary_name_seq(name, None) == name,
{
}

proof fn lemma_words_open(s: Seq<char>)
    ensures
        forall|c: char| #[trigger] words_open(s).1.contains(c) ==> !is_space(c),
        forall|i: int|
            0 <= i < words_open(s).0.len() ==> (#[trigger] words_open(s).0[i]).len() > 0
                && forall|c: char| words_open(s).0[i].contains(c) ==> !is_space(c),
    decreases s.len(),
{
    if s.len() > 0 {
        lemma_words_open(s.drop_last());
        let (done, cur) = words_open(s.drop_last());
        let (done2, cur2) = words_open(s);
        assert forall|c: char| #[trigger] cur2.contains(c) implies !is_space(c) by {
            let i = choose|i: int| 0 <= i < cur2.len() && cur2[i] == c;
            if i < cur.len() {
                assert(cur[i] == c);
                assert(cur.contains(c));
            }
        }
        assert forall|i: int| 0 <= i < done2.len() implies (#[trigger] done2[i]).len() > 0
            && forall|c: char| done2[i].contains(c) ==> !is_space(c) by {
            if i < done.len() {
                assert(done2[i] == done[i]);
            } else {
                assert(done2[i] == cur);
            }
        }
    }
}

/// A runner is words between spaces: the first is the program and the others are its
/// arguments. No word is empty or holds a space, and without a word there is no runner.
pub proof fn law_runner_words(value: Seq<char>)
    ensures
        runner_parts(value) matches Some((program, args)) ==> words_seq(value) == seq![program]
            + args && program.len() > 0 && forall|c: char| program.contains(c) ==> !is_space(c),
        runner_parts(value) is None ==> words_seq(value).len() == 0,
        forall|i: int|
            0 <= i < words_seq(value).len() ==> (#[trigger] words_seq(value)[i]).len() > 0
                && forall|c: char| words_seq(value)[i].contains(c) ==> !is_space(c),
{
    lemma_words_open(value);
    let (done, cur) = words_open(value);
    let ws = words_seq(value);
    assert forall|i: int| 0 <= i < ws.len() implies (#[trigger] ws[i]).len() > 0 && forall|c: char|
        ws[i].contains(c) ==> !is_space(c) by {
        if i < done.len() {
            assert(ws[i] == done[i]);
        } else {
            assert(ws[i] == cur);
        }
    }
    if ws.len() > 0 {
        assert(ws =~= seq![ws[0]] + ws.skip(1));
    }
}

proof fn lemma_of_kind_has(roots: Seq<(Seq<char>, UnitKind)>, kind: UnitKind, n: nat, i: int)
    requires
        n <= roots.len(),
        0 <= i < n,
        roots[i].1 == kind,
    ensures
        of_kind(roots, kind, n).contains(i),
    decreases n,
{
    let all = of_kind(roots, kind, n);
    if i == n - 1 {
        assert(all.last() == i);
    } else {
        lemma_of_kind_has(roots, kind, (n - 1) as nat, i);
        let before = of_kind(roots, kind, (n - 1) as nat);
        let k = choose|k: int| 0 <= k < before.len() && before[k] == i;
        assert(all[k] == i);
    }
}

proof fn lemma_of_kind_only(roots: Seq<(Seq<char>, UnitKind)>, kind: UnitKind, n: nat, i: int)
    requires
        n <= roots.len(),
        0 <= i < n,
        roots[i].1 == kind,
        forall|j: int| 0 <= j < n && j != i ==> (#[trigger] roots[j]).1 != kind,
    ensures
        of_kind(roots, kind, n) == seq![i],
    decreases n,
{
    if i == n - 1 {
        lemma_of_kind_none(roots, kind, (n - 1) as nat);
        assert(of_kind(roots, kind, n) =~= seq![i]);
    } else {
        assert(roots[n - 1].1 != kind);
        lemma_of_kind_only(roots, kind, (n - 1) as nat, i);
    }
}

proof fn lemma_of_kind_none(roots: Seq<(Seq<char>, UnitKind)>, kind: UnitKind, n: nat)
    requires
        n <= roots.len(),
        forall|j: int| 0 <= j < n ==> (#[trigger] roots[j]).1 != kind,
    ensures
        of_kind(roots, kind, n).len() == 0,
    decreases n,
{
    if n > 0 {
        assert(roots[n - 1].1 != kind);
        lemma_of_kind_none(roots, kind, (n - 1) as nat);
    }
}

proof fn lemma_named_found(
    roots: Seq<(Seq<char>, UnitKind)>,
    at: Seq<int>,
    name: Seq<char>,
    from: int,
    k: int,
)
    requires
        0 <= from <= k < at.len(),
        roots[at[k]].0 == name,
    ensures
        first_named(roots, at, name, from) is Some,
    decreases at.len() - from,
{
    if roots[at[from]].0 != name {
        lemma_named_found(roots, at, name, from + 1, k);
    }
}

/// A program that is named and was compiled is run, and so is the only one where none is
/// named; with several and no name nothing is.
pub proof fn law_run_is_found(roots: Seq<(Seq<char>, UnitKind)>, i: int, j: int)
    requires
        0 <= i < roots.len(),
        roots[i].1 == UnitKind::Compile,
    ensures
        chosen_binary(roots, Some(roots[i].0)) is Ok,
        (forall|k: int|
            0 <= k < roots.len() && k != i ==> (#[trigger] roots[k]).1 != UnitKind::Compile)
            ==> chosen_binary(roots, None) == Ok::<int, Seq<char>>(i),
        0 <= j < roots.len() && j != i && roots[j].1 == UnitKind::Compile ==> chosen_binary(
            roots,
            None,
        ) is Err,
{
    let at = of_kind(roots, UnitKind::Compile, roots.len());
    lemma_of_kind_has(roots, UnitKind::Compile, roots.len(), i);
    let k = choose|k: int| 0 <= k < at.len() && at[k] == i;
    lemma_named_found(roots, at, roots[i].0, 0, k);
    if forall|k: int| 0 <= k < roots.len() && k != i ==> (#[trigger] roots[k]).1
        != UnitKind::Compile {
        lemma_of_kind_only(roots, UnitKind::Compile, roots.len(), i);
    }
    if 0 <= j < roots.len() && j != i && roots[j].1 == UnitKind::Compile {
        lemma_of_kind_has(roots, UnitKind::Compile, roots.len(), j);
        let m = choose|m: int| 0 <= m < at.len() && at[m] == j;
        assert(m != k);
        assert(at.len() >= 2);
    }
}

// ---------------------------------------------------------------------------
// Store paths of tools
// ---------------------------------------------------------------------------

/// A path below an entry of the store leads to that entry; no other path does, but that
/// the value of a variable may be the entry itself.
pub proof fn law_store_roots_of_paths(name: Seq<char>, below: Seq<char>, other: Seq<char>)
    requires
        !name.contains('/'),
        !starts(other, "/nix/store/"@),
    ensures
        store_root("/nix/store/"@ + name + "/"@ + below) == Some("/nix/store/"@ + name),
        value_root("/nix/store/"@ + name + "/"@ + below) == Some("/nix/store/"@ + name),
        store_root("/nix/store/"@ + name) is None,
        value_root("/nix/store/"@ + name) == Some("/nix/store/"@ + name),
        store_root(other) is None,
        value_root(other) is None,
{
    let dir = "/nix/store/"@;
    let path = dir + name + "/"@ + below;
    let rest = name + "/"@ + below;
    reveal_strlit("/");
    assert(path.take(dir.len() as int) =~= dir);
    assert(path.skip(dir.len() as int) =~= rest);
    assert(rest[name.len() as int] == '/');
    assert forall|j: int| 0 <= j < name.len() implies rest[j] != '/' by {
        assert(rest[j] == name[j]);
        assert(name.contains(name[j]));
    }
    lemma_first_at(rest, '/', name.len() as int);
    assert(rest.take(name.len() as int) =~= name);
    let bare = dir + name;
    assert(bare.take(dir.len() as int) =~= dir);
    assert(bare.skip(dir.len() as int) =~= name);
    assert forall|j: int| 0 <= j < name.len() implies name[j] != '/' by {
        assert(name.contains(name[j]));
    }
    lemma_first_none(name, '/');
}

proof fn lemma_push_new(v: Seq<Seq<char>>, x: Seq<char>, y: Seq<char>)
    ensures
        push_new(v, x).contains(y) <==> v.contains(y) || x == y,
        v.no_duplicates() ==> push_new(v, x).no_duplicates(),
{
    if !v.contains(x) {
        let w = v.push(x);
        assert(w.last() == x);
        if v.contains(y) {
            let i = choose|i: int| 0 <= i < v.len() && v[i] == y;
            assert(w[i] == y);
        }
        if w.contains(y) && x != y {
            let i = choose|i: int| 0 <= i < w.len() && w[i] == y;
            assert(v[i] == y);
        }
        if v.no_duplicates() {
            assert forall|i: int, j: int| 0 <= i < w.len() && 0 <= j < w.len() && i != j implies w[i]
                != w[j] by {
                if i == v.len() {
                    assert(v.contains(v[j]));
                } else if j == v.len() {
                    assert(v.contains(v[i]));
                }
            }
        }
    }
}

/// The roots of a search path are the entries of the store that its parts lead to, each
/// once.
pub proof fn law_search_path_roots(parts: Seq<Seq<char>>, root: Seq<char>)
    ensures
        path_roots(parts).contains(root) <==> exists|i: int|
            0 <= i < parts.len() && store_root(#[trigger] parts[i]) == Some(root),
        path_roots(parts).no_duplicates(),
    decreases parts.len(),
{
    if parts.len() > 0 {
        let t = parts.drop_last();
        law_search_path_roots(t, root);
        if exists|i: int| 0 <= i < t.len() && store_root(#[trigger] t[i]) == Some(root) {
            let i = choose|i: int| 0 <= i < t.len() && store_root(#[trigger] t[i]) == Some(root);
            assert(parts[i] == t[i]);
        }
        if exists|i: int| 0 <= i < parts.len() && store_root(#[trigger] parts[i]) == Some(root) {
            let i = choose|i: int|
                0 <= i < parts.len() && store_root(#[trigger] parts[i]) == Some(root);
            if i < t.len() {
                assert(t[i] == parts[i]);
            }
        }
        if let Some(r) = store_root(parts.last()) {
            lemma_push_new(path_roots(t), r, root);
            assert(parts[parts.len() - 1] == parts.last());
        }
    }
}

proof fn lemma_value_roots(v: Seq<Seq<char>>, parts: Seq<Seq<char>>, root: Seq<char>)
    ensures
        add_value_roots(v, parts).contains(root) <==> v.contains(root) || exists|i: int|
            0 <= i < parts.len() && value_root(#[trigger] parts[i]) == Some(root),
    decreases parts.len(),
{
    if parts.len() > 0 {
        let t = parts.drop_last();
        lemma_value_roots(v, t, root);
        if exists|i: int| 0 <= i < t.len() && value_root(#[trigger] t[i]) == Some(root) {
            let i = choose|i: int| 0 <= i < t.len() && value_root(#[trigger] t[i]) == Some(root);
            assert(parts[i] == t[i]);
        }
        if exists|i: int| 0 <= i < parts.len() && value_root(#[trigger] parts[i]) == Some(root) {
            let i = choose|i: int|
                0 <= i < parts.len() && value_root(#[trigger] parts[i]) == Some(root);
            if i < t.len() {
                assert(t[i] == parts[i]);
            }
        }
        if let Some(r) = value_root(parts.last()) {
            lemma_push_new(add_value_roots(v, t), r, root);
            assert(parts[parts.len() - 1] == parts.last());
        }
    }
}

/// The roots of variables that are passed through are the entries of the store to which
/// a part of some value, between colons, leads.
pub proof fn law_passed_through_roots(
    envs: Seq<(Seq<char>, Seq<char>)>,
    root: Seq<char>,
    n: int,
    i: int,
)
    ensures
        0 <= n < envs.len() && 0 <= i < split_seq(envs[n].1, ':').len() && value_root(
            split_seq(envs[n].1, ':')[i],
        ) == Some(root) ==> env_roots(envs).contains(root),
        env_roots(envs).contains(root) ==> exists|m: int, j: int|
            #![trigger split_seq(envs[m].1, ':')[j]]
            0 <= m < envs.len() && 0 <= j < split_seq(envs[m].1, ':').len() && value_root(
                split_seq(envs[m].1, ':')[j],
            ) == Some(root),
    decreases envs.len(),
{
    if envs.len() > 0 {
        let t = envs.drop_last();
        let parts = split_seq(envs.last().1, ':');
        law_passed_through_roots(t, root, n, i);
        lemma_value_roots(env_roots(t), parts, root);
        if env_roots(envs).contains(root) {
            if env_roots(t).contains(root) {
                let (m, j) = choose|m: int, j: int|
                    #![trigger split_seq(t[m].1, ':')[j]]
                    0 <= m < t.len() && 0 <= j < split_seq(t[m].1, ':').len() && value_root(
                        split_seq(t[m].1, ':')[j],
                    ) == Some(root);
                assert(envs[m] == t[m]);
                assert(value_root(split_seq(envs[m].1, ':')[j]) == Some(root));
            } else {
                let j = choose|j: int|
                    0 <= j < parts.len() && value_root(#[trigger] parts[j]) == Some(root);
                assert(value_root(split_seq(envs[envs.len() - 1].1, ':')[j]) == Some(root));
            }
        }
    }
}

/// The paths whose closures are asked for are the compiler's, the host's C compiler's,
/// the lint driver's, that of the target's C compiler for another machine, the Windows
/// libraries, the system's libraries, pkg-config and what is passed through.
pub proof fn law_closure_roots(c: ClosureRoots, cross: bool, x: Seq<char>)
    ensures
        closure_paths_seq(c, cross).contains(x) <==> {
            ||| x == c.rustc_store@
            ||| x == c.host_cc_store@
            ||| opt_view(c.clippy_store) == Some(x)
            ||| cross && x == c.target_cc_store@
            ||| opt_view(c.win_sdk_store) == Some(x)
            ||| views(c.sys_store_roots@).contains(x)
            ||| opt_view(c.pkg_config_store) == Some(x)
            ||| views(c.passthru_store_roots@).contains(x)
        },
        strictly_sorted(closure_paths_seq(c, cross)),
{
    let p0 = seq![c.rustc_store@, c.host_cc_store@];
    let p1 = opt_list(c.clippy_store);
    let p2 = if cross {
        seq![c.target_cc_store@]
    } else {
        Seq::empty()
    };
    let p3 = opt_list(c.win_sdk_store);
    let p4 = views(c.sys_store_roots@);
    let p5 = opt_list(c.pkg_config_store);
    let p6 = views(c.passthru_store_roots@);
    lemma_sorted_set(p0 + p1 + p2 + p3 + p4 + p5 + p6);
    lemma_contains_concat(p0, p1, x);
    lemma_contains_concat(p0 + p1, p2, x);
    lemma_contains_concat(p0 + p1 + p2, p3, x);
    lemma_contains_concat(p0 + p1 + p2 + p3, p4, x);
    lemma_contains_concat(p0 + p1 + p2 + p3 + p4, p5, x);
    lemma_contains_concat(p0 + p1 + p2 + p3 + p4 + p5, p6, x);
    assert(p0[0] == c.rustc_store@ && p0[1] == c.host_cc_store@);
    assert(p1.contains(x) <==> opt_view(c.clippy_store) == Some(x)) by {
        lemma_opt_list(c.clippy_store, x);
    }
    assert(p3.contains(x) <==> opt_view(c.win_sdk_store) == Some(x)) by {
        lemma_opt_list(c.win_sdk_store, x);
    }
    assert(p5.contains(x) <==> opt_view(c.pkg_config_store) == Some(x)) by {
        lemma_opt_list(c.pkg_config_store, x);
    }
    if cross {
        assert(p2[0] == c.target_cc_store@);
    }
}

proof fn lemma_opt_list(o: Option<String>, x: Seq<char>)
    ensures
        opt_list(o).contains(x) <==> opt_view(o) == Some(x),
{
    if let Some(s) = o {
        assert(opt_list(o)[0] == s@);
    }
}

pub proof fn lemma_contains_concat(a: Seq<Seq<char>>, b: Seq<Seq<char>>, x: Seq<char>)
    ensures
        (a + b).contains(x) <==> a.contains(x) || b.contains(x),
{
    let c = a + b;
    if a.contains(x) {
        let i = choose|i: int| 0 <= i < a.len() && a[i] == x;
        assert(c[i] == x);
    }
    if b.contains(x) {
        let i = choose|i: int| 0 <= i < b.len() && b[i] == x;
        assert(c[a.len() + i] == x);
    }
    if c.contains(x) {
        let i = choose|i: int| 0 <= i < c.len() && c[i] == x;
        if i < a.len() {
            assert(a[i] == x);
        } else {
            assert(b[i - a.len()] == x);
        }
    }
}

/// What is asked for are the paths whose closure is not known, in order.
pub proof fn law_asks_for_the_unknown(
    paths: Seq<Seq<char>>,
    known: Map<Seq<char>, Seq<Seq<char>>>,
)
    ensures
        unknown_paths(paths, known) == paths.filter(|p: Seq<char>| !known.contains_key(p)),
    decreases paths.len(),
{
    reveal(Seq::filter);
    if paths.len() > 0 {
        law_asks_for_the_unknown(paths.drop_last(), known);
    } else {
        assert(paths.filter(|p: Seq<char>| !known.contains_key(p)) =~= Seq::empty());
    }
}

/// Each library that some unit links is listed once, with the first package that needs
/// it; nothing else is.
pub proof fn law_libraries_listed_once(us: Seq<UnitView>, i: int)
    ensures
        0 <= i < us.len() && us[i].links is Some && (forall|j: int|
            0 <= j < i ==> (#[trigger] us[j]).links != us[i].links) ==> libraries(us).contains(
            (us[i].links->Some_0, shown_package(us[i])),
        ),
        forall|m: int, n: int|
            0 <= m < n < libraries(us).len() ==> (#[trigger] libraries(us)[m]).0 != (
            #[trigger] libraries(us)[n]).0,
        forall|m: int|
            0 <= m < libraries(us).len() ==> exists|j: int|
                0 <= j < us.len() && (#[trigger] us[j]).links == Some(
                    (#[trigger] libraries(us)[m]).0,
                ),
    decreases us.len(),
{
    if us.len() > 0 {
        let t = us.drop_last();
        let before = libraries(t);
        let all = libraries(us);
        law_libraries_listed_once(t, i);
        assert forall|m: int| 0 <= m < all.len() implies exists|j: int|
            0 <= j < us.len() && (#[trigger] us[j]).links == Some((#[trigger] all[m]).0) by {
            if m < before.len() {
                assert(all[m] == before[m]);
                let j = choose|j: int|
                    0 <= j < t.len() && (#[trigger] t[j]).links == Some(before[m].0);
                assert(us[j] == t[j]);
            } else {
                assert(us[us.len() - 1].links == Some(all[m].0));
            }
        }
        assert forall|m: int, n: int| 0 <= m < n < all.len() implies (#[trigger] all[m]).0 != (
        #[trigger] all[n]).0 by {
            assert(all[m] == before[m]);
            if n < before.len() {
                assert(all[n] == before[n]);
            }
        }
        if 0 <= i < us.len() && us[i].links is Some && (forall|j: int|
            0 <= j < i ==> (#[trigger] us[j]).links != us[i].links) {
            let x = (us[i].links->Some_0, shown_package(us[i]));
            if i < t.len() {
                assert(t[i] == us[i]);
                assert forall|j: int| 0 <= j < i implies (#[trigger] t[j]).links
                    != t[i].links by {
                    assert(t[j] == us[j]);
                }
                let k = choose|k: int| 0 <= k < before.len() && before[k] == x;
                assert(all[k] == x);
            } else {
                if has_first(before, us[i].links->Some_0) {
                    let k = choose|k: int|
                        0 <= k < before.len() && (#[trigger] before[k]).0 == us[i].links->Some_0;
                    let j = choose|j: int|
                        0 <= j < t.len() && (#[trigger] t[j]).links == Some(before[k].0);
                    assert(us[j] == t[j]);
                    assert(false);
                }
                assert(all.last() == x);
            }
        }
    }
}

/// A crate of the project keeps the directory where it lies in the project, and one from
/// elsewhere the one it had.
pub proof fn law_original_directories(u: UnitView, src: Seq<char>, project: Seq<char>, rel: Seq<char>)
    ensures
        u.manifest_dir == src + rel ==> with_original_dir(u, src, project).original_manifest_dir
            == project + rel,
        !starts(u.manifest_dir, src) ==> with_original_dir(u, src, project) == u,
        with_original_dir(u, src, project).manifest_dir == u.manifest_dir,
        u.manifest_dir == src + rel && src.len() > 0 && src.last() != '/' ==> project_manifest_dir(
            u.manifest_dir,
            src,
            project,
        ) == project + rel,
{
    if u.manifest_dir == src + rel {
        assert((src + rel).take(src.len() as int) =~= src);
        assert((src + rel).skip(src.len() as int) =~= rel);
        if src.len() > 0 && src.last() != '/' {
            reveal_strlit("/");
            let s = src + "/"@;
            assert(s.last() == '/');
            assert(s.drop_last() =~= src);
            reveal_with_fuel(trim_end_char, 3);
            assert(trim_end_char(s, '/') == src);
        }
    }
}

/// A unit of an earlier graph lies in the new source where it lay in the old one, and has
/// no derivation yet; one from elsewhere stays where it is.
pub proof fn law_refreshed_paths(u: UnitView, old_src: Seq<char>, src: Seq<char>, rel: Seq<char>)
    ensures
        u.source_file == old_src + rel ==> refreshed(u, old_src, src).source_file == src + rel,
        u.manifest_dir == old_src + rel ==> refreshed(u, old_src, src).manifest_dir == src + rel,
        !starts(u.source_file, old_src) ==> refreshed(u, old_src, src).source_file
            == u.source_file,
        !starts(u.manifest_dir, old_src) ==> refreshed(u, old_src, src).manifest_dir
            == u.manifest_dir,
        refreshed(u, old_src, src).drv_path is None,
        refreshed(u, old_src, src).key == u.key,
        refreshed(u, old_src, src).features == u.features,
        refreshed(u, old_src, src).all_dep_keys == u.all_dep_keys,
        refreshed(u, old_src, src).dep_extern == u.dep_extern,
{
    assert((old_src + rel).take(old_src.len() as int) =~= old_src);
    assert((old_src + rel).skip(old_src.len() as int) =~= rel);
}

} // verus!
