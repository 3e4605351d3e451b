//! Running what was built.
use crate::text::{
    all_ascii, ascii_capitals, clone_strings, contains, has_substring, join, join_seq, owned,
    replace, replace_seq, same, upper, uppercase, views, words, words_seq,
};
use crate::units::{opt_view, UnitKind};
use vstd::prelude::*;

verus! {

/// The variable that names the program which runs the binaries of a target.
pub open spec fn runner_env_seq(triple: Seq<char>) -> Seq<char> {
    "CARGO_TARGET_"@ + replace_seq(uppercase(triple), "-"@, "_"@) + "_RUNNER"@
}

/// The variable that names the program which runs the binaries of a target.
pub fn runner_env_key(triple: &str) -> (r: String)
    ensures
        r@ == runner_env_seq(triple@),
        all_ascii(triple@) ==> r@ == "CARGO_TARGET_"@ + replace_seq(
            ascii_capitals(triple@),
            "-"@,
            "_"@,
        ) + "_RUNNER"@,
{
    proof {
        reveal_strlit("-");
    }
    let up = upper(triple);
    let body = replace(up.as_str(), "-", "_");
    runner_env_from(body.as_str())
}

/// The variable for a target whose name is in capitals with underscores.
pub fn runner_env_from(name: &str) -> (r: String)
    ensures
        r@ == "CARGO_TARGET_"@ + name@ + "_RUNNER"@,
{
    let mut r = owned("CARGO_TARGET_");
    r.append(name);
    r.append("_RUNNER");
    r
}

/// The program and its first arguments that a setting names.
pub open spec fn runner_parts(value: Seq<char>) -> Option<(Seq<char>, Seq<Seq<char>>)> {
    let ws = words_seq(value);
    if ws.len() == 0 {
        None
    } else {
        Some((ws[0], ws.skip(1)))
    }
}

/// Reads the program that runs binaries and its first arguments.
pub fn split_runner(value: &str) -> (r: Option<(String, Vec<String>)>)
    ensures
        match r {
            Some((program, args)) => runner_parts(value@) == Some((program@, views(args@))),
            None => runner_parts(value@) is None,
        },
{
    let mut ws = words(value);
    let ghost all = views(ws@);
    if ws.len() == 0 {
        return None;
    }
    assert(all[0] == ws@[0]@);
    let program = ws.remove(0);
    assert(views(ws@) =~= all.skip(1));
    Some((program, ws))
}

/// Whether the target differs from a host of the given architecture.
pub fn is_cross_target(target: &Option<String>, arch: &str) -> (r: bool)
    ensures
        r == match opt_view(*target) {
            Some(triple) => triple != arch@ + "-unknown-linux-gnu"@,
            None => false,
        },
{
    match target {
        Some(triple) => {
            let mut host = owned(arch);
            host.append("-unknown-linux-gnu");
            !same(triple.as_str(), host.as_str())
        },
        None => false,
    }
}

/// What is said of a binary for another machine that nothing can run.
pub open spec fn cannot_execute_seq(triple: Seq<char>, env_key: Seq<char>) -> Seq<char> {
    "cannot execute cross-compiled binary for target `"@ + triple + "`\nSet "@ + env_key
        + " to a runner (e.g. `wine64` for Windows targets)"@
}

/// Writes what is said of a binary for another machine that nothing can run.
pub fn cannot_execute(triple: &str, env_key: &str) -> (r: String)
    ensures
        r@ == cannot_execute_seq(triple@, env_key@),
{
    let mut r = owned("cannot execute cross-compiled binary for target `");
    r.append(triple);
    r.append("`\nSet ");
    r.append(env_key);
    r.append(" to a runner (e.g. `wine64` for Windows targets)");
    r
}

/// The name of the binary of a target.
pub open spec fn binary_name_seq(name: Seq<char>, target: Option<Seq<char>>) -> Seq<char> {
    match target {
        Some(t) => if has_substring(t, "windows"@) {
            name + ".exe"@
        } else {
            name
        },
        None => name,
    }
}

/// Names the binary of a target. Those for Windows end in `.exe`.
pub fn binary_name(target_name: &str, target: &Option<String>) -> (r: String)
    ensures
        r@ == binary_name_seq(target_name@, opt_view(*target)),
{
    let mut r = owned(target_name);
    if let Some(t) = target {
        if contains(t.as_str(), "windows") {
            r.append(".exe");
        }
    }
    r
}

/// The arguments of a benchmark.
pub fn bench_args(args: &Vec<String>) -> (r: Vec<String>)
    ensures
        views(r@) == seq!["--bench"@] + views(args@),
{
    let mut r = clone_strings(args);
    let ghost before = views(r@);
    r.insert(0, owned("--bench"));
    assert(views(r@) =~= seq!["--bench"@] + before);
    r
}

// ---------------------------------------------------------------------------
// Choosing among the roots
// ---------------------------------------------------------------------------

/// A root of a build: the name of its target and its kind.
pub type Root = (String, UnitKind);

/// The names and kinds of the roots.
pub open spec fn root_views(roots: Seq<Root>) -> Seq<(Seq<char>, UnitKind)> {
    Seq::new(roots.len(), |i: int| (roots[i].0@, roots[i].1))
}

/// The positions of the roots of a kind among the first `n`.
pub open spec fn of_kind(roots: Seq<(Seq<char>, UnitKind)>, kind: UnitKind, n: nat) -> Seq<int>
    decreases n,
{
    if n == 0 {
        Seq::empty()
    } else if roots[n - 1].1 == kind {
        of_kind(roots, kind, (n - 1) as nat).push(n - 1)
    } else {
        of_kind(roots, kind, (n - 1) as nat)
    }
}

/// The positions as numbers.
pub open spec fn positions(v: Seq<usize>) -> Seq<int> {
    Seq::new(v.len(), |i: int| v[i] as int)
}

/// Finds the roots of a kind. Tests and benchmarks are those that compile a test.
pub fn roots_of_kind(roots: &Vec<Root>, kind: UnitKind) -> (r: Vec<usize>)
    ensures
        positions(r@) == of_kind(root_views(roots@), kind, roots@.len()),
        forall|k: int| 0 <= k < r@.len() ==> (#[trigger] r@[k]) < roots@.len(),
{
    let ghost rs = root_views(roots@);
    let mut r: Vec<usize> = Vec::new();
    let mut i: usize = 0;
    assert(positions(r@) =~= of_kind(rs, kind, 0));
    while i < roots.len()
        invariant
            i <= roots@.len(),
            rs == root_views(roots@),
            positions(r@) == of_kind(rs, kind, i as nat),
            forall|k: int| 0 <= k < r@.len() ==> (#[trigger] r@[k]) < roots@.len(),
        decreases roots@.len() - i,
    {
        if roots[i].1 == kind {
            let ghost before = positions(r@);
            r.push(i);
            assert(positions(r@) =~= before.push(i as int));
        }
        i = i + 1;
    }
    r
}

/// The names of roots at positions.
pub open spec fn names_at(roots: Seq<(Seq<char>, UnitKind)>, at: Seq<int>) -> Seq<Seq<char>> {
    Seq::new(at.len(), |k: int| roots[at[k]].0)
}

/// The first of the positions at which a name stands.
pub open spec fn first_named(
    roots: Seq<(Seq<char>, UnitKind)>,
    at: Seq<int>,
    name: Seq<char>,
    from: int,
) -> Option<int>
    decreases at.len() - from,
{
    if from >= at.len() {
        None
    } else if roots[at[from]].0 == name {
        Some(at[from])
    } else {
        first_named(roots, at, name, from + 1)
    }
}

/// The root to run: the one that was named, or the only one; otherwise what is said.
pub open spec fn chosen_binary(
    roots: Seq<(Seq<char>, UnitKind)>,
    bin: Option<Seq<char>>,
) -> Result<int, Seq<char>> {
    let at = of_kind(roots, UnitKind::Compile, roots.len());
    let names = join_seq(names_at(roots, at), ", "@);
    match bin {
        Some(name) => match first_named(roots, at, name, 0) {
            Some(i) => Ok(i),
            None => Err("no bin target named `"@ + name + "`\navailable targets: "@ + names),
        },
        None => if at.len() == 1 {
            Ok(at[0])
        } else {
            Err("multiple binary targets found, use --bin to specify one: "@ + names)
        },
    }
}

fn join_names(roots: &Vec<Root>, at: &Vec<usize>) -> (r: String)
    requires
        forall|k: int| 0 <= k < at@.len() ==> (#[trigger] at@[k]) < roots@.len(),
    ensures
        r@ == join_seq(names_at(root_views(roots@), positions(at@)), ", "@),
{
    let ghost all = names_at(root_views(roots@), positions(at@));
    let mut names: Vec<String> = Vec::new();
    let mut k: usize = 0;
    while k < at.len()
        invariant
            k <= at@.len(),
            names@.len() == k,
            all == names_at(root_views(roots@), positions(at@)),
            forall|j: int| 0 <= j < at@.len() ==> (#[trigger] at@[j]) < roots@.len(),
            forall|j: int| 0 <= j < k ==> (#[trigger] names@[j])@ == all[j],
        decreases at@.len() - k,
    {
        names.push(roots[at[k]].0.clone());
        k = k + 1;
    }
    assert(views(names@) =~= all);
    join(&names, ", ")
}

/// Chooses the binary to run.
pub fn select_binary(roots: &Vec<Root>, bin: &Option<String>) -> (r: Result<usize, String>)
    ensures
        match (r, chosen_binary(root_views(roots@), opt_view(*bin))) {
            (Ok(i), Ok(k)) => i == k && i < roots@.len(),
            (Err(e), Err(m)) => e@ == m,
            _ => false,
        },
{
    let ghost rs = root_views(roots@);
    let at = roots_of_kind(roots, UnitKind::Compile);
    let ghost ps = positions(at@);
    match bin {
        Some(name) => {
            let mut k: usize = 0;
            while k < at.len()
                invariant
                    k <= at@.len(),
                    rs == root_views(roots@),
                    ps == positions(at@),
                    ps == of_kind(rs, UnitKind::Compile, rs.len()),
                    opt_view(*bin) == Some(name@),
                    forall|j: int| 0 <= j < at@.len() ==> (#[trigger] at@[j]) < roots@.len(),
                    first_named(rs, ps, name@, k as int) == first_named(rs, ps, name@, 0),
                decreases at@.len() - k,
            {
                assert(ps[k as int] == at@[k as int]);
                if same(roots[at[k]].0.as_str(), name.as_str()) {
                    return Ok(at[k]);
                }
                k = k + 1;
            }
            let mut e = owned("no bin target named `");
            e.append(name.as_str());
            e.append("`\navailable targets: ");
            let names = join_names(roots, &at);
            e.append(names.as_str());
            Err(e)
        },
        None => if at.len() == 1 {
            assert(ps[0] == at@[0]);
            Ok(at[0])
        } else {
            let mut e = owned("multiple binary targets found, use --bin to specify one: ");
            let names = join_names(roots, &at);
            e.append(names.as_str());
            Err(e)
        },
    }
}

proof fn lemma_of_kind(roots: Seq<(Seq<char>, UnitKind)>, kind: UnitKind, n: nat, k: int)
    requires
        n <= roots.len(),
        0 <= k < of_kind(roots, kind, n).len(),
    ensures
        0 <= of_kind(roots, kind, n)[k] < n,
        roots[of_kind(roots, kind, n)[k]].1 == kind,
    decreases n,
{
    if n > 0 && k < of_kind(roots, kind, (n - 1) as nat).len() {
        lemma_of_kind(roots, kind, (n - 1) as nat, k);
    }
}

proof fn lemma_first_named(
    roots: Seq<(Seq<char>, UnitKind)>,
    at: Seq<int>,
    name: Seq<char>,
    from: int,
)
    requires
        0 <= from,
    ensures
        first_named(roots, at, name, from) matches Some(i) ==> roots[i].0 == name && at.contains(i),
    decreases at.len() - from,
{
    if from < at.len() && roots[at[from]].0 != name {
        lemma_first_named(roots, at, name, from + 1);
    }
}

/// What is run is a compiled root, and the one that was named if one was.
pub proof fn law_runs_what_was_named(
    roots: Seq<(Seq<char>, UnitKind)>,
    bin: Option<Seq<char>>,
    i: int,
)
    requires
        chosen_binary(roots, bin) == Ok::<int, Seq<char>>(i),
    ensures
        0 <= i < roots.len(),
        roots[i].1 == UnitKind::Compile,
        bin is Some ==> roots[i].0 == bin->0,
{
    let at = of_kind(roots, UnitKind::Compile, roots.len());
    match bin {
        Some(name) => {
            lemma_first_named(roots, at, name, 0);
            let k = choose|k: int| 0 <= k < at.len() && at[k] == i;
            lemma_of_kind(roots, UnitKind::Compile, roots.len(), k);
        },
        None => {
            lemma_of_kind(roots, UnitKind::Compile, roots.len(), 0);
        },
    }
}

} // verus!
