//! What the script of a unit tells the compiler: which words stand on its command line,
//! and what is set up before it.
use crate::placeholder::{output_placeholder, TextResult};
use crate::scripts::{
    command_tail, compile_args, compile_prelude, compile_script, cross_args, emit_kinds, exports,
    extern_args, feature_args, fixed_args, flagged, foreign_parts, head_args, insert_remap,
    lint_args, manifest_part, own_script_part, proc_macro_args, profile_args, quoted_all,
    remap_args_seq, remap_flags, remap_rule, search_args, setup_fragment, sort_remaps,
    source_commands, test_args,
};
use crate::text::{ends, has_substring, join_seq, occurs, starts};
use crate::units::{output_file, ProfileConfig, TargetConfig, UnitKind, UnitView};
use crate::util::quoted;
use crate::wording::{
    adjacent, group_adjacent, in_turn, lemma_adjacent_at, lemma_differs, lemma_holds_before,
    lemma_holds_behind, lemma_holds_itself, lemma_in_turn, lemma_in_turn_before,
    lemma_in_turn_behind, lemma_join_adjacent, lemma_none_starts_concat, none_starts,
};
use vstd::prelude::*;
use vstd::utf8::*;

verus! {

/// Two words stand on a command line, one behind the other.
pub open spec fn passes(script: Seq<char>, a: Seq<char>, b: Seq<char>) -> bool {
    has_substring(script, " "@ + a + " "@ + b)
}

// ---------------------------------------------------------------------------
// Lists of arguments
// ---------------------------------------------------------------------------

pub proof fn lemma_flagged(flag: Seq<char>, prefix: Seq<char>, v: Seq<Seq<char>>, n: int)
    requires
        0 <= n < v.len(),
    ensures
        adjacent(flagged(flag, prefix, v), flag, prefix + v[n]),
    decreases v.len(),
{
    broadcast use group_adjacent;

    if n < v.len() - 1 {
        lemma_flagged(flag, prefix, v.drop_last(), n);
    } else {
        lemma_adjacent_at(seq![flag, prefix + v.last()], 0);
    }
}

pub proof fn lemma_features(features: Seq<Seq<char>>, n: int)
    requires
        0 <= n < features.len(),
    ensures
        adjacent(feature_args(features), "--cfg"@, quoted("feature=\""@ + features[n] + "\""@)),
    decreases features.len(),
{
    broadcast use group_adjacent;

    if n < features.len() - 1 {
        lemma_features(features.drop_last(), n);
    } else {
        lemma_adjacent_at(seq!["--cfg"@, quoted("feature=\""@ + features.last() + "\""@)], 0);
    }
}

pub proof fn lemma_externs(
    us: Seq<UnitView>,
    idx: Map<Seq<char>, usize>,
    drvs: Map<Seq<char>, Seq<char>>,
    deps: Seq<(Seq<char>, Seq<char>)>,
    n: int,
)
    requires
        0 <= n < deps.len(),
        drvs.contains_key(deps[n].1),
        extern_args(us, idx, drvs, deps) is Ok,
    ensures
        output_placeholder(drvs[deps[n].1], "out"@) is Ok,
        adjacent(
            extern_args(us, idx, drvs, deps)->Ok_0,
            "--extern"@,
            deps[n].0 + "="@ + output_placeholder(drvs[deps[n].1], "out"@)->Ok_0 + "/"@
                + output_file(us[idx[deps[n].1] as int]),
        ),
    decreases deps.len(),
{
    broadcast use group_adjacent;

    if n < deps.len() - 1 {
        lemma_externs(us, idx, drvs, deps.drop_last(), n);
    } else {
        let d = deps.last();
        let ph = output_placeholder(drvs[d.1], "out"@)->Ok_0;
        lemma_adjacent_at(
            seq!["--extern"@, d.0 + "="@ + ph + "/"@ + output_file(us[idx[d.1] as int])],
            0,
        );
    }
}

pub proof fn lemma_searches(drvs: Map<Seq<char>, Seq<char>>, keys: Seq<Seq<char>>, n: int)
    requires
        0 <= n < keys.len(),
        drvs.contains_key(keys[n]),
        search_args(drvs, keys) is Ok,
    ensures
        output_placeholder(drvs[keys[n]], "out"@) is Ok,
        adjacent(
            search_args(drvs, keys)->Ok_0,
            "-L"@,
            "dependency="@ + output_placeholder(drvs[keys[n]], "out"@)->Ok_0,
        ),
    decreases keys.len(),
{
    broadcast use group_adjacent;

    if n < keys.len() - 1 {
        lemma_searches(drvs, keys.drop_last(), n);
    } else {
        let ph = output_placeholder(drvs[keys.last()], "out"@)->Ok_0;
        lemma_adjacent_at(seq!["-L"@, "dependency="@ + ph], 0);
    }
}

pub proof fn lemma_remap_flags(
    rules: Seq<(Seq<char>, Seq<char>)>,
    src_store: Seq<char>,
    sliced: Option<Seq<char>>,
    n: int,
)
    requires
        0 <= n < rules.len(),
    ensures
        adjacent(
            remap_flags(rules, src_store, sliced),
            "--remap-path-prefix"@,
            quoted(remap_rule(rules[n], src_store, sliced)),
        ),
        remap_flags(rules, src_store, sliced).len() == 2 * rules.len(),
        remap_flags(rules, src_store, sliced)[2 * n + 1] == quoted(
            remap_rule(rules[n], src_store, sliced),
        ),
    decreases rules.len(),
{
    broadcast use group_adjacent;

    let last = seq![
        "--remap-path-prefix"@,
        quoted(remap_rule(rules.last(), src_store, sliced)),
    ];
    lemma_adjacent_at(last, 0);
    if rules.len() > 1 {
        let k = if n < rules.len() - 1 {
            n
        } else {
            0
        };
        lemma_remap_flags(rules.drop_last(), src_store, sliced, k);
    } else {
        assert(remap_flags(rules.drop_last(), src_store, sliced).len() == 0);
    }
}

proof fn lemma_insert_remap(
    s: Seq<(Seq<char>, Seq<char>)>,
    e: (Seq<char>, Seq<char>),
    x: (Seq<char>, Seq<char>),
)
    ensures
        insert_remap(s, e).contains(x) <==> s.contains(x) || x == e,
        insert_remap(s, e).len() == s.len() + 1,
    decreases s.len(),
{
    let r = insert_remap(s, e);
    if s.len() == 0 {
        assert(r[0] == e);
    } else if encode_utf8(e.0).len() < encode_utf8(s.last().0).len() {
        let t = s.drop_last();
        lemma_insert_remap(t, e, x);
        lemma_push_contains(insert_remap(t, e), s.last(), x);
        lemma_push_contains(t, s.last(), x);
        assert(t.push(s.last()) =~= s);
    } else {
        lemma_push_contains(s, e, x);
    }
}

proof fn lemma_push_contains(
    s: Seq<(Seq<char>, Seq<char>)>,
    e: (Seq<char>, Seq<char>),
    x: (Seq<char>, Seq<char>),
)
    ensures
        s.push(e).contains(x) <==> s.contains(x) || x == e,
{
    let r = s.push(e);
    if s.contains(x) {
        let i = choose|i: int| 0 <= i < s.len() && s[i] == x;
        assert(r[i] == x);
    }
    if x == e {
        assert(r[s.len() as int] == x);
    }
    if r.contains(x) {
        let i = choose|i: int| 0 <= i < r.len() && r[i] == x;
        if i < s.len() {
            assert(s[i] == x);
        }
    }
}

pub proof fn lemma_sorted_remaps(s: Seq<(Seq<char>, Seq<char>)>, x: (Seq<char>, Seq<char>))
    ensures
        sort_remaps(s).contains(x) <==> s.contains(x),
        sort_remaps(s).len() == s.len(),
    decreases s.len(),
{
    if s.len() > 0 {
        lemma_sorted_remaps(s.drop_last(), x);
        lemma_insert_remap(sort_remaps(s.drop_last()), s.last(), x);
        lemma_push_contains(s.drop_last(), s.last(), x);
        assert(s.drop_last().push(s.last()) =~= s);
    }
}

/// The rules are in the order of the lengths of their paths.
pub open spec fn by_length(s: Seq<(Seq<char>, Seq<char>)>) -> bool {
    forall|i: int, j: int|
        0 <= i < j < s.len() ==> encode_utf8((#[trigger] s[i]).0).len() <= encode_utf8(
            (#[trigger] s[j]).0,
        ).len()
}

proof fn lemma_insert_by_length(s: Seq<(Seq<char>, Seq<char>)>, e: (Seq<char>, Seq<char>))
    requires
        by_length(s),
    ensures
        by_length(insert_remap(s, e)),
    decreases s.len(),
{
    let r = insert_remap(s, e);
    if s.len() == 0 {
    } else if encode_utf8(e.0).len() < encode_utf8(s.last().0).len() {
        let t = s.drop_last();
        assert(by_length(t)) by {
            assert forall|i: int, j: int| 0 <= i < j < t.len() implies encode_utf8(
                (#[trigger] t[i]).0,
            ).len() <= encode_utf8((#[trigger] t[j]).0).len() by {
                assert(t[i] == s[i] && t[j] == s[j]);
            }
        }
        lemma_insert_by_length(t, e);
        let q = insert_remap(t, e);
        assert forall|i: int, j: int| 0 <= i < j < r.len() implies encode_utf8(
            (#[trigger] r[i]).0,
        ).len() <= encode_utf8((#[trigger] r[j]).0).len() by {
            if j < q.len() {
                assert(r[i] == q[i] && r[j] == q[j]);
            } else {
                assert(r[i] == q[i] && r[j] == s.last());
                assert(q.contains(q[i]));
                lemma_insert_remap(t, e, q[i]);
                if q[i] != e {
                    let k = choose|k: int| 0 <= k < t.len() && t[k] == q[i];
                    assert(s[k] == q[i]);
                    assert(s[s.len() - 1] == s.last());
                }
            }
        }
    } else {
        assert forall|i: int, j: int| 0 <= i < j < r.len() implies encode_utf8(
            (#[trigger] r[i]).0,
        ).len() <= encode_utf8((#[trigger] r[j]).0).len() by {
            if j < s.len() {
                assert(r[i] == s[i] && r[j] == s[j]);
            } else {
                assert(r[i] == s[i] && s[s.len() - 1] == s.last());
            }
        }
    }
}

/// Every rule for paths is passed once, and where one path lies below another, the rule
/// for it comes later, so that it is the one that counts.
pub proof fn law_longer_paths_count(
    remaps: Seq<(Seq<char>, Seq<char>)>,
    src_store: Seq<char>,
    sliced: Option<Seq<char>>,
)
    ensures
        remap_args_seq(remaps, src_store, sliced).len() == 2 * remaps.len(),
        by_length(sort_remaps(remaps)),
        forall|e: (Seq<char>, Seq<char>)| #[trigger]
            sort_remaps(remaps).contains(e) <==> remaps.contains(e),
        forall|n: int|
            0 <= n < remaps.len() ==> remap_args_seq(remaps, src_store, sliced)[2 * n + 1]
                == quoted(remap_rule(#[trigger] sort_remaps(remaps)[n], src_store, sliced)),
    decreases remaps.len(),
{
    assert forall|e: (Seq<char>, Seq<char>)| #[trigger]
        sort_remaps(remaps).contains(e) <==> remaps.contains(e) by {
        lemma_sorted_remaps(remaps, e);
    }
    lemma_sorted_remaps(remaps, (Seq::empty(), Seq::empty()));
    lemma_all_by_length(remaps);
    assert forall|n: int| 0 <= n < remaps.len() implies remap_args_seq(remaps, src_store, sliced)[2
        * n + 1] == quoted(remap_rule(#[trigger] sort_remaps(remaps)[n], src_store, sliced)) by {
        lemma_remap_flags(sort_remaps(remaps), src_store, sliced, n);
    }
    if remaps.len() > 0 {
        lemma_remap_flags(sort_remaps(remaps), src_store, sliced, 0);
    }
}

proof fn lemma_all_by_length(s: Seq<(Seq<char>, Seq<char>)>)
    ensures
        by_length(sort_remaps(s)),
    decreases s.len(),
{
    if s.len() > 0 {
        lemma_all_by_length(s.drop_last());
        lemma_insert_by_length(sort_remaps(s.drop_last()), s.last());
    }
}

// ---------------------------------------------------------------------------
// The command line of the compiler
// ---------------------------------------------------------------------------

/// What is on a list of arguments is on the command line.
pub proof fn lemma_on_command_line(
    prelude: Seq<char>,
    driver: Seq<char>,
    args: Seq<Seq<char>>,
    tail: Seq<char>,
    a: Seq<char>,
    b: Seq<char>,
)
    requires
        adjacent(args, a, b),
    ensures
        passes(prelude + driver + " "@ + join_seq(args, " "@) + tail, a, b),
{
    let line = " "@ + join_seq(args, " "@);
    let pair = " "@ + a + " "@ + b;
    lemma_join_adjacent(args, " "@, a, b);
    lemma_holds_behind(prelude + driver, line, pair);
    lemma_holds_before(prelude + driver + line, tail, pair);
    assert(prelude + driver + " "@ + join_seq(args, " "@) + tail =~= prelude + driver + line + tail);
}

/// The words that every compilation of a unit is given.
proof fn lemma_fixed(
    u: UnitView,
    sysroot: Seq<char>,
    target: TargetConfig,
    cc_bin_dir: Seq<char>,
    libs: Seq<Seq<char>>,
    profile: ProfileConfig,
    a: Seq<char>,
    b: Seq<char>,
)
    requires
        ({
            ||| adjacent(head_args(u, sysroot), a, b)
            ||| adjacent(cross_args(u, target, cc_bin_dir, libs), a, b)
            ||| adjacent(flagged("--crate-type"@, ""@, u.crate_types), a, b)
            ||| adjacent(proc_macro_args(u), a, b)
            ||| adjacent(feature_args(u.features), a, b)
            ||| adjacent(lint_args(u), a, b)
            ||| adjacent(profile_args(profile), a, b)
            ||| adjacent(seq!["--emit"@, emit_kinds(u), "--out-dir"@, "$out"@], a, b)
            ||| adjacent(
                seq![
                    "--error-format=json"@,
                    "--json=diagnostic-rendered-ansi"@,
                    "-C"@,
                    "extra-filename="@ + u.extra_filename,
                    "-C"@,
                    "metadata="@ + u.extra_filename.drop_first(),
                ],
                a,
                b,
            )
            ||| adjacent(
                test_args(u) + seq!["--emit"@, emit_kinds(u), "--out-dir"@, "$out"@],
                a,
                b,
            )
        }),
    ensures
        adjacent(fixed_args(u, sysroot, target, cc_bin_dir, libs, profile), a, b),
{
    broadcast use group_adjacent;

    reveal(fixed_args);
    let before = head_args(u, sysroot) + cross_args(u, target, cc_bin_dir, libs) + flagged(
        "--crate-type"@,
        ""@,
        u.crate_types,
    ) + proc_macro_args(u);
    let emit = seq!["--emit"@, emit_kinds(u), "--out-dir"@, "$out"@];
    assert(before + (test_args(u) + emit) =~= before + test_args(u) + emit);
    assert(adjacent(before + (test_args(u) + emit), a, b) ==> adjacent(
        before + test_args(u) + emit,
        a,
        b,
    ));
}

/// Everything that decides what a compilation is told.
pub struct CompileInputs {
    pub u: UnitView,
    pub us: Seq<UnitView>,
    pub idx: Map<Seq<char>, usize>,
    pub drvs: Map<Seq<char>, Seq<char>>,
    pub rustc_path: Seq<char>,
    pub sysroot: Seq<char>,
    pub coreutils_bin_dir: Seq<char>,
    pub cc_bin_dir: Seq<char>,
    pub profile: ProfileConfig,
    pub target: TargetConfig,
    pub libs: Seq<Seq<char>>,
    pub extra: Seq<Seq<char>>,
    pub remaps: Seq<(Seq<char>, Seq<char>)>,
    pub src_store: Seq<char>,
    pub setup: Seq<Seq<char>>,
}

impl CompileInputs {
    /// The script that is written for them.
    pub open spec fn script(self) -> TextResult {
        compile_script(
            self.u,
            self.us,
            self.idx,
            self.drvs,
            self.rustc_path,
            self.sysroot,
            self.coreutils_bin_dir,
            self.cc_bin_dir,
            self.profile,
            self.target,
            self.libs,
            self.extra,
            self.remaps,
            self.src_store,
            self.setup,
        )
    }

    /// The arguments on its command line.
    pub open spec fn arguments(self) -> Seq<Seq<char>> {
        compile_args(
            self.u,
            self.us,
            self.idx,
            self.drvs,
            self.sysroot,
            self.cc_bin_dir,
            self.profile,
            self.target,
            self.libs,
            self.extra,
            self.remaps,
            self.src_store,
        )->Ok_0
    }
}

proof fn lemma_argument_passed(c: CompileInputs, a: Seq<char>, b: Seq<char>)
    requires
        c.script() is Ok,
        adjacent(c.arguments(), a, b),
    ensures
        passes(c.script()->Ok_0, a, b),
{
    let own = own_script_part(c.u, c.drvs, false)->Ok_0;
    let foreign = if c.u.needs_linker {
        foreign_parts(c.u, c.us, c.idx, c.drvs, c.u.all_dep_keys)->Ok_0
    } else {
        Seq::empty()
    };
    lemma_on_command_line(
        compile_prelude(c.u, own, foreign, c.coreutils_bin_dir, c.cc_bin_dir, c.setup),
        quoted(c.rustc_path),
        c.arguments(),
        command_tail(c.coreutils_bin_dir + "/cat"@),
        a,
        b,
    );
}

proof fn lemma_fixed_passed(c: CompileInputs, a: Seq<char>, b: Seq<char>)
    requires
        c.script() is Ok,
        adjacent(
            fixed_args(c.u, c.sysroot, c.target, c.cc_bin_dir, c.libs, c.profile),
            a,
            b,
        ),
    ensures
        passes(c.script()->Ok_0, a, b),
{
    broadcast use group_adjacent;

    assert(adjacent(c.arguments(), a, b));
    lemma_argument_passed(c, a, b);
}

/// A profile reaches the compiler: any level of optimization but none at all is passed,
/// and a profile without debug information says so.
pub proof fn law_profile_is_passed(c: CompileInputs)
    requires
        c.script() is Ok,
    ensures
        c.profile.opt_level@ != "0"@ ==> passes(
            c.script()->Ok_0,
            "-C"@,
            "opt-level="@ + c.profile.opt_level@,
        ),
        !c.profile.debug_info ==> passes(c.script()->Ok_0, "-C"@, "debuginfo=0"@),
{
    broadcast use group_adjacent;

    let level = "opt-level="@ + c.profile.opt_level@;
    lemma_adjacent_at(seq!["-C"@, level], 0);
    lemma_adjacent_at(seq!["-C"@, "debuginfo=0"@], 0);
    if c.profile.opt_level@ != "0"@ {
        assert(adjacent(profile_args(c.profile), "-C"@, level));
        lemma_fixed(c.u, c.sysroot, c.target, c.cc_bin_dir, c.libs, c.profile, "-C"@, level);
        lemma_fixed_passed(c, "-C"@, level);
    }
    if !c.profile.debug_info {
        assert(adjacent(profile_args(c.profile), "-C"@, "debuginfo=0"@));
        lemma_fixed(
            c.u,
            c.sysroot,
            c.target,
            c.cc_bin_dir,
            c.libs,
            c.profile,
            "-C"@,
            "debuginfo=0"@,
        );
        lemma_fixed_passed(c, "-C"@, "debuginfo=0"@);
    }
}

proof fn lemma_pass(c: CompileInputs, part: Seq<Seq<char>>, i: int)
    requires
        c.script() is Ok,
        0 <= i < part.len() - 1,
        ({
            ||| part == head_args(c.u, c.sysroot)
            ||| part == cross_args(c.u, c.target, c.cc_bin_dir, c.libs)
            ||| part == proc_macro_args(c.u)
            ||| part == lint_args(c.u)
            ||| part == seq!["--emit"@, emit_kinds(c.u), "--out-dir"@, "$out"@]
            ||| part == test_args(c.u) + seq!["--emit"@, emit_kinds(c.u), "--out-dir"@, "$out"@]
            ||| part == seq![
                "--error-format=json"@,
                "--json=diagnostic-rendered-ansi"@,
                "-C"@,
                "extra-filename="@ + c.u.extra_filename,
                "-C"@,
                "metadata="@ + c.u.extra_filename.drop_first(),
            ]
        }),
    ensures
        passes(c.script()->Ok_0, part[i], part[i + 1]),
{
    lemma_adjacent_at(part, i);
    lemma_fixed(
        c.u,
        c.sysroot,
        c.target,
        c.cc_bin_dir,
        c.libs,
        c.profile,
        part[i],
        part[i + 1],
    );
    lemma_fixed_passed(c, part[i], part[i + 1]);
}

/// The compiler is told which crate it compiles: its source, name and edition, where the
/// results go and how they are told apart; that messages are wanted as JSON; what is
/// emitted; to build the harness of a test; and to be silent about the lints of a
/// dependency.
pub proof fn law_crate_is_described(c: CompileInputs)
    requires
        c.script() is Ok,
    ensures
        ({
            let s = c.script()->Ok_0;
            let u = c.u;
            let proc_macro = u.crate_types.contains("proc-macro"@);
            &&& passes(s, quoted(u.source_file), "--sysroot"@)
            &&& passes(s, "--sysroot"@, c.sysroot)
            &&& passes(s, "--crate-name"@, u.crate_name)
            &&& passes(s, "--edition"@, u.edition)
            &&& passes(s, "--out-dir"@, "$out"@)
            &&& passes(s, "--error-format=json"@, "--json=diagnostic-rendered-ansi"@)
            &&& passes(s, "-C"@, "extra-filename="@ + u.extra_filename)
            &&& passes(s, "-C"@, "metadata="@ + u.extra_filename.drop_first())
            &&& u.kind == UnitKind::Check ==> passes(s, "--emit"@, "dep-info,metadata"@)
            &&& u.kind != UnitKind::Check && proc_macro ==> passes(s, "--emit"@, "dep-info,link"@)
            &&& u.kind != UnitKind::Check && !proc_macro ==> passes(
                s,
                "--emit"@,
                "dep-info,metadata,link"@,
            )
            &&& proc_macro ==> passes(s, "--extern"@, "proc_macro"@) && passes(
                s,
                "-C"@,
                "prefer-dynamic"@,
            )
            &&& u.kind == UnitKind::TestCompile ==> passes(s, "--test"@, "--emit"@)
            &&& u.compile_test ==> passes(s, "--test"@, "--emit"@)
            &&& !u.is_local ==> passes(s, "--cap-lints"@, "allow"@)
        }),
{
    let u = c.u;
    let head = head_args(u, c.sysroot);
    lemma_pass(c, head, 0);
    lemma_pass(c, head, 1);
    lemma_pass(c, head, 3);
    lemma_pass(c, head, 5);
    let emit = seq!["--emit"@, emit_kinds(u), "--out-dir"@, "$out"@];
    lemma_pass(c, emit, 0);
    lemma_pass(c, emit, 2);
    let names = seq![
        "--error-format=json"@,
        "--json=diagnostic-rendered-ansi"@,
        "-C"@,
        "extra-filename="@ + u.extra_filename,
        "-C"@,
        "metadata="@ + u.extra_filename.drop_first(),
    ];
    lemma_pass(c, names, 0);
    lemma_pass(c, names, 2);
    lemma_pass(c, names, 4);
    if u.crate_types.contains("proc-macro"@) {
        lemma_pass(c, proc_macro_args(u), 0);
        lemma_pass(c, proc_macro_args(u), 2);
    }
    if u.kind == UnitKind::TestCompile || u.compile_test {
        let test = test_args(u) + emit;
        assert(test[0] == "--test"@ && test[1] == "--emit"@);
        lemma_pass(c, test, 0);
    }
    if !u.is_local {
        lemma_pass(c, lint_args(u), 0);
    }
}

/// Every crate type and every feature is passed.
pub proof fn law_features_are_passed(c: CompileInputs, n: int)
    requires
        c.script() is Ok,
    ensures
        0 <= n < c.u.crate_types.len() ==> passes(
            c.script()->Ok_0,
            "--crate-type"@,
            c.u.crate_types[n],
        ),
        0 <= n < c.u.features.len() ==> passes(
            c.script()->Ok_0,
            "--cfg"@,
            quoted("feature=\""@ + c.u.features[n] + "\""@),
        ),
{
    if 0 <= n < c.u.crate_types.len() {
        let t = c.u.crate_types[n];
        lemma_flagged("--crate-type"@, ""@, c.u.crate_types, n);
        reveal_strlit("");
        assert(""@ + t =~= t);
        lemma_fixed(
            c.u,
            c.sysroot,
            c.target,
            c.cc_bin_dir,
            c.libs,
            c.profile,
            "--crate-type"@,
            t,
        );
        lemma_fixed_passed(c, "--crate-type"@, t);
    }
    if 0 <= n < c.u.features.len() {
        let f = quoted("feature=\""@ + c.u.features[n] + "\""@);
        lemma_features(c.u.features, n);
        lemma_fixed(c.u, c.sysroot, c.target, c.cc_bin_dir, c.libs, c.profile, "--cfg"@, f);
        lemma_fixed_passed(c, "--cfg"@, f);
    }
}

/// A unit for another machine is compiled for it, and where it is linked the linker for it
/// is named: for Windows with Microsoft's tools the one that takes their libraries, else
/// the C compiler for the target.
pub proof fn law_cross_linker_is_named(c: CompileInputs, n: int)
    requires
        c.script() is Ok,
        c.target.host_triple@ != c.target.target_triple@,
        !c.u.for_host,
    ensures
        ({
            let s = c.script()->Ok_0;
            let triple = c.target.target_triple@;
            let msvc = has_substring(triple, "msvc"@);
            &&& passes(s, "--target"@, triple)
            &&& c.u.needs_linker && msvc ==> passes(
                s,
                "-C"@,
                "linker="@ + c.cc_bin_dir + "/lld-link"@,
            ) && passes(s, "-C"@, "target-feature=+crt-static"@)
            &&& c.u.needs_linker && msvc && 0 <= n < c.libs.len() ==> passes(
                s,
                "-L"@,
                "native="@ + c.libs[n],
            )
            &&& c.u.needs_linker && !msvc ==> passes(
                s,
                "-C"@,
                "linker="@ + c.cc_bin_dir + "/"@ + triple + "-gcc"@,
            )
        }),
{
    broadcast use group_adjacent;

    let cross = cross_args(c.u, c.target, c.cc_bin_dir, c.libs);
    lemma_pass(c, cross, 0);
    if c.u.needs_linker {
        lemma_pass(c, cross, 2);
        if has_substring(c.target.target_triple@, "msvc"@) {
            lemma_pass(c, cross, 4);
            if 0 <= n < c.libs.len() {
                lemma_flagged("-L"@, "native="@, c.libs, n);
                assert(adjacent(cross, "-L"@, "native="@ + c.libs[n]));
                lemma_fixed(
                    c.u,
                    c.sysroot,
                    c.target,
                    c.cc_bin_dir,
                    c.libs,
                    c.profile,
                    "-L"@,
                    "native="@ + c.libs[n],
                );
                lemma_fixed_passed(c, "-L"@, "native="@ + c.libs[n]);
            }
        }
    }
}

/// Every direct dependency with a derivation is linked under its name, by the library in
/// the place of its output, and every transitive one is on the search path.
pub proof fn law_dependencies_are_linked(c: CompileInputs, n: int)
    requires
        c.script() is Ok,
    ensures
        0 <= n < c.u.dep_extern.len() && c.drvs.contains_key(c.u.dep_extern[n].1) ==> ({
            let (name, key) = c.u.dep_extern[n];
            &&& output_placeholder(c.drvs[key], "out"@) matches Ok(ph) && passes(
                c.script()->Ok_0,
                "--extern"@,
                name + "="@ + ph + "/"@ + output_file(c.us[c.idx[key] as int]),
            )
        }),
        0 <= n < c.u.all_dep_keys.len() && c.drvs.contains_key(c.u.all_dep_keys[n]) ==> ({
            &&& output_placeholder(c.drvs[c.u.all_dep_keys[n]], "out"@) matches Ok(ph) && passes(
                c.script()->Ok_0,
                "-L"@,
                "dependency="@ + ph,
            )
        }),
{
    broadcast use group_adjacent;

    if 0 <= n < c.u.dep_extern.len() && c.drvs.contains_key(c.u.dep_extern[n].1) {
        let (name, key) = c.u.dep_extern[n];
        lemma_externs(c.us, c.idx, c.drvs, c.u.dep_extern, n);
        let ph = output_placeholder(c.drvs[key], "out"@)->Ok_0;
        let arg = name + "="@ + ph + "/"@ + output_file(c.us[c.idx[key] as int]);
        assert(adjacent(c.arguments(), "--extern"@, arg));
        lemma_argument_passed(c, "--extern"@, arg);
    }
    if 0 <= n < c.u.all_dep_keys.len() && c.drvs.contains_key(c.u.all_dep_keys[n]) {
        lemma_searches(c.drvs, c.u.all_dep_keys, n);
        let ph = output_placeholder(c.drvs[c.u.all_dep_keys[n]], "out"@)->Ok_0;
        assert(adjacent(c.arguments(), "-L"@, "dependency="@ + ph));
        lemma_argument_passed(c, "-L"@, "dependency="@ + ph);
    }
}

/// Every rule for paths is passed: the source below the store is mapped to what the rule
/// says, and where the source was cut down to a crate, the rule for all of it leads to the
/// crate's own place.
pub proof fn law_paths_are_remapped(c: CompileInputs, n: int)
    requires
        c.script() is Ok,
        0 <= n < c.remaps.len(),
    ensures
        ({
            let (path, to) = c.remaps[n];
            let flag = "--remap-path-prefix"@;
            let s = c.script()->Ok_0;
            &&& path.len() > 0 ==> passes(
                s,
                flag,
                quoted(c.src_store + "/"@ + path + "="@ + to),
            )
            &&& path.len() == 0 && c.u.sliced_crate_rel is None ==> passes(
                s,
                flag,
                quoted(c.src_store + "="@ + to),
            )
            &&& path.len() == 0 && c.u.sliced_crate_rel is Some ==> passes(
                s,
                flag,
                quoted(c.src_store + "="@ + (to + "/"@ + c.u.sliced_crate_rel->0)),
            )
        }),
{
    broadcast use group_adjacent;

    let e = c.remaps[n];
    lemma_sorted_remaps(c.remaps, e);
    assert(c.remaps.contains(e));
    let sorted = sort_remaps(c.remaps);
    let k = choose|k: int| 0 <= k < sorted.len() && sorted[k] == e;
    lemma_remap_flags(sorted, c.src_store, c.u.sliced_crate_rel, k);
    let arg = quoted(remap_rule(e, c.src_store, c.u.sliced_crate_rel));
    assert(adjacent(c.arguments(), "--remap-path-prefix"@, arg));
    lemma_argument_passed(c, "--remap-path-prefix"@, arg);
}

// ---------------------------------------------------------------------------
// What stands before and behind the command
// ---------------------------------------------------------------------------

pub proof fn lemma_exported(envs: Seq<(Seq<char>, Seq<char>)>, n: int)
    requires
        0 <= n < envs.len(),
    ensures
        has_substring(
            exports(envs),
            "export "@ + envs[n].0 + "="@ + quoted(envs[n].1) + " && "@,
        ),
    decreases envs.len(),
{
    let e = "export "@ + envs[n].0 + "="@ + quoted(envs[n].1) + " && "@;
    let rest = exports(envs.drop_last());
    if n < envs.len() - 1 {
        lemma_exported(envs.drop_last(), n);
        lemma_holds_before(
            rest,
            "export "@ + envs.last().0 + "="@ + quoted(envs.last().1) + " && "@,
            e,
        );
    } else {
        lemma_holds_itself(e);
        lemma_holds_behind(rest, e, e);
    }
}

pub proof fn lemma_sourced(scripts: Seq<Seq<char>>, n: int)
    requires
        0 <= n < scripts.len(),
    ensures
        has_substring(
            source_commands(scripts),
            ". "@ + quoted(scripts[n]) + " && "@,
        ),
    decreases scripts.len(),
{
    let e = ". "@ + quoted(scripts[n]) + " && "@;
    let rest = source_commands(scripts.drop_last());
    if n < scripts.len() - 1 {
        lemma_sourced(scripts.drop_last(), n);
        lemma_holds_before(rest, ". "@ + quoted(scripts.last()) + " && "@, e);
    } else {
        lemma_holds_itself(e);
        lemma_holds_behind(rest, e, e);
    }
}

proof fn lemma_sourced_in_turn(scripts: Seq<Seq<char>>, n: int, m: int)
    requires
        0 <= n < m < scripts.len(),
    ensures
        in_turn(
            source_commands(scripts),
            ". "@ + quoted(scripts[n]) + " && "@,
            ". "@ + quoted(scripts[m]) + " && "@,
        ),
    decreases scripts.len(),
{
    let p = ". "@ + quoted(scripts[n]) + " && "@;
    let q = ". "@ + quoted(scripts[m]) + " && "@;
    let last = ". "@ + quoted(scripts.last()) + " && "@;
    let front = scripts.drop_last();
    let rest = source_commands(front);
    if m == scripts.len() - 1 {
        lemma_sourced(front, n);
        lemma_holds_itself(q);
        lemma_in_turn(rest, last, p, q);
    } else {
        lemma_sourced_in_turn(front, n, m);
        lemma_in_turn_before(rest, last, p, q);
    }
}

/// The commands before the compiler's, and what they hold.
proof fn lemma_prelude(c: CompileInputs) -> (r: (Seq<char>, Seq<char>, Seq<char>))
    requires
        c.script() is Ok,
    ensures
        own_script_part(c.u, c.drvs, false) == TextResult::Ok(r.0),
        c.u.needs_linker ==> foreign_parts(c.u, c.us, c.idx, c.drvs, c.u.all_dep_keys)
            == TextResult::Ok(r.1),
        c.script()->Ok_0 == compile_prelude(
            c.u,
            r.0,
            r.1,
            c.coreutils_bin_dir,
            c.cc_bin_dir,
            c.setup,
        ) + r.2,
        starts(r.2, quoted(c.rustc_path) + " "@),
        ends(
            r.2,
            " $EXTRA_ARGS 2>$out/diagnostics; __rs=$?; "@ + quoted(c.coreutils_bin_dir + "/cat"@)
                + " $out/diagnostics >&2; exit $__rs"@,
        ),
{
    let own = own_script_part(c.u, c.drvs, false)->Ok_0;
    let foreign = if c.u.needs_linker {
        foreign_parts(c.u, c.us, c.idx, c.drvs, c.u.all_dep_keys)->Ok_0
    } else {
        Seq::empty()
    };
    let prelude = compile_prelude(c.u, own, foreign, c.coreutils_bin_dir, c.cc_bin_dir, c.setup);
    let driver = quoted(c.rustc_path) + " "@;
    let tail = " $EXTRA_ARGS 2>$out/diagnostics; __rs=$?; "@ + quoted(
        c.coreutils_bin_dir + "/cat"@,
    ) + " $out/diagnostics >&2; exit $__rs"@;
    let rest = driver + (join_seq(c.arguments(), " "@) + tail);
    assert(c.script()->Ok_0 =~= prelude + rest);
    assert(rest.take(driver.len() as int) =~= driver);
    assert(rest.skip(rest.len() - tail.len()) =~= tail);
    (own, foreign, rest)
}

/// Before the compiler runs: where the unit is linked the linker is on the search path,
/// first of all; every variable of cargo's is exported; the manifest's directory is; the
/// output directory is made; and then the setup scripts are sourced, in their order. What
/// the compiler says is kept beside the output and shown, and its exit code is the script's.
#[verifier::spinoff_prover]
#[verifier::rlimit(60)]
pub proof fn law_compiler_is_set_up(c: CompileInputs, n: int, m: int)
    requires
        c.script() is Ok,
    ensures
        ({
            let s = c.script()->Ok_0;
            let driver = quoted(c.rustc_path) + " "@;
            let made = quoted(c.coreutils_bin_dir + "/mkdir"@) + " -p $out && "@;
            &&& c.u.needs_linker ==> starts(s, "export PATH="@ + quoted(c.cc_bin_dir) + " && "@)
            &&& 0 <= n < c.u.cargo_envs.len() ==> in_turn(
                s,
                "export "@ + c.u.cargo_envs[n].0 + "="@ + quoted(c.u.cargo_envs[n].1) + " && "@,
                driver,
            )
            &&& c.u.kind != UnitKind::TestCompile ==> in_turn(
                s,
                "export CARGO_MANIFEST_DIR="@ + quoted(c.u.manifest_dir) + " && "@,
                driver,
            )
            &&& in_turn(s, made, driver)
            &&& 0 <= n < c.setup.len() ==> in_turn(s, made, ". "@ + quoted(c.setup[n]) + " && "@)
            &&& 0 <= n < c.setup.len() ==> in_turn(
                s,
                "export SCHNEE_AUX_DIR=$out/schnee-aux && "@,
                ". "@ + quoted(c.setup[n]) + " && "@,
            )
            &&& 0 <= n < m < c.setup.len() ==> in_turn(
                s,
                ". "@ + quoted(c.setup[n]) + " && "@,
                ". "@ + quoted(c.setup[m]) + " && "@,
            )
            &&& 0 <= n < c.setup.len() ==> in_turn(s, ". "@ + quoted(c.setup[n]) + " && "@, driver)
            &&& ends(
                s,
                " $EXTRA_ARGS 2>$out/diagnostics; __rs=$?; "@ + quoted(
                    c.coreutils_bin_dir + "/cat"@,
                ) + " $out/diagnostics >&2; exit $__rs"@,
            )
        }),
{
    let (own, foreign, rest) = lemma_prelude(c);
    let s = c.script()->Ok_0;
    let u = c.u;
    let driver = quoted(c.rustc_path) + " "@;
    let tail = " $EXTRA_ARGS 2>$out/diagnostics; __rs=$?; "@ + quoted(
        c.coreutils_bin_dir + "/cat"@,
    ) + " $out/diagnostics >&2; exit $__rs"@;
    let made = quoted(c.coreutils_bin_dir + "/mkdir"@) + " -p $out && "@;
    let prelude = compile_prelude(u, own, foreign, c.coreutils_bin_dir, c.cc_bin_dir, c.setup);
    let path = if u.needs_linker {
        "export PATH="@ + quoted(c.cc_bin_dir) + " && "@
    } else {
        Seq::empty()
    };
    let manifest = manifest_part(u, c.coreutils_bin_dir);
    let envs = exports(u.cargo_envs);
    let setup = setup_fragment(c.setup);
    let head = path + "EXTRA_ARGS=\"\" && "@ + own + foreign;
    assert(prelude =~= head + envs + manifest + made + setup);
    lemma_starts_holds(rest, driver);
    assert(s.skip(s.len() - tail.len()) =~= rest.skip(rest.len() - tail.len()));
    if u.needs_linker {
        assert(s.take(path.len() as int) =~= path);
    }
    if 0 <= n < u.cargo_envs.len() {
        let e = "export "@ + u.cargo_envs[n].0 + "="@ + quoted(u.cargo_envs[n].1) + " && "@;
        lemma_exported(u.cargo_envs, n);
        lemma_holds_behind(head, envs, e);
        lemma_holds_before(head + envs, manifest, e);
        lemma_holds_before(head + envs + manifest, made, e);
        lemma_holds_before(head + envs + manifest + made, setup, e);
        lemma_in_turn(prelude, rest, e, driver);
    }
    if u.kind != UnitKind::TestCompile {
        lemma_holds_itself(manifest);
        lemma_holds_behind(head + envs, manifest, manifest);
        lemma_holds_before(head + envs + manifest, made, manifest);
        lemma_holds_before(head + envs + manifest + made, setup, manifest);
        lemma_in_turn(prelude, rest, manifest, driver);
    }
    lemma_holds_itself(made);
    lemma_holds_behind(head + envs + manifest, made, made);
    lemma_holds_before(head + envs + manifest + made, setup, made);
    lemma_in_turn(prelude, rest, made, driver);
    if 0 <= n < c.setup.len() {
        let e = ". "@ + quoted(c.setup[n]) + " && "@;
        let aux = "export SCHNEE_AUX_DIR=$out/schnee-aux && "@;
        let commands = source_commands(c.setup);
        lemma_sourced(c.setup, n);
        lemma_holds_behind(aux, commands, e);
        lemma_holds_behind(head + envs + manifest + made, setup, e);
        lemma_in_turn(prelude, rest, e, driver);
        lemma_in_turn(head + envs + manifest + made, setup, made, e);
        lemma_in_turn_before(prelude, rest, made, e);
        lemma_holds_itself(aux);
        lemma_in_turn(aux, commands, aux, e);
        lemma_in_turn_behind(head + envs + manifest + made, setup, aux, e);
        lemma_in_turn_before(prelude, rest, aux, e);
        if n < m && m < c.setup.len() {
            let f = ". "@ + quoted(c.setup[m]) + " && "@;
            lemma_sourced_in_turn(c.setup, n, m);
            lemma_in_turn_behind(aux, commands, e, f);
            lemma_in_turn_behind(head + envs + manifest + made, setup, e, f);
            lemma_in_turn_before(prelude, rest, e, f);
        }
    }
}

pub proof fn lemma_starts_holds(s: Seq<char>, p: Seq<char>)
    requires
        starts(s, p),
    ensures
        has_substring(s, p),
{
    assert(s.subrange(0, p.len() as int) =~= s.take(p.len() as int));
    assert(occurs(s, p, 0));
}

// ---------------------------------------------------------------------------
// What is not passed
// ---------------------------------------------------------------------------

/// The texts of a unit that stand on the command line as they are do not look like a
/// setting of the compiler with the given name: they are paths, names and editions.
pub open spec fn no_setting(c: CompileInputs, name: Seq<char>) -> bool {
    &&& !starts(quoted(c.u.source_file), name)
    &&& !starts(c.sysroot, name)
    &&& !starts(c.u.crate_name, name)
    &&& !starts(c.u.edition, name)
    &&& !starts(c.target.target_triple@, name)
    &&& none_starts(c.u.crate_types, name)
    &&& forall|n: int| 0 <= n < c.u.dep_extern.len() ==> !starts((#[trigger] c.u.dep_extern[n]).0, name)
    &&& none_starts(quoted_all(c.extra), name)
    &&& c.src_store.len() > 0 && c.src_store[0] == '/'
}

proof fn lemma_extern_free(name: Seq<char>, rest: Seq<char>, stem: Seq<char>)
    requires
        !starts(name, stem),
        !stem.contains('='),
    ensures
        !starts(name + "="@ + rest, stem),
{
    reveal_strlit("=");
    let s = name + "="@ + rest;
    if starts(s, stem) {
        assert(s.take(stem.len() as int) == stem);
        if name.len() >= stem.len() {
            assert(name.take(stem.len() as int) =~= s.take(stem.len() as int));
        } else {
            assert(s[name.len() as int] == '=');
            assert(s.take(stem.len() as int)[name.len() as int] == '=');
            assert(stem[name.len() as int] == '=');
        }
    }
}

proof fn lemma_quoted_free(s: Seq<char>, stem: Seq<char>)
    requires
        s.len() > 0,
        stem.len() > 0,
        s[0] != stem[0],
        stem[0] != '\'',
    ensures
        !starts(quoted(s), stem),
{
    reveal_strlit("'");
    lemma_differs(quoted(s), stem, 0);
}

proof fn lemma_flagged_free(flag: Seq<char>, prefix: Seq<char>, v: Seq<Seq<char>>, stem: Seq<char>)
    requires
        !starts(flag, stem),
        forall|i: int| 0 <= i < v.len() ==> !starts(prefix + #[trigger] v[i], stem),
    ensures
        none_starts(flagged(flag, prefix, v), stem),
    decreases v.len(),
{
    broadcast use lemma_none_starts_concat;

    if v.len() > 0 {
        let t = v.drop_last();
        assert forall|i: int| 0 <= i < t.len() implies !starts(prefix + #[trigger] t[i], stem) by {
            assert(t[i] == v[i]);
        }
        lemma_flagged_free(flag, prefix, t, stem);
        assert(!starts(prefix + v[v.len() - 1], stem));
        assert(none_starts(seq![flag, prefix + v.last()], stem));
    }
}

proof fn lemma_features_free(features: Seq<Seq<char>>, stem: Seq<char>)
    requires
        stem.len() > 0,
        stem[0] != '-' && stem[0] != 'f' && stem[0] != '\'',
    ensures
        none_starts(feature_args(features), stem),
    decreases features.len(),
{
    broadcast use lemma_none_starts_concat;

    if features.len() > 0 {
        lemma_features_free(features.drop_last(), stem);
        reveal_strlit("--cfg");
        reveal_strlit("feature=\"");
        let f = "feature=\""@ + features.last() + "\""@;
        lemma_quoted_free(f, stem);
        lemma_differs("--cfg"@, stem, 0);
        assert(none_starts(seq!["--cfg"@, quoted(f)], stem));
    }
}

proof fn lemma_externs_free(
    us: Seq<UnitView>,
    idx: Map<Seq<char>, usize>,
    drvs: Map<Seq<char>, Seq<char>>,
    deps: Seq<(Seq<char>, Seq<char>)>,
    stem: Seq<char>,
)
    requires
        stem.len() > 0,
        stem[0] != '-',
        !stem.contains('='),
        extern_args(us, idx, drvs, deps) is Ok,
        forall|n: int| 0 <= n < deps.len() ==> !starts((#[trigger] deps[n]).0, stem),
    ensures
        none_starts(extern_args(us, idx, drvs, deps)->Ok_0, stem),
    decreases deps.len(),
{
    broadcast use lemma_none_starts_concat;

    if deps.len() > 0 {
        let t = deps.drop_last();
        let d = deps.last();
        assert forall|n: int| 0 <= n < t.len() implies !starts((#[trigger] t[n]).0, stem) by {
            assert(t[n] == deps[n]);
        }
        lemma_externs_free(us, idx, drvs, t, stem);
        if drvs.contains_key(d.1) {
            let ph = output_placeholder(drvs[d.1], "out"@)->Ok_0;
            let file = output_file(us[idx[d.1] as int]);
            let arg = d.0 + "="@ + ph + "/"@ + file;
            assert(deps[deps.len() - 1] == d);
            lemma_extern_free(d.0, ph + "/"@ + file, stem);
            assert(arg =~= d.0 + "="@ + (ph + "/"@ + file));
            reveal_strlit("--extern");
            lemma_differs("--extern"@, stem, 0);
            assert(none_starts(seq!["--extern"@, arg], stem));
        }
    }
}

proof fn lemma_searches_free(drvs: Map<Seq<char>, Seq<char>>, keys: Seq<Seq<char>>, stem: Seq<char>)
    requires
        stem.len() > 2,
        stem[0] != '-',
        stem[2] != 'p',
        search_args(drvs, keys) is Ok,
    ensures
        none_starts(search_args(drvs, keys)->Ok_0, stem),
    decreases keys.len(),
{
    broadcast use lemma_none_starts_concat;

    if keys.len() > 0 {
        lemma_searches_free(drvs, keys.drop_last(), stem);
        if drvs.contains_key(keys.last()) {
            let ph = output_placeholder(drvs[keys.last()], "out"@)->Ok_0;
            reveal_strlit("-L");
            reveal_strlit("dependency=");
            lemma_differs("-L"@, stem, 0);
            lemma_differs("dependency="@ + ph, stem, 2);
            assert(none_starts(seq!["-L"@, "dependency="@ + ph], stem));
        }
    }
}

proof fn lemma_remaps_free(
    rules: Seq<(Seq<char>, Seq<char>)>,
    src_store: Seq<char>,
    sliced: Option<Seq<char>>,
    stem: Seq<char>,
)
    requires
        stem.len() > 0,
        stem[0] != '-' && stem[0] != '/' && stem[0] != '\'',
        src_store.len() > 0,
        src_store[0] == '/',
    ensures
        none_starts(remap_flags(rules, src_store, sliced), stem),
    decreases rules.len(),
{
    broadcast use lemma_none_starts_concat;

    if rules.len() > 0 {
        lemma_remaps_free(rules.drop_last(), src_store, sliced, stem);
        let r = remap_rule(rules.last(), src_store, sliced);
        lemma_quoted_free(r, stem);
        reveal_strlit("--remap-path-prefix");
        lemma_differs("--remap-path-prefix"@, stem, 0);
        assert(none_starts(seq!["--remap-path-prefix"@, quoted(r)], stem));
    }
}

proof fn lemma_cross_free(c: CompileInputs, stem: Seq<char>)
    requires
        no_setting(c, stem),
        stem.len() > 2,
        stem[0] != '-' && stem[0] != 'l' && stem[0] != 't' && stem[0] != 'n',
    ensures
        none_starts(cross_args(c.u, c.target, c.cc_bin_dir, c.libs), stem),
{
    broadcast use lemma_none_starts_concat;

    reveal_strlit("--target");
    reveal_strlit("-C");
    reveal_strlit("linker=");
    reveal_strlit("target-feature=+crt-static");
    reveal_strlit("-L");
    reveal_strlit("native=");
    lemma_differs("--target"@, stem, 0);
    lemma_differs("-C"@, stem, 0);
    lemma_differs("-L"@, stem, 0);
    lemma_differs("linker="@ + c.cc_bin_dir + "/lld-link"@, stem, 0);
    lemma_differs("linker="@ + c.cc_bin_dir + "/"@ + c.target.target_triple@ + "-gcc"@, stem, 0);
    lemma_differs("target-feature=+crt-static"@, stem, 0);
    assert forall|i: int| 0 <= i < c.libs.len() implies !starts(
        "native="@ + #[trigger] c.libs[i],
        stem,
    ) by {
        lemma_differs("native="@ + c.libs[i], stem, 0);
    }
    lemma_flagged_free("-L"@, "native="@, c.libs, stem);
}

proof fn lemma_fixed_free(c: CompileInputs, stem: Seq<char>)
    requires
        no_setting(c, stem),
        stem.len() > 2,
        stem[0] == 'o' || (stem[0] == 'd' && stem[2] == 'b'),
        none_starts(profile_args(c.profile), stem),
    ensures
        none_starts(
            fixed_args(c.u, c.sysroot, c.target, c.cc_bin_dir, c.libs, c.profile),
            stem,
        ),
{
    broadcast use lemma_none_starts_concat;

    reveal(fixed_args);
    lemma_cross_free(c, stem);
    lemma_features_free(c.u.features, stem);
    reveal_strlit("--sysroot");
    reveal_strlit("--crate-name");
    reveal_strlit("--edition");
    reveal_strlit("--crate-type");
    reveal_strlit("");
    reveal_strlit("--extern");
    reveal_strlit("proc_macro");
    reveal_strlit("-C");
    reveal_strlit("prefer-dynamic");
    reveal_strlit("--test");
    reveal_strlit("--emit");
    reveal_strlit("dep-info,metadata");
    reveal_strlit("dep-info,link");
    reveal_strlit("dep-info,metadata,link");
    reveal_strlit("--out-dir");
    reveal_strlit("$out");
    reveal_strlit("--cap-lints");
    reveal_strlit("allow");
    reveal_strlit("--error-format=json");
    reveal_strlit("--json=diagnostic-rendered-ansi");
    reveal_strlit("extra-filename=");
    reveal_strlit("metadata=");
    lemma_differs("--sysroot"@, stem, 0);
    lemma_differs("--crate-name"@, stem, 0);
    lemma_differs("--edition"@, stem, 0);
    lemma_differs("--crate-type"@, stem, 0);
    lemma_differs("--extern"@, stem, 0);
    lemma_differs("proc_macro"@, stem, 0);
    lemma_differs("-C"@, stem, 0);
    lemma_differs("prefer-dynamic"@, stem, 0);
    lemma_differs("--test"@, stem, 0);
    lemma_differs("--emit"@, stem, 0);
    lemma_differs("dep-info,metadata"@, stem, if stem[0] == 'o' { 0 } else { 2 });
    lemma_differs("dep-info,link"@, stem, if stem[0] == 'o' { 0 } else { 2 });
    lemma_differs("dep-info,metadata,link"@, stem, if stem[0] == 'o' { 0 } else { 2 });
    lemma_differs("--out-dir"@, stem, 0);
    lemma_differs("$out"@, stem, 0);
    lemma_differs("--cap-lints"@, stem, 0);
    lemma_differs("allow"@, stem, 0);
    lemma_differs("--error-format=json"@, stem, 0);
    lemma_differs("--json=diagnostic-rendered-ansi"@, stem, 0);
    lemma_differs("extra-filename="@ + c.u.extra_filename, stem, 0);
    lemma_differs("metadata="@ + c.u.extra_filename.drop_first(), stem, 0);
    assert forall|i: int| 0 <= i < c.u.crate_types.len() implies !starts(
        ""@ + #[trigger] c.u.crate_types[i],
        stem,
    ) by {
        assert(""@ + c.u.crate_types[i] =~= c.u.crate_types[i]);
    }
    lemma_flagged_free("--crate-type"@, ""@, c.u.crate_types, stem);
    assert(none_starts(head_args(c.u, c.sysroot), stem));
    assert(none_starts(proc_macro_args(c.u), stem));
    assert(none_starts(test_args(c.u), stem));
    assert(none_starts(seq!["--emit"@, emit_kinds(c.u), "--out-dir"@, "$out"@], stem));
    assert(none_starts(lint_args(c.u), stem));
    assert(none_starts(
        seq![
            "--error-format=json"@,
            "--json=diagnostic-rendered-ansi"@,
            "-C"@,
            "extra-filename="@ + c.u.extra_filename,
            "-C"@,
            "metadata="@ + c.u.extra_filename.drop_first(),
        ],
        stem,
    ));
}

/// The compiler's own default stands where a profile asks for it: where nothing is to be
/// optimized no argument sets a level, and where there is debug information no argument
/// takes it away.
pub proof fn law_defaults_are_not_passed(c: CompileInputs)
    requires
        c.script() is Ok,
    ensures
        c.profile.opt_level@ == "0"@ && no_setting(c, "opt-level"@) ==> none_starts(
            c.arguments(),
            "opt-level"@,
        ),
        c.profile.debug_info && no_setting(c, "debuginfo"@) ==> none_starts(
            c.arguments(),
            "debuginfo"@,
        ),
{
    reveal_strlit("-C");
    reveal_strlit("opt-level=");
    reveal_strlit("opt-level");
    reveal_strlit("debuginfo=0");
    reveal_strlit("debuginfo");
    if c.profile.opt_level@ == "0"@ && no_setting(c, "opt-level"@) {
        let stem = "opt-level"@;
        lemma_differs("-C"@, stem, 0);
        lemma_differs("debuginfo=0"@, stem, 0);
        assert(none_starts(profile_args(c.profile), stem));
        lemma_free(c, stem);
    }
    if c.profile.debug_info && no_setting(c, "debuginfo"@) {
        let stem = "debuginfo"@;
        lemma_differs("-C"@, stem, 0);
        lemma_differs("opt-level="@ + c.profile.opt_level@, stem, 0);
        assert(none_starts(profile_args(c.profile), stem));
        lemma_free(c, stem);
    }
}

proof fn lemma_free(c: CompileInputs, stem: Seq<char>)
    requires
        c.script() is Ok,
        no_setting(c, stem),
        stem.len() > 2,
        !stem.contains('='),
        stem[0] == 'o' || (stem[0] == 'd' && stem[2] == 'b'),
        stem[2] != 'p',
        none_starts(profile_args(c.profile), stem),
    ensures
        none_starts(c.arguments(), stem),
{
    broadcast use lemma_none_starts_concat;

    lemma_fixed_free(c, stem);
    lemma_externs_free(c.us, c.idx, c.drvs, c.u.dep_extern, stem);
    lemma_searches_free(c.drvs, c.u.all_dep_keys, stem);
    lemma_remaps_free(sort_remaps(c.remaps), c.src_store, c.u.sliced_crate_rel, stem);
}

} // verus!
