//! What the script of a documentation unit tells rustdoc.
use crate::placeholder::{output_placeholder, TextResult};
use crate::script_laws::{
    lemma_exported, lemma_externs, lemma_features, lemma_flagged, lemma_on_command_line,
    lemma_remap_flags, lemma_searches, lemma_sorted_remaps, lemma_sourced, lemma_starts_holds,
    passes,
};
use crate::scripts::{
    command_tail, doc_fixed_args, doc_prelude, doc_script, exports, extern_args, feature_args,
    flagged, head_args, lint_args, own_script_part, remap_args_seq, remap_rule, search_args,
    setup_fragment, sort_remaps, source_commands,
};
use crate::text::{ends, join_seq};
use crate::units::{output_file, UnitView};
use crate::util::quoted;
use crate::wording::{
    adjacent, group_adjacent, in_turn, lemma_adjacent_at, lemma_holds_before, lemma_holds_behind,
    lemma_holds_itself, lemma_in_turn, lemma_in_turn_before,
};
use vstd::prelude::*;

verus! {

/// Everything that decides what rustdoc is told.
pub struct DocInputs {
    pub u: UnitView,
    pub us: Seq<UnitView>,
    pub idx: Map<Seq<char>, usize>,
    pub drvs: Map<Seq<char>, Seq<char>>,
    pub rustdoc_path: Seq<char>,
    pub sysroot: Seq<char>,
    pub coreutils_bin_dir: Seq<char>,
    pub private_items: bool,
    pub remaps: Seq<(Seq<char>, Seq<char>)>,
    pub src_store: Seq<char>,
    pub setup: Seq<Seq<char>>,
}

impl DocInputs {
    /// The script that is written for them.
    pub open spec fn script(self) -> TextResult {
        doc_script(
            self.u,
            self.us,
            self.idx,
            self.drvs,
            self.rustdoc_path,
            self.sysroot,
            self.coreutils_bin_dir,
            self.private_items,
            self.remaps,
            self.src_store,
            self.setup,
        )
    }

    spec fn arguments(self) -> Seq<Seq<char>> {
        doc_fixed_args(self.u, self.sysroot, self.private_items, self.remaps, self.src_store)
            + extern_args(self.us, self.idx, self.drvs, self.u.dep_extern)->Ok_0 + search_args(
            self.drvs,
            self.u.all_dep_keys,
        )->Ok_0
    }

    spec fn prelude(self) -> Seq<char> {
        doc_prelude(
            self.u,
            own_script_part(self.u, self.drvs, true)->Ok_0,
            remap_args_seq(self.remaps, self.src_store, self.u.sliced_crate_rel).len() > 0,
            self.coreutils_bin_dir,
            self.setup,
        )
    }
}

proof fn lemma_doc_passed(c: DocInputs, a: Seq<char>, b: Seq<char>)
    requires
        c.script() is Ok,
        adjacent(c.arguments(), a, b),
    ensures
        passes(c.script()->Ok_0, a, b),
{
    lemma_on_command_line(
        c.prelude(),
        quoted(c.rustdoc_path),
        c.arguments(),
        command_tail(c.coreutils_bin_dir + "/cat"@),
        a,
        b,
    );
}

proof fn lemma_doc_part(c: DocInputs, part: Seq<Seq<char>>, i: int)
    requires
        c.script() is Ok,
        0 <= i < part.len() - 1,
        ({
            ||| part == head_args(c.u, c.sysroot)
            ||| part == seq!["--output"@, "$out/doc"@]
            ||| part == lint_args(c.u)
            ||| part == seq!["--error-format=json"@, "--json=diagnostic-rendered-ansi"@]
            ||| part == seq!["-C"@, "metadata="@ + c.u.extra_filename.drop_first()]
            ||| (c.remaps.len() > 0 && part == seq!["-Z"@, "unstable-options"@])
        }),
    ensures
        passes(c.script()->Ok_0, part[i], part[i + 1]),
{
    broadcast use group_adjacent;

    if c.remaps.len() > 0 {
        lemma_sorted_remaps(c.remaps, c.remaps[0]);
        lemma_remap_flags(sort_remaps(c.remaps), c.src_store, c.u.sliced_crate_rel, 0);
    }
    lemma_adjacent_at(part, i);
    assert(adjacent(
        doc_fixed_args(c.u, c.sysroot, c.private_items, c.remaps, c.src_store),
        part[i],
        part[i + 1],
    ));
    assert(adjacent(c.arguments(), part[i], part[i + 1]));
    lemma_doc_passed(c, part[i], part[i + 1]);
}

/// Rustdoc is told which crate it documents and where the pages go; that messages are
/// wanted as JSON; to be silent about the lints of a dependency; and, where paths are
/// mapped, that unstable options are used.
pub proof fn law_documented_crate_is_described(c: DocInputs)
    requires
        c.script() is Ok,
    ensures
        ({
            let s = c.script()->Ok_0;
            &&& passes(s, quoted(c.u.source_file), "--sysroot"@)
            &&& passes(s, "--sysroot"@, c.sysroot)
            &&& passes(s, "--crate-name"@, c.u.crate_name)
            &&& passes(s, "--edition"@, c.u.edition)
            &&& passes(s, "--output"@, "$out/doc"@)
            &&& passes(s, "--error-format=json"@, "--json=diagnostic-rendered-ansi"@)
            &&& passes(s, "-C"@, "metadata="@ + c.u.extra_filename.drop_first())
            &&& !c.u.is_local ==> passes(s, "--cap-lints"@, "allow"@)
            &&& c.remaps.len() > 0 ==> passes(s, "-Z"@, "unstable-options"@)
        }),
{
    let head = head_args(c.u, c.sysroot);
    lemma_doc_part(c, head, 0);
    lemma_doc_part(c, head, 1);
    lemma_doc_part(c, head, 3);
    lemma_doc_part(c, head, 5);
    lemma_doc_part(c, seq!["--output"@, "$out/doc"@], 0);
    lemma_doc_part(c, seq!["--error-format=json"@, "--json=diagnostic-rendered-ansi"@], 0);
    lemma_doc_part(c, seq!["-C"@, "metadata="@ + c.u.extra_filename.drop_first()], 0);
    if !c.u.is_local {
        lemma_doc_part(c, lint_args(c.u), 0);
    }
    if c.remaps.len() > 0 {
        lemma_doc_part(c, seq!["-Z"@, "unstable-options"@], 0);
    }
}

/// Private items are documented where that is wanted, for the project's crates alone.
pub proof fn law_private_items_of_the_project(c: DocInputs)
    requires
        c.script() is Ok,
        c.private_items,
        c.u.is_local,
    ensures
        passes(c.script()->Ok_0, "--json=diagnostic-rendered-ansi"@, "--document-private-items"@),
{
    broadcast use group_adjacent;

    let json = seq!["--error-format=json"@, "--json=diagnostic-rendered-ansi"@];
    let flag = seq!["--document-private-items"@];
    let before = head_args(c.u, c.sysroot) + flagged("--crate-type"@, ""@, c.u.crate_types) + seq![
        "--output"@,
        "$out/doc"@,
    ] + feature_args(c.u.features) + lint_args(c.u);
    let both = json + flag;
    lemma_adjacent_at(both, 1);
    assert(before + json + flag =~= before + both);
    assert(adjacent(before + both, json[1], flag[0]));
    assert(adjacent(
        doc_fixed_args(c.u, c.sysroot, c.private_items, c.remaps, c.src_store),
        json[1],
        flag[0],
    ));
    assert(adjacent(c.arguments(), json[1], flag[0]));
    lemma_doc_passed(c, json[1], flag[0]);
}

/// Every crate type, feature, dependency and rule for paths is passed to rustdoc.
pub proof fn law_documented_dependencies(c: DocInputs, n: int)
    requires
        c.script() is Ok,
    ensures
        0 <= n < c.u.crate_types.len() ==> passes(
            c.script()->Ok_0,
            "--crate-type"@,
            c.u.crate_types[n],
        ),
        0 <= n < c.u.features.len() ==> passes(
            c.script()->Ok_0,
            "--cfg"@,
            quoted("feature=\""@ + c.u.features[n] + "\""@),
        ),
        0 <= n < c.u.dep_extern.len() && c.drvs.contains_key(c.u.dep_extern[n].1) ==> ({
            let (name, key) = c.u.dep_extern[n];
            &&& output_placeholder(c.drvs[key], "out"@) matches Ok(ph) && passes(
                c.script()->Ok_0,
                "--extern"@,
                name + "="@ + ph + "/"@ + output_file(c.us[c.idx[key] as int]),
            )
        }),
        0 <= n < c.u.all_dep_keys.len() && c.drvs.contains_key(c.u.all_dep_keys[n]) ==> ({
            &&& output_placeholder(c.drvs[c.u.all_dep_keys[n]], "out"@) matches Ok(ph) && passes(
                c.script()->Ok_0,
                "-L"@,
                "dependency="@ + ph,
            )
        }),
        0 <= n < c.remaps.len() && c.remaps[n].0.len() > 0 ==> passes(
            c.script()->Ok_0,
            "--remap-path-prefix"@,
            quoted(c.src_store + "/"@ + c.remaps[n].0 + "="@ + c.remaps[n].1),
        ),
{
    broadcast use group_adjacent;

    let fixed = doc_fixed_args(c.u, c.sysroot, c.private_items, c.remaps, c.src_store);
    if 0 <= n < c.u.crate_types.len() {
        let t = c.u.crate_types[n];
        lemma_flagged("--crate-type"@, ""@, c.u.crate_types, n);
        reveal_strlit("");
        assert(""@ + t =~= t);
        assert(adjacent(fixed, "--crate-type"@, t));
        assert(adjacent(c.arguments(), "--crate-type"@, t));
        lemma_doc_passed(c, "--crate-type"@, t);
    }
    if 0 <= n < c.u.features.len() {
        let f = quoted("feature=\""@ + c.u.features[n] + "\""@);
        lemma_features(c.u.features, n);
        assert(adjacent(fixed, "--cfg"@, f));
        assert(adjacent(c.arguments(), "--cfg"@, f));
        lemma_doc_passed(c, "--cfg"@, f);
    }
    if 0 <= n < c.u.dep_extern.len() && c.drvs.contains_key(c.u.dep_extern[n].1) {
        let (name, key) = c.u.dep_extern[n];
        lemma_externs(c.us, c.idx, c.drvs, c.u.dep_extern, n);
        let ph = output_placeholder(c.drvs[key], "out"@)->Ok_0;
        let arg = name + "="@ + ph + "/"@ + output_file(c.us[c.idx[key] as int]);
        assert(adjacent(c.arguments(), "--extern"@, arg));
        lemma_doc_passed(c, "--extern"@, arg);
    }
    if 0 <= n < c.u.all_dep_keys.len() && c.drvs.contains_key(c.u.all_dep_keys[n]) {
        lemma_searches(c.drvs, c.u.all_dep_keys, n);
        let ph = output_placeholder(c.drvs[c.u.all_dep_keys[n]], "out"@)->Ok_0;
        assert(adjacent(c.arguments(), "-L"@, "dependency="@ + ph));
        lemma_doc_passed(c, "-L"@, "dependency="@ + ph);
    }
    if 0 <= n < c.remaps.len() && c.remaps[n].0.len() > 0 {
        let e = c.remaps[n];
        lemma_sorted_remaps(c.remaps, e);
        assert(c.remaps.contains(e));
        let sorted = sort_remaps(c.remaps);
        let k = choose|k: int| 0 <= k < sorted.len() && sorted[k] == e;
        lemma_remap_flags(sorted, c.src_store, c.u.sliced_crate_rel, k);
        let arg = quoted(remap_rule(e, c.src_store, c.u.sliced_crate_rel));
        assert(adjacent(fixed, "--remap-path-prefix"@, arg));
        assert(adjacent(c.arguments(), "--remap-path-prefix"@, arg));
        lemma_doc_passed(c, "--remap-path-prefix"@, arg);
    }
}

/// Before rustdoc runs, every variable of cargo's is exported, the manifest's directory
/// is, the directory of the pages is made, and the setup scripts are sourced; unstable
/// options are unlocked where paths are mapped. What rustdoc says is kept and shown, and
/// its exit code is the script's.
#[verifier::spinoff_prover]
#[verifier::rlimit(60)]
pub proof fn law_rustdoc_is_set_up(c: DocInputs, n: int)
    requires
        c.script() is Ok,
    ensures
        ({
            let s = c.script()->Ok_0;
            let driver = quoted(c.rustdoc_path) + " "@;
            let made = quoted(c.coreutils_bin_dir + "/mkdir"@) + " -p $out/doc && "@;
            &&& 0 <= n < c.u.cargo_envs.len() ==> in_turn(
                s,
                "export "@ + c.u.cargo_envs[n].0 + "="@ + quoted(c.u.cargo_envs[n].1) + " && "@,
                driver,
            )
            &&& in_turn(
                s,
                "export CARGO_MANIFEST_DIR="@ + quoted(c.u.manifest_dir) + " && "@,
                driver,
            )
            &&& in_turn(s, made, driver)
            &&& 0 <= n < c.setup.len() ==> in_turn(s, made, ". "@ + quoted(c.setup[n]) + " && "@)
            &&& 0 <= n < c.setup.len() ==> in_turn(s, ". "@ + quoted(c.setup[n]) + " && "@, driver)
            &&& c.remaps.len() > 0 ==> in_turn(s, "export RUSTC_BOOTSTRAP=1 && "@, driver)
            &&& ends(
                s,
                " $EXTRA_ARGS 2>$out/diagnostics; __rs=$?; "@ + quoted(
                    c.coreutils_bin_dir + "/cat"@,
                ) + " $out/diagnostics >&2; exit $__rs"@,
            )
        }),
{
    let s = c.script()->Ok_0;
    let u = c.u;
    let prelude = c.prelude();
    let driver = quoted(c.rustdoc_path) + " "@;
    let tail = " $EXTRA_ARGS 2>$out/diagnostics; __rs=$?; "@ + quoted(
        c.coreutils_bin_dir + "/cat"@,
    ) + " $out/diagnostics >&2; exit $__rs"@;
    let rest = driver + (join_seq(c.arguments(), " "@) + tail);
    assert(s =~= prelude + rest);
    assert(rest.take(driver.len() as int) =~= driver);
    lemma_starts_holds(rest, driver);
    assert(s.skip(s.len() - tail.len()) =~= tail);
    let made = quoted(c.coreutils_bin_dir + "/mkdir"@) + " -p $out/doc && "@;
    let manifest = "export CARGO_MANIFEST_DIR="@ + quoted(u.manifest_dir) + " && "@;
    let unlock = if remap_args_seq(c.remaps, c.src_store, u.sliced_crate_rel).len() > 0 {
        "export RUSTC_BOOTSTRAP=1 && "@
    } else {
        Seq::empty()
    };
    let own = own_script_part(u, c.drvs, true)->Ok_0;
    let start = "EXTRA_ARGS=\"\" && "@;
    let envs = exports(u.cargo_envs);
    let setup = setup_fragment(c.setup);
    let head = start + unlock + own;
    assert(prelude =~= head + envs + manifest + made + setup);
    if 0 <= n < u.cargo_envs.len() {
        let e = "export "@ + u.cargo_envs[n].0 + "="@ + quoted(u.cargo_envs[n].1) + " && "@;
        lemma_exported(u.cargo_envs, n);
        lemma_holds_behind(head, envs, e);
        lemma_holds_before(head + envs, manifest, e);
        lemma_holds_before(head + envs + manifest, made, e);
        lemma_holds_before(head + envs + manifest + made, setup, e);
        lemma_in_turn(prelude, rest, e, driver);
    }
    lemma_holds_itself(manifest);
    lemma_holds_behind(head + envs, manifest, manifest);
    lemma_holds_before(head + envs + manifest, made, manifest);
    lemma_holds_before(head + envs + manifest + made, setup, manifest);
    lemma_in_turn(prelude, rest, manifest, driver);
    lemma_holds_itself(made);
    lemma_holds_behind(head + envs + manifest, made, made);
    lemma_holds_before(head + envs + manifest + made, setup, made);
    lemma_in_turn(prelude, rest, made, driver);
    if 0 <= n < c.setup.len() {
        let e = ". "@ + quoted(c.setup[n]) + " && "@;
        let aux = "export SCHNEE_AUX_DIR=$out/schnee-aux && "@;
        lemma_sourced(c.setup, n);
        lemma_holds_behind(aux, source_commands(c.setup), e);
        lemma_holds_behind(head + envs + manifest + made, setup, e);
        lemma_in_turn(prelude, rest, e, driver);
        lemma_in_turn(head + envs + manifest + made, setup, made, e);
        lemma_in_turn_before(prelude, rest, made, e);
    }
    if c.remaps.len() > 0 {
        lemma_sorted_remaps(c.remaps, c.remaps[0]);
        lemma_remap_flags(sort_remaps(c.remaps), c.src_store, u.sliced_crate_rel, 0);
        lemma_holds_itself(unlock);
        lemma_holds_behind(start, unlock, unlock);
        lemma_holds_before(start + unlock, own, unlock);
        lemma_holds_before(head, envs, unlock);
        lemma_holds_before(head + envs, manifest, unlock);
        lemma_holds_before(head + envs + manifest, made, unlock);
        lemma_holds_before(head + envs + manifest + made, setup, unlock);
        lemma_in_turn(prelude, rest, unlock, driver);
    }
}

} // verus!
