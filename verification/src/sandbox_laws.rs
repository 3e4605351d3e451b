//! What the sandbox of a unit holds: the sources that are mounted into it, and the
//! derivations whose outputs it reads.
use crate::derivation::{
    env_json, input_drv_json, input_drvs, input_drvs_json, input_keys, is_linted, linked_scripts,
    outputs_json, tool_sources, unit_derivation, unit_sources, BuildTools,
};
use crate::graph::{firsts, opt_seq, seconds};
use crate::json::{
    array_field, field, lemma_lookup_at, lookup, object_field, text_array, text_field, JsonView,
};
use crate::placeholder::own_placeholder;
use crate::planner::lemma_built_parts;
use crate::text::{lemma_sorted_set, occurs, strictly_sorted, views};
use crate::units::{opt_view, UnitKind, UnitView};
use crate::util::{ends_name, name_end, store_path_at, store_roots};
use vstd::prelude::*;

verus! {

/// A derivation has a source mounted.
pub open spec fn mounts(d: JsonView, path: Seq<char>) -> bool {
    array_field(d, "inputSrcs"@) is Some && array_field(d, "inputSrcs"@)->0.contains(
        JsonView::Text(path),
    )
}

/// A derivation reads an output of another.
pub open spec fn takes(d: JsonView, drv: Seq<char>, output: Seq<char>) -> bool {
    &&& object_field(d, "inputDrvs"@) is Some
    &&& lookup(object_field(d, "inputDrvs"@)->0, drv) matches Some(taken) && array_field(
        taken,
        "outputs"@,
    ) == Some(seq![JsonView::Text(output)])
}

proof fn lemma_mounted(
    u: UnitView,
    us: Seq<UnitView>,
    idx: Map<Seq<char>, usize>,
    drvs: Map<Seq<char>, Seq<char>>,
    t: BuildTools,
    cc_closure: Seq<Seq<char>>,
    script: Seq<char>,
)
    ensures
        forall|p: Seq<char>| #[trigger]
            mounts(unit_derivation(u, us, idx, drvs, t, cc_closure, script), p) <==> unit_sources(
                u,
                t,
                cc_closure,
                script,
            ).contains(p),
{
    let srcs = unit_sources(u, t, cc_closure, script);
    let d = unit_derivation(u, us, idx, drvs, t, cc_closure, script);
    lemma_built_parts(
        u.drv_name,
        t.system@,
        t.bash_path@,
        script,
        input_drvs(drvs, input_keys(u, us, idx)),
        srcs,
    );
    let v = text_array(srcs)->Array_0;
    assert(array_field(d, "inputSrcs"@) == Some(v));
    assert forall|p: Seq<char>| #[trigger] mounts(d, p) <==> srcs.contains(p) by {
        if srcs.contains(p) {
            let i = choose|i: int| 0 <= i < srcs.len() && srcs[i] == p;
            assert(v[i] == JsonView::Text(p));
        }
        if v.contains(JsonView::Text(p)) {
            let i = choose|i: int| 0 <= i < v.len() && v[i] == JsonView::Text(p);
            assert(srcs[i] == p);
        }
    }
}

/// What is mounted for every unit: the compiler's closure, the core utilities and the
/// shell; for one that is linked, and for the run of a build script, also the closures of
/// the C compiler and of the system's libraries, and the vendored sources; for one that
/// is linked for the target the Windows libraries; for the run of a build script what is
/// passed through; and for a crate of the project that is linted the lint driver's closure.
pub proof fn law_tools_are_mounted(
    u: UnitView,
    us: Seq<UnitView>,
    idx: Map<Seq<char>, usize>,
    drvs: Map<Seq<char>, Seq<char>>,
    t: BuildTools,
    cc_closure: Seq<Seq<char>>,
    script: Seq<char>,
    p: Seq<char>,
)
    ensures
        ({
            let d = unit_derivation(u, us, idx, drvs, t, cc_closure, script);
            let run = u.kind == UnitKind::BuildScriptRun;
            &&& views(t.rustc_closure@).contains(p) ==> mounts(d, p)
            &&& mounts(d, t.coreutils_store@)
            &&& mounts(d, t.bash_store@)
            &&& u.needs_linker && cc_closure.contains(p) ==> mounts(d, p)
            &&& u.needs_linker && views(t.sys_build_closure@).contains(p) ==> mounts(d, p)
            &&& run && cc_closure.contains(p) ==> mounts(d, p)
            &&& run && views(t.sys_build_closure@).contains(p) ==> mounts(d, p)
            &&& u.needs_linker && !u.for_host && views(t.win_sdk_closure@).contains(p) ==> mounts(
                d,
                p,
            )
            &&& u.needs_linker && t.vendor_store@.len() > 0 ==> mounts(d, t.vendor_store@)
            &&& run && t.vendor_store@.len() > 0 ==> mounts(d, t.vendor_store@)
            &&& run && views(t.passthru_closure@).contains(p) ==> mounts(d, p)
            &&& t.clippy_path is Some && u.is_local && !run && u.kind != UnitKind::Doc && views(
                t.clippy_closure@,
            ).contains(p) ==> mounts(d, p)
        }),
{
    broadcast use vstd::seq_lib::lemma_seq_concat_contains_all_elements;

    let d = unit_derivation(u, us, idx, drvs, t, cc_closure, script);
    let tools = lemma_tools(u, t, cc_closure, script);
    lemma_mounted(u, us, idx, drvs, t, cc_closure, script);
    let pair = seq![t.coreutils_store@, t.bash_store@];
    assert(pair[0] == t.coreutils_store@ && pair[1] == t.bash_store@);
    assert(pair.contains(t.coreutils_store@) && pair.contains(t.bash_store@));
    assert(tools.contains(t.coreutils_store@) && tools.contains(t.bash_store@));
    assert(mounts(d, t.coreutils_store@) && mounts(d, t.bash_store@));
    let vendor = seq![t.vendor_store@];
    assert(vendor[0] == t.vendor_store@);
    assert(mounts(d, p) <==> unit_sources(u, t, cc_closure, script).contains(p));
    assert(mounts(d, t.vendor_store@) <==> unit_sources(u, t, cc_closure, script).contains(
        t.vendor_store@,
    ));
}

proof fn lemma_tools(
    u: UnitView,
    t: BuildTools,
    cc_closure: Seq<Seq<char>>,
    script: Seq<char>,
) -> (tools: Seq<Seq<char>>)
    ensures
        tools == tool_sources(
            u,
            views(t.rustc_closure@),
            is_linted(u, opt_view(t.clippy_path)),
            views(t.clippy_closure@),
            t.coreutils_store@,
            t.bash_store@,
            cc_closure,
            views(t.sys_build_closure@),
            views(t.win_sdk_closure@),
            t.vendor_store@,
            views(t.passthru_closure@),
        ),
        strictly_sorted(unit_sources(u, t, cc_closure, script)),
        forall|p: Seq<char>| #[trigger]
            unit_sources(u, t, cc_closure, script).contains(p) <==> tools.contains(p)
                || store_roots(script, script.len()).contains(p),
{
    broadcast use vstd::seq_lib::lemma_seq_concat_contains_all_elements;

    let tools = tool_sources(
        u,
        views(t.rustc_closure@),
        is_linted(u, opt_view(t.clippy_path)),
        views(t.clippy_closure@),
        t.coreutils_store@,
        t.bash_store@,
        cc_closure,
        views(t.sys_build_closure@),
        views(t.win_sdk_closure@),
        t.vendor_store@,
        views(t.passthru_closure@),
    );
    let all = tools + store_roots(script, script.len());
    lemma_sorted_set(all);
    assert forall|p: Seq<char>| #[trigger]
        unit_sources(u, t, cc_closure, script).contains(p) <==> tools.contains(p) || store_roots(
            script,
            script.len(),
        ).contains(p) by {
        assert(all.contains(p) <==> tools.contains(p) || store_roots(
            script,
            script.len(),
        ).contains(p));
    }
    tools
}

/// Nothing else is mounted: what is neither of these closures nor of a tool is a store
/// path that the script mentions. Each source is mounted once, in order.
pub proof fn law_nothing_else_is_mounted(
    u: UnitView,
    us: Seq<UnitView>,
    idx: Map<Seq<char>, usize>,
    drvs: Map<Seq<char>, Seq<char>>,
    t: BuildTools,
    cc_closure: Seq<Seq<char>>,
    script: Seq<char>,
    p: Seq<char>,
)
    requires
        mounts(unit_derivation(u, us, idx, drvs, t, cc_closure, script), p),
    ensures
        ({
            let run = u.kind == UnitKind::BuildScriptRun;
            ||| views(t.rustc_closure@).contains(p)
            ||| p == t.coreutils_store@
            ||| p == t.bash_store@
            ||| (u.needs_linker || run) && (cc_closure.contains(p) || views(
                t.sys_build_closure@,
            ).contains(p) || (p == t.vendor_store@ && p.len() > 0))
            ||| u.needs_linker && !u.for_host && views(t.win_sdk_closure@).contains(p)
            ||| run && views(t.passthru_closure@).contains(p)
            ||| t.clippy_path is Some && u.is_local && !run && u.kind != UnitKind::Doc && views(
                t.clippy_closure@,
            ).contains(p)
            ||| exists|i: int|
                #[trigger] store_path_at(script, i) && p == script.subrange(
                    i,
                    name_end(script, i + 44),
                )
        }),
        array_field(unit_derivation(u, us, idx, drvs, t, cc_closure, script), "inputSrcs"@) == Some(
            text_array(unit_sources(u, t, cc_closure, script))->Array_0,
        ),
        strictly_sorted(unit_sources(u, t, cc_closure, script)),
{
    broadcast use vstd::seq_lib::lemma_seq_concat_contains_all_elements;

    let tools = lemma_tools(u, t, cc_closure, script);
    lemma_mounted(u, us, idx, drvs, t, cc_closure, script);
    lemma_built_parts(
        u.drv_name,
        t.system@,
        t.bash_path@,
        script,
        input_drvs(drvs, input_keys(u, us, idx)),
        unit_sources(u, t, cc_closure, script),
    );
    if store_roots(script, script.len()).contains(p) {
        lemma_root_origin(script, script.len(), p);
    } else {
        assert(tools.contains(p));
    }
}

proof fn lemma_root_origin(script: Seq<char>, n: nat, p: Seq<char>) -> (i: int)
    requires
        store_roots(script, n).contains(p),
    ensures
        store_path_at(script, i),
        p == script.subrange(i, name_end(script, i + 44)),
    decreases n,
{
    let before = store_roots(script, (n - 1) as nat);
    let all = store_roots(script, n);
    let k = choose|k: int| 0 <= k < all.len() && all[k] == p;
    if k < before.len() {
        assert(before[k] == p);
        lemma_root_origin(script, (n - 1) as nat, p)
    } else {
        n - 1
    }
}

proof fn lemma_root_found(script: Seq<char>, n: nat, i: int)
    requires
        0 <= i < n <= script.len(),
        store_path_at(script, i),
    ensures
        store_roots(script, n).contains(script.subrange(i, name_end(script, i + 44))),
    decreases n,
{
    let p = script.subrange(i, name_end(script, i + 44));
    let before = store_roots(script, (n - 1) as nat);
    let all = store_roots(script, n);
    if i == n - 1 {
        assert(all[before.len() as int] == p);
    } else {
        lemma_root_found(script, (n - 1) as nat, i);
        let k = choose|k: int| 0 <= k < before.len() && before[k] == p;
        assert(all[k] == p);
    }
}

/// Every store path in the script is mounted: where a store directory, a hash of 32
/// characters and a dash stand, the path up to the character that ends its name.
pub proof fn law_paths_of_script_are_mounted(
    u: UnitView,
    us: Seq<UnitView>,
    idx: Map<Seq<char>, usize>,
    drvs: Map<Seq<char>, Seq<char>>,
    t: BuildTools,
    cc_closure: Seq<Seq<char>>,
    script: Seq<char>,
    i: int,
)
    requires
        0 <= i,
        i + 44 <= script.len(),
        script.subrange(i, i + 11) == "/nix/store/"@,
        forall|k: int|
            i + 11 <= k < i + 43 ==> "0123456789abcdfghijklmnpqrsvwxyz"@.contains(
                #[trigger] script[k],
            ),
        script[i + 43] == '-',
    ensures
        exists|e: int|
            i + 44 <= e <= script.len() && (e == script.len() || ends_a_name(script[e])) && (forall|
                k: int,
            | i + 44 <= k < e ==> !ends_a_name(#[trigger] script[k])) && #[trigger] mounts(
                unit_derivation(u, us, idx, drvs, t, cc_closure, script),
                script.subrange(i, e),
            ),
{
    reveal_strlit("/nix/store/");
    let tools = lemma_tools(u, t, cc_closure, script);
    lemma_mounted(u, us, idx, drvs, t, cc_closure, script);
    assert(occurs(script, "/nix/store/"@, i));
    assert(store_path_at(script, i));
    lemma_root_found(script, script.len(), i);
    let e = name_end(script, i + 44);
    lemma_name_ends(script, i + 44);
    assert(mounts(
        unit_derivation(u, us, idx, drvs, t, cc_closure, script),
        script.subrange(i, e),
    ));
}

/// The characters behind the name of a store path in a script.
pub open spec fn ends_a_name(c: char) -> bool {
    "/ \"')"@.contains(c)
}

proof fn lemma_name_ends(s: Seq<char>, i: int)
    requires
        i <= s.len(),
    ensures
        i <= name_end(s, i) <= s.len(),
        name_end(s, i) == s.len() || ends_a_name(s[name_end(s, i)]),
        forall|k: int| i <= k < name_end(s, i) ==> !ends_a_name(#[trigger] s[k]),
    decreases s.len() - i,
{
    reveal_strlit("/ \"')");
    let all = "/ \"')"@;
    assert(all[0] == '/' && all[1] == ' ' && all[2] == '"' && all[3] == '\'' && all[4] == ')');
    if i < s.len() && !ends_name(s[i]) {
        lemma_name_ends(s, i + 1);
    }
}

// ---------------------------------------------------------------------------
// Inputs
// ---------------------------------------------------------------------------

proof fn lemma_input_found(drvs: Map<Seq<char>, Seq<char>>, keys: Seq<Seq<char>>, d: Seq<char>)
    ensures
        input_drvs(drvs, keys).contains(d) <==> exists|k: int|
            0 <= k < keys.len() && drvs.contains_key(#[trigger] keys[k]) && drvs[keys[k]] == d,
        forall|i: int, j: int|
            0 <= i < j < input_drvs(drvs, keys).len() ==> #[trigger] input_drvs(drvs, keys)[i]
                != #[trigger] input_drvs(drvs, keys)[j],
    decreases keys.len(),
{
    if keys.len() > 0 {
        let rest = keys.drop_last();
        lemma_input_found(drvs, rest, d);
        let before = input_drvs(drvs, rest);
        let all = input_drvs(drvs, keys);
        let last = keys.len() - 1;
        if before.contains(d) {
            let k = choose|k: int|
                0 <= k < rest.len() && drvs.contains_key(#[trigger] rest[k]) && drvs[rest[k]] == d;
            assert(keys[k] == rest[k]);
            let i = choose|i: int| 0 <= i < before.len() && before[i] == d;
            assert(all[i] == d);
        }
        if all.contains(d) && !before.contains(d) {
            let i = choose|i: int| 0 <= i < all.len() && all[i] == d;
            if i < before.len() {
                assert(before[i] == d);
            }
            assert(drvs.contains_key(keys[last]) && drvs[keys[last]] == d);
        }
        if exists|k: int|
            0 <= k < keys.len() && drvs.contains_key(#[trigger] keys[k]) && drvs[keys[k]] == d {
            let k = choose|k: int|
                0 <= k < keys.len() && drvs.contains_key(#[trigger] keys[k]) && drvs[keys[k]] == d;
            if k < last {
                assert(rest[k] == keys[k]);
            } else if !before.contains(d) {
                assert(all[before.len() as int] == d);
            }
        }
        assert forall|i: int, j: int| 0 <= i < j < all.len() implies #[trigger] all[i]
            != #[trigger] all[j] by {
            if j < before.len() {
                assert(before[i] == all[i] && before[j] == all[j]);
            } else {
                assert(before[i] == all[i]);
                assert(before.contains(all[i]));
            }
        }
    }
}

proof fn lemma_taken(
    u: UnitView,
    us: Seq<UnitView>,
    idx: Map<Seq<char>, usize>,
    drvs: Map<Seq<char>, Seq<char>>,
    t: BuildTools,
    cc_closure: Seq<Seq<char>>,
    script: Seq<char>,
    d: Seq<char>,
)
    ensures
        takes(unit_derivation(u, us, idx, drvs, t, cc_closure, script), d, "out"@) <==> input_drvs(
            drvs,
            input_keys(u, us, idx),
        ).contains(d),
{
    let inputs = input_drvs(drvs, input_keys(u, us, idx));
    let j = unit_derivation(u, us, idx, drvs, t, cc_closure, script);
    lemma_built_parts(
        u.drv_name,
        t.system@,
        t.bash_path@,
        script,
        inputs,
        unit_sources(u, t, cc_closure, script),
    );
    let m = input_drvs_json(inputs)->Object_0;
    assert(object_field(j, "inputDrvs"@) == Some(m));
    lemma_input_found(drvs, input_keys(u, us, idx), d);
    let taken = input_drv_json();
    let inner = taken->Object_0;
    reveal_strlit("dynamicOutputs");
    reveal_strlit("outputs");
    assert(inner[0].0[0] == 'd' && inner[1].0[0] == 'o');
    lemma_lookup_at(inner, 1);
    assert(text_array(seq!["out"@])->Array_0 =~= seq![JsonView::Text("out"@)]);
    assert(array_field(taken, "outputs"@) == Some(seq![JsonView::Text("out"@)]));
    if inputs.contains(d) {
        let i = choose|i: int| 0 <= i < inputs.len() && inputs[i] == d;
        assert forall|k: int| 0 <= k < i implies (#[trigger] m[k]).0 != m[i].0 by {
            assert(inputs[k] != inputs[i]);
        }
        lemma_lookup_at(m, i);
    } else {
        lemma_not_member(m, d);
    }
}

proof fn lemma_not_member(m: Seq<(Seq<char>, JsonView)>, d: Seq<char>)
    requires
        forall|i: int| 0 <= i < m.len() ==> (#[trigger] m[i]).0 != d,
    ensures
        lookup(m, d) is None,
    decreases m.len(),
{
    if m.len() > 0 {
        assert(m[0].0 != d);
        assert forall|i: int| 0 <= i < m.drop_first().len() implies (#[trigger] m.drop_first()[i]).0
            != d by {
            assert(m.drop_first()[i] == m[i + 1]);
        }
        lemma_not_member(m.drop_first(), d);
    }
}

/// The unit with key `k` is one whose output a unit reads: a direct or transitive
/// dependency, its build script's run or compilation, or a build script it is linked to;
/// or, for a unit that is linked, the run of a transitive dependency's build script.
pub open spec fn reads_unit(
    u: UnitView,
    us: Seq<UnitView>,
    idx: Map<Seq<char>, usize>,
    k: Seq<char>,
) -> bool {
    ||| exists|i: int| 0 <= i < u.dep_extern.len() && (#[trigger] u.dep_extern[i]).1 == k
    ||| u.all_dep_keys.contains(k)
    ||| u.build_script_dep == Some(k)
    ||| u.build_script_compile_key == Some(k)
    ||| exists|i: int| 0 <= i < u.links_dep_keys.len() && (#[trigger] u.links_dep_keys[i]).0 == k
    ||| u.needs_linker && u.kind != UnitKind::BuildScriptRun && exists|i: int|
        0 <= i < u.all_dep_keys.len() && idx.contains_key(#[trigger] u.all_dep_keys[i])
            && us[idx[u.all_dep_keys[i]] as int].build_script_dep == Some(k)
}

proof fn lemma_scripts_found(
    us: Seq<UnitView>,
    idx: Map<Seq<char>, usize>,
    keys: Seq<Seq<char>>,
    k: Seq<char>,
)
    ensures
        linked_scripts(us, idx, keys).contains(k) <==> exists|i: int|
            0 <= i < keys.len() && idx.contains_key(#[trigger] keys[i]) && us[idx[keys[i]] as int].build_script_dep
                == Some(k),
    decreases keys.len(),
{
    broadcast use vstd::seq_lib::lemma_seq_concat_contains_all_elements;

    if keys.len() > 0 {
        let rest = keys.drop_last();
        lemma_scripts_found(us, idx, rest, k);
        let last = keys.last();
        assert(keys[keys.len() - 1] == last);
        if linked_scripts(us, idx, rest).contains(k) {
            let i = choose|i: int|
                0 <= i < rest.len() && idx.contains_key(#[trigger] rest[i])
                    && us[idx[rest[i]] as int].build_script_dep == Some(k);
            assert(keys[i] == rest[i]);
        }
        if exists|i: int|
            0 <= i < keys.len() && idx.contains_key(#[trigger] keys[i])
                && us[idx[keys[i]] as int].build_script_dep == Some(k) {
            let i = choose|i: int|
                0 <= i < keys.len() && idx.contains_key(#[trigger] keys[i])
                    && us[idx[keys[i]] as int].build_script_dep == Some(k);
            if i < rest.len() {
                assert(rest[i] == keys[i]);
            }
        }
        if idx.contains_key(last) {
            lemma_opt_contains(us[idx[last] as int].build_script_dep, k);
        }
    }
}

proof fn lemma_opt_contains(o: Option<Seq<char>>, k: Seq<char>)
    ensures
        opt_seq(o).contains(k) <==> o == Some(k),
{
    if o == Some(k) {
        assert(opt_seq(o)[0] == k);
    }
}

proof fn lemma_keys_found(
    u: UnitView,
    us: Seq<UnitView>,
    idx: Map<Seq<char>, usize>,
    k: Seq<char>,
)
    ensures
        input_keys(u, us, idx).contains(k) <==> reads_unit(u, us, idx, k),
{
    broadcast use vstd::seq_lib::lemma_seq_concat_contains_all_elements;

    lemma_scripts_found(us, idx, u.all_dep_keys, k);
    lemma_opt_contains(u.build_script_dep, k);
    lemma_opt_contains(u.build_script_compile_key, k);
    let a = seconds(u.dep_extern);
    let b = firsts(u.links_dep_keys);
    if a.contains(k) {
        let i = choose|i: int| 0 <= i < a.len() && a[i] == k;
        assert(u.dep_extern[i].1 == k);
    }
    if exists|i: int| 0 <= i < u.dep_extern.len() && (#[trigger] u.dep_extern[i]).1 == k {
        let i = choose|i: int| 0 <= i < u.dep_extern.len() && (#[trigger] u.dep_extern[i]).1 == k;
        assert(a[i] == k);
    }
    if b.contains(k) {
        let i = choose|i: int| 0 <= i < b.len() && b[i] == k;
        assert(u.links_dep_keys[i].0 == k);
    }
    if exists|i: int| 0 <= i < u.links_dep_keys.len() && (#[trigger] u.links_dep_keys[i]).0 == k {
        let i = choose|i: int|
            0 <= i < u.links_dep_keys.len() && (#[trigger] u.links_dep_keys[i]).0 == k;
        assert(b[i] == k);
    }
}

/// A derivation reads the output of exactly those units that the unit depends on and that
/// have a derivation.
pub proof fn law_reads_its_dependencies(
    u: UnitView,
    us: Seq<UnitView>,
    idx: Map<Seq<char>, usize>,
    drvs: Map<Seq<char>, Seq<char>>,
    t: BuildTools,
    cc_closure: Seq<Seq<char>>,
    script: Seq<char>,
    d: Seq<char>,
)
    ensures
        takes(unit_derivation(u, us, idx, drvs, t, cc_closure, script), d, "out"@) <==> exists|
            k: Seq<char>,
        | drvs.contains_key(k) && drvs[k] == d && #[trigger] reads_unit(u, us, idx, k),
{
    let keys = input_keys(u, us, idx);
    lemma_taken(u, us, idx, drvs, t, cc_closure, script, d);
    lemma_input_found(drvs, keys, d);
    if input_drvs(drvs, keys).contains(d) {
        let i = choose|i: int|
            0 <= i < keys.len() && drvs.contains_key(#[trigger] keys[i]) && drvs[keys[i]] == d;
        lemma_keys_found(u, us, idx, keys[i]);
        assert(keys.contains(keys[i]));
    }
    if exists|k: Seq<char>|
        drvs.contains_key(k) && drvs[k] == d && #[trigger] reads_unit(u, us, idx, k) {
        let k = choose|k: Seq<char>|
            drvs.contains_key(k) && drvs[k] == d && #[trigger] reads_unit(u, us, idx, k);
        lemma_keys_found(u, us, idx, k);
        let i = choose|i: int| 0 <= i < keys.len() && keys[i] == k;
        assert(drvs.contains_key(keys[i]));
    }
}

/// A derivation bears the unit's name, is for the system, and has the shell run the
/// script. Its one output is addressed by its contents, and it is built where it is
/// registered.
pub proof fn law_runs_the_script(
    u: UnitView,
    us: Seq<UnitView>,
    idx: Map<Seq<char>, usize>,
    drvs: Map<Seq<char>, Seq<char>>,
    t: BuildTools,
    cc_closure: Seq<Seq<char>>,
    script: Seq<char>,
)
    ensures
        ({
            let d = unit_derivation(u, us, idx, drvs, t, cc_closure, script);
            &&& text_field(d, "name"@) == Some(u.drv_name)
            &&& text_field(d, "system"@) == Some(t.system@)
            &&& text_field(d, "builder"@) == Some(t.bash_path@)
            &&& array_field(d, "args"@) == Some(
                seq![JsonView::Text("-c"@), JsonView::Text(script)],
            )
            &&& field(d, "outputs"@) matches Some(outs) && field(outs, "out"@) matches Some(out)
                && text_field(out, "hashAlgo"@) == Some("sha256"@) && text_field(out, "method"@)
                == Some("nar"@)
            &&& field(d, "env"@) matches Some(env) && text_field(env, "out"@) == Some(
                own_placeholder("out"@),
            ) && text_field(env, "preferLocalBuild"@) == Some("1"@) && text_field(
                env,
                "allowSubstitutes"@,
            ) == Some(""@)
        }),
{
    let inputs = input_drvs(drvs, input_keys(u, us, idx));
    let srcs = unit_sources(u, t, cc_closure, script);
    let d = unit_derivation(u, us, idx, drvs, t, cc_closure, script);
    lemma_built_parts(u.drv_name, t.system@, t.bash_path@, script, inputs, srcs);
    lemma_lookup_at(d->Object_0, 0);
    assert(text_array(seq!["-c"@, script])->Array_0 =~= seq![
        JsonView::Text("-c"@),
        JsonView::Text(script),
    ]);
    let outs = outputs_json();
    let out = outs->Object_0[0].1;
    let env = env_json();
    reveal_strlit("hashAlgo");
    reveal_strlit("method");
    reveal_strlit("out");
    reveal_strlit("preferLocalBuild");
    reveal_strlit("allowSubstitutes");
    lemma_lookup_at(outs->Object_0, 0);
    lemma_lookup_at(out->Object_0, 0);
    assert(out->Object_0[0].0[0] == 'h' && out->Object_0[1].0[0] == 'm');
    lemma_lookup_at(out->Object_0, 1);
    let e = env->Object_0;
    assert(e[0].0[0] == 'o' && e[1].0[0] == 'p' && e[2].0[0] == 'a');
    lemma_lookup_at(e, 0);
    lemma_lookup_at(e, 1);
    lemma_lookup_at(e, 2);
}

} // verus!
