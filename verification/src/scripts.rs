//! The shell scripts that run in the sandbox of a unit.
use crate::hash::{sha256, sha256_digest};
use crate::nix_encoding::{hex_lower, hex_seq};
use crate::placeholder::{
    downstream_placeholder, drv_sliceable, output_placeholder, text_view, TextResult,
};
use crate::strmap::{StrMap, TextMap};
use crate::text::{has_substring, join, join_seq, owned, same, views};
use crate::units::{
    list_has, opt_view, output_file, pair_views, unit_views, NixUnit, ProfileConfig, TargetConfig,
    UnitKind, UnitView,
};
use crate::util::{quoted, shell_quote};
use vstd::prelude::*;
use vstd::utf8::*;

verus! {

// ---------------------------------------------------------------------------
// Arguments
// ---------------------------------------------------------------------------

/// Arguments, or the message of why there are none.
pub type ArgsResult = Result<Seq<Seq<char>>, Seq<char>>;

/// Adds an argument.
pub fn push_arg(parts: &mut Vec<String>, s: &str)
    ensures
        views(final(parts)@) == views(old(parts)@).push(s@),
{
    parts.push(owned(s));
    assert(views(parts@) =~= views(old(parts)@).push(s@));
}

/// Adds an argument.
pub fn push_string(parts: &mut Vec<String>, s: String)
    ensures
        views(final(parts)@) == views(old(parts)@).push(s@),
{
    parts.push(s);
    assert(views(parts@) =~= views(old(parts)@).push(s@));
}

/// Adds two arguments.
pub fn push_two(parts: &mut Vec<String>, a: &str, b: &str)
    ensures
        views(final(parts)@) == views(old(parts)@) + seq![a@, b@],
{
    push_arg(parts, a);
    push_arg(parts, b);
    assert(views(parts@) =~= views(old(parts)@) + seq![a@, b@]);
}

/// Two texts one behind the other.
pub fn concat2(a: &str, b: &str) -> (r: String)
    ensures
        r@ == a@ + b@,
{
    let mut r = owned(a);
    r.append(b);
    r
}

/// The first arguments of a compiler: source file, sysroot, name and edition.
pub open spec fn head_args(u: UnitView, sysroot: Seq<char>) -> Seq<Seq<char>> {
    seq![
        quoted(u.source_file),
        "--sysroot"@,
        sysroot,
        "--crate-name"@,
        u.crate_name,
        "--edition"@,
        u.edition,
    ]
}

fn add_head_args(unit: &NixUnit, sysroot: &str) -> (parts: Vec<String>)
    ensures
        views(parts@) == head_args(unit@, sysroot@),
{
    let mut parts: Vec<String> = Vec::new();
    push_string(&mut parts, shell_quote(unit.source_file.as_str()));
    push_arg(&mut parts, "--sysroot");
    push_arg(&mut parts, sysroot);
    push_arg(&mut parts, "--crate-name");
    push_arg(&mut parts, unit.crate_name.as_str());
    push_arg(&mut parts, "--edition");
    push_arg(&mut parts, unit.edition.as_str());
    assert(views(parts@) =~= head_args(unit@, sysroot@));
    parts
}

/// Two arguments for each text: a flag and the text behind a prefix.
pub open spec fn flagged(flag: Seq<char>, prefix: Seq<char>, v: Seq<Seq<char>>) -> Seq<Seq<char>>
    decreases v.len(),
{
    if v.len() == 0 {
        Seq::empty()
    } else {
        flagged(flag, prefix, v.drop_last()) + seq![flag, prefix + v.last()]
    }
}

fn add_flagged(parts: &mut Vec<String>, flag: &str, prefix: &str, v: &Vec<String>)
    ensures
        views(final(parts)@) == views(old(parts)@) + flagged(flag@, prefix@, views(v@)),
{
    let ghost start = views(parts@);
    let ghost vs = views(v@);
    let mut i: usize = 0;
    assert(start + flagged(flag@, prefix@, vs.take(0)) =~= start);
    while i < v.len()
        invariant
            i <= v@.len(),
            vs == views(v@),
            views(parts@) == start + flagged(flag@, prefix@, vs.take(i as int)),
        decreases v@.len() - i,
    {
        assert(vs.take(i + 1).drop_last() =~= vs.take(i as int));
        let arg = concat2(prefix, v[i].as_str());
        push_two(parts, flag, arg.as_str());
        assert(views(parts@) =~= start + flagged(flag@, prefix@, vs.take(i + 1)));
        i = i + 1;
    }
    assert(vs.take(v@.len() as int) =~= vs);
}

/// The arguments of a compilation for another target: the target and, for a
/// linked unit, its linker.
pub open spec fn cross_args(
    u: UnitView,
    target: TargetConfig,
    cc_bin_dir: Seq<char>,
    win_sdk_lib_dirs: Seq<Seq<char>>,
) -> Seq<Seq<char>> {
    let triple = target.target_triple@;
    if target.host_triple@ == triple || u.for_host {
        Seq::empty()
    } else if !u.needs_linker {
        seq!["--target"@, triple]
    } else if has_substring(triple, "msvc"@) {
        seq![
            "--target"@,
            triple,
            "-C"@,
            "linker="@ + cc_bin_dir + "/lld-link"@,
            "-C"@,
            "target-feature=+crt-static"@,
        ] + flagged("-L"@, "native="@, win_sdk_lib_dirs)
    } else {
        seq!["--target"@, triple, "-C"@, "linker="@ + cc_bin_dir + "/"@ + triple + "-gcc"@]
    }
}

fn add_cross_args(
    parts: &mut Vec<String>,
    unit: &NixUnit,
    target: &TargetConfig,
    cc_bin_dir: &str,
    win_sdk_lib_dirs: &Vec<String>,
)
    ensures
        views(final(parts)@) == views(old(parts)@) + cross_args(
            unit@,
            *target,
            cc_bin_dir@,
            views(win_sdk_lib_dirs@),
        ),
{
    let ghost start = views(parts@);
    if target.is_cross() && !unit.for_host {
        push_two(parts, "--target", target.target_triple.as_str());
        if unit.needs_linker {
            if target.is_msvc() {
                let mut linker = concat2("linker=", cc_bin_dir);
                linker.append("/lld-link");
                push_two(parts, "-C", linker.as_str());
                push_two(parts, "-C", "target-feature=+crt-static");
                let ghost before = views(parts@);
                add_flagged(parts, "-L", "native=", win_sdk_lib_dirs);
                let ghost libs = flagged("-L"@, "native="@, views(win_sdk_lib_dirs@));
                assert(before =~= start + seq![
                    "--target"@,
                    target.target_triple@,
                    "-C"@,
                    "linker="@ + cc_bin_dir@ + "/lld-link"@,
                    "-C"@,
                    "target-feature=+crt-static"@,
                ]);
                assert(views(parts@) =~= start + (seq![
                    "--target"@,
                    target.target_triple@,
                    "-C"@,
                    "linker="@ + cc_bin_dir@ + "/lld-link"@,
                    "-C"@,
                    "target-feature=+crt-static"@,
                ] + libs));
            } else {
                let mut linker = concat2("linker=", cc_bin_dir);
                linker.append("/");
                linker.append(target.target_triple.as_str());
                linker.append("-gcc");
                push_two(parts, "-C", linker.as_str());
                assert(views(parts@) =~= start + seq![
                    "--target"@,
                    target.target_triple@,
                    "-C"@,
                    "linker="@ + cc_bin_dir@ + "/"@ + target.target_triple@ + "-gcc"@,
                ]);
            }
        }
    } else {
        assert(start + Seq::<Seq<char>>::empty() =~= start);
    }
}

/// The features as configuration options.
pub open spec fn feature_args(features: Seq<Seq<char>>) -> Seq<Seq<char>>
    decreases features.len(),
{
    if features.len() == 0 {
        Seq::empty()
    } else {
        feature_args(features.drop_last()) + seq![
            "--cfg"@,
            quoted("feature=\""@ + features.last() + "\""@),
        ]
    }
}

fn add_feature_args(parts: &mut Vec<String>, features: &Vec<String>)
    ensures
        views(final(parts)@) == views(old(parts)@) + feature_args(views(features@)),
{
    let ghost start = views(parts@);
    let ghost fs = views(features@);
    let mut i: usize = 0;
    assert(start + feature_args(fs.take(0)) =~= start);
    while i < features.len()
        invariant
            i <= features@.len(),
            fs == views(features@),
            views(parts@) == start + feature_args(fs.take(i as int)),
        decreases features@.len() - i,
    {
        assert(fs.take(i + 1).drop_last() =~= fs.take(i as int));
        let mut f = concat2("feature=\"", features[i].as_str());
        f.append("\"");
        let q = shell_quote(f.as_str());
        push_two(parts, "--cfg", q.as_str());
        assert(views(parts@) =~= start + feature_args(fs.take(i + 1)));
        i = i + 1;
    }
    assert(fs.take(features@.len() as int) =~= fs);
}

/// What a unit emits: metadata only when checked, no metadata for a proc-macro.
pub open spec fn emit_kinds(u: UnitView) -> Seq<char> {
    if u.kind == UnitKind::Check {
        "dep-info,metadata"@
    } else if u.crate_types.contains("proc-macro"@) {
        "dep-info,link"@
    } else {
        "dep-info,metadata,link"@
    }
}

/// The arguments of a proc-macro crate.
pub open spec fn proc_macro_args(u: UnitView) -> Seq<Seq<char>> {
    if u.crate_types.contains("proc-macro"@) {
        seq!["--extern"@, "proc_macro"@, "-C"@, "prefer-dynamic"@]
    } else {
        Seq::empty()
    }
}

/// The argument of a unit with the test harness.
pub open spec fn test_args(u: UnitView) -> Seq<Seq<char>> {
    if u.kind == UnitKind::TestCompile || u.compile_test {
        seq!["--test"@]
    } else {
        Seq::empty()
    }
}

/// The argument that silences lints of dependencies.
pub open spec fn lint_args(u: UnitView) -> Seq<Seq<char>> {
    if u.is_local {
        Seq::empty()
    } else {
        seq!["--cap-lints"@, "allow"@]
    }
}

/// The arguments that a profile gives.
pub open spec fn profile_args(profile: ProfileConfig) -> Seq<Seq<char>> {
    (if profile.opt_level@ != "0"@ {
        seq!["-C"@, "opt-level="@ + profile.opt_level@]
    } else {
        Seq::empty()
    }) + (if !profile.debug_info {
        seq!["-C"@, "debuginfo=0"@]
    } else {
        Seq::empty()
    })
}

/// The arguments of a compilation up to its dependencies.
#[verifier::opaque]
pub open spec fn fixed_args(
    u: UnitView,
    sysroot: Seq<char>,
    target: TargetConfig,
    cc_bin_dir: Seq<char>,
    win_sdk_lib_dirs: Seq<Seq<char>>,
    profile: ProfileConfig,
) -> Seq<Seq<char>> {
    head_args(u, sysroot) + cross_args(u, target, cc_bin_dir, win_sdk_lib_dirs) + flagged(
        "--crate-type"@,
        ""@,
        u.crate_types,
    ) + proc_macro_args(u) + test_args(u) + seq![
        "--emit"@,
        emit_kinds(u),
        "--out-dir"@,
        "$out"@,
    ] + feature_args(u.features) + lint_args(u) + seq![
        "--error-format=json"@,
        "--json=diagnostic-rendered-ansi"@,
        "-C"@,
        "extra-filename="@ + u.extra_filename,
        "-C"@,
        "metadata="@ + u.extra_filename.drop_first(),
    ] + profile_args(profile)
}

/// The extra file name begins with a character of one byte, its dash.
pub open spec fn extra_filename_ok(u: UnitView) -> bool {
    u.extra_filename.len() > 0 && (u.extra_filename[0] as u32) < 128
}

/// What follows the dash of an extra file name.
fn metadata_of(unit: &NixUnit) -> (r: String)
    requires
        extra_filename_ok(unit@),
    ensures
        r@ == "metadata="@ + unit@.extra_filename.drop_first(),
{
    let n: usize = unit.extra_filename.as_str().unicode_len();
    let rest = unit.extra_filename.as_str().substring_char(1, n);
    assert(rest@ =~= unit.extra_filename@.drop_first());
    concat2("metadata=", rest)
}

fn add_lint_args(parts: &mut Vec<String>, unit: &NixUnit)
    ensures
        views(final(parts)@) == views(old(parts)@) + lint_args(unit@),
{
    if !unit.is_local {
        push_two(parts, "--cap-lints", "allow");
    }
    assert(views(parts@) =~= views(old(parts)@) + lint_args(unit@));
}

fn add_proc_macro_args(parts: &mut Vec<String>, unit: &NixUnit)
    ensures
        views(final(parts)@) == views(old(parts)@) + proc_macro_args(unit@),
{
    if list_has(&unit.crate_types, "proc-macro") {
        push_two(parts, "--extern", "proc_macro");
        push_two(parts, "-C", "prefer-dynamic");
    }
    assert(views(parts@) =~= views(old(parts)@) + proc_macro_args(unit@));
}

fn add_test_args(parts: &mut Vec<String>, unit: &NixUnit)
    ensures
        views(final(parts)@) == views(old(parts)@) + test_args(unit@),
{
    if unit.kind == UnitKind::TestCompile || unit.compile_test {
        push_arg(parts, "--test");
    }
    assert(views(parts@) =~= views(old(parts)@) + test_args(unit@));
}

fn add_profile_args(parts: &mut Vec<String>, profile: &ProfileConfig)
    ensures
        views(final(parts)@) == views(old(parts)@) + profile_args(*profile),
{
    if !same(profile.opt_level, "0") {
        let o = concat2("opt-level=", profile.opt_level);
        push_two(parts, "-C", o.as_str());
    }
    if !profile.debug_info {
        push_two(parts, "-C", "debuginfo=0");
    }
    assert(views(parts@) =~= views(old(parts)@) + profile_args(*profile));
}

fn build_fixed_args(
    unit: &NixUnit,
    sysroot: &str,
    target: &TargetConfig,
    cc_bin_dir: &str,
    win_sdk_lib_dirs: &Vec<String>,
    profile: &ProfileConfig,
) -> (parts: Vec<String>)
    requires
        extra_filename_ok(unit@),
    ensures
        views(parts@) == fixed_args(
            unit@,
            sysroot@,
            *target,
            cc_bin_dir@,
            views(win_sdk_lib_dirs@),
            *profile,
        ),
{
    proof {
        reveal(fixed_args);
    }
    let mut parts = add_head_args(unit, sysroot);
    add_cross_args(&mut parts, unit, target, cc_bin_dir, win_sdk_lib_dirs);
    add_flagged(&mut parts, "--crate-type", "", &unit.crate_types);
    add_proc_macro_args(&mut parts, unit);
    add_test_args(&mut parts, unit);
    let ghost before = views(parts@);
    let emit = if unit.kind == UnitKind::Check {
        "dep-info,metadata"
    } else if list_has(&unit.crate_types, "proc-macro") {
        "dep-info,link"
    } else {
        "dep-info,metadata,link"
    };
    push_two(&mut parts, "--emit", emit);
    push_two(&mut parts, "--out-dir", "$out");
    assert(views(parts@) =~= before + seq![
        "--emit"@,
        emit_kinds(unit@),
        "--out-dir"@,
        "$out"@,
    ]);
    add_feature_args(&mut parts, &unit.features);
    add_lint_args(&mut parts, unit);
    let ghost before = views(parts@);
    push_two(&mut parts, "--error-format=json", "--json=diagnostic-rendered-ansi");
    let extra = concat2("extra-filename=", unit.extra_filename.as_str());
    push_two(&mut parts, "-C", extra.as_str());
    let meta = metadata_of(unit);
    push_two(&mut parts, "-C", meta.as_str());
    assert(views(parts@) =~= before + seq![
        "--error-format=json"@,
        "--json=diagnostic-rendered-ansi"@,
        "-C"@,
        "extra-filename="@ + unit@.extra_filename,
        "-C"@,
        "metadata="@ + unit@.extra_filename.drop_first(),
    ]);
    add_profile_args(&mut parts, profile);
    parts
}

// ---------------------------------------------------------------------------
// Dependencies
// ---------------------------------------------------------------------------

/// Every position in the index is that of a unit, and the hash and name of every
/// derivation's path can be cut out of it.
pub open spec fn plan_ok(us: Seq<UnitView>, idx: Map<Seq<char>, usize>, drvs: Map<Seq<char>, Seq<char>>) -> bool {
    &&& forall|k: Seq<char>| #[trigger] idx.contains_key(k) ==> idx[k] < us.len()
    &&& forall|k: Seq<char>| #[trigger] drvs.contains_key(k) ==> drv_sliceable(drvs[k])
}

/// Every direct dependency that was registered is a unit of the index.
pub open spec fn deps_known(
    u: UnitView,
    idx: Map<Seq<char>, usize>,
    drvs: Map<Seq<char>, Seq<char>>,
) -> bool {
    forall|k: int|
        0 <= k < u.dep_extern.len() && drvs.contains_key((#[trigger] u.dep_extern[k]).1)
            ==> idx.contains_key(u.dep_extern[k].1)
}

/// The arguments that link the direct dependencies. One that was not registered
/// is left out.
pub open spec fn extern_args(
    us: Seq<UnitView>,
    idx: Map<Seq<char>, usize>,
    drvs: Map<Seq<char>, Seq<char>>,
    deps: Seq<(Seq<char>, Seq<char>)>,
) -> ArgsResult
    decreases deps.len(),
{
    if deps.len() == 0 {
        Ok(Seq::empty())
    } else {
        match extern_args(us, idx, drvs, deps.drop_last()) {
            Err(e) => Err(e),
            Ok(v) => {
                let d = deps.last();
                if !drvs.contains_key(d.1) {
                    Ok(v)
                } else {
                    match output_placeholder(drvs[d.1], "out"@) {
                        Err(e) => Err(e),
                        Ok(ph) => Ok(
                            v + seq![
                                "--extern"@,
                                d.0 + "="@ + ph + "/"@ + output_file(us[idx[d.1] as int]),
                            ],
                        ),
                    }
                }
            },
        }
    }
}

/// The arguments that put all transitive dependencies on the search path.
pub open spec fn search_args(drvs: Map<Seq<char>, Seq<char>>, keys: Seq<Seq<char>>) -> ArgsResult
    decreases keys.len(),
{
    if keys.len() == 0 {
        Ok(Seq::empty())
    } else {
        match search_args(drvs, keys.drop_last()) {
            Err(e) => Err(e),
            Ok(v) => {
                let k = keys.last();
                if !drvs.contains_key(k) {
                    Ok(v)
                } else {
                    match output_placeholder(drvs[k], "out"@) {
                        Err(e) => Err(e),
                        Ok(ph) => Ok(v + seq!["-L"@, "dependency="@ + ph]),
                    }
                }
            },
        }
    }
}

proof fn lemma_extern_args_err(
    us: Seq<UnitView>,
    idx: Map<Seq<char>, usize>,
    drvs: Map<Seq<char>, Seq<char>>,
    deps: Seq<(Seq<char>, Seq<char>)>,
    n: int,
)
    requires
        0 <= n <= deps.len(),
        extern_args(us, idx, drvs, deps.take(n)) is Err,
    ensures
        extern_args(us, idx, drvs, deps) == extern_args(us, idx, drvs, deps.take(n)),
    decreases deps.len(),
{
    if n == deps.len() {
        assert(deps.take(n) =~= deps);
    } else {
        assert(deps.drop_last().take(n) =~= deps.take(n));
        lemma_extern_args_err(us, idx, drvs, deps.drop_last(), n);
    }
}

proof fn lemma_search_args_err(drvs: Map<Seq<char>, Seq<char>>, keys: Seq<Seq<char>>, n: int)
    requires
        0 <= n <= keys.len(),
        search_args(drvs, keys.take(n)) is Err,
    ensures
        search_args(drvs, keys) == search_args(drvs, keys.take(n)),
    decreases keys.len(),
{
    if n == keys.len() {
        assert(keys.take(n) =~= keys);
    } else {
        assert(keys.drop_last().take(n) =~= keys.take(n));
        lemma_search_args_err(drvs, keys.drop_last(), n);
    }
}

/// What a function that adds arguments returned.
pub open spec fn args_view(r: Result<Vec<String>, String>) -> ArgsResult {
    match r {
        Ok(v) => Ok(views(v@)),
        Err(e) => Err(e@),
    }
}

fn build_extern_args(
    unit: &NixUnit,
    units: &Vec<NixUnit>,
    key_to_idx: &StrMap<usize>,
    dep_drv_map: &TextMap,
) -> (r: Result<Vec<String>, String>)
    requires
        plan_ok(unit_views(units@), key_to_idx@, dep_drv_map@),
        deps_known(unit@, key_to_idx@, dep_drv_map@),
    ensures
        args_view(r) == extern_args(
            unit_views(units@),
            key_to_idx@,
            dep_drv_map@,
            unit@.dep_extern,
        ),
{
    let ghost us = unit_views(units@);
    let ghost idx = key_to_idx@;
    let ghost drvs = dep_drv_map@;
    let ghost deps = unit@.dep_extern;
    let mut parts: Vec<String> = Vec::new();
    let mut i: usize = 0;
    assert(views(parts@) =~= Seq::empty());
    while i < unit.dep_extern.len()
        invariant
            us == unit_views(units@),
            idx == key_to_idx@,
            drvs == dep_drv_map@,
            plan_ok(us, idx, drvs),
            deps_known(unit@, idx, drvs),
            deps == unit@.dep_extern,
            deps.len() == unit.dep_extern@.len(),
            i <= deps.len(),
            extern_args(us, idx, drvs, deps.take(i as int)) == ArgsResult::Ok(views(parts@)),
        decreases deps.len() - i,
    {
        assert(deps.take(i + 1).drop_last() =~= deps.take(i as int));
        let key = unit.dep_extern[i].1.as_str();
        assert(deps[i as int] == (unit.dep_extern@[i as int].0@, key@));
        if let Some(drv) = dep_drv_map.get(key) {
            match downstream_placeholder(drv.as_str(), "out") {
                Err(e) => {
                    proof {
                        lemma_extern_args_err(us, idx, drvs, deps, i + 1);
                    }
                    return Err(e);
                },
                Ok(ph) => {
                    match key_to_idx.get(key) {
                        None => {
                            assert(false);
                        },
                        Some(j) => {
                            let file = units[*j].output_lib_filename();
                            let mut arg = unit.dep_extern[i].0.clone();
                            arg.append("=");
                            arg.append(ph.as_str());
                            arg.append("/");
                            arg.append(file.as_str());
                            push_two(&mut parts, "--extern", arg.as_str());
                        },
                    }
                },
            }
        }
        i = i + 1;
    }
    assert(deps.take(deps.len() as int) =~= deps);
    Ok(parts)
}

fn build_search_args(keys: &Vec<String>, dep_drv_map: &TextMap) -> (r: Result<
    Vec<String>,
    String,
>)
    requires
        forall|k: Seq<char>| #[trigger]
            dep_drv_map@.contains_key(k) ==> drv_sliceable(dep_drv_map@[k]),
    ensures
        args_view(r) == search_args(dep_drv_map@, views(keys@)),
{
    let ghost drvs = dep_drv_map@;
    let ghost ks = views(keys@);
    let mut parts: Vec<String> = Vec::new();
    let mut i: usize = 0;
    assert(views(parts@) =~= Seq::empty());
    while i < keys.len()
        invariant
            drvs == dep_drv_map@,
            forall|k: Seq<char>| #[trigger] drvs.contains_key(k) ==> drv_sliceable(drvs[k]),
            ks == views(keys@),
            i <= keys@.len(),
            search_args(drvs, ks.take(i as int)) == ArgsResult::Ok(views(parts@)),
        decreases keys@.len() - i,
    {
        assert(ks.take(i + 1).drop_last() =~= ks.take(i as int));
        if let Some(drv) = dep_drv_map.get(keys[i].as_str()) {
            match downstream_placeholder(drv.as_str(), "out") {
                Err(e) => {
                    proof {
                        lemma_search_args_err(drvs, ks, i + 1);
                    }
                    return Err(e);
                },
                Ok(ph) => {
                    let arg = concat2("dependency=", ph.as_str());
                    push_two(&mut parts, "-L", arg.as_str());
                },
            }
        }
        i = i + 1;
    }
    assert(ks.take(ks.len() as int) =~= ks);
    Ok(parts)
}

// ---------------------------------------------------------------------------
// Path remapping
// ---------------------------------------------------------------------------

/// A rule put behind every one whose path is not longer than its own.
pub open spec fn insert_remap(
    s: Seq<(Seq<char>, Seq<char>)>,
    e: (Seq<char>, Seq<char>),
) -> Seq<(Seq<char>, Seq<char>)>
    decreases s.len(),
{
    if s.len() == 0 {
        seq![e]
    } else if encode_utf8(e.0).len() < encode_utf8(s.last().0).len() {
        insert_remap(s.drop_last(), e).push(s.last())
    } else {
        s.push(e)
    }
}

/// The rules by the length of their paths, the shortest first.
pub open spec fn sort_remaps(s: Seq<(Seq<char>, Seq<char>)>) -> Seq<(Seq<char>, Seq<char>)>
    decreases s.len(),
{
    if s.len() == 0 {
        Seq::empty()
    } else {
        insert_remap(sort_remaps(s.drop_last()), s.last())
    }
}

/// One remapping rule: the path below the source, and what replaces it. Where the
/// source was cut down to a crate, the rule for the whole source leads to the
/// crate's place in the workspace.
pub open spec fn remap_rule(
    e: (Seq<char>, Seq<char>),
    src_store: Seq<char>,
    sliced: Option<Seq<char>>,
) -> Seq<char> {
    let from = if e.0.len() == 0 {
        src_store
    } else {
        src_store + "/"@ + e.0
    };
    let to = match sliced {
        Some(rel) if e.0.len() == 0 => e.1 + "/"@ + rel,
        _ => e.1,
    };
    from + "="@ + to
}

/// The arguments for rules in the given order.
pub open spec fn remap_flags(
    rules: Seq<(Seq<char>, Seq<char>)>,
    src_store: Seq<char>,
    sliced: Option<Seq<char>>,
) -> Seq<Seq<char>>
    decreases rules.len(),
{
    if rules.len() == 0 {
        Seq::empty()
    } else {
        remap_flags(rules.drop_last(), src_store, sliced) + seq![
            "--remap-path-prefix"@,
            quoted(remap_rule(rules.last(), src_store, sliced)),
        ]
    }
}

/// The arguments for all rules, the shortest path first: of several that match,
/// rustc takes the last.
pub open spec fn remap_args_seq(
    remaps: Seq<(Seq<char>, Seq<char>)>,
    src_store: Seq<char>,
    sliced: Option<Seq<char>>,
) -> Seq<Seq<char>> {
    remap_flags(sort_remaps(remaps), src_store, sliced)
}

proof fn lemma_insert_remap_at(
    s: Seq<(Seq<char>, Seq<char>)>,
    e: (Seq<char>, Seq<char>),
    p: int,
)
    requires
        0 <= p <= s.len(),
        forall|j: int|
            p <= j < s.len() ==> encode_utf8(e.0).len() < encode_utf8((#[trigger] s[j]).0).len(),
        p > 0 ==> !(encode_utf8(e.0).len() < encode_utf8(s[p - 1].0).len()),
    ensures
        insert_remap(s, e) == s.insert(p, e),
    decreases s.len(),
{
    if s.len() == 0 {
        assert(s.insert(p, e) =~= seq![e]);
    } else if p == s.len() {
        assert(s.insert(p, e) =~= s.push(e));
    } else {
        lemma_insert_remap_at(s.drop_last(), e, p);
        assert(s.insert(p, e) =~= s.drop_last().insert(p, e).push(s.last()));
    }
}

fn sorted_remaps(remaps: &Vec<(String, String)>) -> (r: Vec<(String, String)>)
    ensures
        pair_views(r@) == sort_remaps(pair_views(remaps@)),
{
    let ghost rs = pair_views(remaps@);
    let mut r: Vec<(String, String)> = Vec::new();
    let mut i: usize = 0;
    assert(pair_views(r@) =~= sort_remaps(rs.take(0)));
    while i < remaps.len()
        invariant
            i <= remaps@.len(),
            rs == pair_views(remaps@),
            pair_views(r@) == sort_remaps(rs.take(i as int)),
        decreases remaps@.len() - i,
    {
        assert(rs.take(i + 1).drop_last() =~= rs.take(i as int));
        let ghost before = pair_views(r@);
        let ghost e = rs[i as int];
        let n: usize = remaps[i].0.as_str().as_bytes().len();
        let mut p: usize = r.len();
        while p > 0 && n < r[p - 1].0.as_str().as_bytes().len()
            invariant
                p <= r@.len(),
                before == pair_views(r@),
                n == encode_utf8(e.0).len(),
                forall|j: int|
                    p <= j < r@.len() ==> encode_utf8(e.0).len() < encode_utf8(
                        (#[trigger] before[j]).0,
                    ).len(),
            decreases p,
        {
            p = p - 1;
        }
        proof {
            lemma_insert_remap_at(before, e, p as int);
        }
        r.insert(p, (remaps[i].0.clone(), remaps[i].1.clone()));
        assert(pair_views(r@) =~= before.insert(p as int, e));
        i = i + 1;
    }
    assert(rs.take(rs.len() as int) =~= rs);
    r
}

/// The characters of an optional string slice.
pub open spec fn opt_str(o: Option<&str>) -> Option<Seq<char>> {
    match o {
        Some(s) => Some(s@),
        None => None,
    }
}

/// Builds the `--remap-path-prefix` arguments of a unit. The rules are given
/// relative to the project's source; `src_store` is the unit's own.
pub fn remap_args(
    path_prefix_remaps: &Vec<(String, String)>,
    src_store: &str,
    sliced_crate_rel: Option<&str>,
) -> (r: Vec<String>)
    ensures
        views(r@) == remap_args_seq(
            pair_views(path_prefix_remaps@),
            src_store@,
            opt_str(sliced_crate_rel),
        ),
{
    let sorted = sorted_remaps(path_prefix_remaps);
    let ghost rs = pair_views(sorted@);
    let ghost sliced = opt_str(sliced_crate_rel);
    let mut r: Vec<String> = Vec::new();
    let mut i: usize = 0;
    assert(views(r@) =~= remap_flags(rs.take(0), src_store@, sliced));
    while i < sorted.len()
        invariant
            i <= sorted@.len(),
            rs == pair_views(sorted@),
            sliced == opt_str(sliced_crate_rel),
            views(r@) == remap_flags(rs.take(i as int), src_store@, sliced),
        decreases sorted@.len() - i,
    {
        assert(rs.take(i + 1).drop_last() =~= rs.take(i as int));
        let root = sorted[i].0.as_str().is_empty();
        let mut rule = owned(src_store);
        if !root {
            rule.append("/");
            rule.append(sorted[i].0.as_str());
        }
        let mut to = sorted[i].1.clone();
        match sliced_crate_rel {
            Some(rel) => {
                if root {
                    to.append("/");
                    to.append(rel);
                }
            },
            None => {},
        }
        rule.append("=");
        rule.append(to.as_str());
        assert(rule@ == remap_rule(rs[i as int], src_store@, sliced));
        let q = shell_quote(rule.as_str());
        push_two(&mut r, "--remap-path-prefix", q.as_str());
        i = i + 1;
    }
    assert(rs.take(rs.len() as int) =~= rs);
    r
}

/// The optional string of a unit as a slice.
fn as_opt_str<'a>(o: &'a Option<String>) -> (r: Option<&'a str>)
    ensures
        opt_str(r) == opt_view(*o),
{
    match o {
        Some(s) => Some(s.as_str()),
        None => None,
    }
}

/// The given arguments, quoted.
pub open spec fn quoted_all(v: Seq<Seq<char>>) -> Seq<Seq<char>> {
    Seq::new(v.len(), |i: int| quoted(v[i]))
}

fn quote_all(v: &Vec<String>) -> (r: Vec<String>)
    ensures
        views(r@) == quoted_all(views(v@)),
{
    let mut r: Vec<String> = Vec::new();
    let mut i: usize = 0;
    while i < v.len()
        invariant
            i <= v@.len(),
            r@.len() == i,
            forall|j: int| 0 <= j < i ==> (#[trigger] r@[j])@ == quoted(v@[j]@),
        decreases v@.len() - i,
    {
        r.push(shell_quote(v[i].as_str()));
        i = i + 1;
    }
    assert(views(r@) =~= quoted_all(views(v@)));
    r
}

/// Appends strings to a list.
fn extend(r: &mut Vec<String>, more: Vec<String>)
    ensures
        views(final(r)@) == views(old(r)@) + views(more@),
{
    let mut more = more;
    let ghost m = more@;
    r.append(&mut more);
    assert(views(r@) =~= views(old(r)@) + views(m));
}

// ---------------------------------------------------------------------------
// Fragments
// ---------------------------------------------------------------------------

/// The commands that source the scripts.
pub open spec fn source_commands(scripts: Seq<Seq<char>>) -> Seq<char>
    decreases scripts.len(),
{
    if scripts.len() == 0 {
        Seq::empty()
    } else {
        source_commands(scripts.drop_last()) + (". "@ + quoted(scripts.last()) + " && "@)
    }
}

/// The fragment that sources the setup scripts; empty without any, so that units
/// which no rule matches stay as they are.
pub open spec fn setup_fragment(scripts: Seq<Seq<char>>) -> Seq<char> {
    if scripts.len() == 0 {
        Seq::empty()
    } else {
        "export SCHNEE_AUX_DIR=$out/schnee-aux && "@ + source_commands(scripts)
    }
}

/// The shell fragment that sources each setup script in rule order, with
/// `SCHNEE_AUX_DIR`, the unit's channel for auxiliary output, exported first.
pub fn setup_source_fragment(setup_scripts: &Vec<String>) -> (r: String)
    ensures
        r@ == setup_fragment(views(setup_scripts@)),
{
    if setup_scripts.len() == 0 {
        return String::new();
    }
    let ghost ss = views(setup_scripts@);
    let mut s = owned("export SCHNEE_AUX_DIR=$out/schnee-aux && ");
    let ghost head = s@;
    let mut i: usize = 0;
    assert(head + source_commands(ss.take(0)) =~= head);
    while i < setup_scripts.len()
        invariant
            i <= setup_scripts@.len(),
            ss == views(setup_scripts@),
            s@ == head + source_commands(ss.take(i as int)),
        decreases setup_scripts@.len() - i,
    {
        assert(ss.take(i + 1).drop_last() =~= ss.take(i as int));
        let ghost before = s@;
        let q = shell_quote(setup_scripts[i].as_str());
        s.append(". ");
        s.append(q.as_str());
        s.append(" && ");
        assert(s@ =~= head + source_commands(ss.take(i + 1)));
        i = i + 1;
    }
    assert(ss.take(ss.len() as int) =~= ss);
    s
}

/// The commands that export variables.
pub open spec fn exports(envs: Seq<(Seq<char>, Seq<char>)>) -> Seq<char>
    decreases envs.len(),
{
    if envs.len() == 0 {
        Seq::empty()
    } else {
        exports(envs.drop_last()) + ("export "@ + envs.last().0 + "="@ + quoted(envs.last().1)
            + " && "@)
    }
}

pub fn add_exports(script: &mut String, envs: &Vec<(String, String)>)
    ensures
        final(script)@ == old(script)@ + exports(pair_views(envs@)),
{
    let ghost start = script@;
    let ghost es = pair_views(envs@);
    let mut i: usize = 0;
    assert(start + exports(es.take(0)) =~= start);
    while i < envs.len()
        invariant
            i <= envs@.len(),
            es == pair_views(envs@),
            script@ == start + exports(es.take(i as int)),
        decreases envs@.len() - i,
    {
        assert(es.take(i + 1).drop_last() =~= es.take(i as int));
        let q = shell_quote(envs[i].1.as_str());
        script.append("export ");
        script.append(envs[i].0.as_str());
        script.append("=");
        script.append(q.as_str());
        script.append(" && ");
        assert(script@ =~= start + exports(es.take(i + 1)));
        i = i + 1;
    }
    assert(es.take(es.len() as int) =~= es);
}

/// Reads the directives of the unit's own build script.
pub open spec fn own_directives(ph: Seq<char>) -> Seq<char> {
    "export OUT_DIR="@ + ph + "/out_dir && if [ -f "@ + ph
        + "/output ]; then while IFS= read -r line; do case \"$line\" in cargo:rustc-cfg=*) EXTRA_ARGS=\"$EXTRA_ARGS --cfg ${line#cargo:rustc-cfg=}\" ;; cargo:rustc-env=*) kv=\"${line#cargo:rustc-env=}\"; export \"${kv%%=*}=${kv#*=}\" ;; cargo:rustc-link-lib=*) EXTRA_ARGS=\"$EXTRA_ARGS -l ${line#cargo:rustc-link-lib=}\" ;; cargo:rustc-link-search=*) EXTRA_ARGS=\"$EXTRA_ARGS -L ${line#cargo:rustc-link-search=}\" ;; esac; done < "@
        + ph + "/output; fi && "@
}

fn own_directives_text(ph: &str) -> (r: String)
    ensures
        r@ == own_directives(ph@),
{
    let mut r = owned("export OUT_DIR=");
    r.append(ph);
    r.append("/out_dir && if [ -f ");
    r.append(ph);
    r.append(
        "/output ]; then while IFS= read -r line; do case \"$line\" in cargo:rustc-cfg=*) EXTRA_ARGS=\"$EXTRA_ARGS --cfg ${line#cargo:rustc-cfg=}\" ;; cargo:rustc-env=*) kv=\"${line#cargo:rustc-env=}\"; export \"${kv%%=*}=${kv#*=}\" ;; cargo:rustc-link-lib=*) EXTRA_ARGS=\"$EXTRA_ARGS -l ${line#cargo:rustc-link-lib=}\" ;; cargo:rustc-link-search=*) EXTRA_ARGS=\"$EXTRA_ARGS -L ${line#cargo:rustc-link-search=}\" ;; esac; done < ",
    );
    r.append(ph);
    r.append("/output; fi && ");
    r
}

/// Reads the directives of the build script that concern documentation.
pub open spec fn doc_directives(ph: Seq<char>) -> Seq<char> {
    "export OUT_DIR="@ + ph + "/out_dir && if [ -f "@ + ph
        + "/output ]; then while IFS= read -r line; do case \"$line\" in cargo:rustc-cfg=*) EXTRA_ARGS=\"$EXTRA_ARGS --cfg ${line#cargo:rustc-cfg=}\" ;; cargo:rustc-env=*) kv=\"${line#cargo:rustc-env=}\"; export \"${kv%%=*}=${kv#*=}\" ;; esac; done < "@
        + ph + "/output; fi && "@
}

fn doc_directives_text(ph: &str) -> (r: String)
    ensures
        r@ == doc_directives(ph@),
{
    let mut r = owned("export OUT_DIR=");
    r.append(ph);
    r.append("/out_dir && if [ -f ");
    r.append(ph);
    r.append(
        "/output ]; then while IFS= read -r line; do case \"$line\" in cargo:rustc-cfg=*) EXTRA_ARGS=\"$EXTRA_ARGS --cfg ${line#cargo:rustc-cfg=}\" ;; cargo:rustc-env=*) kv=\"${line#cargo:rustc-env=}\"; export \"${kv%%=*}=${kv#*=}\" ;; esac; done < ",
    );
    r.append(ph);
    r.append("/output; fi && ");
    r
}

/// Reads the link directives of a dependency's build script.
pub open spec fn link_directives(ph: Seq<char>) -> Seq<char> {
    "if [ -f "@ + ph
        + "/output ]; then while IFS= read -r line; do case \"$line\" in cargo:rustc-link-lib=*) EXTRA_ARGS=\"$EXTRA_ARGS -l ${line#cargo:rustc-link-lib=}\" ;; cargo:rustc-link-search=*) EXTRA_ARGS=\"$EXTRA_ARGS -L ${line#cargo:rustc-link-search=}\" ;; esac; done < "@
        + ph + "/output; fi && "@
}

fn link_directives_text(ph: &str) -> (r: String)
    ensures
        r@ == link_directives(ph@),
{
    let mut r = owned("if [ -f ");
    r.append(ph);
    r.append(
        "/output ]; then while IFS= read -r line; do case \"$line\" in cargo:rustc-link-lib=*) EXTRA_ARGS=\"$EXTRA_ARGS -l ${line#cargo:rustc-link-lib=}\" ;; cargo:rustc-link-search=*) EXTRA_ARGS=\"$EXTRA_ARGS -L ${line#cargo:rustc-link-search=}\" ;; esac; done < ",
    );
    r.append(ph);
    r.append("/output; fi && ");
    r
}

/// The directives of the unit's own build script, if it has one that was
/// registered.
pub open spec fn own_script_part(
    u: UnitView,
    drvs: Map<Seq<char>, Seq<char>>,
    doc: bool,
) -> TextResult {
    match u.build_script_dep {
        Some(k) if drvs.contains_key(k) => match output_placeholder(drvs[k], "out"@) {
            Err(e) => Err(e),
            Ok(ph) => Ok(
                if doc {
                    doc_directives(ph)
                } else {
                    own_directives(ph)
                },
            ),
        },
        _ => Ok(Seq::empty()),
    }
}

fn own_script_text(unit: &NixUnit, dep_drv_map: &TextMap, doc: bool) -> (r: Result<
    String,
    String,
>)
    requires
        forall|k: Seq<char>| #[trigger]
            dep_drv_map@.contains_key(k) ==> drv_sliceable(dep_drv_map@[k]),
    ensures
        text_view(r) == own_script_part(unit@, dep_drv_map@, doc),
{
    match &unit.build_script_dep {
        None => Ok(String::new()),
        Some(k) => match dep_drv_map.get(k.as_str()) {
            None => Ok(String::new()),
            Some(drv) => match downstream_placeholder(drv.as_str(), "out") {
                Err(e) => Err(e),
                Ok(ph) => Ok(
                    if doc {
                        doc_directives_text(ph.as_str())
                    } else {
                        own_directives_text(ph.as_str())
                    },
                ),
            },
        },
    }
}

/// The build script of a transitive dependency, unless it is the unit's own.
pub open spec fn foreign_script(
    u: UnitView,
    us: Seq<UnitView>,
    idx: Map<Seq<char>, usize>,
    key: Seq<char>,
) -> Option<Seq<char>> {
    if !idx.contains_key(key) {
        None
    } else {
        match us[idx[key] as int].build_script_dep {
            Some(k) if u.build_script_dep != Some(k) => Some(k),
            _ => None,
        }
    }
}

/// The link directives of all transitive dependencies, which a linked unit
/// needs.
pub open spec fn foreign_parts(
    u: UnitView,
    us: Seq<UnitView>,
    idx: Map<Seq<char>, usize>,
    drvs: Map<Seq<char>, Seq<char>>,
    keys: Seq<Seq<char>>,
) -> TextResult
    decreases keys.len(),
{
    if keys.len() == 0 {
        Ok(Seq::empty())
    } else {
        match foreign_parts(u, us, idx, drvs, keys.drop_last()) {
            Err(e) => Err(e),
            Ok(t) => match foreign_script(u, us, idx, keys.last()) {
                Some(k) if drvs.contains_key(k) => match output_placeholder(drvs[k], "out"@) {
                    Err(e) => Err(e),
                    Ok(ph) => Ok(t + link_directives(ph)),
                },
                _ => Ok(t),
            },
        }
    }
}

proof fn lemma_foreign_parts_err(
    u: UnitView,
    us: Seq<UnitView>,
    idx: Map<Seq<char>, usize>,
    drvs: Map<Seq<char>, Seq<char>>,
    keys: Seq<Seq<char>>,
    n: int,
)
    requires
        0 <= n <= keys.len(),
        foreign_parts(u, us, idx, drvs, keys.take(n)) is Err,
    ensures
        foreign_parts(u, us, idx, drvs, keys) == foreign_parts(u, us, idx, drvs, keys.take(n)),
    decreases keys.len(),
{
    if n == keys.len() {
        assert(keys.take(n) =~= keys);
    } else {
        assert(keys.drop_last().take(n) =~= keys.take(n));
        lemma_foreign_parts_err(u, us, idx, drvs, keys.drop_last(), n);
    }
}

fn same_opt(o: &Option<String>, s: &str) -> (r: bool)
    ensures
        r == (opt_view(*o) == Some(s@)),
{
    match o {
        Some(t) => same(t.as_str(), s),
        None => false,
    }
}

fn foreign_text(
    unit: &NixUnit,
    units: &Vec<NixUnit>,
    key_to_idx: &StrMap<usize>,
    dep_drv_map: &TextMap,
) -> (r: Result<String, String>)
    requires
        plan_ok(unit_views(units@), key_to_idx@, dep_drv_map@),
    ensures
        text_view(r) == foreign_parts(
            unit@,
            unit_views(units@),
            key_to_idx@,
            dep_drv_map@,
            unit@.all_dep_keys,
        ),
{
    let ghost u = unit@;
    let ghost us = unit_views(units@);
    let ghost idx = key_to_idx@;
    let ghost drvs = dep_drv_map@;
    let ghost keys = u.all_dep_keys;
    let mut t = String::new();
    let mut i: usize = 0;
    while i < unit.all_dep_keys.len()
        invariant
            u == unit@,
            us == unit_views(units@),
            idx == key_to_idx@,
            drvs == dep_drv_map@,
            plan_ok(us, idx, drvs),
            keys == u.all_dep_keys,
            keys.len() == unit.all_dep_keys@.len(),
            i <= keys.len(),
            foreign_parts(u, us, idx, drvs, keys.take(i as int)) == TextResult::Ok(t@),
        decreases keys.len() - i,
    {
        assert(keys.take(i + 1).drop_last() =~= keys.take(i as int));
        assert(keys[i as int] == unit.all_dep_keys@[i as int]@);
        if let Some(j) = key_to_idx.get(unit.all_dep_keys[i].as_str()) {
            if let Some(k) = &units[*j].build_script_dep {
                if !same_opt(&unit.build_script_dep, k.as_str()) {
                    if let Some(drv) = dep_drv_map.get(k.as_str()) {
                        match downstream_placeholder(drv.as_str(), "out") {
                            Err(e) => {
                                proof {
                                    lemma_foreign_parts_err(u, us, idx, drvs, keys, i + 1);
                                }
                                return Err(e);
                            },
                            Ok(ph) => {
                                let d = link_directives_text(ph.as_str());
                                t.append(d.as_str());
                            },
                        }
                    }
                }
            }
        }
        i = i + 1;
    }
    assert(keys.take(keys.len() as int) =~= keys);
    Ok(t)
}

/// The end of a compiler's command: its standard error is kept for later replay,
/// shown, and its exit code returned.
pub open spec fn command_tail(cat_path: Seq<char>) -> Seq<char> {
    " $EXTRA_ARGS 2>$out/diagnostics; __rs=$?; "@ + quoted(cat_path)
        + " $out/diagnostics >&2; exit $__rs"@
}

fn add_command_tail(script: &mut String, cat_path: &str)
    ensures
        final(script)@ == old(script)@ + command_tail(cat_path@),
{
    script.append(" $EXTRA_ARGS 2>$out/diagnostics; __rs=$?; ");
    let q = shell_quote(cat_path);
    script.append(q.as_str());
    script.append(" $out/diagnostics >&2; exit $__rs");
    assert(script@ =~= old(script)@ + command_tail(cat_path@));
}

// ---------------------------------------------------------------------------
// Compilation
// ---------------------------------------------------------------------------

/// The directory that a test harness takes for its manifest's: a path below
/// `/tmp` that depends on the project's directory alone.
pub open spec fn tmp_manifest_dir(original: Seq<char>) -> Seq<char> {
    "/tmp/_schnee_md_"@ + hex_seq(sha256_digest(encode_utf8(original)).take(8))
}

/// The directory of a digest.
pub fn tmp_manifest_from_digest(digest: &[u8]) -> (r: String)
    requires
        digest@.len() >= 8,
    ensures
        r@ == "/tmp/_schnee_md_"@ + hex_seq(digest@.take(8)),
{
    let first = vstd::slice::slice_subrange(digest, 0, 8);
    let h = hex_lower(first);
    assert(first@ =~= digest@.take(8));
    concat2("/tmp/_schnee_md_", h.as_str())
}

/// Computes the directory that a test harness takes for its manifest's.
pub fn tmp_manifest_path(original: &str) -> (r: String)
    ensures
        r@ == tmp_manifest_dir(original@),
{
    let d = sha256(original.as_bytes());
    tmp_manifest_from_digest(d.as_slice())
}

/// The commands that set the manifest directory. A test harness gets a link that
/// leads to the store while compiling and to the project at run time.
pub open spec fn manifest_part(u: UnitView, coreutils_bin_dir: Seq<char>) -> Seq<char> {
    if u.kind == UnitKind::TestCompile && u.original_manifest_dir.len() > 0 {
        quoted(coreutils_bin_dir + "/ln"@) + " -sfn "@ + quoted(u.manifest_dir) + " "@ + quoted(
            tmp_manifest_dir(u.original_manifest_dir),
        ) + " && "@ + "export CARGO_MANIFEST_DIR="@ + quoted(
            tmp_manifest_dir(u.original_manifest_dir),
        ) + " && "@
    } else {
        "export CARGO_MANIFEST_DIR="@ + quoted(u.manifest_dir) + " && "@
    }
}

fn manifest_text(unit: &NixUnit, coreutils_bin_dir: &str) -> (r: String)
    ensures
        r@ == manifest_part(unit@, coreutils_bin_dir@),
{
    if unit.kind == UnitKind::TestCompile && !unit.original_manifest_dir.as_str().is_empty() {
        let tmp = tmp_manifest_path(unit.original_manifest_dir.as_str());
        let q = shell_quote(tmp.as_str());
        let ln = concat2(coreutils_bin_dir, "/ln");
        let mut r = shell_quote(ln.as_str());
        r.append(" -sfn ");
        let m = shell_quote(unit.manifest_dir.as_str());
        r.append(m.as_str());
        r.append(" ");
        r.append(q.as_str());
        r.append(" && ");
        r.append("export CARGO_MANIFEST_DIR=");
        r.append(q.as_str());
        r.append(" && ");
        r
    } else {
        let mut r = owned("export CARGO_MANIFEST_DIR=");
        let m = shell_quote(unit.manifest_dir.as_str());
        r.append(m.as_str());
        r.append(" && ");
        r
    }
}

/// All arguments of a compilation.
pub open spec fn compile_args(
    u: UnitView,
    us: Seq<UnitView>,
    idx: Map<Seq<char>, usize>,
    drvs: Map<Seq<char>, Seq<char>>,
    sysroot: Seq<char>,
    cc_bin_dir: Seq<char>,
    profile: ProfileConfig,
    target: TargetConfig,
    win_sdk_lib_dirs: Seq<Seq<char>>,
    extra: Seq<Seq<char>>,
    remaps: Seq<(Seq<char>, Seq<char>)>,
    src_store: Seq<char>,
) -> ArgsResult {
    match extern_args(us, idx, drvs, u.dep_extern) {
        Err(e) => Err(e),
        Ok(externs) => match search_args(drvs, u.all_dep_keys) {
            Err(e) => Err(e),
            Ok(search) => Ok(
                fixed_args(u, sysroot, target, cc_bin_dir, win_sdk_lib_dirs, profile) + externs
                    + search + remap_args_seq(remaps, src_store, u.sliced_crate_rel) + quoted_all(
                    extra,
                ),
            ),
        },
    }
}

fn build_compile_args(
    unit: &NixUnit,
    units: &Vec<NixUnit>,
    key_to_idx: &StrMap<usize>,
    dep_drv_map: &TextMap,
    resolved_sysroot: &str,
    cc_bin_dir: &str,
    profile: &ProfileConfig,
    target: &TargetConfig,
    win_sdk_lib_dirs: &Vec<String>,
    extra_rustc_args: &Vec<String>,
    path_prefix_remaps: &Vec<(String, String)>,
    src_store: &str,
) -> (r: Result<Vec<String>, String>)
    requires
        plan_ok(unit_views(units@), key_to_idx@, dep_drv_map@),
        deps_known(unit@, key_to_idx@, dep_drv_map@),
        extra_filename_ok(unit@),
    ensures
        args_view(r) == compile_args(
            unit@,
            unit_views(units@),
            key_to_idx@,
            dep_drv_map@,
            resolved_sysroot@,
            cc_bin_dir@,
            *profile,
            *target,
            views(win_sdk_lib_dirs@),
            views(extra_rustc_args@),
            pair_views(path_prefix_remaps@),
            src_store@,
        ),
{
    let mut parts = build_fixed_args(
        unit,
        resolved_sysroot,
        target,
        cc_bin_dir,
        win_sdk_lib_dirs,
        profile,
    );
    match build_extern_args(unit, units, key_to_idx, dep_drv_map) {
        Err(e) => return Err(e),
        Ok(v) => extend(&mut parts, v),
    }
    match build_search_args(&unit.all_dep_keys, dep_drv_map) {
        Err(e) => return Err(e),
        Ok(v) => extend(&mut parts, v),
    }
    let remaps = remap_args(path_prefix_remaps, src_store, as_opt_str(&unit.sliced_crate_rel));
    extend(&mut parts, remaps);
    extend(&mut parts, quote_all(extra_rustc_args));
    Ok(parts)
}

/// The commands in front of the compiler's: the linker's path, the directives of
/// build scripts, the variables, the output directory and the setup scripts.
pub open spec fn compile_prelude(
    u: UnitView,
    own: Seq<char>,
    foreign: Seq<char>,
    coreutils_bin_dir: Seq<char>,
    cc_bin_dir: Seq<char>,
    setup: Seq<Seq<char>>,
) -> Seq<char> {
    (if u.needs_linker {
        "export PATH="@ + quoted(cc_bin_dir) + " && "@
    } else {
        Seq::empty()
    }) + "EXTRA_ARGS=\"\" && "@ + own + foreign + exports(u.cargo_envs) + manifest_part(
        u,
        coreutils_bin_dir,
    ) + quoted(coreutils_bin_dir + "/mkdir"@) + " -p $out && "@ + setup_fragment(setup)
}

fn compile_prelude_text(
    unit: &NixUnit,
    own: &str,
    foreign: &str,
    coreutils_bin_dir: &str,
    cc_bin_dir: &str,
    setup_scripts: &Vec<String>,
) -> (r: String)
    ensures
        r@ == compile_prelude(
            unit@,
            own@,
            foreign@,
            coreutils_bin_dir@,
            cc_bin_dir@,
            views(setup_scripts@),
        ),
{
    let mut script = String::new();
    if unit.needs_linker {
        script.append("export PATH=");
        let q = shell_quote(cc_bin_dir);
        script.append(q.as_str());
        script.append(" && ");
        assert(script@ =~= "export PATH="@ + quoted(cc_bin_dir@) + " && "@);
    }
    script.append("EXTRA_ARGS=\"\" && ");
    script.append(own);
    script.append(foreign);
    add_exports(&mut script, &unit.cargo_envs);
    let m = manifest_text(unit, coreutils_bin_dir);
    script.append(m.as_str());
    let mkdir = concat2(coreutils_bin_dir, "/mkdir");
    let q = shell_quote(mkdir.as_str());
    script.append(q.as_str());
    script.append(" -p $out && ");
    let setup = setup_source_fragment(setup_scripts);
    script.append(setup.as_str());
    script
}

/// The script of a compilation.
pub open spec fn compile_script(
    u: UnitView,
    us: Seq<UnitView>,
    idx: Map<Seq<char>, usize>,
    drvs: Map<Seq<char>, Seq<char>>,
    rustc_path: Seq<char>,
    sysroot: Seq<char>,
    coreutils_bin_dir: Seq<char>,
    cc_bin_dir: Seq<char>,
    profile: ProfileConfig,
    target: TargetConfig,
    win_sdk_lib_dirs: Seq<Seq<char>>,
    extra: Seq<Seq<char>>,
    remaps: Seq<(Seq<char>, Seq<char>)>,
    src_store: Seq<char>,
    setup: Seq<Seq<char>>,
) -> TextResult {
    match compile_args(
        u,
        us,
        idx,
        drvs,
        sysroot,
        cc_bin_dir,
        profile,
        target,
        win_sdk_lib_dirs,
        extra,
        remaps,
        src_store,
    ) {
        Err(e) => Err(e),
        Ok(args) => match own_script_part(u, drvs, false) {
            Err(e) => Err(e),
            Ok(own) => match (if u.needs_linker {
                foreign_parts(u, us, idx, drvs, u.all_dep_keys)
            } else {
                TextResult::Ok(Seq::empty())
            }) {
                Err(e) => Err(e),
                Ok(foreign) => Ok(
                    compile_prelude(u, own, foreign, coreutils_bin_dir, cc_bin_dir, setup) + quoted(
                        rustc_path,
                    ) + " "@ + join_seq(args, " "@) + command_tail(coreutils_bin_dir + "/cat"@),
                ),
            },
        },
    }
}

/// Builds the script of a compilation, of a build script or of anything else.
pub fn build_compile_script(
    unit: &NixUnit,
    units: &Vec<NixUnit>,
    key_to_idx: &StrMap<usize>,
    dep_drv_map: &TextMap,
    rustc_path: &str,
    resolved_sysroot: &str,
    coreutils_bin_dir: &str,
    cc_bin_dir: &str,
    profile: &ProfileConfig,
    target: &TargetConfig,
    win_sdk_lib_dirs: &Vec<String>,
    extra_rustc_args: &Vec<String>,
    path_prefix_remaps: &Vec<(String, String)>,
    src_store: &str,
    setup_scripts: &Vec<String>,
) -> (r: Result<String, String>)
    requires
        plan_ok(unit_views(units@), key_to_idx@, dep_drv_map@),
        deps_known(unit@, key_to_idx@, dep_drv_map@),
        extra_filename_ok(unit@),
    ensures
        text_view(r) == compile_script(
            unit@,
            unit_views(units@),
            key_to_idx@,
            dep_drv_map@,
            rustc_path@,
            resolved_sysroot@,
            coreutils_bin_dir@,
            cc_bin_dir@,
            *profile,
            *target,
            views(win_sdk_lib_dirs@),
            views(extra_rustc_args@),
            pair_views(path_prefix_remaps@),
            src_store@,
            views(setup_scripts@),
        ),
{
    let parts = match build_compile_args(
        unit,
        units,
        key_to_idx,
        dep_drv_map,
        resolved_sysroot,
        cc_bin_dir,
        profile,
        target,
        win_sdk_lib_dirs,
        extra_rustc_args,
        path_prefix_remaps,
        src_store,
    ) {
        Err(e) => return Err(e),
        Ok(p) => p,
    };
    let own = match own_script_text(unit, dep_drv_map, false) {
        Err(e) => return Err(e),
        Ok(t) => t,
    };
    let foreign = if unit.needs_linker {
        match foreign_text(unit, units, key_to_idx, dep_drv_map) {
            Err(e) => return Err(e),
            Ok(t) => t,
        }
    } else {
        String::new()
    };
    let mut script = compile_prelude_text(
        unit,
        own.as_str(),
        foreign.as_str(),
        coreutils_bin_dir,
        cc_bin_dir,
        setup_scripts,
    );
    let rustc = shell_quote(rustc_path);
    script.append(rustc.as_str());
    script.append(" ");
    let args = join(&parts, " ");
    script.append(args.as_str());
    let cat = concat2(coreutils_bin_dir, "/cat");
    add_command_tail(&mut script, cat.as_str());
    Ok(script)
}

// ---------------------------------------------------------------------------
// Documentation
// ---------------------------------------------------------------------------

/// The arguments of rustdoc up to its dependencies.
pub open spec fn doc_fixed_args(
    u: UnitView,
    sysroot: Seq<char>,
    private_items: bool,
    remaps: Seq<(Seq<char>, Seq<char>)>,
    src_store: Seq<char>,
) -> Seq<Seq<char>> {
    let remap = remap_args_seq(remaps, src_store, u.sliced_crate_rel);
    head_args(u, sysroot) + flagged("--crate-type"@, ""@, u.crate_types) + seq![
        "--output"@,
        "$out/doc"@,
    ] + feature_args(u.features) + lint_args(u) + seq![
        "--error-format=json"@,
        "--json=diagnostic-rendered-ansi"@,
    ] + (if private_items && u.is_local {
        seq!["--document-private-items"@]
    } else {
        Seq::empty()
    }) + seq!["-C"@, "metadata="@ + u.extra_filename.drop_first()] + (if remap.len() > 0 {
        seq!["-Z"@, "unstable-options"@]
    } else {
        Seq::empty()
    }) + remap
}

fn build_doc_fixed_args(
    unit: &NixUnit,
    resolved_sysroot: &str,
    document_private_items: bool,
    remap: Vec<String>,
    path_prefix_remaps: Ghost<Seq<(Seq<char>, Seq<char>)>>,
    src_store: Ghost<Seq<char>>,
) -> (parts: Vec<String>)
    requires
        extra_filename_ok(unit@),
        views(remap@) == remap_args_seq(path_prefix_remaps@, src_store@, unit@.sliced_crate_rel),
    ensures
        views(parts@) == doc_fixed_args(
            unit@,
            resolved_sysroot@,
            document_private_items,
            path_prefix_remaps@,
            src_store@,
        ),
{
    let mut parts = add_head_args(unit, resolved_sysroot);
    add_flagged(&mut parts, "--crate-type", "", &unit.crate_types);
    push_two(&mut parts, "--output", "$out/doc");
    add_feature_args(&mut parts, &unit.features);
    add_lint_args(&mut parts, unit);
    push_two(&mut parts, "--error-format=json", "--json=diagnostic-rendered-ansi");
    let ghost before = views(parts@);
    if document_private_items && unit.is_local {
        push_arg(&mut parts, "--document-private-items");
        assert(views(parts@) =~= before + seq!["--document-private-items"@]);
    } else {
        assert(before + Seq::<Seq<char>>::empty() =~= before);
    }
    let meta = metadata_of(unit);
    push_two(&mut parts, "-C", meta.as_str());
    let ghost before = views(parts@);
    if remap.len() > 0 {
        push_two(&mut parts, "-Z", "unstable-options");
    } else {
        assert(before + Seq::<Seq<char>>::empty() =~= before);
    }
    extend(&mut parts, remap);
    parts
}

/// The commands in front of rustdoc's.
pub open spec fn doc_prelude(
    u: UnitView,
    own: Seq<char>,
    unstable: bool,
    coreutils_bin_dir: Seq<char>,
    setup: Seq<Seq<char>>,
) -> Seq<char> {
    "EXTRA_ARGS=\"\" && "@ + (if unstable {
        "export RUSTC_BOOTSTRAP=1 && "@
    } else {
        Seq::empty()
    }) + own + exports(u.cargo_envs) + "export CARGO_MANIFEST_DIR="@ + quoted(u.manifest_dir)
        + " && "@ + quoted(coreutils_bin_dir + "/mkdir"@) + " -p $out/doc && "@ + setup_fragment(
        setup,
    )
}

/// The script of a documentation derivation.
pub open spec fn doc_script(
    u: UnitView,
    us: Seq<UnitView>,
    idx: Map<Seq<char>, usize>,
    drvs: Map<Seq<char>, Seq<char>>,
    rustdoc_path: Seq<char>,
    sysroot: Seq<char>,
    coreutils_bin_dir: Seq<char>,
    private_items: bool,
    remaps: Seq<(Seq<char>, Seq<char>)>,
    src_store: Seq<char>,
    setup: Seq<Seq<char>>,
) -> TextResult {
    let unstable = remap_args_seq(remaps, src_store, u.sliced_crate_rel).len() > 0;
    match extern_args(us, idx, drvs, u.dep_extern) {
        Err(e) => Err(e),
        Ok(externs) => match search_args(drvs, u.all_dep_keys) {
            Err(e) => Err(e),
            Ok(search) => match own_script_part(u, drvs, true) {
                Err(e) => Err(e),
                Ok(own) => Ok(
                    doc_prelude(u, own, unstable, coreutils_bin_dir, setup) + quoted(rustdoc_path)
                        + " "@ + join_seq(
                        doc_fixed_args(u, sysroot, private_items, remaps, src_store) + externs
                            + search,
                        " "@,
                    ) + command_tail(coreutils_bin_dir + "/cat"@),
                ),
            },
        },
    }
}

/// Builds the script of a documentation derivation.
pub fn build_doc_script(
    unit: &NixUnit,
    units: &Vec<NixUnit>,
    key_to_idx: &StrMap<usize>,
    dep_drv_map: &TextMap,
    rustdoc_path: &str,
    resolved_sysroot: &str,
    coreutils_bin_dir: &str,
    document_private_items: bool,
    path_prefix_remaps: &Vec<(String, String)>,
    src_store: &str,
    setup_scripts: &Vec<String>,
) -> (r: Result<String, String>)
    requires
        plan_ok(unit_views(units@), key_to_idx@, dep_drv_map@),
        deps_known(unit@, key_to_idx@, dep_drv_map@),
        extra_filename_ok(unit@),
    ensures
        text_view(r) == doc_script(
            unit@,
            unit_views(units@),
            key_to_idx@,
            dep_drv_map@,
            rustdoc_path@,
            resolved_sysroot@,
            coreutils_bin_dir@,
            document_private_items,
            pair_views(path_prefix_remaps@),
            src_store@,
            views(setup_scripts@),
        ),
{
    let remap = remap_args(path_prefix_remaps, src_store, as_opt_str(&unit.sliced_crate_rel));
    assert(views(remap@).len() == remap@.len());
    let unstable = remap.len() > 0;
    let mut parts = build_doc_fixed_args(
        unit,
        resolved_sysroot,
        document_private_items,
        remap,
        Ghost(pair_views(path_prefix_remaps@)),
        Ghost(src_store@),
    );
    match build_extern_args(unit, units, key_to_idx, dep_drv_map) {
        Err(e) => return Err(e),
        Ok(v) => extend(&mut parts, v),
    }
    match build_search_args(&unit.all_dep_keys, dep_drv_map) {
        Err(e) => return Err(e),
        Ok(v) => extend(&mut parts, v),
    }
    let own = match own_script_text(unit, dep_drv_map, true) {
        Err(e) => return Err(e),
        Ok(t) => t,
    };
    let mut script = owned("EXTRA_ARGS=\"\" && ");
    let ghost head = script@;
    if unstable {
        script.append("export RUSTC_BOOTSTRAP=1 && ");
    } else {
        assert(head + Seq::<char>::empty() =~= head);
    }
    script.append(own.as_str());
    add_exports(&mut script, &unit.cargo_envs);
    script.append("export CARGO_MANIFEST_DIR=");
    let m = shell_quote(unit.manifest_dir.as_str());
    script.append(m.as_str());
    script.append(" && ");
    let mkdir = concat2(coreutils_bin_dir, "/mkdir");
    let q = shell_quote(mkdir.as_str());
    script.append(q.as_str());
    script.append(" -p $out/doc && ");
    let setup = setup_source_fragment(setup_scripts);
    script.append(setup.as_str());
    let rustdoc = shell_quote(rustdoc_path);
    script.append(rustdoc.as_str());
    script.append(" ");
    let args = join(&parts, " ");
    script.append(args.as_str());
    let cat = concat2(coreutils_bin_dir, "/cat");
    add_command_tail(&mut script, cat.as_str());
    Ok(script)
}

} // verus!
