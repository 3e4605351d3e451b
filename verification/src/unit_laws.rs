//! What names, keys and variables of units tell of them.
use crate::cargo_unit::{
    cargo_envs_of, kind_of, needs_linker_of, opt_env, underscored, CargoMode, CargoUnit,
};
use crate::nix_encoding::hex_seq;
use crate::run_script::lemma_dashes_replaced;
use crate::runner::runner_env_seq;
use crate::setup::{
    default_kinds, matches_some, named_kind, names_target, rule_matches, setup_scripts, unmatched,
    RuleView,
};
use crate::store_laws::{hex_value, law_hex_reads_back};
use crate::text::{
    decimal_seq, ends, has_substring, join_seq, lemma_sorted_set, occurs, replace_seq, sorted_set,
    split_seq, starts, uppercase, views,
};
use crate::unit_key::{extra_filename_input, host_suffix, identity_seq, short_hash_seq};
use crate::units::{
    cfg_env_name, cfg_envs_seq, cfg_names, cfg_values, local_drv_paths, opt_view, output_file,
    pair_lookup, Cfg, UnitKind, UnitView,
};
use crate::util::{linker_env_seq, linker_names};
use crate::wording::{
    lemma_cancel, lemma_cancel_front, lemma_holds_before, lemma_holds_behind, lemma_holds_itself,
    lemma_join_holds, lemma_split_joined,
};
use vstd::prelude::*;

verus! {

// ---------------------------------------------------------------------------
// Files
// ---------------------------------------------------------------------------

/// What a unit puts out is named by its crate and its hash, with an ending by what it
/// is: metadata of a check, a shared object of a procedural macro or a dynamic library,
/// an archive of a library; a program has none.
pub proof fn law_output_names(u: UnitView)
    ensures
        u.kind != UnitKind::Doc ==> has_substring(output_file(u), u.crate_name + u.extra_filename),
        u.kind == UnitKind::Doc ==> ends(output_file(u), u.crate_name) && starts(
            output_file(u),
            "doc/"@,
        ),
        u.kind == UnitKind::Check ==> starts(output_file(u), "lib"@) && ends(
            output_file(u),
            ".rmeta"@,
        ),
        u.kind == UnitKind::BuildScriptCompile || (u.kind == UnitKind::Compile
            && u.crate_types.contains("bin"@)) ==> output_file(u).len() == u.crate_name.len()
            + u.extra_filename.len(),
        u.kind == UnitKind::Compile && u.crate_types == seq!["proc-macro"@] ==> starts(
            output_file(u),
            "lib"@,
        ) && ends(output_file(u), ".so"@),
        u.kind == UnitKind::Compile && (u.crate_types == seq!["lib"@] || u.crate_types
            == seq!["rlib"@] || u.crate_types == seq!["staticlib"@]) ==> starts(
            output_file(u),
            "lib"@,
        ) && ends(output_file(u), ".rlib"@),
        u.kind == UnitKind::Compile && (u.crate_types == seq!["dylib"@] || u.crate_types
            == seq!["cdylib"@]) ==> starts(output_file(u), "lib"@) && ends(
            output_file(u),
            ".so"@,
        ),
{
    let f = output_file(u);
    let stem = u.crate_name + u.extra_filename;
    lemma_type_names();
    if u.crate_types.len() == 1 {
        assert(u.crate_types.contains(u.crate_types[0]));
    }
    if u.kind == UnitKind::Doc {
        assert(f.skip(f.len() - u.crate_name.len()) =~= u.crate_name);
        assert(f.take("doc/"@.len() as int) =~= "doc/"@);
    } else if u.kind != UnitKind::Check && (u.crate_types.contains("bin"@) || u.kind
        == UnitKind::BuildScriptCompile) {
        lemma_holds_itself(stem);
    } else if u.kind == UnitKind::Check {
        lemma_library_name(u, ".rmeta"@);
    } else if u.crate_types.contains("proc-macro"@) {
        lemma_library_name(u, ".so"@);
    } else if u.crate_types.contains("rlib"@) || u.crate_types.contains("lib"@) {
        lemma_library_name(u, ".rlib"@);
    } else if u.crate_types.contains("dylib"@) || u.crate_types.contains("cdylib"@) {
        lemma_library_name(u, ".so"@);
    } else {
        lemma_library_name(u, ".rlib"@);
    }
}

/// The names of crate types differ.
proof fn lemma_type_names()
    ensures
        "lib"@ != "bin"@,
        "rlib"@ != "bin"@,
        "dylib"@ != "bin"@,
        "cdylib"@ != "bin"@,
        "staticlib"@ != "bin"@,
        "proc-macro"@ != "bin"@,
        "lib"@ != "proc-macro"@,
        "rlib"@ != "proc-macro"@,
        "dylib"@ != "proc-macro"@,
        "cdylib"@ != "proc-macro"@,
        "staticlib"@ != "proc-macro"@,
        "dylib"@ != "lib"@,
        "cdylib"@ != "lib"@,
        "staticlib"@ != "lib"@,
        "dylib"@ != "rlib"@,
        "cdylib"@ != "rlib"@,
        "staticlib"@ != "rlib"@,
        "staticlib"@ != "dylib"@,
        "staticlib"@ != "cdylib"@,
{
    reveal_strlit("lib");
    reveal_strlit("rlib");
    reveal_strlit("bin");
    reveal_strlit("dylib");
    reveal_strlit("cdylib");
    reveal_strlit("staticlib");
    reveal_strlit("proc-macro");
    assert("lib"@.len() == 3 && "bin"@.len() == 3 && "rlib"@.len() == 4 && "dylib"@.len() == 5
        && "cdylib"@.len() == 6 && "staticlib"@.len() == 9 && "proc-macro"@.len() == 10);
    assert("lib"@[0] == 'l' && "bin"@[0] == 'b');
}

proof fn lemma_library_name(u: UnitView, suffix: Seq<char>)
    ensures
        ({
            let f = "lib"@ + u.crate_name + u.extra_filename + suffix;
            &&& has_substring(f, u.crate_name + u.extra_filename)
            &&& starts(f, "lib"@)
            &&& ends(f, suffix)
        }),
{
    let stem = u.crate_name + u.extra_filename;
    let f = "lib"@ + u.crate_name + u.extra_filename + suffix;
    assert(f =~= "lib"@ + stem + suffix);
    lemma_holds_itself(stem);
    lemma_holds_behind("lib"@, stem, stem);
    lemma_holds_before("lib"@ + stem, suffix, stem);
    assert(f.take("lib"@.len() as int) =~= "lib"@);
    assert(f.skip(f.len() - suffix.len()) =~= suffix);
}

/// A test, a program, a procedural macro and a dynamic library are linked; a library is
/// not, and nothing is where the code is only checked.
pub proof fn law_what_is_linked(kind: UnitKind, crate_types: Seq<Seq<char>>)
    ensures
        needs_linker_of(UnitKind::TestCompile, crate_types),
        kind != UnitKind::Check && crate_types.contains("bin"@) ==> needs_linker_of(
            kind,
            crate_types,
        ),
        kind != UnitKind::Check && crate_types.contains("proc-macro"@) ==> needs_linker_of(
            kind,
            crate_types,
        ),
        kind != UnitKind::Check && crate_types.contains("cdylib"@) ==> needs_linker_of(
            kind,
            crate_types,
        ),
        kind != UnitKind::Check && crate_types.contains("dylib"@) ==> needs_linker_of(
            kind,
            crate_types,
        ),
        kind == UnitKind::Compile && crate_types == seq!["lib"@] ==> !needs_linker_of(
            kind,
            crate_types,
        ),
        !needs_linker_of(UnitKind::Check, crate_types),
{
    reveal_strlit("lib");
    reveal_strlit("bin");
    reveal_strlit("dylib");
    reveal_strlit("cdylib");
    reveal_strlit("proc-macro");
    assert("bin"@[0] != "lib"@[0]);
}

/// A build script is compiled and run: a unit whose target is a custom build and that is
/// not run compiles it. Every other unit is of the kind of its mode.
pub proof fn law_kinds_of_modes(u: CargoUnit)
    ensures
        kind_of(u) == UnitKind::BuildScriptRun <==> u.mode == CargoMode::RunCustomBuild,
        kind_of(u) == UnitKind::BuildScriptCompile <==> u.is_custom_build && u.mode
            != CargoMode::RunCustomBuild,
        kind_of(u) == UnitKind::TestCompile <==> !u.is_custom_build && u.mode == CargoMode::Test,
        kind_of(u) == UnitKind::Check <==> !u.is_custom_build && u.mode is Check,
        kind_of(u) == UnitKind::Doc <==> !u.is_custom_build && u.mode == CargoMode::Doc,
        kind_of(u) == UnitKind::Compile <==> !u.is_custom_build && u.mode == CargoMode::Build,
{
}

// ---------------------------------------------------------------------------
// Variables
// ---------------------------------------------------------------------------

/// A crate's name is that of its target with an underscore for each dash.
pub proof fn law_crate_names(s: Seq<char>)
    ensures
        underscored(s).len() == s.len(),
        forall|i: int|
            0 <= i < s.len() && s[i] != '-' ==> #[trigger] underscored(s)[i] == s[i],
        forall|i: int| 0 <= i < s.len() && s[i] == '-' ==> #[trigger] underscored(s)[i] == '_',
{
    lemma_dashes_replaced(s);
}

proof fn lemma_cfg_names(cfgs: Seq<Cfg>, i: int)
    requires
        0 <= i < cfgs.len(),
    ensures
        cfgs[i] matches Cfg::Name(n) ==> n@ != "debug_assertions"@ ==> cfg_names(cfgs).contains(n@),
        cfgs[i] matches Cfg::KeyPair(k, v) ==> cfg_names(cfgs).contains(k@) && cfg_values(
            cfgs,
            k@,
        ).contains(v@),
    decreases cfgs.len(),
{
    let names = cfg_names(cfgs.drop_last());
    let last = cfgs.last();
    if i == cfgs.len() - 1 {
        match last {
            Cfg::Name(n) => {
                if n@ != "debug_assertions"@ {
                    assert(cfg_names(cfgs).last() == n@);
                }
            },
            Cfg::KeyPair(k, v) => {
                assert(cfg_names(cfgs).last() == k@);
                assert(cfg_values(cfgs, k@).last() == v@);
            },
        }
    } else {
        lemma_cfg_names(cfgs.drop_last(), i);
        assert forall|x: Seq<char>| names.contains(x) implies cfg_names(cfgs).contains(x) by {
            let j = choose|j: int| 0 <= j < names.len() && names[j] == x;
            assert(cfg_names(cfgs)[j] == x);
        }
        if let Cfg::KeyPair(k, v) = cfgs[i] {
            let vs = cfg_values(cfgs.drop_last(), k@);
            let j = choose|j: int| 0 <= j < vs.len() && vs[j] == v@;
            assert(cfg_values(cfgs, k@)[j] == v@);
        }
    }
}

/// A build script sees each option of the compiler's target as one variable: an option
/// that is a name, but for `debug_assertions`, and one that is a pair, among whose values
/// between commas its own stands.
pub proof fn law_cfg_variables(cfgs: Seq<Cfg>, i: int)
    requires
        0 <= i < cfgs.len(),
    ensures
        cfgs[i] matches Cfg::Name(n) ==> n@ != "debug_assertions"@ ==> exists|j: int|
            0 <= j < cfg_envs_seq(cfgs).len() && (#[trigger] cfg_envs_seq(cfgs)[j]).0
                == cfg_env_name(n@),
        cfgs[i] matches Cfg::KeyPair(k, v) ==> exists|j: int|
            0 <= j < cfg_envs_seq(cfgs).len() && (#[trigger] cfg_envs_seq(cfgs)[j]).0
                == cfg_env_name(k@) && has_substring(cfg_envs_seq(cfgs)[j].1, v@),
        cfgs[i] matches Cfg::KeyPair(k, v) ==> (forall|x: int|
            0 <= x < cfg_values(cfgs, k@).len() ==> !(#[trigger] cfg_values(
                cfgs,
                k@,
            )[x]).contains(',')) ==> exists|j: int|
            0 <= j < cfg_envs_seq(cfgs).len() && (#[trigger] cfg_envs_seq(cfgs)[j]).0
                == cfg_env_name(k@) && split_seq(cfg_envs_seq(cfgs)[j].1, ',').contains(v@),
{
    let keys = sorted_set(cfg_names(cfgs));
    lemma_sorted_set(cfg_names(cfgs));
    lemma_cfg_names(cfgs, i);
    let envs = cfg_envs_seq(cfgs);
    match cfgs[i] {
        Cfg::Name(n) => {
            if n@ != "debug_assertions"@ {
                assert(keys.contains(n@));
                let j = choose|j: int| 0 <= j < keys.len() && keys[j] == n@;
                assert(envs[j].0 == cfg_env_name(n@));
            }
        },
        Cfg::KeyPair(k, v) => {
            assert(keys.contains(k@));
            let j = choose|j: int| 0 <= j < keys.len() && keys[j] == k@;
            let vs = cfg_values(cfgs, k@);
            let x = choose|x: int| 0 <= x < vs.len() && vs[x] == v@;
            lemma_join_holds(vs, ","@, x);
            assert(envs[j].0 == cfg_env_name(k@));
            if forall|y: int| 0 <= y < vs.len() ==> !(#[trigger] vs[y]).contains(',') {
                reveal_strlit(",");
                assert(","@ =~= seq![',']);
                lemma_split_joined(vs, ',');
                assert(split_seq(envs[j].1, ',') == vs);
            }
        },
    }
}

/// A variable of the target's options is named by the option in upper case, with an
/// underscore for each dash, behind a fixed front.
pub proof fn law_cfg_variable_names(key: Seq<char>, name: Seq<char>)
    requires
        name.len() == uppercase(key).len(),
        forall|i: int|
            0 <= i < name.len() ==> #[trigger] name[i] == (if uppercase(key)[i] == '-' {
                '_'
            } else {
                uppercase(key)[i]
            }),
    ensures
        cfg_env_name(key) == "CARGO_CFG_"@ + name,
        linker_env_seq(key) == "CARGO_TARGET_"@ + name + "_LINKER"@,
        runner_env_seq(key) == "CARGO_TARGET_"@ + name + "_RUNNER"@,
{
    lemma_dashes_replaced(uppercase(key));
    assert(name =~= replace_seq(uppercase(key), "-"@, "_"@));
}

/// A linker for a Microsoft target is one of LLVM's; any other is named by the target.
pub proof fn law_linker_names(triple: Seq<char>, i: int)
    requires
        0 <= i < linker_names(triple).len(),
    ensures
        linker_names(triple).len() == 2,
        !has_substring(triple, "msvc"@) ==> starts(linker_names(triple)[i], triple + "-"@) && ends(
            linker_names(triple)[i],
            "cc"@,
        ),
        has_substring(triple, "msvc"@) ==> has_substring(linker_names(triple)[i], "lld"@),
{
    reveal_strlit("gcc");
    reveal_strlit("cc");
    reveal_strlit("lld");
    reveal_strlit("lld-link");
    reveal_strlit("rust-lld");
    if has_substring(triple, "msvc"@) {
        assert("lld-link"@.subrange(0, 3) =~= "lld"@);
        assert(occurs("lld-link"@, "lld"@, 0));
        assert("rust-lld"@.subrange(5, 8) =~= "lld"@);
        assert(occurs("rust-lld"@, "lld"@, 5));
    } else {
        let n = linker_names(triple)[i];
        assert(n.take((triple + "-"@).len() as int) =~= triple + "-"@);
        assert(n.skip(n.len() - 2) =~= "cc"@);
    }
}

/// What is found under a name is the value of the first pair with it.
pub proof fn law_lookup_finds_first(v: Seq<(Seq<char>, Seq<char>)>, key: Seq<char>)
    ensures
        pair_lookup(v, key) matches Some(x) ==> exists|i: int|
            0 <= i < v.len() && #[trigger] v[i] == (key, x) && forall|j: int|
                0 <= j < i ==> (#[trigger] v[j]).0 != key,
        pair_lookup(v, key) is None ==> forall|i: int|
            0 <= i < v.len() ==> (#[trigger] v[i]).0 != key,
    decreases v.len(),
{
    if v.len() > 0 {
        let t = v.drop_first();
        law_lookup_finds_first(t, key);
        if v[0].0 == key {
            assert(v[0] == (key, v[0].1));
        } else {
            match pair_lookup(t, key) {
                Some(x) => {
                    let i = choose|i: int|
                        0 <= i < t.len() && #[trigger] t[i] == (key, x) && forall|j: int|
                            0 <= j < i ==> (#[trigger] t[j]).0 != key;
                    assert(v[i + 1] == (key, x));
                    assert forall|j: int| 0 <= j < i + 1 implies (#[trigger] v[j]).0 != key by {
                        if j > 0 {
                            assert(v[j] == t[j - 1]);
                        }
                    }
                },
                None => {
                    assert forall|i: int| 0 <= i < v.len() implies (#[trigger] v[i]).0 != key by {
                        if i > 0 {
                            assert(v[i] == t[i - 1]);
                        }
                    }
                },
            }
        }
    }
}

/// A package's variables are found under their names: the package's name and version,
/// the numbers of the version, the crate's name and the authors.
#[verifier::spinoff_prover]
#[verifier::rlimit(80)]
pub proof fn law_package_variables(u: CargoUnit)
    ensures
        pair_lookup(cargo_envs_of(u), "CARGO_PKG_NAME"@) == Some(u.pkg_name@),
        pair_lookup(cargo_envs_of(u), "CARGO_PKG_VERSION"@) == Some(u.pkg_version@),
        pair_lookup(cargo_envs_of(u), "CARGO_PKG_VERSION_MAJOR"@) == Some(
            decimal_seq(u.version_major as nat),
        ),
        pair_lookup(cargo_envs_of(u), "CARGO_PKG_VERSION_MINOR"@) == Some(
            decimal_seq(u.version_minor as nat),
        ),
        pair_lookup(cargo_envs_of(u), "CARGO_PKG_VERSION_PATCH"@) == Some(
            decimal_seq(u.version_patch as nat),
        ),
        pair_lookup(cargo_envs_of(u), "CARGO_PKG_VERSION_PRE"@) == Some(u.version_pre@),
        pair_lookup(cargo_envs_of(u), "CARGO_CRATE_NAME"@) == Some(underscored(u.target_name@)),
        pair_lookup(cargo_envs_of(u), "CARGO_PKG_AUTHORS"@) == Some(
            join_seq(views(u.authors@), ":"@),
        ),
{
    reveal_strlit("CARGO_PKG_NAME");
    reveal_strlit("CARGO_PKG_VERSION");
    reveal_strlit("CARGO_PKG_VERSION_MAJOR");
    reveal_strlit("CARGO_PKG_VERSION_MINOR");
    reveal_strlit("CARGO_PKG_VERSION_PATCH");
    reveal_strlit("CARGO_PKG_VERSION_PRE");
    reveal_strlit("CARGO_CRATE_NAME");
    reveal_strlit("CARGO_PKG_AUTHORS");
    assert("CARGO_PKG_NAME"@.len() == 14 && "CARGO_PKG_VERSION"@.len() == 17);
    assert("CARGO_PKG_VERSION_MAJOR"@.len() == 23 && "CARGO_PKG_VERSION_MINOR"@.len() == 23);
    assert("CARGO_PKG_VERSION_PATCH"@.len() == 23 && "CARGO_PKG_VERSION_PRE"@.len() == 21);
    assert("CARGO_CRATE_NAME"@.len() == 16 && "CARGO_PKG_AUTHORS"@.len() == 17);
    assert("CARGO_PKG_VERSION_MAJOR"@[20] != "CARGO_PKG_VERSION_MINOR"@[20]);
    assert("CARGO_PKG_VERSION_MAJOR"@[18] != "CARGO_PKG_VERSION_PATCH"@[18]);
    assert("CARGO_PKG_VERSION_MINOR"@[18] != "CARGO_PKG_VERSION_PATCH"@[18]);
    assert("CARGO_PKG_VERSION"@[10] != "CARGO_PKG_AUTHORS"@[10]);
    let e = cargo_envs_of(u);
    let e1 = e.drop_first();
    let e2 = e1.drop_first();
    let e3 = e2.drop_first();
    let e4 = e3.drop_first();
    let e5 = e4.drop_first();
    let e6 = e5.drop_first();
    let e7 = e6.drop_first();
    assert(e[0] == ("CARGO_PKG_NAME"@, u.pkg_name@));
    assert(e1[0] == ("CARGO_PKG_VERSION"@, u.pkg_version@));
    assert(e2[0] == ("CARGO_PKG_VERSION_MAJOR"@, decimal_seq(u.version_major as nat)));
    assert(e3[0] == ("CARGO_PKG_VERSION_MINOR"@, decimal_seq(u.version_minor as nat)));
    assert(e4[0] == ("CARGO_PKG_VERSION_PATCH"@, decimal_seq(u.version_patch as nat)));
    assert(e5[0] == ("CARGO_PKG_VERSION_PRE"@, u.version_pre@));
    assert(e6[0] == ("CARGO_CRATE_NAME"@, underscored(u.target_name@)));
    assert(e7[0] == ("CARGO_PKG_AUTHORS"@, join_seq(views(u.authors@), ":"@)));
    reveal_with_fuel(pair_lookup, 9);
}

/// What a manifest says of a package is passed on where it says it.
pub proof fn law_optional_variables(u: CargoUnit)
    ensures
        u.description matches Some(v) ==> cargo_envs_of(u).contains(
            ("CARGO_PKG_DESCRIPTION"@, v@),
        ),
        u.homepage matches Some(v) ==> cargo_envs_of(u).contains(("CARGO_PKG_HOMEPAGE"@, v@)),
        u.repository matches Some(v) ==> cargo_envs_of(u).contains(("CARGO_PKG_REPOSITORY"@, v@)),
        u.license matches Some(v) ==> cargo_envs_of(u).contains(("CARGO_PKG_LICENSE"@, v@)),
        u.license_file matches Some(v) ==> cargo_envs_of(u).contains(
            ("CARGO_PKG_LICENSE_FILE"@, v@),
        ),
        u.rust_version matches Some(v) ==> cargo_envs_of(u).contains(
            ("CARGO_PKG_RUST_VERSION"@, v@),
        ),
        u.readme matches Some(v) ==> cargo_envs_of(u).contains(("CARGO_PKG_README"@, v@)),
{
    let p0 = seq![
        ("CARGO_PKG_NAME"@, u.pkg_name@),
        ("CARGO_PKG_VERSION"@, u.pkg_version@),
        ("CARGO_PKG_VERSION_MAJOR"@, decimal_seq(u.version_major as nat)),
        ("CARGO_PKG_VERSION_MINOR"@, decimal_seq(u.version_minor as nat)),
        ("CARGO_PKG_VERSION_PATCH"@, decimal_seq(u.version_patch as nat)),
        ("CARGO_PKG_VERSION_PRE"@, u.version_pre@),
        ("CARGO_CRATE_NAME"@, underscored(u.target_name@)),
        ("CARGO_PKG_AUTHORS"@, join_seq(views(u.authors@), ":"@)),
    ];
    let q1 = opt_env("CARGO_PKG_DESCRIPTION"@, opt_view(u.description));
    let q2 = opt_env("CARGO_PKG_HOMEPAGE"@, opt_view(u.homepage));
    let q3 = opt_env("CARGO_PKG_REPOSITORY"@, opt_view(u.repository));
    let q4 = opt_env("CARGO_PKG_LICENSE"@, opt_view(u.license));
    let q5 = opt_env("CARGO_PKG_LICENSE_FILE"@, opt_view(u.license_file));
    let q6 = opt_env("CARGO_PKG_RUST_VERSION"@, opt_view(u.rust_version));
    let q7 = opt_env("CARGO_PKG_README"@, opt_view(u.readme));
    let p1 = p0 + q1;
    let p2 = p1 + q2;
    let p3 = p2 + q3;
    let p4 = p3 + q4;
    let p5 = p4 + q5;
    let p6 = p5 + q6;
    let p7 = p6 + q7;
    if let Some(v) = u.description {
        let x = ("CARGO_PKG_DESCRIPTION"@, v@);
        assert(q1[0] == x);
        lemma_kept(p0, q1, x);
        lemma_kept(p1, q2, x);
        lemma_kept(p2, q3, x);
        lemma_kept(p3, q4, x);
        lemma_kept(p4, q5, x);
        lemma_kept(p5, q6, x);
        lemma_kept(p6, q7, x);
    }
    if let Some(v) = u.homepage {
        let x = ("CARGO_PKG_HOMEPAGE"@, v@);
        assert(q2[0] == x);
        lemma_kept(p1, q2, x);
        lemma_kept(p2, q3, x);
        lemma_kept(p3, q4, x);
        lemma_kept(p4, q5, x);
        lemma_kept(p5, q6, x);
        lemma_kept(p6, q7, x);
    }
    if let Some(v) = u.repository {
        let x = ("CARGO_PKG_REPOSITORY"@, v@);
        assert(q3[0] == x);
        lemma_kept(p2, q3, x);
        lemma_kept(p3, q4, x);
        lemma_kept(p4, q5, x);
        lemma_kept(p5, q6, x);
        lemma_kept(p6, q7, x);
    }
    if let Some(v) = u.license {
        let x = ("CARGO_PKG_LICENSE"@, v@);
        assert(q4[0] == x);
        lemma_kept(p3, q4, x);
        lemma_kept(p4, q5, x);
        lemma_kept(p5, q6, x);
        lemma_kept(p6, q7, x);
    }
    if let Some(v) = u.license_file {
        let x = ("CARGO_PKG_LICENSE_FILE"@, v@);
        assert(q5[0] == x);
        lemma_kept(p4, q5, x);
        lemma_kept(p5, q6, x);
        lemma_kept(p6, q7, x);
    }
    if let Some(v) = u.rust_version {
        let x = ("CARGO_PKG_RUST_VERSION"@, v@);
        assert(q6[0] == x);
        lemma_kept(p5, q6, x);
        lemma_kept(p6, q7, x);
    }
    if let Some(v) = u.readme {
        let x = ("CARGO_PKG_README"@, v@);
        assert(q7[0] == x);
        lemma_kept(p6, q7, x);
    }
}

proof fn lemma_kept(
    a: Seq<(Seq<char>, Seq<char>)>,
    b: Seq<(Seq<char>, Seq<char>)>,
    x: (Seq<char>, Seq<char>),
)
    requires
        a.contains(x) || b.contains(x),
    ensures
        (a + b).contains(x),
{
    if a.contains(x) {
        let i = choose|i: int| 0 <= i < a.len() && a[i] == x;
        assert((a + b)[i] == x);
    } else {
        let i = choose|i: int| 0 <= i < b.len() && b[i] == x;
        assert((a + b)[a.len() + i] == x);
    }
}

// ---------------------------------------------------------------------------
// Keys
// ---------------------------------------------------------------------------

/// A short hash is the first eight bytes of a digest, the last of them first, in
/// hexadecimal digits.
pub proof fn law_short_hash_reads_back(digest: Seq<u8>)
    requires
        digest.len() >= 8,
    ensures
        short_hash_seq(digest).len() == 16,
        forall|i: int|
            0 <= i < 8 ==> #[trigger] digest[i] == 16 * hex_value(
                short_hash_seq(digest)[2 * (7 - i)],
            ) + hex_value(short_hash_seq(digest)[2 * (7 - i) + 1]),
{
    let bytes = Seq::new(8, |i: int| digest[7 - i]);
    law_hex_reads_back(bytes);
    assert(short_hash_seq(digest) == hex_seq(bytes));
    assert forall|i: int| 0 <= i < 8 implies #[trigger] digest[i] == 16 * hex_value(
        short_hash_seq(digest)[2 * (7 - i)],
    ) + hex_value(short_hash_seq(digest)[2 * (7 - i) + 1]) by {
        assert(bytes[7 - i] == digest[i]);
    }
}

/// The identity of a compilation tells its parts: where all of the others agree, the
/// package's name, its version, the target's name, the kind's suffix, the machine, the
/// edition, the crate types and the features each make a difference.
#[verifier::spinoff_prover]
#[verifier::rlimit(60)]
pub proof fn law_identity_tells_apart(
    pkg: Seq<char>,
    version: Seq<char>,
    target: Seq<char>,
    suffix: Seq<char>,
    host: bool,
    edition: Seq<char>,
    types: Seq<char>,
    features: Seq<Seq<char>>,
    other: Seq<char>,
    other_features: Seq<Seq<char>>,
)
    ensures
        other != pkg ==> identity_seq(other, version, target, suffix, host, edition, types, features)
            != identity_seq(pkg, version, target, suffix, host, edition, types, features),
        other != version ==> identity_seq(pkg, other, target, suffix, host, edition, types, features)
            != identity_seq(pkg, version, target, suffix, host, edition, types, features),
        other != target ==> identity_seq(pkg, version, other, suffix, host, edition, types, features)
            != identity_seq(pkg, version, target, suffix, host, edition, types, features),
        other != suffix ==> identity_seq(pkg, version, target, other, host, edition, types, features)
            != identity_seq(pkg, version, target, suffix, host, edition, types, features),
        identity_seq(pkg, version, target, suffix, !host, edition, types, features)
            != identity_seq(pkg, version, target, suffix, host, edition, types, features),
        other != edition ==> identity_seq(pkg, version, target, suffix, host, other, types, features)
            != identity_seq(pkg, version, target, suffix, host, edition, types, features),
        other != types ==> identity_seq(pkg, version, target, suffix, host, edition, other, features)
            != identity_seq(pkg, version, target, suffix, host, edition, types, features),
        join_seq(other_features, ","@) != join_seq(features, ","@) ==> identity_seq(
            pkg,
            version,
            target,
            suffix,
            host,
            edition,
            types,
            other_features,
        ) != identity_seq(pkg, version, target, suffix, host, edition, types, features),
{
    reveal_strlit("-host");
    reveal_strlit("");
    let d = "-"@;
    let h = host_suffix(host);
    let f = join_seq(features, ","@);
    let b0 = pkg;
    let b1 = b0 + d;
    let b2 = b1 + version;
    let b3 = b2 + d;
    let b4 = b3 + target;
    let b5 = b4 + suffix;
    let b6 = b5 + h;
    let b7 = b6 + d;
    let b8 = b7 + edition;
    let b9 = b8 + d;
    let b10 = b9 + types;
    let b11 = b10 + d;
    let b12 = b11 + f;
    if identity_seq(other, version, target, suffix, host, edition, types, features) == identity_seq(pkg, version, target, suffix, host, edition, types, features) {
        let o = other;
        let a0 = o;
        let a1 = a0 + d;
        let a2 = a1 + version;
        let a3 = a2 + d;
        let a4 = a3 + target;
        let a5 = a4 + suffix;
        let a6 = a5 + h;
        let a7 = a6 + d;
        let a8 = a7 + edition;
        let a9 = a8 + d;
        let a10 = a9 + types;
        let a11 = a10 + d;
        let a12 = a11 + f;
        lemma_cancel(a11, b11, f);
        lemma_cancel(a10, b10, d);
        lemma_cancel(a9, b9, types);
        lemma_cancel(a8, b8, d);
        lemma_cancel(a7, b7, edition);
        lemma_cancel(a6, b6, d);
        lemma_cancel(a5, b5, h);
        lemma_cancel(a4, b4, suffix);
        lemma_cancel(a3, b3, target);
        lemma_cancel(a2, b2, d);
        lemma_cancel(a1, b1, version);
        lemma_cancel(a0, b0, d);
    }
    if identity_seq(pkg, other, target, suffix, host, edition, types, features) == identity_seq(pkg, version, target, suffix, host, edition, types, features) {
        let o = other;
        let a2 = b1 + o;
        let a3 = a2 + d;
        let a4 = a3 + target;
        let a5 = a4 + suffix;
        let a6 = a5 + h;
        let a7 = a6 + d;
        let a8 = a7 + edition;
        let a9 = a8 + d;
        let a10 = a9 + types;
        let a11 = a10 + d;
        let a12 = a11 + f;
        lemma_cancel(a11, b11, f);
        lemma_cancel(a10, b10, d);
        lemma_cancel(a9, b9, types);
        lemma_cancel(a8, b8, d);
        lemma_cancel(a7, b7, edition);
        lemma_cancel(a6, b6, d);
        lemma_cancel(a5, b5, h);
        lemma_cancel(a4, b4, suffix);
        lemma_cancel(a3, b3, target);
        lemma_cancel(a2, b2, d);
        lemma_cancel_front(b1, o, version);
    }
    if identity_seq(pkg, version, other, suffix, host, edition, types, features) == identity_seq(pkg, version, target, suffix, host, edition, types, features) {
        let o = other;
        let a4 = b3 + o;
        let a5 = a4 + suffix;
        let a6 = a5 + h;
        let a7 = a6 + d;
        let a8 = a7 + edition;
        let a9 = a8 + d;
        let a10 = a9 + types;
        let a11 = a10 + d;
        let a12 = a11 + f;
        lemma_cancel(a11, b11, f);
        lemma_cancel(a10, b10, d);
        lemma_cancel(a9, b9, types);
        lemma_cancel(a8, b8, d);
        lemma_cancel(a7, b7, edition);
        lemma_cancel(a6, b6, d);
        lemma_cancel(a5, b5, h);
        lemma_cancel(a4, b4, suffix);
        lemma_cancel_front(b3, o, target);
    }
    if identity_seq(pkg, version, target, other, host, edition, types, features) == identity_seq(pkg, version, target, suffix, host, edition, types, features) {
        let o = other;
        let a5 = b4 + o;
        let a6 = a5 + h;
        let a7 = a6 + d;
        let a8 = a7 + edition;
        let a9 = a8 + d;
        let a10 = a9 + types;
        let a11 = a10 + d;
        let a12 = a11 + f;
        lemma_cancel(a11, b11, f);
        lemma_cancel(a10, b10, d);
        lemma_cancel(a9, b9, types);
        lemma_cancel(a8, b8, d);
        lemma_cancel(a7, b7, edition);
        lemma_cancel(a6, b6, d);
        lemma_cancel(a5, b5, h);
        lemma_cancel_front(b4, o, suffix);
    }
    if identity_seq(pkg, version, target, suffix, !host, edition, types, features) == identity_seq(pkg, version, target, suffix, host, edition, types, features) {
        let o = host_suffix(!host);
        let a6 = b5 + o;
        let a7 = a6 + d;
        let a8 = a7 + edition;
        let a9 = a8 + d;
        let a10 = a9 + types;
        let a11 = a10 + d;
        let a12 = a11 + f;
        lemma_cancel(a11, b11, f);
        lemma_cancel(a10, b10, d);
        lemma_cancel(a9, b9, types);
        lemma_cancel(a8, b8, d);
        lemma_cancel(a7, b7, edition);
        lemma_cancel(a6, b6, d);
        lemma_cancel_front(b5, o, h);
    }
    if identity_seq(pkg, version, target, suffix, host, other, types, features) == identity_seq(pkg, version, target, suffix, host, edition, types, features) {
        let o = other;
        let a8 = b7 + o;
        let a9 = a8 + d;
        let a10 = a9 + types;
        let a11 = a10 + d;
        let a12 = a11 + f;
        lemma_cancel(a11, b11, f);
        lemma_cancel(a10, b10, d);
        lemma_cancel(a9, b9, types);
        lemma_cancel(a8, b8, d);
        lemma_cancel_front(b7, o, edition);
    }
    if identity_seq(pkg, version, target, suffix, host, edition, other, features) == identity_seq(pkg, version, target, suffix, host, edition, types, features) {
        let o = other;
        let a10 = b9 + o;
        let a11 = a10 + d;
        let a12 = a11 + f;
        lemma_cancel(a11, b11, f);
        lemma_cancel(a10, b10, d);
        lemma_cancel_front(b9, o, types);
    }
    if identity_seq(pkg, version, target, suffix, host, edition, types, other_features) == identity_seq(pkg, version, target, suffix, host, edition, types, features) {
        let o = join_seq(other_features, ","@);
        let a12 = b11 + o;
        lemma_cancel_front(b11, o, f);
    }
}

/// What a file's hash is taken of tells the package, its version, the target, and the
/// features and crate types between commas.
pub proof fn law_hashed_parts(
    pkg: Seq<char>,
    version: Seq<char>,
    target: Seq<char>,
    features: Seq<Seq<char>>,
    types: Seq<Seq<char>>,
)
    requires
        features.len() > 0,
        types.len() > 0,
        !pkg.contains('-'),
        !version.contains('-'),
        !target.contains('-'),
        forall|i: int| 0 <= i < features.len() ==> !(#[trigger] features[i]).contains('-'),
        forall|i: int| 0 <= i < types.len() ==> !(#[trigger] types[i]).contains('-'),
    ensures
        ({
            let parts = split_seq(extra_filename_input(pkg, version, target, features, types), '-');
            &&& parts.len() == 5
            &&& parts[0] == pkg
            &&& parts[1] == version
            &&& parts[2] == target
            &&& parts[3] == join_seq(features, seq![','])
            &&& parts[4] == join_seq(types, seq![','])
        }),
{
    reveal_strlit("-");
    reveal_strlit(",");
    let c = seq!['-'];
    let s = seq![','];
    assert("-"@ =~= c);
    assert(","@ =~= s);
    lemma_join_without(features, s, '-');
    lemma_join_without(types, s, '-');
    let parts = seq![pkg, version, target, join_seq(features, s), join_seq(types, s)];
    lemma_split_joined(parts, '-');
    assert(parts.drop_last() =~= seq![pkg, version, target, join_seq(features, s)]);
    assert(parts.drop_last().drop_last() =~= seq![pkg, version, target]);
    assert(parts.drop_last().drop_last().drop_last() =~= seq![pkg, version]);
    assert(parts.drop_last().drop_last().drop_last().drop_last() =~= seq![pkg]);
    reveal_with_fuel(join_seq, 6);
    assert(join_seq(parts, c) =~= extra_filename_input(pkg, version, target, features, types));
}

proof fn lemma_join_without(words: Seq<Seq<char>>, sep: Seq<char>, c: char)
    requires
        !sep.contains(c),
        forall|i: int| 0 <= i < words.len() ==> !(#[trigger] words[i]).contains(c),
    ensures
        !join_seq(words, sep).contains(c),
    decreases words.len(),
{
    if words.len() > 1 {
        let front = words.drop_last();
        assert forall|i: int| 0 <= i < front.len() implies !(#[trigger] front[i]).contains(c) by {
            assert(front[i] == words[i]);
        }
        lemma_join_without(front, sep, c);
        let a = join_seq(front, sep);
        let b = words.last();
        assert(!b.contains(c));
        let all = a + sep + b;
        assert forall|i: int| 0 <= i < all.len() implies all[i] != c by {
            if i < a.len() {
                assert(all[i] == a[i]);
            } else if i < a.len() + sep.len() {
                assert(all[i] == sep[i - a.len()]);
            } else {
                assert(all[i] == b[i - a.len() - sep.len()]);
            }
        }
    } else if words.len() == 1 {
        assert(!words[0].contains(c));
    }
}

/// The derivations of the project's own compilations, those of build scripts included,
/// are listed in the units' order, and no others.
pub proof fn law_local_compilations(us: Seq<UnitView>)
    ensures
        local_drv_paths(us) == us.filter(
            |u: UnitView|
                u.is_local && u.drv_path is Some && (u.kind == UnitKind::Compile || u.kind
                    == UnitKind::BuildScriptCompile),
        ).map_values(|u: UnitView| u.drv_path->Some_0),
    decreases us.len(),
{
    reveal(Seq::filter);
    let p = |u: UnitView|
        u.is_local && u.drv_path is Some && (u.kind == UnitKind::Compile || u.kind
            == UnitKind::BuildScriptCompile);
    let f = |u: UnitView| u.drv_path->Some_0;
    if us.len() > 0 {
        law_local_compilations(us.drop_last());
        let rest = us.drop_last().filter(p);
        if p(us.last()) {
            assert(us.filter(p) == rest.push(us.last()));
            assert(rest.push(us.last()).map_values(f) =~= rest.map_values(f).push(f(us.last())));
        } else {
            assert(us.filter(p) == rest);
        }
    } else {
        assert(us.filter(p).map_values(f) =~= Seq::empty());
    }
}

// ---------------------------------------------------------------------------
// Setup rules
// ---------------------------------------------------------------------------

/// A rule for every package reaches each unit of its kinds, and one for a package each
/// unit of that package: of all its targets, or of those it names. It reaches no other.
pub proof fn law_rules_reach(rule: RuleView, u: UnitView)
    ensures
        rule.package == "*"@ && rule.targets is None ==> (rule_matches(rule, u)
            <==> rule.kinds.contains(u.kind)),
        pair_lookup(u.cargo_envs, "CARGO_PKG_NAME"@) == Some(rule.package) && rule.targets is None
            ==> (rule_matches(rule, u) <==> rule.kinds.contains(u.kind)),
        rule.package != "*"@ && pair_lookup(u.cargo_envs, "CARGO_PKG_NAME"@) != Some(rule.package)
            ==> !rule_matches(rule, u),
        rule.targets matches Some(targets) ==> rule_matches(rule, u) ==> exists|i: int|
            0 <= i < targets.len() && underscored(#[trigger] targets[i]) == u.crate_name,
        rule.targets matches Some(targets) ==> rule.package == "*"@ && rule.kinds.contains(u.kind)
            ==> forall|i: int|
            0 <= i < targets.len() && underscored(#[trigger] targets[i]) == u.crate_name
                ==> rule_matches(rule, u),
{
    if let Some(targets) = rule.targets {
        assert forall|i: int|
            0 <= i < targets.len() && underscored(#[trigger] targets[i]) == u.crate_name
                && rule.package == "*"@ && rule.kinds.contains(u.kind) implies rule_matches(
            rule,
            u,
        ) by {
            assert(names_target(targets, u.crate_name));
        }
    }
}

/// The setup scripts of a unit are those of the rules that reach it, in the rules' order.
pub proof fn law_setup_scripts(rules: Seq<RuleView>, u: UnitView)
    ensures
        setup_scripts(rules, u) == rules.filter(|r: RuleView| rule_matches(r, u)).map_values(
            |r: RuleView| r.script,
        ),
    decreases rules.len(),
{
    reveal(Seq::filter);
    let p = |r: RuleView| rule_matches(r, u);
    let f = |r: RuleView| r.script;
    if rules.len() > 0 {
        law_setup_scripts(rules.drop_last(), u);
        let rest = rules.drop_last().filter(p);
        if p(rules.last()) {
            assert(rules.filter(p) == rest.push(rules.last()));
            assert(rest.push(rules.last()).map_values(f) =~= rest.map_values(f).push(
                f(rules.last()),
            ));
        } else {
            assert(rules.filter(p) == rest);
        }
    } else {
        assert(rules.filter(p).map_values(f) =~= Seq::empty());
    }
}

/// A rule is reported as unmatched if and only if it reaches no unit.
pub proof fn law_unmatched_rules(rules: Seq<RuleView>, us: Seq<UnitView>, n: nat, k: int)
    requires
        n <= rules.len(),
    ensures
        unmatched(rules, us, n).contains(k) <==> 0 <= k < n && forall|i: int|
            0 <= i < us.len() ==> !rule_matches(rules[k], #[trigger] us[i]),
    decreases n,
{
    if n > 0 {
        law_unmatched_rules(rules, us, (n - 1) as nat, k);
        let before = unmatched(rules, us, (n - 1) as nat);
        let now = unmatched(rules, us, n);
        if matches_some(rules[n - 1], us) {
            assert(now == before);
        } else {
            assert(now == before.push(n - 1));
            assert(now.last() == n - 1);
            if before.contains(k) {
                let j = choose|j: int| 0 <= j < before.len() && before[j] == k;
                assert(now[j] == k);
            }
            if now.contains(k) && k != n - 1 {
                let j = choose|j: int| 0 <= j < now.len() && now[j] == k;
                assert(before[j] == k);
            }
        }
    }
}

/// A rule without kinds reaches what is compiled, checked, tested and documented, and no
/// build script.
pub proof fn law_default_kinds(kind: UnitKind)
    ensures
        default_kinds().contains(kind) <==> kind != UnitKind::BuildScriptCompile && kind
            != UnitKind::BuildScriptRun,
{
    let d = default_kinds();
    assert(d[0] == UnitKind::Compile && d[1] == UnitKind::Check && d[2] == UnitKind::TestCompile
        && d[3] == UnitKind::Doc);
}

/// Each kind has one name.
#[verifier::spinoff_prover]
#[verifier::rlimit(60)]
pub proof fn law_kind_names(s: Seq<char>, t: Seq<char>)
    ensures
        named_kind(s) is Some && named_kind(s) == named_kind(t) ==> s == t,
        named_kind("compile"@) == Some(UnitKind::Compile),
        named_kind("check"@) == Some(UnitKind::Check),
        named_kind("doc"@) == Some(UnitKind::Doc),
        named_kind("test-compile"@) == Some(UnitKind::TestCompile),
        named_kind("build-script-compile"@) == Some(UnitKind::BuildScriptCompile),
        named_kind("build-script-run"@) == Some(UnitKind::BuildScriptRun),
{
    reveal_strlit("compile");
    reveal_strlit("check");
    reveal_strlit("doc");
    reveal_strlit("test-compile");
    reveal_strlit("build-script-compile");
    reveal_strlit("build-script-run");
    assert("compile"@.len() == 7 && "check"@.len() == 5 && "doc"@.len() == 3);
    assert("test-compile"@.len() == 12 && "build-script-compile"@.len() == 20);
    assert("build-script-run"@.len() == 16);
}

} // verus!
