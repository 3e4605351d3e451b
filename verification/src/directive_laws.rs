//! What a compilation takes from build scripts, and what the roots are gathered in.
use crate::aggregator::{aggregator_json, root_paths, root_placeholders, root_targets, RootView};
use crate::diagnostics::{emission, is_summary, remapped};
use crate::json::{array_field, field, lemma_lookup_at, text_array, text_field, JsonView};
use crate::placeholder::{output_placeholder, own_placeholder};
use crate::profile_report::{cached_count, duration_at};
use crate::script_laws::{lemma_starts_holds, CompileInputs};
use crate::scripts::{
    command_tail, compile_prelude, exports, foreign_parts, foreign_script, link_directives,
    manifest_part, own_directives, own_script_part, setup_fragment, tmp_manifest_dir,
};
use crate::text::{has_substring, join_seq, occurs, replace_seq, split_seq, starts};
use crate::units::UnitKind;
use crate::util::quoted;
use crate::wording::{
    in_turn, lemma_assoc, lemma_holds_before, lemma_holds_behind, lemma_holds_itself,
    lemma_holds_within, lemma_in_turn, lemma_middle, lemma_split_joined,
};
use vstd::prelude::*;

verus! {

// ---------------------------------------------------------------------------
// Build scripts
// ---------------------------------------------------------------------------

spec fn own_part(c: CompileInputs) -> Seq<char> {
    own_script_part(c.u, c.drvs, false)->Ok_0
}

spec fn foreign_part(c: CompileInputs) -> Seq<char> {
    if c.u.needs_linker {
        foreign_parts(c.u, c.us, c.idx, c.drvs, c.u.all_dep_keys)->Ok_0
    } else {
        Seq::empty()
    }
}

/// What stands in what is taken from build scripts, or in what is said of the manifest,
/// stands in the script in front of the compiler.
#[verifier::spinoff_prover]
#[verifier::rlimit(60)]
proof fn lemma_before_compiler(c: CompileInputs, p: Seq<char>)
    requires
        c.script() is Ok,
        has_substring(own_part(c), p) || has_substring(foreign_part(c), p) || has_substring(
            manifest_part(c.u, c.coreutils_bin_dir),
            p,
        ),
    ensures
        in_turn(c.script()->Ok_0, p, quoted(c.rustc_path) + " "@),
{
    let u = c.u;
    let own = own_part(c);
    let foreign = foreign_part(c);
    let prelude = compile_prelude(u, own, foreign, c.coreutils_bin_dir, c.cc_bin_dir, c.setup);
    let driver = quoted(c.rustc_path) + " "@;
    let args = join_seq(c.arguments(), " "@);
    let tail = command_tail(c.coreutils_bin_dir + "/cat"@);
    let s = c.script()->Ok_0;
    assert(s == prelude + quoted(c.rustc_path) + " "@ + args + tail);
    let rest = driver + (args + tail);
    assert(s =~= prelude + rest);
    assert(rest.take(driver.len() as int) =~= driver);
    lemma_starts_holds(rest, driver);
    let path = if u.needs_linker {
        "export PATH="@ + quoted(c.cc_bin_dir) + " && "@
    } else {
        Seq::empty()
    };
    let first = path + "EXTRA_ARGS=\"\" && "@;
    let envs = exports(u.cargo_envs);
    let manifest = manifest_part(u, c.coreutils_bin_dir);
    let made = quoted(c.coreutils_bin_dir + "/mkdir"@);
    let setup = setup_fragment(c.setup);
    let f0 = first + own;
    let f1 = f0 + foreign;
    let f2 = f1 + envs;
    let f3 = f2 + manifest;
    if has_substring(own, p) {
        lemma_holds_behind(first, own, p);
    }
    if has_substring(f0, p) {
        lemma_holds_before(f0, foreign, p);
    } else if has_substring(foreign, p) {
        lemma_holds_behind(f0, foreign, p);
    }
    if has_substring(f1, p) {
        lemma_holds_before(f1, envs, p);
    }
    if has_substring(f2, p) {
        lemma_holds_before(f2, manifest, p);
    } else {
        lemma_holds_behind(f2, manifest, p);
    }
    lemma_holds_before(f3, made, p);
    lemma_holds_before(f3 + made, " -p $out && "@, p);
    lemma_holds_before(f3 + made + " -p $out && "@, setup, p);
    lemma_in_turn(prelude, rest, p, driver);
}

#[verifier::spinoff_prover]
#[verifier::rlimit(80)]
proof fn lemma_reads_cfg()
    ensures
        has_substring(
            "/output ]; then while IFS= read -r line; do case \"$line\" in cargo:rustc-cfg=*) EXTRA_ARGS=\"$EXTRA_ARGS --cfg ${line#cargo:rustc-cfg=}\" ;; cargo:rustc-env=*) kv=\"${line#cargo:rustc-env=}\"; export \"${kv%%=*}=${kv#*=}\" ;; cargo:rustc-link-lib=*) EXTRA_ARGS=\"$EXTRA_ARGS -l ${line#cargo:rustc-link-lib=}\" ;; cargo:rustc-link-search=*) EXTRA_ARGS=\"$EXTRA_ARGS -L ${line#cargo:rustc-link-search=}\" ;; esac; done < "@,
            "cargo:rustc-cfg=*) EXTRA_ARGS=\"$EXTRA_ARGS --cfg ${line#cargo:rustc-cfg=}\" ;; "@,
        ),
{
    reveal_strlit(
        "/output ]; then while IFS= read -r line; do case \"$line\" in cargo:rustc-cfg=*) EXTRA_ARGS=\"$EXTRA_ARGS --cfg ${line#cargo:rustc-cfg=}\" ;; cargo:rustc-env=*) kv=\"${line#cargo:rustc-env=}\"; export \"${kv%%=*}=${kv#*=}\" ;; cargo:rustc-link-lib=*) EXTRA_ARGS=\"$EXTRA_ARGS -l ${line#cargo:rustc-link-lib=}\" ;; cargo:rustc-link-search=*) EXTRA_ARGS=\"$EXTRA_ARGS -L ${line#cargo:rustc-link-search=}\" ;; esac; done < ",
    );
    reveal_strlit("cargo:rustc-cfg=*) EXTRA_ARGS=\"$EXTRA_ARGS --cfg ${line#cargo:rustc-cfg=}\" ;; ");
    let b =
        "/output ]; then while IFS= read -r line; do case \"$line\" in cargo:rustc-cfg=*) EXTRA_ARGS=\"$EXTRA_ARGS --cfg ${line#cargo:rustc-cfg=}\" ;; cargo:rustc-env=*) kv=\"${line#cargo:rustc-env=}\"; export \"${kv%%=*}=${kv#*=}\" ;; cargo:rustc-link-lib=*) EXTRA_ARGS=\"$EXTRA_ARGS -l ${line#cargo:rustc-link-lib=}\" ;; cargo:rustc-link-search=*) EXTRA_ARGS=\"$EXTRA_ARGS -L ${line#cargo:rustc-link-search=}\" ;; esac; done < "@;
    let p =
        "cargo:rustc-cfg=*) EXTRA_ARGS=\"$EXTRA_ARGS --cfg ${line#cargo:rustc-cfg=}\" ;; "@;
    assert(b.subrange(60, 60 + p.len() as int) =~= p);
    assert(occurs(b, p, 60));
}

#[verifier::spinoff_prover]
#[verifier::rlimit(80)]
proof fn lemma_reads_env()
    ensures
        has_substring(
            "/output ]; then while IFS= read -r line; do case \"$line\" in cargo:rustc-cfg=*) EXTRA_ARGS=\"$EXTRA_ARGS --cfg ${line#cargo:rustc-cfg=}\" ;; cargo:rustc-env=*) kv=\"${line#cargo:rustc-env=}\"; export \"${kv%%=*}=${kv#*=}\" ;; cargo:rustc-link-lib=*) EXTRA_ARGS=\"$EXTRA_ARGS -l ${line#cargo:rustc-link-lib=}\" ;; cargo:rustc-link-search=*) EXTRA_ARGS=\"$EXTRA_ARGS -L ${line#cargo:rustc-link-search=}\" ;; esac; done < "@,
            "cargo:rustc-env=*) kv=\"${line#cargo:rustc-env=}\"; export \"${kv%%=*}=${kv#*=}\" ;; "@,
        ),
{
    reveal_strlit(
        "/output ]; then while IFS= read -r line; do case \"$line\" in cargo:rustc-cfg=*) EXTRA_ARGS=\"$EXTRA_ARGS --cfg ${line#cargo:rustc-cfg=}\" ;; cargo:rustc-env=*) kv=\"${line#cargo:rustc-env=}\"; export \"${kv%%=*}=${kv#*=}\" ;; cargo:rustc-link-lib=*) EXTRA_ARGS=\"$EXTRA_ARGS -l ${line#cargo:rustc-link-lib=}\" ;; cargo:rustc-link-search=*) EXTRA_ARGS=\"$EXTRA_ARGS -L ${line#cargo:rustc-link-search=}\" ;; esac; done < ",
    );
    reveal_strlit("cargo:rustc-env=*) kv=\"${line#cargo:rustc-env=}\"; export \"${kv%%=*}=${kv#*=}\" ;; ");
    let b =
        "/output ]; then while IFS= read -r line; do case \"$line\" in cargo:rustc-cfg=*) EXTRA_ARGS=\"$EXTRA_ARGS --cfg ${line#cargo:rustc-cfg=}\" ;; cargo:rustc-env=*) kv=\"${line#cargo:rustc-env=}\"; export \"${kv%%=*}=${kv#*=}\" ;; cargo:rustc-link-lib=*) EXTRA_ARGS=\"$EXTRA_ARGS -l ${line#cargo:rustc-link-lib=}\" ;; cargo:rustc-link-search=*) EXTRA_ARGS=\"$EXTRA_ARGS -L ${line#cargo:rustc-link-search=}\" ;; esac; done < "@;
    let p =
        "cargo:rustc-env=*) kv=\"${line#cargo:rustc-env=}\"; export \"${kv%%=*}=${kv#*=}\" ;; "@;
    assert(b.subrange(138, 138 + p.len() as int) =~= p);
    assert(occurs(b, p, 138));
}

#[verifier::spinoff_prover]
#[verifier::rlimit(80)]
proof fn lemma_own_ends() -> (front: Seq<char>)
    ensures
        "/output ]; then while IFS= read -r line; do case \"$line\" in cargo:rustc-cfg=*) EXTRA_ARGS=\"$EXTRA_ARGS --cfg ${line#cargo:rustc-cfg=}\" ;; cargo:rustc-env=*) kv=\"${line#cargo:rustc-env=}\"; export \"${kv%%=*}=${kv#*=}\" ;; cargo:rustc-link-lib=*) EXTRA_ARGS=\"$EXTRA_ARGS -l ${line#cargo:rustc-link-lib=}\" ;; cargo:rustc-link-search=*) EXTRA_ARGS=\"$EXTRA_ARGS -L ${line#cargo:rustc-link-search=}\" ;; esac; done < "@
            == front + "; done < "@,
{
    reveal_strlit(
        "/output ]; then while IFS= read -r line; do case \"$line\" in cargo:rustc-cfg=*) EXTRA_ARGS=\"$EXTRA_ARGS --cfg ${line#cargo:rustc-cfg=}\" ;; cargo:rustc-env=*) kv=\"${line#cargo:rustc-env=}\"; export \"${kv%%=*}=${kv#*=}\" ;; cargo:rustc-link-lib=*) EXTRA_ARGS=\"$EXTRA_ARGS -l ${line#cargo:rustc-link-lib=}\" ;; cargo:rustc-link-search=*) EXTRA_ARGS=\"$EXTRA_ARGS -L ${line#cargo:rustc-link-search=}\" ;; esac; done < ",
    );
    reveal_strlit("; done < ");
    let b =
        "/output ]; then while IFS= read -r line; do case \"$line\" in cargo:rustc-cfg=*) EXTRA_ARGS=\"$EXTRA_ARGS --cfg ${line#cargo:rustc-cfg=}\" ;; cargo:rustc-env=*) kv=\"${line#cargo:rustc-env=}\"; export \"${kv%%=*}=${kv#*=}\" ;; cargo:rustc-link-lib=*) EXTRA_ARGS=\"$EXTRA_ARGS -l ${line#cargo:rustc-link-lib=}\" ;; cargo:rustc-link-search=*) EXTRA_ARGS=\"$EXTRA_ARGS -L ${line#cargo:rustc-link-search=}\" ;; esac; done < "@;
    let front = b.take(b.len() - 9);
    assert(b =~= front + "; done < "@);
    front
}

#[verifier::spinoff_prover]
#[verifier::rlimit(60)]
proof fn lemma_own_directives(ph: Seq<char>)
    ensures
        has_substring(own_directives(ph), "export OUT_DIR="@ + ph + "/out_dir && "@),
        has_substring(
            own_directives(ph),
            "cargo:rustc-cfg=*) EXTRA_ARGS=\"$EXTRA_ARGS --cfg ${line#cargo:rustc-cfg=}\" ;; "@,
        ),
        has_substring(
            own_directives(ph),
            "cargo:rustc-env=*) kv=\"${line#cargo:rustc-env=}\"; export \"${kv%%=*}=${kv#*=}\" ;; "@,
        ),
        has_substring(own_directives(ph), "; done < "@ + ph + "/output; fi && "@),
{
    let out = "export OUT_DIR="@;
    let a = "/out_dir && if [ -f "@;
    let b =
        "/output ]; then while IFS= read -r line; do case \"$line\" in cargo:rustc-cfg=*) EXTRA_ARGS=\"$EXTRA_ARGS --cfg ${line#cargo:rustc-cfg=}\" ;; cargo:rustc-env=*) kv=\"${line#cargo:rustc-env=}\"; export \"${kv%%=*}=${kv#*=}\" ;; cargo:rustc-link-lib=*) EXTRA_ARGS=\"$EXTRA_ARGS -l ${line#cargo:rustc-link-lib=}\" ;; cargo:rustc-link-search=*) EXTRA_ARGS=\"$EXTRA_ARGS -L ${line#cargo:rustc-link-search=}\" ;; esac; done < "@;
    let end = "/output; fi && "@;
    let d = own_directives(ph);
    let front = out + ph + a + ph;
    assert(d == front + b + ph + end);
    reveal_strlit("/out_dir && if [ -f ");
    reveal_strlit("/out_dir && ");
    let dir = "/out_dir && "@;
    let a1 = a.skip(12);
    assert(a =~= dir + a1);
    let p = out + ph + dir;
    lemma_assoc(out + ph, dir, a1);
    lemma_holds_itself(p);
    lemma_holds_before(p, a1, p);
    assert(out + ph + a == p + a1);
    lemma_within(out + ph + a, ph, b, ph, end, p);
    lemma_reads_cfg();
    lemma_reads_env();
    let cfg = "cargo:rustc-cfg=*) EXTRA_ARGS=\"$EXTRA_ARGS --cfg ${line#cargo:rustc-cfg=}\" ;; "@;
    let env =
        "cargo:rustc-env=*) kv=\"${line#cargo:rustc-env=}\"; export \"${kv%%=*}=${kv#*=}\" ;; "@;
    lemma_holds_behind(front, b, cfg);
    lemma_holds_before(front + b, ph, cfg);
    lemma_holds_before(front + b + ph, end, cfg);
    lemma_holds_behind(front, b, env);
    lemma_holds_before(front + b, ph, env);
    lemma_holds_before(front + b + ph, end, env);
    let b2 = lemma_own_ends();
    lemma_reads_output(front, b2, ph);
}

proof fn lemma_within(
    a: Seq<char>,
    b: Seq<char>,
    c: Seq<char>,
    d: Seq<char>,
    e: Seq<char>,
    p: Seq<char>,
)
    requires
        has_substring(a, p),
    ensures
        has_substring(a + b + c + d + e, p),
{
    lemma_holds_before(a, b, p);
    lemma_holds_before(a + b, c, p);
    lemma_holds_before(a + b + c, d, p);
    lemma_holds_before(a + b + c + d, e, p);
}

/// The end of a loop over the lines of an output.
proof fn lemma_reads_output(front: Seq<char>, b: Seq<char>, ph: Seq<char>)
    ensures
        has_substring(
            front + (b + "; done < "@) + ph + "/output; fi && "@,
            "; done < "@ + ph + "/output; fi && "@,
        ),
{
    let done = "; done < "@;
    let end = "/output; fi && "@;
    let q = done + ph + end;
    lemma_assoc(front, b, done);
    lemma_assoc(front + b, done, ph);
    lemma_assoc(front + b, done + ph, end);
    lemma_holds_itself(q);
    lemma_holds_behind(front + b, q, q);
}

/// A crate with a build script is compiled with what the script put out: its directory is
/// exported, and of its lines the options go to the compiler and the variables are
/// exported.
pub proof fn law_own_output_is_used(c: CompileInputs, key: Seq<char>)
    requires
        c.script() is Ok,
        c.u.build_script_dep == Some(key),
        c.drvs.contains_key(key),
    ensures
        output_placeholder(c.drvs[key], "out"@) matches Ok(ph) && ({
            let driver = quoted(c.rustc_path) + " "@;
            let s = c.script()->Ok_0;
            &&& in_turn(s, "export OUT_DIR="@ + ph + "/out_dir && "@, driver)
            &&& in_turn(
                s,
                "cargo:rustc-cfg=*) EXTRA_ARGS=\"$EXTRA_ARGS --cfg ${line#cargo:rustc-cfg=}\" ;; "@,
                driver,
            )
            &&& in_turn(
                s,
                "cargo:rustc-env=*) kv=\"${line#cargo:rustc-env=}\"; export \"${kv%%=*}=${kv#*=}\" ;; "@,
                driver,
            )
            &&& in_turn(s, "; done < "@ + ph + "/output; fi && "@, driver)
        }),
{
    let ph = output_placeholder(c.drvs[key], "out"@)->Ok_0;
    assert(own_script_part(c.u, c.drvs, false) is Ok);
    assert(own_part(c) == own_directives(ph));
    lemma_own_directives(ph);
    lemma_before_compiler(c, "export OUT_DIR="@ + ph + "/out_dir && "@);
    lemma_before_compiler(
        c,
        "cargo:rustc-cfg=*) EXTRA_ARGS=\"$EXTRA_ARGS --cfg ${line#cargo:rustc-cfg=}\" ;; "@,
    );
    lemma_before_compiler(
        c,
        "cargo:rustc-env=*) kv=\"${line#cargo:rustc-env=}\"; export \"${kv%%=*}=${kv#*=}\" ;; "@,
    );
    lemma_before_compiler(c, "; done < "@ + ph + "/output; fi && "@);
}

proof fn lemma_foreign_parts(c: CompileInputs, keys: Seq<Seq<char>>, n: int, k: Seq<char>)
    requires
        foreign_parts(c.u, c.us, c.idx, c.drvs, keys) is Ok,
        0 <= n < keys.len(),
        foreign_script(c.u, c.us, c.idx, keys[n]) == Some(k),
        c.drvs.contains_key(k),
    ensures
        output_placeholder(c.drvs[k], "out"@) is Ok,
        has_substring(
            foreign_parts(c.u, c.us, c.idx, c.drvs, keys)->Ok_0,
            link_directives(output_placeholder(c.drvs[k], "out"@)->Ok_0),
        ),
    decreases keys.len(),
{
    let t = foreign_parts(c.u, c.us, c.idx, c.drvs, keys.drop_last())->Ok_0;
    let p = link_directives(output_placeholder(c.drvs[k], "out"@)->Ok_0);
    if n == keys.len() - 1 {
        lemma_holds_itself(p);
        lemma_holds_behind(t, p, p);
    } else {
        lemma_foreign_parts(c, keys.drop_last(), n, k);
        match foreign_script(c.u, c.us, c.idx, keys.last()) {
            Some(k2) if c.drvs.contains_key(k2) => {
                lemma_holds_before(
                    t,
                    link_directives(output_placeholder(c.drvs[k2], "out"@)->Ok_0),
                    p,
                );
            },
            _ => {},
        }
    }
}

#[verifier::spinoff_prover]
#[verifier::rlimit(80)]
proof fn lemma_reads_libraries()
    ensures
        has_substring(
            "/output ]; then while IFS= read -r line; do case \"$line\" in cargo:rustc-link-lib=*) EXTRA_ARGS=\"$EXTRA_ARGS -l ${line#cargo:rustc-link-lib=}\" ;; cargo:rustc-link-search=*) EXTRA_ARGS=\"$EXTRA_ARGS -L ${line#cargo:rustc-link-search=}\" ;; esac; done < "@,
            "cargo:rustc-link-lib=*) EXTRA_ARGS=\"$EXTRA_ARGS -l ${line#cargo:rustc-link-lib=}\" ;; "@,
        ),
{
    reveal_strlit(
        "/output ]; then while IFS= read -r line; do case \"$line\" in cargo:rustc-link-lib=*) EXTRA_ARGS=\"$EXTRA_ARGS -l ${line#cargo:rustc-link-lib=}\" ;; cargo:rustc-link-search=*) EXTRA_ARGS=\"$EXTRA_ARGS -L ${line#cargo:rustc-link-search=}\" ;; esac; done < ",
    );
    reveal_strlit("cargo:rustc-link-lib=*) EXTRA_ARGS=\"$EXTRA_ARGS -l ${line#cargo:rustc-link-lib=}\" ;; ");
    let b =
        "/output ]; then while IFS= read -r line; do case \"$line\" in cargo:rustc-link-lib=*) EXTRA_ARGS=\"$EXTRA_ARGS -l ${line#cargo:rustc-link-lib=}\" ;; cargo:rustc-link-search=*) EXTRA_ARGS=\"$EXTRA_ARGS -L ${line#cargo:rustc-link-search=}\" ;; esac; done < "@;
    let p =
        "cargo:rustc-link-lib=*) EXTRA_ARGS=\"$EXTRA_ARGS -l ${line#cargo:rustc-link-lib=}\" ;; "@;
    assert(b.subrange(60, 60 + p.len() as int) =~= p);
    assert(occurs(b, p, 60));
}

#[verifier::spinoff_prover]
#[verifier::rlimit(80)]
proof fn lemma_link_ends() -> (front: Seq<char>)
    ensures
        "/output ]; then while IFS= read -r line; do case \"$line\" in cargo:rustc-link-lib=*) EXTRA_ARGS=\"$EXTRA_ARGS -l ${line#cargo:rustc-link-lib=}\" ;; cargo:rustc-link-search=*) EXTRA_ARGS=\"$EXTRA_ARGS -L ${line#cargo:rustc-link-search=}\" ;; esac; done < "@
            == front + "; done < "@,
{
    reveal_strlit(
        "/output ]; then while IFS= read -r line; do case \"$line\" in cargo:rustc-link-lib=*) EXTRA_ARGS=\"$EXTRA_ARGS -l ${line#cargo:rustc-link-lib=}\" ;; cargo:rustc-link-search=*) EXTRA_ARGS=\"$EXTRA_ARGS -L ${line#cargo:rustc-link-search=}\" ;; esac; done < ",
    );
    reveal_strlit("; done < ");
    let b =
        "/output ]; then while IFS= read -r line; do case \"$line\" in cargo:rustc-link-lib=*) EXTRA_ARGS=\"$EXTRA_ARGS -l ${line#cargo:rustc-link-lib=}\" ;; cargo:rustc-link-search=*) EXTRA_ARGS=\"$EXTRA_ARGS -L ${line#cargo:rustc-link-search=}\" ;; esac; done < "@;
    let front = b.take(b.len() - 9);
    assert(b =~= front + "; done < "@);
    front
}

proof fn lemma_link_directives(ph: Seq<char>)
    ensures
        has_substring(
            link_directives(ph),
            "cargo:rustc-link-lib=*) EXTRA_ARGS=\"$EXTRA_ARGS -l ${line#cargo:rustc-link-lib=}\" ;; "@,
        ),
        has_substring(link_directives(ph), "; done < "@ + ph + "/output; fi && "@),
{
    let b =
        "/output ]; then while IFS= read -r line; do case \"$line\" in cargo:rustc-link-lib=*) EXTRA_ARGS=\"$EXTRA_ARGS -l ${line#cargo:rustc-link-lib=}\" ;; cargo:rustc-link-search=*) EXTRA_ARGS=\"$EXTRA_ARGS -L ${line#cargo:rustc-link-search=}\" ;; esac; done < "@;
    let end = "/output; fi && "@;
    let front = "if [ -f "@ + ph;
    assert(link_directives(ph) == front + b + ph + end);
    lemma_reads_libraries();
    let lib =
        "cargo:rustc-link-lib=*) EXTRA_ARGS=\"$EXTRA_ARGS -l ${line#cargo:rustc-link-lib=}\" ;; "@;
    lemma_holds_behind(front, b, lib);
    lemma_holds_before(front + b, ph, lib);
    lemma_holds_before(front + b + ph, end, lib);
    let b2 = lemma_link_ends();
    lemma_reads_output(front, b2, ph);
}

/// A crate that is linked is linked with what the build scripts of its dependencies ask
/// for: the output of each registered run, other than its own, is read.
pub proof fn law_libraries_of_dependencies(c: CompileInputs, n: int, k: Seq<char>)
    requires
        c.script() is Ok,
        c.u.needs_linker,
        0 <= n < c.u.all_dep_keys.len(),
        c.idx.contains_key(c.u.all_dep_keys[n]),
        c.us[c.idx[c.u.all_dep_keys[n]] as int].build_script_dep == Some(k),
        c.u.build_script_dep != Some(k),
        c.drvs.contains_key(k),
    ensures
        output_placeholder(c.drvs[k], "out"@) matches Ok(ph) && ({
            let driver = quoted(c.rustc_path) + " "@;
            let s = c.script()->Ok_0;
            &&& in_turn(
                s,
                "cargo:rustc-link-lib=*) EXTRA_ARGS=\"$EXTRA_ARGS -l ${line#cargo:rustc-link-lib=}\" ;; "@,
                driver,
            )
            &&& in_turn(s, "; done < "@ + ph + "/output; fi && "@, driver)
        }),
{
    let keys = c.u.all_dep_keys;
    assert(foreign_parts(c.u, c.us, c.idx, c.drvs, keys) is Ok);
    assert(foreign_script(c.u, c.us, c.idx, keys[n]) == Some(k));
    lemma_foreign_parts(c, keys, n, k);
    let ph = output_placeholder(c.drvs[k], "out"@)->Ok_0;
    lemma_link_directives(ph);
    let lib =
        "cargo:rustc-link-lib=*) EXTRA_ARGS=\"$EXTRA_ARGS -l ${line#cargo:rustc-link-lib=}\" ;; "@;
    let read = "; done < "@ + ph + "/output; fi && "@;
    lemma_holds_within(foreign_part(c), link_directives(ph), lib);
    lemma_holds_within(foreign_part(c), link_directives(ph), read);
    lemma_before_compiler(c, lib);
    lemma_before_compiler(c, read);
}

/// A test of the project sees its manifest under a directory that depends on where the
/// crate lies in the project, not in the store: a link leads from there to the source.
pub proof fn law_tests_see_a_stable_directory(c: CompileInputs)
    requires
        c.script() is Ok,
        c.u.kind == UnitKind::TestCompile,
        c.u.original_manifest_dir.len() > 0,
    ensures
        in_turn(
            c.script()->Ok_0,
            "export CARGO_MANIFEST_DIR="@ + quoted(tmp_manifest_dir(c.u.original_manifest_dir))
                + " && "@,
            quoted(c.rustc_path) + " "@,
        ),
        in_turn(
            c.script()->Ok_0,
            " -sfn "@ + quoted(c.u.manifest_dir) + " "@ + quoted(
                tmp_manifest_dir(c.u.original_manifest_dir),
            ) + " && "@,
            quoted(c.rustc_path) + " "@,
        ),
{
    let dir = quoted(tmp_manifest_dir(c.u.original_manifest_dir));
    let m = manifest_part(c.u, c.coreutils_bin_dir);
    let ln = quoted(c.coreutils_bin_dir + "/ln"@);
    let link = " -sfn "@ + quoted(c.u.manifest_dir) + " "@ + dir + " && "@;
    let export = "export CARGO_MANIFEST_DIR="@ + dir + " && "@;
    let stem = " -sfn "@ + quoted(c.u.manifest_dir) + " "@ + dir;
    lemma_assoc(ln, " -sfn "@, quoted(c.u.manifest_dir));
    lemma_assoc(ln, " -sfn "@ + quoted(c.u.manifest_dir), " "@);
    lemma_assoc(ln, " -sfn "@ + quoted(c.u.manifest_dir) + " "@, dir);
    lemma_assoc(ln, stem, " && "@);
    lemma_assoc(ln + link, "export CARGO_MANIFEST_DIR="@, dir);
    lemma_assoc(ln + link, "export CARGO_MANIFEST_DIR="@ + dir, " && "@);
    assert(m == ln + link + export);
    lemma_middle(ln, link, export);
    lemma_holds_itself(export);
    lemma_holds_behind(ln + link, export, export);
    lemma_before_compiler(c, link);
    lemma_before_compiler(c, export);
}

// ---------------------------------------------------------------------------
// Roots
// ---------------------------------------------------------------------------

/// The placeholders of the roots are those of their derivations' outputs, in order.
pub proof fn law_roots_are_gathered(roots: Seq<RootView>, n: int)
    requires
        root_placeholders(roots) is Ok,
    ensures
        root_placeholders(roots)->Ok_0.len() == roots.len(),
        0 <= n < roots.len() ==> output_placeholder(roots[n].0, "out"@) == Ok::<
            Seq<char>,
            Seq<char>,
        >(root_placeholders(roots)->Ok_0[n]),
    decreases roots.len(),
{
    if roots.len() > 0 {
        law_roots_are_gathered(roots.drop_last(), n);
    }
}

/// The roots whose outputs are read are all of them, and no others.
pub proof fn law_roots_are_read(roots: Seq<RootView>, drv: Seq<char>)
    ensures
        root_paths(roots).contains(drv) <==> exists|i: int|
            0 <= i < roots.len() && (#[trigger] roots[i]).0 == drv,
    decreases roots.len(),
{
    if roots.len() > 0 {
        let t = roots.drop_last();
        law_roots_are_read(t, drv);
        let before = root_paths(t);
        let all = root_paths(roots);
        let last = roots.last().0;
        assert(roots[roots.len() - 1] == roots.last());
        if before.contains(drv) {
            let i = choose|i: int| 0 <= i < t.len() && (#[trigger] t[i]).0 == drv;
            assert(roots[i] == t[i]);
            let k = choose|k: int| 0 <= k < before.len() && before[k] == drv;
            assert(all[k] == drv);
        }
        if last == drv && !before.contains(drv) {
            assert(all.last() == drv);
        }
        if exists|i: int| 0 <= i < roots.len() && (#[trigger] roots[i]).0 == drv {
            let i = choose|i: int| 0 <= i < roots.len() && (#[trigger] roots[i]).0 == drv;
            if i < t.len() {
                assert(t[i] == roots[i]);
            }
        }
        if all.contains(drv) && !before.contains(drv) {
            let k = choose|k: int| 0 <= k < all.len() && all[k] == drv;
            if k < before.len() {
                assert(before[k] == drv);
            }
        }
    }
}

/// The derivation that gathers the roots is named by the project and what was asked for,
/// runs with the shell, and is told the roots' outputs between spaces and their targets
/// on lines of their own.
#[verifier::spinoff_prover]
#[verifier::rlimit(60)]
pub proof fn law_gathering(
    pname: Seq<char>,
    intent: Seq<char>,
    roots: Seq<RootView>,
    outs: Seq<Seq<char>>,
    system: Seq<char>,
    bash_path: Seq<char>,
    bash_store: Seq<char>,
    coreutils_store: Seq<char>,
)
    requires
        roots.len() > 0,
        outs.len() > 0,
        forall|i: int| 0 <= i < roots.len() ==> !(#[trigger] roots[i]).1.contains('\n'),
        forall|i: int| 0 <= i < outs.len() ==> !(#[trigger] outs[i]).contains(' '),
    ensures
        ({
            let d = aggregator_json(
                pname,
                intent,
                roots,
                outs,
                system,
                bash_path,
                bash_store,
                coreutils_store,
            );
            &&& text_field(d, "name"@) == Some(pname + "-"@ + intent + "-aggregator"@)
            &&& text_field(d, "system"@) == Some(system)
            &&& text_field(d, "builder"@) == Some(bash_path)
            &&& array_field(d, "inputSrcs"@) == Some(
                seq![JsonView::Text(coreutils_store), JsonView::Text(bash_store)],
            )
            &&& field(d, "env"@) matches Some(env) && text_field(env, "out"@) == Some(
                own_placeholder("out"@),
            ) && (text_field(env, "rootOuts"@) matches Some(t) && split_seq(t, ' ') == outs) && (
            text_field(env, "rootNames"@) matches Some(t) && split_seq(t, '\n') == root_targets(
                roots,
            ))
        }),
{
    let d = aggregator_json(
        pname,
        intent,
        roots,
        outs,
        system,
        bash_path,
        bash_store,
        coreutils_store,
    );
    let m = d->Object_0;
    let env = m[7].1;
    let e = env->Object_0;
    reveal_strlit("name");
    reveal_strlit("system");
    reveal_strlit("builder");
    reveal_strlit("args");
    reveal_strlit("outputs");
    reveal_strlit("inputDrvs");
    reveal_strlit("inputSrcs");
    reveal_strlit("env");
    reveal_strlit("out");
    reveal_strlit("rootOuts");
    reveal_strlit("rootNames");
    assert("name"@.len() == 4 && "system"@.len() == 6 && "builder"@.len() == 7);
    assert("args"@.len() == 4 && "outputs"@.len() == 7 && "inputDrvs"@.len() == 9);
    assert("inputSrcs"@.len() == 9 && "env"@.len() == 3 && "out"@.len() == 3);
    assert("rootOuts"@.len() == 8 && "rootNames"@.len() == 9);
    assert("name"@[0] == 'n' && "args"@[0] == 'a' && "builder"@[0] == 'b' && "outputs"@[0] == 'o');
    assert("inputDrvs"@[5] == 'D' && "inputSrcs"@[5] == 'S');
    lemma_lookup_at(m, 0);
    lemma_lookup_at(m, 1);
    lemma_lookup_at(m, 2);
    lemma_lookup_at(m, 6);
    lemma_lookup_at(m, 7);
    assert(text_array(seq![coreutils_store, bash_store])->Array_0 =~= seq![
        JsonView::Text(coreutils_store),
        JsonView::Text(bash_store),
    ]);
    lemma_lookup_at(e, 0);
    lemma_lookup_at(e, 1);
    lemma_lookup_at(e, 2);
    reveal_strlit(" ");
    reveal_strlit("\n");
    assert(" "@ =~= seq![' ']);
    assert("\n"@ =~= seq!['\n']);
    let names = root_targets(roots);
    assert forall|i: int| 0 <= i < names.len() implies !(#[trigger] names[i]).contains('\n') by {
        assert(names[i] == roots[i].1);
    }
    lemma_split_joined(outs, ' ');
    lemma_split_joined(names, '\n');
}

// ---------------------------------------------------------------------------
// Diagnostics and durations
// ---------------------------------------------------------------------------

/// A diagnostic is shown, with the place of the store's copy replaced by the project's,
/// but for a summary; what is no diagnostic is not.
pub proof fn law_diagnostics_are_shown(
    rendered: Seq<char>,
    src: Seq<char>,
    project: Seq<char>,
)
    ensures
        emission(None, src, project) == (false, None::<Seq<char>>),
        has_substring(rendered, "aborting due to"@) || has_substring(rendered, "warning emitted"@)
            || has_substring(rendered, "warnings emitted"@) ==> emission(
            Some(Some(rendered)),
            src,
            project,
        ) == (true, None::<Seq<char>>),
        !is_summary(rendered) ==> emission(Some(Some(rendered)), src, project) == (
            true,
            Some(remapped(rendered, src, project)),
        ),
        src.len() > 0 ==> remapped(src + rendered, src, project) == project + remapped(
            rendered,
            src,
            project,
        ),
{
    if src.len() > 0 {
        let t = src + rendered;
        assert(t.take(src.len() as int) =~= src);
        assert(t.skip(src.len() as int) =~= rendered);
        assert(starts(t, src));
        assert(replace_seq(t, src, project) == project + replace_seq(rendered, src, project));
    }
}

/// A derivation was built until the next one was begun, and the last until the end.
pub proof fn law_durations(begins: Seq<u64>, end: u64, i: int)
    requires
        0 <= i < begins.len(),
    ensures
        i + 1 < begins.len() && begins[i] <= begins[i + 1] ==> begins[i] + duration_at(
            begins,
            end,
            i,
        ) == begins[i + 1],
        i + 1 == begins.len() && begins[i] <= end ==> begins[i] + duration_at(begins, end, i) == end,
{
}

/// What was announced and not built was cached.
pub proof fn law_cached_are_the_rest(total: u64, built: nat)
    ensures
        built <= total ==> cached_count(Some(total), built) + built == total,
        cached_count(None, built) == 0,
{
}

} // verus!
