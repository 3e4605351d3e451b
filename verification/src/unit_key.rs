//! Deterministic names of units: suffixes, hashes and keys.
use crate::hash::{sha256, sha256_digest};
use crate::nix_encoding::{hex_lower, hex_seq};
use crate::text::{join, join_seq, owned, views};
use crate::units::UnitKind;
use crate::util::{drv_name_seq, sanitize_drv_name};
use vstd::prelude::*;
use vstd::utf8::*;

verus! {

/// The suffix of a kind in identities and keys.
pub open spec fn kind_suffix(kind: UnitKind) -> Seq<char> {
    match kind {
        UnitKind::BuildScriptRun => "-run"@,
        UnitKind::BuildScriptCompile => "-build-script"@,
        UnitKind::TestCompile => "-test"@,
        UnitKind::Check => "-check"@,
        UnitKind::Doc => "-doc"@,
        UnitKind::Compile => ""@,
    }
}

/// The suffix of a kind in identities and keys.
pub fn suffix_of_kind(kind: UnitKind) -> (r: &'static str)
    ensures
        r@ == kind_suffix(kind),
{
    match kind {
        UnitKind::BuildScriptRun => "-run",
        UnitKind::BuildScriptCompile => "-build-script",
        UnitKind::TestCompile => "-test",
        UnitKind::Check => "-check",
        UnitKind::Doc => "-doc",
        UnitKind::Compile => "",
    }
}

/// The suffix of a kind in a derivation's name.
pub open spec fn drv_name_suffix(kind: UnitKind) -> Seq<char> {
    match kind {
        UnitKind::BuildScriptRun => "-run-build-script"@,
        UnitKind::BuildScriptCompile => "-build-script"@,
        UnitKind::TestCompile => "-test"@,
        UnitKind::Check => "-check"@,
        UnitKind::Doc => "-doc"@,
        UnitKind::Compile => ""@,
    }
}

/// The suffix of a kind in a derivation's name.
pub fn mode_suffix_for_drv_name(kind: &UnitKind) -> (r: &'static str)
    ensures
        r@ == drv_name_suffix(*kind),
{
    match kind {
        UnitKind::BuildScriptCompile => "-build-script",
        UnitKind::BuildScriptRun => "-run-build-script",
        UnitKind::TestCompile => "-test",
        UnitKind::Check => "-check",
        UnitKind::Doc => "-doc",
        UnitKind::Compile => "",
    }
}

/// The suffix of a unit that compiles for the host.
pub open spec fn host_suffix(for_host: bool) -> Seq<char> {
    if for_host {
        "-host"@
    } else {
        ""@
    }
}

/// The suffix of a unit that compiles for the host.
pub fn suffix_of_host(for_host: bool) -> (r: &'static str)
    ensures
        r@ == host_suffix(for_host),
{
    if for_host {
        "-host"
    } else {
        ""
    }
}

/// The first eight bytes of a digest, read as a little-endian number, in
/// sixteen hexadecimal digits.
pub open spec fn short_hash_seq(digest: Seq<u8>) -> Seq<char> {
    hex_seq(Seq::new(8, |i: int| digest[7 - i]))
}

/// The first eight bytes of a digest, read as a little-endian number, in
/// sixteen hexadecimal digits.
pub fn short_hash(digest: &[u8]) -> (r: String)
    requires
        digest@.len() >= 8,
    ensures
        r@ == short_hash_seq(digest@),
{
    let mut b: Vec<u8> = Vec::new();
    let mut i: usize = 0;
    while i < 8
        invariant
            i <= 8,
            digest@.len() >= 8,
            b@.len() == i,
            forall|j: int| 0 <= j < i ==> b@[j] == digest@[7 - j],
        decreases 8 - i,
    {
        b.push(digest[7 - i]);
        i = i + 1;
    }
    assert(b@ =~= Seq::new(8, |i: int| digest@[7 - i]));
    hex_lower(b.as_slice())
}

/// The short hash of a text.
pub open spec fn text_hash(s: Seq<char>) -> Seq<char> {
    short_hash_seq(sha256_digest(encode_utf8(s)))
}

/// The short hash of a text.
pub fn hash_text(s: &str) -> (r: String)
    ensures
        r@ == text_hash(s@),
{
    let d = sha256(s.as_bytes());
    short_hash(d.as_slice())
}

/// What goes into the hash of an extra file name.
pub open spec fn extra_filename_input(
    pkg_name: Seq<char>,
    pkg_version: Seq<char>,
    target_name: Seq<char>,
    features: Seq<Seq<char>>,
    crate_types: Seq<Seq<char>>,
) -> Seq<char> {
    pkg_name + "-"@ + pkg_version + "-"@ + target_name + "-"@ + join_seq(features, ","@) + "-"@
        + join_seq(crate_types, ","@)
}

/// The extra file name of a unit: a dash and a hash.
pub open spec fn extra_filename_seq(
    pkg_name: Seq<char>,
    pkg_version: Seq<char>,
    target_name: Seq<char>,
    features: Seq<Seq<char>>,
    crate_types: Seq<Seq<char>>,
) -> Seq<char> {
    "-"@ + text_hash(extra_filename_input(pkg_name, pkg_version, target_name, features, crate_types))
}

/// Computes the extra file name of a unit. Features and crate types go into it,
/// so that no two configurations of a crate collide.
pub fn compute_extra_filename(
    pkg_name: &str,
    pkg_version: &str,
    target_name: &str,
    features: &Vec<String>,
    crate_types: &Vec<String>,
) -> (r: String)
    ensures
        r@ == extra_filename_seq(
            pkg_name@,
            pkg_version@,
            target_name@,
            views(features@),
            views(crate_types@),
        ),
{
    let mut input = owned(pkg_name);
    input.append("-");
    input.append(pkg_version);
    input.append("-");
    input.append(target_name);
    input.append("-");
    let f = join(features, ",");
    input.append(f.as_str());
    input.append("-");
    let c = join(crate_types, ",");
    input.append(c.as_str());
    let h = hash_text(input.as_str());
    let mut r = owned("-");
    r.append(h.as_str());
    r
}

/// The identity of a compilation: what decides rustc's output.
pub open spec fn identity_seq(
    pkg_name: Seq<char>,
    pkg_version: Seq<char>,
    target_name: Seq<char>,
    suffix: Seq<char>,
    for_host: bool,
    edition: Seq<char>,
    crate_types: Seq<char>,
    features: Seq<Seq<char>>,
) -> Seq<char> {
    pkg_name + "-"@ + pkg_version + "-"@ + target_name + suffix + host_suffix(for_host) + "-"@
        + edition + "-"@ + crate_types + "-"@ + join_seq(features, ","@)
}

/// Writes the identity of a compilation; `crate_types` is the printed list.
pub fn identity_text(
    pkg_name: &str,
    pkg_version: &str,
    target_name: &str,
    suffix: &str,
    for_host: bool,
    edition: &str,
    crate_types: &str,
    features: &Vec<String>,
) -> (r: String)
    ensures
        r@ == identity_seq(
            pkg_name@,
            pkg_version@,
            target_name@,
            suffix@,
            for_host,
            edition@,
            crate_types@,
            views(features@),
        ),
{
    let mut r = owned(pkg_name);
    r.append("-");
    r.append(pkg_version);
    r.append("-");
    r.append(target_name);
    r.append(suffix);
    r.append(suffix_of_host(for_host));
    r.append("-");
    r.append(edition);
    r.append("-");
    r.append(crate_types);
    r.append("-");
    let f = join(features, ",");
    r.append(f.as_str());
    r
}

/// The key of a unit: readable parts and the hash of its identity.
pub open spec fn unit_key_seq(
    pkg_name: Seq<char>,
    pkg_version: Seq<char>,
    target_name: Seq<char>,
    suffix: Seq<char>,
    proc_macro: bool,
    identity: Seq<char>,
) -> Seq<char> {
    drv_name_seq(
        pkg_name + "-"@ + pkg_version + "-"@ + target_name + suffix + (if proc_macro {
            "-pm"@
        } else {
            ""@
        }) + "-"@ + text_hash(identity),
    )
}

/// Writes the key of a unit.
pub fn unit_key_text(
    pkg_name: &str,
    pkg_version: &str,
    target_name: &str,
    suffix: &str,
    proc_macro: bool,
    identity: &str,
) -> (r: String)
    ensures
        r@ == unit_key_seq(
            pkg_name@,
            pkg_version@,
            target_name@,
            suffix@,
            proc_macro,
            identity@,
        ),
{
    let mut s = owned(pkg_name);
    s.append("-");
    s.append(pkg_version);
    s.append("-");
    s.append(target_name);
    s.append(suffix);
    if proc_macro {
        s.append("-pm");
    } else {
        s.append("");
    }
    s.append("-");
    let h = hash_text(identity);
    s.append(h.as_str());
    sanitize_drv_name(s.as_str())
}

} // verus!
