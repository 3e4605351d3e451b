//! Placeholders for store paths that are not known yet.
use crate::aterm::store_path_seq;
use crate::hash::{sha256, sha256_digest};
use crate::nix_encoding::{
    after_store_dir, base32_alphabet, base32_seq, compress_seq, extract_hash_part, hash_too_short,
    law_base32_shape, nix_base32_encode,
};
use crate::text::{ends, owned, same, strip_prefix, strip_suffix};
use vstd::prelude::*;
use vstd::utf8::*;

verus! {

/// A text, or the message of why there is none.
pub type TextResult = Result<Seq<char>, Seq<char>>;

/// What a function that writes a text returned.
pub open spec fn text_view(r: Result<String, String>) -> TextResult {
    match r {
        Ok(s) => Ok(s@),
        Err(e) => Err(e@),
    }
}

/// The characters of the first `n` bytes of a text.
pub open spec fn take_bytes(s: Seq<char>, n: int) -> Seq<char> {
    decode_utf8(encode_utf8(s).take(n))
}

/// The characters behind the first `n` bytes of a text.
pub open spec fn drop_bytes(s: Seq<char>, n: int) -> Seq<char> {
    decode_utf8(encode_utf8(s).skip(n))
}

/// The hash and the name of a derivation's path can be cut out of it: no
/// character straddles the ends of the hash and of the dash behind it.
pub open spec fn drv_sliceable(path: Seq<char>) -> bool {
    let b = encode_utf8(after_store_dir(path));
    &&& b.len() <= usize::MAX
    &&& b.len() >= 32 ==> is_char_boundary(b, 32)
    &&& b.len() > 33 ==> is_char_boundary(b, 33)
}

/// Whether the hash and the name of a derivation's path can be cut out of it.
pub fn is_drv_sliceable(path: &str) -> (r: bool)
    ensures
        r == drv_sliceable(path@),
{
    let after = match strip_prefix(path, "/nix/store/") {
        Some(rest) => rest,
        None => path,
    };
    let n: usize = after.as_bytes().len();
    (n < 32 || after.is_char_boundary(32)) && (n <= 33 || after.is_char_boundary(33))
}

/// The name of a derivation in its path.
pub open spec fn drv_name_of(path: Seq<char>) -> Seq<char> {
    let name = drop_bytes(after_store_dir(path), 33);
    if ends(name, ".drv"@) {
        name.take(name.len() - 4)
    } else {
        name
    }
}

/// What goes into the hash of an output's placeholder.
pub open spec fn placeholder_input(path: Seq<char>, output: Seq<char>) -> Seq<char> {
    "nix-upstream-output:"@ + take_bytes(after_store_dir(path), 32) + ":"@ + (if output == "out"@ {
        drv_name_of(path)
    } else {
        drv_name_of(path) + "-"@ + output
    })
}

/// The placeholder that a digest gives.
pub open spec fn placeholder_seq(digest: Seq<u8>) -> Seq<char> {
    "/"@ + base32_seq(digest)
}

/// The placeholder that a digest gives.
pub fn placeholder_from_digest(digest: &[u8]) -> (r: String)
    requires
        digest@.len() == 32,
    ensures
        r@ == placeholder_seq(digest@),
{
    let mut r = owned("/");
    let b = nix_base32_encode(digest);
    r.append(b.as_str());
    r
}

/// The placeholder of an output of a derivation.
#[verifier::opaque]
pub open spec fn output_placeholder(path: Seq<char>, output: Seq<char>) -> TextResult {
    let n = encode_utf8(after_store_dir(path)).len();
    if n < 32 {
        Err(hash_too_short(path))
    } else if n <= 33 {
        Err("malformed drv store path (too short): "@ + path)
    } else {
        Ok(placeholder_seq(sha256_digest(encode_utf8(placeholder_input(path, output)))))
    }
}

/// Writes what goes into the hash of an output's placeholder.
pub fn placeholder_text(hash_part: &str, drv_name: &str, output: &str) -> (r: String)
    ensures
        r@ == "nix-upstream-output:"@ + hash_part@ + ":"@ + (if output@ == "out"@ {
            drv_name@
        } else {
            drv_name@ + "-"@ + output@
        }),
{
    let mut path_name = owned(drv_name);
    if !same(output, "out") {
        path_name.append("-");
        path_name.append(output);
    }
    let mut r = owned("nix-upstream-output:");
    r.append(hash_part);
    r.append(":");
    r.append(path_name.as_str());
    r
}

/// Computes the placeholder that stands for an output of a derivation which is
/// still to be built.
pub fn downstream_placeholder(drv_store_path: &str, output_name: &str) -> (r: Result<
    String,
    String,
>)
    requires
        drv_sliceable(drv_store_path@),
    ensures
        text_view(r) == output_placeholder(drv_store_path@, output_name@),
{
    proof {
        reveal(output_placeholder);
    }
    let hash_part = match extract_hash_part(drv_store_path) {
        Ok(h) => h,
        Err(e) => return Err(e),
    };
    let basename = match strip_prefix(drv_store_path, "/nix/store/") {
        Some(rest) => rest,
        None => drv_store_path,
    };
    if basename.as_bytes().len() <= 33 {
        let mut e = owned("malformed drv store path (too short): ");
        e.append(drv_store_path);
        return Err(e);
    }
    let (_, full_name) = basename.split_at(33);
    proof {
        encode_utf8_decode_utf8(hash_part@);
        encode_utf8_decode_utf8(full_name@);
        assert(encode_utf8(basename@).subrange(33, encode_utf8(basename@).len() as int)
            =~= encode_utf8(basename@).skip(33));
        assert(full_name@ == drop_bytes(after_store_dir(drv_store_path@), 33));
        assert(hash_part@ == take_bytes(after_store_dir(drv_store_path@), 32));
        reveal_strlit(".drv");
    }
    let drv_name = match strip_suffix(full_name, ".drv") {
        Some(n) => n,
        None => full_name,
    };
    let input = placeholder_text(hash_part, drv_name, output_name);
    assert(input@ == placeholder_input(drv_store_path@, output_name@));
    let digest = sha256(input.as_str().as_bytes());
    Ok(placeholder_from_digest(digest.as_slice()))
}

/// The placeholder of a derivation's own output.
pub open spec fn own_placeholder(output: Seq<char>) -> Seq<char> {
    placeholder_seq(sha256_digest(encode_utf8("nix-output:"@ + output)))
}

/// Computes the placeholder by which a derivation names its own output.
pub fn self_placeholder(output_name: &str) -> (r: String)
    ensures
        r@ == own_placeholder(output_name@),
{
    let mut input = owned("nix-output:");
    input.append(output_name);
    let digest = sha256(input.as_str().as_bytes());
    placeholder_from_digest(digest.as_slice())
}

// ---------------------------------------------------------------------------
// Computed paths
// ---------------------------------------------------------------------------

/// Behind characters of one byte stands the start of a character.
proof fn lemma_ascii_boundary(s: Seq<char>, n: int)
    requires
        0 <= n <= s.len(),
        forall|i: int| 0 <= i < n ==> (#[trigger] s[i] as u32) < 128,
    ensures
        encode_utf8(s).len() >= n,
        is_char_boundary(encode_utf8(s), n),
    decreases n,
{
    encode_utf8_valid_utf8(s);
    if n > 0 {
        let b = encode_utf8(s);
        let rest = s.drop_first();
        encode_utf8_first_scalar(s);
        assert((s[0] as u32) < 128);
        assert forall|i: int| 0 <= i < n - 1 implies (#[trigger] rest[i] as u32) < 128 by {
            assert(rest[i] == s[i + 1]);
        }
        lemma_ascii_boundary(rest, n - 1);
        assert(pop_first_scalar(b) =~= encode_utf8(rest));
    }
}

/// The hash and the name can be cut out of every store path that is computed from
/// a digest.
pub proof fn law_computed_path_sliceable(digest: Seq<u8>, name: Seq<char>)
    requires
        encode_utf8(after_store_dir(store_path_seq(digest, name))).len() <= usize::MAX,
    ensures
        drv_sliceable(store_path_seq(digest, name)),
{
    let hash = base32_seq(compress_seq(digest, 20));
    let path = store_path_seq(digest, name);
    let rest = hash + "-"@ + name;
    reveal_strlit("-");
    reveal_strlit("/nix/store/");
    reveal_strlit("0123456789abcdfghijklmnpqrsvwxyz");
    law_base32_shape(compress_seq(digest, 20));
    assert(hash.len() == 32);
    assert(path.take("/nix/store/"@.len() as int) =~= "/nix/store/"@);
    assert(path.skip("/nix/store/"@.len() as int) =~= rest);
    assert forall|i: int| 0 <= i < 33 implies (#[trigger] rest[i] as u32) < 128 by {
        if i < 32 {
            assert(rest[i] == hash[i]);
            assert(base32_alphabet().contains(hash[i]));
        } else {
            assert(rest[i] == '-');
        }
    }
    lemma_ascii_boundary(rest, 32);
    lemma_ascii_boundary(rest, 33);
}

} // verus!
