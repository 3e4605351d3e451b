//! Nix encodings: base32, hexadecimal, hash compression, store path parsing.
use crate::text::{decimal, decimal_seq, owned, starts, strip_prefix};
use vstd::prelude::*;
use vstd::utf8::*;

verus! {

/// The Nix base32 alphabet (no e, o, t, u).
pub const NIX_BASE32: &'static str = "0123456789abcdfghijklmnpqrsvwxyz";

/// The characters of the alphabet.
pub open spec fn base32_alphabet() -> Seq<char> {
    "0123456789abcdfghijklmnpqrsvwxyz"@
}

/// Bit `p` of a byte string, counting from the low bit of the first byte;
/// zero behind the end.
pub open spec fn bit_at(input: Seq<u8>, p: int) -> u8 {
    if p / 8 < input.len() {
        (input[p / 8] >> ((p % 8) as u8)) & 1u8
    } else {
        0
    }
}

/// The value of the five bits that make up digit `n`, counted from the end.
pub open spec fn base32_digit(input: Seq<u8>, n: int) -> int {
    bit_at(input, n * 5) + 2 * bit_at(input, n * 5 + 1) + 4 * bit_at(input, n * 5 + 2) + 8 * bit_at(
        input,
        n * 5 + 3,
    ) + 16 * bit_at(input, n * 5 + 4)
}

/// The number of base32 digits of `n` bytes: the bits divided by five, rounded
/// up.
pub open spec fn base32_len(n: nat) -> nat {
    (n * 8 + 4) / 5
}

/// The base32 digits of a byte string, the last digit first.
pub open spec fn base32_seq(input: Seq<u8>) -> Seq<char> {
    let len = base32_len(input.len());
    Seq::new(len, |k: int| base32_alphabet()[base32_digit(input, len - 1 - k)])
}

fn bit(input: &[u8], p: usize) -> (r: u8)
    ensures
        r == bit_at(input@, p as int),
        r <= 1,
{
    if p / 8 < input.len() {
        let x: u8 = input[p / 8];
        let k: u8 = (p % 8) as u8;
        assert((x >> k) & 1u8 <= 1u8) by (bit_vector);
        (x >> k) & 1u8
    } else {
        0
    }
}

/// Encodes bytes in Nix base32.
pub fn nix_base32_encode(input: &[u8]) -> (r: String)
    requires
        input@.len() * 8 + 8 <= usize::MAX,
    ensures
        r@ == base32_seq(input@),
{
    let len: usize = (input.len() * 8 + 4) / 5;
    let mut r = String::new();
    let mut k: usize = 0;
    proof {
        reveal_strlit("0123456789abcdfghijklmnpqrsvwxyz");
    }
    while k < len
        invariant
            k <= len,
            len == base32_len(input@.len()),
            input@.len() * 8 + 8 <= usize::MAX,
            r@ == base32_seq(input@).take(k as int),
            base32_alphabet().len() == 32,
        decreases len - k,
    {
        let n: usize = len - 1 - k;
        let b0: u8 = bit(input, n * 5);
        let b1: u8 = bit(input, n * 5 + 1);
        let b2: u8 = bit(input, n * 5 + 2);
        let b3: u8 = bit(input, n * 5 + 3);
        let b4: u8 = bit(input, n * 5 + 4);
        let b: u8 = b0 + 2 * b1 + 4 * b2 + 8 * b3 + 16 * b4;
        let alphabet = "0123456789abcdfghijklmnpqrsvwxyz";
        r.push(alphabet.get_char(b as usize));
        assert(r@ =~= base32_seq(input@).take(k + 1));
        k = k + 1;
    }
    assert(base32_seq(input@).take(len as int) =~= base32_seq(input@));
    r
}

/// The hexadecimal digit of a value below sixteen.
pub open spec fn hex_char(d: int) -> char {
    if d < 10 {
        (48 + d) as char
    } else {
        (87 + d) as char
    }
}

/// Two lower-case hexadecimal digits for each byte.
pub open spec fn hex_seq(bytes: Seq<u8>) -> Seq<char> {
    Seq::new(
        bytes.len() * 2,
        |k: int|
            if k % 2 == 0 {
                hex_char(bytes[k / 2] as int / 16)
            } else {
                hex_char(bytes[k / 2] as int % 16)
            },
    )
}

fn hex_digit(d: u8) -> (c: char)
    requires
        d < 16,
    ensures
        c == hex_char(d as int),
{
    if d < 10 {
        (48 + d) as char
    } else {
        (87 + d) as char
    }
}

/// Encodes bytes in lower-case hexadecimal.
pub fn hex_lower(bytes: &[u8]) -> (r: String)
    ensures
        r@ == hex_seq(bytes@),
{
    let mut r = String::new();
    let mut i: usize = 0;
    while i < bytes.len()
        invariant
            i <= bytes@.len(),
            r@ == hex_seq(bytes@).take(i * 2),
        decreases bytes@.len() - i,
    {
        r.push(hex_digit(bytes[i] / 16));
        r.push(hex_digit(bytes[i] % 16));
        assert(r@ =~= hex_seq(bytes@).take((i + 1) * 2));
        i = i + 1;
    }
    assert(hex_seq(bytes@).take((bytes@.len() * 2) as int) =~= hex_seq(bytes@));
    r
}

/// The exclusive or of the bytes of `hash` at the positions `j`,
/// `j + target_len`, `j + 2 * target_len`, ...
pub open spec fn fold_column(hash: Seq<u8>, target_len: int, j: int) -> u8
    decreases hash.len(),
{
    if hash.len() == 0 {
        0
    } else if (hash.len() - 1) % target_len == j {
        fold_column(hash.drop_last(), target_len, j) ^ hash.last()
    } else {
        fold_column(hash.drop_last(), target_len, j)
    }
}

/// A hash folded to `target_len` bytes.
pub open spec fn compress_seq(hash: Seq<u8>, target_len: nat) -> Seq<u8> {
    Seq::new(target_len, |j: int| fold_column(hash, target_len as int, j))
}

/// XOR-folds a hash to a shorter length.
pub fn compress_hash(hash: &[u8], target_len: usize) -> (r: Vec<u8>)
    requires
        target_len > 0 || hash@.len() == 0,
    ensures
        r@ == compress_seq(hash@, target_len as nat),
{
    let mut r: Vec<u8> = Vec::new();
    let mut z: usize = 0;
    while z < target_len
        invariant
            z <= target_len,
            r@.len() == z,
            forall|j: int| 0 <= j < z ==> r@[j] == 0,
        decreases target_len - z,
    {
        r.push(0);
        z = z + 1;
    }
    let mut i: usize = 0;
    assert(r@ =~= compress_seq(hash@.take(0), target_len as nat));
    while i < hash.len()
        invariant
            i <= hash@.len(),
            target_len > 0 || hash@.len() == 0,
            r@ == compress_seq(hash@.take(i as int), target_len as nat),
        decreases hash@.len() - i,
    {
        let c: usize = i % target_len;
        let b: u8 = r[c] ^ hash[i];
        assert(hash@.take(i + 1).drop_last() =~= hash@.take(i as int));
        r.set(c, b);
        assert(r@ =~= compress_seq(hash@.take(i + 1), target_len as nat));
        i = i + 1;
    }
    assert(hash@.take(hash@.len() as int) =~= hash@);
    r
}

/// A store path without the store directory in front.
pub open spec fn after_store_dir(path: Seq<char>) -> Seq<char> {
    if starts(path, "/nix/store/"@) {
        path.skip("/nix/store/"@.len() as int)
    } else {
        path
    }
}

/// The message for a store path whose hash part is too short.
pub open spec fn hash_too_short(path: Seq<char>) -> Seq<char> {
    "store path hash too short ("@ + decimal_seq(encode_utf8(after_store_dir(path)).len())
        + " chars, need 32): "@ + path
}

/// Extracts the 32-byte hash part from a Nix store path.
pub fn extract_hash_part<'a>(store_path: &'a str) -> (r: Result<&'a str, String>)
    requires
        encode_utf8(after_store_dir(store_path@)).len() >= 32 ==> is_char_boundary(
            encode_utf8(after_store_dir(store_path@)),
            32,
        ),
        encode_utf8(after_store_dir(store_path@)).len() <= usize::MAX,
    ensures
        match r {
            Ok(h) => encode_utf8(after_store_dir(store_path@)).len() >= 32 && encode_utf8(h@)
                == encode_utf8(after_store_dir(store_path@)).take(32),
            Err(e) => encode_utf8(after_store_dir(store_path@)).len() < 32 && e@ == hash_too_short(
                store_path@,
            ),
        },
{
    let after = match strip_prefix(store_path, "/nix/store/") {
        Some(rest) => rest,
        None => store_path,
    };
    let n: usize = after.as_bytes().len();
    if n < 32 {
        let mut e = owned("store path hash too short (");
        let d = decimal(n as u64);
        e.append(d.as_str());
        e.append(" chars, need 32): ");
        e.append(store_path);
        return Err(e);
    }
    let (h, _) = after.split_at(32);
    Ok(h)
}

// ---------------------------------------------------------------------------
// Laws
// ---------------------------------------------------------------------------

/// Every character of a base32 string stands in the alphabet, and `n` bytes
/// give the bits divided by five, rounded up.
pub proof fn law_base32_shape(input: Seq<u8>)
    ensures
        base32_seq(input).len() == base32_len(input.len()),
        forall|k: int|
            0 <= k < base32_seq(input).len() ==> base32_alphabet().contains(
                #[trigger] base32_seq(input)[k],
            ),
{
    reveal_strlit("0123456789abcdfghijklmnpqrsvwxyz");
    assert forall|k: int| 0 <= k < base32_seq(input).len() implies base32_alphabet().contains(
        #[trigger] base32_seq(input)[k],
    ) by {
        let n = base32_len(input.len()) - 1 - k;
        lemma_bit_range(input, n * 5);
        lemma_bit_range(input, n * 5 + 1);
        lemma_bit_range(input, n * 5 + 2);
        lemma_bit_range(input, n * 5 + 3);
        lemma_bit_range(input, n * 5 + 4);
        assert(base32_seq(input)[k] == base32_alphabet()[base32_digit(input, n)]);
    }
}

proof fn lemma_bit_range(input: Seq<u8>, p: int)
    ensures
        bit_at(input, p) <= 1,
{
    let x = input[p / 8];
    let k = (p % 8) as u8;
    assert((x >> k) & 1u8 <= 1u8) by (bit_vector);
}

/// Folding a hash to its own length leaves it as it is.
pub proof fn law_compress_same_length(hash: Seq<u8>)
    ensures
        compress_seq(hash, hash.len()) == hash,
{
    assert forall|j: int| 0 <= j < hash.len() implies fold_column(hash, hash.len() as int, j)
        == hash[j] by {
        lemma_fold_short(hash, hash.len() as int, j);
    }
    assert(compress_seq(hash, hash.len()) =~= hash);
}

/// Folding a hash to half its length takes the exclusive or of its halves.
pub proof fn law_compress_half(a: Seq<u8>, b: Seq<u8>)
    requires
        a.len() == b.len(),
    ensures
        compress_seq(a + b, a.len()) == Seq::new(a.len(), |j: int| a[j] ^ b[j]),
{
    assert forall|j: int| 0 <= j < a.len() implies fold_column(a + b, a.len() as int, j) == (a[j]
        ^ b[j]) by {
        lemma_fold_two(a, b, b.len() as int, j);
        assert(b.take(b.len() as int) =~= b);
    }
    assert(compress_seq(a + b, a.len()) =~= Seq::new(a.len(), |j: int| a[j] ^ b[j]));
}

proof fn lemma_fold_short(hash: Seq<u8>, t: int, j: int)
    requires
        hash.len() <= t,
        0 <= j,
    ensures
        fold_column(hash, t, j) == (if j < hash.len() {
            hash[j]
        } else {
            0u8
        }),
    decreases hash.len(),
{
    if hash.len() > 0 {
        lemma_fold_short(hash.drop_last(), t, j);
        let n = hash.len() - 1;
        assert(n % t == n) by (nonlinear_arith)
            requires
                0 <= n < t,
        ;
        let x = hash.last();
        assert(0u8 ^ x == x) by (bit_vector);
    }
}

proof fn lemma_fold_two(a: Seq<u8>, b: Seq<u8>, m: int, j: int)
    requires
        a.len() == b.len(),
        0 <= j < a.len(),
        0 <= m <= b.len(),
    ensures
        fold_column(a + b.take(m), a.len() as int, j) == (if j < m {
            a[j] ^ b[j]
        } else {
            a[j]
        }),
    decreases m,
{
    let s = a + b.take(m);
    if m == 0 {
        assert(s =~= a);
        lemma_fold_short(a, a.len() as int, j);
    } else {
        assert(s.drop_last() =~= a + b.take(m - 1));
        lemma_fold_two(a, b, m - 1, j);
        let t = a.len() as int;
        assert((t + m - 1) % t == m - 1) by (nonlinear_arith)
            requires
                0 <= m - 1 < t,
        ;
    }
}

} // verus!
