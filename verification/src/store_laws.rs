//! What goes into a store path, as Nix takes it apart.
use crate::aterm::{drv_store_path, store_path_seq, text_fingerprint_seq};
use crate::hash::sha256_digest;
use crate::nar::{nar_store_path, source_fingerprint_seq};
use crate::nix_encoding::{base32_seq, compress_seq, hex_seq, law_base32_shape};
use crate::text::{join_seq, lemma_sort_seq, sort_seq, sorted, split_seq, starts};
use crate::wording::{lemma_join_concat, lemma_split_joined};
use vstd::prelude::*;
use vstd::utf8::*;

verus! {

/// The value of a lower-case hexadecimal digit.
pub open spec fn hex_value(c: char) -> int {
    if '0' <= c && c <= '9' {
        c as int - '0' as int
    } else if 'a' <= c && c <= 'f' {
        c as int - 'a' as int + 10
    } else {
        -1
    }
}

/// Hexadecimal digits read back to the bytes: two digits for each, the high one first.
pub proof fn law_hex_reads_back(bytes: Seq<u8>)
    ensures
        hex_seq(bytes).len() == 2 * bytes.len(),
        forall|k: int|
            0 <= k < hex_seq(bytes).len() ==> 0 <= hex_value(#[trigger] hex_seq(bytes)[k]) < 16,
        forall|i: int|
            0 <= i < bytes.len() ==> #[trigger] bytes[i] == 16 * hex_value(hex_seq(bytes)[2 * i])
                + hex_value(hex_seq(bytes)[2 * i + 1]),
{
    let h = hex_seq(bytes);
    assert forall|k: int| 0 <= k < h.len() implies 0 <= hex_value(#[trigger] h[k]) < 16 by {
        let b = bytes[k / 2] as int;
        assert(0 <= b / 16 < 16 && 0 <= b % 16 < 16);
    }
    assert forall|i: int| 0 <= i < bytes.len() implies #[trigger] bytes[i] == 16 * hex_value(
        h[2 * i],
    ) + hex_value(h[2 * i + 1]) by {
        let b = bytes[i] as int;
        assert((2 * i) / 2 == i && (2 * i + 1) / 2 == i);
        assert(0 <= b / 16 < 16 && 0 <= b % 16 < 16);
        assert(b == 16 * (b / 16) + b % 16);
    }
}

proof fn lemma_hex_no_colon(bytes: Seq<u8>)
    ensures
        !hex_seq(bytes).contains(':'),
{
    law_hex_reads_back(bytes);
    let h = hex_seq(bytes);
    assert forall|k: int| 0 <= k < h.len() implies h[k] != ':' by {
        assert(hex_value(h[k]) >= 0);
    }
}

/// Four words behind a list, joined by colons.
proof fn lemma_fingerprint_joined(front: Seq<Seq<char>>, hex: Seq<char>, name: Seq<char>)
    requires
        front.len() > 0,
    ensures
        join_seq(front + seq!["sha256"@, hex, "/nix/store"@, name], seq![':']) == join_seq(
            front,
            seq![':'],
        ) + ":sha256:"@ + hex + ":/nix/store:"@ + name,
{
    let c = seq![':'];
    let tail = seq!["sha256"@, hex, "/nix/store"@, name];
    reveal_strlit(":sha256:");
    reveal_strlit("sha256");
    reveal_strlit(":/nix/store:");
    reveal_strlit("/nix/store");
    lemma_join_concat(front, tail, c);
    assert(tail.drop_last() =~= seq!["sha256"@, hex, "/nix/store"@]);
    assert(tail.drop_last().drop_last() =~= seq!["sha256"@, hex]);
    assert(tail.drop_last().drop_last().drop_last() =~= seq!["sha256"@]);
    reveal_with_fuel(join_seq, 5);
    assert(join_seq(tail, c) =~= "sha256"@ + c + hex + c + "/nix/store"@ + c + name);
    assert(join_seq(front, c) + c + join_seq(tail, c) =~= join_seq(front, c) + ":sha256:"@ + hex
        + ":/nix/store:"@ + name);
}

/// The fingerprint of a text in the store is, between colons: the word `text`, the
/// references in order, the word `sha256`, the digest of the contents in hexadecimal
/// digits, the store directory and the name. Store paths and names hold no colon.
pub proof fn law_text_fingerprint_parts(inner: Seq<u8>, refs: Seq<Seq<char>>, name: Seq<char>)
    requires
        !name.contains(':'),
        forall|i: int| 0 <= i < refs.len() ==> !(#[trigger] refs[i]).contains(':'),
    ensures
        ({
            let parts = split_seq(text_fingerprint_seq(inner, refs, name), ':');
            let n = refs.len() as int;
            &&& parts.len() == n + 5
            &&& parts[0] == "text"@
            &&& sorted(parts.subrange(1, n + 1))
            &&& parts.subrange(1, n + 1).to_multiset() == refs.to_multiset()
            &&& parts[n + 1] == "sha256"@
            &&& parts[n + 2].len() == 2 * inner.len()
            &&& forall|i: int|
                0 <= i < inner.len() ==> #[trigger] inner[i] == 16 * hex_value(parts[n + 2][2 * i])
                    + hex_value(parts[n + 2][2 * i + 1])
            &&& parts[n + 3] == "/nix/store"@
            &&& parts[n + 4] == name
        }),
{
    broadcast use vstd::seq_lib::group_to_multiset_ensures;

    let c = seq![':'];
    let s = sort_seq(refs);
    let n = refs.len() as int;
    let front = seq!["text"@] + s;
    let tail = seq!["sha256"@, hex_seq(inner), "/nix/store"@, name];
    let words = front + tail;
    lemma_sort_seq(refs);
    law_hex_reads_back(inner);
    lemma_hex_no_colon(inner);
    reveal_strlit("text");
    reveal_strlit("sha256");
    reveal_strlit("/nix/store");
    reveal_strlit(":");
    assert(":"@ =~= c);
    assert forall|i: int| 0 <= i < words.len() implies !(#[trigger] words[i]).contains(':') by {
        if 1 <= i && i < n + 1 {
            assert(words[i] == s[i - 1]);
            assert(s.contains(s[i - 1]));
            assert(s.to_multiset().count(s[i - 1]) > 0);
            assert(refs.contains(s[i - 1]));
            let k = choose|k: int| 0 <= k < refs.len() && refs[k] == s[i - 1];
            assert(!refs[k].contains(':'));
        }
    }
    lemma_split_joined(words, ':');
    lemma_fingerprint_joined(front, hex_seq(inner), name);
    if n == 0 {
        assert(front =~= seq!["text"@]);
        assert(join_seq(front, c) == "text"@);
    } else {
        lemma_join_concat(seq!["text"@], s, c);
        assert(join_seq(seq!["text"@], c) == "text"@);
    }
    assert(text_fingerprint_seq(inner, refs, name) =~= join_seq(words, c));
    assert(words.subrange(1, n + 1) =~= s);
}

/// The fingerprint of a source is, between colons: the words `source` and `sha256`, the
/// digest of the archive in hexadecimal digits, the store directory and the name.
pub proof fn law_source_fingerprint_parts(inner: Seq<u8>, name: Seq<char>)
    requires
        !name.contains(':'),
    ensures
        ({
            let parts = split_seq(source_fingerprint_seq(inner, name), ':');
            &&& parts.len() == 5
            &&& parts[0] == "source"@
            &&& parts[1] == "sha256"@
            &&& parts[2].len() == 2 * inner.len()
            &&& forall|i: int|
                0 <= i < inner.len() ==> #[trigger] inner[i] == 16 * hex_value(parts[2][2 * i])
                    + hex_value(parts[2][2 * i + 1])
            &&& parts[3] == "/nix/store"@
            &&& parts[4] == name
        }),
{
    let c = seq![':'];
    let front = seq!["source"@];
    let words = front + seq!["sha256"@, hex_seq(inner), "/nix/store"@, name];
    law_hex_reads_back(inner);
    lemma_hex_no_colon(inner);
    reveal_strlit("source");
    reveal_strlit("sha256");
    reveal_strlit("/nix/store");
    reveal_strlit("source:sha256:");
    reveal_strlit(":sha256:");
    assert forall|i: int| 0 <= i < words.len() implies !(#[trigger] words[i]).contains(':') by {}
    lemma_split_joined(words, ':');
    lemma_fingerprint_joined(front, hex_seq(inner), name);
    assert(join_seq(front, c) == "source"@);
    assert("source:sha256:"@ =~= "source"@ + ":sha256:"@);
    assert(source_fingerprint_seq(inner, name) =~= join_seq(words, c));
}

/// A store path is the store directory, a hash of 32 characters, a dash and the name,
/// where the name has no part in what comes before it.
pub proof fn law_store_path_shape(digest: Seq<u8>, name: Seq<char>, other: Seq<char>)
    ensures
        store_path_seq(digest, name).len() == 44 + name.len(),
        starts(store_path_seq(digest, name), "/nix/store/"@),
        store_path_seq(digest, name)[43] == '-',
        store_path_seq(digest, name).skip(44) == name,
        store_path_seq(digest, name).take(44) == store_path_seq(digest, other).take(44),
{
    reveal_strlit("/nix/store/");
    reveal_strlit("-");
    let hash = base32_seq(compress_seq(digest, 20));
    law_base32_shape(compress_seq(digest, 20));
    let path = store_path_seq(digest, name);
    let head = "/nix/store/"@ + hash + "-"@;
    assert(hash.len() == 32);
    assert(path =~= head + name);
    assert(store_path_seq(digest, other) =~= head + other);
    assert(path.take(11) =~= "/nix/store/"@);
    assert(path.skip(44) =~= name);
    assert(path.take(44) =~= head);
    assert(store_path_seq(digest, other).take(44) =~= head);
}

/// The path of a `.drv` file ends in its name behind the hash, and the hash is that of the
/// fingerprint's bytes.
pub proof fn law_drv_path_of_fingerprint(
    name: Seq<char>,
    aterm: Seq<u8>,
    refs: Seq<Seq<char>>,
)
    ensures
        drv_store_path(name, aterm, refs).skip(44) == name,
        drv_store_path(name, aterm, refs) == store_path_seq(
            sha256_digest(encode_utf8(text_fingerprint_seq(sha256_digest(aterm), refs, name))),
            name,
        ),
{
    law_store_path_shape(
        sha256_digest(encode_utf8(text_fingerprint_seq(sha256_digest(aterm), refs, name))),
        name,
        name,
    );
}

/// The path of a source ends in its name behind the hash, and the hash is that of the
/// fingerprint's bytes.
pub proof fn law_source_path_of_fingerprint(name: Seq<char>, nar: Seq<u8>)
    ensures
        nar_store_path(name, nar).skip(44) == name,
        nar_store_path(name, nar) == store_path_seq(
            sha256_digest(encode_utf8(source_fingerprint_seq(sha256_digest(nar), name))),
            name,
        ),
{
    law_store_path_shape(
        sha256_digest(encode_utf8(source_fingerprint_seq(sha256_digest(nar), name))),
        name,
        name,
    );
}

} // verus!
