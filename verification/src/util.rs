//! Shell quoting, derivation names, store paths in text, and the tools to look
//! for.
use crate::nix_encoding::base32_alphabet;
use crate::text::{
    all_ascii, alphanumeric, ascii_capitals, contains, ends, ends_with, from_chars, has_char,
    has_substring, insert_unique, is_alphanumeric, occurs, occurs_at, owned, replace, replace_seq,
    set_insert, sorted_set, starts, starts_with, strictly_sorted, to_chars, upper, uppercase, views,
};
use vstd::prelude::*;

verus! {

// ---------------------------------------------------------------------------
// Store paths in text
// ---------------------------------------------------------------------------

/// A store path begins at position `i`: the store directory, a hash of 32
/// characters of the base32 alphabet, and a dash.
pub open spec fn store_path_at(s: Seq<char>, i: int) -> bool {
    &&& occurs(s, "/nix/store/"@, i)
    &&& i + 44 <= s.len()
    &&& forall|k: int| i + 11 <= k < i + 43 ==> base32_alphabet().contains(#[trigger] s[k])
    &&& s[i + 43] == '-'
}

/// The characters that end the name of a store path.
pub open spec fn ends_name(c: char) -> bool {
    c == '/' || c == ' ' || c == '"' || c == '\'' || c == ')'
}

/// The first position at or after `i` of a character that ends a name.
pub open spec fn name_end(s: Seq<char>, i: int) -> int
    decreases s.len() - i,
{
    if i >= s.len() || ends_name(s[i]) {
        i
    } else {
        name_end(s, i + 1)
    }
}

/// The roots of the store paths that begin before position `n`.
pub open spec fn store_roots(s: Seq<char>, n: nat) -> Seq<Seq<char>>
    decreases n,
{
    if n == 0 {
        Seq::empty()
    } else if store_path_at(s, n - 1) {
        store_roots(s, (n - 1) as nat).push(s.subrange(n - 1, name_end(s, n - 1 + 44)))
    } else {
        store_roots(s, (n - 1) as nat)
    }
}

/// A sorted set with strings added one after the other.
pub open spec fn insert_all(s: Seq<Seq<char>>, more: Seq<Seq<char>>) -> Seq<Seq<char>>
    decreases more.len(),
{
    if more.len() == 0 {
        s
    } else {
        insert_unique(insert_all(s, more.drop_last()), more.last())
    }
}

/// Adding to the set of a sequence gives the set of the longer sequence.
pub proof fn lemma_insert_all(a: Seq<Seq<char>>, b: Seq<Seq<char>>)
    ensures
        insert_all(sorted_set(a), b) == sorted_set(a + b),
    decreases b.len(),
{
    if b.len() == 0 {
        assert(a + b =~= a);
    } else {
        lemma_insert_all(a, b.drop_last());
        assert((a + b).drop_last() =~= a + b.drop_last());
    }
}

fn in_alphabet(c: char) -> (r: bool)
    ensures
        r == base32_alphabet().contains(c),
{
    has_char("0123456789abcdfghijklmnpqrsvwxyz", c)
}

fn is_store_path_at(s: &Vec<char>, prefix: &Vec<char>, i: usize) -> (r: bool)
    requires
        i <= s@.len(),
        prefix@ == "/nix/store/"@,
    ensures
        r == store_path_at(s@, i as int),
{
    if !occurs_at(s, prefix, i) {
        return false;
    }
    if s.len() - i < 44 {
        return false;
    }
    let mut k: usize = i + 11;
    while k < i + 43
        invariant
            i + 44 <= s.len(),
            i + 11 <= k <= i + 43,
            forall|j: int| i + 11 <= j < k ==> base32_alphabet().contains(#[trigger] s@[j]),
        decreases i + 43 - k,
    {
        if !in_alphabet(s[k]) {
            assert(!base32_alphabet().contains(s@[k as int]));
            return false;
        }
        k = k + 1;
    }
    s[i + 43] == '-'
}

fn find_name_end(s: &Vec<char>, from: usize) -> (r: usize)
    requires
        from <= s@.len(),
    ensures
        r == name_end(s@, from as int),
        from <= r <= s@.len(),
{
    let mut i: usize = from;
    while i < s.len() && !(s[i] == '/' || s[i] == ' ' || s[i] == '"' || s[i] == '\'' || s[i]
        == ')')
        invariant
            from <= i <= s@.len(),
            name_end(s@, i as int) == name_end(s@, from as int),
        decreases s@.len() - i,
    {
        i = i + 1;
    }
    i
}

/// Adds the roots of all store paths that a text mentions to a sorted set.
/// Placeholder paths, whose hash uses other characters, are left out.
pub fn collect_store_paths(s: &str, paths: &mut Vec<String>)
    requires
        strictly_sorted(views(old(paths)@)),
    ensures
        views(final(paths)@) == insert_all(views(old(paths)@), store_roots(s@, s@.len())),
        strictly_sorted(views(final(paths)@)),
{
    let sc = to_chars(s);
    let prefix = to_chars("/nix/store/");
    let mut i: usize = 0;
    while i < sc.len()
        invariant
            i <= sc@.len(),
            sc@ == s@,
            prefix@ == "/nix/store/"@,
            strictly_sorted(views(paths@)),
            views(paths@) == insert_all(views(old(paths)@), store_roots(s@, i as nat)),
        decreases sc@.len() - i,
    {
        if is_store_path_at(&sc, &prefix, i) {
            let end: usize = find_name_end(&sc, i + 44);
            let root = from_chars(&sc, i, end);
            let ghost before = store_roots(s@, i as nat);
            set_insert(paths, root.as_str());
            assert(before.push(root@).drop_last() =~= before);
        }
        i = i + 1;
    }
}

// ---------------------------------------------------------------------------
// Quoting
// ---------------------------------------------------------------------------

/// A character that needs no quoting.
pub open spec fn plain_char(c: char) -> bool {
    alphanumeric(c) || "-_./+:,=@"@.contains(c)
}

/// A word as the shell takes it. What begins with a dollar sign is left to the
/// shell, and plain words stay as they are.
pub open spec fn quoted(s: Seq<char>) -> Seq<char> {
    if starts(s, "$"@) {
        s
    } else if s.len() > 0 && forall|i: int| 0 <= i < s.len() ==> plain_char(#[trigger] s[i]) {
        s
    } else {
        "'"@ + replace_seq(s, "'"@, "'\\''"@) + "'"@
    }
}

/// Quotes a word for the shell.
pub fn shell_quote(s: &str) -> (r: String)
    ensures
        r@ == quoted(s@),
{
    if starts_with(s, "$") {
        return owned(s);
    }
    let sc = to_chars(s);
    let mut plain = true;
    let mut i: usize = 0;
    while i < sc.len()
        invariant
            i <= sc@.len(),
            sc@ == s@,
            plain == (forall|j: int| 0 <= j < i ==> plain_char(#[trigger] s@[j])),
        decreases sc@.len() - i,
    {
        let ok = is_alphanumeric(sc[i]) || has_char("-_./+:,=@", sc[i]);
        if !ok {
            assert(!plain_char(s@[i as int]));
            plain = false;
        }
        i = i + 1;
    }
    if sc.len() > 0 && plain {
        return owned(s);
    }
    proof {
        reveal_strlit("'");
    }
    let mut r = owned("'");
    let body = replace(s, "'", "'\\''");
    r.append(body.as_str());
    r.append("'");
    r
}

// ---------------------------------------------------------------------------
// Derivation names
// ---------------------------------------------------------------------------

/// A character that may stand in a derivation's name.
pub open spec fn name_char(c: char) -> bool {
    alphanumeric(c) || c == '-' || c == '_' || c == '.' || c == '+'
}

/// Every other character as a dash.
pub open spec fn dashed(s: Seq<char>) -> Seq<char> {
    Seq::new(
        s.len(),
        |i: int|
            if name_char(s[i]) {
                s[i]
            } else {
                '-'
            },
    )
}

/// A derivation's name: every character that may not stand in one becomes a
/// dash, and a leading dot gets an underscore in front.
pub open spec fn drv_name_seq(s: Seq<char>) -> Seq<char> {
    if starts(dashed(s), "."@) {
        "_"@ + dashed(s)
    } else {
        dashed(s)
    }
}

/// Makes a text fit for a derivation's name.
pub fn sanitize_drv_name(name: &str) -> (r: String)
    ensures
        r@ == drv_name_seq(name@),
{
    let sc = to_chars(name);
    let mut s = String::new();
    let mut i: usize = 0;
    while i < sc.len()
        invariant
            i <= sc@.len(),
            sc@ == name@,
            s@ == dashed(name@).take(i as int),
        decreases sc@.len() - i,
    {
        let c = sc[i];
        if is_alphanumeric(c) || c == '-' || c == '_' || c == '.' || c == '+' {
            s.push(c);
        } else {
            s.push('-');
        }
        assert(s@ =~= dashed(name@).take(i + 1));
        i = i + 1;
    }
    assert(dashed(name@).take(name@.len() as int) =~= dashed(name@));
    if starts_with(s.as_str(), ".") {
        let mut r = owned("_");
        r.append(s.as_str());
        r
    } else {
        s
    }
}

// ---------------------------------------------------------------------------
// Tools
// ---------------------------------------------------------------------------

/// The variable that names the linker of a target.
pub open spec fn linker_env_seq(triple: Seq<char>) -> Seq<char> {
    "CARGO_TARGET_"@ + replace_seq(uppercase(triple), "-"@, "_"@) + "_LINKER"@
}

/// The variable that names the linker of a target.
pub fn linker_env_key(target_triple: &str) -> (r: String)
    ensures
        r@ == linker_env_seq(target_triple@),
        all_ascii(target_triple@) ==> r@ == "CARGO_TARGET_"@ + replace_seq(
            ascii_capitals(target_triple@),
            "-"@,
            "_"@,
        ) + "_LINKER"@,
{
    let mut r = owned("CARGO_TARGET_");
    proof {
        reveal_strlit("-");
    }
    let up = upper(target_triple);
    let body = replace(up.as_str(), "-", "_");
    r.append(body.as_str());
    r.append("_LINKER");
    r
}

/// The commands that may link for a target, the preferred one first.
pub open spec fn linker_names(triple: Seq<char>) -> Seq<Seq<char>> {
    if has_substring(triple, "msvc"@) {
        seq!["lld-link"@, "rust-lld"@]
    } else {
        seq![triple + "-"@ + "gcc"@, triple + "-"@ + "cc"@]
    }
}

/// The commands to look for as linker of a target: `lld-link` for MSVC, the
/// prefixed compilers otherwise.
pub fn linker_candidates(target_triple: &str) -> (r: Vec<String>)
    ensures
        views(r@) == linker_names(target_triple@),
{
    let mut r: Vec<String> = Vec::new();
    if contains(target_triple, "msvc") {
        r.push(owned("lld-link"));
        r.push(owned("rust-lld"));
    } else {
        let mut a = owned(target_triple);
        a.append("-");
        a.append("gcc");
        r.push(a);
        let mut b = owned(target_triple);
        b.append("-");
        b.append("cc");
        r.push(b);
    }
    assert(views(r@) =~= linker_names(target_triple@));
    r
}

/// The message for a target without a linker.
pub open spec fn no_linker_seq(triple: Seq<char>) -> Seq<char> {
    "Cross-linker not found for target "@ + triple + ". Set "@ + linker_env_seq(triple) + (
    if has_substring(triple, "msvc"@) {
        " or add lld-link to PATH."@
    } else {
        " or add "@ + triple + "-gcc to PATH."@
    })
}

/// The message for a target without a linker.
pub fn no_linker_message(target_triple: &str) -> (r: String)
    ensures
        r@ == no_linker_seq(target_triple@),
{
    let mut r = owned("Cross-linker not found for target ");
    r.append(target_triple);
    r.append(". Set ");
    let key = linker_env_key(target_triple);
    r.append(key.as_str());
    let tail = if contains(target_triple, "msvc") {
        owned(" or add lld-link to PATH.")
    } else {
        let mut t = owned(" or add ");
        t.append(target_triple);
        t.append("-gcc to PATH.");
        t
    };
    r.append(tail.as_str());
    r
}

/// A file of the sysroot is the `rlib` of a crate.
pub open spec fn sysroot_rlib(name: Seq<char>, crate_name: Seq<char>) -> bool {
    starts(name, "lib"@ + crate_name + "-"@) && ends(name, ".rlib"@)
}

/// Whether a file of the sysroot is the `rlib` of a crate.
pub fn is_sysroot_rlib(name: &str, crate_name: &str) -> (r: bool)
    ensures
        r == sysroot_rlib(name@, crate_name@),
{
    let mut prefix = owned("lib");
    prefix.append(crate_name);
    prefix.append("-");
    starts_with(name, prefix.as_str()) && ends_with(name, ".rlib")
}

// ---------------------------------------------------------------------------
// Laws
// ---------------------------------------------------------------------------

/// What the shell reads behind an opening quote: up to the closing one, where a
/// quote that is closed, escaped and opened again stands for itself.
pub open spec fn read_quoted(t: Seq<char>) -> Seq<char>
    decreases t.len(),
{
    if t.len() == 0 {
        Seq::empty()
    } else if t[0] == '\'' {
        if t.len() >= 4 && t[1] == '\\' && t[2] == '\'' && t[3] == '\'' {
            seq!['\''] + read_quoted(t.skip(4))
        } else {
            Seq::empty()
        }
    } else {
        seq![t[0]] + read_quoted(t.drop_first())
    }
}

/// A quoted word reads back as the word.
pub proof fn law_quote_reads_back(s: Seq<char>)
    ensures
        read_quoted(replace_seq(s, "'"@, "'\\''"@) + "'"@) == s,
    decreases s.len(),
{
    reveal_strlit("'");
    reveal_strlit("'\\''");
    let q = "'"@;
    let e = "'\\''"@;
    let t = replace_seq(s, q, e) + q;
    if s.len() == 0 {
        assert(t =~= q);
        assert(read_quoted(t) =~= s);
    } else {
        law_quote_reads_back(s.drop_first());
        assert(s.skip(1) =~= s.drop_first());
        let rest = replace_seq(s.drop_first(), q, e) + q;
        if s[0] == '\'' {
            assert(s.take(1) =~= q);
            assert(t =~= e + rest);
            assert(t.skip(4) =~= rest);
            assert(read_quoted(t) =~= seq!['\''] + s.drop_first());
        } else {
            assert(s.take(1)[0] != q[0]);
            assert(t =~= seq![s[0]] + rest);
            assert(t.drop_first() =~= rest);
            assert(read_quoted(t) =~= seq![s[0]] + s.drop_first());
        }
        assert(s =~= seq![s[0]] + s.drop_first());
    }
}

/// A derivation's name holds only characters that may stand in one and begins
/// with no dot.
pub proof fn law_drv_name_valid(s: Seq<char>)
    ensures
        forall|i: int| 0 <= i < drv_name_seq(s).len() ==> name_char(#[trigger] drv_name_seq(s)[i]),
        !starts(drv_name_seq(s), "."@),
{
    reveal_strlit(".");
    reveal_strlit("_");
    let d = dashed(s);
    assert forall|i: int| 0 <= i < d.len() implies name_char(#[trigger] d[i]) by {}
    if starts(d, "."@) {
        let r = "_"@ + d;
        assert(r[0] == '_');
        assert(r.take(1)[0] == '_');
        assert forall|i: int| 0 <= i < r.len() implies name_char(#[trigger] r[i]) by {
            if i > 0 {
                assert(r[i] == d[i - 1]);
            }
        }
    }
}

/// A name that has been made fit stays as it is.
pub proof fn law_drv_name_stable(s: Seq<char>)
    ensures
        drv_name_seq(drv_name_seq(s)) == drv_name_seq(s),
{
    law_drv_name_valid(s);
    assert(dashed(drv_name_seq(s)) =~= drv_name_seq(s));
}

/// Every store path found in a text begins with the store directory and a hash
/// of base32 characters followed by a dash.
pub proof fn law_store_roots_valid(s: Seq<char>, n: nat, i: int)
    requires
        n <= s.len(),
        0 <= i < store_roots(s, n).len(),
    ensures
        starts(store_roots(s, n)[i], "/nix/store/"@),
        store_roots(s, n)[i].len() >= 44,
        forall|k: int| 11 <= k < 43 ==> base32_alphabet().contains(#[trigger] store_roots(s, n)[i][k]),
        store_roots(s, n)[i][43] == '-',
    decreases n,
{
    let before = store_roots(s, (n - 1) as nat);
    if store_path_at(s, n - 1) && i == before.len() {
        let b = n - 1;
        let e = name_end(s, b + 44);
        lemma_name_end(s, b + 44);
        let r = s.subrange(b, e);
        reveal_strlit("/nix/store/");
        assert(r.take(11) =~= s.subrange(b, b + 11));
        assert forall|k: int| 11 <= k < 43 implies base32_alphabet().contains(#[trigger] r[k]) by {
            assert(r[k] == s[b + k]);
        }
    } else {
        law_store_roots_valid(s, (n - 1) as nat, i);
    }
}

proof fn lemma_name_end(s: Seq<char>, i: int)
    requires
        i <= s.len(),
    ensures
        i <= name_end(s, i) <= s.len(),
    decreases s.len() - i,
{
    if i < s.len() && !ends_name(s[i]) {
        lemma_name_end(s, i + 1);
    }
}

} // verus!
