//! Status lines, and what a derivation's path tells of the unit that it builds.
use crate::nix_encoding::after_store_dir;
use crate::placeholder::drop_bytes;
use crate::text::{
    digit, ends, ends_with, find_char, first_of, has_char, is_digit, join, join_seq,
    lemma_split_concat, lemma_split_join, lemma_split_nonempty, lemma_split_whole, owned, split,
    split_seq, starts, strip_prefix, strip_suffix, to_chars, trim, trim_seq, views,
};
use crate::unit_key::drv_name_suffix;
use crate::units::UnitKind;
use vstd::prelude::*;
use vstd::utf8::*;

verus! {

/// What a derivation does.
#[derive(Debug, Clone, Copy, PartialEq, Eq, Structural)]
pub enum DrvKind {
    Compile,
    Check,
    TestCompile,
    BuildScriptCompile,
    BuildScriptRun,
}

// ---------------------------------------------------------------------------
// Status lines
// ---------------------------------------------------------------------------

/// `n` spaces.
pub open spec fn spaces(n: nat) -> Seq<char> {
    Seq::new(n, |i: int| ' ')
}

/// The text, moved to the right end of a field of the given width.
pub open spec fn right_aligned(s: Seq<char>, width: nat) -> Seq<char> {
    if s.len() < width {
        spaces((width - s.len()) as nat) + s
    } else {
        s
    }
}

/// Moves the text to the right end of a field of the given width.
pub fn align_right(s: &str, width: usize) -> (r: String)
    ensures
        r@ == right_aligned(s@, width as nat),
{
    let n: usize = s.unicode_len();
    let mut r = owned("");
    proof {
        reveal_strlit("");
    }
    if n < width {
        let mut i: usize = 0;
        assert(r@ =~= spaces(0));
        while i < width - n
            invariant
                n < width,
                i <= width - n,
                r@ == spaces(i as nat),
            decreases width - n - i,
        {
            r.push(' ');
            i = i + 1;
            assert(r@ =~= spaces(i as nat));
        }
    }
    r.append(s);
    assert(r@ =~= right_aligned(s@, width as nat));
    r
}

/// A status line: the label in a field of twelve characters, in bold green on a
/// terminal, and the message.
pub open spec fn status_seq(label: Seq<char>, message: Seq<char>, terminal: bool) -> Seq<char> {
    if terminal {
        "\x1b[1;32m"@ + right_aligned(label, 12) + "\x1b[0m "@ + message
    } else {
        right_aligned(label, 12) + " "@ + message
    }
}

/// Writes a status line.
pub fn status_line(label: &str, message: &str, terminal: bool) -> (r: String)
    ensures
        r@ == status_seq(label@, message@, terminal),
{
    let field = align_right(label, 12);
    if terminal {
        let mut r = owned("\x1b[1;32m");
        r.append(field.as_str());
        r.append("\x1b[0m ");
        r.append(message);
        r
    } else {
        let mut r = field;
        r.append(" ");
        r.append(message);
        r
    }
}

// ---------------------------------------------------------------------------
// Derivation names
// ---------------------------------------------------------------------------

/// Whether a hash and a dash stand before the name in the last part of a path.
pub open spec fn has_hash(base: Seq<char>) -> bool {
    let b = encode_utf8(base);
    b.len() > 33 && b[32] == 0x2d
}

/// The last part of a path without a hash and a dash before the name.
pub open spec fn behind_hash(base: Seq<char>) -> Seq<char> {
    if has_hash(base) {
        drop_bytes(base, 33)
    } else {
        base
    }
}

/// The name in a derivation's path, without its ending.
pub open spec fn shown_name(path: Seq<char>) -> Seq<char> {
    let name = behind_hash(after_store_dir(path));
    if ends(name, ".drv"@) {
        name.take(name.len() - 4)
    } else {
        name
    }
}

/// What the ending of a name says that the derivation does.
pub open spec fn shown_kind(name: Seq<char>) -> DrvKind {
    if ends(name, "-run-build-script"@) {
        DrvKind::BuildScriptRun
    } else if ends(name, "-build-script"@) {
        DrvKind::BuildScriptCompile
    } else if ends(name, "-test"@) {
        DrvKind::TestCompile
    } else if ends(name, "-check"@) {
        DrvKind::Check
    } else {
        DrvKind::Compile
    }
}

/// The name without the ending that says what the derivation does.
pub open spec fn shown_stem(name: Seq<char>) -> Seq<char> {
    if ends(name, "-run-build-script"@) {
        name.take(name.len() - "-run-build-script"@.len())
    } else if ends(name, "-build-script"@) {
        name.take(name.len() - "-build-script"@.len())
    } else if ends(name, "-test"@) {
        name.take(name.len() - "-test"@.len())
    } else if ends(name, "-check"@) {
        name.take(name.len() - "-check"@.len())
    } else {
        name
    }
}

/// Whether a part of a name is taken for a version: it starts with a digit and
/// holds a dot.
pub open spec fn version_part(s: Seq<char>) -> bool {
    s.len() > 0 && is_digit(s[0]) && s.contains('.')
}

/// The first part behind the leading one that is taken for a version.
pub open spec fn version_index(parts: Seq<Seq<char>>, from: int) -> Option<int>
    decreases parts.len() - from,
{
    if from >= parts.len() {
        None
    } else if from > 0 && version_part(parts[from]) {
        Some(from)
    } else {
        version_index(parts, from + 1)
    }
}

/// The package and the version in a name. Without a version all of the name is the
/// package.
pub open spec fn package_and_version(stem: Seq<char>) -> (Seq<char>, Seq<char>) {
    let parts = split_seq(stem, '-');
    match version_index(parts, 0) {
        Some(i) => (join_seq(parts.take(i), "-"@), parts[i]),
        None => (stem, Seq::empty()),
    }
}

/// Behind a character of one byte stands the start of a character, or the end.
proof fn lemma_behind_ascii(b: Seq<u8>, i: int)
    requires
        valid_utf8(b),
        0 <= i < b.len(),
        b[i] == 0x2d,
    ensures
        is_char_boundary(b, i + 1),
    decreases b.len(),
{
    let n = length_of_first_scalar(b);
    assert(is_leading_byte_width_1(0x2du8) && !is_continuation_byte(0x2du8)) by (bit_vector);
    if i == 0 {
        assert(n == 1);
        reveal_with_fuel(is_char_boundary, 2);
    } else if i < n {
        assert(is_continuation_byte(b[i]));
    } else {
        assert(pop_first_scalar(b)[i - n] == b[i]);
        lemma_behind_ascii(pop_first_scalar(b), i - n);
    }
}

/// Removes a hash and a dash from before a name.
pub fn skip_hash<'a>(base: &'a str) -> (r: &'a str)
    ensures
        r@ == behind_hash(base@),
{
    let bytes = base.as_bytes();
    if bytes.len() > 33 && bytes[32] == 0x2d {
        proof {
            encode_utf8_valid_utf8(base@);
            lemma_behind_ascii(encode_utf8(base@), 32);
        }
        let (_, rest) = base.split_at(33);
        proof {
            encode_utf8_decode_utf8(rest@);
            assert(encode_utf8(base@).subrange(33, encode_utf8(base@).len() as int)
                =~= encode_utf8(base@).skip(33));
        }
        rest
    } else {
        base
    }
}

/// Reads the name in a derivation's path.
fn read_name(drv_path: &str) -> (r: String)
    ensures
        r@ == shown_name(drv_path@),
{
    let base = match strip_prefix(drv_path, "/nix/store/") {
        Some(rest) => rest,
        None => drv_path,
    };
    let name = skip_hash(base);
    proof {
        reveal_strlit(".drv");
    }
    match strip_suffix(name, ".drv") {
        Some(n) => owned(n),
        None => owned(name),
    }
}

/// Tells the package, its version and what is done with it from the path of a
/// derivation. The names are `{pkg}-{version}-{target}{suffix}.drv`.
pub fn parse_drv_display(drv_path: &str) -> (r: (String, String, DrvKind))
    ensures
        ({
            let name = shown_name(drv_path@);
            (r.0@, r.1@) == package_and_version(shown_stem(name)) && r.2 == shown_kind(name)
        }),
{
    let full = read_name(drv_path);
    let name = full.as_str();
    let (stem, kind) = match strip_suffix(name, "-run-build-script") {
        Some(n) => (n, DrvKind::BuildScriptRun),
        None => match strip_suffix(name, "-build-script") {
            Some(n) => (n, DrvKind::BuildScriptCompile),
            None => match strip_suffix(name, "-test") {
                Some(n) => (n, DrvKind::TestCompile),
                None => match strip_suffix(name, "-check") {
                    Some(n) => (n, DrvKind::Check),
                    None => (name, DrvKind::Compile),
                },
            },
        },
    };
    let parts = split(stem, '-');
    let ghost all = views(parts@);
    let mut i: usize = 0;
    while i < parts.len()
        invariant
            i <= parts@.len(),
            all == views(parts@),
            all == split_seq(stem@, '-'),
            version_index(all, i as int) == version_index(all, 0),
            stem@ == shown_stem(shown_name(drv_path@)),
            kind == shown_kind(shown_name(drv_path@)),
        decreases parts@.len() - i,
    {
        assert(all[i as int] == parts@[i as int]@);
        if i > 0 && is_version(parts[i].as_str()) {
            let version = parts[i].clone();
            let mut pkg: Vec<String> = Vec::new();
            let mut k: usize = 0;
            while k < i
                invariant
                    k <= i < parts@.len(),
                    all == views(parts@),
                    views(pkg@) =~= all.take(k as int),
                decreases i - k,
            {
                let ghost before = views(pkg@);
                pkg.push(parts[k].clone());
                assert(views(pkg@) =~= before.push(all[k as int]));
                k = k + 1;
            }
            return (join(&pkg, "-"), version, kind);
        }
        i = i + 1;
    }
    proof {
        reveal_strlit("");
    }
    assert(""@ =~= Seq::<char>::empty());
    (owned(stem), owned(""), kind)
}

/// Whether a part of a name is taken for a version.
fn is_version(s: &str) -> (r: bool)
    ensures
        r == version_part(s@),
{
    let chars = to_chars(s);
    chars.len() > 0 && digit(chars[0]) && has_char(s, '.')
}

proof fn lemma_version_index(parts: Seq<Seq<char>>, from: int, at: int)
    requires
        0 <= from <= at < parts.len(),
        at > 0,
        version_part(parts[at]),
        forall|i: int| from <= i < at && i > 0 ==> !version_part(#[trigger] parts[i]),
    ensures
        version_index(parts, from) == Some(at),
    decreases at - from,
{
    if from < at {
        lemma_version_index(parts, from + 1, at);
    }
}

/// The package and the version are read back from a name that was made of them:
/// where no later part of the package's name looks like a version, and the version
/// holds no dash.
pub proof fn law_names_read_back(pkg: Seq<char>, version: Seq<char>, target: Seq<char>)
    requires
        forall|i: int|
            1 <= i < split_seq(pkg, '-').len() ==> !version_part(#[trigger] split_seq(pkg, '-')[i]),
        version_part(version),
        !version.contains('-'),
    ensures
        package_and_version(pkg + "-"@ + version + "-"@ + target) == (pkg, version),
{
    let stem = pkg + "-"@ + version + "-"@ + target;
    let a = split_seq(pkg, '-');
    let parts = split_seq(stem, '-');
    reveal_strlit("-");
    assert("-"@ =~= seq!['-']);
    assert(stem =~= pkg.push('-') + (version.push('-') + target));
    lemma_split_concat(pkg, version.push('-') + target, '-');
    lemma_split_concat(version, target, '-');
    lemma_split_whole(version, '-');
    lemma_split_nonempty(pkg, '-');
    lemma_split_join(pkg, '-');
    assert(parts.take(a.len() as int) =~= a);
    assert(parts[a.len() as int] == version);
    assert forall|i: int| 0 <= i < a.len() && i > 0 implies !version_part(#[trigger] parts[i]) by {
        assert(parts[i] == a[i]);
    }
    lemma_version_index(parts, 0, a.len() as int);
}

/// What is done with a unit is read back from the name of its derivation, where the
/// name tells it: by the suffix for build scripts, tests and checks. The target of a build
/// script must not end in `-run`.
pub proof fn law_kind_read_back(stem: Seq<char>, kind: UnitKind)
    requires
        !ends(stem, "-run"@),
    ensures
        kind == UnitKind::BuildScriptRun ==> shown_kind(stem + drv_name_suffix(kind))
            == DrvKind::BuildScriptRun && shown_stem(stem + drv_name_suffix(kind)) == stem,
        kind == UnitKind::BuildScriptCompile ==> shown_kind(stem + drv_name_suffix(kind))
            == DrvKind::BuildScriptCompile && shown_stem(stem + drv_name_suffix(kind)) == stem,
        kind == UnitKind::TestCompile ==> shown_kind(stem + drv_name_suffix(kind))
            == DrvKind::TestCompile && shown_stem(stem + drv_name_suffix(kind)) == stem,
        kind == UnitKind::Check ==> shown_kind(stem + drv_name_suffix(kind)) == DrvKind::Check
            && shown_stem(stem + drv_name_suffix(kind)) == stem,
{
    let run = "-run-build-script"@;
    let script = "-build-script"@;
    let test = "-test"@;
    let check = "-check"@;
    let name = stem + drv_name_suffix(kind);
    reveal_strlit("-run-build-script");
    reveal_strlit("-build-script");
    reveal_strlit("-test");
    reveal_strlit("-check");
    reveal_strlit("-run");
    if kind == UnitKind::BuildScriptRun {
        assert(name.skip(name.len() - run.len()) =~= run);
        assert(name.take(name.len() - run.len()) =~= stem);
    } else if kind == UnitKind::BuildScriptCompile {
        assert(name.skip(name.len() - script.len()) =~= script);
        assert(name.take(name.len() - script.len()) =~= stem);
        if ends(name, run) {
            assert(run.take(4) =~= "-run"@);
            assert(name.skip(name.len() - run.len()).take(4) =~= stem.skip(stem.len() - 4));
        }
    } else if kind == UnitKind::TestCompile {
        assert(name.skip(name.len() - test.len()) =~= test);
        assert(name.take(name.len() - test.len()) =~= stem);
        if ends(name, run) {
            assert(name.skip(name.len() - run.len()).last() == name.last());
            assert(name[name.len() - 2] == 's');
            assert(name.skip(name.len() - run.len())[15] == name[name.len() - 2]);
            assert(run[15] == 'p');
        }
        if ends(name, script) {
            assert(name[name.len() - 2] == 's');
            assert(name.skip(name.len() - script.len())[11] == name[name.len() - 2]);
            assert(script[11] == 'p');
        }
    } else if kind == UnitKind::Check {
        assert(name.skip(name.len() - check.len()) =~= check);
        assert(name.take(name.len() - check.len()) =~= stem);
        assert(name.last() == 'k');
        if ends(name, run) {
            assert(name.skip(name.len() - run.len()).last() == name.last());
            assert(run.last() == 't');
        }
        if ends(name, script) {
            assert(name.skip(name.len() - script.len()).last() == name.last());
            assert(script.last() == 't');
        }
        if ends(name, test) {
            assert(name.skip(name.len() - test.len()).last() == name.last());
            assert(test.last() == 't');
        }
    }
}

/// The path in a line that says that a derivation is being built.
pub open spec fn building_drv(line: Seq<char>) -> Option<Seq<char>> {
    let line = trim_seq(line);
    if starts(line, "building '"@) {
        let rest = line.skip("building '"@.len() as int);
        match first_of(rest, '\'') {
            Some(i) => if ends(rest.take(i), ".drv"@) {
                Some(rest.take(i))
            } else {
                None
            },
            None => None,
        }
    } else {
        None
    }
}

/// Reads the path in a line `building '/nix/store/hash-name.drv'...`.
pub fn parse_building_line<'a>(line: &'a str) -> (r: Option<&'a str>)
    ensures
        match r {
            Some(p) => building_drv(line@) == Some(p@),
            None => building_drv(line@) is None,
        },
{
    let line = trim(line);
    let rest = match strip_prefix(line, "building '") {
        Some(rest) => rest,
        None => return None,
    };
    let chars = to_chars(rest);
    let end = match find_char(&chars, '\'') {
        Some(i) => i,
        None => return None,
    };
    let drv_path = rest.substring_char(0, end);
    assert(drv_path@ =~= rest@.take(end as int));
    if ends_with(drv_path, ".drv") {
        Some(drv_path)
    } else {
        None
    }
}

} // verus!
