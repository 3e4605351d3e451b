//! The messages of the Nix daemon's worker protocol.
//!
//! Requests are written as bytes. Replies are read from the bytes that have
//! arrived so far: reading one ends, asks for more bytes, or fails.
use crate::nar::{framed, framed_str, nar_bytes, nar_string, padding_len};
use crate::nix_encoding::hex_char;
use crate::text::{
    decimal, decimal_seq, owned, sorted_set, sorted_unique, starts, strip_prefix, views,
};
use vstd::bytes::*;
use vstd::prelude::*;
use vstd::slice::slice_subrange;
use vstd::utf8::*;

verus! {

pub const WORKER_MAGIC_1: u64 = 0x6e697863;

pub const WORKER_MAGIC_2: u64 = 0x6478696f;

pub const STDERR_NEXT: u64 = 0x6f6c6d67;

pub const STDERR_LAST: u64 = 0x616c7473;

pub const STDERR_ERROR: u64 = 0x63787470;

pub const WOP_ADD_TEXT_TO_STORE: u64 = 8;

pub const WOP_QUERY_VALID_PATHS: u64 = 31;

/// Protocol versions are written as the major version times 256 plus the minor
/// one. This client speaks 1.37.
pub const CLIENT_VERSION: u64 = 0x125;

/// From 1.11 on the client sends whether to reserve space.
pub const PROTO_RESERVE_SPACE: u64 = 0x10b;

/// From 1.14 on the client sends a CPU affinity.
pub const PROTO_CPU_AFFINITY: u64 = 0x10e;

/// From 1.27 on a validity query says whether to substitute.
pub const PROTO_SUBSTITUTE_FLAG: u64 = 0x11b;

/// From 1.33 on the daemon sends its version.
pub const PROTO_DAEMON_VERSION: u64 = 0x121;

/// From 1.35 on the daemon says whether it trusts the client.
pub const PROTO_TRUST_LEVEL: u64 = 0x123;

/// The longest string that is accepted, in bytes.
pub const MAX_STRING_LEN: u64 = 0x4000000;

/// The longest list of strings that is accepted.
pub const MAX_STRING_LIST_LEN: u64 = 0x100000;

// ---------------------------------------------------------------------------
// Results
// ---------------------------------------------------------------------------

/// What reading a reply comes to: a value and the position behind it, a lack of
/// bytes, or a failure.
pub enum Outcome<T> {
    Done(T, usize),
    Short,
    Fail(String),
}

/// What reading a reply comes to.
pub enum Parse<T> {
    Done(T, int),
    Short,
    Fail(Seq<char>),
}

/// What a read of a number comes to.
pub open spec fn word_view(r: Outcome<u64>) -> Parse<u64> {
    match r {
        Outcome::Done(n, i) => Parse::Done(n, i as int),
        Outcome::Short => Parse::Short,
        Outcome::Fail(e) => Parse::Fail(e@),
    }
}

/// What a read of a string comes to.
pub open spec fn string_view(r: Outcome<String>) -> Parse<Seq<char>> {
    match r {
        Outcome::Done(s, i) => Parse::Done(s@, i as int),
        Outcome::Short => Parse::Short,
        Outcome::Fail(e) => Parse::Fail(e@),
    }
}

/// What a read of a list of strings comes to.
pub open spec fn strings_view(r: Outcome<Vec<String>>) -> Parse<Seq<Seq<char>>> {
    match r {
        Outcome::Done(v, i) => Parse::Done(views(v@), i as int),
        Outcome::Short => Parse::Short,
        Outcome::Fail(e) => Parse::Fail(e@),
    }
}

/// What a read that gives no value comes to.
pub open spec fn unit_view(r: Outcome<()>) -> Parse<()> {
    match r {
        Outcome::Done(_, i) => Parse::Done((), i as int),
        Outcome::Short => Parse::Short,
        Outcome::Fail(e) => Parse::Fail(e@),
    }
}

/// What a read of an optional string comes to.
pub open spec fn option_view(r: Outcome<Option<String>>) -> Parse<Option<Seq<char>>> {
    match r {
        Outcome::Done(Some(s), i) => Parse::Done(Some(s@), i as int),
        Outcome::Done(None, i) => Parse::Done(None, i as int),
        Outcome::Short => Parse::Short,
        Outcome::Fail(e) => Parse::Fail(e@),
    }
}

// ---------------------------------------------------------------------------
// Text of std
// ---------------------------------------------------------------------------

/// The message of the error of `String::from_utf8` on bytes that are no UTF-8.
pub uninterp spec fn utf8_fault(bytes: Seq<u8>) -> Seq<char>;

/// Calls `String::from_utf8`: the string that the bytes encode if they are valid
/// UTF-8, and otherwise the message of its error, which depends on the bytes
/// alone.
#[verifier::external_body]
pub(crate) fn string_from_utf8(bytes: Vec<u8>) -> (r: Result<String, String>)
    ensures
        match r {
            Ok(s) => valid_utf8(bytes@) && s@ == decode_utf8(bytes@),
            Err(e) => !valid_utf8(bytes@) && e@ == utf8_fault(bytes@),
        },
{
    match String::from_utf8(bytes) {
        Ok(s) => Ok(s),
        Err(e) => Err(e.to_string()),
    }
}

/// The hexadecimal digits of a number.
pub open spec fn hex_number(n: nat) -> Seq<char>
    decreases n,
{
    if n < 16 {
        seq![hex_char(n as int)]
    } else {
        hex_number(n / 16).push(hex_char((n % 16) as int))
    }
}

/// Writes a number in hexadecimal digits.
pub fn hex(n: u64) -> (r: String)
    ensures
        r@ == hex_number(n as nat),
    decreases n,
{
    let d: u8 = (n % 16) as u8;
    let c = if d < 10 {
        (48 + d) as char
    } else {
        (87 + d) as char
    };
    let mut r = if n < 16 {
        String::new()
    } else {
        hex(n / 16)
    };
    r.push(c);
    proof {
        if n < 16 {
            assert(r@ =~= seq![hex_char(n as int)]);
        }
    }
    r
}

// ---------------------------------------------------------------------------
// Writing
// ---------------------------------------------------------------------------

/// The bytes of a number.
pub open spec fn word(n: u64) -> Seq<u8> {
    spec_u64_to_le_bytes(n)
}

/// Writes a number: eight bytes, the lowest first.
pub fn write_u64(buf: &mut Vec<u8>, n: u64)
    ensures
        final(buf)@ == old(buf)@ + word(n),
{
    let mut b = u64_to_le_bytes(n);
    buf.append(&mut b);
}

/// The strings one behind the other, each framed.
pub open spec fn framed_strs(v: Seq<Seq<char>>) -> Seq<u8>
    decreases v.len(),
{
    if v.len() == 0 {
        Seq::empty()
    } else {
        framed_strs(v.drop_last()) + framed_str(v.last())
    }
}

/// A list of strings: their number, then each.
pub open spec fn framed_list(v: Seq<Seq<char>>) -> Seq<u8> {
    word(v.len() as u64) + framed_strs(v)
}

/// Writes a list of strings.
pub fn write_string_list(buf: &mut Vec<u8>, list: &Vec<String>)
    ensures
        final(buf)@ == old(buf)@ + framed_list(views(list@)),
{
    let ghost v = views(list@);
    let ghost start = buf@;
    write_u64(buf, list.len() as u64);
    let mut i: usize = 0;
    assert(buf@ =~= start + (word(v.len() as u64) + framed_strs(v.take(0))));
    while i < list.len()
        invariant
            i <= list@.len(),
            v == views(list@),
            buf@ == start + (word(v.len() as u64) + framed_strs(v.take(i as int))),
        decreases list@.len() - i,
    {
        assert(v.take(i + 1).drop_last() =~= v.take(i as int));
        nar_string(buf, list[i].as_str());
        assert(buf@ =~= start + (word(v.len() as u64) + framed_strs(v.take(i + 1))));
        i = i + 1;
    }
    assert(v.take(v.len() as int) =~= v);
}

/// What the client sends first.
pub fn hello() -> (r: Vec<u8>)
    ensures
        r@ == word(WORKER_MAGIC_1),
{
    u64_to_le_bytes(WORKER_MAGIC_1)
}

/// What the daemon must answer first.
pub open spec fn magic_fault(magic: u64) -> Seq<char> {
    "Unexpected Nix daemon magic: 0x"@ + hex_number(magic as nat)
}

/// Checks the daemon's first answer.
pub fn check_magic(magic: u64) -> (r: Result<(), String>)
    ensures
        match r {
            Ok(_) => magic == WORKER_MAGIC_2,
            Err(e) => magic != WORKER_MAGIC_2 && e@ == magic_fault(magic),
        },
{
    if magic == WORKER_MAGIC_2 {
        Ok(())
    } else {
        let mut e = owned("Unexpected Nix daemon magic: 0x");
        e.append(hex(magic).as_str());
        Err(e)
    }
}

/// The protocol version that client and daemon both speak.
pub open spec fn negotiated(proto: u64) -> u64 {
    if proto < CLIENT_VERSION {
        proto
    } else {
        CLIENT_VERSION
    }
}

/// A word of zero where `wanted`.
pub open spec fn zero_if(wanted: bool) -> Seq<u8> {
    if wanted {
        word(0)
    } else {
        Seq::empty()
    }
}

/// What the client answers to the daemon's protocol version: its own version and
/// the settings that the negotiated version has.
pub open spec fn client_settings(proto: u64) -> Seq<u8> {
    word(CLIENT_VERSION) + zero_if(negotiated(proto) >= PROTO_CPU_AFFINITY) + zero_if(
        negotiated(proto) >= PROTO_RESERVE_SPACE,
    )
}

/// Settles the protocol version and writes the client's answer.
pub fn negotiate(proto: u64) -> (r: (u64, Vec<u8>))
    ensures
        r.0 == negotiated(proto),
        r.1@ == client_settings(proto),
{
    let version: u64 = if proto < CLIENT_VERSION {
        proto
    } else {
        CLIENT_VERSION
    };
    let mut buf: Vec<u8> = Vec::new();
    write_u64(&mut buf, CLIENT_VERSION);
    if version >= PROTO_CPU_AFFINITY {
        write_u64(&mut buf, 0);
    }
    if version >= PROTO_RESERVE_SPACE {
        write_u64(&mut buf, 0);
    }
    assert(buf@ =~= client_settings(proto));
    (version, buf)
}

/// The request for which of the paths are valid.
pub open spec fn query_request(paths: Seq<Seq<char>>, version: u64) -> Seq<u8> {
    word(WOP_QUERY_VALID_PATHS) + framed_list(paths) + zero_if(version >= PROTO_SUBSTITUTE_FLAG)
}

/// Writes the request for which of the paths are valid, without substitution.
pub fn query_valid_paths_request(paths: &Vec<String>, version: u64) -> (r: Vec<u8>)
    ensures
        r@ == query_request(views(paths@), version),
{
    let mut buf: Vec<u8> = Vec::new();
    write_u64(&mut buf, WOP_QUERY_VALID_PATHS);
    write_string_list(&mut buf, paths);
    if version >= PROTO_SUBSTITUTE_FLAG {
        write_u64(&mut buf, 0);
    }
    assert(buf@ =~= query_request(views(paths@), version));
    buf
}

/// The request to put a text into the store.
pub open spec fn add_text_request_bytes(
    name: Seq<char>,
    content: Seq<u8>,
    refs: Seq<Seq<char>>,
) -> Seq<u8> {
    word(WOP_ADD_TEXT_TO_STORE) + framed_str(name) + framed(content) + framed_list(refs)
}

/// Writes the request to put a text into the store.
pub fn add_text_to_store_request(name: &str, content: &[u8], refs: &Vec<String>) -> (r: Vec<u8>)
    ensures
        r@ == add_text_request_bytes(name@, content@, views(refs@)),
{
    let mut buf: Vec<u8> = Vec::new();
    write_u64(&mut buf, WOP_ADD_TEXT_TO_STORE);
    nar_string(&mut buf, name);
    nar_bytes(&mut buf, content);
    write_string_list(&mut buf, refs);
    assert(buf@ =~= add_text_request_bytes(name@, content@, views(refs@)));
    buf
}

// ---------------------------------------------------------------------------
// Connecting
// ---------------------------------------------------------------------------

/// The socket of the daemon: the one that `NIX_REMOTE` names, else the one that
/// `NIX_DAEMON_SOCKET_PATH` names, else that of the system.
pub open spec fn socket_of(remote: Option<Seq<char>>, socket: Option<Seq<char>>) -> Seq<char> {
    if remote is Some && starts(remote->0, "unix://"@) {
        remote->0.skip("unix://"@.len() as int)
    } else {
        match socket {
            Some(path) => path,
            None => "/nix/var/nix/daemon-socket/socket"@,
        }
    }
}

/// The socket of the daemon, by the values of `NIX_REMOTE` and
/// `NIX_DAEMON_SOCKET_PATH`.
pub fn socket_path(remote: Option<&str>, socket: Option<&str>) -> (r: String)
    ensures
        r@ == socket_of(
            match remote {
                Some(s) => Some(s@),
                None => None,
            },
            match socket {
                Some(s) => Some(s@),
                None => None,
            },
        ),
{
    if let Some(remote) = remote {
        if let Some(path) = strip_prefix(remote, "unix://") {
            return owned(path);
        }
    }
    match socket {
        Some(path) => owned(path),
        None => owned("/nix/var/nix/daemon-socket/socket"),
    }
}

// ---------------------------------------------------------------------------
// Reading
// ---------------------------------------------------------------------------

/// The number at a position.
pub open spec fn word_at(b: Seq<u8>, i: int) -> Parse<u64> {
    if i + 8 <= b.len() {
        Parse::Done(spec_u64_from_le_bytes(b.subrange(i, i + 8)), i + 8)
    } else {
        Parse::Short
    }
}

/// Reads the number at a position.
pub fn read_u64(b: &[u8], i: usize) -> (r: Outcome<u64>)
    requires
        i <= b@.len(),
    ensures
        word_view(r) == word_at(b@, i as int),
{
    if b.len() - i < 8 {
        Outcome::Short
    } else {
        Outcome::Done(u64_from_le_bytes(slice_subrange(b, i, i + 8)), i + 8)
    }
}

/// What is said of a string that is too long.
pub open spec fn long_string(n: u64) -> Seq<char> {
    "Nix daemon sent string of "@ + decimal_seq(n as nat) + " bytes, exceeding 64 MiB limit"@
}

/// The string at a position.
pub open spec fn string_at(b: Seq<u8>, i: int) -> Parse<Seq<char>> {
    match word_at(b, i) {
        Parse::Done(n, j) => if n > MAX_STRING_LEN {
            Parse::Fail(long_string(n))
        } else if j + n + padding_len(n as nat) > b.len() {
            Parse::Short
        } else {
            let data = b.subrange(j, j + n);
            if valid_utf8(data) {
                Parse::Done(decode_utf8(data), j + n + padding_len(n as nat))
            } else {
                Parse::Fail(utf8_fault(data))
            }
        },
        Parse::Short => Parse::Short,
        Parse::Fail(e) => Parse::Fail(e),
    }
}

/// Reads the string at a position: its length, its bytes, and the padding behind
/// them.
pub fn read_string(b: &[u8], i: usize) -> (r: Outcome<String>)
    requires
        i <= b@.len(),
    ensures
        string_view(r) == string_at(b@, i as int),
{
    let (n, j) = match read_u64(b, i) {
        Outcome::Done(n, j) => (n, j),
        Outcome::Short => return Outcome::Short,
        Outcome::Fail(e) => return Outcome::Fail(e),
    };
    if n > MAX_STRING_LEN {
        let mut e = owned("Nix daemon sent string of ");
        e.append(decimal(n).as_str());
        e.append(" bytes, exceeding 64 MiB limit");
        return Outcome::Fail(e);
    }
    let len: usize = n as usize;
    let padding: usize = (8 - (len % 8)) % 8;
    assert(padding == padding_len(n as nat));
    if b.len() - j < len + padding {
        return Outcome::Short;
    }
    let mut data: Vec<u8> = Vec::new();
    data.extend_from_slice(slice_subrange(b, j, j + len));
    assert(data@ =~= b@.subrange(j as int, j + len));
    match string_from_utf8(data) {
        Ok(s) => Outcome::Done(s, j + len + padding),
        Err(e) => Outcome::Fail(e),
    }
}

/// The next `n` strings.
pub open spec fn strings_at(b: Seq<u8>, i: int, n: nat) -> Parse<Seq<Seq<char>>>
    decreases n,
{
    if n == 0 {
        Parse::Done(Seq::empty(), i)
    } else {
        match strings_at(b, i, (n - 1) as nat) {
            Parse::Done(v, j) => match string_at(b, j) {
                Parse::Done(s, k) => Parse::Done(v.push(s), k),
                Parse::Short => Parse::Short,
                Parse::Fail(e) => Parse::Fail(e),
            },
            Parse::Short => Parse::Short,
            Parse::Fail(e) => Parse::Fail(e),
        }
    }
}

proof fn lemma_strings_stop(b: Seq<u8>, i: int, m: nat, n: nat)
    requires
        m <= n,
        !(strings_at(b, i, m) is Done),
    ensures
        strings_at(b, i, n) == strings_at(b, i, m),
    decreases n - m,
{
    if m < n {
        lemma_strings_stop(b, i, m, (n - 1) as nat);
    }
}

/// What is said of a list that is too long.
pub open spec fn long_list(n: u64) -> Seq<char> {
    "Nix daemon advertised string-list of "@ + decimal_seq(n as nat) + " entries, exceeding "@
        + decimal_seq(MAX_STRING_LIST_LEN as nat) + " limit"@
}

/// The list of strings at a position.
pub open spec fn list_at(b: Seq<u8>, i: int) -> Parse<Seq<Seq<char>>> {
    match word_at(b, i) {
        Parse::Done(n, j) => if n > MAX_STRING_LIST_LEN {
            Parse::Fail(long_list(n))
        } else {
            strings_at(b, j, n as nat)
        },
        Parse::Short => Parse::Short,
        Parse::Fail(e) => Parse::Fail(e),
    }
}

/// Reads the list of strings at a position.
pub fn read_string_list(b: &[u8], i: usize) -> (r: Outcome<Vec<String>>)
    requires
        i <= b@.len(),
    ensures
        strings_view(r) == list_at(b@, i as int),
{
    let (n, start) = match read_u64(b, i) {
        Outcome::Done(n, j) => (n, j),
        Outcome::Short => return Outcome::Short,
        Outcome::Fail(e) => return Outcome::Fail(e),
    };
    if n > MAX_STRING_LIST_LEN {
        let mut e = owned("Nix daemon advertised string-list of ");
        e.append(decimal(n).as_str());
        e.append(" entries, exceeding ");
        e.append(decimal(MAX_STRING_LIST_LEN).as_str());
        e.append(" limit");
        return Outcome::Fail(e);
    }
    let mut out: Vec<String> = Vec::new();
    let mut at: usize = start;
    let mut k: u64 = 0;
    assert(views(out@) =~= Seq::empty());
    while k < n
        invariant
            k <= n,
            start <= b@.len(),
            at <= b@.len(),
            list_at(b@, i as int) == strings_at(b@, start as int, n as nat),
            strings_at(b@, start as int, k as nat) == Parse::Done(views(out@), at as int),
        decreases n - k,
    {
        let ghost before = views(out@);
        match read_string(b, at) {
            Outcome::Done(s, j) => {
                let ghost sv = s@;
                out.push(s);
                assert(views(out@) =~= before.push(sv));
                at = j;
            },
            Outcome::Short => {
                proof {
                    lemma_strings_stop(b@, start as int, (k + 1) as nat, n as nat);
                }
                return Outcome::Short;
            },
            Outcome::Fail(e) => {
                proof {
                    lemma_strings_stop(b@, start as int, (k + 1) as nat, n as nat);
                }
                return Outcome::Fail(e);
            },
        }
        k = k + 1;
    }
    Outcome::Done(out, at)
}

/// The next `n` trace entries of an error: whether a position is known, and a
/// text.
pub open spec fn traces_at(b: Seq<u8>, i: int, n: nat) -> Parse<()>
    decreases n,
{
    if n == 0 {
        Parse::Done((), i)
    } else {
        match traces_at(b, i, (n - 1) as nat) {
            Parse::Done(_, j) => match word_at(b, j) {
                Parse::Done(_, k) => match string_at(b, k) {
                    Parse::Done(_, m) => Parse::Done((), m),
                    Parse::Short => Parse::Short,
                    Parse::Fail(e) => Parse::Fail(e),
                },
                Parse::Short => Parse::Short,
                Parse::Fail(e) => Parse::Fail(e),
            },
            Parse::Short => Parse::Short,
            Parse::Fail(e) => Parse::Fail(e),
        }
    }
}

proof fn lemma_traces_stop(b: Seq<u8>, i: int, m: nat, n: nat)
    requires
        m <= n,
        !(traces_at(b, i, m) is Done),
    ensures
        traces_at(b, i, n) == traces_at(b, i, m),
    decreases n - m,
{
    if m < n {
        lemma_traces_stop(b, i, m, (n - 1) as nat);
    }
}

fn read_traces(b: &[u8], i: usize, n: u64) -> (r: Outcome<()>)
    requires
        i <= b@.len(),
    ensures
        unit_view(r) == traces_at(b@, i as int, n as nat),
        r matches Outcome::Done(_, j) ==> j <= b@.len(),
{
    let mut at: usize = i;
    let mut k: u64 = 0;
    while k < n
        invariant
            k <= n,
            at <= b@.len(),
            traces_at(b@, i as int, k as nat) == Parse::Done((), at as int),
        decreases n - k,
    {
        proof {
            if !(traces_at(b@, i as int, (k + 1) as nat) is Done) {
                lemma_traces_stop(b@, i as int, (k + 1) as nat, n as nat);
            }
        }
        let j = match read_u64(b, at) {
            Outcome::Done(_, j) => j,
            Outcome::Short => return Outcome::Short,
            Outcome::Fail(e) => return Outcome::Fail(e),
        };
        match read_string(b, j) {
            Outcome::Done(_, m) => {
                at = m;
            },
            Outcome::Short => return Outcome::Short,
            Outcome::Fail(e) => return Outcome::Fail(e),
        }
        k = k + 1;
    }
    Outcome::Done((), at)
}

/// What is said of an error that the daemon reports.
pub open spec fn daemon_fault(typ: Seq<char>, msg: Seq<char>) -> Seq<char> {
    "Nix daemon error ("@ + typ + "): "@ + msg
}

/// The error at a position: its level, type and message, whether a position is
/// known, and its traces. Reading it ends in a failure.
pub open spec fn error_at(b: Seq<u8>, i: int) -> Parse<()> {
    match word_at(b, i) {
        Parse::Done(_, j) => match string_at(b, j) {
            Parse::Done(typ, k) => match string_at(b, k) {
                Parse::Done(msg, l) => match word_at(b, l) {
                    Parse::Done(_, m) => match word_at(b, m) {
                        Parse::Done(n, o) => match traces_at(b, o, n as nat) {
                            Parse::Done(_, _) => Parse::Fail(daemon_fault(typ, msg)),
                            Parse::Short => Parse::Short,
                            Parse::Fail(e) => Parse::Fail(e),
                        },
                        Parse::Short => Parse::Short,
                        Parse::Fail(e) => Parse::Fail(e),
                    },
                    Parse::Short => Parse::Short,
                    Parse::Fail(e) => Parse::Fail(e),
                },
                Parse::Short => Parse::Short,
                Parse::Fail(e) => Parse::Fail(e),
            },
            Parse::Short => Parse::Short,
            Parse::Fail(e) => Parse::Fail(e),
        },
        Parse::Short => Parse::Short,
        Parse::Fail(e) => Parse::Fail(e),
    }
}

fn read_error(b: &[u8], i: usize) -> (r: Outcome<()>)
    requires
        i <= b@.len(),
    ensures
        unit_view(r) == error_at(b@, i as int),
{
    let j = match read_u64(b, i) {
        Outcome::Done(_, j) => j,
        Outcome::Short => return Outcome::Short,
        Outcome::Fail(e) => return Outcome::Fail(e),
    };
    let (typ, k) = match read_string(b, j) {
        Outcome::Done(s, k) => (s, k),
        Outcome::Short => return Outcome::Short,
        Outcome::Fail(e) => return Outcome::Fail(e),
    };
    let (msg, l) = match read_string(b, k) {
        Outcome::Done(s, l) => (s, l),
        Outcome::Short => return Outcome::Short,
        Outcome::Fail(e) => return Outcome::Fail(e),
    };
    let m = match read_u64(b, l) {
        Outcome::Done(_, m) => m,
        Outcome::Short => return Outcome::Short,
        Outcome::Fail(e) => return Outcome::Fail(e),
    };
    let (n, o) = match read_u64(b, m) {
        Outcome::Done(n, o) => (n, o),
        Outcome::Short => return Outcome::Short,
        Outcome::Fail(e) => return Outcome::Fail(e),
    };
    match read_traces(b, o, n) {
        Outcome::Done(_, _) => {
            let mut e = owned("Nix daemon error (");
            e.append(typ.as_str());
            e.append("): ");
            e.append(msg.as_str());
            Outcome::Fail(e)
        },
        Outcome::Short => Outcome::Short,
        Outcome::Fail(e) => Outcome::Fail(e),
    }
}

/// What is said of a message of an unknown sort.
pub open spec fn tag_fault(tag: u64) -> Seq<char> {
    "Unknown Nix daemon stderr tag: 0x"@ + hex_number(tag as nat)
}

/// The daemon's messages up to the one that says it is done.
pub open spec fn messages_at(b: Seq<u8>, i: int) -> Parse<()>
    decreases b.len() - i,
    when 0 <= i <= b.len()
{
    match word_at(b, i) {
        Parse::Done(tag, j) => if tag == STDERR_LAST {
            Parse::Done((), j)
        } else if tag == STDERR_NEXT {
            match string_at(b, j) {
                Parse::Done(_, k) => messages_at(b, k),
                Parse::Short => Parse::Short,
                Parse::Fail(e) => Parse::Fail(e),
            }
        } else if tag == STDERR_ERROR {
            error_at(b, j)
        } else {
            Parse::Fail(tag_fault(tag))
        },
        Parse::Short => Parse::Short,
        Parse::Fail(e) => Parse::Fail(e),
    }
}

/// Reads the daemon's messages until it says that it is done.
pub fn process_stderr(b: &[u8], i: usize) -> (r: Outcome<()>)
    requires
        i <= b@.len(),
    ensures
        unit_view(r) == messages_at(b@, i as int),
        r matches Outcome::Done(_, j) ==> j <= b@.len(),
{
    let mut at: usize = i;
    loop
        invariant
            at <= b@.len(),
            messages_at(b@, at as int) == messages_at(b@, i as int),
        decreases b@.len() - at,
    {
        let (tag, j) = match read_u64(b, at) {
            Outcome::Done(tag, j) => (tag, j),
            Outcome::Short => return Outcome::Short,
            Outcome::Fail(e) => return Outcome::Fail(e),
        };
        if tag == STDERR_LAST {
            return Outcome::Done((), j);
        } else if tag == STDERR_NEXT {
            match read_string(b, j) {
                Outcome::Done(_, k) => {
                    at = k;
                },
                Outcome::Short => return Outcome::Short,
                Outcome::Fail(e) => return Outcome::Fail(e),
            }
        } else if tag == STDERR_ERROR {
            return read_error(b, j);
        } else {
            let mut e = owned("Unknown Nix daemon stderr tag: 0x");
            e.append(hex(tag).as_str());
            return Outcome::Fail(e);
        }
    }
}

/// The daemon's version, where the protocol has it send one.
pub open spec fn version_at(b: Seq<u8>, i: int, version: u64) -> Parse<Option<Seq<char>>> {
    if version >= PROTO_DAEMON_VERSION {
        match string_at(b, i) {
            Parse::Done(s, j) => Parse::Done(Some(s), j),
            Parse::Short => Parse::Short,
            Parse::Fail(e) => Parse::Fail(e),
        }
    } else {
        Parse::Done(None, i)
    }
}

/// The end of the handshake: the daemon's version, its trust, and that it is
/// ready.
pub open spec fn greeting_at(b: Seq<u8>, version: u64) -> Parse<Option<Seq<char>>> {
    match version_at(b, 0, version) {
        Parse::Done(name, i) => {
            let trust = if version >= PROTO_TRUST_LEVEL {
                word_at(b, i)
            } else {
                Parse::Done(0, i)
            };
            match trust {
                Parse::Done(_, j) => match messages_at(b, j) {
                    Parse::Done(_, k) => Parse::Done(name, k),
                    Parse::Short => Parse::Short,
                    Parse::Fail(e) => Parse::Fail(e),
                },
                Parse::Short => Parse::Short,
                Parse::Fail(e) => Parse::Fail(e),
            }
        },
        Parse::Short => Parse::Short,
        Parse::Fail(e) => Parse::Fail(e),
    }
}

/// Reads the end of the handshake.
pub fn read_greeting(b: &[u8], version: u64) -> (r: Outcome<Option<String>>)
    ensures
        option_view(r) == greeting_at(b@, version),
{
    let mut name: Option<String> = None;
    let mut at: usize = 0;
    if version >= PROTO_DAEMON_VERSION {
        match read_string(b, 0) {
            Outcome::Done(s, j) => {
                name = Some(s);
                at = j;
            },
            Outcome::Short => return Outcome::Short,
            Outcome::Fail(e) => return Outcome::Fail(e),
        }
    }
    if version >= PROTO_TRUST_LEVEL {
        match read_u64(b, at) {
            Outcome::Done(_, j) => {
                at = j;
            },
            Outcome::Short => return Outcome::Short,
            Outcome::Fail(e) => return Outcome::Fail(e),
        }
    }
    match process_stderr(b, at) {
        Outcome::Done(_, k) => Outcome::Done(name, k),
        Outcome::Short => Outcome::Short,
        Outcome::Fail(e) => Outcome::Fail(e),
    }
}

/// The answer to a validity query: the valid paths.
pub open spec fn valid_paths_at(b: Seq<u8>) -> Parse<Seq<Seq<char>>> {
    match messages_at(b, 0) {
        Parse::Done(_, i) => match list_at(b, i) {
            Parse::Done(v, j) => Parse::Done(sorted_set(v), j),
            Parse::Short => Parse::Short,
            Parse::Fail(e) => Parse::Fail(e),
        },
        Parse::Short => Parse::Short,
        Parse::Fail(e) => Parse::Fail(e),
    }
}

/// Reads the answer to a validity query: the valid paths, in order and each once.
pub fn query_valid_paths_reply(b: &[u8]) -> (r: Outcome<Vec<String>>)
    ensures
        strings_view(r) == valid_paths_at(b@),
{
    let at = match process_stderr(b, 0) {
        Outcome::Done(_, i) => i,
        Outcome::Short => return Outcome::Short,
        Outcome::Fail(e) => return Outcome::Fail(e),
    };
    match read_string_list(b, at) {
        Outcome::Done(v, j) => Outcome::Done(sorted_unique(&v), j),
        Outcome::Short => Outcome::Short,
        Outcome::Fail(e) => Outcome::Fail(e),
    }
}

/// The answer to putting a text into the store: its store path.
pub open spec fn added_path_at(b: Seq<u8>) -> Parse<Seq<char>> {
    match messages_at(b, 0) {
        Parse::Done(_, i) => string_at(b, i),
        Parse::Short => Parse::Short,
        Parse::Fail(e) => Parse::Fail(e),
    }
}

/// Reads the answer to putting a text into the store.
pub fn add_text_to_store_reply(b: &[u8]) -> (r: Outcome<String>)
    ensures
        string_view(r) == added_path_at(b@),
{
    match process_stderr(b, 0) {
        Outcome::Done(_, i) => read_string(b, i),
        Outcome::Short => Outcome::Short,
        Outcome::Fail(e) => Outcome::Fail(e),
    }
}

// ---------------------------------------------------------------------------
// Laws
// ---------------------------------------------------------------------------

/// A number that was written is read back.
pub proof fn law_word_reads_back(before: Seq<u8>, n: u64, after: Seq<u8>)
    ensures
        word_at(before + word(n) + after, before.len() as int) == Parse::Done(
            n,
            (before.len() + 8) as int,
        ),
{
    lemma_auto_spec_u64_to_from_le_bytes();
    assert(word(n).len() == 8);
    let b = before + word(n) + after;
    assert(b.subrange(before.len() as int, (before.len() + 8) as int) =~= word(n));
}

/// A string that was written is read back, unless it is too long.
pub proof fn law_string_reads_back(before: Seq<u8>, s: Seq<char>, after: Seq<u8>)
    requires
        encode_utf8(s).len() <= MAX_STRING_LEN,
    ensures
        string_at(before + framed_str(s) + after, before.len() as int) == Parse::Done(
            s,
            (before.len() + framed_str(s).len()) as int,
        ),
{
    let data = encode_utf8(s);
    let n = data.len();
    let zeros = Seq::new(padding_len(n), |i: int| 0u8);
    let b = before + framed_str(s) + after;
    lemma_auto_spec_u64_to_from_le_bytes();
    assert(word(n as u64).len() == 8);
    assert(b =~= before + word(n as u64) + (data + zeros + after));
    law_word_reads_back(before, n as u64, data + zeros + after);
    let j = before.len() + 8;
    assert(b.subrange(j as int, (j + n) as int) =~= data);
    encode_utf8_valid_utf8(s);
    encode_utf8_decode_utf8(s);
}

/// No string of the list is too long to be sent.
pub open spec fn all_short(v: Seq<Seq<char>>) -> bool {
    forall|i: int| 0 <= i < v.len() ==> encode_utf8(#[trigger] v[i]).len() <= MAX_STRING_LEN
}

proof fn lemma_strings_read_back(before: Seq<u8>, v: Seq<Seq<char>>, after: Seq<u8>)
    requires
        all_short(v),
    ensures
        strings_at(before + framed_strs(v) + after, before.len() as int, v.len()) == Parse::Done(
            v,
            (before.len() + framed_strs(v).len()) as int,
        ),
    decreases v.len(),
{
    if v.len() == 0 {
        assert(v =~= Seq::empty());
    } else {
        let t = v.drop_last();
        let x = v.last();
        assert(encode_utf8(v[v.len() - 1]).len() <= MAX_STRING_LEN);
        assert forall|i: int| 0 <= i < t.len() implies encode_utf8(#[trigger] t[i]).len()
            <= MAX_STRING_LEN by {
            assert(t[i] == v[i]);
        }
        let b = before + framed_strs(v) + after;
        lemma_strings_read_back(before, t, framed_str(x) + after);
        assert(b =~= before + framed_strs(t) + (framed_str(x) + after));
        law_string_reads_back(before + framed_strs(t), x, after);
        assert(b =~= before + framed_strs(t) + framed_str(x) + after);
        assert(t.push(x) =~= v);
    }
}

/// A list of strings that was written is read back, unless it or one of its
/// strings is too long.
pub proof fn law_list_reads_back(before: Seq<u8>, v: Seq<Seq<char>>, after: Seq<u8>)
    requires
        v.len() <= MAX_STRING_LIST_LEN,
        all_short(v),
    ensures
        list_at(before + framed_list(v) + after, before.len() as int) == Parse::Done(
            v,
            (before.len() + framed_list(v).len()) as int,
        ),
{
    let n = v.len() as u64;
    lemma_auto_spec_u64_to_from_le_bytes();
    assert(word(n).len() == 8);
    let b = before + framed_list(v) + after;
    law_word_reads_back(before, n, framed_strs(v) + after);
    assert(b =~= before + word(n) + (framed_strs(v) + after));
    lemma_strings_read_back(before + word(n), v, after);
    assert(b =~= before + word(n) + framed_strs(v) + after);
}

/// A validity query that the daemon answers at once gives the paths it sent, each
/// once.
pub proof fn law_valid_paths_read_back(v: Seq<Seq<char>>)
    requires
        v.len() <= MAX_STRING_LIST_LEN,
        all_short(v),
    ensures
        valid_paths_at(word(STDERR_LAST) + framed_list(v)) == Parse::Done(
            sorted_set(v),
            (8 + framed_list(v).len()) as int,
        ),
{
    let b = word(STDERR_LAST) + framed_list(v);
    lemma_auto_spec_u64_to_from_le_bytes();
    assert(word(STDERR_LAST).len() == 8);
    law_word_reads_back(Seq::empty(), STDERR_LAST, framed_list(v));
    assert(b =~= Seq::<u8>::empty() + word(STDERR_LAST) + framed_list(v));
    law_list_reads_back(word(STDERR_LAST), v, Seq::empty());
    assert(b =~= word(STDERR_LAST) + framed_list(v) + Seq::<u8>::empty());
}

proof fn lemma_word_stays(b: Seq<u8>, more: Seq<u8>, i: int)
    requires
        0 <= i,
        !(word_at(b, i) is Short),
    ensures
        word_at(b + more, i) == word_at(b, i),
{
    assert((b + more).subrange(i, i + 8) =~= b.subrange(i, i + 8));
}

proof fn lemma_string_stays(b: Seq<u8>, more: Seq<u8>, i: int)
    requires
        0 <= i,
        !(string_at(b, i) is Short),
    ensures
        string_at(b + more, i) == string_at(b, i),
{
    lemma_word_stays(b, more, i);
    let n = word_at(b, i)->Done_0;
    let j = i + 8;
    if n <= MAX_STRING_LEN {
        assert((b + more).subrange(j, j + n) =~= b.subrange(j, j + n));
    }
}

proof fn lemma_strings_stay(b: Seq<u8>, more: Seq<u8>, i: int, n: nat)
    requires
        0 <= i <= b.len(),
        !(strings_at(b, i, n) is Short),
    ensures
        strings_at(b + more, i, n) == strings_at(b, i, n),
        strings_at(b, i, n) matches Parse::Done(_, j) ==> 0 <= j <= b.len(),
    decreases n,
{
    if n > 0 {
        lemma_strings_stay(b, more, i, (n - 1) as nat);
        match strings_at(b, i, (n - 1) as nat) {
            Parse::Done(_, j) => {
                lemma_string_stays(b, more, j);
            },
            _ => {},
        }
    }
}

proof fn lemma_traces_stay(b: Seq<u8>, more: Seq<u8>, i: int, n: nat)
    requires
        0 <= i <= b.len(),
        !(traces_at(b, i, n) is Short),
    ensures
        traces_at(b + more, i, n) == traces_at(b, i, n),
        traces_at(b, i, n) matches Parse::Done(_, j) ==> 0 <= j <= b.len(),
    decreases n,
{
    if n > 0 {
        lemma_traces_stay(b, more, i, (n - 1) as nat);
        match traces_at(b, i, (n - 1) as nat) {
            Parse::Done(_, j) => {
                lemma_word_stays(b, more, j);
                lemma_string_stays(b, more, j + 8);
            },
            _ => {},
        }
    }
}

proof fn lemma_error_stays(b: Seq<u8>, more: Seq<u8>, i: int)
    requires
        0 <= i <= b.len(),
        !(error_at(b, i) is Short),
    ensures
        error_at(b + more, i) == error_at(b, i),
{
    lemma_word_stays(b, more, i);
    let j = i + 8;
    lemma_string_stays(b, more, j);
    if let Parse::Done(_, k) = string_at(b, j) {
        lemma_string_stays(b, more, k);
        if let Parse::Done(_, l) = string_at(b, k) {
            lemma_word_stays(b, more, l);
            lemma_word_stays(b, more, l + 8);
            lemma_traces_stay(b, more, l + 16, word_at(b, l + 8)->Done_0 as nat);
        }
    }
}

proof fn lemma_messages_stay(b: Seq<u8>, more: Seq<u8>, i: int)
    requires
        0 <= i <= b.len(),
        !(messages_at(b, i) is Short),
    ensures
        messages_at(b + more, i) == messages_at(b, i),
        messages_at(b, i) matches Parse::Done(_, j) ==> 0 <= j <= b.len(),
    decreases b.len() - i,
{
    lemma_word_stays(b, more, i);
    let tag = word_at(b, i)->Done_0;
    let j = i + 8;
    if tag == STDERR_LAST {
    } else if tag == STDERR_NEXT {
        lemma_string_stays(b, more, j);
        if let Parse::Done(_, k) = string_at(b, j) {
            lemma_messages_stay(b, more, k);
        }
    } else if tag == STDERR_ERROR {
        lemma_error_stays(b, more, j);
    }
}

/// A reply that has been read does not change by the bytes that arrive behind it,
/// so a reply may be read from whatever has arrived.
pub proof fn law_replies_stay(b: Seq<u8>, more: Seq<u8>, version: u64)
    ensures
        !(valid_paths_at(b) is Short) ==> valid_paths_at(b + more) == valid_paths_at(b),
        !(added_path_at(b) is Short) ==> added_path_at(b + more) == added_path_at(b),
        !(greeting_at(b, version) is Short) ==> greeting_at(b + more, version) == greeting_at(
            b,
            version,
        ),
{
    if !(messages_at(b, 0) is Short) {
        lemma_messages_stay(b, more, 0);
        if let Parse::Done(_, i) = messages_at(b, 0) {
            if !(string_at(b, i) is Short) {
                lemma_string_stays(b, more, i);
            }
            if !(list_at(b, i) is Short) {
                lemma_word_stays(b, more, i);
                let n = word_at(b, i)->Done_0;
                if n <= MAX_STRING_LIST_LEN {
                    lemma_strings_stay(b, more, i + 8, n as nat);
                }
            }
        }
    }
    if !(greeting_at(b, version) is Short) {
        if version >= PROTO_DAEMON_VERSION {
            lemma_string_stays(b, more, 0);
        }
        if let Parse::Done(_, i) = version_at(b, 0, version) {
            if version >= PROTO_TRUST_LEVEL {
                lemma_word_stays(b, more, i);
                lemma_messages_stay(b, more, i + 8);
            } else {
                lemma_messages_stay(b, more, i);
            }
        }
    }
}

/// The negotiated version is one that both sides speak.
pub proof fn law_negotiated_is_common(proto: u64)
    ensures
        negotiated(proto) <= proto,
        negotiated(proto) <= CLIENT_VERSION,
        negotiated(proto) == proto || negotiated(proto) == CLIENT_VERSION,
{
}

} // verus!
