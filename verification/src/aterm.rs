//! The ATerm form of a derivation and the store path of its `.drv` file.
use crate::hash::{sha256, sha256_digest};
use crate::json::{
    array_field, get_member, json_views, lookup, member_names, member_views, names, object_field,
    text_field, Json, JsonView,
};
use crate::nix_encoding::{
    base32_seq, compress_hash, compress_seq, hex_lower, hex_seq, nix_base32_encode,
};
use crate::text::{
    clone_strings, join, join_seq, lemma_encode_injective, lemma_sort_seq_order, owned, same,
    sort_seq, sort_strings, views,
};
use vstd::prelude::*;
use vstd::utf8::*;

verus! {

// ---------------------------------------------------------------------------
// Strings
// ---------------------------------------------------------------------------

/// One byte as it stands inside an ATerm string.
pub open spec fn escape_byte(b: u8) -> Seq<u8> {
    if b == 92 {
        seq![92u8, 92u8]
    } else if b == 34 {
        seq![92u8, 34u8]
    } else if b == 10 {
        seq![92u8, 110u8]
    } else if b == 13 {
        seq![92u8, 114u8]
    } else if b == 9 {
        seq![92u8, 116u8]
    } else {
        seq![b]
    }
}

/// Bytes as they stand inside an ATerm string.
pub open spec fn escape_seq(s: Seq<u8>) -> Seq<u8>
    decreases s.len(),
{
    if s.len() == 0 {
        Seq::empty()
    } else {
        escape_seq(s.drop_last()) + escape_byte(s.last())
    }
}

/// A string in ATerm form, with its quotes.
pub open spec fn aterm_str(s: Seq<char>) -> Seq<u8> {
    seq![34u8] + escape_seq(encode_utf8(s)) + seq![34u8]
}

fn push_escaped(out: &mut Vec<u8>, b: u8)
    ensures
        final(out)@ == old(out)@ + escape_byte(b),
{
    if b == 92 {
        out.push(92);
        out.push(92);
    } else if b == 34 {
        out.push(92);
        out.push(34);
    } else if b == 10 {
        out.push(92);
        out.push(110);
    } else if b == 13 {
        out.push(92);
        out.push(114);
    } else if b == 9 {
        out.push(92);
        out.push(116);
    } else {
        out.push(b);
    }
    assert(out@ =~= old(out)@ + escape_byte(b));
}

/// Escapes a string for the ATerm format and writes it, with surrounding
/// quotes, to `out`.
pub fn aterm_string(out: &mut Vec<u8>, s: &str)
    ensures
        final(out)@ == old(out)@ + aterm_str(s@),
{
    let bytes = s.as_bytes();
    out.push(34);
    let ghost start = out@;
    assert(start + escape_seq(bytes@.take(0)) =~= start);
    let mut i: usize = 0;
    while i < bytes.len()
        invariant
            i <= bytes@.len(),
            out@ == start + escape_seq(bytes@.take(i as int)),
        decreases bytes@.len() - i,
    {
        assert(bytes@.take(i + 1).drop_last() =~= bytes@.take(i as int));
        push_escaped(out, bytes[i]);
        assert(out@ =~= start + escape_seq(bytes@.take(i + 1)));
        i = i + 1;
    }
    assert(bytes@.take(bytes@.len() as int) =~= bytes@);
    out.push(34);
    assert(out@ =~= old(out)@ + aterm_str(s@));
}

/// Appends the bytes of a string.
pub fn push_str_bytes(out: &mut Vec<u8>, s: &str)
    ensures
        final(out)@ == old(out)@ + encode_utf8(s@),
{
    out.extend_from_slice(s.as_bytes());
    assert(out@ =~= old(out)@ + encode_utf8(s@));
}

/// Appends bytes.
pub fn push_bytes(out: &mut Vec<u8>, b: &Vec<u8>)
    ensures
        final(out)@ == old(out)@ + b@,
{
    out.extend_from_slice(b.as_slice());
    assert(out@ =~= old(out)@ + b@);
}

// ---------------------------------------------------------------------------
// Lists
// ---------------------------------------------------------------------------

/// The bytes of a part, or the message of what is wrong with it.
pub type Piece = Result<Seq<u8>, Seq<char>>;

/// What a function that writes a part returned.
pub open spec fn piece_view(r: Result<Vec<u8>, String>) -> Piece {
    match r {
        Ok(b) => Ok(b@),
        Err(e) => Err(e@),
    }
}

/// The items with commas between them, or the message of the first bad one.
pub open spec fn comma_list(items: Seq<Piece>) -> Piece
    decreases items.len(),
{
    if items.len() == 0 {
        Ok(Seq::empty())
    } else {
        match comma_list(items.drop_last()) {
            Err(e) => Err(e),
            Ok(acc) => match items.last() {
                Err(e) => Err(e),
                Ok(b) => Ok(
                    if items.len() == 1 {
                        acc + b
                    } else {
                        acc + encode_utf8(","@) + b
                    },
                ),
            },
        }
    }
}

/// The items as a bracketed list.
pub open spec fn bracket_list(items: Seq<Piece>) -> Piece {
    match comma_list(items) {
        Err(e) => Err(e),
        Ok(b) => Ok(encode_utf8("["@) + b + encode_utf8("]"@)),
    }
}

proof fn lemma_comma_list_err(items: Seq<Piece>, n: int)
    requires
        0 <= n <= items.len(),
        comma_list(items.take(n)) is Err,
    ensures
        comma_list(items) == comma_list(items.take(n)),
    decreases items.len(),
{
    if n == items.len() {
        assert(items.take(n) =~= items);
    } else {
        assert(items.drop_last().take(n) =~= items.take(n));
        lemma_comma_list_err(items.drop_last(), n);
    }
}

/// A list under construction: what stands behind the opening bracket.
fn push_item(acc: &mut Vec<u8>, item: &Vec<u8>, items: Ghost<Seq<Piece>>, i: usize)
    requires
        i < items@.len(),
        comma_list(items@.take(i as int)) == Piece::Ok(old(acc)@),
        items@[i as int] == Piece::Ok(item@),
    ensures
        comma_list(items@.take(i + 1)) == Piece::Ok(final(acc)@),
{
    assert(items@.take(i + 1).drop_last() =~= items@.take(i as int));
    if i > 0 {
        push_str_bytes(acc, ",");
    }
    push_bytes(acc, item);
}

fn close_list(acc: &Vec<u8>, items: Ghost<Seq<Piece>>) -> (r: Vec<u8>)
    requires
        comma_list(items@) == Piece::Ok(acc@),
    ensures
        bracket_list(items@) == Piece::Ok(r@),
{
    let mut r: Vec<u8> = Vec::new();
    push_str_bytes(&mut r, "[");
    push_bytes(&mut r, acc);
    push_str_bytes(&mut r, "]");
    assert(r@ =~= encode_utf8("["@) + acc@ + encode_utf8("]"@));
    r
}

/// The strings of an array in ATerm form.
pub open spec fn text_items(v: Seq<JsonView>, message: Seq<char>) -> Seq<Piece> {
    Seq::new(
        v.len(),
        |i: int|
            match v[i] {
                JsonView::Text(s) => Piece::Ok(aterm_str(s)),
                _ => Piece::Err(message),
            },
    )
}

fn aterm_text_list(v: &Vec<Json>, message: &str) -> (r: Result<Vec<u8>, String>)
    ensures
        piece_view(r) == bracket_list(text_items(json_views(v@), message@)),
{
    let ghost items = text_items(json_views(v@), message@);
    let mut acc: Vec<u8> = Vec::new();
    let mut i: usize = 0;
    assert(items.take(0) =~= Seq::empty());
    assert(acc@ =~= Seq::empty());
    while i < v.len()
        invariant
            i <= v@.len(),
            items == text_items(json_views(v@), message@),
            comma_list(items.take(i as int)) == Piece::Ok(acc@),
        decreases v@.len() - i,
    {
        assert(items.take(i + 1).drop_last() =~= items.take(i as int));
        match &v[i] {
            Json::Text(s) => {
                let mut item: Vec<u8> = Vec::new();
                aterm_string(&mut item, s.as_str());
                assert(item@ =~= aterm_str(s@));
                push_item(&mut acc, &item, Ghost(items), i);
            },
            _ => {
                proof {
                    lemma_comma_list_err(items, i + 1);
                }
                return Err(owned(message));
            },
        }
        i = i + 1;
    }
    assert(items.take(v@.len() as int) =~= items);
    Ok(close_list(&acc, Ghost(items)))
}

// ---------------------------------------------------------------------------
// Outputs
// ---------------------------------------------------------------------------

/// The hash algorithm of an output with the ingestion method in front.
pub open spec fn output_algo(info: JsonView, algo: Seq<char>) -> Seq<char> {
    if text_field(info, "method"@) == Some("nar"@) {
        "r:"@ + algo
    } else {
        algo
    }
}

/// One output: name, path, algorithm, hash. Path and hash are empty for a
/// floating content-addressed output.
pub open spec fn output_item(members: Seq<(Seq<char>, JsonView)>, name: Seq<char>) -> Piece {
    let info = match lookup(members, name) {
        Some(v) => v,
        None => JsonView::Null,
    };
    match text_field(info, "hashAlgo"@) {
        None => Err("derivation output '"@ + name + "' missing 'hashAlgo'"@),
        Some(algo) => Ok(
            encode_utf8("("@) + aterm_str(name) + encode_utf8(","@) + aterm_str(""@) + encode_utf8(
                ","@,
            ) + aterm_str(output_algo(info, algo)) + encode_utf8(","@) + aterm_str(""@)
                + encode_utf8(")"@),
        ),
    }
}

fn aterm_output(members: &Vec<(String, Json)>, name: &str) -> (r: Result<Vec<u8>, String>)
    ensures
        piece_view(r) == output_item(member_views(members@), name@),
{
    let none = Json::Null;
    let info = match get_member(members, name) {
        Some(v) => v,
        None => &none,
    };
    match info.get_str("hashAlgo") {
        None => {
            let mut e = owned("derivation output '");
            e.append(name);
            e.append("' missing 'hashAlgo'");
            Err(e)
        },
        Some(algo) => {
            let nar = match info.get_str("method") {
                Some(m) => same(m.as_str(), "nar"),
                None => false,
            };
            let mut algo_str = String::new();
            if nar {
                algo_str.append("r:");
                algo_str.append(algo.as_str());
                assert(algo_str@ =~= "r:"@ + algo@);
            } else {
                algo_str.append(algo.as_str());
                assert(algo_str@ =~= algo@);
            }
            let mut out: Vec<u8> = Vec::new();
            push_str_bytes(&mut out, "(");
            assert(out@ =~= encode_utf8("("@));
            aterm_string(&mut out, name);
            push_str_bytes(&mut out, ",");
            aterm_string(&mut out, "");
            push_str_bytes(&mut out, ",");
            aterm_string(&mut out, algo_str.as_str());
            push_str_bytes(&mut out, ",");
            aterm_string(&mut out, "");
            push_str_bytes(&mut out, ")");
            Ok(out)
        },
    }
}

/// The outputs in the order of their names.
pub open spec fn output_items(members: Seq<(Seq<char>, JsonView)>) -> Seq<Piece> {
    let keys = sort_seq(member_names(members));
    Seq::new(keys.len(), |i: int| output_item(members, keys[i]))
}

fn aterm_outputs(members: &Vec<(String, Json)>) -> (r: Result<Vec<u8>, String>)
    ensures
        piece_view(r) == bracket_list(output_items(member_views(members@))),
{
    let ghost items = output_items(member_views(members@));
    let keys = sort_strings(names(members));
    let mut acc: Vec<u8> = Vec::new();
    let mut i: usize = 0;
    assert(items.take(0) =~= Seq::empty());
    assert(acc@ =~= Seq::empty());
    assert(views(keys@).len() == keys@.len());
    while i < keys.len()
        invariant
            i <= keys@.len(),
            views(keys@) == sort_seq(member_names(member_views(members@))),
            items == output_items(member_views(members@)),
            comma_list(items.take(i as int)) == Piece::Ok(acc@),
        decreases keys@.len() - i,
    {
        assert(items.take(i + 1).drop_last() =~= items.take(i as int));
        assert(views(keys@)[i as int] == keys@[i as int]@);
        match aterm_output(members, keys[i].as_str()) {
            Ok(item) => push_item(&mut acc, &item, Ghost(items), i),
            Err(e) => {
                proof {
                    lemma_comma_list_err(items, i + 1);
                }
                return Err(e);
            },
        }
        i = i + 1;
    }
    assert(items.take(keys@.len() as int) =~= items);
    Ok(close_list(&acc, Ghost(items)))
}

// ---------------------------------------------------------------------------
// Input derivations
// ---------------------------------------------------------------------------

/// One input derivation: its path and the outputs taken from it.
pub open spec fn input_drv_item(members: Seq<(Seq<char>, JsonView)>, path: Seq<char>) -> Piece {
    let info = match lookup(members, path) {
        Some(v) => v,
        None => JsonView::Null,
    };
    match array_field(info, "outputs"@) {
        None => Err("inputDrv '"@ + path + "' missing 'outputs' array"@),
        Some(v) => match bracket_list(
            text_items(v, "non-string in inputDrv outputs for '"@ + path + "'"@),
        ) {
            Err(e) => Err(e),
            Ok(list) => Ok(
                encode_utf8("("@) + aterm_str(path) + encode_utf8(","@) + list + encode_utf8(")"@),
            ),
        },
    }
}

fn aterm_input_drv(members: &Vec<(String, Json)>, path: &str) -> (r: Result<Vec<u8>, String>)
    ensures
        piece_view(r) == input_drv_item(member_views(members@), path@),
{
    let none = Json::Null;
    let info = match get_member(members, path) {
        Some(v) => v,
        None => &none,
    };
    match info.get_array("outputs") {
        None => {
            let mut e = owned("inputDrv '");
            e.append(path);
            e.append("' missing 'outputs' array");
            Err(e)
        },
        Some(v) => {
            let mut message = owned("non-string in inputDrv outputs for '");
            message.append(path);
            message.append("'");
            match aterm_text_list(v, message.as_str()) {
                Err(e) => Err(e),
                Ok(list) => {
                    let mut out: Vec<u8> = Vec::new();
                    push_str_bytes(&mut out, "(");
                    assert(out@ =~= encode_utf8("("@));
                    aterm_string(&mut out, path);
                    push_str_bytes(&mut out, ",");
                    push_bytes(&mut out, &list);
                    push_str_bytes(&mut out, ")");
                    Ok(out)
                },
            }
        },
    }
}

/// The input derivations in the order of their paths.
pub open spec fn input_drv_items(members: Seq<(Seq<char>, JsonView)>) -> Seq<Piece> {
    let keys = sort_seq(member_names(members));
    Seq::new(keys.len(), |i: int| input_drv_item(members, keys[i]))
}

fn aterm_input_drvs(members: &Vec<(String, Json)>) -> (r: Result<Vec<u8>, String>)
    ensures
        piece_view(r) == bracket_list(input_drv_items(member_views(members@))),
{
    let ghost items = input_drv_items(member_views(members@));
    let keys = sort_strings(names(members));
    let mut acc: Vec<u8> = Vec::new();
    let mut i: usize = 0;
    assert(items.take(0) =~= Seq::empty());
    assert(acc@ =~= Seq::empty());
    assert(views(keys@).len() == keys@.len());
    while i < keys.len()
        invariant
            i <= keys@.len(),
            views(keys@) == sort_seq(member_names(member_views(members@))),
            items == input_drv_items(member_views(members@)),
            comma_list(items.take(i as int)) == Piece::Ok(acc@),
        decreases keys@.len() - i,
    {
        assert(items.take(i + 1).drop_last() =~= items.take(i as int));
        assert(views(keys@)[i as int] == keys@[i as int]@);
        match aterm_input_drv(members, keys[i].as_str()) {
            Ok(item) => push_item(&mut acc, &item, Ghost(items), i),
            Err(e) => {
                proof {
                    lemma_comma_list_err(items, i + 1);
                }
                return Err(e);
            },
        }
        i = i + 1;
    }
    assert(items.take(keys@.len() as int) =~= items);
    Ok(close_list(&acc, Ghost(items)))
}

// ---------------------------------------------------------------------------
// Environment
// ---------------------------------------------------------------------------

/// One environment variable: its name and value.
pub open spec fn env_item(members: Seq<(Seq<char>, JsonView)>, key: Seq<char>) -> Piece {
    match lookup(members, key) {
        Some(JsonView::Text(v)) => Ok(
            encode_utf8("("@) + aterm_str(key) + encode_utf8(","@) + aterm_str(v) + encode_utf8(
                ")"@,
            ),
        ),
        _ => Err("non-string env value for key '"@ + key + "'"@),
    }
}

fn aterm_env_var(members: &Vec<(String, Json)>, key: &str) -> (r: Result<Vec<u8>, String>)
    ensures
        piece_view(r) == env_item(member_views(members@), key@),
{
    match get_member(members, key) {
        Some(Json::Text(v)) => {
            let mut out: Vec<u8> = Vec::new();
            push_str_bytes(&mut out, "(");
            assert(out@ =~= encode_utf8("("@));
            aterm_string(&mut out, key);
            push_str_bytes(&mut out, ",");
            aterm_string(&mut out, v.as_str());
            push_str_bytes(&mut out, ")");
            Ok(out)
        },
        _ => {
            let mut e = owned("non-string env value for key '");
            e.append(key);
            e.append("'");
            Err(e)
        },
    }
}

/// The environment in the order of its names.
pub open spec fn env_items(members: Seq<(Seq<char>, JsonView)>) -> Seq<Piece> {
    let keys = sort_seq(member_names(members));
    Seq::new(keys.len(), |i: int| env_item(members, keys[i]))
}

fn aterm_env(members: &Vec<(String, Json)>) -> (r: Result<Vec<u8>, String>)
    ensures
        piece_view(r) == bracket_list(env_items(member_views(members@))),
{
    let ghost items = env_items(member_views(members@));
    let keys = sort_strings(names(members));
    let mut acc: Vec<u8> = Vec::new();
    let mut i: usize = 0;
    assert(items.take(0) =~= Seq::empty());
    assert(acc@ =~= Seq::empty());
    assert(views(keys@).len() == keys@.len());
    while i < keys.len()
        invariant
            i <= keys@.len(),
            views(keys@) == sort_seq(member_names(member_views(members@))),
            items == env_items(member_views(members@)),
            comma_list(items.take(i as int)) == Piece::Ok(acc@),
        decreases keys@.len() - i,
    {
        assert(items.take(i + 1).drop_last() =~= items.take(i as int));
        assert(views(keys@)[i as int] == keys@[i as int]@);
        match aterm_env_var(members, keys[i].as_str()) {
            Ok(item) => push_item(&mut acc, &item, Ghost(items), i),
            Err(e) => {
                proof {
                    lemma_comma_list_err(items, i + 1);
                }
                return Err(e);
            },
        }
        i = i + 1;
    }
    assert(items.take(keys@.len() as int) =~= items);
    Ok(close_list(&acc, Ghost(items)))
}

// ---------------------------------------------------------------------------
// The derivation
// ---------------------------------------------------------------------------

/// The outputs of a derivation.
pub open spec fn outputs_part(j: JsonView) -> Piece {
    match object_field(j, "outputs"@) {
        None => Err("derivation JSON missing 'outputs' object"@),
        Some(m) => bracket_list(output_items(m)),
    }
}

/// The input derivations of a derivation.
pub open spec fn input_drvs_part(j: JsonView) -> Piece {
    match object_field(j, "inputDrvs"@) {
        None => Err("derivation JSON missing 'inputDrvs' object"@),
        Some(m) => bracket_list(input_drv_items(m)),
    }
}

/// The input sources of a derivation, in the order given.
pub open spec fn input_srcs_part(j: JsonView) -> Piece {
    match array_field(j, "inputSrcs"@) {
        None => Err("derivation JSON missing 'inputSrcs' array"@),
        Some(v) => bracket_list(text_items(v, "non-string in inputSrcs"@)),
    }
}

/// The system of a derivation.
pub open spec fn system_part(j: JsonView) -> Piece {
    match text_field(j, "system"@) {
        None => Err("derivation JSON missing 'system' string"@),
        Some(s) => Ok(aterm_str(s)),
    }
}

/// The builder of a derivation.
pub open spec fn builder_part(j: JsonView) -> Piece {
    match text_field(j, "builder"@) {
        None => Err("derivation JSON missing 'builder' string"@),
        Some(s) => Ok(aterm_str(s)),
    }
}

/// The builder's arguments.
pub open spec fn args_part(j: JsonView) -> Piece {
    match array_field(j, "args"@) {
        None => Err("derivation JSON missing 'args' array"@),
        Some(v) => bracket_list(text_items(v, "non-string in args array"@)),
    }
}

/// The environment of a derivation.
pub open spec fn env_part(j: JsonView) -> Piece {
    match object_field(j, "env"@) {
        None => Err("derivation JSON missing 'env' object"@),
        Some(m) => bracket_list(env_items(m)),
    }
}

/// The parts of a derivation in the order in which they are written.
pub open spec fn derivation_parts(j: JsonView) -> Seq<Piece> {
    seq![
        outputs_part(j),
        input_drvs_part(j),
        input_srcs_part(j),
        system_part(j),
        builder_part(j),
        args_part(j),
        env_part(j),
    ]
}

/// The ATerm form of a derivation, or the message of the first part that
/// cannot be written.
pub open spec fn aterm_derivation(j: JsonView) -> Piece {
    match comma_list(derivation_parts(j)) {
        Err(e) => Err(e),
        Ok(b) => Ok(encode_utf8("Derive("@) + b + encode_utf8(")"@)),
    }
}

fn write_outputs(json: &Json) -> (r: Result<Vec<u8>, String>)
    ensures
        piece_view(r) == outputs_part(json@),
{
    match json.get_object("outputs") {
        None => Err(owned("derivation JSON missing 'outputs' object")),
        Some(m) => aterm_outputs(m),
    }
}

fn write_input_drvs(json: &Json) -> (r: Result<Vec<u8>, String>)
    ensures
        piece_view(r) == input_drvs_part(json@),
{
    match json.get_object("inputDrvs") {
        None => Err(owned("derivation JSON missing 'inputDrvs' object")),
        Some(m) => aterm_input_drvs(m),
    }
}

fn write_input_srcs(json: &Json) -> (r: Result<Vec<u8>, String>)
    ensures
        piece_view(r) == input_srcs_part(json@),
{
    match json.get_array("inputSrcs") {
        None => Err(owned("derivation JSON missing 'inputSrcs' array")),
        Some(v) => aterm_text_list(v, "non-string in inputSrcs"),
    }
}

fn write_text(s: &str) -> (r: Vec<u8>)
    ensures
        r@ == aterm_str(s@),
{
    let mut r: Vec<u8> = Vec::new();
    aterm_string(&mut r, s);
    assert(r@ =~= aterm_str(s@));
    r
}

fn write_system(json: &Json) -> (r: Result<Vec<u8>, String>)
    ensures
        piece_view(r) == system_part(json@),
{
    match json.get_str("system") {
        None => Err(owned("derivation JSON missing 'system' string")),
        Some(s) => Ok(write_text(s.as_str())),
    }
}

fn write_builder(json: &Json) -> (r: Result<Vec<u8>, String>)
    ensures
        piece_view(r) == builder_part(json@),
{
    match json.get_str("builder") {
        None => Err(owned("derivation JSON missing 'builder' string")),
        Some(s) => Ok(write_text(s.as_str())),
    }
}

fn write_args(json: &Json) -> (r: Result<Vec<u8>, String>)
    ensures
        piece_view(r) == args_part(json@),
{
    match json.get_array("args") {
        None => Err(owned("derivation JSON missing 'args' array")),
        Some(v) => aterm_text_list(v, "non-string in args array"),
    }
}

fn write_env(json: &Json) -> (r: Result<Vec<u8>, String>)
    ensures
        piece_view(r) == env_part(json@),
{
    match json.get_object("env") {
        None => Err(owned("derivation JSON missing 'env' object")),
        Some(m) => aterm_env(m),
    }
}

/// Writes one of the seven parts.
fn write_part(json: &Json, i: usize) -> (r: Result<Vec<u8>, String>)
    requires
        i < 7,
    ensures
        piece_view(r) == derivation_parts(json@)[i as int],
{
    if i == 0 {
        write_outputs(json)
    } else if i == 1 {
        write_input_drvs(json)
    } else if i == 2 {
        write_input_srcs(json)
    } else if i == 3 {
        write_system(json)
    } else if i == 4 {
        write_builder(json)
    } else if i == 5 {
        write_args(json)
    } else {
        write_env(json)
    }
}

/// Serializes a derivation to the ATerm format in which Nix keeps it in the
/// store. The names of outputs, input derivations and variables are sorted,
/// whatever their order in the document.
pub fn serialize_derivation_aterm(json: &Json) -> (r: Result<Vec<u8>, String>)
    ensures
        piece_view(r) == aterm_derivation(json@),
{
    let ghost parts = derivation_parts(json@);
    let mut acc: Vec<u8> = Vec::new();
    let mut i: usize = 0;
    assert(parts.take(0) =~= Seq::empty());
    assert(acc@ =~= Seq::empty());
    while i < 7
        invariant
            i <= 7,
            parts == derivation_parts(json@),
            parts.len() == 7,
            comma_list(parts.take(i as int)) == Piece::Ok(acc@),
        decreases 7 - i,
    {
        assert(parts.take(i + 1).drop_last() =~= parts.take(i as int));
        match write_part(json, i) {
            Ok(item) => push_item(&mut acc, &item, Ghost(parts), i),
            Err(e) => {
                proof {
                    lemma_comma_list_err(parts, i + 1);
                }
                return Err(e);
            },
        }
        i = i + 1;
    }
    assert(parts.take(7) =~= parts);
    let mut out: Vec<u8> = Vec::new();
    push_str_bytes(&mut out, "Derive(");
    assert(out@ =~= encode_utf8("Derive("@));
    push_bytes(&mut out, &acc);
    push_str_bytes(&mut out, ")");
    Ok(out)
}

// ---------------------------------------------------------------------------
// Store paths
// ---------------------------------------------------------------------------

/// The store path that a fingerprint's digest gives a name.
pub open spec fn store_path_seq(digest: Seq<u8>, name: Seq<char>) -> Seq<char> {
    "/nix/store/"@ + base32_seq(compress_seq(digest, 20)) + "-"@ + name
}

/// The store path that a fingerprint's digest gives a name.
pub fn store_path_from_digest(digest: &[u8], name: &str) -> (r: String)
    ensures
        r@ == store_path_seq(digest@, name@),
{
    let compressed = compress_hash(digest, 20);
    let hash = nix_base32_encode(compressed.as_slice());
    let mut r = owned("/nix/store/");
    r.append(hash.as_str());
    r.append("-");
    r.append(name);
    r
}

/// The fingerprint of a text in the store: its references in order, the digest
/// of its contents and its name.
pub open spec fn text_fingerprint_seq(
    inner: Seq<u8>,
    refs: Seq<Seq<char>>,
    name: Seq<char>,
) -> Seq<char> {
    (if refs.len() == 0 {
        "text"@
    } else {
        "text"@ + ":"@ + join_seq(sort_seq(refs), ":"@)
    }) + ":sha256:"@ + hex_seq(inner) + ":/nix/store:"@ + name
}

/// The fingerprint of a text in the store.
pub fn text_fingerprint(inner: &[u8], refs: &Vec<String>, name: &str) -> (r: String)
    ensures
        r@ == text_fingerprint_seq(inner@, views(refs@), name@),
{
    let sorted_refs = sort_strings(clone_strings(refs));
    let mut r = owned("text");
    if refs.len() > 0 {
        let joined = join(&sorted_refs, ":");
        r.append(":");
        r.append(joined.as_str());
    }
    r.append(":sha256:");
    let hex = hex_lower(inner);
    r.append(hex.as_str());
    r.append(":/nix/store:");
    r.append(name);
    r
}

/// The store path of a `.drv` file.
pub open spec fn drv_store_path(
    name: Seq<char>,
    aterm: Seq<u8>,
    refs: Seq<Seq<char>>,
) -> Seq<char> {
    store_path_seq(
        sha256_digest(encode_utf8(text_fingerprint_seq(sha256_digest(aterm), refs, name))),
        name,
    )
}

/// Computes the store path of a `.drv` file from its ATerm content and
/// references: the digest of the content goes into a fingerprint, whose own
/// digest gives the path.
pub fn compute_drv_store_path(name: &str, aterm: &[u8], refs: &Vec<String>) -> (r: String)
    ensures
        r@ == drv_store_path(name@, aterm@, views(refs@)),
{
    let inner = sha256(aterm);
    let fingerprint = text_fingerprint(inner.as_slice(), refs, name);
    let outer = sha256(fingerprint.as_str().as_bytes());
    store_path_from_digest(outer.as_slice(), name)
}

/// The strings among the elements of an array.
pub open spec fn only_texts(v: Seq<JsonView>) -> Seq<Seq<char>>
    decreases v.len(),
{
    if v.len() == 0 {
        Seq::empty()
    } else {
        match v.last() {
            JsonView::Text(s) => only_texts(v.drop_last()).push(s),
            _ => only_texts(v.drop_last()),
        }
    }
}

/// The references of a derivation: its input sources, then its input
/// derivations.
pub open spec fn drv_refs(j: JsonView) -> Seq<Seq<char>> {
    (match array_field(j, "inputSrcs"@) {
        Some(v) => only_texts(v),
        None => Seq::empty(),
    }) + (match object_field(j, "inputDrvs"@) {
        Some(m) => member_names(m),
        None => Seq::empty(),
    })
}

/// Collects the references of a derivation.
pub fn collect_drv_refs(json: &Json) -> (r: Vec<String>)
    ensures
        views(r@) == drv_refs(json@),
{
    let mut refs: Vec<String> = Vec::new();
    assert(views(refs@) =~= Seq::empty());
    if let Some(srcs) = json.get_array("inputSrcs") {
        let mut i: usize = 0;
        let ghost v = json_views(srcs@);
        assert(v.take(0) =~= Seq::empty());
        while i < srcs.len()
            invariant
                i <= srcs@.len(),
                v == json_views(srcs@),
                views(refs@) == only_texts(v.take(i as int)),
            decreases srcs@.len() - i,
        {
            assert(v.take(i + 1).drop_last() =~= v.take(i as int));
            let ghost before = views(refs@);
            if let Json::Text(s) = &srcs[i] {
                refs.push(s.clone());
                assert(views(refs@) =~= before.push(s@));
            }
            i = i + 1;
        }
        assert(v.take(v.len() as int) =~= v);
    }
    let ghost first = views(refs@);
    if let Some(drvs) = json.get_object("inputDrvs") {
        let mut keys = names(drvs);
        let ghost k = views(keys@);
        refs.append(&mut keys);
        assert(views(refs@) =~= first + k);
    } else {
        assert(first + Seq::<Seq<char>>::empty() =~= first);
    }
    refs
}

// ---------------------------------------------------------------------------
// Laws
// ---------------------------------------------------------------------------

/// The store path of a `.drv` file does not depend on the order in which its
/// references are given.
pub proof fn law_drv_path_ref_order(
    name: Seq<char>,
    aterm: Seq<u8>,
    refs1: Seq<Seq<char>>,
    refs2: Seq<Seq<char>>,
)
    requires
        refs1.to_multiset() == refs2.to_multiset(),
    ensures
        drv_store_path(name, aterm, refs1) == drv_store_path(name, aterm, refs2),
{
    broadcast use vstd::seq_lib::group_to_multiset_ensures;

    lemma_sort_seq_order(refs1, refs2);
    assert(refs1.len() == refs1.to_multiset().len());
    assert(refs2.len() == refs2.to_multiset().len());
}

/// An ATerm string can be read back: where two of them, each with something
/// behind it, are the same bytes, the strings are the same and so is what
/// stands behind.
pub proof fn law_aterm_string_readable(a: Seq<char>, x: Seq<u8>, b: Seq<char>, y: Seq<u8>)
    requires
        aterm_str(a) + x == aterm_str(b) + y,
    ensures
        a == b,
        x == y,
{
    let p = encode_utf8(a);
    let q = encode_utf8(b);
    let l = escape_seq(p) + seq![34u8] + x;
    let r = escape_seq(q) + seq![34u8] + y;
    assert((aterm_str(a) + x).drop_first() =~= l);
    assert((aterm_str(b) + y).drop_first() =~= r);
    lemma_escape_readable(p, x, q, y);
    lemma_encode_injective(a, b);
}

proof fn lemma_escape_cons(s: Seq<u8>)
    requires
        s.len() > 0,
    ensures
        escape_seq(s) == escape_byte(s[0]) + escape_seq(s.drop_first()),
    decreases s.len(),
{
    if s.len() == 1 {
        assert(s.drop_last() =~= Seq::empty());
        assert(s.drop_first() =~= Seq::empty());
        assert(escape_seq(s) =~= escape_byte(s[0]) + escape_seq(s.drop_first()));
    } else {
        lemma_escape_cons(s.drop_last());
        assert(s.drop_last().drop_first() =~= s.drop_first().drop_last());
        assert(escape_seq(s) =~= escape_byte(s[0]) + (escape_seq(s.drop_first().drop_last())
            + escape_byte(s.last())));
    }
}

proof fn lemma_escape_readable(p: Seq<u8>, x: Seq<u8>, q: Seq<u8>, y: Seq<u8>)
    requires
        escape_seq(p) + seq![34u8] + x == escape_seq(q) + seq![34u8] + y,
    ensures
        p == q,
        x == y,
    decreases p.len(),
{
    let l = escape_seq(p) + seq![34u8] + x;
    let r = escape_seq(q) + seq![34u8] + y;
    if p.len() > 0 {
        lemma_escape_cons(p);
    }
    if q.len() > 0 {
        lemma_escape_cons(q);
    }
    if p.len() == 0 && q.len() == 0 {
        assert(l.drop_first() =~= x);
        assert(r.drop_first() =~= y);
        assert(p =~= q);
    } else if p.len() == 0 {
        assert(l[0] == 34);
        assert(r[0] == escape_byte(q[0])[0]);
    } else if q.len() == 0 {
        assert(r[0] == 34);
        assert(l[0] == escape_byte(p[0])[0]);
    } else {
        let ep = escape_byte(p[0]);
        let eq = escape_byte(q[0]);
        let lt = escape_seq(p.drop_first()) + seq![34u8] + x;
        let rt = escape_seq(q.drop_first()) + seq![34u8] + y;
        assert(l =~= ep + lt);
        assert(r =~= eq + rt);
        assert(l[0] == ep[0] && r[0] == eq[0]);
        if ep.len() == 2 && eq.len() == 2 {
            assert(l[1] == ep[1] && r[1] == eq[1]);
        }
        assert(p[0] == q[0]);
        assert(l.skip(ep.len() as int) =~= lt);
        assert(r.skip(eq.len() as int) =~= rt);
        lemma_escape_readable(p.drop_first(), x, q.drop_first(), y);
        assert(p =~= seq![p[0]] + p.drop_first());
        assert(q =~= seq![q[0]] + q.drop_first());
    }
}

} // verus!
