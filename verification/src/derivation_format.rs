//! The JSON shapes that `nix derivation add` takes, by release of Nix.
//!
//! Releases before 2.32 take no version, `inputDrvs` and `inputSrcs` at the top
//! level, and full store paths. Release 2.32 takes version 3 and names inputs by
//! the last part of their store path. Release 2.33 takes version 4 and nests the
//! inputs.
use crate::derivation::{derivation_json, env_json, input_drv_json, input_drvs_json, outputs_json};
use crate::json::{
    clone_json, lemma_lookup_at, lemma_view_array, lemma_view_object, member_views, text,
    text_array, texts, Json, JsonView,
};
use crate::json_record::{get_part, part, read_string, read_strings, string_of, strings_of};
use crate::placeholder::own_placeholder;
use crate::strmap::{lemma_sorted_keys, lists_keys, sorted_keys, StrMap};
use crate::text::{
    clone_strings, digit, has_char, is_digit, owned, parse_u32, parsed_u32, split, split_seq,
    starts, strictly_sorted, strip_prefix, to_chars, views, words, words_seq,
};
use vstd::prelude::*;

verus! {

// ---------------------------------------------------------------------------
// Store directory
// ---------------------------------------------------------------------------

/// The active Nix store directory.
#[derive(Debug)]
pub struct StoreDir {
    path: String,
}

impl View for StoreDir {
    type V = Seq<char>;

    closed spec fn view(&self) -> Seq<char> {
        self.path@
    }
}

/// `s` without the slash that it may start with.
pub open spec fn without_slash(s: Seq<char>) -> Seq<char> {
    if s.len() > 0 && s[0] == '/' {
        s.skip(1)
    } else {
        s
    }
}

/// A path relative to the store directory, or the path itself if it lies
/// elsewhere.
pub open spec fn store_basename(dir: Seq<char>, path: Seq<char>) -> Seq<char> {
    if starts(path, dir) {
        without_slash(path.skip(dir.len() as int))
    } else {
        path
    }
}

impl StoreDir {
    /// The store directory at a path.
    pub fn new(path: &str) -> (r: Self)
        ensures
            r@ == path@,
    {
        StoreDir { path: owned(path) }
    }

    /// Removes the store directory and the slash behind it from the front of a
    /// path. A path elsewhere comes back unchanged.
    pub fn basename<'a>(&self, path: &'a str) -> (r: &'a str)
        ensures
            r@ == store_basename(self@, path@),
    {
        match strip_prefix(path, self.path.as_str()) {
            Some(rest) => {
                proof {
                    reveal_strlit("/");
                    assert(starts(rest@, "/"@) <==> rest@.len() > 0 && rest@[0] == '/') by {
                        assert("/"@ =~= seq!['/']);
                        if rest@.len() > 0 {
                            assert(rest@.take(1) =~= seq![rest@[0]]);
                            assert(rest@.take(1)[0] == rest@[0]);
                        }
                    }
                }
                match strip_prefix(rest, "/") {
                    Some(r) => r,
                    None => rest,
                }
            },
            None => path,
        }
    }
}

// ---------------------------------------------------------------------------
// Target release
// ---------------------------------------------------------------------------

/// The releases of Nix that differ in the shape they take.
#[derive(Debug, Clone, Copy, PartialEq, Eq, Structural)]
pub enum TargetNix {
    PreNix232,
    Nix232,
    Nix233,
}

/// The shape that a release of Nix takes. Releases yet to come take the newest.
pub open spec fn target_of(major: u32, minor: u32) -> TargetNix {
    if major == 2 && minor < 32 {
        TargetNix::PreNix232
    } else if major == 2 && minor == 32 {
        TargetNix::Nix232
    } else {
        TargetNix::Nix233
    }
}

impl TargetNix {
    /// The shape that a release of Nix takes.
    pub fn for_version(major: u32, minor: u32) -> (r: Self)
        ensures
            r == target_of(major, minor),
    {
        if major == 2 && minor < 32 {
            TargetNix::PreNix232
        } else if major == 2 && minor == 32 {
            TargetNix::Nix232
        } else {
            TargetNix::Nix233
        }
    }
}

/// A word that could be a version: it begins with a digit and holds a dot.
pub open spec fn version_like(w: Seq<char>) -> bool {
    w.len() > 0 && is_digit(w[0]) && w.contains('.')
}

/// The first word that could be a version.
pub open spec fn first_version_like(ws: Seq<Seq<char>>) -> Option<Seq<char>>
    decreases ws.len(),
{
    if ws.len() == 0 {
        None
    } else if version_like(ws[0]) {
        Some(ws[0])
    } else {
        first_version_like(ws.skip(1))
    }
}

/// The first two numbers of a dotted version.
pub open spec fn version_parts(w: Seq<char>) -> Option<(u32, u32)> {
    let parts = split_seq(w, '.');
    if parts.len() < 2 {
        None
    } else {
        match (parsed_u32(parts[0]), parsed_u32(parts[1])) {
            (Some(major), Some(minor)) => Some((major, minor)),
            _ => None,
        }
    }
}

/// The major and minor version that a line reports.
pub open spec fn reported_version(s: Seq<char>) -> Option<(u32, u32)> {
    match first_version_like(words_seq(s)) {
        Some(w) => version_parts(w),
        None => None,
    }
}

fn could_be_version(w: &str) -> (r: bool)
    ensures
        r == version_like(w@),
{
    let chars = to_chars(w);
    chars.len() > 0 && digit(chars[0]) && has_char(w, '.')
}

/// Reads the major and minor version from a bare version string or from the line
/// that `nix --version` prints: those of the first word that begins with a digit
/// and holds a dot.
pub fn parse_version(s: &str) -> (r: Option<(u32, u32)>)
    ensures
        r == reported_version(s@),
{
    let ws = words(s);
    let ghost all = views(ws@);
    let mut i: usize = 0;
    assert(all.skip(0) =~= all);
    while i < ws.len()
        invariant
            i <= ws@.len(),
            all == views(ws@),
            all == words_seq(s@),
            first_version_like(all.skip(i as int)) == first_version_like(all),
        decreases ws@.len() - i,
    {
        assert(all.skip(i as int)[0] == ws@[i as int]@);
        assert(all.skip(i as int).skip(1) =~= all.skip(i + 1));
        if could_be_version(ws[i].as_str()) {
            let parts = split(ws[i].as_str(), '.');
            assert(views(parts@) == split_seq(ws@[i as int]@, '.'));
            if parts.len() < 2 {
                return None;
            }
            assert(views(parts@)[0] == parts@[0]@ && views(parts@)[1] == parts@[1]@);
            return match (parse_u32(parts[0].as_str()), parse_u32(parts[1].as_str())) {
                (Some(major), Some(minor)) => Some((major, minor)),
                _ => None,
            };
        }
        i = i + 1;
    }
    None
}

// ---------------------------------------------------------------------------
// Parts of a derivation
// ---------------------------------------------------------------------------

/// The outputs that are taken from an input derivation.
pub struct InputDrv {
    pub outputs: Vec<String>,
    pub dynamic_outputs: StrMap<Json>,
}

/// What an input derivation holds.
#[verifier::ext_equal]
pub struct InputDrvView {
    pub outputs: Seq<Seq<char>>,
    pub dynamic_outputs: Map<Seq<char>, JsonView>,
}

/// The views of the values of a map.
pub open spec fn json_map(m: Map<Seq<char>, Json>) -> Map<Seq<char>, JsonView> {
    m.map_values(|j: Json| j@)
}

impl View for InputDrv {
    type V = InputDrvView;

    open spec fn view(&self) -> InputDrvView {
        InputDrvView {
            outputs: views(self.outputs@),
            dynamic_outputs: json_map(self.dynamic_outputs@),
        }
    }
}

/// How the path of an output is found.
pub struct OutputSpec {
    pub hash_algo: String,
    pub method: String,
}

/// What an output holds.
#[verifier::ext_equal]
pub struct OutputView {
    pub hash_algo: Seq<char>,
    pub method: Seq<char>,
}

impl View for OutputSpec {
    type V = OutputView;

    open spec fn view(&self) -> OutputView {
        OutputView { hash_algo: self.hash_algo@, method: self.method@ }
    }
}

pub open spec fn text_map(m: Map<Seq<char>, String>) -> Map<Seq<char>, Seq<char>> {
    m.map_values(|s: String| s@)
}

pub open spec fn drv_map(m: Map<Seq<char>, InputDrv>) -> Map<Seq<char>, InputDrvView> {
    m.map_values(|d: InputDrv| d@)
}

pub open spec fn output_map(m: Map<Seq<char>, OutputSpec>) -> Map<Seq<char>, OutputView> {
    m.map_values(|o: OutputSpec| o@)
}

/// What a derivation holds, in every shape.
#[verifier::ext_equal]
pub struct IrView {
    pub name: Seq<char>,
    pub system: Seq<char>,
    pub builder: Seq<char>,
    pub args: Seq<Seq<char>>,
    pub env: Map<Seq<char>, Seq<char>>,
    pub input_drvs: Map<Seq<char>, InputDrvView>,
    pub input_srcs: Seq<Seq<char>>,
    pub outputs: Map<Seq<char>, OutputView>,
}

// ---------------------------------------------------------------------------
// Reading
// ---------------------------------------------------------------------------

/// The map that an object of strings is. Of members with one name the last
/// counts.
pub open spec fn texts_in(members: Seq<(Seq<char>, JsonView)>) -> Option<Map<Seq<char>, Seq<char>>>
    decreases members.len(),
{
    if members.len() == 0 {
        Some(Map::empty())
    } else {
        match (texts_in(members.drop_last()), members.last().1) {
            (Some(before), JsonView::Text(s)) => Some(before.insert(members.last().0, s)),
            _ => None,
        }
    }
}

pub open spec fn texts_of(j: JsonView) -> Option<Map<Seq<char>, Seq<char>>> {
    match j {
        JsonView::Object(members) => texts_in(members),
        _ => None,
    }
}

proof fn lemma_texts_in_none(members: Seq<(Seq<char>, JsonView)>, n: int)
    requires
        0 <= n <= members.len(),
        texts_in(members.take(n)) is None,
    ensures
        texts_in(members) is None,
    decreases members.len() - n,
{
    if n == members.len() {
        assert(members.take(n) =~= members);
    } else {
        assert(members.take(n + 1).drop_last() =~= members.take(n));
        lemma_texts_in_none(members, n + 1);
    }
}

fn read_texts(j: &Json) -> (r: Option<StrMap<String>>)
    ensures
        match r {
            Some(m) => texts_of(j@) == Some(text_map(m@)),
            None => texts_of(j@) is None,
        },
{
    match j {
        Json::Object(members) => {
            proof {
                lemma_view_object(*members);
            }
            let ghost all = member_views(members@);
            let mut r: StrMap<String> = StrMap::new();
            let mut i: usize = 0;
            assert(text_map(r@) =~= Map::empty());
            while i < members.len()
                invariant
                    i <= members@.len(),
                    all == member_views(members@),
                    j@ == JsonView::Object(all),
                    texts_in(all.take(i as int)) == Some(text_map(r@)),
                decreases members@.len() - i,
            {
                assert(all.take(i + 1).drop_last() =~= all.take(i as int));
                assert(all.take(i + 1).last() == (members@[i as int].0@, members@[i as int].1@));
                match &members[i].1 {
                    Json::Text(s) => {
                        let ghost before = text_map(r@);
                        r.insert(members[i].0.clone(), s.clone());
                        assert(text_map(r@) =~= before.insert(members@[i as int].0@, s@));
                    },
                    _ => {
                        proof {
                            lemma_texts_in_none(all, i + 1);
                        }
                        return None;
                    },
                }
                i = i + 1;
            }
            assert(all.take(all.len() as int) =~= all);
            Some(r)
        },
        _ => None,
    }
}

/// The map that an object is. Of members with one name the last counts.
pub open spec fn members_map(members: Seq<(Seq<char>, JsonView)>) -> Map<Seq<char>, JsonView>
    decreases members.len(),
{
    if members.len() == 0 {
        Map::empty()
    } else {
        members_map(members.drop_last()).insert(members.last().0, members.last().1)
    }
}

fn read_members(members: &Vec<(String, Json)>) -> (r: StrMap<Json>)
    ensures
        json_map(r@) == members_map(member_views(members@)),
{
    let ghost all = member_views(members@);
    let mut r: StrMap<Json> = StrMap::new();
    let mut i: usize = 0;
    assert(json_map(r@) =~= Map::empty());
    while i < members.len()
        invariant
            i <= members@.len(),
            all == member_views(members@),
            json_map(r@) == members_map(all.take(i as int)),
        decreases members@.len() - i,
    {
        assert(all.take(i + 1).drop_last() =~= all.take(i as int));
        let ghost before = json_map(r@);
        r.insert(members[i].0.clone(), clone_json(&members[i].1));
        assert(json_map(r@) =~= before.insert(all[i as int].0, all[i as int].1));
        i = i + 1;
    }
    assert(all.take(all.len() as int) =~= all);
    r
}

/// The dynamic outputs of an input derivation, which may be left out.
pub open spec fn dynamic_of(j: Option<JsonView>) -> Option<Map<Seq<char>, JsonView>> {
    match j {
        None => Some(Map::empty()),
        Some(JsonView::Object(members)) => Some(members_map(members)),
        Some(_) => None,
    }
}

/// The input derivation that a document writes.
pub open spec fn input_drv_of(j: JsonView) -> Option<InputDrvView> {
    let well_sized = j is Array ==> j->Array_0.len() <= 2;
    match part(j, "outputs"@, 0, 2) {
        Some(o) => match (strings_of(o), dynamic_of(part(j, "dynamicOutputs"@, 1, 2))) {
            (Some(outputs), Some(dynamic_outputs)) if well_sized => Some(
                InputDrvView { outputs, dynamic_outputs },
            ),
            _ => None,
        },
        None => None,
    }
}

fn read_input_drv(j: &Json) -> (r: Option<InputDrv>)
    ensures
        match r {
            Some(d) => input_drv_of(j@) == Some(d@),
            None => input_drv_of(j@) is None,
        },
{
    proof {
        if j is Array {
            lemma_view_array(j->Array_0);
        }
    }
    let outputs = match get_part(j, "outputs", 0, 2) {
        Some(o) => match read_strings(o) {
            Some(v) => v,
            None => return None,
        },
        None => return None,
    };
    let dynamic_outputs = match get_part(j, "dynamicOutputs", 1, 2) {
        None => {
            let m: StrMap<Json> = StrMap::new();
            assert(json_map(m@) =~= Map::empty());
            m
        },
        Some(Json::Object(members)) => {
            proof {
                lemma_view_object(*members);
            }
            read_members(members)
        },
        Some(_) => return None,
    };
    Some(InputDrv { outputs, dynamic_outputs })
}

pub open spec fn input_drvs_in(members: Seq<(Seq<char>, JsonView)>) -> Option<
    Map<Seq<char>, InputDrvView>,
>
    decreases members.len(),
{
    if members.len() == 0 {
        Some(Map::empty())
    } else {
        match (input_drvs_in(members.drop_last()), input_drv_of(members.last().1)) {
            (Some(before), Some(d)) => Some(before.insert(members.last().0, d)),
            _ => None,
        }
    }
}

/// The input derivations that a document writes, by their path.
pub open spec fn input_drvs_of(j: JsonView) -> Option<Map<Seq<char>, InputDrvView>> {
    match j {
        JsonView::Object(members) => input_drvs_in(members),
        _ => None,
    }
}

proof fn lemma_input_drvs_in_none(members: Seq<(Seq<char>, JsonView)>, n: int)
    requires
        0 <= n <= members.len(),
        input_drvs_in(members.take(n)) is None,
    ensures
        input_drvs_in(members) is None,
    decreases members.len() - n,
{
    if n == members.len() {
        assert(members.take(n) =~= members);
    } else {
        assert(members.take(n + 1).drop_last() =~= members.take(n));
        lemma_input_drvs_in_none(members, n + 1);
    }
}

fn read_input_drvs(j: &Json) -> (r: Option<StrMap<InputDrv>>)
    ensures
        match r {
            Some(m) => input_drvs_of(j@) == Some(drv_map(m@)),
            None => input_drvs_of(j@) is None,
        },
{
    match j {
        Json::Object(members) => {
            proof {
                lemma_view_object(*members);
            }
            let ghost all = member_views(members@);
            let mut r: StrMap<InputDrv> = StrMap::new();
            let mut i: usize = 0;
            assert(drv_map(r@) =~= Map::empty());
            while i < members.len()
                invariant
                    i <= members@.len(),
                    all == member_views(members@),
                    j@ == JsonView::Object(all),
                    input_drvs_in(all.take(i as int)) == Some(drv_map(r@)),
                decreases members@.len() - i,
            {
                assert(all.take(i + 1).drop_last() =~= all.take(i as int));
                assert(all.take(i + 1).last() == (members@[i as int].0@, members@[i as int].1@));
                match read_input_drv(&members[i].1) {
                    Some(d) => {
                        let ghost before = drv_map(r@);
                        let ghost dv = d@;
                        r.insert(members[i].0.clone(), d);
                        assert(drv_map(r@) =~= before.insert(members@[i as int].0@, dv));
                    },
                    None => {
                        proof {
                            lemma_input_drvs_in_none(all, i + 1);
                        }
                        return None;
                    },
                }
                i = i + 1;
            }
            assert(all.take(all.len() as int) =~= all);
            Some(r)
        },
        _ => None,
    }
}

/// The output that a document writes.
pub open spec fn output_of(j: JsonView) -> Option<OutputView> {
    match (string_of(part(j, "hashAlgo"@, 0, 2)), string_of(part(j, "method"@, 1, 2))) {
        (Some(hash_algo), Some(method)) => Some(OutputView { hash_algo, method }),
        _ => None,
    }
}

fn read_output(j: &Json) -> (r: Option<OutputSpec>)
    ensures
        match r {
            Some(o) => output_of(j@) == Some(o@),
            None => output_of(j@) is None,
        },
{
    let hash_algo = match read_string(get_part(j, "hashAlgo", 0, 2)) {
        Some(s) => s,
        None => return None,
    };
    let method = match read_string(get_part(j, "method", 1, 2)) {
        Some(s) => s,
        None => return None,
    };
    Some(OutputSpec { hash_algo, method })
}

pub open spec fn outputs_in(members: Seq<(Seq<char>, JsonView)>) -> Option<
    Map<Seq<char>, OutputView>,
>
    decreases members.len(),
{
    if members.len() == 0 {
        Some(Map::empty())
    } else {
        match (outputs_in(members.drop_last()), output_of(members.last().1)) {
            (Some(before), Some(o)) => Some(before.insert(members.last().0, o)),
            _ => None,
        }
    }
}

/// The outputs that a document writes, by their name.
pub open spec fn outputs_of(j: JsonView) -> Option<Map<Seq<char>, OutputView>> {
    match j {
        JsonView::Object(members) => outputs_in(members),
        _ => None,
    }
}

proof fn lemma_outputs_in_none(members: Seq<(Seq<char>, JsonView)>, n: int)
    requires
        0 <= n <= members.len(),
        outputs_in(members.take(n)) is None,
    ensures
        outputs_in(members) is None,
    decreases members.len() - n,
{
    if n == members.len() {
        assert(members.take(n) =~= members);
    } else {
        assert(members.take(n + 1).drop_last() =~= members.take(n));
        lemma_outputs_in_none(members, n + 1);
    }
}

fn read_outputs(j: &Json) -> (r: Option<StrMap<OutputSpec>>)
    ensures
        match r {
            Some(m) => outputs_of(j@) == Some(output_map(m@)),
            None => outputs_of(j@) is None,
        },
{
    match j {
        Json::Object(members) => {
            proof {
                lemma_view_object(*members);
            }
            let ghost all = member_views(members@);
            let mut r: StrMap<OutputSpec> = StrMap::new();
            let mut i: usize = 0;
            assert(output_map(r@) =~= Map::empty());
            while i < members.len()
                invariant
                    i <= members@.len(),
                    all == member_views(members@),
                    j@ == JsonView::Object(all),
                    outputs_in(all.take(i as int)) == Some(output_map(r@)),
                decreases members@.len() - i,
            {
                assert(all.take(i + 1).drop_last() =~= all.take(i as int));
                assert(all.take(i + 1).last() == (members@[i as int].0@, members@[i as int].1@));
                match read_output(&members[i].1) {
                    Some(o) => {
                        let ghost before = output_map(r@);
                        let ghost ov = o@;
                        r.insert(members[i].0.clone(), o);
                        assert(output_map(r@) =~= before.insert(members@[i as int].0@, ov));
                    },
                    None => {
                        proof {
                            lemma_outputs_in_none(all, i + 1);
                        }
                        return None;
                    },
                }
                i = i + 1;
            }
            assert(all.take(all.len() as int) =~= all);
            Some(r)
        },
        _ => None,
    }
}

/// The derivation that a document writes.
pub open spec fn ir_of(j: JsonView) -> Option<IrView> {
    match (
        string_of(part(j, "name"@, 0, 8)),
        string_of(part(j, "system"@, 1, 8)),
        string_of(part(j, "builder"@, 2, 8)),
        part(j, "args"@, 3, 8),
        part(j, "env"@, 4, 8),
        part(j, "inputDrvs"@, 5, 8),
        part(j, "inputSrcs"@, 6, 8),
        part(j, "outputs"@, 7, 8),
    ) {
        (
            Some(name),
            Some(system),
            Some(builder),
            Some(args),
            Some(env),
            Some(drvs),
            Some(srcs),
            Some(outs),
        ) => match (
            strings_of(args),
            texts_of(env),
            input_drvs_of(drvs),
            strings_of(srcs),
            outputs_of(outs),
        ) {
            (Some(args), Some(env), Some(input_drvs), Some(input_srcs), Some(outputs)) => Some(
                IrView { name, system, builder, args, env, input_drvs, input_srcs, outputs },
            ),
            _ => None,
        },
        _ => None,
    }
}

/// A derivation as it is built, before it is given the shape of a release.
pub struct InternalIr {
    pub name: String,
    pub system: String,
    pub builder: String,
    pub args: Vec<String>,
    pub env: StrMap<String>,
    pub input_drvs: StrMap<InputDrv>,
    pub input_srcs: Vec<String>,
    pub outputs: StrMap<OutputSpec>,
}

impl View for InternalIr {
    type V = IrView;

    open spec fn view(&self) -> IrView {
        IrView {
            name: self.name@,
            system: self.system@,
            builder: self.builder@,
            args: views(self.args@),
            env: text_map(self.env@),
            input_drvs: drv_map(self.input_drvs@),
            input_srcs: views(self.input_srcs@),
            outputs: output_map(self.outputs@),
        }
    }
}

fn read_ir(j: &Json) -> (r: Option<InternalIr>)
    ensures
        match r {
            Some(ir) => ir_of(j@) == Some(ir@),
            None => ir_of(j@) is None,
        },
{
    let name = match read_string(get_part(j, "name", 0, 8)) {
        Some(s) => s,
        None => return None,
    };
    let system = match read_string(get_part(j, "system", 1, 8)) {
        Some(s) => s,
        None => return None,
    };
    let builder = match read_string(get_part(j, "builder", 2, 8)) {
        Some(s) => s,
        None => return None,
    };
    let (args_part, env_part) = match (get_part(j, "args", 3, 8), get_part(j, "env", 4, 8)) {
        (Some(a), Some(e)) => (a, e),
        _ => return None,
    };
    let (drvs_part, srcs_part) = match (
        get_part(j, "inputDrvs", 5, 8),
        get_part(j, "inputSrcs", 6, 8),
    ) {
        (Some(d), Some(s)) => (d, s),
        _ => return None,
    };
    let outs_part = match get_part(j, "outputs", 7, 8) {
        Some(o) => o,
        None => return None,
    };
    let args = match read_strings(args_part) {
        Some(v) => v,
        None => return None,
    };
    let env = match read_texts(env_part) {
        Some(m) => m,
        None => return None,
    };
    let input_drvs = match read_input_drvs(drvs_part) {
        Some(m) => m,
        None => return None,
    };
    let input_srcs = match read_strings(srcs_part) {
        Some(v) => v,
        None => return None,
    };
    let outputs = match read_outputs(outs_part) {
        Some(m) => m,
        None => return None,
    };
    Some(InternalIr { name, system, builder, args, env, input_drvs, input_srcs, outputs })
}

// ---------------------------------------------------------------------------
// Store paths by name
// ---------------------------------------------------------------------------

/// Every path relative to the store directory.
pub open spec fn rebased_srcs(dir: Seq<char>, srcs: Seq<Seq<char>>) -> Seq<Seq<char>> {
    Seq::new(srcs.len(), |i: int| store_basename(dir, srcs[i]))
}

/// Writes every path relative to the store directory.
pub fn rebase_srcs(srcs: &Vec<String>, store: &StoreDir) -> (r: Vec<String>)
    ensures
        views(r@) == rebased_srcs(store@, views(srcs@)),
{
    let mut r: Vec<String> = Vec::new();
    let mut i: usize = 0;
    while i < srcs.len()
        invariant
            i <= srcs@.len(),
            r@.len() == i,
            forall|j: int| 0 <= j < i ==> (#[trigger] r@[j])@ == store_basename(store@, srcs@[j]@),
        decreases srcs@.len() - i,
    {
        r.push(owned(store.basename(srcs[i].as_str())));
        i = i + 1;
    }
    assert(views(r@) =~= rebased_srcs(store@, views(srcs@)));
    r
}

/// The map with the given keys of `m`, relative to the store directory. Of keys
/// that fall together the last counts.
pub open spec fn rebased_keys(
    dir: Seq<char>,
    keys: Seq<Seq<char>>,
    m: Map<Seq<char>, InputDrvView>,
) -> Map<Seq<char>, InputDrvView>
    decreases keys.len(),
{
    if keys.len() == 0 {
        Map::empty()
    } else {
        rebased_keys(dir, keys.drop_last(), m).insert(
            store_basename(dir, keys.last()),
            m[keys.last()],
        )
    }
}

/// The input derivations with their paths relative to the store directory.
pub open spec fn rebased_drvs(dir: Seq<char>, m: Map<Seq<char>, InputDrvView>) -> Map<
    Seq<char>,
    InputDrvView,
> {
    rebased_keys(dir, sorted_keys(m), m)
}

fn clone_members(m: &StrMap<Json>) -> (r: StrMap<Json>)
    ensures
        json_map(r@) == json_map(m@),
{
    let n: usize = m.len();
    let mut r: StrMap<Json> = StrMap::new();
    let mut i: usize = 0;
    while i < n
        invariant
            i <= n,
            n == m.keys_seq().len(),
            n == m.values_seq().len(),
            forall|k: int|
                0 <= k < n ==> m@.contains_key(#[trigger] m.keys_seq()[k]) && m@[m.keys_seq()[k]]
                    == m.values_seq()[k],
            forall|k: int|
                0 <= k < i ==> r@.contains_key(#[trigger] m.keys_seq()[k])
                    && r@[m.keys_seq()[k]]@ == m.values_seq()[k]@,
            forall|x: Seq<char>| #[trigger]
                r@.contains_key(x) ==> m@.contains_key(x) && r@[x]@ == m@[x]@,
        decreases n - i,
    {
        r.insert(m.key_at(i).clone(), clone_json(m.value_at(i)));
        assert(m@.contains_key(m.keys_seq()[i as int]));
        i = i + 1;
    }
    assert forall|x: Seq<char>| #[trigger] m@.contains_key(x) implies r@.contains_key(x) by {
        assert(m.keys_seq().contains(x));
        let k = choose|k: int| 0 <= k < n && m.keys_seq()[k] == x;
        assert(r@.contains_key(m.keys_seq()[k]));
    }
    assert(json_map(r@) =~= json_map(m@));
    r
}

fn clone_input_drv(d: &InputDrv) -> (r: InputDrv)
    ensures
        r@ == d@,
{
    InputDrv {
        outputs: clone_strings(&d.outputs),
        dynamic_outputs: clone_members(&d.dynamic_outputs),
    }
}

/// Writes the paths of the input derivations relative to the store directory.
pub fn rebase_drv_keys(drvs: &StrMap<InputDrv>, store: &StoreDir) -> (r: StrMap<InputDrv>)
    ensures
        drv_map(r@) == rebased_drvs(store@, drv_map(drvs@)),
{
    let n: usize = drvs.len();
    let ghost keys = drvs.keys_seq();
    let ghost m = drv_map(drvs@);
    proof {
        assert(lists_keys(keys, m)) by {
            assert forall|k: Seq<char>| #[trigger] keys.contains(k) implies m.contains_key(k) by {
                let i = choose|i: int| 0 <= i < n && keys[i] == k;
                assert(drvs@.contains_key(drvs.keys_seq()[i]));
            }
            assert forall|k: Seq<char>| #[trigger] m.contains_key(k) implies keys.contains(k) by {
                assert(drvs@.contains_key(k));
            }
        }
        lemma_sorted_keys(keys, m);
    }
    let mut r: StrMap<InputDrv> = StrMap::new();
    let mut i: usize = 0;
    assert(drv_map(r@) =~= Map::empty());
    while i < n
        invariant
            i <= n,
            keys == drvs.keys_seq(),
            n == keys.len(),
            n == drvs.values_seq().len(),
            m == drv_map(drvs@),
            forall|k: int|
                0 <= k < n ==> drvs@.contains_key(#[trigger] drvs.keys_seq()[k])
                    && drvs@[drvs.keys_seq()[k]] == drvs.values_seq()[k],
            drv_map(r@) == rebased_keys(store@, keys.take(i as int), m),
        decreases n - i,
    {
        assert(keys.take(i + 1).drop_last() =~= keys.take(i as int));
        let ghost before = drv_map(r@);
        let d = clone_input_drv(drvs.value_at(i));
        let ghost dv = d@;
        assert(drvs@.contains_key(drvs.keys_seq()[i as int]));
        assert(m[keys[i as int]] == dv);
        let key = owned(store.basename(drvs.key_at(i).as_str()));
        let ghost kv = key@;
        r.insert(key, d);
        assert(drv_map(r@) =~= before.insert(kv, dv));
        i = i + 1;
    }
    assert(keys.take(n as int) =~= keys);
    r
}

// ---------------------------------------------------------------------------
// Shapes by release
// ---------------------------------------------------------------------------

/// The shape that releases before 2.32 take.
pub struct PreNix232Derivation {
    pub name: String,
    pub system: String,
    pub builder: String,
    pub args: Vec<String>,
    pub env: StrMap<String>,
    pub input_drvs: StrMap<InputDrv>,
    pub input_srcs: Vec<String>,
    pub outputs: StrMap<OutputSpec>,
}

/// The shape that release 2.32 takes. Its version is 3.
pub struct Nix232Derivation {
    pub name: String,
    pub version: u8,
    pub system: String,
    pub builder: String,
    pub args: Vec<String>,
    pub env: StrMap<String>,
    pub input_drvs: StrMap<InputDrv>,
    pub input_srcs: Vec<String>,
    pub outputs: StrMap<OutputSpec>,
}

/// The shape that releases from 2.33 on take. Its version is 4.
pub struct Nix233Derivation {
    pub name: String,
    pub version: u8,
    pub system: String,
    pub builder: String,
    pub args: Vec<String>,
    pub env: StrMap<String>,
    pub inputs: Nix233Inputs,
    pub outputs: StrMap<OutputSpec>,
}

/// The nested inputs of releases from 2.33 on.
pub struct Nix233Inputs {
    pub drvs: StrMap<InputDrv>,
    pub srcs: Vec<String>,
}

/// A derivation in the shape of a release.
pub enum NixDerivation {
    PreNix232(PreNix232Derivation),
    Nix232(Nix232Derivation),
    Nix233(Nix233Derivation),
}

/// What a shaped derivation holds: the release, the version it states, and the
/// derivation.
#[verifier::ext_equal]
pub struct ShapedView {
    pub target: TargetNix,
    pub version: Option<u8>,
    pub ir: IrView,
}

impl View for NixDerivation {
    type V = ShapedView;

    open spec fn view(&self) -> ShapedView {
        match self {
            NixDerivation::PreNix232(d) => ShapedView {
                target: TargetNix::PreNix232,
                version: None,
                ir: IrView {
                    name: d.name@,
                    system: d.system@,
                    builder: d.builder@,
                    args: views(d.args@),
                    env: text_map(d.env@),
                    input_drvs: drv_map(d.input_drvs@),
                    input_srcs: views(d.input_srcs@),
                    outputs: output_map(d.outputs@),
                },
            },
            NixDerivation::Nix232(d) => ShapedView {
                target: TargetNix::Nix232,
                version: Some(d.version),
                ir: IrView {
                    name: d.name@,
                    system: d.system@,
                    builder: d.builder@,
                    args: views(d.args@),
                    env: text_map(d.env@),
                    input_drvs: drv_map(d.input_drvs@),
                    input_srcs: views(d.input_srcs@),
                    outputs: output_map(d.outputs@),
                },
            },
            NixDerivation::Nix233(d) => ShapedView {
                target: TargetNix::Nix233,
                version: Some(d.version),
                ir: IrView {
                    name: d.name@,
                    system: d.system@,
                    builder: d.builder@,
                    args: views(d.args@),
                    env: text_map(d.env@),
                    input_drvs: drv_map(d.inputs.drvs@),
                    input_srcs: views(d.inputs.srcs@),
                    outputs: output_map(d.outputs@),
                },
            },
        }
    }
}

/// A derivation with its inputs named relative to the store directory.
pub open spec fn rebased(ir: IrView, dir: Seq<char>) -> IrView {
    IrView {
        input_drvs: rebased_drvs(dir, ir.input_drvs),
        input_srcs: rebased_srcs(dir, ir.input_srcs),
        ..ir
    }
}

/// A derivation in the shape of a release.
pub open spec fn shaped(ir: IrView, target: TargetNix, dir: Seq<char>) -> ShapedView {
    match target {
        TargetNix::PreNix232 => ShapedView { target, version: None, ir },
        TargetNix::Nix232 => ShapedView { target, version: Some(3), ir: rebased(ir, dir) },
        TargetNix::Nix233 => ShapedView { target, version: Some(4), ir: rebased(ir, dir) },
    }
}

impl NixDerivation {
    /// Gives a derivation the shape that `target` takes. From release 2.32 on its
    /// inputs are named relative to the store directory; its builder, arguments
    /// and environment stay as they are.
    pub fn from_ir(ir: &Json, target: TargetNix, store: &StoreDir) -> (r: Result<Self, String>)
        ensures
            match (r, ir_of(ir@)) {
                (Ok(d), Some(p)) => d@ == shaped(p, target, store@),
                (Err(e), None) => e@ == "Parsing internal IR derivation JSON"@,
                _ => false,
            },
    {
        let parsed = match read_ir(ir) {
            Some(p) => p,
            None => return Err(owned("Parsing internal IR derivation JSON")),
        };
        Ok(
            match target {
                TargetNix::PreNix232 => NixDerivation::PreNix232(
                    PreNix232Derivation {
                        name: parsed.name,
                        system: parsed.system,
                        builder: parsed.builder,
                        args: parsed.args,
                        env: parsed.env,
                        input_drvs: parsed.input_drvs,
                        input_srcs: parsed.input_srcs,
                        outputs: parsed.outputs,
                    },
                ),
                TargetNix::Nix232 => NixDerivation::Nix232(
                    Nix232Derivation {
                        name: parsed.name,
                        version: 3,
                        system: parsed.system,
                        builder: parsed.builder,
                        args: parsed.args,
                        env: parsed.env,
                        input_drvs: rebase_drv_keys(&parsed.input_drvs, store),
                        input_srcs: rebase_srcs(&parsed.input_srcs, store),
                        outputs: parsed.outputs,
                    },
                ),
                TargetNix::Nix233 => NixDerivation::Nix233(
                    Nix233Derivation {
                        name: parsed.name,
                        version: 4,
                        system: parsed.system,
                        builder: parsed.builder,
                        args: parsed.args,
                        env: parsed.env,
                        inputs: Nix233Inputs {
                            drvs: rebase_drv_keys(&parsed.input_drvs, store),
                            srcs: rebase_srcs(&parsed.input_srcs, store),
                        },
                        outputs: parsed.outputs,
                    },
                ),
            },
        )
    }
}

// ---------------------------------------------------------------------------
// Writing
// ---------------------------------------------------------------------------

/// The object that a map of strings is written as.
pub open spec fn texts_json(m: Map<Seq<char>, Seq<char>>) -> JsonView {
    let keys = sorted_keys(m);
    JsonView::Object(Seq::new(keys.len(), |i: int| (keys[i], JsonView::Text(m[keys[i]]))))
}

/// The object that a map of documents is written as.
pub open spec fn members_json(m: Map<Seq<char>, JsonView>) -> JsonView {
    let keys = sorted_keys(m);
    JsonView::Object(Seq::new(keys.len(), |i: int| (keys[i], m[keys[i]])))
}

/// The object that an input derivation is written as.
pub open spec fn input_drv_shape(d: InputDrvView) -> JsonView {
    JsonView::Object(
        seq![
            ("outputs"@, text_array(d.outputs)),
            ("dynamicOutputs"@, members_json(d.dynamic_outputs)),
        ],
    )
}

/// The object that the input derivations are written as.
pub open spec fn input_drvs_shape(m: Map<Seq<char>, InputDrvView>) -> JsonView {
    let keys = sorted_keys(m);
    JsonView::Object(Seq::new(keys.len(), |i: int| (keys[i], input_drv_shape(m[keys[i]]))))
}

/// The object that an output is written as.
pub open spec fn output_shape(o: OutputView) -> JsonView {
    JsonView::Object(
        seq![
            ("hashAlgo"@, JsonView::Text(o.hash_algo)),
            ("method"@, JsonView::Text(o.method)),
        ],
    )
}

/// The object that the outputs are written as.
pub open spec fn outputs_shape(m: Map<Seq<char>, OutputView>) -> JsonView {
    let keys = sorted_keys(m);
    JsonView::Object(Seq::new(keys.len(), |i: int| (keys[i], output_shape(m[keys[i]]))))
}

/// The object that a shaped derivation is written as.
pub open spec fn shaped_json(d: ShapedView) -> JsonView {
    let ir = d.ir;
    let name = seq![("name"@, JsonView::Text(ir.name))];
    let version = seq![("version"@, JsonView::Number(d.version->0 as u64))];
    let head = seq![
        ("system"@, JsonView::Text(ir.system)),
        ("builder"@, JsonView::Text(ir.builder)),
        ("args"@, text_array(ir.args)),
        ("env"@, texts_json(ir.env)),
    ];
    let inputs = seq![
        ("inputDrvs"@, input_drvs_shape(ir.input_drvs)),
        ("inputSrcs"@, text_array(ir.input_srcs)),
    ];
    let nested = seq![
        (
            "inputs"@,
            JsonView::Object(
                seq![
                    ("drvs"@, input_drvs_shape(ir.input_drvs)),
                    ("srcs"@, text_array(ir.input_srcs)),
                ],
            ),
        ),
    ];
    let outputs = seq![("outputs"@, outputs_shape(ir.outputs))];
    JsonView::Object(
        match d.target {
            TargetNix::PreNix232 => name + head + inputs + outputs,
            TargetNix::Nix232 => name + version + head + inputs + outputs,
            TargetNix::Nix233 => name + version + head + nested + outputs,
        },
    )
}

fn write_texts(m: &StrMap<String>) -> (r: Json)
    ensures
        r@ == texts_json(text_map(m@)),
{
    let n: usize = m.len();
    let ghost keys = m.keys_seq();
    let ghost mv = text_map(m@);
    proof {
        lemma_keys_of(keys, m@, mv);
    }
    let mut a: Vec<(String, Json)> = Vec::new();
    let mut i: usize = 0;
    while i < n
        invariant
            i <= n,
            keys == m.keys_seq(),
            n == keys.len(),
            n == m.values_seq().len(),
            forall|k: int|
                0 <= k < n ==> m@.contains_key(#[trigger] m.keys_seq()[k]) && m@[m.keys_seq()[k]]
                    == m.values_seq()[k],
            mv == text_map(m@),
            a@.len() == i,
            forall|k: int|
                0 <= k < i ==> (#[trigger] a@[k]).0@ == keys[k] && a@[k].1@ == JsonView::Text(
                    mv[keys[k]],
                ),
        decreases n - i,
    {
        assert(m@.contains_key(m.keys_seq()[i as int]));
        a.push((m.key_at(i).clone(), text(m.value_at(i).as_str())));
        i = i + 1;
    }
    proof {
        lemma_view_object(a);
        assert(member_views(a@) =~= texts_json(mv)->Object_0);
    }
    Json::Object(a)
}

proof fn lemma_keys_of<A, B>(keys: Seq<Seq<char>>, m: Map<Seq<char>, A>, mv: Map<Seq<char>, B>)
    requires
        strictly_sorted(keys),
        forall|i: int| 0 <= i < keys.len() ==> m.contains_key(#[trigger] keys[i]),
        forall|k: Seq<char>| #[trigger] m.contains_key(k) ==> keys.contains(k),
        forall|k: Seq<char>| #[trigger] mv.contains_key(k) <==> m.contains_key(k),
    ensures
        sorted_keys(mv) == keys,
{
    assert forall|k: Seq<char>| #[trigger] keys.contains(k) <==> mv.contains_key(k) by {
        if keys.contains(k) {
            let i = choose|i: int| 0 <= i < keys.len() && keys[i] == k;
            assert(m.contains_key(keys[i]));
        }
        assert(mv.contains_key(k) <==> m.contains_key(k));
    }
    lemma_sorted_keys(keys, mv);
}

fn write_members(m: &StrMap<Json>) -> (r: Json)
    ensures
        r@ == members_json(json_map(m@)),
{
    let n: usize = m.len();
    let ghost keys = m.keys_seq();
    let ghost mv = json_map(m@);
    proof {
        lemma_keys_of(keys, m@, mv);
    }
    let mut a: Vec<(String, Json)> = Vec::new();
    let mut i: usize = 0;
    while i < n
        invariant
            i <= n,
            keys == m.keys_seq(),
            n == keys.len(),
            n == m.values_seq().len(),
            forall|k: int|
                0 <= k < n ==> m@.contains_key(#[trigger] m.keys_seq()[k]) && m@[m.keys_seq()[k]]
                    == m.values_seq()[k],
            mv == json_map(m@),
            a@.len() == i,
            forall|k: int|
                0 <= k < i ==> (#[trigger] a@[k]).0@ == keys[k] && a@[k].1@ == mv[keys[k]],
        decreases n - i,
    {
        assert(m@.contains_key(m.keys_seq()[i as int]));
        a.push((m.key_at(i).clone(), clone_json(m.value_at(i))));
        i = i + 1;
    }
    proof {
        lemma_view_object(a);
        assert(member_views(a@) =~= members_json(mv)->Object_0);
    }
    Json::Object(a)
}

fn write_input_drv(d: &InputDrv) -> (r: Json)
    ensures
        r@ == input_drv_shape(d@),
{
    let mut a: Vec<(String, Json)> = Vec::new();
    a.push((owned("outputs"), texts(&d.outputs)));
    a.push((owned("dynamicOutputs"), write_members(&d.dynamic_outputs)));
    proof {
        lemma_view_object(a);
        assert(member_views(a@) =~= input_drv_shape(d@)->Object_0);
    }
    Json::Object(a)
}

fn write_input_drvs(m: &StrMap<InputDrv>) -> (r: Json)
    ensures
        r@ == input_drvs_shape(drv_map(m@)),
{
    let n: usize = m.len();
    let ghost keys = m.keys_seq();
    let ghost mv = drv_map(m@);
    proof {
        lemma_keys_of(keys, m@, mv);
    }
    let mut a: Vec<(String, Json)> = Vec::new();
    let mut i: usize = 0;
    while i < n
        invariant
            i <= n,
            keys == m.keys_seq(),
            n == keys.len(),
            n == m.values_seq().len(),
            forall|k: int|
                0 <= k < n ==> m@.contains_key(#[trigger] m.keys_seq()[k]) && m@[m.keys_seq()[k]]
                    == m.values_seq()[k],
            mv == drv_map(m@),
            a@.len() == i,
            forall|k: int|
                0 <= k < i ==> (#[trigger] a@[k]).0@ == keys[k] && a@[k].1@ == input_drv_shape(
                    mv[keys[k]],
                ),
        decreases n - i,
    {
        assert(m@.contains_key(m.keys_seq()[i as int]));
        a.push((m.key_at(i).clone(), write_input_drv(m.value_at(i))));
        i = i + 1;
    }
    proof {
        lemma_view_object(a);
        assert(member_views(a@) =~= input_drvs_shape(mv)->Object_0);
    }
    Json::Object(a)
}

fn write_output(o: &OutputSpec) -> (r: Json)
    ensures
        r@ == output_shape(o@),
{
    let mut a: Vec<(String, Json)> = Vec::new();
    a.push((owned("hashAlgo"), text(o.hash_algo.as_str())));
    a.push((owned("method"), text(o.method.as_str())));
    proof {
        lemma_view_object(a);
        assert(member_views(a@) =~= output_shape(o@)->Object_0);
    }
    Json::Object(a)
}

fn write_outputs(m: &StrMap<OutputSpec>) -> (r: Json)
    ensures
        r@ == outputs_shape(output_map(m@)),
{
    let n: usize = m.len();
    let ghost keys = m.keys_seq();
    let ghost mv = output_map(m@);
    proof {
        lemma_keys_of(keys, m@, mv);
    }
    let mut a: Vec<(String, Json)> = Vec::new();
    let mut i: usize = 0;
    while i < n
        invariant
            i <= n,
            keys == m.keys_seq(),
            n == keys.len(),
            n == m.values_seq().len(),
            forall|k: int|
                0 <= k < n ==> m@.contains_key(#[trigger] m.keys_seq()[k]) && m@[m.keys_seq()[k]]
                    == m.values_seq()[k],
            mv == output_map(m@),
            a@.len() == i,
            forall|k: int|
                0 <= k < i ==> (#[trigger] a@[k]).0@ == keys[k] && a@[k].1@ == output_shape(
                    mv[keys[k]],
                ),
        decreases n - i,
    {
        assert(m@.contains_key(m.keys_seq()[i as int]));
        a.push((m.key_at(i).clone(), write_output(m.value_at(i))));
        i = i + 1;
    }
    proof {
        lemma_view_object(a);
        assert(member_views(a@) =~= outputs_shape(mv)->Object_0);
    }
    Json::Object(a)
}

fn push_head(
    a: &mut Vec<(String, Json)>,
    system: &String,
    builder: &String,
    args: &Vec<String>,
    env: &StrMap<String>,
)
    ensures
        member_views(final(a)@) == member_views(old(a)@) + seq![
            ("system"@, JsonView::Text(system@)),
            ("builder"@, JsonView::Text(builder@)),
            ("args"@, text_array(views(args@))),
            ("env"@, texts_json(text_map(env@))),
        ],
{
    let ghost before = member_views(a@);
    a.push((owned("system"), text(system.as_str())));
    a.push((owned("builder"), text(builder.as_str())));
    a.push((owned("args"), texts(args)));
    a.push((owned("env"), write_texts(env)));
    assert(member_views(a@) =~= before + seq![
        ("system"@, JsonView::Text(system@)),
        ("builder"@, JsonView::Text(builder@)),
        ("args"@, text_array(views(args@))),
        ("env"@, texts_json(text_map(env@))),
    ]);
}

fn push_inputs(
    a: &mut Vec<(String, Json)>,
    drvs_name: &str,
    drvs: &StrMap<InputDrv>,
    srcs_name: &str,
    srcs: &Vec<String>,
)
    ensures
        member_views(final(a)@) == member_views(old(a)@) + seq![
            (drvs_name@, input_drvs_shape(drv_map(drvs@))),
            (srcs_name@, text_array(views(srcs@))),
        ],
{
    let ghost before = member_views(a@);
    a.push((owned(drvs_name), write_input_drvs(drvs)));
    a.push((owned(srcs_name), texts(srcs)));
    assert(member_views(a@) =~= before + seq![
        (drvs_name@, input_drvs_shape(drv_map(drvs@))),
        (srcs_name@, text_array(views(srcs@))),
    ]);
}

fn push_one(a: &mut Vec<(String, Json)>, name: &str, value: Json)
    ensures
        member_views(final(a)@) == member_views(old(a)@) + seq![(name@, value@)],
{
    let ghost before = member_views(a@);
    let ghost v = value@;
    a.push((owned(name), value));
    assert(member_views(a@) =~= before + seq![(name@, v)]);
}

impl NixDerivation {
    /// Writes the derivation exactly as its release takes it.
    pub fn to_json(&self) -> (r: Json)
        ensures
            r@ == shaped_json(self@),
    {
        let mut a: Vec<(String, Json)> = Vec::new();
        assert(member_views(a@) =~= Seq::empty());
        match self {
            NixDerivation::PreNix232(d) => {
                push_one(&mut a, "name", text(d.name.as_str()));
                push_head(&mut a, &d.system, &d.builder, &d.args, &d.env);
                push_inputs(&mut a, "inputDrvs", &d.input_drvs, "inputSrcs", &d.input_srcs);
                push_one(&mut a, "outputs", write_outputs(&d.outputs));
            },
            NixDerivation::Nix232(d) => {
                push_one(&mut a, "name", text(d.name.as_str()));
                push_one(&mut a, "version", Json::Number(d.version as u64));
                push_head(&mut a, &d.system, &d.builder, &d.args, &d.env);
                push_inputs(&mut a, "inputDrvs", &d.input_drvs, "inputSrcs", &d.input_srcs);
                push_one(&mut a, "outputs", write_outputs(&d.outputs));
            },
            NixDerivation::Nix233(d) => {
                push_one(&mut a, "name", text(d.name.as_str()));
                push_one(&mut a, "version", Json::Number(d.version as u64));
                push_head(&mut a, &d.system, &d.builder, &d.args, &d.env);
                let mut inputs: Vec<(String, Json)> = Vec::new();
                assert(member_views(inputs@) =~= Seq::empty());
                push_inputs(&mut inputs, "drvs", &d.inputs.drvs, "srcs", &d.inputs.srcs);
                proof {
                    lemma_view_object(inputs);
                    assert(member_views(inputs@) =~= seq![
                        ("drvs"@, input_drvs_shape(self@.ir.input_drvs)),
                        ("srcs"@, text_array(self@.ir.input_srcs)),
                    ]);
                }
                push_one(&mut a, "inputs", Json::Object(inputs));
                push_one(&mut a, "outputs", write_outputs(&d.outputs));
            },
        }
        proof {
            lemma_view_object(a);
            assert(member_views(a@) =~= shaped_json(self@)->Object_0);
        }
        Json::Object(a)
    }
}

// ---------------------------------------------------------------------------
// Laws
// ---------------------------------------------------------------------------

/// A path in the store loses exactly the store directory and its slash.
pub proof fn law_basename_in_store(dir: Seq<char>, name: Seq<char>)
    requires
        name.len() == 0 || name[0] != '/',
    ensures
        store_basename(dir, dir + seq!['/'] + name) == name,
        store_basename(dir, dir + name) == name,
{
    let p = dir + seq!['/'] + name;
    assert(p.take(dir.len() as int) =~= dir);
    assert(p.skip(dir.len() as int) =~= seq!['/'] + name);
    assert((seq!['/'] + name).skip(1) =~= name);
    let q = dir + name;
    assert(q.take(dir.len() as int) =~= dir);
    assert(q.skip(dir.len() as int) =~= name);
}

/// A newer release never takes an older shape.
pub proof fn law_targets_in_order(major: u32, minor: u32, later_major: u32, later_minor: u32)
    requires
        2 <= major < later_major || (2 <= major == later_major && minor <= later_minor),
    ensures
        target_of(major, minor) is Nix233 ==> target_of(later_major, later_minor) is Nix233,
        target_of(later_major, later_minor) is PreNix232 ==> target_of(major, minor) is PreNix232,
{
}

/// The shapes differ in the version and in how inputs are named, and in nothing
/// else.
pub proof fn law_shapes_agree(ir: IrView, target: TargetNix, dir: Seq<char>)
    ensures
        shaped(ir, target, dir).ir.name == ir.name,
        shaped(ir, target, dir).ir.system == ir.system,
        shaped(ir, target, dir).ir.builder == ir.builder,
        shaped(ir, target, dir).ir.args == ir.args,
        shaped(ir, target, dir).ir.env == ir.env,
        shaped(ir, target, dir).ir.outputs == ir.outputs,
        shaped(ir, target, dir).ir.input_srcs.len() == ir.input_srcs.len(),
{
}

/// What is taken from every input derivation that is built: its only output.
pub open spec fn plain_input() -> InputDrvView {
    InputDrvView { outputs: seq!["out"@], dynamic_outputs: Map::empty() }
}

/// The input derivations with the given paths.
pub open spec fn plain_inputs(drvs: Seq<Seq<char>>) -> Map<Seq<char>, InputDrvView> {
    Map::new(|p: Seq<char>| drvs.contains(p), |p: Seq<char>| plain_input())
}

/// What a derivation that runs a script holds.
pub open spec fn script_ir(
    name: Seq<char>,
    system: Seq<char>,
    builder: Seq<char>,
    script: Seq<char>,
    drvs: Seq<Seq<char>>,
    srcs: Seq<Seq<char>>,
) -> IrView {
    IrView {
        name,
        system,
        builder,
        args: seq!["-c"@, script],
        env: Map::empty().insert("out"@, own_placeholder("out"@)).insert(
            "preferLocalBuild"@,
            "1"@,
        ).insert("allowSubstitutes"@, ""@),
        input_drvs: plain_inputs(drvs),
        input_srcs: srcs,
        outputs: Map::empty().insert(
            "out"@,
            OutputView { hash_algo: "sha256"@, method: "nar"@ },
        ),
    }
}

proof fn lemma_strings_in_texts(v: Seq<Seq<char>>)
    ensures
        strings_of(text_array(v)) == Some(v),
    decreases v.len(),
{
    let items = text_array(v)->Array_0;
    if v.len() > 0 {
        lemma_strings_in_texts(v.drop_last());
        assert(items.drop_last() =~= text_array(v.drop_last())->Array_0);
        assert(v.drop_last().push(v.last()) =~= v);
    } else {
        assert(v =~= Seq::empty());
    }
}

proof fn lemma_plain_input()
    ensures
        input_drv_of(input_drv_json()) == Some(plain_input()),
{
    reveal_strlit("dynamicOutputs");
    reveal_strlit("outputs");
    let m = input_drv_json()->Object_0;
    assert(m[0].0.len() != m[1].0.len());
    lemma_lookup_at(m, 0);
    lemma_lookup_at(m, 1);
    lemma_strings_in_texts(seq!["out"@]);
    assert(members_map(Seq::empty()) =~= Map::empty());
}

proof fn lemma_plain_inputs(drvs: Seq<Seq<char>>)
    ensures
        input_drvs_of(input_drvs_json(drvs)) == Some(plain_inputs(drvs)),
    decreases drvs.len(),
{
    let m = input_drvs_json(drvs)->Object_0;
    if drvs.len() > 0 {
        let before = drvs.drop_last();
        lemma_plain_inputs(before);
        lemma_plain_input();
        assert(m.drop_last() =~= input_drvs_json(before)->Object_0);
        assert forall|p: Seq<char>| drvs.contains(p) == (before.contains(p) || p == drvs.last()) by {
            if drvs.contains(p) && p != drvs.last() {
                let i = choose|i: int| 0 <= i < drvs.len() && drvs[i] == p;
                assert(before[i] == p);
            }
            if before.contains(p) {
                let i = choose|i: int| 0 <= i < before.len() && before[i] == p;
                assert(drvs[i] == p);
            }
            if p == drvs.last() {
                assert(drvs[drvs.len() - 1] == p);
            }
        }
        assert(plain_inputs(before).insert(drvs.last(), plain_input()) =~= plain_inputs(drvs));
    } else {
        assert(plain_inputs(drvs) =~= Map::empty());
    }
}

proof fn lemma_env_read()
    ensures
        texts_of(env_json()) == Some(
            Map::empty().insert("out"@, own_placeholder("out"@)).insert(
                "preferLocalBuild"@,
                "1"@,
            ).insert("allowSubstitutes"@, ""@),
        ),
{
    let m = env_json()->Object_0;
    let m2 = m.drop_last();
    let m1 = m2.drop_last();
    let m0 = m1.drop_last();
    assert(texts_in(m0) == Some(Map::<Seq<char>, Seq<char>>::empty()));
    assert(texts_in(m1) == Some(Map::empty().insert("out"@, own_placeholder("out"@))));
    assert(texts_in(m2) == Some(
        Map::empty().insert("out"@, own_placeholder("out"@)).insert("preferLocalBuild"@, "1"@),
    ));
}

proof fn lemma_outputs_read()
    ensures
        outputs_of(outputs_json()) == Some(
            Map::empty().insert("out"@, OutputView { hash_algo: "sha256"@, method: "nar"@ }),
        ),
{
    reveal_strlit("hashAlgo");
    reveal_strlit("method");
    let m = outputs_json()->Object_0;
    let o = m[0].1->Object_0;
    assert(o[0].0.len() != o[1].0.len());
    lemma_lookup_at(o, 0);
    lemma_lookup_at(o, 1);
    assert(m.drop_last() =~= Seq::empty());
    assert(outputs_in(m.drop_last()) == Some(Map::<Seq<char>, OutputView>::empty()));
}

/// Every derivation that is built is one that can be given the shape of a
/// release, and reading it gives back what was put in.
pub proof fn law_built_is_read_back(
    name: Seq<char>,
    system: Seq<char>,
    builder: Seq<char>,
    script: Seq<char>,
    drvs: Seq<Seq<char>>,
    srcs: Seq<Seq<char>>,
)
    ensures
        ir_of(derivation_json(name, system, builder, script, drvs, srcs)) == Some(
            script_ir(name, system, builder, script, drvs, srcs),
        ),
{
    reveal_strlit("name");
    reveal_strlit("system");
    reveal_strlit("builder");
    reveal_strlit("args");
    reveal_strlit("env");
    reveal_strlit("inputDrvs");
    reveal_strlit("inputSrcs");
    reveal_strlit("outputs");
    let m = derivation_json(name, system, builder, script, drvs, srcs)->Object_0;
    assert(m[0].0[0] == 'n');
    assert(m[1].0[0] == 's');
    assert(m[2].0[0] == 'b');
    assert(m[3].0[0] == 'a');
    assert(m[4].0[0] == 'e');
    assert(m[5].0[0] == 'i' && m[5].0[5] == 'D');
    assert(m[6].0[0] == 'i' && m[6].0[5] == 'S');
    assert(m[7].0[0] == 'o');
    lemma_lookup_at(m, 0);
    lemma_lookup_at(m, 1);
    lemma_lookup_at(m, 2);
    lemma_lookup_at(m, 3);
    lemma_lookup_at(m, 4);
    lemma_lookup_at(m, 5);
    lemma_lookup_at(m, 6);
    lemma_lookup_at(m, 7);
    lemma_strings_in_texts(seq!["-c"@, script]);
    lemma_strings_in_texts(srcs);
    lemma_plain_inputs(drvs);
    lemma_env_read();
    lemma_outputs_read();
}

} // verus!
