//! Following a log of Nix's activities to see how long each derivation took.
use crate::json::{array_field, field, json_views, text_field, Json, JsonView};
use crate::json_text::{json_document, parse_json};
use crate::nix_encoding::after_store_dir;
use crate::shell::{behind_hash, skip_hash};
use crate::text::{
    ends, find_char, first_of, from_chars, owned, replace, replace_seq, same, starts, strip_prefix,
    strip_suffix, to_chars,
};
use std::collections::HashMap;
use vstd::prelude::*;

verus! {

/// The time and the activity in a line of the log.
pub open spec fn line_parts(line: Seq<char>) -> Option<(Seq<char>, Seq<char>)> {
    if line.len() > 0 && line[0] == '[' {
        let rest = line.skip(1);
        match first_of(rest, ']') {
            Some(i) => if starts(rest.skip(i + 1), " @nix "@) {
                Some((rest.take(i), rest.skip(i + 1).skip(" @nix "@.len() as int)))
            } else {
                None
            },
            None => None,
        }
    } else {
        None
    }
}

/// Splits a line `[time] @nix {..}` of the log.
pub fn split_line(line: &str) -> (r: Option<(String, String)>)
    ensures
        match r {
            Some((time, activity)) => line_parts(line@) == Some((time@, activity@)),
            None => line_parts(line@) is None,
        },
{
    let chars = to_chars(line);
    if chars.len() == 0 || chars[0] != '[' {
        return None;
    }
    let rest = from_chars(&chars, 1, chars.len());
    assert(rest@ =~= line@.skip(1));
    let rest_chars = to_chars(rest.as_str());
    let i = match find_char(&rest_chars, ']') {
        Some(i) => i,
        None => return None,
    };
    let time = from_chars(&rest_chars, 0, i);
    let behind = from_chars(&rest_chars, i + 1, rest_chars.len());
    assert(time@ =~= rest@.take(i as int));
    assert(behind@ =~= rest@.skip(i + 1));
    match strip_prefix(behind.as_str(), " @nix ") {
        Some(activity) => Some((time, owned(activity))),
        None => None,
    }
}

/// The name of a derivation, without the hash in its path. The ending counts only
/// where the path has it.
pub open spec fn activity_name(drv: Seq<char>) -> Seq<char> {
    let base = after_store_dir(drv);
    behind_hash(
        if ends(base, ".drv"@) {
            base.take(base.len() - ".drv"@.len())
        } else {
            drv
        },
    )
}

/// Names a derivation without the hash in its path.
pub fn extract_drv_name(drv: &str) -> (r: String)
    ensures
        r@ == activity_name(drv@),
{
    let base = match strip_prefix(drv, "/nix/store/") {
        Some(rest) => rest,
        None => drv,
    };
    let name = match strip_suffix(base, ".drv") {
        Some(n) => n,
        None => drv,
    };
    owned(skip_hash(name))
}

/// An activity in the log.
pub enum Activity {
    /// The build of a derivation was started.
    Start(u64, String),
    /// An activity has stopped.
    Stop(u64),
    Other,
}

/// An activity in the log.
pub enum ActivityView {
    Start(u64, Seq<char>),
    Stop(u64),
    Other,
}

impl View for Activity {
    type V = ActivityView;

    open spec fn view(&self) -> ActivityView {
        match self {
            Activity::Start(id, name) => ActivityView::Start(*id, name@),
            Activity::Stop(id) => ActivityView::Stop(*id),
            Activity::Other => ActivityView::Other,
        }
    }
}

/// The natural number that a member of an object is.
pub open spec fn number_field(j: JsonView, key: Seq<char>) -> Option<u64> {
    match field(j, key) {
        Some(JsonView::Number(n)) => Some(n),
        _ => None,
    }
}

fn get_number(j: &Json, key: &str) -> (r: Option<u64>)
    ensures
        r == number_field(j@, key@),
{
    match j.get(key) {
        Some(Json::Number(n)) => Some(*n),
        _ => None,
    }
}

/// The number by which Nix marks the build of a derivation.
pub const BUILD_ACTIVITY: u64 = 105;

/// The path in an activity: its first field, if it is a string.
pub open spec fn activity_path(j: JsonView) -> Seq<char> {
    match array_field(j, "fields"@) {
        Some(items) => if items.len() > 0 {
            match items[0] {
                JsonView::Text(s) => s,
                _ => Seq::empty(),
            }
        } else {
            Seq::empty()
        },
        None => Seq::empty(),
    }
}

/// What an activity is. One without an id has the id zero.
pub open spec fn activity_of(j: JsonView) -> ActivityView {
    let id = match number_field(j, "id"@) {
        Some(n) => n,
        None => 0,
    };
    let action = text_field(j, "action"@);
    if action == Some("start"@) && number_field(j, "type"@) == Some(BUILD_ACTIVITY) {
        ActivityView::Start(id, activity_name(activity_path(j)))
    } else if action == Some("stop"@) {
        ActivityView::Stop(id)
    } else {
        ActivityView::Other
    }
}

fn get_path(j: &Json) -> (r: String)
    ensures
        r@ == activity_path(j@),
{
    proof {
        reveal_strlit("");
        assert(""@ =~= Seq::<char>::empty());
    }
    match j.get_array("fields") {
        Some(items) => {
            assert(json_views(items@).len() == items@.len());
            if items.len() > 0 {
                assert(json_views(items@)[0] == items@[0]@);
                match &items[0] {
                    Json::Text(s) => s.clone(),
                    _ => owned(""),
                }
            } else {
                owned("")
            }
        },
        None => owned(""),
    }
}

/// Tells what an activity is.
pub fn read_activity(j: &Json) -> (r: Activity)
    ensures
        r@ == activity_of(j@),
{
    let id: u64 = match get_number(j, "id") {
        Some(n) => n,
        None => 0,
    };
    match j.get_str("action") {
        Some(action) => if same(action.as_str(), "start") {
            proof {
                reveal_strlit("start");
                reveal_strlit("stop");
                assert("start"@.len() != "stop"@.len());
            }
            match get_number(j, "type") {
                Some(t) => if t == BUILD_ACTIVITY {
                    let path = get_path(j);
                    Activity::Start(id, extract_drv_name(path.as_str()))
                } else {
                    Activity::Other
                },
                None => Activity::Other,
            }
        } else if same(action.as_str(), "stop") {
            Activity::Stop(id)
        } else {
            Activity::Other
        },
        None => Activity::Other,
    }
}

/// Tells what an activity is from its text. A text that is no JSON is no activity.
pub fn parse_activity(text: &str) -> (r: Activity)
    ensures
        r@ == match json_document(text@) {
            Ok(tree) => activity_of(tree),
            Err(_) => ActivityView::Other,
        },
{
    match parse_json(text) {
        Ok(tree) => read_activity(&tree),
        Err(_) => Activity::Other,
    }
}

// ---------------------------------------------------------------------------
// Builds
// ---------------------------------------------------------------------------

/// The builds in a log: those that were started, by id, and those that have
/// stopped. Times are given by their positions in a list.
pub struct ProfileLog {
    pub pending: HashMap<u64, (String, usize)>,
    pub builds: Vec<(String, usize, usize)>,
}

/// The builds in a log.
#[verifier::ext_equal]
pub struct ProfileView {
    pub pending: Map<u64, (Seq<char>, usize)>,
    pub builds: Seq<(Seq<char>, usize, usize)>,
}

/// The names and times of builds that were started.
pub open spec fn pending_views(m: Map<u64, (String, usize)>) -> Map<u64, (Seq<char>, usize)> {
    Map::new(|k: u64| m.contains_key(k), |k: u64| (m[k].0@, m[k].1))
}

/// The names and times of builds that have stopped.
pub open spec fn build_views(v: Seq<(String, usize, usize)>) -> Seq<(Seq<char>, usize, usize)> {
    Seq::new(v.len(), |i: int| (v[i].0@, v[i].1, v[i].2))
}

impl View for ProfileLog {
    type V = ProfileView;

    open spec fn view(&self) -> ProfileView {
        ProfileView { pending: pending_views(self.pending@), builds: build_views(self.builds@) }
    }
}

/// What is known after an activity: a stop ends the build with its id, if one was
/// started.
pub open spec fn after_activity(log: ProfileView, a: ActivityView, time: usize) -> ProfileView {
    match a {
        ActivityView::Start(id, name) => ProfileView {
            pending: log.pending.insert(id, (name, time)),
            ..log
        },
        ActivityView::Stop(id) => if log.pending.contains_key(id) {
            ProfileView {
                pending: log.pending.remove(id),
                builds: log.builds.push((log.pending[id].0, log.pending[id].1, time)),
            }
        } else {
            log
        },
        ActivityView::Other => log,
    }
}

impl ProfileLog {
    /// The log of no activities.
    pub fn new() -> (r: Self)
        ensures
            r@ == (ProfileView { pending: Map::empty(), builds: Seq::empty() }),
    {
        broadcast use vstd::std_specs::hash::group_hash_axioms;

        let r = ProfileLog { pending: HashMap::new(), builds: Vec::new() };
        assert(r@ =~= (ProfileView { pending: Map::empty(), builds: Seq::empty() }));
        r
    }

    /// Takes an activity that was logged at a time.
    pub fn note(&mut self, activity: Activity, time: usize)
        ensures
            final(self)@ == after_activity(old(self)@, activity@, time),
    {
        broadcast use vstd::std_specs::hash::group_hash_axioms;

        let ghost log = self@;
        let ghost before = self.pending@;
        match activity {
            Activity::Start(id, name) => {
                let ghost n = name@;
                self.pending.insert(id, (name, time));
                assert(pending_views(self.pending@) =~= log.pending.insert(id, (n, time)));
            },
            Activity::Stop(id) => {
                if let Some((name, start)) = self.pending.remove(&id) {
                    assert(before.contains_key(id));
                    assert(log.pending[id] == (name@, start));
                    let ghost entry = (name@, start, time);
                    self.builds.push((name, start, time));
                    assert(pending_views(self.pending@) =~= log.pending.remove(id));
                    assert(build_views(self.builds@) =~= log.builds.push(entry));
                } else {
                    assert(!before.contains_key(id));
                    assert(pending_views(self.pending@) =~= log.pending);
                }
            },
            Activity::Other => {},
        }
    }
}

/// A build that is started and then stopped is listed with both times.
pub proof fn law_started_and_stopped(
    log: ProfileView,
    id: u64,
    name: Seq<char>,
    start: usize,
    stop: usize,
)
    ensures
        after_activity(
            after_activity(log, ActivityView::Start(id, name), start),
            ActivityView::Stop(id),
            stop,
        ).builds == log.builds.push((name, start, stop)),
{
}

/// The label of a log's report.
pub open spec fn log_label(stem: Seq<char>) -> Seq<char> {
    replace_seq(stem, "profile-"@, Seq::empty())
}

/// Names a log's report after its file.
pub fn profile_label(stem: &str) -> (r: String)
    ensures
        r@ == log_label(stem@),
{
    proof {
        reveal_strlit("profile-");
        reveal_strlit("");
        assert(""@ =~= Seq::<char>::empty());
    }
    replace(stem, "profile-", "")
}

} // verus!
