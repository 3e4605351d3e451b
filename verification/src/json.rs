//! JSON documents as trees of plain values.
use crate::text::{owned, same, views};
use vstd::prelude::*;

verus! {

/// A JSON document. An object is the list of its members. A number that is no
/// natural number of 64 bits is kept as its text.
pub enum Json {
    Null,
    Bool(bool),
    Number(u64),
    Real(String),
    Text(String),
    Array(Vec<Json>),
    Object(Vec<(String, Json)>),
}

/// What a JSON document holds.
pub enum JsonView {
    Null,
    Bool(bool),
    Number(u64),
    Real(Seq<char>),
    Text(Seq<char>),
    Array(Seq<JsonView>),
    Object(Seq<(Seq<char>, JsonView)>),
}

impl Json {
    pub open spec fn view(&self) -> JsonView
        decreases self,
    {
        match self {
            Json::Null => JsonView::Null,
            Json::Bool(b) => JsonView::Bool(*b),
            Json::Number(n) => JsonView::Number(*n),
            Json::Real(s) => JsonView::Real(s@),
            Json::Text(s) => JsonView::Text(s@),
            Json::Array(v) => JsonView::Array(
                Seq::new(
                    v@.len(),
                    |i: int|
                        if 0 <= i < v@.len() {
                            v@[i].view()
                        } else {
                            JsonView::Null
                        },
                ),
            ),
            Json::Object(v) => JsonView::Object(
                Seq::new(
                    v@.len(),
                    |i: int|
                        if 0 <= i < v@.len() {
                            (v@[i].0@, v@[i].1.view())
                        } else {
                            (Seq::empty(), JsonView::Null)
                        },
                ),
            ),
        }
    }
}

/// The views of the elements of an array.
pub open spec fn json_views(v: Seq<Json>) -> Seq<JsonView> {
    Seq::new(v.len(), |i: int| v[i].view())
}

/// The views of the members of an object.
pub open spec fn member_views(v: Seq<(String, Json)>) -> Seq<(Seq<char>, JsonView)> {
    Seq::new(v.len(), |i: int| (v[i].0@, v[i].1.view()))
}

/// The value of the first member with the given name.
pub open spec fn lookup(members: Seq<(Seq<char>, JsonView)>, key: Seq<char>) -> Option<JsonView>
    decreases members.len(),
{
    if members.len() == 0 {
        None
    } else if members[0].0 == key {
        Some(members[0].1)
    } else {
        lookup(members.drop_first(), key)
    }
}

/// The member of an object with the given name.
pub open spec fn field(j: JsonView, key: Seq<char>) -> Option<JsonView> {
    match j {
        JsonView::Object(members) => lookup(members, key),
        _ => None,
    }
}

/// The member of an object that is a string.
pub open spec fn text_field(j: JsonView, key: Seq<char>) -> Option<Seq<char>> {
    match field(j, key) {
        Some(JsonView::Text(s)) => Some(s),
        _ => None,
    }
}

/// The member of an object that is an array.
pub open spec fn array_field(j: JsonView, key: Seq<char>) -> Option<Seq<JsonView>> {
    match field(j, key) {
        Some(JsonView::Array(s)) => Some(s),
        _ => None,
    }
}

/// The member of an object that is an object.
pub open spec fn object_field(j: JsonView, key: Seq<char>) -> Option<Seq<(Seq<char>, JsonView)>> {
    match field(j, key) {
        Some(JsonView::Object(s)) => Some(s),
        _ => None,
    }
}

/// The names of the members.
pub open spec fn member_names(members: Seq<(Seq<char>, JsonView)>) -> Seq<Seq<char>> {
    Seq::new(members.len(), |i: int| members[i].0)
}

pub proof fn lemma_view_array(v: Vec<Json>)
    ensures
        Json::Array(v).view() == JsonView::Array(json_views(v@)),
{
    assert(Json::Array(v).view()->Array_0 =~= json_views(v@));
}

pub proof fn lemma_view_object(v: Vec<(String, Json)>)
    ensures
        Json::Object(v).view() == JsonView::Object(member_views(v@)),
{
    assert(Json::Object(v).view()->Object_0 =~= member_views(v@));
}

/// A member is found where no earlier member has its name.
pub proof fn lemma_lookup_at(members: Seq<(Seq<char>, JsonView)>, i: int)
    requires
        0 <= i < members.len(),
        forall|j: int| 0 <= j < i ==> (#[trigger] members[j]).0 != members[i].0,
    ensures
        lookup(members, members[i].0) == Some(members[i].1),
    decreases members.len(),
{
    if i > 0 {
        assert(members[0].0 != members[i].0);
        let rest = members.drop_first();
        assert(rest[i - 1] == members[i]);
        assert forall|j: int| 0 <= j < i - 1 implies (#[trigger] rest[j]).0 != rest[i - 1].0 by {
            assert(rest[j] == members[j + 1]);
        }
        lemma_lookup_at(rest, i - 1);
    }
}

/// The value of the first member with the given name.
pub fn get_member<'a>(members: &'a Vec<(String, Json)>, key: &str) -> (r: Option<&'a Json>)
    ensures
        match r {
            Some(v) => lookup(member_views(members@), key@) == Some(v@),
            None => lookup(member_views(members@), key@) is None,
        },
{
    let mut i: usize = 0;
    let ghost m = member_views(members@);
    assert(m.skip(0) =~= m);
    while i < members.len()
        invariant
            i <= members@.len(),
            m == member_views(members@),
            lookup(m.skip(i as int), key@) == lookup(m, key@),
        decreases members@.len() - i,
    {
        if same(members[i].0.as_str(), key) {
            return Some(&members[i].1);
        }
        assert(m.skip(i as int).drop_first() =~= m.skip(i + 1));
        i = i + 1;
    }
    None
}

impl Json {
    /// The member of an object with the given name.
    pub fn get<'a>(&'a self, key: &str) -> (r: Option<&'a Json>)
        ensures
            match r {
                Some(v) => field(self@, key@) == Some(v@),
                None => field(self@, key@) is None,
            },
    {
        match self {
            Json::Object(members) => {
                proof {
                    lemma_view_object(*members);
                }
                get_member(members, key)
            },
            _ => None,
        }
    }

    /// The string member of an object with the given name.
    pub fn get_str<'a>(&'a self, key: &str) -> (r: Option<&'a String>)
        ensures
            match r {
                Some(v) => text_field(self@, key@) == Some(v@),
                None => text_field(self@, key@) is None,
            },
    {
        match self.get(key) {
            Some(Json::Text(s)) => Some(s),
            _ => None,
        }
    }

    /// The array member of an object with the given name.
    pub fn get_array<'a>(&'a self, key: &str) -> (r: Option<&'a Vec<Json>>)
        ensures
            match r {
                Some(v) => array_field(self@, key@) == Some(json_views(v@)),
                None => array_field(self@, key@) is None,
            },
    {
        match self.get(key) {
            Some(Json::Array(v)) => {
                proof {
                    lemma_view_array(*v);
                }
                Some(v)
            },
            _ => None,
        }
    }

    /// The object member of an object with the given name.
    pub fn get_object<'a>(&'a self, key: &str) -> (r: Option<&'a Vec<(String, Json)>>)
        ensures
            match r {
                Some(v) => object_field(self@, key@) == Some(member_views(v@)),
                None => object_field(self@, key@) is None,
            },
    {
        match self.get(key) {
            Some(Json::Object(v)) => {
                proof {
                    lemma_view_object(*v);
                }
                Some(v)
            },
            _ => None,
        }
    }
}

/// Copies a JSON document.
pub fn clone_json(j: &Json) -> (r: Json)
    ensures
        r@ == j@,
    decreases j,
{
    match j {
        Json::Null => Json::Null,
        Json::Bool(b) => Json::Bool(*b),
        Json::Number(n) => Json::Number(*n),
        Json::Real(s) => Json::Real(s.clone()),
        Json::Text(s) => Json::Text(s.clone()),
        Json::Array(v) => {
            let mut a: Vec<Json> = Vec::new();
            let mut i: usize = 0;
            while i < v.len()
                invariant
                    i <= v@.len(),
                    a@.len() == i,
                    j is Array,
                    v == j->Array_0,
                    forall|k: int| 0 <= k < i ==> (#[trigger] a@[k])@ == v@[k]@,
                decreases v@.len() - i,
            {
                assert(decreases_to!(*j => j->Array_0));
                a.push(clone_json(&v[i]));
                i = i + 1;
            }
            proof {
                lemma_view_array(a);
                lemma_view_array(*v);
                assert(json_views(a@) =~= json_views(v@));
            }
            Json::Array(a)
        },
        Json::Object(v) => {
            let mut a: Vec<(String, Json)> = Vec::new();
            let mut i: usize = 0;
            while i < v.len()
                invariant
                    i <= v@.len(),
                    a@.len() == i,
                    j is Object,
                    v == j->Object_0,
                    forall|k: int|
                        0 <= k < i ==> (#[trigger] a@[k]).0@ == v@[k].0@ && a@[k].1@ == v@[k].1@,
                decreases v@.len() - i,
            {
                assert(decreases_to!(*j => j->Object_0));
                a.push((v[i].0.clone(), clone_json(&v[i].1)));
                i = i + 1;
            }
            proof {
                lemma_view_object(a);
                lemma_view_object(*v);
                assert(member_views(a@) =~= member_views(v@));
            }
            Json::Object(a)
        },
    }
}

/// A JSON string.
pub fn text(s: &str) -> (r: Json)
    ensures
        r@ == JsonView::Text(s@),
{
    Json::Text(owned(s))
}

/// The names of the members of an object.
pub fn names(members: &Vec<(String, Json)>) -> (r: Vec<String>)
    ensures
        views(r@) == member_names(member_views(members@)),
{
    let mut r: Vec<String> = Vec::new();
    let mut i: usize = 0;
    while i < members.len()
        invariant
            i <= members@.len(),
            r@.len() == i,
            forall|j: int| 0 <= j < i ==> r@[j]@ == members@[j].0@,
        decreases members@.len() - i,
    {
        r.push(members[i].0.clone());
        i = i + 1;
    }
    assert(views(r@) =~= member_names(member_views(members@)));
    r
}

/// The JSON array of the given strings.
pub open spec fn text_array(v: Seq<Seq<char>>) -> JsonView {
    JsonView::Array(Seq::new(v.len(), |i: int| JsonView::Text(v[i])))
}

/// The JSON array of a list of strings.
pub fn texts(v: &Vec<String>) -> (r: Json)
    ensures
        r@ == text_array(views(v@)),
{
    let mut a: Vec<Json> = Vec::new();
    let mut i: usize = 0;
    while i < v.len()
        invariant
            i <= v@.len(),
            a@.len() == i,
            forall|j: int| 0 <= j < i ==> (#[trigger] a@[j]).view() == JsonView::Text(v@[j]@),
        decreases v@.len() - i,
    {
        a.push(text(v[i].as_str()));
        i = i + 1;
    }
    proof {
        lemma_view_array(a);
        assert(json_views(a@) =~= text_array(views(v@))->Array_0);
    }
    Json::Array(a)
}

} // verus!
