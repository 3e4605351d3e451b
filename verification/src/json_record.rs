//! Reading records and lists of strings out of JSON documents.
use crate::json::{json_views, lemma_view_array, lookup, Json, JsonView};
use crate::text::views;
use vstd::prelude::*;

verus! {

/// A field of a record, which is written as an object or as the array of its
/// fields in order.
pub open spec fn part(j: JsonView, key: Seq<char>, at: int, fields: int) -> Option<JsonView> {
    match j {
        JsonView::Object(members) => lookup(members, key),
        JsonView::Array(items) => if items.len() <= fields && at < items.len() {
            Some(items[at])
        } else {
            None
        },
        _ => None,
    }
}

/// Finds a field of a record.
pub fn get_part<'a>(j: &'a Json, key: &str, at: usize, fields: usize) -> (r: Option<&'a Json>)
    ensures
        match r {
            Some(v) => part(j@, key@, at as int, fields as int) == Some(v@),
            None => part(j@, key@, at as int, fields as int) is None,
        },
{
    match j {
        Json::Object(_) => j.get(key),
        Json::Array(items) => {
            proof {
                lemma_view_array(*items);
            }
            if items.len() <= fields && at < items.len() {
                assert(json_views(items@)[at as int] == items@[at as int]@);
                Some(&items[at])
            } else {
                None
            }
        },
        _ => None,
    }
}

/// The string that a document is.
pub open spec fn string_of(j: Option<JsonView>) -> Option<Seq<char>> {
    match j {
        Some(JsonView::Text(s)) => Some(s),
        _ => None,
    }
}

/// Reads a string.
pub fn read_string(j: Option<&Json>) -> (r: Option<String>)
    ensures
        match r {
            Some(s) => j is Some && string_of(Some(j->0@)) == Some(s@),
            None => j is None || string_of(Some(j->0@)) is None,
        },
{
    match j {
        Some(Json::Text(s)) => Some(s.clone()),
        _ => None,
    }
}

/// The strings that an array holds, if it holds nothing else.
pub open spec fn strings_in(items: Seq<JsonView>) -> Option<Seq<Seq<char>>>
    decreases items.len(),
{
    if items.len() == 0 {
        Some(Seq::empty())
    } else {
        match (strings_in(items.drop_last()), items.last()) {
            (Some(before), JsonView::Text(s)) => Some(before.push(s)),
            _ => None,
        }
    }
}

/// The list of strings that a document is.
pub open spec fn strings_of(j: JsonView) -> Option<Seq<Seq<char>>> {
    match j {
        JsonView::Array(items) => strings_in(items),
        _ => None,
    }
}

proof fn lemma_strings_in_none(items: Seq<JsonView>, n: int)
    requires
        0 <= n <= items.len(),
        strings_in(items.take(n)) is None,
    ensures
        strings_in(items) is None,
    decreases items.len() - n,
{
    if n == items.len() {
        assert(items.take(n) =~= items);
    } else {
        assert(items.take(n + 1).drop_last() =~= items.take(n));
        lemma_strings_in_none(items, n + 1);
    }
}

/// Reads a list of strings.
pub fn read_strings(j: &Json) -> (r: Option<Vec<String>>)
    ensures
        match r {
            Some(v) => strings_of(j@) == Some(views(v@)),
            None => strings_of(j@) is None,
        },
{
    match j {
        Json::Array(items) => {
            proof {
                lemma_view_array(*items);
            }
            let ghost all = json_views(items@);
            let mut r: Vec<String> = Vec::new();
            let mut i: usize = 0;
            assert(views(r@) =~= Seq::empty());
            while i < items.len()
                invariant
                    i <= items@.len(),
                    all == json_views(items@),
                    j@ == JsonView::Array(all),
                    strings_in(all.take(i as int)) == Some(views(r@)),
                decreases items@.len() - i,
            {
                assert(all.take(i + 1).drop_last() =~= all.take(i as int));
                assert(all.take(i + 1).last() == items@[i as int]@);
                match &items[i] {
                    Json::Text(s) => {
                        let ghost before = views(r@);
                        r.push(s.clone());
                        assert(views(r@) =~= before.push(s@));
                    },
                    _ => {
                        proof {
                            lemma_strings_in_none(all, i + 1);
                        }
                        return None;
                    },
                }
                i = i + 1;
            }
            assert(all.take(all.len() as int) =~= all);
            Some(r)
        },
        _ => None,
    }
}

} // verus!
