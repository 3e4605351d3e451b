//! Reading JSON documents from text.
use crate::json::{json_views, lemma_view_array, lemma_view_object, member_views, Json, JsonView};
use crate::lists::reversed;
use vstd::prelude::*;

verus! {

/// A value of the serde_json crate.
#[verifier::external_type_specification]
#[verifier::external_body]
pub struct ExJsonValue(serde_json::Value);

/// One level of a JSON value. A number comes as a natural number of 64 bits, if it
/// is one, and as its text.
pub enum JsonNode {
    Null,
    Bool(bool),
    Number(Option<u64>, String),
    Text(String),
    Array(Vec<serde_json::Value>),
    Object(Vec<(String, serde_json::Value)>),
}

/// What a value of the serde_json crate holds.
pub uninterp spec fn json_tree(value: serde_json::Value) -> JsonView;

/// The trees of the elements of an array.
pub open spec fn item_trees(v: Seq<serde_json::Value>) -> Seq<JsonView> {
    Seq::new(v.len(), |i: int| json_tree(v[i]))
}

/// The trees of the members of an object.
pub open spec fn member_trees(v: Seq<(String, serde_json::Value)>) -> Seq<(Seq<char>, JsonView)> {
    Seq::new(v.len(), |i: int| (v[i].0@, json_tree(v[i].1)))
}

/// What one level of a value stands for.
pub open spec fn node_tree(n: JsonNode) -> JsonView {
    match n {
        JsonNode::Null => JsonView::Null,
        JsonNode::Bool(b) => JsonView::Bool(b),
        JsonNode::Number(Some(k), _) => JsonView::Number(k),
        JsonNode::Number(None, s) => JsonView::Real(s@),
        JsonNode::Text(s) => JsonView::Text(s@),
        JsonNode::Array(v) => JsonView::Array(item_trees(v@)),
        JsonNode::Object(v) => JsonView::Object(member_trees(v@)),
    }
}

/// The result of reading a document.
pub uninterp spec fn json_document(text: Seq<char>) -> Result<JsonView, Seq<char>>;

/// Calls `serde_json::from_str` for a `serde_json::Value`. Whether the text is a
/// document, and what it holds or the message of the error, depends on the text
/// alone.
#[verifier::external_body]
pub(crate) fn read_json(text: &str) -> (r: Result<serde_json::Value, String>)
    ensures
        match r {
            Ok(v) => json_document(text@) == Ok::<JsonView, Seq<char>>(json_tree(v)),
            Err(e) => json_document(text@) == Err::<JsonView, Seq<char>>(e@),
        },
{
    serde_json::from_str::<serde_json::Value>(text).map_err(|e| e.to_string())
}

/// Takes a `serde_json::Value` apart by its variant.
#[verifier::external_body]
pub(crate) fn json_node(value: serde_json::Value) -> (r: JsonNode)
    ensures
        node_tree(r) == json_tree(value),
{
    match value {
        serde_json::Value::Null => JsonNode::Null,
        serde_json::Value::Bool(b) => JsonNode::Bool(b),
        serde_json::Value::Number(n) => JsonNode::Number(n.as_u64(), n.to_string()),
        serde_json::Value::String(s) => JsonNode::Text(s),
        serde_json::Value::Array(a) => JsonNode::Array(a),
        serde_json::Value::Object(m) => JsonNode::Object(m.into_iter().collect()),
    }
}

fn tree_of(value: serde_json::Value) -> (r: Json)
    ensures
        r@ == json_tree(value),
    decreases json_tree(value),
{
    let ghost tree = json_tree(value);
    match json_node(value) {
        JsonNode::Null => Json::Null,
        JsonNode::Bool(b) => Json::Bool(b),
        JsonNode::Number(Some(k), _) => Json::Number(k),
        JsonNode::Number(None, s) => Json::Real(s),
        JsonNode::Text(s) => Json::Text(s),
        JsonNode::Array(items) => {
            let ghost given = items@;
            let ghost trees = item_trees(given);
            let mut back = reversed(items);
            let mut r: Vec<Json> = Vec::new();
            while back.len() > 0
                invariant
                    tree == json_tree(value),
                    tree == JsonView::Array(trees),
                    trees == item_trees(given),
                    r@.len() + back@.len() == given.len(),
                    forall|k: int|
                        0 <= k < back@.len() ==> #[trigger] back@[k] == given[given.len() - 1 - k],
                    forall|k: int| 0 <= k < r@.len() ==> (#[trigger] r@[k])@ == trees[k],
                decreases back@.len(),
            {
                let ghost k = r@.len() as int;
                assert(back@[back@.len() - 1] == given[k]);
                if let Some(v) = back.pop() {
                    assert(v == given[k]);
                    assert(json_tree(v) == trees[k]);
                    assert(decreases_to!(tree => tree->Array_0));
                    r.push(tree_of(v));
                }
            }
            proof {
                lemma_view_array(r);
                assert(json_views(r@) =~= trees);
            }
            Json::Array(r)
        },
        JsonNode::Object(members) => {
            let ghost given = members@;
            let ghost trees = member_trees(given);
            let mut back = reversed(members);
            let mut r: Vec<(String, Json)> = Vec::new();
            while back.len() > 0
                invariant
                    tree == json_tree(value),
                    tree == JsonView::Object(trees),
                    trees == member_trees(given),
                    r@.len() + back@.len() == given.len(),
                    forall|k: int|
                        0 <= k < back@.len() ==> #[trigger] back@[k] == given[given.len() - 1 - k],
                    forall|k: int|
                        0 <= k < r@.len() ==> (#[trigger] r@[k]).0@ == trees[k].0 && r@[k].1@
                            == trees[k].1,
                decreases back@.len(),
            {
                let ghost k = r@.len() as int;
                assert(back@[back@.len() - 1] == given[k]);
                if let Some((key, v)) = back.pop() {
                    assert(json_tree(v) == trees[k].1);
                    assert(decreases_to!(tree => tree->Object_0));
                    assert(decreases_to!(trees => trees[k]));
                    assert(decreases_to!(trees[k] => trees[k].1));
                    r.push((key, tree_of(v)));
                }
            }
            proof {
                lemma_view_object(r);
                assert(member_views(r@) =~= trees);
            }
            Json::Object(r)
        },
    }
}

/// Reads a document.
pub fn parse_json(text: &str) -> (r: Result<Json, String>)
    ensures
        match (r, json_document(text@)) {
            (Ok(j), Ok(tree)) => j@ == tree,
            (Err(e), Err(m)) => e@ == m,
            _ => false,
        },
{
    match read_json(text) {
        Ok(v) => Ok(tree_of(v)),
        Err(e) => Err(e),
    }
}

} // verus!
