//! TOML documents as trees of plain values.
use crate::lists::reversed;
use crate::text::{same, strictly_sorted, views};
use vstd::prelude::*;

verus! {

// ---------------------------------------------------------------------------
// Documents of the toml crate
// ---------------------------------------------------------------------------

/// A value of the toml crate.
#[verifier::external_type_specification]
#[verifier::external_body]
pub struct ExTomlValue(toml::Value);

/// What a TOML value holds. A table is the list of its entries. A value that is no
/// string, array or table is kept as it is.
pub enum TomlView {
    Text(Seq<char>),
    Array(Seq<TomlView>),
    Table(Seq<(Seq<char>, TomlView)>),
    Plain(toml::Value),
}

/// One level of a TOML value.
pub enum TomlNode {
    Text(String),
    Array(Vec<toml::Value>),
    Table(Vec<(String, toml::Value)>),
    Plain(toml::Value),
}

/// What a value of the toml crate holds.
pub uninterp spec fn toml_tree(value: toml::Value) -> TomlView;

/// The trees of the elements of an array.
pub open spec fn item_trees(v: Seq<toml::Value>) -> Seq<TomlView> {
    Seq::new(v.len(), |i: int| toml_tree(v[i]))
}

/// The trees of the entries of a table.
pub open spec fn entry_trees(v: Seq<(String, toml::Value)>) -> Seq<(Seq<char>, TomlView)> {
    Seq::new(v.len(), |i: int| (v[i].0@, toml_tree(v[i].1)))
}

/// The keys of the entries of a table.
pub open spec fn entry_keys(m: Seq<(Seq<char>, TomlView)>) -> Seq<Seq<char>> {
    Seq::new(m.len(), |i: int| m[i].0)
}

/// What one level of a value stands for.
pub open spec fn node_tree(n: TomlNode) -> TomlView {
    match n {
        TomlNode::Text(s) => TomlView::Text(s@),
        TomlNode::Array(v) => TomlView::Array(item_trees(v@)),
        TomlNode::Table(v) => TomlView::Table(entry_trees(v@)),
        TomlNode::Plain(v) => TomlView::Plain(v),
    }
}

/// The result of reading a document.
pub uninterp spec fn toml_document(text: Seq<char>) -> Result<TomlView, Seq<char>>;

/// Calls `toml::from_str` for a `toml::Value`. Whether the text is a document, and
/// what it holds or the message of the error, depends on the text alone.
#[verifier::external_body]
pub(crate) fn read_toml(text: &str) -> (r: Result<toml::Value, String>)
    ensures
        match r {
            Ok(v) => toml_document(text@) == Ok::<TomlView, Seq<char>>(toml_tree(v)),
            Err(e) => toml_document(text@) == Err::<TomlView, Seq<char>>(e@),
        },
{
    toml::from_str::<toml::Value>(text).map_err(|e| e.to_string())
}

/// Takes a `toml::Value` apart by its variant. The entries of a table come out in
/// the order of their keys, each key once.
#[verifier::external_body]
pub(crate) fn toml_node(value: toml::Value) -> (r: TomlNode)
    ensures
        node_tree(r) == toml_tree(value),
        r matches TomlNode::Table(t) ==> strictly_sorted(entry_keys(entry_trees(t@))),
        r matches TomlNode::Plain(v) ==> v == value,
{
    match value {
        toml::Value::String(s) => TomlNode::Text(s),
        toml::Value::Array(a) => TomlNode::Array(a),
        toml::Value::Table(t) => TomlNode::Table(t.into_iter().collect()),
        other => TomlNode::Plain(other),
    }
}

/// Puts a `toml::Value` together from one level. The entries of a table stand in
/// the order of their keys, each key once, as the table holds them.
#[verifier::external_body]
pub(crate) fn toml_value(node: TomlNode) -> (r: toml::Value)
    requires
        node matches TomlNode::Table(t) ==> strictly_sorted(entry_keys(entry_trees(t@))),
        node matches TomlNode::Plain(v) ==> toml_tree(v) == TomlView::Plain(v),
    ensures
        toml_tree(r) == node_tree(node),
{
    match node {
        TomlNode::Text(s) => toml::Value::String(s),
        TomlNode::Array(a) => toml::Value::Array(a),
        TomlNode::Table(t) => toml::Value::Table(t.into_iter().collect()),
        TomlNode::Plain(v) => v,
    }
}

/// The text that a document is written as, or the message of why it is none.
pub uninterp spec fn toml_text(tree: TomlView) -> Result<Seq<char>, Seq<char>>;

/// Calls `toml::to_string` on a `toml::Value`. The text depends on what the value
/// holds alone.
#[verifier::external_body]
pub(crate) fn write_toml_value(value: &toml::Value) -> (r: Result<String, String>)
    ensures
        match r {
            Ok(s) => toml_text(toml_tree(*value)) == Ok::<Seq<char>, Seq<char>>(s@),
            Err(e) => toml_text(toml_tree(*value)) == Err::<Seq<char>, Seq<char>>(e@),
        },
{
    toml::to_string(value).map_err(|e| e.to_string())
}

// ---------------------------------------------------------------------------
// Trees
// ---------------------------------------------------------------------------

/// A TOML value.
pub enum Toml {
    Text(String),
    Array(Vec<Toml>),
    Table(Vec<(String, Toml)>),
    Plain(toml::Value),
}

impl Toml {
    pub open spec fn view(&self) -> TomlView
        decreases self,
    {
        match self {
            Toml::Text(s) => TomlView::Text(s@),
            Toml::Array(v) => TomlView::Array(
                Seq::new(
                    v@.len(),
                    |i: int|
                        if 0 <= i < v@.len() {
                            v@[i].view()
                        } else {
                            TomlView::Text(Seq::empty())
                        },
                ),
            ),
            Toml::Table(v) => TomlView::Table(
                Seq::new(
                    v@.len(),
                    |i: int|
                        if 0 <= i < v@.len() {
                            (v@[i].0@, v@[i].1.view())
                        } else {
                            (Seq::empty(), TomlView::Text(Seq::empty()))
                        },
                ),
            ),
            Toml::Plain(v) => TomlView::Plain(*v),
        }
    }
}

/// The views of the elements of an array.
pub open spec fn item_views(v: Seq<Toml>) -> Seq<TomlView> {
    Seq::new(v.len(), |i: int| v[i].view())
}

/// The views of the entries of a table.
pub open spec fn entry_views(v: Seq<(String, Toml)>) -> Seq<(Seq<char>, TomlView)> {
    Seq::new(v.len(), |i: int| (v[i].0@, v[i].1.view()))
}

pub proof fn lemma_toml_array(v: Vec<Toml>)
    ensures
        Toml::Array(v).view() == TomlView::Array(item_views(v@)),
{
    assert(Toml::Array(v).view()->Array_0 =~= item_views(v@));
}

pub proof fn lemma_toml_table(v: Vec<(String, Toml)>)
    ensures
        Toml::Table(v).view() == TomlView::Table(entry_views(v@)),
{
    assert(Toml::Table(v).view()->Table_0 =~= entry_views(v@));
}

/// The entries of every table stand in the order of their keys, each key once,
/// and what is kept as it is needs no taking apart.
pub open spec fn well_formed(t: TomlView) -> bool
    decreases t,
{
    match t {
        TomlView::Text(_) => true,
        TomlView::Array(items) => all_well_formed(items),
        TomlView::Table(m) => strictly_sorted(entry_keys(m)) && values_well_formed(m),
        TomlView::Plain(v) => toml_tree(v) == TomlView::Plain(v),
    }
}

/// Every element of an array is well-formed.
pub open spec fn all_well_formed(items: Seq<TomlView>) -> bool
    decreases items,
{
    items.len() == 0 || (all_well_formed(items.drop_last()) && well_formed(items.last()))
}

/// Every value of a table is well-formed.
pub open spec fn values_well_formed(m: Seq<(Seq<char>, TomlView)>) -> bool
    decreases m,
{
    m.len() == 0 || (values_well_formed(m.drop_last()) && well_formed(m.last().1))
}

pub proof fn lemma_all_well_formed(items: Seq<TomlView>)
    ensures
        all_well_formed(items) <==> forall|i: int|
            0 <= i < items.len() ==> well_formed(#[trigger] items[i]),
    decreases items.len(),
{
    if items.len() > 0 {
        let t = items.drop_last();
        lemma_all_well_formed(t);
        if all_well_formed(items) {
            assert forall|i: int| 0 <= i < items.len() implies well_formed(#[trigger] items[i]) by {
                if i < t.len() {
                    assert(t[i] == items[i]);
                }
            }
        }
        if forall|i: int| 0 <= i < items.len() ==> well_formed(#[trigger] items[i]) {
            assert forall|i: int| 0 <= i < t.len() implies well_formed(#[trigger] t[i]) by {
                assert(t[i] == items[i]);
            }
            assert(well_formed(items[items.len() - 1]));
        }
    }
}

pub proof fn lemma_values_well_formed(m: Seq<(Seq<char>, TomlView)>)
    ensures
        values_well_formed(m) <==> forall|i: int|
            0 <= i < m.len() ==> well_formed((#[trigger] m[i]).1),
    decreases m.len(),
{
    if m.len() > 0 {
        let t = m.drop_last();
        lemma_values_well_formed(t);
        if values_well_formed(m) {
            assert forall|i: int| 0 <= i < m.len() implies well_formed((#[trigger] m[i]).1) by {
                if i < t.len() {
                    assert(t[i] == m[i]);
                }
            }
        }
        if forall|i: int| 0 <= i < m.len() ==> well_formed((#[trigger] m[i]).1) {
            assert forall|i: int| 0 <= i < t.len() implies well_formed((#[trigger] t[i]).1) by {
                assert(t[i] == m[i]);
            }
            assert(well_formed(m[m.len() - 1].1));
        }
    }
}

fn tree_of(value: toml::Value) -> (r: Toml)
    ensures
        r@ == toml_tree(value),
        well_formed(r@),
    decreases toml_tree(value),
{
    let ghost tree = toml_tree(value);
    match toml_node(value) {
        TomlNode::Text(s) => Toml::Text(s),
        TomlNode::Plain(v) => Toml::Plain(v),
        TomlNode::Array(items) => {
            let ghost trees = item_trees(items@);
            let ghost given = items@;
            let mut back = reversed(items);
            let mut r: Vec<Toml> = Vec::new();
            while back.len() > 0
                invariant
                    tree == toml_tree(value),
                    tree == TomlView::Array(trees),
                    trees == item_trees(given),
                    r@.len() + back@.len() == given.len(),
                    forall|k: int|
                        0 <= k < back@.len() ==> #[trigger] back@[k] == given[given.len() - 1 - k],
                    forall|k: int|
                        0 <= k < r@.len() ==> (#[trigger] r@[k])@ == trees[k] && well_formed(
                            r@[k]@,
                        ),
                decreases back@.len(),
            {
                let ghost k = r@.len() as int;
                assert(back@[back@.len() - 1] == given[k]);
                if let Some(v) = back.pop() {
                    assert(v == given[k]);
                    assert(toml_tree(v) == trees[k]);
                    assert(decreases_to!(tree => tree->Array_0));
                    r.push(tree_of(v));
                }
            }
            proof {
                lemma_toml_array(r);
                assert(item_views(r@) =~= trees);
                assert forall|i: int| 0 <= i < trees.len() implies well_formed(
                    #[trigger] trees[i],
                ) by {
                    assert(r@[i]@ == trees[i]);
                }
                lemma_all_well_formed(trees);
            }
            Toml::Array(r)
        },
        TomlNode::Table(entries) => {
            let ghost trees = entry_trees(entries@);
            let ghost given = entries@;
            let mut back = reversed(entries);
            let mut r: Vec<(String, Toml)> = Vec::new();
            while back.len() > 0
                invariant
                    tree == toml_tree(value),
                    tree == TomlView::Table(trees),
                    trees == entry_trees(given),
                    r@.len() + back@.len() == given.len(),
                    forall|k: int|
                        0 <= k < back@.len() ==> #[trigger] back@[k] == given[given.len() - 1 - k],
                    forall|k: int|
                        0 <= k < r@.len() ==> (#[trigger] r@[k]).0@ == trees[k].0 && r@[k].1@
                            == trees[k].1 && well_formed(r@[k].1@),
                decreases back@.len(),
            {
                let ghost k = r@.len() as int;
                assert(back@[back@.len() - 1] == given[k]);
                if let Some((key, v)) = back.pop() {
                    assert(toml_tree(v) == trees[k].1);
                    assert(decreases_to!(tree => tree->Table_0));
                    assert(decreases_to!(trees => trees[k]));
                    assert(decreases_to!(trees[k] => trees[k].1));
                    r.push((key, tree_of(v)));
                }
            }
            proof {
                lemma_toml_table(r);
                assert(entry_views(r@) =~= trees);
                assert forall|i: int| 0 <= i < trees.len() implies well_formed(
                    (#[trigger] trees[i]).1,
                ) by {
                    assert(r@[i].1@ == trees[i].1);
                }
                lemma_values_well_formed(trees);
            }
            Toml::Table(r)
        },
    }
}

/// Reads a document.
pub fn parse_toml(text: &str) -> (r: Result<Toml, String>)
    ensures
        match (r, toml_document(text@)) {
            (Ok(t), Ok(tree)) => t@ == tree && well_formed(tree),
            (Err(e), Err(m)) => e@ == m,
            _ => false,
        },
{
    match read_toml(text) {
        Ok(v) => Ok(tree_of(v)),
        Err(e) => Err(e),
    }
}

fn value_of(tree: Toml) -> (r: toml::Value)
    requires
        well_formed(tree@),
    ensures
        toml_tree(r) == tree@,
    decreases tree,
{
    match tree {
        Toml::Text(s) => toml_value(TomlNode::Text(s)),
        Toml::Plain(v) => toml_value(TomlNode::Plain(v)),
        Toml::Array(items) => {
            proof {
                lemma_toml_array(items);
            }
            let ghost given = items@;
            let ghost trees = item_views(given);
            assert(decreases_to!(tree => tree->Array_0));
            let mut back = reversed(items);
            let mut r: Vec<toml::Value> = Vec::new();
            while back.len() > 0
                invariant
                    tree is Array,
                    given == tree->Array_0@,
                    decreases_to!(tree => tree->Array_0),
                    trees == item_views(given),
                    well_formed(TomlView::Array(trees)),
                    r@.len() + back@.len() == given.len(),
                    forall|k: int|
                        0 <= k < back@.len() ==> #[trigger] back@[k] == given[given.len() - 1 - k],
                    forall|k: int| 0 <= k < r@.len() ==> toml_tree(#[trigger] r@[k]) == trees[k],
                decreases back@.len(),
            {
                let ghost k = r@.len() as int;
                assert(back@[back@.len() - 1] == given[k]);
                proof {
                    lemma_all_well_formed(trees);
                    assert(well_formed(trees[k]));
                }
                if let Some(v) = back.pop() {
                    assert(v == given[k]);
                    r.push(value_of(v));
                }
            }
            assert(item_trees(r@) =~= trees);
            toml_value(TomlNode::Array(r))
        },
        Toml::Table(entries) => {
            proof {
                lemma_toml_table(entries);
            }
            let ghost given = entries@;
            let ghost trees = entry_views(given);
            assert(decreases_to!(tree => tree->Table_0));
            let mut back = reversed(entries);
            let mut r: Vec<(String, toml::Value)> = Vec::new();
            while back.len() > 0
                invariant
                    tree is Table,
                    given == tree->Table_0@,
                    decreases_to!(tree => tree->Table_0),
                    trees == entry_views(given),
                    well_formed(TomlView::Table(trees)),
                    r@.len() + back@.len() == given.len(),
                    forall|k: int|
                        0 <= k < back@.len() ==> #[trigger] back@[k] == given[given.len() - 1 - k],
                    forall|k: int|
                        0 <= k < r@.len() ==> (#[trigger] r@[k]).0@ == trees[k].0 && toml_tree(
                            r@[k].1,
                        ) == trees[k].1,
                decreases back@.len(),
            {
                let ghost k = r@.len() as int;
                assert(back@[back@.len() - 1] == given[k]);
                if let Some((key, v)) = back.pop() {
                    assert(v == given[k].1);
                    proof {
                        lemma_values_well_formed(trees);
                        assert(well_formed(trees[k].1));
                    }
                    r.push((key, value_of(v)));
                }
            }
            assert(entry_trees(r@) =~= trees);
            toml_value(TomlNode::Table(r))
        },
    }
}

/// What writing a document comes to.
pub open spec fn written(r: Result<String, String>) -> Result<Seq<char>, Seq<char>> {
    match r {
        Ok(s) => Ok(s@),
        Err(e) => Err(e@),
    }
}

/// Writes a document.
pub fn write_toml(tree: Toml) -> (r: Result<String, String>)
    requires
        well_formed(tree@),
    ensures
        written(r) == toml_text(tree@),
{
    let value = value_of(tree);
    write_toml_value(&value)
}

// ---------------------------------------------------------------------------
// Reading
// ---------------------------------------------------------------------------

/// The value of the first entry with the given key.
pub open spec fn entry_lookup(m: Seq<(Seq<char>, TomlView)>, key: Seq<char>) -> Option<TomlView>
    decreases m.len(),
{
    if m.len() == 0 {
        None
    } else if m[0].0 == key {
        Some(m[0].1)
    } else {
        entry_lookup(m.drop_first(), key)
    }
}

/// The entry of a table with the given key.
pub open spec fn toml_get(t: TomlView, key: Seq<char>) -> Option<TomlView> {
    match t {
        TomlView::Table(m) => entry_lookup(m, key),
        _ => None,
    }
}

/// The entry that a path of keys leads to.
pub open spec fn toml_dig(t: Option<TomlView>, keys: Seq<Seq<char>>) -> Option<TomlView>
    decreases keys.len(),
{
    if keys.len() == 0 {
        t
    } else {
        match toml_dig(t, keys.drop_last()) {
            Some(v) => toml_get(v, keys.last()),
            None => None,
        }
    }
}

/// The string that a value is.
pub open spec fn toml_str(t: Option<TomlView>) -> Option<Seq<char>> {
    match t {
        Some(TomlView::Text(s)) => Some(s),
        _ => None,
    }
}

/// The elements of the array that a value is.
pub open spec fn toml_items(t: Option<TomlView>) -> Option<Seq<TomlView>> {
    match t {
        Some(TomlView::Array(v)) => Some(v),
        _ => None,
    }
}

/// The entries of the table that a value is.
pub open spec fn toml_entries(t: Option<TomlView>) -> Option<Seq<(Seq<char>, TomlView)>> {
    match t {
        Some(TomlView::Table(m)) => Some(m),
        _ => None,
    }
}

/// The view of an optional value.
pub open spec fn opt_tree(t: Option<&Toml>) -> Option<TomlView> {
    match t {
        Some(v) => Some(v@),
        None => None,
    }
}

/// The value of the first entry with the given key.
pub fn find_entry<'a>(m: &'a Vec<(String, Toml)>, key: &str) -> (r: Option<&'a Toml>)
    ensures
        opt_tree(r) == entry_lookup(entry_views(m@), key@),
{
    let ghost all = entry_views(m@);
    let mut i: usize = 0;
    assert(all.skip(0) =~= all);
    while i < m.len()
        invariant
            i <= m@.len(),
            all == entry_views(m@),
            entry_lookup(all.skip(i as int), key@) == entry_lookup(all, key@),
        decreases m@.len() - i,
    {
        if same(m[i].0.as_str(), key) {
            return Some(&m[i].1);
        }
        assert(all.skip(i as int).drop_first() =~= all.skip(i + 1));
        i = i + 1;
    }
    None
}

impl Toml {
    /// The entry of a table with the given key.
    pub fn get<'a>(&'a self, key: &str) -> (r: Option<&'a Toml>)
        ensures
            opt_tree(r) == toml_get(self@, key@),
    {
        match self {
            Toml::Table(m) => {
                proof {
                    lemma_toml_table(*m);
                }
                find_entry(m, key)
            },
            _ => None,
        }
    }
}

/// Follows two keys.
pub fn dig2<'a>(t: &'a Toml, a: &str, b: &str) -> (r: Option<&'a Toml>)
    ensures
        opt_tree(r) == toml_dig(Some(t@), seq![a@, b@]),
{
    proof {
        assert(seq![a@, b@].drop_last() =~= seq![a@]);
        assert(seq![a@].drop_last() =~= Seq::empty());
        reveal_with_fuel(toml_dig, 3);
    }
    match t.get(a) {
        Some(v) => v.get(b),
        None => None,
    }
}

/// Follows four keys.
pub fn dig4<'a>(t: &'a Toml, a: &str, b: &str, c: &str, d: &str) -> (r: Option<&'a Toml>)
    ensures
        opt_tree(r) == toml_dig(Some(t@), seq![a@, b@, c@, d@]),
{
    proof {
        assert(seq![a@, b@, c@, d@].drop_last() =~= seq![a@, b@, c@]);
        assert(seq![a@, b@, c@].drop_last() =~= seq![a@, b@]);
        reveal_with_fuel(toml_dig, 3);
    }
    match dig2(t, a, b) {
        Some(v) => match v.get(c) {
            Some(w) => w.get(d),
            None => None,
        },
        None => None,
    }
}

/// The string that a value is.
pub fn as_text<'a>(t: Option<&'a Toml>) -> (r: Option<&'a String>)
    ensures
        match r {
            Some(s) => toml_str(opt_tree(t)) == Some(s@),
            None => toml_str(opt_tree(t)) is None,
        },
{
    match t {
        Some(Toml::Text(s)) => Some(s),
        _ => None,
    }
}

/// The elements of the array that a value is.
pub fn as_items<'a>(t: Option<&'a Toml>) -> (r: Option<&'a Vec<Toml>>)
    ensures
        match r {
            Some(v) => toml_items(opt_tree(t)) == Some(item_views(v@)),
            None => toml_items(opt_tree(t)) is None,
        },
{
    match t {
        Some(Toml::Array(v)) => {
            proof {
                lemma_toml_array(*v);
            }
            Some(v)
        },
        _ => None,
    }
}

/// The entries of the table that a value is.
pub fn as_entries<'a>(t: Option<&'a Toml>) -> (r: Option<&'a Vec<(String, Toml)>>)
    ensures
        match r {
            Some(m) => toml_entries(opt_tree(t)) == Some(entry_views(m@)),
            None => toml_entries(opt_tree(t)) is None,
        },
{
    match t {
        Some(Toml::Table(m)) => {
            proof {
                lemma_toml_table(*m);
            }
            Some(m)
        },
        _ => None,
    }
}

/// The strings among the elements of an array.
pub open spec fn texts_among(v: Seq<TomlView>) -> Seq<Seq<char>>
    decreases v.len(),
{
    if v.len() == 0 {
        Seq::empty()
    } else {
        match v.last() {
            TomlView::Text(s) => texts_among(v.drop_last()).push(s),
            _ => texts_among(v.drop_last()),
        }
    }
}

/// Collects the strings among the elements of an array.
pub fn collect_texts(v: &Vec<Toml>) -> (r: Vec<String>)
    ensures
        views(r@) == texts_among(item_views(v@)),
{
    let ghost all = item_views(v@);
    let mut r: Vec<String> = Vec::new();
    let mut i: usize = 0;
    assert(views(r@) =~= Seq::empty());
    while i < v.len()
        invariant
            i <= v@.len(),
            all == item_views(v@),
            views(r@) == texts_among(all.take(i as int)),
        decreases v@.len() - i,
    {
        assert(all.take(i + 1).drop_last() =~= all.take(i as int));
        assert(all.take(i + 1).last() == v@[i as int]@);
        if let Toml::Text(s) = &v[i] {
            let ghost before = views(r@);
            r.push(s.clone());
            assert(views(r@) =~= before.push(s@));
        }
        i = i + 1;
    }
    assert(all.take(all.len() as int) =~= all);
    r
}

} // verus!
