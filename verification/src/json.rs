//! JSON documents as plain trees.

use serde::Deserialize;
use vstd::prelude::*;
use vstd::string::*;

use crate::model::views;
use crate::text::same_text;

verus! {

/// A JSON document. Object fields keep their document order.
#[derive(Debug)]
pub enum Json {
    Null,
    Bool(bool),
    Number(String),
    Str(String),
    Array(Vec<Json>),
    Object(Vec<(String, Json)>),
}

/// The mathematical content of a [`Json`] value.
#[verifier::ext_equal]
pub enum JsonView {
    Null,
    Bool(bool),
    Number(Seq<char>),
    Str(Seq<char>),
    Array(Seq<JsonView>),
    Object(Seq<(Seq<char>, JsonView)>),
}

impl View for Json {
    type V = JsonView;

    open spec fn view(&self) -> JsonView
        decreases self,
    {
        match self {
            Json::Null => JsonView::Null,
            Json::Bool(b) => JsonView::Bool(*b),
            Json::Number(n) => JsonView::Number(n@),
            Json::Str(s) => JsonView::Str(s@),
            Json::Array(items) => JsonView::Array(
                Seq::new(
                    items@.len(),
                    |i: int|
                        if 0 <= i < items@.len() {
                            items@[i].view()
                        } else {
                            arbitrary()
                        },
                ),
            ),
            Json::Object(fields) => JsonView::Object(
                Seq::new(
                    fields@.len(),
                    |i: int|
                        if 0 <= i < fields@.len() {
                            (fields@[i].0@, fields@[i].1.view())
                        } else {
                            arbitrary()
                        },
                ),
            ),
        }
    }
}

// ---------------------------------------------------------------------------
// Reading
// ---------------------------------------------------------------------------

/// `serde_json::Value`, a parsed document.
#[verifier::external_type_specification]
#[verifier::external_body]
pub struct ExValue(serde_json::Value);

/// The document that a `serde_json::Value` holds. A number stands as the
/// document writes it, but for its exponent: that is marked with a small `e`,
/// and its sign is written out.
pub uninterp spec fn value_tree(v: serde_json::Value) -> JsonView;

/// What `serde_json::from_str` reads from a text, where it reads one.
pub uninterp spec fn json_document(text: Seq<char>) -> Option<JsonView>;

/// What a `serde_json::Deserializer` without its limit on nesting reads from
/// a text, where it reads one.
pub uninterp spec fn nested_document(text: Seq<char>) -> Option<JsonView>;

/// One level of a document: the nested documents are still unopened.
enum Layer {
    Null,
    Bool(bool),
    Number(String),
    Str(String),
    Array(Vec<serde_json::Value>),
    Object(Vec<(String, serde_json::Value)>),
}

spec fn layer_tree(layer: Layer) -> JsonView {
    match layer {
        Layer::Null => JsonView::Null,
        Layer::Bool(b) => JsonView::Bool(b),
        Layer::Number(n) => JsonView::Number(n@),
        Layer::Str(s) => JsonView::Str(s@),
        Layer::Array(items) => JsonView::Array(
            Seq::new(items@.len(), |i: int| value_tree(items@[i])),
        ),
        Layer::Object(fields) => JsonView::Object(
            Seq::new(fields@.len(), |i: int| (fields@[i].0@, value_tree(fields@[i].1))),
        ),
    }
}

/// `serde_json::from_str`: the document that the text holds, or nothing if the
/// text is no JSON or nests too deeply.
#[verifier::external_body]
fn parse_value(text: &str) -> (r: Option<serde_json::Value>)
    ensures
        (match r {
            Some(v) => json_document(text@) == Some(value_tree(v)),
            None => json_document(text@) is None,
        }),
{
    serde_json::from_str(text).ok()
}

/// `serde_json::Deserializer::from_str` with `disable_recursion_limit`, then
/// `Value::deserialize` and `end`: the document that the whole text holds, or
/// nothing if the text is no JSON.
#[verifier::external_body]
fn parse_nested(text: &str) -> (r: Option<serde_json::Value>)
    ensures
        (match r {
            Some(v) => nested_document(text@) == Some(value_tree(v)),
            None => nested_document(text@) is None,
        }),
{
    let mut de = serde_json::Deserializer::from_str(text);
    de.disable_recursion_limit();
    let v = serde_json::Value::deserialize(&mut de).ok()?;
    de.end().ok()?;
    Some(v)
}

/// The variant of a `serde_json::Value` and its fields; `Number::as_str` gives
/// the text of a number as the value keeps it and `Map::into_iter` the fields
/// of an object in the order of the document.
#[verifier::external_body]
fn open_value(v: serde_json::Value) -> (r: Layer)
    ensures
        layer_tree(r) == value_tree(v),
{
    match v {
        serde_json::Value::Null => Layer::Null,
        serde_json::Value::Bool(b) => Layer::Bool(b),
        serde_json::Value::Number(n) => Layer::Number(n.as_str().to_owned()),
        serde_json::Value::String(s) => Layer::Str(s),
        serde_json::Value::Array(items) => Layer::Array(items),
        serde_json::Value::Object(fields) => Layer::Object(fields.into_iter().collect()),
    }
}

fn tree_of(v: serde_json::Value) -> (r: Json)
    ensures
        r@ == value_tree(v),
    decreases value_tree(v),
{
    match open_value(v) {
        Layer::Null => Json::Null,
        Layer::Bool(b) => Json::Bool(b),
        Layer::Number(n) => Json::Number(n),
        Layer::Str(s) => Json::Str(s),
        Layer::Array(items) => {
            let mut out: Vec<Json> = Vec::new();
            let ghost all = items@;
            for item in it: items
                invariant
                    it.seq() == all,
                    out@.len() == it.index(),
                    forall|i: int| 0 <= i < out@.len() ==> out@[i]@ == value_tree(all[i]),
                    value_tree(v) == (JsonView::Array(
                        Seq::new(all.len(), |i: int| value_tree(all[i])),
                    )),
            {
                assert(value_tree(v)->Array_0[it.index()] == value_tree(item));
                out.push(tree_of(item));
            }
            let r = Json::Array(out);
            proof {
                reveal_with_fuel(<Json as View>::view, 2);
                assert forall|i: int| 0 <= i < all.len() implies r@->Array_0[i] == out@[i]@ by {}
            }
            assert(r@->Array_0 =~= value_tree(v)->Array_0);
            r
        },
        Layer::Object(fields) => {
            let mut out: Vec<(String, Json)> = Vec::new();
            let ghost all = fields@;
            for field in it: fields
                invariant
                    it.seq() == all,
                    out@.len() == it.index(),
                    forall|i: int|
                        0 <= i < out@.len() ==> out@[i].0@ == all[i].0@ && out@[i].1@ == value_tree(
                            all[i].1,
                        ),
                    value_tree(v) == (JsonView::Object(
                        Seq::new(all.len(), |i: int| (all[i].0@, value_tree(all[i].1))),
                    )),
            {
                assert(value_tree(v)->Object_0[it.index()] == (field.0@, value_tree(field.1)));
                let (name, value) = field;
                assert(decreases_to!(value_tree(v) => value_tree(v)->Object_0));
                assert(decreases_to!(value_tree(v)->Object_0 => value_tree(v)->Object_0[it.index()]));
                assert(decreases_to!(value_tree(v)->Object_0[it.index()] => value_tree(v)->Object_0[it.index()].1));
                out.push((name, tree_of(value)));
            }
            let r = Json::Object(out);
            proof {
                reveal_with_fuel(<Json as View>::view, 2);
                assert forall|i: int| 0 <= i < all.len() implies r@->Object_0[i] == (
                    out@[i].0@,
                    out@[i].1@,
                ) by {}
            }
            assert(r@->Object_0 =~= value_tree(v)->Object_0);
            r
        },
    }
}

/// Reads a JSON text.
pub fn read_json(text: &str) -> (r: Option<Json>)
    ensures
        (match r {
            Some(j) => json_document(text@) == Some(j@),
            None => json_document(text@) is None,
        }),
{
    match parse_value(text) {
        Some(v) => Some(tree_of(v)),
        None => None,
    }
}

/// Reads a JSON text of any nesting.
pub fn read_nested(text: &str) -> (r: Option<Json>)
    ensures
        (match r {
            Some(j) => nested_document(text@) == Some(j@),
            None => nested_document(text@) is None,
        }),
{
    match parse_nested(text) {
        Some(v) => Some(tree_of(v)),
        None => None,
    }
}

// ---------------------------------------------------------------------------
// Access
// ---------------------------------------------------------------------------

/// The value of the first field of the given name; null if there is none.
pub open spec fn field_of(fields: Seq<(Seq<char>, JsonView)>, name: Seq<char>) -> JsonView
    decreases fields.len(),
{
    if fields.len() == 0 {
        JsonView::Null
    } else if fields[0].0 == name {
        fields[0].1
    } else {
        field_of(fields.drop_first(), name)
    }
}

/// A measure of a list of documents, above that of each of them.
pub open spec fn items_size(items: Seq<JsonView>) -> nat
    decreases items,
{
    if items.len() == 0 {
        0
    } else {
        items_size(items.drop_last()) + items[items.len() - 1].size() + 1
    }
}

/// A measure of a list of fields, above that of each value.
pub open spec fn fields_size(fields: Seq<(Seq<char>, JsonView)>) -> nat
    decreases fields,
{
    if fields.len() == 0 {
        0
    } else {
        fields_size(fields.drop_last()) + fields[fields.len() - 1].1.size() + 1
    }
}

impl JsonView {
    /// A measure that decreases towards nested documents.
    pub open spec fn size(self) -> nat
        decreases self,
    {
        match self {
            JsonView::Null => 0,
            JsonView::Array(items) => 1 + items_size(items),
            JsonView::Object(fields) => 1 + fields_size(fields),
            _ => 1,
        }
    }

    /// The value of a field; null for a missing one and for anything but an object.
    pub open spec fn get(self, name: Seq<char>) -> JsonView {
        match self {
            JsonView::Object(fields) => field_of(fields, name),
            _ => JsonView::Null,
        }
    }

    /// The elements of an array; none for anything else.
    pub open spec fn items(self) -> Seq<JsonView> {
        match self {
            JsonView::Array(items) => items,
            _ => Seq::empty(),
        }
    }

    /// The fields of an object; none for anything else.
    pub open spec fn fields(self) -> Seq<(Seq<char>, JsonView)> {
        match self {
            JsonView::Object(fields) => fields,
            _ => Seq::empty(),
        }
    }

    /// The text of a string; empty for anything else.
    pub open spec fn text(self) -> Seq<char> {
        match self {
            JsonView::Str(s) => s,
            _ => Seq::empty(),
        }
    }

    pub open spec fn is_true(self) -> bool {
        self == JsonView::Bool(true)
    }
}

proof fn lemma_field_size(fields: Seq<(Seq<char>, JsonView)>, name: Seq<char>)
    ensures
        field_of(fields, name).size() <= fields_size(fields),
    decreases fields.len(),
{
    if fields.len() > 0 {
        lemma_fields_size_split(fields);
        if fields[0].0 != name {
            lemma_field_size(fields.drop_first(), name);
        }
    }
}

proof fn lemma_fields_size_split(fields: Seq<(Seq<char>, JsonView)>)
    requires
        fields.len() > 0,
    ensures
        fields_size(fields) == fields[0].1.size() + 1 + fields_size(fields.drop_first()),
    decreases fields.len(),
{
    if fields.len() == 1 {
        assert(fields.drop_last() =~= fields.drop_first());
        assert(fields_size(fields.drop_last()) == 0);
    } else {
        lemma_fields_size_split(fields.drop_last());
        assert(fields.drop_last().drop_first() =~= fields.drop_first().drop_last());
        assert(fields.drop_first()[fields.drop_first().len() - 1] == fields[fields.len() - 1]);
    }
}

/// A field is smaller than the object that holds it.
pub broadcast proof fn lemma_get_smaller(n: JsonView, name: Seq<char>)
    ensures
        (#[trigger] n.get(name).size()) <= n.size(),
        n !is Null ==> n.get(name).size() < n.size(),
{
    if let JsonView::Object(fields) = n {
        lemma_field_size(fields, name);
    }
}

proof fn lemma_items_size(items: Seq<JsonView>, i: int)
    requires
        0 <= i < items.len(),
    ensures
        items[i].size() < items_size(items),
    decreases items.len(),
{
    if i < items.len() - 1 {
        lemma_items_size(items.drop_last(), i);
    }
}

/// An element is smaller than the array that holds it.
pub broadcast proof fn lemma_item_smaller(n: JsonView, i: int)
    requires
        0 <= i < n.items().len(),
    ensures
        (#[trigger] n.items()[i]).size() < n.size(),
{
    lemma_items_size(n.items(), i);
}

/// The elements together are no larger than the array that holds them.
pub broadcast proof fn lemma_items_smaller(n: JsonView)
    ensures
        (#[trigger] items_size(n.items())) <= n.size(),
        n !is Null ==> items_size(n.items()) < n.size(),
{
}

proof fn lemma_fields_size(fields: Seq<(Seq<char>, JsonView)>, i: int)
    requires
        0 <= i < fields.len(),
    ensures
        fields[i].1.size() < fields_size(fields),
    decreases fields.len(),
{
    if i < fields.len() - 1 {
        lemma_fields_size(fields.drop_last(), i);
    }
}

/// The value of a field is smaller than the object that holds it.
pub broadcast proof fn lemma_field_value_smaller(n: JsonView, i: int)
    requires
        0 <= i < n.fields().len(),
    ensures
        (#[trigger] n.fields()[i]).1.size() < n.size(),
{
    lemma_fields_size(n.fields(), i);
}

pub broadcast proof fn lemma_json_array_view(items: Vec<Json>)
    ensures
        (#[trigger] Json::Array(items)@) == JsonView::Array(views(items@)),
{
    reveal_with_fuel(<Json as View>::view, 2);
    assert(Json::Array(items)@->Array_0 =~= views(items@));
}

pub broadcast proof fn lemma_json_object_view(fields: Vec<(String, Json)>)
    ensures
        (#[trigger] Json::Object(fields)@) == JsonView::Object(views(fields@)),
{
    reveal_with_fuel(<Json as View>::view, 2);
    assert(Json::Object(fields)@->Object_0 =~= views(fields@));
}

pub broadcast group group_json_sizes {
    lemma_get_smaller,
    lemma_item_smaller,
    lemma_items_smaller,
    lemma_field_value_smaller,
}

pub broadcast group group_json_views {
    lemma_json_array_view,
    lemma_json_object_view,
}

impl Json {
    /// The value of a field; null for a missing one and for anything but an object.
    pub fn get(&self, name: &str) -> (r: &Json)
        ensures
            r@ == self@.get(name@),
    {
        match self {
            Json::Object(fields) => {
                let ghost all = views(fields@);
                let mut i: usize = 0;
                proof {
                    broadcast use group_json_views;

                    assert(all.skip(0) =~= all);
                    assert(self@ == JsonView::Object(all));
                }
                while i < fields.len()
                    invariant
                        i <= fields@.len(),
                        all == views(fields@),
                        self@ == JsonView::Object(all),
                        field_of(all, name@) == field_of(all.skip(i as int), name@),
                    decreases fields@.len() - i,
                {
                    if same_text(fields[i].0.as_str(), name) {
                        assert(all.skip(i as int)[0] == fields@[i as int]@);
                        return &fields[i].1;
                    }
                    proof {
                        assert(all.skip(i as int)[0] == fields@[i as int]@);
                        assert(all.skip(i as int).drop_first() =~= all.skip(i + 1));
                    }
                    i += 1;
                }
                &Json::Null
            },
            _ => &Json::Null,
        }
    }

    /// The number of elements of an array; zero for anything else.
    pub fn count(&self) -> (r: usize)
        ensures
            r == self@.items().len(),
    {
        match self {
            Json::Array(items) => {
                proof {
                    broadcast use group_json_views;

                    assert(self@ == JsonView::Array(views(items@)));
                }
                items.len()
            },
            _ => 0,
        }
    }

    /// The element of an array at the given position.
    pub fn at(&self, i: usize) -> (r: &Json)
        requires
            i < self@.items().len(),
        ensures
            r@ == self@.items()[i as int],
    {
        match self {
            Json::Array(items) => {
                proof {
                    broadcast use group_json_views;

                    assert(self@ == JsonView::Array(views(items@)));
                }
                &items[i]
            },
            _ => &Json::Null,
        }
    }

    /// The text of a string; empty for anything else.
    pub fn text(&self) -> (r: &str)
        ensures
            r@ == self@.text(),
    {
        match self {
            Json::Str(s) => s.as_str(),
            _ => {
                proof {
                    reveal_strlit("");
                    assert(""@ =~= Seq::empty());
                }
                ""
            },
        }
    }

    pub fn is_true(&self) -> (r: bool)
        ensures
            r == self@.is_true(),
    {
        match self {
            Json::Bool(b) => *b,
            _ => false,
        }
    }

    pub fn is_null(&self) -> (r: bool)
        ensures
            r == (self@ is Null),
    {
        match self {
            Json::Null => true,
            _ => false,
        }
    }
}

} // verus!
