//! JSON values.

use crate::number::Amount;
use vstd::prelude::*;

verus! {

/// A JSON value. The fields of an object keep their order.
#[derive(Debug)]
pub enum Json {
    Null,
    Bool(bool),
    Number(Amount),
    Text(String),
    List(Vec<Json>),
    Object(Vec<Field>),
}

/// A field of an object.
#[derive(Debug)]
pub struct Field {
    pub name: String,
    pub value: Json,
}

/// A JSON value, in the abstract.
pub enum JsonView {
    Null,
    Bool(bool),
    Number(Amount),
    Text(Seq<char>),
    List(Seq<JsonView>),
    Object(Seq<(Seq<char>, JsonView)>),
}

pub open spec fn json_view(json: Json) -> JsonView
    decreases json,
{
    match json {
        Json::Null => JsonView::Null,
        Json::Bool(b) => JsonView::Bool(b),
        Json::Number(a) => JsonView::Number(a),
        Json::Text(s) => JsonView::Text(s@),
        Json::List(items) => JsonView::List(
            Seq::new(
                items@.len(),
                |i: int|
                    if 0 <= i < items@.len() {
                        json_view(items@[i])
                    } else {
                        JsonView::Null
                    },
            ),
        ),
        Json::Object(fields) => JsonView::Object(
            Seq::new(
                fields@.len(),
                |i: int|
                    if 0 <= i < fields@.len() {
                        (fields@[i].name@, json_view(fields@[i].value))
                    } else {
                        (Seq::<char>::empty(), JsonView::Null)
                    },
            ),
        ),
    }
}

impl View for Json {
    type V = JsonView;

    open spec fn view(&self) -> JsonView {
        json_view(*self)
    }
}

pub open spec fn fields_view(fields: Seq<Field>) -> Seq<(Seq<char>, JsonView)> {
    Seq::new(fields.len(), |i: int| (fields[i].name@, fields[i].value@))
}

pub open spec fn items_view(items: Seq<Json>) -> Seq<JsonView> {
    Seq::new(items.len(), |i: int| items[i]@)
}

/// How many fields an object has.
pub open spec fn field_count(json: JsonView) -> nat {
    match json {
        JsonView::Object(fields) => fields.len(),
        _ => 0,
    }
}

/// Whether a value is an object that has this field.
pub open spec fn has_field(json: JsonView, name: Seq<char>, value: JsonView) -> bool {
    json matches JsonView::Object(fields) && fields.contains((name, value))
}

pub fn text(s: &str) -> (r: Json)
    ensures
        r@ == JsonView::Text(s@),
{
    Json::Text(s.to_string())
}

/// A number as JSON has it: what is not finite is null.
pub open spec fn number_view(amount: Amount) -> JsonView {
    if amount.finite() {
        JsonView::Number(amount)
    } else {
        JsonView::Null
    }
}

pub fn number(amount: Amount) -> (r: Json)
    ensures
        r@ == number_view(amount),
{
    if amount.is_finite() {
        Json::Number(amount)
    } else {
        Json::Null
    }
}

/// JSON has finite numbers only, and has them as they are.
pub proof fn lemma_numbers_in_json(amount: Amount)
    ensures
        number_view(amount) == JsonView::Number(amount) <==> amount.finite(),
        number_view(amount) == JsonView::Null <==> !amount.finite(),
{
}

pub fn list(items: Vec<Json>) -> (r: Json)
    ensures
        r@ == JsonView::List(items_view(items@)),
{
    let r: Json = Json::List(items);
    proof {
        assert(r@->List_0 =~= items_view(items@));
    }
    r
}

pub fn object(fields: Vec<Field>) -> (r: Json)
    ensures
        r@ == JsonView::Object(fields_view(fields@)),
{
    let r: Json = Json::Object(fields);
    proof {
        assert(r@->Object_0 =~= fields_view(fields@));
    }
    r
}

/// Adds a field to those that are there.
pub fn with(fields: Vec<Field>, name: &str, value: Json) -> (r: Vec<Field>)
    ensures
        fields_view(r@) == fields_view(fields@).push((name@, value@)),
{
    let mut out: Vec<Field> = fields;
    out.push(Field { name: name.to_string(), value });
    assert(fields_view(out@) =~= fields_view(fields@).push((name@, value@)));
    out
}

/// A single field.
pub fn field(name: &str, value: Json) -> (r: Vec<Field>)
    ensures
        fields_view(r@) == seq![(name@, value@)],
{
    let none: Vec<Field> = Vec::new();
    let out: Vec<Field> = with(none, name, value);
    assert(fields_view(out@) =~= seq![(name@, value@)]);
    out
}

/// A list of one.
pub fn single(item: Json) -> (r: Json)
    ensures
        r@ == JsonView::List(seq![item@]),
{
    let mut items: Vec<Json> = Vec::new();
    items.push(item);
    assert(items_view(items@) =~= seq![item@]);
    list(items)
}

/// A list of two.
pub fn pair(first: Json, second: Json) -> (r: Json)
    ensures
        r@ == JsonView::List(seq![first@, second@]),
{
    let mut items: Vec<Json> = Vec::new();
    items.push(first);
    items.push(second);
    assert(items_view(items@) =~= seq![first@, second@]);
    list(items)
}

} // verus!
