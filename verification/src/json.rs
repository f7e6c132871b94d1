//! JSON documents as plain values, and their reading with `serde_json`.
use vstd::prelude::*;

use crate::text::same;

verus! {

/// A JSON document.
///
/// A number is held by the 64 bits of its IEEE 754 double; the fields of an object stand in a
/// list of names and values.
#[derive(Debug)]
pub enum Json {
    Null,
    Bool(bool),
    Number(u64),
    Text(String),
    Array(Vec<Json>),
    Object(Vec<(String, Json)>),
}

/// The mathematical content of a JSON document.
pub enum JsonModel {
    Null,
    Bool(bool),
    Number(u64),
    Text(Seq<char>),
    Array(Seq<JsonModel>),
    Object(Seq<(Seq<char>, JsonModel)>),
}

/// The value of the first field called `key`, if there is one.
pub open spec fn find_field(fields: Seq<(Seq<char>, JsonModel)>, key: Seq<char>) -> Option<
    JsonModel,
>
    decreases fields.len(),
{
    if fields.len() == 0 {
        None
    } else if fields[0].0 == key {
        Some(fields[0].1)
    } else {
        find_field(fields.skip(1), key)
    }
}

impl JsonModel {
    /// The field `key` of an object; nothing has fields but an object.
    pub open spec fn field(self, key: Seq<char>) -> Option<JsonModel> {
        match self {
            JsonModel::Object(fields) => find_field(fields, key),
            _ => None,
        }
    }

    /// The characters of a text.
    pub open spec fn text(self) -> Option<Seq<char>> {
        match self {
            JsonModel::Text(s) => Some(s),
            _ => None,
        }
    }

    /// The items of an array.
    pub open spec fn items(self) -> Option<Seq<JsonModel>> {
        match self {
            JsonModel::Array(items) => Some(items),
            _ => None,
        }
    }

    /// The characters of the field `key`, where that field is there and holds a text.
    pub open spec fn text_field(self, key: Seq<char>) -> Option<Seq<char>> {
        match self.field(key) {
            Some(v) => v.text(),
            None => None,
        }
    }

    /// The characters of the field `key`, or `default`.
    pub open spec fn text_field_or(self, key: Seq<char>, default: Seq<char>) -> Seq<char> {
        match self.text_field(key) {
            Some(s) => s,
            None => default,
        }
    }
}

impl Json {
    /// The mathematical content of the document.
    pub open spec fn model(self) -> JsonModel
        decreases self,
    {
        match self {
            Json::Null => JsonModel::Null,
            Json::Bool(b) => JsonModel::Bool(b),
            Json::Number(n) => JsonModel::Number(n),
            Json::Text(s) => JsonModel::Text(s@),
            Json::Array(items) => JsonModel::Array(
                Seq::new(
                    items@.len(),
                    |i: int|
                        if 0 <= i < items@.len() {
                            items@[i].model()
                        } else {
                            JsonModel::Null
                        },
                ),
            ),
            Json::Object(fields) => JsonModel::Object(
                Seq::new(
                    fields@.len(),
                    |i: int|
                        if 0 <= i < fields@.len() {
                            (fields@[i].0@, fields@[i].1.model())
                        } else {
                            (Seq::empty(), JsonModel::Null)
                        },
                ),
            ),
        }
    }
}

impl View for Json {
    type V = JsonModel;

    open spec fn view(&self) -> JsonModel {
        self.model()
    }
}

/// The contents of a list of documents.
pub open spec fn models(items: Seq<Json>) -> Seq<JsonModel> {
    Seq::new(items.len(), |i: int| items[i]@)
}

/// The contents of a list of fields.
pub open spec fn field_models(fields: Seq<(String, Json)>) -> Seq<(Seq<char>, JsonModel)> {
    Seq::new(fields.len(), |i: int| (fields[i].0@, fields[i].1@))
}

proof fn lemma_model_array(v: Vec<Json>)
    ensures
        Json::Array(v)@ == JsonModel::Array(models(v@)),
{
    assert(Json::Array(v).model()->Array_0 =~= models(v@));
}

proof fn lemma_model_object(v: Vec<(String, Json)>)
    ensures
        Json::Object(v)@ == JsonModel::Object(field_models(v@)),
{
    assert(Json::Object(v).model()->Object_0 =~= field_models(v@));
}

impl Json {
    /// The field `key` of an object.
    pub fn get(&self, key: &str) -> (r: Option<&Json>)
        ensures
            r is Some == self@.field(key@) is Some,
            r matches Some(v) ==> self@.field(key@) == Some(v@),
    {
        match self {
            Json::Object(fields) => {
                proof {
                    lemma_model_object(*fields);
                }
                let ghost all = field_models(fields@);
                assert(all.skip(0) == all);
                let mut i: usize = 0;
                while i < fields.len()
                    invariant
                        i <= fields@.len(),
                        all == field_models(fields@),
                        self@ == JsonModel::Object(all),
                        find_field(all, key@) == find_field(all.skip(i as int), key@),
                    decreases fields@.len() - i,
                {
                    assert(all.skip(i as int).skip(1) == all.skip(i + 1));
                    if same(fields[i].0.as_str(), key) {
                        return Some(&fields[i].1);
                    }
                    i += 1;
                }
                None
            },
            _ => None,
        }
    }

    /// The characters of a text.
    pub fn as_str(&self) -> (r: Option<&str>)
        ensures
            r is Some == self@.text() is Some,
            r matches Some(s) ==> self@.text() == Some(s@),
    {
        match self {
            Json::Text(s) => Some(s.as_str()),
            _ => None,
        }
    }

    /// The items of an array.
    pub fn as_array(&self) -> (r: Option<&Vec<Json>>)
        ensures
            r is Some == self@.items() is Some,
            r matches Some(v) ==> self@.items() == Some(models(v@)),
    {
        match self {
            Json::Array(v) => {
                proof {
                    lemma_model_array(*v);
                }
                Some(v)
            },
            _ => None,
        }
    }

    /// Whether the document is an object.
    pub fn is_object(&self) -> (r: bool)
        ensures
            r == self@ is Object,
    {
        match self {
            Json::Object(_) => true,
            _ => false,
        }
    }

    /// The characters of the field `key`, where that field is there and holds a text.
    pub fn get_str(&self, key: &str) -> (r: Option<&str>)
        ensures
            r is Some == self@.text_field(key@) is Some,
            r matches Some(s) ==> self@.text_field(key@) == Some(s@),
    {
        match self.get(key) {
            Some(v) => v.as_str(),
            None => None,
        }
    }

    /// The characters of the field `key`, or `default`.
    pub fn get_str_or<'a>(&'a self, key: &str, default: &'a str) -> (r: &'a str)
        ensures
            r@ == self@.text_field_or(key@, default@),
    {
        match self.get_str(key) {
            Some(s) => s,
            None => default,
        }
    }
}

// ---------------------------------------------------------------------------------------------
// Reading with serde_json
// ---------------------------------------------------------------------------------------------

/// `serde_json::Value`, a parsed document.
#[verifier::external_type_specification]
#[verifier::external_body]
pub struct ExValue(serde_json::Value);

/// `serde_json::Error`, why a text is not a document.
#[verifier::external_type_specification]
#[verifier::external_body]
pub struct ExError(serde_json::Error);

/// What a `serde_json::Value` holds.
pub uninterp spec fn value_contents(v: serde_json::Value) -> JsonModel;

/// The document that `serde_json::from_str` reads in a text; `None` where the text is none.
pub uninterp spec fn json_in_text(text: Seq<char>) -> Option<JsonModel>;

/// Reads a text with `serde_json::from_str`, as a `serde_json::Value`.
///
/// Taken from `serde_json`: whether the text is a document, and which one, depends on the text
/// alone.
#[verifier::external_body]
fn read_value(text: &str) -> (r: Result<serde_json::Value, serde_json::Error>)
    ensures
        r is Ok == json_in_text(text@) is Some,
        r matches Ok(v) ==> json_in_text(text@) == Some(value_contents(v)),
{
    serde_json::from_str(text)
}

/// The outermost layer of a document, with the documents inside still as they were parsed.
enum Layer {
    Null,
    Bool(bool),
    Number(u64),
    Text(String),
    Array(Vec<serde_json::Value>),
    Object(Vec<(String, serde_json::Value)>),
}

/// The contents of parsed items.
pub open spec fn item_contents(items: Seq<serde_json::Value>) -> Seq<JsonModel> {
    Seq::new(items.len(), |i: int| value_contents(items[i]))
}

/// The contents of parsed fields.
pub open spec fn field_contents(fields: Seq<(String, serde_json::Value)>) -> Seq<
    (Seq<char>, JsonModel),
> {
    Seq::new(fields.len(), |i: int| (fields[i].0@, value_contents(fields[i].1)))
}

/// Tells the variants of `serde_json::Value` apart and moves their fields out.
///
/// Taken from `serde_json`: a value is of the variant that its contents say; the bits of a number
/// are those of `Number::as_f64`, which has a result for every number that is not of arbitrary
/// precision; an object's map hands out its entries as pairs.
#[verifier::external_body]
fn peel(v: serde_json::Value) -> (r: Layer)
    ensures
        value_contents(v) == (match r {
            Layer::Null => JsonModel::Null,
            Layer::Bool(b) => JsonModel::Bool(b),
            Layer::Number(n) => JsonModel::Number(n),
            Layer::Text(s) => JsonModel::Text(s@),
            Layer::Array(items) => JsonModel::Array(item_contents(items@)),
            Layer::Object(fields) => JsonModel::Object(field_contents(fields@)),
        }),
{
    match v {
        serde_json::Value::Null => Layer::Null,
        serde_json::Value::Bool(b) => Layer::Bool(b),
        serde_json::Value::Number(n) => Layer::Number(n.as_f64().unwrap_or_default().to_bits()),
        serde_json::Value::String(s) => Layer::Text(s),
        serde_json::Value::Array(items) => Layer::Array(items),
        serde_json::Value::Object(fields) => Layer::Object(fields.into_iter().collect()),
    }
}

/// The plain form of a parsed document.
pub fn to_json(v: serde_json::Value) -> (r: Json)
    ensures
        r@ == value_contents(v),
    decreases value_contents(v),
{
    let ghost whole = value_contents(v);
    match peel(v) {
        Layer::Null => Json::Null,
        Layer::Bool(b) => Json::Bool(b),
        Layer::Number(n) => Json::Number(n),
        Layer::Text(s) => Json::Text(s),
        Layer::Array(items) => {
            let ghost parsed = items@;
            let mut out: Vec<Json> = Vec::new();
            for item in it: items
                invariant
                    it.seq() == parsed,
                    whole == JsonModel::Array(item_contents(parsed)),
                    whole == value_contents(v),
                    models(out@) == item_contents(parsed).take(it.index() as int),
            {
                assert(item == parsed[it.index() as int]);
                assert(item_contents(parsed)[it.index() as int] == value_contents(item));
                assert(decreases_to!(whole => whole->Array_0));
                assert(decreases_to!(whole->Array_0 => whole->Array_0[it.index() as int]));
                let j = to_json(item);
                let ghost before = out@;
                out.push(j);
                assert(models(out@) == models(before).push(j@));
                assert(item_contents(parsed).take(it.index() as int + 1) == item_contents(
                    parsed,
                ).take(it.index() as int).push(j@));
            }
            proof {
                lemma_model_array(out);
                assert(item_contents(parsed).take(parsed.len() as int) == item_contents(parsed));
            }
            Json::Array(out)
        },
        Layer::Object(fields) => {
            let ghost parsed = fields@;
            let mut out: Vec<(String, Json)> = Vec::new();
            for entry in it: fields
                invariant
                    it.seq() == parsed,
                    whole == JsonModel::Object(field_contents(parsed)),
                    whole == value_contents(v),
                    field_models(out@) == field_contents(parsed).take(it.index() as int),
            {
                let (name, value) = entry;
                assert(field_contents(parsed)[it.index() as int].1 == value_contents(value));
                let ghost pair = whole->Object_0[it.index() as int];
                assert(decreases_to!(whole => whole->Object_0));
                assert(decreases_to!(whole->Object_0 => whole->Object_0[it.index() as int]));
                assert(decreases_to!(pair => pair.1));
                let j = to_json(value);
                let ghost before = out@;
                out.push((name, j));
                assert(field_models(out@) == field_models(before).push((name@, j@)));
                assert(field_contents(parsed).take(it.index() as int + 1) == field_contents(
                    parsed,
                ).take(it.index() as int).push((name@, j@)));
            }
            proof {
                lemma_model_object(out);
                assert(field_contents(parsed).take(parsed.len() as int) == field_contents(parsed));
            }
            Json::Object(out)
        },
    }
}

/// Reads a text as a JSON document; `None` where it is none.
pub fn parse_json(text: &str) -> (r: Option<Json>)
    ensures
        r is Some == json_in_text(text@) is Some,
        r matches Some(j) ==> json_in_text(text@) == Some(j@),
{
    match read_value(text) {
        Ok(v) => Some(to_json(v)),
        Err(_) => None,
    }
}

} // verus!
