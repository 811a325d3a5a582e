//! JSON values read and written through serde_json.
//!
//! A parsed or built `serde_json::Value` is held together with a ghost
//! [`JsonModel`] of its structure. The accessors below are thin calls into
//! serde_json whose contracts state what serde_json's documentation gives:
//! how each accessor reads the structure.

use vstd::prelude::*;
use crate::text::dec_spec;
use vstd::string::StringExecFns;

verus! {

#[verifier::external_type_specification]
#[verifier::external_body]
pub struct ExJsonValue(serde_json::Value);

/// The structure of a JSON value as serde_json holds it.
///
/// A number is described by the text that serde_json's `Display` writes for it
/// and by what `as_i64` returns for it.
pub ghost enum JsonModel {
    Null,
    Bool(bool),
    Number { text: Seq<char>, integer: Option<i64> },
    Str(Seq<char>),
    Array(Seq<JsonModel>),
    Object(Map<Seq<char>, JsonModel>),
}

/// What `serde_json::from_str::<serde_json::Value>` gives for `text`: the value's
/// structure, or the `Display` text of the error.
pub uninterp spec fn json_parse(text: Seq<char>) -> Result<JsonModel, Seq<char>>;

/// The compact text that serde_json's `Display` (`to_string`) writes for a value.
pub uninterp spec fn json_text(v: JsonModel) -> Seq<char>;

/// A JSON value owned by the library.
pub struct JsonValue {
    value: serde_json::Value,
    model: Ghost<JsonModel>,
}

impl View for JsonValue {
    type V = JsonModel;

    closed spec fn view(&self) -> JsonModel {
        self.model@
    }
}

/// A borrowed part of a [`JsonValue`].
pub struct JsonRef<'a> {
    value: &'a serde_json::Value,
    model: Ghost<JsonModel>,
}

impl<'a> View for JsonRef<'a> {
    type V = JsonModel;

    closed spec fn view(&self) -> JsonModel {
        self.model@
    }
}

/// Parses `text` with `serde_json::from_str` into a `serde_json::Value`; an error
/// comes back as its `Display` text.
#[verifier::external_body]
pub(crate) fn parse_json(text: &str) -> (r: Result<JsonValue, String>)
    ensures
        match json_parse(text@) {
            Ok(m) => r matches Ok(v) && v@ == m,
            Err(e) => r matches Err(s) && s@ == e,
        },
{
    match serde_json::from_str::<serde_json::Value>(text) {
        Ok(value) => Ok(JsonValue { value, model: Ghost(arbitrary()) }),
        Err(e) => Err(e.to_string()),
    }
}

/// The model of an object built from `entries` by inserting them in order.
pub open spec fn entries_map(entries: Seq<(Seq<char>, JsonModel)>) -> Map<Seq<char>, JsonModel>
    decreases entries.len(),
{
    if entries.len() == 0 {
        Map::empty()
    } else {
        entries_map(entries.drop_last()).insert(entries.last().0, entries.last().1)
    }
}

impl JsonValue {
    /// A borrow of the whole value.
    pub fn as_ref(&self) -> (r: JsonRef<'_>)
        ensures
            r@ == self@,
    {
        JsonRef { value: &self.value, model: Ghost(self.model@) }
    }

    /// `serde_json::Value::String` holding `s`.
    #[verifier::external_body]
    pub(crate) fn string(s: &str) -> (r: JsonValue)
        ensures
            r@ == JsonModel::Str(s@),
    {
        JsonValue { value: serde_json::Value::String(s.to_string()), model: Ghost(arbitrary()) }
    }

    /// The JSON number `n` (serde_json's `From<u32>`); it displays in decimal.
    #[verifier::external_body]
    pub(crate) fn number_u32(n: u32) -> (r: JsonValue)
        ensures
            r@ == (JsonModel::Number { text: dec_spec(n as nat), integer: Some(n as i64) }),
    {
        JsonValue { value: serde_json::Value::from(n), model: Ghost(arbitrary()) }
    }

    /// `serde_json::Value::Array` of the given items, in order.
    #[verifier::external_body]
    pub(crate) fn array(items: Vec<JsonValue>) -> (r: JsonValue)
        ensures
            r@ == JsonModel::Array(items@.map_values(|v: JsonValue| v@)),
    {
        JsonValue {
            value: serde_json::Value::Array(items.into_iter().map(|v| v.value).collect()),
            model: Ghost(arbitrary()),
        }
    }

    /// `serde_json::Value::Object` collected from `entries` (`Map`'s `FromIterator`:
    /// each entry is inserted in turn, a later key replacing an earlier one).
    #[verifier::external_body]
    pub(crate) fn object(entries: Vec<(String, JsonValue)>) -> (r: JsonValue)
        ensures
            r@ == JsonModel::Object(
                entries_map(entries@.map_values(|e: (String, JsonValue)| (e.0@, e.1@))),
            ),
    {
        JsonValue {
            value: serde_json::Value::Object(entries.into_iter().map(|(k, v)| (k, v.value)).collect()),
            model: Ghost(arbitrary()),
        }
    }

    /// serde_json's compact `to_string` of the value.
    #[verifier::external_body]
    pub(crate) fn to_text(&self) -> (r: String)
        ensures
            r@ == json_text(self@),
    {
        self.value.to_string()
    }
}

impl<'a> JsonRef<'a> {
    /// `serde_json::Value::get` with a string key: the field of an object, `None`
    /// for a missing key or a value that is not an object.
    #[verifier::external_body]
    pub(crate) fn get(&self, key: &str) -> (r: Option<JsonRef<'a>>)
        ensures
            match self@ {
                JsonModel::Object(m) => if m.contains_key(key@) {
                    r matches Some(c) && c@ == m[key@]
                } else {
                    r is None
                },
                _ => r is None,
            },
    {
        self.value.get(key).map(|value| JsonRef { value, model: Ghost(arbitrary()) })
    }

    /// `serde_json::Value::as_str`: the contents of a string value.
    #[verifier::external_body]
    pub(crate) fn as_str(&self) -> (r: Option<&'a str>)
        ensures
            match self@ {
                JsonModel::Str(s) => r matches Some(t) && t@ == s,
                _ => r is None,
            },
    {
        self.value.as_str()
    }

    /// `serde_json::Value::as_array`: the items of an array value, in order.
    #[verifier::external_body]
    pub(crate) fn as_array(&self) -> (r: Option<Vec<JsonRef<'a>>>)
        ensures
            match self@ {
                JsonModel::Array(items) => r matches Some(v) && v@.len() == items.len()
                    && forall|i: int| 0 <= i < items.len() ==> #[trigger] v@[i]@ == items[i],
                _ => r is None,
            },
    {
        self.value.as_array().map(|a| a.iter().map(|value| JsonRef { value, model: Ghost(arbitrary()) }).collect())
    }

    /// The `Display` text of a number value (`serde_json::Number::to_string`).
    #[verifier::external_body]
    pub(crate) fn number_text(&self) -> (r: Option<String>)
        ensures
            match self@ {
                JsonModel::Number { text, integer } => r matches Some(t) && t@ == text,
                _ => r is None,
            },
    {
        match self.value {
            serde_json::Value::Number(n) => Some(n.to_string()),
            _ => None,
        }
    }

    /// `serde_json::Value::as_i64`.
    #[verifier::external_body]
    pub(crate) fn as_i64(&self) -> (r: Option<i64>)
        ensures
            match self@ {
                JsonModel::Number { text, integer } => r == integer,
                _ => r is None,
            },
    {
        self.value.as_i64()
    }
}

/// Inserting one more entry inserts it into the object's map.
pub proof fn lemma_entries_map_push(s: Seq<(Seq<char>, JsonModel)>, e: (Seq<char>, JsonModel))
    ensures
        entries_map(s.push(e)) == entries_map(s).insert(e.0, e.1),
{
    assert(s.push(e).drop_last() == s);
}

/// The entries of a JSON object under construction.
pub struct ObjectBuilder {
    entries: Vec<(String, JsonValue)>,
}

impl View for ObjectBuilder {
    type V = Map<Seq<char>, JsonModel>;

    closed spec fn view(&self) -> Map<Seq<char>, JsonModel> {
        entries_map(self.entries@.map_values(|e: (String, JsonValue)| (e.0@, e.1@)))
    }
}

impl ObjectBuilder {
    /// No entries yet.
    pub fn new() -> (r: ObjectBuilder)
        ensures
            r@ == Map::<Seq<char>, JsonModel>::empty(),
    {
        let r = ObjectBuilder { entries: Vec::new() };
        assert(r.entries@.map_values(|e: (String, JsonValue)| (e.0@, e.1@)) =~= Seq::empty());
        r
    }

    /// Sets field `key` to `value`.
    pub fn insert(&mut self, key: &str, value: JsonValue)
        ensures
            final(self)@ == old(self)@.insert(key@, value@),
    {
        let ghost before = self.entries@.map_values(|e: (String, JsonValue)| (e.0@, e.1@));
        let k = String::from_str(key);
        let ghost e = (k@, value@);
        self.entries.push((k, value));
        proof {
            let after = self.entries@.map_values(|e: (String, JsonValue)| (e.0@, e.1@));
            assert(after =~= before.push(e));
            lemma_entries_map_push(before, e);
        }
    }

    /// The object.
    pub fn build(self) -> (r: JsonValue)
        ensures
            r@ == JsonModel::Object(self@),
    {
        JsonValue::object(self.entries)
    }
}

} // verus!
