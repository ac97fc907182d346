//! JSON values as the agent reads and writes them.

use vstd::prelude::*;
use vstd::utf8::encode_utf8;
use crate::text::same_text;
use serde_json::{Number, Value};

verus! {

/// A JSON value. A number is held in one of three forms: an integer that is not negative, a
/// negative integer, or any other number as serde_json holds it. Of two fields with one key the
/// first is read, and the last goes into the text that `to_text` writes. What was parsed has no two
/// fields with one key.
#[derive(Debug, PartialEq)]
pub enum Json {
    Null,
    Bool(bool),
    Unsigned(u64),
    Negative(i64),
    Float(Number),
    Text(String),
    Array(Vec<Json>),
    Object(Vec<(String, Json)>),
}

/// The mathematical value of a `Json`.
#[verifier::ext_equal]
pub enum JsonView {
    Null,
    Bool(bool),
    Unsigned(u64),
    Negative(i64),
    Float(Number),
    Text(Seq<char>),
    Array(Seq<JsonView>),
    Object(Seq<(Seq<char>, JsonView)>),
}

/// The mathematical value of `json`.
pub open spec fn json_view(json: Json) -> JsonView
    decreases json,
{
    match json {
        Json::Null => JsonView::Null,
        Json::Bool(b) => JsonView::Bool(b),
        Json::Unsigned(n) => JsonView::Unsigned(n),
        Json::Negative(n) => JsonView::Negative(n),
        Json::Float(n) => JsonView::Float(n),
        Json::Text(text) => JsonView::Text(text@),
        Json::Array(items) => JsonView::Array(
            Seq::new(
                items@.len(),
                |i: int|
                    if 0 <= i < items@.len() {
                        json_view(items@[i])
                    } else {
                        JsonView::Null
                    },
            ),
        ),
        Json::Object(fields) => JsonView::Object(
            Seq::new(
                fields@.len(),
                |i: int|
                    if 0 <= i < fields@.len() {
                        (fields@[i].0@, json_view(fields@[i].1))
                    } else {
                        (Seq::<char>::empty(), JsonView::Null)
                    },
            ),
        ),
    }
}

impl View for Json {
    type V = JsonView;

    open spec fn view(&self) -> JsonView {
        json_view(*self)
    }
}

impl DeepView for Json {
    type V = JsonView;

    open spec fn deep_view(&self) -> JsonView {
        json_view(*self)
    }
}

impl JsonView {
    /// The value of the first field with this key. Only an object has fields.
    pub open spec fn field(self, key: Seq<char>) -> Option<JsonView> {
        match self {
            JsonView::Object(fields) => first_value(fields, key),
            _ => None,
        }
    }

    /// The text, where it is a text.
    pub open spec fn text(self) -> Option<Seq<char>> {
        match self {
            JsonView::Text(text) => Some(text),
            _ => None,
        }
    }

    /// The truth value, where it is one.
    pub open spec fn truth(self) -> Option<bool> {
        match self {
            JsonView::Bool(b) => Some(b),
            _ => None,
        }
    }

    /// The items, where it is an array.
    pub open spec fn items(self) -> Option<Seq<JsonView>> {
        match self {
            JsonView::Array(items) => Some(items),
            _ => None,
        }
    }

    /// The number, where it is an integer that is not negative.
    pub open spec fn unsigned(self) -> Option<u64> {
        match self {
            JsonView::Unsigned(n) => Some(n),
            _ => None,
        }
    }

    /// The number, where it is an integer that an `i64` can hold.
    pub open spec fn integer(self) -> Option<i64> {
        match self {
            JsonView::Unsigned(n) => if n <= i64::MAX {
                Some(n as i64)
            } else {
                None
            },
            JsonView::Negative(n) => Some(n),
            _ => None,
        }
    }

    /// The text of the field, empty where the field is missing or is no text.
    pub open spec fn text_field(self, key: Seq<char>) -> Seq<char> {
        match self.field(key) {
            Some(JsonView::Text(text)) => text,
            _ => Seq::empty(),
        }
    }

    /// The truth value of the field, where it has one.
    pub open spec fn truth_field(self, key: Seq<char>) -> Option<bool> {
        match self.field(key) {
            Some(value) => value.truth(),
            None => None,
        }
    }

    /// The items of the field, where it is an array.
    pub open spec fn items_field(self, key: Seq<char>) -> Option<Seq<JsonView>> {
        match self.field(key) {
            Some(value) => value.items(),
            None => None,
        }
    }

    /// The field as an integer that is not negative.
    pub open spec fn unsigned_field(self, key: Seq<char>) -> Option<u64> {
        match self.field(key) {
            Some(value) => value.unsigned(),
            None => None,
        }
    }

    /// The field as an integer.
    pub open spec fn integer_field(self, key: Seq<char>) -> Option<i64> {
        match self.field(key) {
            Some(value) => value.integer(),
            None => None,
        }
    }
}

/// The value of the first field with this key.
pub open spec fn first_value(
    fields: Seq<(Seq<char>, JsonView)>,
    key: Seq<char>,
) -> Option<JsonView>
    decreases fields.len(),
{
    if fields.len() == 0 {
        None
    } else if fields[0].0 == key {
        Some(fields[0].1)
    } else {
        first_value(fields.drop_first(), key)
    }
}

/// The value that `serde_json::from_slice` reads from the bytes: nothing where they are not one
/// JSON value.
pub uninterp spec fn json_of_bytes(bytes: Seq<u8>) -> Option<JsonView>;

/// `serde_json::Number`, in which numbers are carried that are no 64-bit integers.
#[verifier::external_type_specification]
#[verifier::external_body]
pub struct ExNumber(Number);

/// `Number::clone` gives the same number.
pub assume_specification[ <Number as Clone>::clone ](number: &Number) -> (copy: Number)
    ensures
        copy == *number,
;

/// `serde_json::Value`, which `from_slice` returns and `json_of` takes apart.
#[verifier::external_type_specification]
#[verifier::external_body]
pub struct ExValue(Value);

/// Turns a `serde_json::Value` into the same value as a `Json`, variant by variant, through the
/// accessors of `serde_json::Number`. It is the conversion of `value_of_bytes`, apart because it
/// calls itself, and nothing is claimed of it alone.
#[verifier::external_body]
fn json_of(value: Value) -> Json {
    match value {
        Value::Null => Json::Null,
        Value::Bool(flag) => Json::Bool(flag),
        Value::Number(n) => match (n.as_u64(), n.as_i64()) {
            (Some(whole), _) => Json::Unsigned(whole),
            (None, Some(whole)) => Json::Negative(whole),
            (None, None) => Json::Float(n),
        },
        Value::String(text) => Json::Text(text),
        Value::Array(items) => Json::Array(items.into_iter().map(json_of).collect()),
        Value::Object(fields) => {
            Json::Object(fields.into_iter().map(|(key, value)| (key, json_of(value))).collect())
        },
    }
}

/// Calls `serde_json::from_slice` for a `serde_json::Value` and converts what it returns: that
/// depends on the bytes alone. Which bytes are JSON, and what they say, is left to the crate.
#[verifier::external_body]
fn value_of_bytes(bytes: &[u8]) -> (json: Option<Json>)
    ensures
        json.deep_view() == json_of_bytes(bytes@),
{
    serde_json::from_slice::<Value>(bytes).ok().map(json_of)
}

/// The text that `serde_json::to_string` writes for a value.
pub uninterp spec fn text_of_json(json: JsonView) -> Seq<char>;

/// A list of objects whose fields are texts under different keys.
pub open spec fn is_text_table(json: JsonView) -> bool {
    json is Array && forall|i: int|
        0 <= i < json->Array_0.len() ==> is_text_row(#[trigger] json->Array_0[i])
}

/// An object whose fields are texts under different keys.
pub open spec fn is_text_row(json: JsonView) -> bool {
    &&& json is Object
    &&& forall|j: int| 0 <= j < json->Object_0.len() ==> (#[trigger] json->Object_0[j]).1 is Text
    &&& forall|j: int, k: int|
        0 <= j < k < json->Object_0.len() ==> (#[trigger] json->Object_0[j]).0 != (
        #[trigger] json->Object_0[k]).0
}

/// The text is read as a list that is as long as `list` and whose items have the same fields.
pub open spec fn reads_back(text: Seq<char>, list: JsonView) -> bool {
    json_of_bytes(encode_utf8(text)) matches Some(JsonView::Array(items)) && items.len()
        == list->Array_0.len() && forall|i: int, key: Seq<char>|
        0 <= i < items.len() ==> #[trigger] items[i].field(key) == list->Array_0[i].field(key)
}

/// Turns a `Json` into the same value as a `serde_json::Value`, variant by variant. It is the
/// conversion of `json_text`, apart because it calls itself, and nothing is claimed of it alone.
#[verifier::external_body]
fn value_of(json: &Json) -> Value {
    match json {
        Json::Null => Value::Null,
        Json::Bool(flag) => Value::from(*flag),
        Json::Unsigned(n) => Value::from(*n),
        Json::Negative(n) => Value::from(*n),
        Json::Float(n) => Value::Number(n.clone()),
        Json::Text(text) => Value::from(text.as_str()),
        Json::Array(items) => items.iter().map(value_of).collect(),
        Json::Object(fields) => {
            Value::Object(fields.iter().map(|(key, value)| (key.clone(), value_of(value))).collect())
        },
    }
}

/// Calls `serde_json::to_string` for a `serde_json::Value`, which always succeeds: the text depends
/// on the value alone and is not empty. Of a list of objects of texts it is claimed that
/// `serde_json::from_slice` reads the fields back; of other values nothing is claimed in that
/// respect.
#[verifier::external_body]
fn json_text(json: &Json) -> (text: String)
    ensures
        text@ == text_of_json(json@),
        text@.len() > 0,
        is_text_table(json@) ==> reads_back(text@, json@),
{
    serde_json::to_string(&value_of(json)).unwrap_or_default()
}

impl Json {
    /// Writes the value as text.
    pub fn to_text(&self) -> (text: String)
        ensures
            text@ == text_of_json(self@),
            text@.len() > 0,
            is_text_table(self@) ==> reads_back(text@, self@),
    {
        json_text(self)
    }

    /// Reads one JSON value.
    pub fn parse(bytes: &[u8]) -> (json: Option<Json>)
        ensures
            json.deep_view() == json_of_bytes(bytes@),
    {
        value_of_bytes(bytes)
    }

    /// The value of the first field with this key.
    pub fn get(&self, key: &str) -> (value: Option<&Json>)
        ensures
            value.deep_view() == self@.field(key@),
    {
        match self {
            Json::Object(fields) => {
                let ghost all = self@->Object_0;
                assert(all.skip(0) =~= all);
                for i in 0..fields.len()
                    invariant
                        self@ == JsonView::Object(all),
                        *self == Json::Object(*fields),
                        all.len() == fields@.len(),
                        first_value(all, key@) == first_value(all.skip(i as int), key@),
                {
                    assert(all[i as int] == (fields@[i as int].0@, fields@[i as int].1@));
                    assert(all.skip(i as int).drop_first() =~= all.skip(i as int + 1));
                    if same_text(fields[i].0.as_str(), key) {
                        return Some(&fields[i].1);
                    }
                }
                None
            },
            _ => None,
        }
    }

    /// The text, where it is a text.
    pub fn as_str(&self) -> (text: Option<&str>)
        ensures
            text.deep_view() == self@.text(),
    {
        match self {
            Json::Text(text) => Some(text.as_str()),
            _ => None,
        }
    }

    /// The truth value, where it is one.
    pub fn as_bool(&self) -> (truth: Option<bool>)
        ensures
            truth == self@.truth(),
    {
        match self {
            Json::Bool(b) => Some(*b),
            _ => None,
        }
    }

    /// The items, where it is an array.
    pub fn as_array(&self) -> (items: Option<&Vec<Json>>)
        ensures
            items.deep_view() == self@.items(),
    {
        match self {
            Json::Array(items) => {
                assert(items.deep_view() =~= self@->Array_0);
                Some(items)
            },
            _ => None,
        }
    }

    /// The number, where it is an integer that is not negative.
    pub fn as_u64(&self) -> (number: Option<u64>)
        ensures
            number == self@.unsigned(),
    {
        match self {
            Json::Unsigned(n) => Some(*n),
            _ => None,
        }
    }

    /// The number, where it is an integer that an `i64` can hold.
    pub fn as_i64(&self) -> (number: Option<i64>)
        ensures
            number == self@.integer(),
    {
        match self {
            Json::Unsigned(n) => if *n <= i64::MAX as u64 {
                Some(*n as i64)
            } else {
                None
            },
            Json::Negative(n) => Some(*n),
            _ => None,
        }
    }

    /// Whether it is null.
    pub fn is_null(&self) -> (yes: bool)
        ensures
            yes == (self@ == JsonView::Null),
    {
        match self {
            Json::Null => true,
            _ => false,
        }
    }

    /// The text of the field, empty where the field is missing or is no text.
    pub fn text_field(&self, key: &str) -> (text: String)
        ensures
            text@ == self@.text_field(key@),
    {
        match self.get(key) {
            Some(value) => match value {
                Json::Text(text) => text.clone(),
                _ => String::new(),
            },
            None => String::new(),
        }
    }

    /// The truth value of the field, where it has one.
    pub fn truth_field(&self, key: &str) -> (truth: Option<bool>)
        ensures
            truth == self@.truth_field(key@),
    {
        match self.get(key) {
            Some(value) => value.as_bool(),
            None => None,
        }
    }

    /// The items of the field, where it is an array.
    pub fn items_field(&self, key: &str) -> (items: Option<&Vec<Json>>)
        ensures
            items.deep_view() == self@.items_field(key@),
    {
        match self.get(key) {
            Some(value) => value.as_array(),
            None => None,
        }
    }

    /// The field as an integer that is not negative.
    pub fn unsigned_field(&self, key: &str) -> (number: Option<u64>)
        ensures
            number == self@.unsigned_field(key@),
    {
        match self.get(key) {
            Some(value) => value.as_u64(),
            None => None,
        }
    }

    /// The field as an integer.
    pub fn integer_field(&self, key: &str) -> (number: Option<i64>)
        ensures
            number == self@.integer_field(key@),
    {
        match self.get(key) {
            Some(value) => value.as_i64(),
            None => None,
        }
    }

    /// A text.
    pub fn text(text: &str) -> (json: Json)
        ensures
            json@ == JsonView::Text(text@),
    {
        Json::Text(text.to_owned())
    }

    /// An array of these items.
    pub fn array(items: Vec<Json>) -> (json: Json)
        ensures
            json@ == JsonView::Array(items.deep_view()),
    {
        let json = Json::Array(items);
        assert(json@->Array_0 =~= items.deep_view());
        json
    }

    /// The empty array.
    pub fn empty_array() -> (json: Json)
        ensures
            json@ == JsonView::Array(Seq::empty()),
    {
        let json = Json::array(Vec::new());
        assert(json@->Array_0 =~= Seq::<JsonView>::empty());
        json
    }

    /// An object with these fields.
    pub fn object(fields: Vec<(String, Json)>) -> (json: Json)
        ensures
            json@ == JsonView::Object(fields.deep_view()),
    {
        let json = Json::Object(fields);
        assert(json@->Object_0 =~= fields.deep_view());
        json
    }
}

/// Adds a field at the end.
pub fn push_field(fields: &mut Vec<(String, Json)>, key: &str, value: Json)
    ensures
        final(fields).deep_view() == old(fields).deep_view().push((key@, value@)),
{
    let ghost before = fields.deep_view();
    fields.push((key.to_owned(), value));
    assert(fields.deep_view() =~= before.push((key@, value@)));
}

/// Adds an item at the end.
pub fn push_item(items: &mut Vec<Json>, item: Json)
    ensures
        final(items).deep_view() == old(items).deep_view().push(item@),
{
    let ghost before = items.deep_view();
    items.push(item);
    assert(items.deep_view() =~= before.push(item@));
}

impl Clone for Json {
    fn clone(&self) -> (copy: Self)
        ensures
            copy@ == self@,
        decreases *self,
    {
        match self {
            Json::Null => Json::Null,
            Json::Bool(b) => Json::Bool(*b),
            Json::Unsigned(n) => Json::Unsigned(*n),
            Json::Negative(n) => Json::Negative(*n),
            Json::Float(n) => Json::Float(n.clone()),
            Json::Text(text) => Json::Text(text.clone()),
            Json::Array(items) => {
                let mut copies: Vec<Json> = Vec::new();
                for i in 0..items.len()
                    invariant
                        *self == Json::Array(*items),
                        copies@.len() == i,
                        forall|j: int| 0 <= j < i ==> (#[trigger] copies@[j])@ == items@[j]@,
                {
                    assert(decreases_to!(*self => self->Array_0));
                    assert(decreases_to!(*items => items@));
                    assert(decreases_to!(items@ => items@[i as int]));
                    copies.push(items[i].clone());
                }
                let json = Json::Array(copies);
                assert(json@->Array_0 =~= self@->Array_0);
                json
            },
            Json::Object(fields) => {
                let mut copies: Vec<(String, Json)> = Vec::new();
                for i in 0..fields.len()
                    invariant
                        *self == Json::Object(*fields),
                        copies@.len() == i,
                        forall|j: int|
                            0 <= j < i ==> (#[trigger] copies@[j]).0@ == fields@[j].0@
                                && copies@[j].1@ == fields@[j].1@,
                {
                    assert(decreases_to!(*self => self->Object_0));
                    assert(decreases_to!(*fields => fields@));
                    assert(decreases_to!(fields@ => fields@[i as int]));
                    assert(decreases_to!(fields@[i as int] => fields@[i as int].1));
                    copies.push((fields[i].0.clone(), fields[i].1.clone()));
                }
                let json = Json::Object(copies);
                assert(json@->Object_0 =~= self@->Object_0);
                json
            },
        }
    }
}

/// The first field with a key is read, whatever stands behind it, and a key that no field has is
/// missing. Only objects have fields.
pub proof fn law_first_field_is_read(
    before: Seq<(Seq<char>, JsonView)>,
    key: Seq<char>,
    value: JsonView,
    behind: Seq<(Seq<char>, JsonView)>,
)
    requires
        forall|i: int| 0 <= i < before.len() ==> (#[trigger] before[i]).0 != key,
    ensures
        JsonView::Object(before + seq![(key, value)] + behind).field(key) == Some(value),
        JsonView::Object(before).field(key) is None,
        !(value is Object) ==> value.field(key) is None,
    decreases before.len(),
{
    let all = before + seq![(key, value)] + behind;
    if before.len() > 0 {
        let rest = before.drop_first();
        assert forall|i: int| 0 <= i < rest.len() implies (#[trigger] rest[i]).0 != key by {
            assert(rest[i] == before[i + 1]);
        }
        law_first_field_is_read(rest, key, value, behind);
        assert(all[0] == before[0]);
        assert(before[0].0 != key);
        assert(all.drop_first() =~= rest + seq![(key, value)] + behind);
    } else {
        assert(all[0] == (key, value));
    }
}

/// Values are read as what they are: a text as its text, a truth value as such, a list as its items,
/// and a number as an integer where it is one that fits.
pub proof fn law_values_are_read_as_what_they_are(
    text: Seq<char>,
    flag: bool,
    items: Seq<JsonView>,
    n: u64,
    m: i64,
)
    ensures
        JsonView::Text(text).text() == Some(text),
        JsonView::Bool(flag).truth() == Some(flag),
        JsonView::Array(items).items() == Some(items),
        JsonView::Unsigned(n).unsigned() == Some(n),
        JsonView::Unsigned(n).integer() == (if n <= 0x7fff_ffff_ffff_ffff {
            Some(n as i64)
        } else {
            None
        }),
        JsonView::Negative(m).integer() == Some(m),
        JsonView::Negative(m).unsigned() is None,
        JsonView::Text(text).truth() is None && JsonView::Text(text).items() is None
            && JsonView::Text(text).unsigned() is None && JsonView::Text(text).integer() is None,
        JsonView::Null.text() is None && JsonView::Bool(flag).text() is None
            && JsonView::Array(items).text() is None && JsonView::Unsigned(n).text() is None,
        JsonView::Bool(flag).unsigned() is None && JsonView::Bool(flag).integer() is None,
        JsonView::Unsigned(n).truth() is None && JsonView::Null.truth() is None,
{
}

/// A field is read like its value; as a text, a field that is missing or is no text is empty.
pub proof fn law_fields_are_read_like_their_values(value: JsonView, key: Seq<char>)
    ensures
        value.field(key) matches Some(found) ==> value.truth_field(key) == found.truth()
            && value.items_field(key) == found.items() && value.unsigned_field(key)
            == found.unsigned() && value.integer_field(key) == found.integer(),
        value.field(key) is None ==> value.truth_field(key) is None && value.items_field(key)
            is None && value.unsigned_field(key) is None && value.integer_field(key) is None,
        value.field(key) matches Some(JsonView::Text(text)) ==> value.text_field(key) == text,
        !(value.field(key) matches Some(JsonView::Text(text))) ==> value.text_field(key).len() == 0,
{
}

} // verus!
