//! JSON documents, as far as a manifest is read.

use vstd::prelude::*;
use vstd::string::*;

use crate::text::same_text;

verus! {

/// A JSON document over mathematical sequences. `Other` stands for null, booleans and numbers.
/// The members of an object stand in the order in which the parsed object lists them.
pub enum Json {
    Text(Seq<char>),
    Array(Seq<Json>),
    Object(Seq<(Seq<char>, Json)>),
    Other,
}

/// A JSON document.
#[derive(Debug)]
pub enum JsonValue {
    Text(String),
    Array(Vec<JsonValue>),
    Object(Vec<JsonMember>),
    Other,
}

/// A member of a JSON object.
#[derive(Debug)]
pub struct JsonMember {
    pub key: String,
    pub value: JsonValue,
}

/// The model of a document.
pub open spec fn json_model(value: JsonValue) -> Json
    decreases value,
{
    match value {
        JsonValue::Text(s) => Json::Text(s@),
        JsonValue::Array(items) => Json::Array(items_model(items@)),
        JsonValue::Object(members) => Json::Object(members_model(members@)),
        JsonValue::Other => Json::Other,
    }
}

/// The model of a list of documents.
pub open spec fn items_model(items: Seq<JsonValue>) -> Seq<Json>
    decreases items,
{
    if items.len() == 0 {
        seq![]
    } else {
        items_model(items.drop_last()).push(json_model(items.last()))
    }
}

/// The model of a list of members.
pub open spec fn members_model(members: Seq<JsonMember>) -> Seq<(Seq<char>, Json)>
    decreases members,
{
    if members.len() == 0 {
        seq![]
    } else {
        members_model(members.drop_last()).push(
            (members.last().key@, json_model(members.last().value)),
        )
    }
}

impl View for JsonValue {
    type V = Json;

    open spec fn view(&self) -> Json {
        json_model(*self)
    }
}

/// The model of a list keeps positions.
pub proof fn lemma_items_model(items: Seq<JsonValue>)
    ensures
        items_model(items).len() == items.len(),
        forall|i: int|
            0 <= i < items.len() ==> #[trigger] items_model(items)[i] == json_model(items[i]),
    decreases items.len(),
{
    if items.len() > 0 {
        lemma_items_model(items.drop_last());
    }
}

/// The model of a list of members keeps positions.
pub proof fn lemma_members_model(members: Seq<JsonMember>)
    ensures
        members_model(members).len() == members.len(),
        forall|i: int|
            0 <= i < members.len() ==> #[trigger] members_model(members)[i] == (
                members[i].key@,
                json_model(members[i].value),
            ),
    decreases members.len(),
{
    if members.len() > 0 {
        lemma_members_model(members.drop_last());
    }
}

/// The member of an object that has a key.
pub open spec fn lookup(members: Seq<(Seq<char>, Json)>, key: Seq<char>) -> Option<Json>
    decreases members.len(),
{
    if members.len() == 0 {
        None
    } else if members[0].0 == key {
        Some(members[0].1)
    } else {
        lookup(members.drop_first(), key)
    }
}

/// The member of a document that a path of keys leads to.
pub open spec fn member_at(document: Json, path: Seq<Seq<char>>) -> Option<Json>
    decreases path.len(),
{
    if path.len() == 0 {
        Some(document)
    } else {
        match document {
            Json::Object(members) => match lookup(members, path[0]) {
                Some(member) => member_at(member, path.drop_first()),
                None => None,
            },
            _ => None,
        }
    }
}

impl JsonValue {
    /// The member with this key, where the document is an object that has one.
    pub fn member(&self, key: &str) -> (res: Option<&JsonValue>)
        ensures
            match self@ {
                Json::Object(members) => match lookup(members, key@) {
                    Some(member) => res is Some && res->0@ == member,
                    None => res is None,
                },
                _ => res is None,
            },
    {
        match self {
            JsonValue::Object(members) => {
                let ghost model = members_model(members@);
                let mut i: usize = 0;
                proof {
                    lemma_members_model(members@);
                    assert(model.skip(0) =~= model);
                }
                while i < members.len()
                    invariant
                        i <= members@.len() == model.len(),
                        self@ == Json::Object(model),
                        forall|j: int|
                            0 <= j < members@.len() ==> #[trigger] model[j] == (
                                members@[j].key@,
                                json_model(members@[j].value),
                            ),
                        lookup(model, key@) == lookup(model.skip(i as int), key@),
                    decreases members.len() - i,
                {
                    assert(model.skip(i as int)[0] == model[i as int]);
                    if same_text(&members[i].key, key) {
                        return Some(&members[i].value);
                    }
                    assert(model.skip(i as int).drop_first() =~= model.skip(i + 1));
                    i += 1;
                }
                None
            },
            _ => None,
        }
    }
}

/// A JSON document of `serde_json`.
#[verifier::external_type_specification]
#[verifier::external_body]
pub struct ExSerdeJsonValue(serde_json::Value);

/// What a `serde_json::Value` holds.
pub uninterp spec fn json_content(value: serde_json::Value) -> Json;

/// What `serde_json::from_str` makes of a text: a document, or the message of its error.
pub uninterp spec fn json_parse(text: Seq<char>) -> Result<Json, Seq<char>>;

/// Calls `serde_json::from_str`. Claimed of it: whether the text is a document, which one, and
/// else the message of the error, depend on the text alone.
#[verifier::external_body]
fn serde_parse(text: &str) -> (res: Result<serde_json::Value, String>)
    ensures
        match res {
            Ok(value) => json_parse(text@) == Ok::<Json, Seq<char>>(json_content(value)),
            Err(message) => json_parse(text@) == Err::<Json, Seq<char>>(message@),
        },
{
    match serde_json::from_str(text) {
        Ok(value) => Ok(value),
        Err(error) => Err(error.to_string()),
    }
}

/// Calls `serde_json::Value::as_str`. Claimed of it: it gives the text of a JSON string, and
/// nothing for any other value.
#[verifier::external_body]
fn serde_text(value: &serde_json::Value) -> (res: Option<&str>)
    ensures
        match res {
            Some(s) => json_content(*value) == Json::Text(s@),
            None => !(json_content(*value) is Text),
        },
{
    value.as_str()
}

/// Calls `serde_json::Value::as_array`. Claimed of it: it gives the elements of a JSON array in
/// their order, and nothing for any other value.
#[verifier::external_body]
fn serde_items(value: &serde_json::Value) -> (res: Option<&Vec<serde_json::Value>>)
    ensures
        match res {
            Some(list) => {
                &&& json_content(*value) is Array
                &&& json_content(*value)->Array_0.len() == list@.len()
                &&& forall|i: int|
                    0 <= i < list@.len() ==> json_content(#[trigger] list@[i]) == json_content(
                        *value,
                    )->Array_0[i]
            },
            None => !(json_content(*value) is Array),
        },
{
    value.as_array()
}

/// Calls `serde_json::Value::as_object` and lists the members of the map. Claimed of it: it gives
/// the keys and values of a JSON object in the order of the map, and nothing for any other
/// value.
#[verifier::external_body]
fn serde_members(value: &serde_json::Value) -> (res: Option<Vec<(&String, &serde_json::Value)>>)
    ensures
        match res {
            Some(list) => {
                &&& json_content(*value) is Object
                &&& json_content(*value)->Object_0.len() == list@.len()
                &&& forall|i: int|
                    0 <= i < list@.len() ==> json_content(*value)->Object_0[i] == (
                        (#[trigger] list@[i]).0@,
                        json_content(*list@[i].1),
                    )
            },
            None => !(json_content(*value) is Object),
        },
{
    value.as_object().map(|map| map.iter().collect())
}

/// The document that a `serde_json::Value` holds.
fn from_serde(value: &serde_json::Value) -> (res: JsonValue)
    ensures
        res@ == json_content(*value),
    decreases json_content(*value),
{
    if let Some(text) = serde_text(value) {
        return JsonValue::Text(text.to_owned());
    }
    if let Some(list) = serde_items(value) {
        let ghost model = json_content(*value)->Array_0;
        let mut items: Vec<JsonValue> = Vec::new();
        let mut i: usize = 0;
        while i < list.len()
            invariant
                i <= list@.len() == model.len(),
                json_content(*value) == Json::Array(model),
                forall|j: int|
                    0 <= j < list@.len() ==> json_content(#[trigger] list@[j]) == model[j],
                items_model(items@) == model.take(i as int),
            decreases list.len() - i,
        {
            let ghost before = items@;
            assert(json_content(list@[i as int]) == model[i as int]);
            assert(decreases_to!(json_content(*value) => json_content(*value)->Array_0[i as int]));
            let item = from_serde(&list[i]);
            items.push(item);
            assert(items@.drop_last() =~= before);
            assert(model.take(i + 1) =~= model.take(i as int).push(model[i as int]));
            i += 1;
        }
        assert(model.take(model.len() as int) =~= model);
        return JsonValue::Array(items);
    }
    if let Some(list) = serde_members(value) {
        let ghost model = json_content(*value)->Object_0;
        let mut members: Vec<JsonMember> = Vec::new();
        let mut i: usize = 0;
        while i < list.len()
            invariant
                i <= list@.len() == model.len(),
                json_content(*value) == Json::Object(model),
                forall|j: int|
                    0 <= j < list@.len() ==> model[j] == (
                        (#[trigger] list@[j]).0@,
                        json_content(*list@[j].1),
                    ),
                members_model(members@) == model.take(i as int),
            decreases list.len() - i,
        {
            let ghost before = members@;
            let (key, member) = list[i];
            assert(model[i as int] == (list@[i as int].0@, json_content(*list@[i as int].1)));
            assert(decreases_to!(
                json_content(*value) => json_content(*value)->Object_0[i as int].1
            ));
            let member = from_serde(member);
            members.push(JsonMember { key: key.clone(), value: member });
            assert(members@.drop_last() =~= before);
            assert(model.take(i + 1) =~= model.take(i as int).push(model[i as int]));
            i += 1;
        }
        assert(model.take(model.len() as int) =~= model);
        return JsonValue::Object(members);
    }
    JsonValue::Other
}

/// Parses a JSON document.
pub fn parse_json(text: &str) -> (res: Result<JsonValue, String>)
    ensures
        match res {
            Ok(value) => json_parse(text@) == Ok::<Json, Seq<char>>(value@),
            Err(message) => json_parse(text@) == Err::<Json, Seq<char>>(message@),
        },
{
    match serde_parse(text) {
        Ok(value) => Ok(from_serde(&value)),
        Err(message) => Err(message),
    }
}

} // verus!
