//! JSON objects of `serde_json`: building, writing, reading and looking into them.
use vstd::prelude::*;

verus! {

/// A member of a JSON object, as far as the catalog looks into it.
pub enum Json {
    Null,
    Flag(bool),
    /// A number; one that is no unsigned 64-bit integer is not told apart.
    Number(Option<u64>),
    Text(Seq<char>),
    List(Seq<JsonItem>),
    Object,
}

/// An item of a JSON list, as far as the catalog looks into it.
pub enum JsonItem {
    Text(Seq<char>),
    Object(Map<Seq<char>, Json>),
    Other,
}

/// The members of a JSON object by name.
pub type Members = Map<Seq<char>, Json>;

/// `serde_json::Value`, carried inside objects.
#[verifier::external_type_specification]
#[verifier::external_body]
pub struct ExValue(serde_json::Value);

/// `serde_json::Map`, the collection that holds an object's members.
#[verifier::external_type_specification]
#[verifier::external_body]
#[verifier::reject_recursive_types(K)]
#[verifier::reject_recursive_types(V)]
pub struct ExMap<K, V>(serde_json::Map<K, V>);

/// What an object holds: each member's name and value.
pub uninterp spec fn object_members(
    object: serde_json::Map<String, serde_json::Value>,
) -> Map<Seq<char>, Json>;

/// A member of an object.
pub enum Field {
    Null,
    Flag(bool),
    Number(Option<u64>),
    Text(String),
    List(Vec<Item>),
    Object,
}

/// An item of a list.
pub enum Item {
    Text(String),
    Object(serde_json::Map<String, serde_json::Value>),
    Other,
}

/// What an item stands for.
pub open spec fn item_view(item: Item) -> JsonItem {
    match item {
        Item::Text(text) => JsonItem::Text(text@),
        Item::Object(object) => JsonItem::Object(object_members(object)),
        Item::Other => JsonItem::Other,
    }
}

/// What a list's items stand for.
pub open spec fn items_view(items: Seq<Item>) -> Seq<JsonItem> {
    items.map_values(|item: Item| item_view(item))
}

/// What a member stands for.
pub open spec fn field_view(field: Field) -> Json {
    match field {
        Field::Null => Json::Null,
        Field::Flag(flag) => Json::Flag(flag),
        Field::Number(number) => Json::Number(number),
        Field::Text(text) => Json::Text(text@),
        Field::List(items) => Json::List(items_view(items@)),
        Field::Object => Json::Object,
    }
}

/// Whether an item is told apart completely, down to `depth` objects.
pub open spec fn plain_item(item: JsonItem, depth: nat) -> bool
    decreases depth, 1nat,
{
    match item {
        JsonItem::Text(_) => true,
        JsonItem::Object(members) => depth > 0 && plain(members, (depth - 1) as nat),
        JsonItem::Other => false,
    }
}

/// Whether a member is told apart completely, down to `depth` objects.
pub open spec fn plain_json(json: Json, depth: nat) -> bool
    decreases depth, 2nat,
{
    match json {
        Json::Null | Json::Flag(_) | Json::Text(_) => true,
        Json::Number(number) => number is Some,
        Json::List(items) => forall|i: int|
            0 <= i < items.len() ==> plain_item(#[trigger] items[i], depth),
        Json::Object => false,
    }
}

/// Whether all members are told apart completely, down to `depth` objects.
pub open spec fn plain(members: Members, depth: nat) -> bool
    decreases depth, 3nat,
{
    forall|name: Seq<char>|
        #[trigger] members.dom().contains(name) ==> plain_json(members[name], depth)
}

/// The text that `serde_json::to_vec` writes for an object.
pub uninterp spec fn object_text(members: Map<Seq<char>, Json>) -> Seq<u8>;

/// What a text holds: an object with its members, another JSON value, or no JSON, with the
/// message that says so.
pub enum Reading {
    Object(Map<Seq<char>, Json>),
    NoObject,
    Invalid(Seq<char>),
}

/// What `serde_json::from_slice` reads as a `Value`.
pub uninterp spec fn read_text(bytes: Seq<u8>) -> Reading;

/// `serde_json::Map::new`: an object without members.
#[verifier::external_body]
pub(crate) fn new_object() -> (object: serde_json::Map<String, serde_json::Value>)
    ensures
        object_members(object) == Members::empty(),
{
    serde_json::Map::new()
}

/// `serde_json::Map::insert`: the member takes the place of one with the same name.
#[verifier::external_body]
pub(crate) fn put_member(
    object: &mut serde_json::Map<String, serde_json::Value>,
    name: &str,
    field: Field,
)
    requires
        plain_json(field_view(field), 2),
    ensures
        object_members(*final(object)) == object_members(*old(object)).insert(
            name@,
            field_view(field),
        ),
{
    let value = match field {
        Field::Flag(flag) => serde_json::Value::Bool(flag),
        Field::Number(number) => serde_json::Value::from(number),
        Field::Text(text) => serde_json::Value::String(text),
        Field::List(items) => items.into_iter().map(|item| match item {
            Item::Text(text) => serde_json::Value::String(text),
            Item::Object(object) => serde_json::Value::Object(object),
            Item::Other => serde_json::Value::Null,
        }).collect(),
        Field::Null | Field::Object => serde_json::Value::Null,
    };
    object.insert(name.to_string(), value);
}

/// `serde_json::Map::get`: the member with a name, where there is one.
#[verifier::external_body]
pub(crate) fn member(object: &serde_json::Map<String, serde_json::Value>, name: &str) -> (field: Option<
    Field,
>)
    ensures
        match field {
            Some(f) => object_members(*object).dom().contains(name@) && object_members(
                *object,
            )[name@] == field_view(f),
            None => !object_members(*object).dom().contains(name@),
        },
{
    object.get(name).map(|value| match value {
        serde_json::Value::Null => Field::Null,
        serde_json::Value::Bool(flag) => Field::Flag(*flag),
        serde_json::Value::Number(number) => Field::Number(number.as_u64()),
        serde_json::Value::String(text) => Field::Text(text.clone()),
        serde_json::Value::Array(items) => Field::List(items.iter().map(|item| match item {
            serde_json::Value::String(text) => Item::Text(text.clone()),
            serde_json::Value::Object(object) => Item::Object(object.clone()),
            _ => Item::Other,
        }).collect()),
        serde_json::Value::Object(_) => Field::Object,
    })
}

/// `serde_json::to_vec`: the object's text, from which `serde_json::from_slice` reads the
/// same members. Writing into memory does not fail.
#[verifier::external_body]
pub(crate) fn write_object(object: &serde_json::Map<String, serde_json::Value>) -> (text: Result<
    Vec<u8>,
    String,
>)
    requires
        plain(object_members(*object), 2),
    ensures
        text is Ok,
        text->Ok_0@ == object_text(object_members(*object)),
        read_text(text->Ok_0@) == Reading::Object(object_members(*object)),
{
    serde_json::to_vec(object).map_err(|e| e.to_string())
}

/// `serde_json::from_slice` into a `Value`: the object, where it is one, or the error's
/// message.
#[verifier::external_body]
pub(crate) fn read_object(bytes: &[u8]) -> (object: Result<
    Option<serde_json::Map<String, serde_json::Value>>,
    String,
>)
    ensures
        match object {
            Ok(Some(o)) => read_text(bytes@) == Reading::Object(object_members(o)),
            Ok(None) => read_text(bytes@) == Reading::NoObject,
            Err(message) => read_text(bytes@) == Reading::Invalid(message@),
        },
{
    serde_json::from_slice(bytes).map_err(|e| e.to_string()).map(|value| match value {
        serde_json::Value::Object(object) => Some(object),
        _ => None,
    })
}

} // verus!
