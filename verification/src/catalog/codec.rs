//! How catalog entries are written as JSON and under which keys.
use vstd::prelude::*;

use crate::bytes::{be_value, read_be};
use crate::catalog::types::{
    DatabaseCatalog, DatabaseModel, IndexCatalog, IndexModel, SchemaCatalog, SchemaModel,
    TableCatalog, TableEntry, ViewCatalog, ViewModel, DEFAULT_SCHEMA_NAME,
};
use crate::codec::internal;
use crate::error::{unsupported, unsupported_report, user_error, user_error_text};
use crate::error::{Report, UserError};
use crate::json::{
    field_view, item_view, items_view, member, new_object, object_members, object_text, plain,
    plain_item, plain_json, put_member, read_object, read_text, write_object, Field, Item, Json,
    JsonItem, Members, Reading,
};
use crate::schema::{
    normalized, option_view, views, CheckConstraintSchema, CheckModel, ColumnModel, ColumnSchema,
    ForeignKeyConstraintSchema, ForeignKeyModel, TableModel, TableSchema, UniqueConstraintSchema,
    UniqueModel,
};
use crate::text::{chars_of, decimal, push_decimal, split, split_text, texts};
use crate::types::{type_code, DataType};

verus! {

/// The number of an object's member.
pub open spec fn number_at(members: Members, name: Seq<char>) -> Option<u64> {
    if members.dom().contains(name) {
        match members[name] {
            Json::Number(number) => number,
            _ => None,
        }
    } else {
        None
    }
}

/// The text of an object's member.
pub open spec fn text_at(members: Members, name: Seq<char>) -> Option<Seq<char>> {
    if members.dom().contains(name) {
        match members[name] {
            Json::Text(text) => Some(text),
            _ => None,
        }
    } else {
        None
    }
}

/// The flag of an object's member, `default` without one.
pub open spec fn flag_at(members: Members, name: Seq<char>, default: bool) -> bool {
    if members.dom().contains(name) {
        match members[name] {
            Json::Flag(flag) => flag,
            _ => default,
        }
    } else {
        default
    }
}

/// The list of an object's member.
pub open spec fn list_at(members: Members, name: Seq<char>) -> Option<Seq<JsonItem>> {
    if members.dom().contains(name) {
        match members[name] {
            Json::List(items) => Some(items),
            _ => None,
        }
    } else {
        None
    }
}

/// The members of an item; one that is no object has none.
pub open spec fn item_members(item: JsonItem) -> Members {
    match item {
        JsonItem::Object(members) => members,
        _ => Members::empty(),
    }
}

/// The low 32 bits of a number.
pub open spec fn low32(number: u64) -> u32 {
    (number % 0x1_0000_0000) as u32
}

/// Reads every item; the first that cannot be read is the error.
pub open spec fn read_all<T>(
    items: Seq<JsonItem>,
    reader: spec_fn(JsonItem) -> Result<T, Report>,
    done: Seq<T>,
) -> Result<Seq<T>, Report>
    decreases items.len(),
{
    if items.len() == 0 {
        Ok(done)
    } else {
        match reader(items[0]) {
            Err(e) => Err(e),
            Ok(value) => read_all(items.skip(1), reader, done.push(value)),
        }
    }
}

proof fn lemma_read_all<T>(
    items: Seq<JsonItem>,
    reader: spec_fn(JsonItem) -> Result<T, Report>,
    done: Seq<T>,
    values: Seq<T>,
)
    requires
        items.len() == values.len(),
        forall|i: int| 0 <= i < items.len() ==> reader(#[trigger] items[i]) == Ok::<T, Report>(values[i]),
    ensures
        read_all(items, reader, done) == Ok::<Seq<T>, Report>(done + values),
    decreases items.len(),
{
    if items.len() == 0 {
        assert(done + values =~= done);
    } else {
        let rest = items.skip(1);
        let left = values.skip(1);
        assert forall|i: int| 0 <= i < rest.len() implies reader(#[trigger] rest[i]) == Ok::<
            T,
            Report,
        >(left[i]) by {
            assert(rest[i] == items[i + 1]);
        }
        lemma_read_all(rest, reader, done.push(values[0]), left);
        assert(done.push(values[0]) + left =~= done + values);
    }
}

fn number(object: &serde_json::Map<String, serde_json::Value>, name: &str) -> (result: Option<u64>)
    ensures
        result == number_at(object_members(*object), name@),
{
    match member(object, name) {
        Some(Field::Number(number)) => number,
        _ => None,
    }
}

fn text(object: &serde_json::Map<String, serde_json::Value>, name: &str) -> (result: Option<String>)
    ensures
        option_view(result) == text_at(object_members(*object), name@),
{
    match member(object, name) {
        Some(Field::Text(text)) => Some(text),
        _ => None,
    }
}

fn flag(
    object: &serde_json::Map<String, serde_json::Value>,
    name: &str,
    default: bool,
) -> (result: bool)
    ensures
        result == flag_at(object_members(*object), name@, default),
{
    match member(object, name) {
        Some(Field::Flag(flag)) => flag,
        _ => default,
    }
}

/// What a list's items stand for, where there is a list.
spec fn list_view(items: Option<Vec<Item>>) -> Option<Seq<JsonItem>> {
    match items {
        Some(list) => Some(items_view(list@)),
        None => None,
    }
}

fn list(object: &serde_json::Map<String, serde_json::Value>, name: &str) -> (result: Option<Vec<Item>>)
    ensures
        list_view(result) == list_at(object_members(*object), name@),
{
    match member(object, name) {
        Some(Field::List(items)) => Some(items),
        _ => None,
    }
}

fn truncated32(number: u64) -> (result: u32)
    ensures
        result == low32(number),
{
    (number % 0x1_0000_0000) as u32
}

/// The message that a member is malformed.
pub open spec fn malformed(what: Seq<char>) -> Report {
    internal("catalog "@ + what + " is malformed"@)
}

fn malformed_error(what: &str) -> (error: UserError)
    ensures
        error@ == malformed(what@),
{
    let mut message = "catalog ".to_string();
    message.push_str(what);
    message.push_str(" is malformed");
    user_error_text("XX000", message)
}

/// A required 32-bit number.
pub open spec fn required_number(members: Members, name: Seq<char>) -> Result<u32, Report> {
    match number_at(members, name) {
        Some(n) => Ok(low32(n)),
        None => Err(malformed(name)),
    }
}

/// A required text; `what` names it in the error.
pub open spec fn required_text(members: Members, name: Seq<char>, what: Seq<char>) -> Result<
    Seq<char>,
    Report,
> {
    match text_at(members, name) {
        Some(text) => Ok(text),
        None => Err(malformed(what)),
    }
}

fn needed_number(object: &serde_json::Map<String, serde_json::Value>, name: &str) -> (result: Result<
    u32,
    UserError,
>)
    ensures
        match result {
            Ok(n) => required_number(object_members(*object), name@) == Ok::<u32, Report>(n),
            Err(e) => required_number(object_members(*object), name@) == Err::<u32, Report>(e@),
        },
{
    match number(object, name) {
        Some(n) => Ok(truncated32(n)),
        None => Err(malformed_error(name)),
    }
}

fn needed_text(
    object: &serde_json::Map<String, serde_json::Value>,
    name: &str,
    what: &str,
) -> (result: Result<String, UserError>)
    ensures
        match result {
            Ok(text) => required_text(object_members(*object), name@, what@) == Ok::<
                Seq<char>,
                Report,
            >(text@),
            Err(e) => required_text(object_members(*object), name@, what@) == Err::<
                Seq<char>,
                Report,
            >(e@),
        },
{
    match text(object, name) {
        Some(text) => Ok(text),
        None => Err(malformed_error(what)),
    }
}

/// The members that a stored text holds; what is no object has none. `context` starts the
/// message where the text is no JSON.
pub open spec fn stored_members(bytes: Seq<u8>, context: Seq<char>) -> Result<Members, Report> {
    match read_text(bytes) {
        Reading::Object(members) => Ok(members),
        Reading::NoObject => Ok(Members::empty()),
        Reading::Invalid(message) => Err(internal(context + message)),
    }
}

fn stored_object(bytes: &[u8], context: &str) -> (result: Result<
    serde_json::Map<String, serde_json::Value>,
    UserError,
>)
    ensures
        match result {
            Ok(object) => stored_members(bytes@, context@) == Ok::<Members, Report>(
                object_members(object),
            ),
            Err(e) => stored_members(bytes@, context@) == Err::<Members, Report>(e@),
        },
{
    match read_object(bytes) {
        Ok(Some(object)) => Ok(object),
        Ok(None) => Ok(new_object()),
        Err(reason) => {
            let mut message = context.to_string();
            message.push_str(reason.as_str());
            Err(user_error_text("XX000", message))
        },
    }
}

fn object_of(item: Item) -> (object: serde_json::Map<String, serde_json::Value>)
    ensures
        object_members(object) == item_members(item_view(item)),
{
    match item {
        Item::Object(object) => object,
        _ => new_object(),
    }
}

proof fn lemma_plain_insert(members: Members, name: Seq<char>, value: Json, depth: nat)
    requires
        plain(members, depth),
        plain_json(value, depth),
    ensures
        plain(members.insert(name, value), depth),
{
    let after = members.insert(name, value);
    assert forall|n: Seq<char>| #[trigger] after.dom().contains(n) implies plain_json(
        after[n],
        depth,
    ) by {
        if n != name {
            assert(members.dom().contains(n));
        }
    }
}

/// Adds a member to an object whose members are plain.
fn add_member(object: &mut serde_json::Map<String, serde_json::Value>, name: &str, field: Field, Ghost(depth): Ghost<nat>)
    requires
        plain(object_members(*old(object)), depth),
        plain_json(field_view(field), depth),
        depth <= 2,
    ensures
        object_members(*final(object)) == object_members(*old(object)).insert(name@, field_view(field)),
        plain(object_members(*final(object)), depth),
{
    proof {
        lemma_plain_deeper(field_view(field), depth, 2);
        lemma_plain_insert(object_members(*object), name@, field_view(field), depth);
    }
    put_member(object, name, field);
}

proof fn lemma_plain_deeper(value: Json, depth: nat, more: nat)
    requires
        plain_json(value, depth),
        depth <= more,
    ensures
        plain_json(value, more),
    decreases depth, 2nat,
{
    if let Json::List(items) = value {
        assert forall|i: int| 0 <= i < items.len() implies plain_item(#[trigger] items[i], more) by {
            assert(plain_item(items[i], depth));
            if let JsonItem::Object(members) = items[i] {
                assert forall|n: Seq<char>| #[trigger] members.dom().contains(n) implies plain_json(
                    members[n],
                    (more - 1) as nat,
                ) by {
                    lemma_plain_deeper(members[n], (depth - 1) as nat, (more - 1) as nat);
                }
            }
        }
    }
}

/// A text member, null without a text.
pub open spec fn optional_text(text: Option<Seq<char>>) -> Json {
    match text {
        Some(t) => Json::Text(t),
        None => Json::Null,
    }
}

fn optional_field(text: &Option<String>) -> (field: Field)
    ensures
        field_view(field) == optional_text(option_view(*text)),
{
    match text {
        Some(t) => Field::Text(t.clone()),
        None => Field::Null,
    }
}

/// A list of texts.
pub open spec fn text_items(texts: Seq<Seq<char>>) -> Seq<JsonItem> {
    texts.map_values(|text: Seq<char>| JsonItem::Text(text))
}

fn texts_field(texts: &Vec<String>) -> (field: Field)
    ensures
        field_view(field) == Json::List(text_items(views(texts@))),
        plain_json(field_view(field), 0),
{
    let mut items: Vec<Item> = Vec::new();
    let mut i: usize = 0;
    while i < texts.len()
        invariant
            i <= texts@.len(),
            items@.len() == i,
            forall|k: int| 0 <= k < i ==> item_view(#[trigger] items@[k]) == JsonItem::Text(texts@[k]@),
        decreases texts@.len() - i,
    {
        items.push(Item::Text(texts[i].clone()));
        i += 1;
    }
    assert(items_view(items@) =~= text_items(views(texts@)));
    Field::List(items)
}

/// The text of an item.
pub open spec fn item_text(item: JsonItem, what: Seq<char>) -> Result<Seq<char>, Report> {
    match item {
        JsonItem::Text(text) => Ok(text),
        _ => Err(malformed(what)),
    }
}

/// Reads items as texts.
pub open spec fn text_reader(what: Seq<char>) -> spec_fn(JsonItem) -> Result<Seq<char>, Report> {
    |item: JsonItem| item_text(item, what)
}

spec fn seen_texts(result: Result<Vec<String>, UserError>) -> Result<Seq<Seq<char>>, Report> {
    match result {
        Ok(texts) => Ok(views(texts@)),
        Err(error) => Err(error@),
    }
}

fn read_texts(items: Vec<Item>, what: &str) -> (result: Result<Vec<String>, UserError>)
    ensures
        seen_texts(result) == read_all(items_view(items@), text_reader(what@), seq![]),
{
    let ghost all = items_view(items@);
    let ghost reader = text_reader(what@);
    let mut texts: Vec<String> = Vec::new();
    let mut i: usize = 0;
    assert(all.skip(0) =~= all);
    assert(views(texts@) =~= seq![]);
    while i < items.len()
        invariant
            i <= items@.len(),
            all == items_view(items@),
            reader == text_reader(what@),
            read_all(all, reader, seq![]) == read_all(all.skip(i as int), reader, views(texts@)),
        decreases items@.len() - i,
    {
        assert(all.skip(i as int)[0] == item_view(items@[i as int]));
        assert(all.skip(i as int).skip(1) =~= all.skip(i + 1));
        match &items[i] {
            Item::Text(text) => {
                let ghost before = views(texts@);
                texts.push(text.clone());
                assert(views(texts@) =~= before.push(text@));
            },
            _ => {
                return Err(malformed_error(what));
            },
        }
        i += 1;
    }
    Ok(texts)
}

/// A list of texts; without the member it is empty.
pub open spec fn texts_at(members: Members, name: Seq<char>, what: Seq<char>) -> Result<
    Seq<Seq<char>>,
    Report,
> {
    if !members.dom().contains(name) {
        Ok(seq![])
    } else {
        match members[name] {
            Json::List(items) => read_all(items, text_reader(what), seq![]),
            _ => Err(malformed(what)),
        }
    }
}

fn parse_string_array(
    object: &serde_json::Map<String, serde_json::Value>,
    name: &str,
    what: &str,
) -> (result: Result<Vec<String>, UserError>)
    ensures
        seen_texts(result) == texts_at(object_members(*object), name@, what@),
{
    match member(object, name) {
        None => {
            let texts: Vec<String> = Vec::new();
            assert(views(texts@) =~= seq![]);
            Ok(texts)
        },
        Some(Field::List(items)) => read_texts(items, what),
        Some(_) => Err(malformed_error(what)),
    }
}

proof fn lemma_database_names()
    ensures
        "database_id"@ != "database_name"@,
{
    reveal_strlit("database_id");
    reveal_strlit("database_name");
    assert("database_id"@.len() == 11);
    assert("database_name"@.len() == 13);
}

proof fn lemma_schema_names()
    ensures
        "schema_id"@ != "database_id"@,
        "schema_id"@ != "schema_name"@,
        "database_id"@ != "schema_name"@,
{
    reveal_strlit("schema_id");
    reveal_strlit("database_id");
    reveal_strlit("schema_name");
    assert("schema_id"@.len() == 9);
    assert("database_id"@.len() == 11);
    assert("schema_name"@.len() == 11);
    assert("database_id"@[0] != "schema_name"@[0]);
}

proof fn lemma_table_names()
    ensures
        "database_id"@ != "schema_id"@,
        "database_id"@ != "schema_name"@,
        "database_id"@ != "table_name"@,
        "database_id"@ != "table_id"@,
        "database_id"@ != "schema_version"@,
        "database_id"@ != "table_epoch"@,
        "database_id"@ != "primary_key"@,
        "database_id"@ != "check_constraints"@,
        "database_id"@ != "unique_constraints"@,
        "database_id"@ != "foreign_keys"@,
        "database_id"@ != "columns"@,
        "schema_id"@ != "schema_name"@,
        "schema_id"@ != "table_name"@,
        "schema_id"@ != "table_id"@,
        "schema_id"@ != "schema_version"@,
        "schema_id"@ != "table_epoch"@,
        "schema_id"@ != "primary_key"@,
        "schema_id"@ != "check_constraints"@,
        "schema_id"@ != "unique_constraints"@,
        "schema_id"@ != "foreign_keys"@,
        "schema_id"@ != "columns"@,
        "schema_name"@ != "table_name"@,
        "schema_name"@ != "table_id"@,
        "schema_name"@ != "schema_version"@,
        "schema_name"@ != "table_epoch"@,
        "schema_name"@ != "primary_key"@,
        "schema_name"@ != "check_constraints"@,
        "schema_name"@ != "unique_constraints"@,
        "schema_name"@ != "foreign_keys"@,
        "schema_name"@ != "columns"@,
        "table_name"@ != "table_id"@,
        "table_name"@ != "schema_version"@,
        "table_name"@ != "table_epoch"@,
        "table_name"@ != "primary_key"@,
        "table_name"@ != "check_constraints"@,
        "table_name"@ != "unique_constraints"@,
        "table_name"@ != "foreign_keys"@,
        "table_name"@ != "columns"@,
        "table_id"@ != "schema_version"@,
        "table_id"@ != "table_epoch"@,
        "table_id"@ != "primary_key"@,
        "table_id"@ != "check_constraints"@,
        "table_id"@ != "unique_constraints"@,
        "table_id"@ != "foreign_keys"@,
        "table_id"@ != "columns"@,
        "schema_version"@ != "table_epoch"@,
        "schema_version"@ != "primary_key"@,
        "schema_version"@ != "check_constraints"@,
        "schema_version"@ != "unique_constraints"@,
        "schema_version"@ != "foreign_keys"@,
        "schema_version"@ != "columns"@,
        "table_epoch"@ != "primary_key"@,
        "table_epoch"@ != "check_constraints"@,
        "table_epoch"@ != "unique_constraints"@,
        "table_epoch"@ != "foreign_keys"@,
        "table_epoch"@ != "columns"@,
        "primary_key"@ != "check_constraints"@,
        "primary_key"@ != "unique_constraints"@,
        "primary_key"@ != "foreign_keys"@,
        "primary_key"@ != "columns"@,
        "check_constraints"@ != "unique_constraints"@,
        "check_constraints"@ != "foreign_keys"@,
        "check_constraints"@ != "columns"@,
        "unique_constraints"@ != "foreign_keys"@,
        "unique_constraints"@ != "columns"@,
        "foreign_keys"@ != "columns"@,
{
    reveal_strlit("database_id");
    reveal_strlit("schema_id");
    reveal_strlit("schema_name");
    reveal_strlit("table_name");
    reveal_strlit("table_id");
    reveal_strlit("schema_version");
    reveal_strlit("table_epoch");
    reveal_strlit("primary_key");
    reveal_strlit("check_constraints");
    reveal_strlit("unique_constraints");
    reveal_strlit("foreign_keys");
    reveal_strlit("columns");
    assert("database_id"@.len() == 11);
    assert("schema_id"@.len() == 9);
    assert("schema_name"@.len() == 11);
    assert("table_name"@.len() == 10);
    assert("table_id"@.len() == 8);
    assert("schema_version"@.len() == 14);
    assert("table_epoch"@.len() == 11);
    assert("primary_key"@.len() == 11);
    assert("check_constraints"@.len() == 17);
    assert("unique_constraints"@.len() == 18);
    assert("foreign_keys"@.len() == 12);
    assert("columns"@.len() == 7);
    assert("database_id"@[0] != "schema_name"@[0]);
    assert("database_id"@[0] != "table_epoch"@[0]);
    assert("database_id"@[0] != "primary_key"@[0]);
    assert("schema_name"@[0] != "table_epoch"@[0]);
    assert("schema_name"@[0] != "primary_key"@[0]);
    assert("table_epoch"@[0] != "primary_key"@[0]);
}

proof fn lemma_check_names()
    ensures
        "name"@ != "expr"@,
{
    reveal_strlit("name");
    reveal_strlit("expr");
    assert("name"@.len() == 4);
    assert("expr"@.len() == 4);
    assert("name"@[0] != "expr"@[0]);
}

proof fn lemma_unique_names()
    ensures
        "name"@ != "columns"@,
        "name"@ != "primary_key"@,
        "columns"@ != "primary_key"@,
{
    reveal_strlit("name");
    reveal_strlit("columns");
    reveal_strlit("primary_key");
    assert("name"@.len() == 4);
    assert("columns"@.len() == 7);
    assert("primary_key"@.len() == 11);
}

proof fn lemma_foreign_names()
    ensures
        "name"@ != "columns"@,
        "name"@ != "foreign_table"@,
        "name"@ != "referred_columns"@,
        "columns"@ != "foreign_table"@,
        "columns"@ != "referred_columns"@,
        "foreign_table"@ != "referred_columns"@,
{
    reveal_strlit("name");
    reveal_strlit("columns");
    reveal_strlit("foreign_table");
    reveal_strlit("referred_columns");
    assert("name"@.len() == 4);
    assert("columns"@.len() == 7);
    assert("foreign_table"@.len() == 13);
    assert("referred_columns"@.len() == 16);
}

proof fn lemma_column_names()
    ensures
        "column_id"@ != "name"@,
        "column_id"@ != "data_type"@,
        "column_id"@ != "primary_key"@,
        "column_id"@ != "nullable"@,
        "column_id"@ != "default"@,
        "column_id"@ != "on_update"@,
        "column_id"@ != "character_set"@,
        "column_id"@ != "collation"@,
        "name"@ != "data_type"@,
        "name"@ != "primary_key"@,
        "name"@ != "nullable"@,
        "name"@ != "default"@,
        "name"@ != "on_update"@,
        "name"@ != "character_set"@,
        "name"@ != "collation"@,
        "data_type"@ != "primary_key"@,
        "data_type"@ != "nullable"@,
        "data_type"@ != "default"@,
        "data_type"@ != "on_update"@,
        "data_type"@ != "character_set"@,
        "data_type"@ != "collation"@,
        "primary_key"@ != "nullable"@,
        "primary_key"@ != "default"@,
        "primary_key"@ != "on_update"@,
        "primary_key"@ != "character_set"@,
        "primary_key"@ != "collation"@,
        "nullable"@ != "default"@,
        "nullable"@ != "on_update"@,
        "nullable"@ != "character_set"@,
        "nullable"@ != "collation"@,
        "default"@ != "on_update"@,
        "default"@ != "character_set"@,
        "default"@ != "collation"@,
        "on_update"@ != "character_set"@,
        "on_update"@ != "collation"@,
        "character_set"@ != "collation"@,
{
    reveal_strlit("column_id");
    reveal_strlit("name");
    reveal_strlit("data_type");
    reveal_strlit("primary_key");
    reveal_strlit("nullable");
    reveal_strlit("default");
    reveal_strlit("on_update");
    reveal_strlit("character_set");
    reveal_strlit("collation");
    assert("column_id"@.len() == 9);
    assert("name"@.len() == 4);
    assert("data_type"@.len() == 9);
    assert("primary_key"@.len() == 11);
    assert("nullable"@.len() == 8);
    assert("default"@.len() == 7);
    assert("on_update"@.len() == 9);
    assert("character_set"@.len() == 13);
    assert("collation"@.len() == 9);
    assert("column_id"@[0] != "data_type"@[0]);
    assert("column_id"@[0] != "on_update"@[0]);
    assert("column_id"@[3] != "collation"@[3]);
    assert("data_type"@[0] != "on_update"@[0]);
    assert("data_type"@[0] != "collation"@[0]);
    assert("on_update"@[0] != "collation"@[0]);
}

proof fn lemma_index_names()
    ensures
        "index_id"@ != "database_id"@,
        "index_id"@ != "schema_id"@,
        "index_id"@ != "table_id"@,
        "index_id"@ != "schema_name"@,
        "index_id"@ != "table_name"@,
        "index_id"@ != "index_name"@,
        "index_id"@ != "column_name"@,
        "index_id"@ != "column_names"@,
        "index_id"@ != "unique"@,
        "database_id"@ != "schema_id"@,
        "database_id"@ != "table_id"@,
        "database_id"@ != "schema_name"@,
        "database_id"@ != "table_name"@,
        "database_id"@ != "index_name"@,
        "database_id"@ != "column_name"@,
        "database_id"@ != "column_names"@,
        "database_id"@ != "unique"@,
        "schema_id"@ != "table_id"@,
        "schema_id"@ != "schema_name"@,
        "schema_id"@ != "table_name"@,
        "schema_id"@ != "index_name"@,
        "schema_id"@ != "column_name"@,
        "schema_id"@ != "column_names"@,
        "schema_id"@ != "unique"@,
        "table_id"@ != "schema_name"@,
        "table_id"@ != "table_name"@,
        "table_id"@ != "index_name"@,
        "table_id"@ != "column_name"@,
        "table_id"@ != "column_names"@,
        "table_id"@ != "unique"@,
        "schema_name"@ != "table_name"@,
        "schema_name"@ != "index_name"@,
        "schema_name"@ != "column_name"@,
        "schema_name"@ != "column_names"@,
        "schema_name"@ != "unique"@,
        "table_name"@ != "index_name"@,
        "table_name"@ != "column_name"@,
        "table_name"@ != "column_names"@,
        "table_name"@ != "unique"@,
        "index_name"@ != "column_name"@,
        "index_name"@ != "column_names"@,
        "index_name"@ != "unique"@,
        "column_name"@ != "column_names"@,
        "column_name"@ != "unique"@,
        "column_names"@ != "unique"@,
{
    reveal_strlit("index_id");
    reveal_strlit("database_id");
    reveal_strlit("schema_id");
    reveal_strlit("table_id");
    reveal_strlit("schema_name");
    reveal_strlit("table_name");
    reveal_strlit("index_name");
    reveal_strlit("column_name");
    reveal_strlit("column_names");
    reveal_strlit("unique");
    assert("index_id"@.len() == 8);
    assert("database_id"@.len() == 11);
    assert("schema_id"@.len() == 9);
    assert("table_id"@.len() == 8);
    assert("schema_name"@.len() == 11);
    assert("table_name"@.len() == 10);
    assert("index_name"@.len() == 10);
    assert("column_name"@.len() == 11);
    assert("column_names"@.len() == 12);
    assert("unique"@.len() == 6);
    assert("index_id"@[0] != "table_id"@[0]);
    assert("database_id"@[0] != "schema_name"@[0]);
    assert("database_id"@[0] != "column_name"@[0]);
    assert("schema_name"@[0] != "column_name"@[0]);
    assert("table_name"@[0] != "index_name"@[0]);
}

proof fn lemma_view_names()
    ensures
        "view_id"@ != "database_id"@,
        "view_id"@ != "schema_id"@,
        "view_id"@ != "schema_name"@,
        "view_id"@ != "view_name"@,
        "view_id"@ != "definition"@,
        "database_id"@ != "schema_id"@,
        "database_id"@ != "schema_name"@,
        "database_id"@ != "view_name"@,
        "database_id"@ != "definition"@,
        "schema_id"@ != "schema_name"@,
        "schema_id"@ != "view_name"@,
        "schema_id"@ != "definition"@,
        "schema_name"@ != "view_name"@,
        "schema_name"@ != "definition"@,
        "view_name"@ != "definition"@,
{
    reveal_strlit("view_id");
    reveal_strlit("database_id");
    reveal_strlit("schema_id");
    reveal_strlit("schema_name");
    reveal_strlit("view_name");
    reveal_strlit("definition");
    assert("view_id"@.len() == 7);
    assert("database_id"@.len() == 11);
    assert("schema_id"@.len() == 9);
    assert("schema_name"@.len() == 11);
    assert("view_name"@.len() == 9);
    assert("definition"@.len() == 10);
    assert("database_id"@[0] != "schema_name"@[0]);
    assert("schema_id"@[0] != "view_name"@[0]);
}

/// The members under which it is written.
pub open spec fn database_members(database: DatabaseModel) -> Members {
    Members::empty().insert(
        "database_id"@,
        Json::Number(Some(database.database_id as u64)),
    ).insert(
        "database_name"@,
        Json::Text(database.database_name),
    )
}

/// Reads the members back.
pub open spec fn database_of(members: Members) -> Result<DatabaseModel, Report> {
    match required_number(members, "database_id"@) {
        Err(e) => Err(e),
        Ok(database_id) => match required_text(members, "database_name"@, "database_name"@) {
            Err(e) => Err(e),
            Ok(database_name) => Ok(DatabaseModel { database_id, database_name }),
        },
    }
}

/// Reads what was stored.
pub open spec fn stored_database(bytes: Seq<u8>) -> Result<DatabaseModel, Report> {
    match stored_members(bytes, "database decode error: "@) {
        Err(e) => Err(e),
        Ok(members) => database_of(members),
    }
}

pub(crate) fn encode_database_catalog(database: &DatabaseCatalog) -> (bytes: Vec<u8>)
    ensures
        bytes@ == object_text(database_members(database@)),
        stored_database(bytes@) == Ok::<DatabaseModel, Report>(database@),
{
    let mut object = new_object();
    add_member(&mut object, "database_id", Field::Number(Some(database.database_id as u64)), Ghost(0));
    add_member(&mut object, "database_name", Field::Text(database.database_name.clone()), Ghost(0));
    proof {
        lemma_database_names();
    }
    write_object(&object).unwrap()
}

pub(crate) fn decode_database_catalog(bytes: &[u8]) -> (result: Result<DatabaseCatalog, UserError>)
    ensures
        match result {
            Ok(entry) => stored_database(bytes@) == Ok::<DatabaseModel, Report>(entry@),
            Err(e) => stored_database(bytes@) == Err::<DatabaseModel, Report>(e@),
        },
{
    let object = match stored_object(bytes, "database decode error: ") {
        Ok(object) => object,
        Err(e) => {
            return Err(e);
        },
    };
    let database_id = match needed_number(&object, "database_id") {
        Ok(value) => value,
        Err(e) => {
            return Err(e);
        },
    };
    let database_name = match needed_text(&object, "database_name", "database_name") {
        Ok(value) => value,
        Err(e) => {
            return Err(e);
        },
    };
    Ok(DatabaseCatalog { database_id, database_name })
}

/// The members under which it is written.
pub open spec fn schema_members(schema: SchemaModel) -> Members {
    Members::empty().insert(
        "schema_id"@,
        Json::Number(Some(schema.schema_id as u64)),
    ).insert(
        "database_id"@,
        Json::Number(Some(schema.database_id as u64)),
    ).insert(
        "schema_name"@,
        Json::Text(schema.schema_name),
    )
}

/// Reads the members back.
pub open spec fn schema_of(members: Members) -> Result<SchemaModel, Report> {
    match required_number(members, "schema_id"@) {
        Err(e) => Err(e),
        Ok(schema_id) => match required_number(members, "database_id"@) {
            Err(e) => Err(e),
            Ok(database_id) => match required_text(members, "schema_name"@, "schema_name"@) {
                Err(e) => Err(e),
                Ok(schema_name) => Ok(SchemaModel { schema_id, database_id, schema_name }),
            },
        },
    }
}

/// Reads what was stored.
pub open spec fn stored_schema(bytes: Seq<u8>) -> Result<SchemaModel, Report> {
    match stored_members(bytes, "schema decode error: "@) {
        Err(e) => Err(e),
        Ok(members) => schema_of(members),
    }
}

pub(crate) fn encode_schema_catalog(schema: &SchemaCatalog) -> (bytes: Vec<u8>)
    ensures
        bytes@ == object_text(schema_members(schema@)),
        stored_schema(bytes@) == Ok::<SchemaModel, Report>(schema@),
{
    let mut object = new_object();
    add_member(&mut object, "schema_id", Field::Number(Some(schema.schema_id as u64)), Ghost(0));
    add_member(&mut object, "database_id", Field::Number(Some(schema.database_id as u64)), Ghost(0));
    add_member(&mut object, "schema_name", Field::Text(schema.schema_name.clone()), Ghost(0));
    proof {
        lemma_schema_names();
    }
    write_object(&object).unwrap()
}

pub(crate) fn decode_schema_catalog(bytes: &[u8]) -> (result: Result<SchemaCatalog, UserError>)
    ensures
        match result {
            Ok(entry) => stored_schema(bytes@) == Ok::<SchemaModel, Report>(entry@),
            Err(e) => stored_schema(bytes@) == Err::<SchemaModel, Report>(e@),
        },
{
    let object = match stored_object(bytes, "schema decode error: ") {
        Ok(object) => object,
        Err(e) => {
            return Err(e);
        },
    };
    let schema_id = match needed_number(&object, "schema_id") {
        Ok(value) => value,
        Err(e) => {
            return Err(e);
        },
    };
    let database_id = match needed_number(&object, "database_id") {
        Ok(value) => value,
        Err(e) => {
            return Err(e);
        },
    };
    let schema_name = match needed_text(&object, "schema_name", "schema_name") {
        Ok(value) => value,
        Err(e) => {
            return Err(e);
        },
    };
    Ok(SchemaCatalog { schema_id, database_id, schema_name })
}

/// The members under which it is written.
pub open spec fn view_members(view: ViewModel) -> Members {
    Members::empty().insert(
        "view_id"@,
        Json::Number(Some(view.view_id as u64)),
    ).insert(
        "database_id"@,
        Json::Number(Some(view.database_id as u64)),
    ).insert(
        "schema_id"@,
        Json::Number(Some(view.schema_id as u64)),
    ).insert(
        "schema_name"@,
        Json::Text(view.schema_name),
    ).insert(
        "view_name"@,
        Json::Text(view.view_name),
    ).insert(
        "definition"@,
        Json::Text(view.definition),
    )
}

/// Reads the members back.
pub open spec fn view_of(members: Members) -> Result<ViewModel, Report> {
    match required_number(members, "view_id"@) {
        Err(e) => Err(e),
        Ok(view_id) => match required_number(members, "database_id"@) {
            Err(e) => Err(e),
            Ok(database_id) => match required_number(members, "schema_id"@) {
                Err(e) => Err(e),
                Ok(schema_id) => match required_text(members, "schema_name"@, "schema_name"@) {
                    Err(e) => Err(e),
                    Ok(schema_name) => match required_text(members, "view_name"@, "view_name"@) {
                        Err(e) => Err(e),
                        Ok(view_name) => match required_text(members, "definition"@, "view definition"@) {
                            Err(e) => Err(e),
                            Ok(definition) => Ok(ViewModel { view_id, database_id, schema_id, schema_name, view_name, definition }),
                        },
                    },
                },
            },
        },
    }
}

/// Reads what was stored.
pub open spec fn stored_view(bytes: Seq<u8>) -> Result<ViewModel, Report> {
    match stored_members(bytes, "view decode error: "@) {
        Err(e) => Err(e),
        Ok(members) => view_of(members),
    }
}

pub(crate) fn encode_view_catalog(view: &ViewCatalog) -> (bytes: Vec<u8>)
    ensures
        bytes@ == object_text(view_members(view@)),
        stored_view(bytes@) == Ok::<ViewModel, Report>(view@),
{
    let mut object = new_object();
    add_member(&mut object, "view_id", Field::Number(Some(view.view_id as u64)), Ghost(0));
    add_member(&mut object, "database_id", Field::Number(Some(view.database_id as u64)), Ghost(0));
    add_member(&mut object, "schema_id", Field::Number(Some(view.schema_id as u64)), Ghost(0));
    add_member(&mut object, "schema_name", Field::Text(view.schema_name.clone()), Ghost(0));
    add_member(&mut object, "view_name", Field::Text(view.view_name.clone()), Ghost(0));
    add_member(&mut object, "definition", Field::Text(view.definition.clone()), Ghost(0));
    proof {
        lemma_view_names();
    }
    write_object(&object).unwrap()
}

pub(crate) fn decode_view_catalog(bytes: &[u8]) -> (result: Result<ViewCatalog, UserError>)
    ensures
        match result {
            Ok(entry) => stored_view(bytes@) == Ok::<ViewModel, Report>(entry@),
            Err(e) => stored_view(bytes@) == Err::<ViewModel, Report>(e@),
        },
{
    let object = match stored_object(bytes, "view decode error: ") {
        Ok(object) => object,
        Err(e) => {
            return Err(e);
        },
    };
    let view_id = match needed_number(&object, "view_id") {
        Ok(value) => value,
        Err(e) => {
            return Err(e);
        },
    };
    let database_id = match needed_number(&object, "database_id") {
        Ok(value) => value,
        Err(e) => {
            return Err(e);
        },
    };
    let schema_id = match needed_number(&object, "schema_id") {
        Ok(value) => value,
        Err(e) => {
            return Err(e);
        },
    };
    let schema_name = match needed_text(&object, "schema_name", "schema_name") {
        Ok(value) => value,
        Err(e) => {
            return Err(e);
        },
    };
    let view_name = match needed_text(&object, "view_name", "view_name") {
        Ok(value) => value,
        Err(e) => {
            return Err(e);
        },
    };
    let definition = match needed_text(&object, "definition", "view definition") {
        Ok(value) => value,
        Err(e) => {
            return Err(e);
        },
    };
    Ok(ViewCatalog { view_id, database_id, schema_id, schema_name, view_name, definition })
}

/// The members under which a check constraint is written.
pub open spec fn check_members(check: CheckModel) -> Members {
    Members::empty().insert("name"@, Json::Text(check.name)).insert("expr"@, Json::Text(check.expr))
}

/// The members under which a unique constraint is written.
pub open spec fn unique_members(unique: UniqueModel) -> Members {
    Members::empty().insert("name"@, Json::Text(unique.name)).insert(
        "columns"@,
        Json::List(text_items(unique.columns)),
    ).insert("primary_key"@, Json::Flag(unique.primary_key))
}

/// The members under which a foreign key is written.
pub open spec fn foreign_key_members(key: ForeignKeyModel) -> Members {
    Members::empty().insert("name"@, Json::Text(key.name)).insert(
        "columns"@,
        Json::List(text_items(key.columns)),
    ).insert("foreign_table"@, Json::Text(key.foreign_table)).insert(
        "referred_columns"@,
        Json::List(text_items(key.referred_columns)),
    )
}

/// The members under which a column is written.
pub open spec fn column_members(column: ColumnModel) -> Members {
    Members::empty().insert("column_id"@, Json::Number(Some(column.column_id as u64))).insert(
        "name"@,
        Json::Text(column.name),
    ).insert("data_type"@, Json::Text(column.data_type)).insert(
        "primary_key"@,
        Json::Flag(column.primary_key),
    ).insert("nullable"@, Json::Flag(column.nullable)).insert(
        "default"@,
        optional_text(column.default),
    ).insert("on_update"@, optional_text(column.on_update)).insert(
        "character_set"@,
        optional_text(column.character_set),
    ).insert("collation"@, optional_text(column.collation))
}

/// The check constraints as a list of objects.
pub open spec fn check_items(checks: Seq<CheckModel>) -> Seq<JsonItem> {
    checks.map_values(|check: CheckModel| JsonItem::Object(check_members(check)))
}

/// The unique constraints as a list of objects.
pub open spec fn unique_items(uniques: Seq<UniqueModel>) -> Seq<JsonItem> {
    uniques.map_values(|unique: UniqueModel| JsonItem::Object(unique_members(unique)))
}

/// The foreign keys as a list of objects.
pub open spec fn foreign_key_items(keys: Seq<ForeignKeyModel>) -> Seq<JsonItem> {
    keys.map_values(|key: ForeignKeyModel| JsonItem::Object(foreign_key_members(key)))
}

/// The columns as a list of objects.
pub open spec fn column_items(columns: Seq<ColumnModel>) -> Seq<JsonItem> {
    columns.map_values(|column: ColumnModel| JsonItem::Object(column_members(column)))
}

/// The members under which a table's descriptor is written, behind those given.
pub open spec fn descriptor_members(
    before: Members,
    table_name: Seq<char>,
    table: TableModel,
) -> Members {
    before.insert("table_name"@, Json::Text(table_name)).insert(
        "table_id"@,
        Json::Number(Some(table.table_id as u64)),
    ).insert("schema_version"@, Json::Number(Some(table.schema_version as u64))).insert(
        "table_epoch"@,
        Json::Number(Some(table.table_epoch)),
    ).insert("primary_key"@, Json::Text(table.primary_key)).insert(
        "check_constraints"@,
        Json::List(check_items(table.check_constraints)),
    ).insert("unique_constraints"@, Json::List(unique_items(table.unique_constraints))).insert(
        "foreign_keys"@,
        Json::List(foreign_key_items(table.foreign_keys)),
    ).insert("columns"@, Json::List(column_items(table.columns)))
}

/// The members under which a table is written.
pub open spec fn table_members(table: TableEntry) -> Members {
    descriptor_members(
        Members::empty().insert("database_id"@, Json::Number(Some(table.database_id as u64))).insert(
            "schema_id"@,
            Json::Number(Some(table.schema_id as u64)),
        ).insert("schema_name"@, Json::Text(table.schema_name)),
        table.table_name,
        table.schema,
    )
}

/// The members under which a descriptor alone is written.
pub open spec fn legacy_members(table: TableModel) -> Members {
    descriptor_members(Members::empty(), table.table_name, table)
}

/// Whether a text is the catalog code of a type.
pub open spec fn is_type_code(code: Seq<char>) -> bool {
    exists|data_type: DataType| #[trigger] type_code(data_type) == code
}

/// A number of 32 bits, `default` without one.
pub open spec fn number_or(members: Members, name: Seq<char>, default: u32) -> u32 {
    match number_at(members, name) {
        Some(n) => low32(n),
        None => default,
    }
}

/// A text, `default` without one.
pub open spec fn text_or(members: Members, name: Seq<char>, default: Seq<char>) -> Seq<char> {
    match text_at(members, name) {
        Some(text) => text,
        None => default,
    }
}

/// Reads a column.
pub open spec fn column_of(item: JsonItem) -> Result<ColumnModel, Report> {
    let members = item_members(item);
    match required_text(members, "name"@, "column name"@) {
        Err(e) => Err(e),
        Ok(name) => match required_text(members, "data_type"@, "column data_type"@) {
            Err(e) => Err(e),
            Ok(code) => if !is_type_code(code) {
                Err(malformed("column data_type"@))
            } else {
                Ok(
                    ColumnModel {
                        column_id: number_or(members, "column_id"@, 0),
                        name,
                        data_type: code,
                        primary_key: flag_at(members, "primary_key"@, false),
                        nullable: flag_at(members, "nullable"@, true),
                        default: text_at(members, "default"@),
                        on_update: text_at(members, "on_update"@),
                        character_set: text_at(members, "character_set"@),
                        collation: text_at(members, "collation"@),
                    },
                )
            },
        },
    }
}

/// Reads a check constraint.
pub open spec fn check_of(item: JsonItem) -> Result<CheckModel, Report> {
    let members = item_members(item);
    match required_text(members, "expr"@, "check constraint"@) {
        Err(e) => Err(e),
        Ok(expr) => Ok(CheckModel { name: text_or(members, "name"@, ""@), expr }),
    }
}

/// Reads a unique constraint.
pub open spec fn unique_of(item: JsonItem) -> Result<UniqueModel, Report> {
    let members = item_members(item);
    match texts_at(members, "columns"@, "unique constraint columns"@) {
        Err(e) => Err(e),
        Ok(columns) => Ok(
            UniqueModel {
                name: text_or(members, "name"@, ""@),
                columns,
                primary_key: flag_at(members, "primary_key"@, false),
            },
        ),
    }
}

/// Reads a foreign key.
pub open spec fn foreign_key_of(item: JsonItem) -> Result<ForeignKeyModel, Report> {
    let members = item_members(item);
    match texts_at(members, "columns"@, "foreign key columns"@) {
        Err(e) => Err(e),
        Ok(columns) => match required_text(members, "foreign_table"@, "foreign key"@) {
            Err(e) => Err(e),
            Ok(foreign_table) => match texts_at(
                members,
                "referred_columns"@,
                "foreign key referred columns"@,
            ) {
                Err(e) => Err(e),
                Ok(referred_columns) => Ok(
                    ForeignKeyModel {
                        name: text_or(members, "name"@, ""@),
                        columns,
                        foreign_table,
                        referred_columns,
                    },
                ),
            },
        },
    }
}

/// Reads items as columns.
pub open spec fn column_reader() -> spec_fn(JsonItem) -> Result<ColumnModel, Report> {
    |item: JsonItem| column_of(item)
}

/// Reads items as check constraints.
pub open spec fn check_reader() -> spec_fn(JsonItem) -> Result<CheckModel, Report> {
    |item: JsonItem| check_of(item)
}

/// Reads items as unique constraints.
pub open spec fn unique_reader() -> spec_fn(JsonItem) -> Result<UniqueModel, Report> {
    |item: JsonItem| unique_of(item)
}

/// Reads items as foreign keys.
pub open spec fn foreign_key_reader() -> spec_fn(JsonItem) -> Result<ForeignKeyModel, Report> {
    |item: JsonItem| foreign_key_of(item)
}

/// Reads the items of a list member; without the list there are none.
pub open spec fn items_or_none<T>(
    members: Members,
    name: Seq<char>,
    reader: spec_fn(JsonItem) -> Result<T, Report>,
) -> Result<Seq<T>, Report> {
    match list_at(members, name) {
        Some(items) => read_all(items, reader, seq![]),
        None => Ok(seq![]),
    }
}

/// Reads the columns of a table, which have to be there.
pub open spec fn columns_of(members: Members) -> Result<Seq<ColumnModel>, Report> {
    match list_at(members, "columns"@) {
        Some(items) => read_all(items, column_reader(), seq![]),
        None => Err(internal("catalog columns are malformed"@)),
    }
}

/// Reads a table; what a descriptor alone leaves out is the default schema of the first
/// database.
pub open spec fn table_of(members: Members) -> Result<TableEntry, Report> {
    match required_text(members, "table_name"@, "table_name"@) {
        Err(e) => Err(e),
        Ok(table_name) => match required_number(members, "table_id"@) {
            Err(e) => Err(e),
            Ok(table_id) => match required_text(members, "primary_key"@, "primary_key"@) {
                Err(e) => Err(e),
                Ok(primary_key) => match columns_of(members) {
                    Err(e) => Err(e),
                    Ok(columns) => match items_or_none(
                        members,
                        "check_constraints"@,
                        check_reader(),
                    ) {
                        Err(e) => Err(e),
                        Ok(check_constraints) => match items_or_none(
                            members,
                            "unique_constraints"@,
                            unique_reader(),
                        ) {
                            Err(e) => Err(e),
                            Ok(unique_constraints) => match items_or_none(
                                members,
                                "foreign_keys"@,
                                foreign_key_reader(),
                            ) {
                                Err(e) => Err(e),
                                Ok(foreign_keys) => Ok(
                                    TableEntry {
                                        database_id: number_or(members, "database_id"@, 1),
                                        schema_id: number_or(members, "schema_id"@, 1),
                                        schema_name: text_or(members, "schema_name"@, "public"@),
                                        table_name,
                                        schema: normalized(
                                            TableModel {
                                                table_name,
                                                table_id,
                                                schema_version: number_or(
                                                    members,
                                                    "schema_version"@,
                                                    1,
                                                ),
                                                table_epoch: match number_at(
                                                    members,
                                                    "table_epoch"@,
                                                ) {
                                                    Some(n) => n,
                                                    None => 1,
                                                },
                                                primary_key,
                                                check_constraints,
                                                unique_constraints,
                                                foreign_keys,
                                                columns,
                                            },
                                        ),
                                    },
                                ),
                            },
                        },
                    },
                },
            },
        },
    }
}

/// Reads a stored table.
pub open spec fn stored_table(bytes: Seq<u8>) -> Result<TableEntry, Report> {
    match stored_members(bytes, "table decode error: "@) {
        Err(e) => Err(e),
        Ok(members) => table_of(members),
    }
}

fn column_object(column: &ColumnSchema) -> (object: serde_json::Map<String, serde_json::Value>)
    ensures
        object_members(object) == column_members(column@),
        plain(object_members(object), 0),
{
    let mut object = new_object();
    add_member(
        &mut object,
        "column_id",
        Field::Number(Some(column.column_id as u64)),
        Ghost(0),
    );
    add_member(&mut object, "name", Field::Text(column.name.clone()), Ghost(0));
    add_member(&mut object, "data_type", Field::Text(column.data_type.to_str()), Ghost(0));
    add_member(&mut object, "primary_key", Field::Flag(column.primary_key), Ghost(0));
    add_member(&mut object, "nullable", Field::Flag(column.nullable), Ghost(0));
    add_member(&mut object, "default", optional_field(&column.default), Ghost(0));
    add_member(&mut object, "on_update", optional_field(&column.on_update), Ghost(0));
    add_member(&mut object, "character_set", optional_field(&column.character_set), Ghost(0));
    add_member(&mut object, "collation", optional_field(&column.collation), Ghost(0));
    object
}

fn check_object(check: &CheckConstraintSchema) -> (object: serde_json::Map<
    String,
    serde_json::Value,
>)
    ensures
        object_members(object) == check_members(check@),
        plain(object_members(object), 0),
{
    let mut object = new_object();
    add_member(&mut object, "name", Field::Text(check.name.clone()), Ghost(0));
    add_member(&mut object, "expr", Field::Text(check.expr.clone()), Ghost(0));
    object
}

fn unique_object(unique: &UniqueConstraintSchema) -> (object: serde_json::Map<
    String,
    serde_json::Value,
>)
    ensures
        object_members(object) == unique_members(unique@),
        plain(object_members(object), 0),
{
    let mut object = new_object();
    add_member(&mut object, "name", Field::Text(unique.name.clone()), Ghost(0));
    add_member(&mut object, "columns", texts_field(&unique.columns), Ghost(0));
    add_member(&mut object, "primary_key", Field::Flag(unique.primary_key), Ghost(0));
    object
}

fn foreign_key_object(key: &ForeignKeyConstraintSchema) -> (object: serde_json::Map<
    String,
    serde_json::Value,
>)
    ensures
        object_members(object) == foreign_key_members(key@),
        plain(object_members(object), 0),
{
    let mut object = new_object();
    add_member(&mut object, "name", Field::Text(key.name.clone()), Ghost(0));
    add_member(&mut object, "columns", texts_field(&key.columns), Ghost(0));
    add_member(&mut object, "foreign_table", Field::Text(key.foreign_table.clone()), Ghost(0));
    add_member(&mut object, "referred_columns", texts_field(&key.referred_columns), Ghost(0));
    object
}

fn columns_field(columns: &Vec<ColumnSchema>) -> (field: Field)
    ensures
        field_view(field) == Json::List(column_items(views(columns@))),
        plain_json(field_view(field), 1),
{
    let mut items: Vec<Item> = Vec::new();
    let mut i: usize = 0;
    while i < columns.len()
        invariant
            i <= columns@.len(),
            items@.len() == i,
            forall|k: int|
                0 <= k < i ==> item_view(#[trigger] items@[k]) == JsonItem::Object(
                    column_members(columns@[k]@),
                ) && plain_item(item_view(items@[k]), 1),
        decreases columns@.len() - i,
    {
        items.push(Item::Object(column_object(&columns[i])));
        i += 1;
    }
    assert(items_view(items@) =~= column_items(views(columns@)));
    assert(forall|k: int|
        0 <= k < items@.len() ==> #[trigger] items_view(items@)[k] == item_view(items@[k]));
    Field::List(items)
}

fn checks_field(checks: &Vec<CheckConstraintSchema>) -> (field: Field)
    ensures
        field_view(field) == Json::List(check_items(views(checks@))),
        plain_json(field_view(field), 1),
{
    let mut items: Vec<Item> = Vec::new();
    let mut i: usize = 0;
    while i < checks.len()
        invariant
            i <= checks@.len(),
            items@.len() == i,
            forall|k: int|
                0 <= k < i ==> item_view(#[trigger] items@[k]) == JsonItem::Object(
                    check_members(checks@[k]@),
                ) && plain_item(item_view(items@[k]), 1),
        decreases checks@.len() - i,
    {
        items.push(Item::Object(check_object(&checks[i])));
        i += 1;
    }
    assert(items_view(items@) =~= check_items(views(checks@)));
    assert(forall|k: int|
        0 <= k < items@.len() ==> #[trigger] items_view(items@)[k] == item_view(items@[k]));
    Field::List(items)
}

fn uniques_field(uniques: &Vec<UniqueConstraintSchema>) -> (field: Field)
    ensures
        field_view(field) == Json::List(unique_items(views(uniques@))),
        plain_json(field_view(field), 1),
{
    let mut items: Vec<Item> = Vec::new();
    let mut i: usize = 0;
    while i < uniques.len()
        invariant
            i <= uniques@.len(),
            items@.len() == i,
            forall|k: int|
                0 <= k < i ==> item_view(#[trigger] items@[k]) == JsonItem::Object(
                    unique_members(uniques@[k]@),
                ) && plain_item(item_view(items@[k]), 1),
        decreases uniques@.len() - i,
    {
        items.push(Item::Object(unique_object(&uniques[i])));
        i += 1;
    }
    assert(items_view(items@) =~= unique_items(views(uniques@)));
    assert(forall|k: int|
        0 <= k < items@.len() ==> #[trigger] items_view(items@)[k] == item_view(items@[k]));
    Field::List(items)
}

fn foreign_keys_field(keys: &Vec<ForeignKeyConstraintSchema>) -> (field: Field)
    ensures
        field_view(field) == Json::List(foreign_key_items(views(keys@))),
        plain_json(field_view(field), 1),
{
    let mut items: Vec<Item> = Vec::new();
    let mut i: usize = 0;
    while i < keys.len()
        invariant
            i <= keys@.len(),
            items@.len() == i,
            forall|k: int|
                0 <= k < i ==> item_view(#[trigger] items@[k]) == JsonItem::Object(
                    foreign_key_members(keys@[k]@),
                ) && plain_item(item_view(items@[k]), 1),
        decreases keys@.len() - i,
    {
        items.push(Item::Object(foreign_key_object(&keys[i])));
        i += 1;
    }
    assert(items_view(items@) =~= foreign_key_items(views(keys@)));
    assert(forall|k: int|
        0 <= k < items@.len() ==> #[trigger] items_view(items@)[k] == item_view(items@[k]));
    Field::List(items)
}

fn add_descriptor(
    object: &mut serde_json::Map<String, serde_json::Value>,
    table_name: &String,
    table: &TableSchema,
)
    requires
        plain(object_members(*old(object)), 1),
    ensures
        object_members(*final(object)) == descriptor_members(
            object_members(*old(object)),
            table_name@,
            table@,
        ),
        plain(object_members(*final(object)), 1),
{
    add_member(object, "table_name", Field::Text(table_name.clone()), Ghost(1));
    add_member(object, "table_id", Field::Number(Some(table.table_id as u64)), Ghost(1));
    add_member(
        object,
        "schema_version",
        Field::Number(Some(table.schema_version as u64)),
        Ghost(1),
    );
    add_member(object, "table_epoch", Field::Number(Some(table.table_epoch)), Ghost(1));
    add_member(object, "primary_key", Field::Text(table.primary_key.clone()), Ghost(1));
    add_member(object, "check_constraints", checks_field(&table.check_constraints), Ghost(1));
    add_member(object, "unique_constraints", uniques_field(&table.unique_constraints), Ghost(1));
    add_member(object, "foreign_keys", foreign_keys_field(&table.foreign_keys), Ghost(1));
    add_member(object, "columns", columns_field(&table.columns), Ghost(1));
}

proof fn lemma_text_items(texts: Seq<Seq<char>>, what: Seq<char>)
    ensures
        read_all(text_items(texts), text_reader(what), seq![]) == Ok::<Seq<Seq<char>>, Report>(
            texts,
        ),
{
    lemma_read_all(text_items(texts), text_reader(what), seq![], texts);
    assert(Seq::<Seq<char>>::empty() + texts =~= texts);
}

proof fn lemma_column_roundtrip(column: ColumnModel)
    requires
        is_type_code(column.data_type),
    ensures
        column_of(JsonItem::Object(column_members(column))) == Ok::<ColumnModel, Report>(column),
{
    lemma_column_names();
}

proof fn lemma_descriptor_roundtrip(before: Members, table: TableModel)
    requires
        forall|i: int| 0 <= i < table.columns.len() ==> is_type_code((#[trigger] table.columns[i]).data_type),
    ensures
        table_of(descriptor_members(before, table.table_name, table)) == Ok::<TableEntry, Report>(
            TableEntry {
                database_id: number_or(before, "database_id"@, 1),
                schema_id: number_or(before, "schema_id"@, 1),
                schema_name: text_or(before, "schema_name"@, "public"@),
                table_name: table.table_name,
                schema: normalized(table),
            },
        ),
{
    lemma_table_names();
    let members = descriptor_members(before, table.table_name, table);
    assert forall|i: int| 0 <= i < table.columns.len() implies column_reader()(
        #[trigger] column_items(table.columns)[i],
    ) == Ok::<ColumnModel, Report>(table.columns[i]) by {
        lemma_column_roundtrip(table.columns[i]);
    }
    lemma_read_all(column_items(table.columns), column_reader(), seq![], table.columns);
    assert(Seq::<ColumnModel>::empty() + table.columns =~= table.columns);
    assert forall|i: int| 0 <= i < table.check_constraints.len() implies check_reader()(
        #[trigger] check_items(table.check_constraints)[i],
    ) == Ok::<CheckModel, Report>(table.check_constraints[i]) by {
        lemma_check_names();
    }
    lemma_read_all(
        check_items(table.check_constraints),
        check_reader(),
        seq![],
        table.check_constraints,
    );
    assert(Seq::<CheckModel>::empty() + table.check_constraints =~= table.check_constraints);
    assert forall|i: int| 0 <= i < table.unique_constraints.len() implies unique_reader()(
        #[trigger] unique_items(table.unique_constraints)[i],
    ) == Ok::<UniqueModel, Report>(table.unique_constraints[i]) by {
        lemma_unique_names();
        lemma_text_items(table.unique_constraints[i].columns, "unique constraint columns"@);
    }
    lemma_read_all(
        unique_items(table.unique_constraints),
        unique_reader(),
        seq![],
        table.unique_constraints,
    );
    assert(Seq::<UniqueModel>::empty() + table.unique_constraints =~= table.unique_constraints);
    assert forall|i: int| 0 <= i < table.foreign_keys.len() implies foreign_key_reader()(
        #[trigger] foreign_key_items(table.foreign_keys)[i],
    ) == Ok::<ForeignKeyModel, Report>(table.foreign_keys[i]) by {
        lemma_foreign_names();
        lemma_text_items(table.foreign_keys[i].columns, "foreign key columns"@);
        lemma_text_items(
            table.foreign_keys[i].referred_columns,
            "foreign key referred columns"@,
        );
    }
    lemma_read_all(
        foreign_key_items(table.foreign_keys),
        foreign_key_reader(),
        seq![],
        table.foreign_keys,
    );
    assert(Seq::<ForeignKeyModel>::empty() + table.foreign_keys =~= table.foreign_keys);
}

proof fn lemma_columns_have_codes(table: &TableSchema)
    ensures
        forall|i: int|
            0 <= i < table@.columns.len() ==> is_type_code(
                (#[trigger] table@.columns[i]).data_type,
            ),
{
    assert forall|i: int| 0 <= i < table@.columns.len() implies is_type_code(
        (#[trigger] table@.columns[i]).data_type,
    ) by {
        assert(type_code(table.columns@[i].data_type) == table@.columns[i].data_type);
    }
}

pub(crate) fn encode_table_catalog(table: &TableCatalog) -> (bytes: Vec<u8>)
    ensures
        bytes@ == object_text(table_members(table@)),
        table@.table_name == table@.schema.table_name ==> stored_table(bytes@) == Ok::<
            TableEntry,
            Report,
        >(TableEntry { schema: normalized(table@.schema), ..table@ }),
{
    let mut object = new_object();
    add_member(
        &mut object,
        "database_id",
        Field::Number(Some(table.database_id as u64)),
        Ghost(1),
    );
    add_member(&mut object, "schema_id", Field::Number(Some(table.schema_id as u64)), Ghost(1));
    add_member(&mut object, "schema_name", Field::Text(table.schema_name.clone()), Ghost(1));
    let ghost before = object_members(object);
    add_descriptor(&mut object, &table.table_name, &table.schema);
    proof {
        lemma_table_names();
        lemma_columns_have_codes(&table.schema);
        lemma_descriptor_roundtrip(before, table@.schema);
        lemma_plain_more(object_members(object));
    }
    write_object(&object).unwrap()
}

pub(crate) fn encode_legacy_table_schema(table: &TableSchema) -> (bytes: Vec<u8>)
    ensures
        bytes@ == object_text(legacy_members(table@)),
        stored_table(bytes@) == Ok::<TableEntry, Report>(
            TableEntry {
                database_id: 1,
                schema_id: 1,
                schema_name: "public"@,
                table_name: table@.table_name,
                schema: normalized(table@),
            },
        ),
{
    let mut object = new_object();
    add_descriptor(&mut object, &table.table_name, table);
    proof {
        lemma_columns_have_codes(table);
        lemma_descriptor_roundtrip(Members::empty(), table@);
        lemma_plain_more(object_members(object));
    }
    write_object(&object).unwrap()
}

proof fn lemma_plain_more(members: Members)
    requires
        plain(members, 1),
    ensures
        plain(members, 2),
{
    assert forall|n: Seq<char>| #[trigger] members.dom().contains(n) implies plain_json(
        members[n],
        2,
    ) by {
        lemma_plain_deeper(members[n], 1, 2);
    }
}

fn parse_column_schema(item: Item) -> (result: Result<ColumnSchema, UserError>)
    ensures
        match result {
            Ok(column) => column_of(item_view(item)) == Ok::<ColumnModel, Report>(column@),
            Err(e) => column_of(item_view(item)) == Err::<ColumnModel, Report>(e@),
        },
{
    let object = object_of(item);
    let name = match needed_text(&object, "name", "column name") {
        Ok(name) => name,
        Err(e) => {
            return Err(e);
        },
    };
    let code = match needed_text(&object, "data_type", "column data_type") {
        Ok(code) => code,
        Err(e) => {
            return Err(e);
        },
    };
    let letters = chars_of(code.as_str());
    let data_type = match DataType::from_code(letters.as_slice()) {
        Some(data_type) => data_type,
        None => {
            return Err(malformed_error("column data_type"));
        },
    };
    assert(is_type_code(code@));
    Ok(
        ColumnSchema {
            column_id: short_number(&object, "column_id", 0),
            name,
            data_type,
            primary_key: flag(&object, "primary_key", false),
            nullable: flag(&object, "nullable", true),
            default: text(&object, "default"),
            on_update: text(&object, "on_update"),
            character_set: text(&object, "character_set"),
            collation: text(&object, "collation"),
        },
    )
}

fn short_number(
    object: &serde_json::Map<String, serde_json::Value>,
    name: &str,
    default: u32,
) -> (result: u32)
    ensures
        result == number_or(object_members(*object), name@, default),
{
    match number(object, name) {
        Some(n) => truncated32(n),
        None => default,
    }
}

fn text_with_default(
    object: &serde_json::Map<String, serde_json::Value>,
    name: &str,
    default: &str,
) -> (result: String)
    ensures
        result@ == text_or(object_members(*object), name@, default@),
{
    match text(object, name) {
        Some(text) => text,
        None => default.to_string(),
    }
}

fn parse_check(item: Item) -> (result: Result<CheckConstraintSchema, UserError>)
    ensures
        match result {
            Ok(check) => check_of(item_view(item)) == Ok::<CheckModel, Report>(check@),
            Err(e) => check_of(item_view(item)) == Err::<CheckModel, Report>(e@),
        },
{
    let object = object_of(item);
    match needed_text(&object, "expr", "check constraint") {
        Err(e) => Err(e),
        Ok(expr) => Ok(
            CheckConstraintSchema { name: text_with_default(&object, "name", ""), expr },
        ),
    }
}

fn parse_unique(item: Item) -> (result: Result<UniqueConstraintSchema, UserError>)
    ensures
        match result {
            Ok(unique) => unique_of(item_view(item)) == Ok::<UniqueModel, Report>(unique@),
            Err(e) => unique_of(item_view(item)) == Err::<UniqueModel, Report>(e@),
        },
{
    let object = object_of(item);
    match parse_string_array(&object, "columns", "unique constraint columns") {
        Err(e) => Err(e),
        Ok(columns) => Ok(
            UniqueConstraintSchema {
                name: text_with_default(&object, "name", ""),
                columns,
                primary_key: flag(&object, "primary_key", false),
            },
        ),
    }
}

fn parse_foreign_key(item: Item) -> (result: Result<ForeignKeyConstraintSchema, UserError>)
    ensures
        match result {
            Ok(key) => foreign_key_of(item_view(item)) == Ok::<ForeignKeyModel, Report>(key@),
            Err(e) => foreign_key_of(item_view(item)) == Err::<ForeignKeyModel, Report>(e@),
        },
{
    let object = object_of(item);
    let columns = match parse_string_array(&object, "columns", "foreign key columns") {
        Err(e) => {
            return Err(e);
        },
        Ok(columns) => columns,
    };
    let foreign_table = match needed_text(&object, "foreign_table", "foreign key") {
        Err(e) => {
            return Err(e);
        },
        Ok(foreign_table) => foreign_table,
    };
    match parse_string_array(&object, "referred_columns", "foreign key referred columns") {
        Err(e) => Err(e),
        Ok(referred_columns) => Ok(
            ForeignKeyConstraintSchema {
                name: text_with_default(&object, "name", ""),
                columns,
                foreign_table,
                referred_columns,
            },
        ),
    }
}

spec fn seen_columns(result: Result<Vec<ColumnSchema>, UserError>) -> Result<Seq<ColumnModel>, Report> {
    match result {
        Ok(items) => Ok(views(items@)),
        Err(error) => Err(error@),
    }
}

fn read_columns(items: Vec<Item>) -> (result: Result<Vec<ColumnSchema>, UserError>)
    ensures
        seen_columns(result) == read_all(items_view(items@), column_reader(), seq![]),
{
    let ghost all = items_view(items@);
    let mut waiting = items;
    let mut done: Vec<ColumnSchema> = Vec::new();
    assert(all.skip(0) =~= all);
    assert(views(done@) =~= seq![]);
    while waiting.len() > 0
        invariant
            all == items_view(items@),
            waiting@.len() <= all.len(),
            items_view(waiting@) == all.skip(all.len() - waiting@.len()),
            read_all(all, column_reader(), seq![]) == read_all(
                items_view(waiting@),
                column_reader(),
                views(done@),
            ),
        decreases waiting@.len(),
    {
        let ghost before = items_view(waiting@);
        let ghost so_far = views(done@);
        let item = waiting.remove(0);
        assert(items_view(waiting@) =~= before.skip(1));
        assert(before[0] == item_view(item));
        assert(items_view(waiting@) =~= all.skip(all.len() - waiting@.len()));
        match parse_column_schema(item) {
            Ok(value) => {
                done.push(value);
                assert(views(done@) =~= so_far.push(value@));
            },
            Err(e) => {
                return Err(e);
            },
        }
    }
    Ok(done)
}

spec fn seen_checks(result: Result<Vec<CheckConstraintSchema>, UserError>) -> Result<Seq<CheckModel>, Report> {
    match result {
        Ok(items) => Ok(views(items@)),
        Err(error) => Err(error@),
    }
}

fn read_checks(items: Vec<Item>) -> (result: Result<Vec<CheckConstraintSchema>, UserError>)
    ensures
        seen_checks(result) == read_all(items_view(items@), check_reader(), seq![]),
{
    let ghost all = items_view(items@);
    let mut waiting = items;
    let mut done: Vec<CheckConstraintSchema> = Vec::new();
    assert(all.skip(0) =~= all);
    assert(views(done@) =~= seq![]);
    while waiting.len() > 0
        invariant
            all == items_view(items@),
            waiting@.len() <= all.len(),
            items_view(waiting@) == all.skip(all.len() - waiting@.len()),
            read_all(all, check_reader(), seq![]) == read_all(
                items_view(waiting@),
                check_reader(),
                views(done@),
            ),
        decreases waiting@.len(),
    {
        let ghost before = items_view(waiting@);
        let ghost so_far = views(done@);
        let item = waiting.remove(0);
        assert(items_view(waiting@) =~= before.skip(1));
        assert(before[0] == item_view(item));
        assert(items_view(waiting@) =~= all.skip(all.len() - waiting@.len()));
        match parse_check(item) {
            Ok(value) => {
                done.push(value);
                assert(views(done@) =~= so_far.push(value@));
            },
            Err(e) => {
                return Err(e);
            },
        }
    }
    Ok(done)
}

spec fn seen_uniques(result: Result<Vec<UniqueConstraintSchema>, UserError>) -> Result<Seq<UniqueModel>, Report> {
    match result {
        Ok(items) => Ok(views(items@)),
        Err(error) => Err(error@),
    }
}

fn read_uniques(items: Vec<Item>) -> (result: Result<Vec<UniqueConstraintSchema>, UserError>)
    ensures
        seen_uniques(result) == read_all(items_view(items@), unique_reader(), seq![]),
{
    let ghost all = items_view(items@);
    let mut waiting = items;
    let mut done: Vec<UniqueConstraintSchema> = Vec::new();
    assert(all.skip(0) =~= all);
    assert(views(done@) =~= seq![]);
    while waiting.len() > 0
        invariant
            all == items_view(items@),
            waiting@.len() <= all.len(),
            items_view(waiting@) == all.skip(all.len() - waiting@.len()),
            read_all(all, unique_reader(), seq![]) == read_all(
                items_view(waiting@),
                unique_reader(),
                views(done@),
            ),
        decreases waiting@.len(),
    {
        let ghost before = items_view(waiting@);
        let ghost so_far = views(done@);
        let item = waiting.remove(0);
        assert(items_view(waiting@) =~= before.skip(1));
        assert(before[0] == item_view(item));
        assert(items_view(waiting@) =~= all.skip(all.len() - waiting@.len()));
        match parse_unique(item) {
            Ok(value) => {
                done.push(value);
                assert(views(done@) =~= so_far.push(value@));
            },
            Err(e) => {
                return Err(e);
            },
        }
    }
    Ok(done)
}

spec fn seen_foreign_keys(result: Result<Vec<ForeignKeyConstraintSchema>, UserError>) -> Result<Seq<ForeignKeyModel>, Report> {
    match result {
        Ok(items) => Ok(views(items@)),
        Err(error) => Err(error@),
    }
}

fn read_foreign_keys(items: Vec<Item>) -> (result: Result<Vec<ForeignKeyConstraintSchema>, UserError>)
    ensures
        seen_foreign_keys(result) == read_all(items_view(items@), foreign_key_reader(), seq![]),
{
    let ghost all = items_view(items@);
    let mut waiting = items;
    let mut done: Vec<ForeignKeyConstraintSchema> = Vec::new();
    assert(all.skip(0) =~= all);
    assert(views(done@) =~= seq![]);
    while waiting.len() > 0
        invariant
            all == items_view(items@),
            waiting@.len() <= all.len(),
            items_view(waiting@) == all.skip(all.len() - waiting@.len()),
            read_all(all, foreign_key_reader(), seq![]) == read_all(
                items_view(waiting@),
                foreign_key_reader(),
                views(done@),
            ),
        decreases waiting@.len(),
    {
        let ghost before = items_view(waiting@);
        let ghost so_far = views(done@);
        let item = waiting.remove(0);
        assert(items_view(waiting@) =~= before.skip(1));
        assert(before[0] == item_view(item));
        assert(items_view(waiting@) =~= all.skip(all.len() - waiting@.len()));
        match parse_foreign_key(item) {
            Ok(value) => {
                done.push(value);
                assert(views(done@) =~= so_far.push(value@));
            },
            Err(e) => {
                return Err(e);
            },
        }
    }
    Ok(done)
}

fn parse_check_constraints(object: &serde_json::Map<String, serde_json::Value>) -> (result: Result<
    Vec<CheckConstraintSchema>,
    UserError,
>)
    ensures
        seen_checks(result) == items_or_none(
            object_members(*object),
            "check_constraints"@,
            check_reader(),
        ),
{
    match list(object, "check_constraints") {
        Some(items) => read_checks(items),
        None => {
            let none: Vec<CheckConstraintSchema> = Vec::new();
            assert(views(none@) =~= seq![]);
            Ok(none)
        },
    }
}

fn parse_unique_constraints(object: &serde_json::Map<String, serde_json::Value>) -> (result: Result<
    Vec<UniqueConstraintSchema>,
    UserError,
>)
    ensures
        seen_uniques(result) == items_or_none(
            object_members(*object),
            "unique_constraints"@,
            unique_reader(),
        ),
{
    match list(object, "unique_constraints") {
        Some(items) => read_uniques(items),
        None => {
            let none: Vec<UniqueConstraintSchema> = Vec::new();
            assert(views(none@) =~= seq![]);
            Ok(none)
        },
    }
}

fn parse_foreign_keys(object: &serde_json::Map<String, serde_json::Value>) -> (result: Result<
    Vec<ForeignKeyConstraintSchema>,
    UserError,
>)
    ensures
        seen_foreign_keys(result) == items_or_none(
            object_members(*object),
            "foreign_keys"@,
            foreign_key_reader(),
        ),
{
    match list(object, "foreign_keys") {
        Some(items) => read_foreign_keys(items),
        None => {
            let none: Vec<ForeignKeyConstraintSchema> = Vec::new();
            assert(views(none@) =~= seq![]);
            Ok(none)
        },
    }
}

fn parse_columns(object: &serde_json::Map<String, serde_json::Value>) -> (result: Result<
    Vec<ColumnSchema>,
    UserError,
>)
    ensures
        seen_columns(result) == columns_of(object_members(*object)),
{
    match list(object, "columns") {
        Some(items) => read_columns(items),
        None => Err(user_error("XX000", "catalog columns are malformed")),
    }
}

pub(crate) fn decode_table_catalog(bytes: &[u8]) -> (result: Result<TableCatalog, UserError>)
    ensures
        match result {
            Ok(table) => stored_table(bytes@) == Ok::<TableEntry, Report>(table@)
                && table@.table_name == table@.schema.table_name,
            Err(e) => stored_table(bytes@) == Err::<TableEntry, Report>(e@),
        },
{
    let object = match stored_object(bytes, "table decode error: ") {
        Ok(object) => object,
        Err(e) => {
            return Err(e);
        },
    };
    let table_name = match needed_text(&object, "table_name", "table_name") {
        Ok(value) => value,
        Err(e) => {
            return Err(e);
        },
    };
    let table_id = match needed_number(&object, "table_id") {
        Ok(value) => value,
        Err(e) => {
            return Err(e);
        },
    };
    let primary_key = match needed_text(&object, "primary_key", "primary_key") {
        Ok(value) => value,
        Err(e) => {
            return Err(e);
        },
    };
    let columns = match parse_columns(&object) {
        Ok(value) => value,
        Err(e) => {
            return Err(e);
        },
    };
    let check_constraints = match parse_check_constraints(&object) {
        Ok(value) => value,
        Err(e) => {
            return Err(e);
        },
    };
    let unique_constraints = match parse_unique_constraints(&object) {
        Ok(value) => value,
        Err(e) => {
            return Err(e);
        },
    };
    let foreign_keys = match parse_foreign_keys(&object) {
        Ok(value) => value,
        Err(e) => {
            return Err(e);
        },
    };
    let epoch = number(&object, "table_epoch");
    let mut schema = TableSchema {
        table_name: table_name.clone(),
        table_id,
        schema_version: short_number(&object, "schema_version", 1),
        table_epoch: match epoch {
            Some(n) => n,
            None => 1,
        },
        primary_key,
        check_constraints,
        unique_constraints,
        foreign_keys,
        columns,
    };
    schema.normalize_descriptor();
    Ok(
        TableCatalog {
            database_id: short_number(&object, "database_id", 1),
            schema_id: short_number(&object, "schema_id", 1),
            schema_name: text_with_default(&object, "schema_name", DEFAULT_SCHEMA_NAME),
            table_name,
            schema,
        },
    )
}

/// The members under which an index is written.
pub open spec fn index_members(index: IndexModel) -> Members {
    Members::empty().insert("index_id"@, Json::Number(Some(index.index_id as u64))).insert(
        "database_id"@,
        Json::Number(Some(index.database_id as u64)),
    ).insert("schema_id"@, Json::Number(Some(index.schema_id as u64))).insert(
        "table_id"@,
        Json::Number(Some(index.table_id as u64)),
    ).insert("schema_name"@, Json::Text(index.schema_name)).insert(
        "table_name"@,
        Json::Text(index.table_name),
    ).insert("index_name"@, Json::Text(index.index_name)).insert(
        "column_name"@,
        Json::Text(index.column_name),
    ).insert("column_names"@, Json::List(text_items(index.column_names))).insert(
        "unique"@,
        Json::Flag(index.unique),
    )
}

/// The columns of an index: the list of them or, without a list, the one column.
pub open spec fn index_columns(members: Members, column_name: Seq<char>) -> Result<
    Seq<Seq<char>>,
    Report,
> {
    match list_at(members, "column_names"@) {
        Some(items) => read_all(items, text_reader("column_names"@), seq![]),
        None => Ok(seq![column_name]),
    }
}

/// Reads an index.
pub open spec fn index_of(members: Members) -> Result<IndexModel, Report> {
    match required_number(members, "index_id"@) {
        Err(e) => Err(e),
        Ok(index_id) => match required_number(members, "database_id"@) {
            Err(e) => Err(e),
            Ok(database_id) => match required_number(members, "schema_id"@) {
                Err(e) => Err(e),
                Ok(schema_id) => match required_number(members, "table_id"@) {
                    Err(e) => Err(e),
                    Ok(table_id) => match index_names(members) {
                        Err(e) => Err(e),
                        Ok((schema_name, table_name, index_name, column_name)) => match index_columns(
                            members,
                            column_name,
                        ) {
                            Err(e) => Err(e),
                            Ok(column_names) => Ok(
                                IndexModel {
                                    index_id,
                                    database_id,
                                    schema_id,
                                    table_id,
                                    schema_name,
                                    table_name,
                                    index_name,
                                    column_name,
                                    column_names,
                                    unique: flag_at(members, "unique"@, false),
                                },
                            ),
                        },
                    },
                },
            },
        },
    }
}

/// The names that an index is written with: of its schema, its table, itself and its
/// first column.
pub open spec fn index_names(members: Members) -> Result<
    (Seq<char>, Seq<char>, Seq<char>, Seq<char>),
    Report,
> {
    match required_text(members, "schema_name"@, "schema_name"@) {
        Err(e) => Err(e),
        Ok(schema_name) => match required_text(members, "table_name"@, "table_name"@) {
            Err(e) => Err(e),
            Ok(table_name) => match required_text(members, "index_name"@, "index_name"@) {
                Err(e) => Err(e),
                Ok(index_name) => match required_text(members, "column_name"@, "column_name"@) {
                    Err(e) => Err(e),
                    Ok(column_name) => Ok((schema_name, table_name, index_name, column_name)),
                },
            },
        },
    }
}

/// Reads a stored index.
pub open spec fn stored_index(bytes: Seq<u8>) -> Result<IndexModel, Report> {
    match stored_members(bytes, "index decode error: "@) {
        Err(e) => Err(e),
        Ok(members) => index_of(members),
    }
}

pub(crate) fn encode_index_catalog(index: &IndexCatalog) -> (bytes: Vec<u8>)
    ensures
        bytes@ == object_text(index_members(index@)),
        stored_index(bytes@) == Ok::<IndexModel, Report>(index@),
{
    let mut object = new_object();
    add_member(&mut object, "index_id", Field::Number(Some(index.index_id as u64)), Ghost(0));
    add_member(
        &mut object,
        "database_id",
        Field::Number(Some(index.database_id as u64)),
        Ghost(0),
    );
    add_member(&mut object, "schema_id", Field::Number(Some(index.schema_id as u64)), Ghost(0));
    add_member(&mut object, "table_id", Field::Number(Some(index.table_id as u64)), Ghost(0));
    add_member(&mut object, "schema_name", Field::Text(index.schema_name.clone()), Ghost(0));
    add_member(&mut object, "table_name", Field::Text(index.table_name.clone()), Ghost(0));
    add_member(&mut object, "index_name", Field::Text(index.index_name.clone()), Ghost(0));
    add_member(&mut object, "column_name", Field::Text(index.column_name.clone()), Ghost(0));
    add_member(&mut object, "column_names", texts_field(&index.column_names), Ghost(0));
    add_member(&mut object, "unique", Field::Flag(index.unique), Ghost(0));
    proof {
        lemma_index_names();
        lemma_text_items(index@.column_names, "column_names"@);
        let members = object_members(object);
        assert forall|n: Seq<char>| #[trigger] members.dom().contains(n) implies plain_json(
            members[n],
            2,
        ) by {
            lemma_plain_deeper(members[n], 0, 2);
        }
    }
    write_object(&object).unwrap()
}

pub(crate) fn decode_index_catalog(bytes: &[u8]) -> (result: Result<IndexCatalog, UserError>)
    ensures
        match result {
            Ok(index) => stored_index(bytes@) == Ok::<IndexModel, Report>(index@),
            Err(e) => stored_index(bytes@) == Err::<IndexModel, Report>(e@),
        },
{
    let object = match stored_object(bytes, "index decode error: ") {
        Ok(object) => object,
        Err(e) => {
            return Err(e);
        },
    };
    let index_id = match needed_number(&object, "index_id") {
        Ok(value) => value,
        Err(e) => {
            return Err(e);
        },
    };
    let database_id = match needed_number(&object, "database_id") {
        Ok(value) => value,
        Err(e) => {
            return Err(e);
        },
    };
    let schema_id = match needed_number(&object, "schema_id") {
        Ok(value) => value,
        Err(e) => {
            return Err(e);
        },
    };
    let table_id = match needed_number(&object, "table_id") {
        Ok(value) => value,
        Err(e) => {
            return Err(e);
        },
    };
    let schema_name = match needed_text(&object, "schema_name", "schema_name") {
        Ok(value) => value,
        Err(e) => {
            return Err(e);
        },
    };
    let table_name = match needed_text(&object, "table_name", "table_name") {
        Ok(value) => value,
        Err(e) => {
            return Err(e);
        },
    };
    let index_name = match needed_text(&object, "index_name", "index_name") {
        Ok(value) => value,
        Err(e) => {
            return Err(e);
        },
    };
    let column_name = match needed_text(&object, "column_name", "column_name") {
        Ok(value) => value,
        Err(e) => {
            return Err(e);
        },
    };
    let column_names = match list(&object, "column_names") {
        Some(items) => match read_texts(items, "column_names") {
            Ok(value) => value,
            Err(e) => {
                return Err(e);
            },
        },
        None => {
            let mut names: Vec<String> = Vec::new();
            names.push(column_name.clone());
            assert(views(names@) =~= seq![column_name@]);
            names
        },
    };
    Ok(
        IndexCatalog {
            index_id,
            database_id,
            schema_id,
            table_id,
            schema_name,
            table_name,
            index_name,
            column_name,
            column_names,
            unique: flag(&object, "unique", false),
        },
    )
}

/// What is seen of a read descriptor.
pub open spec fn seen_schema(result: Result<TableSchema, UserError>) -> Result<TableModel, Report> {
    match result {
        Ok(schema) => Ok(schema@),
        Err(error) => Err(error@),
    }
}

/// Reads the descriptor of a stored table; the table's name is stored with it.
pub fn decode_table_schema(_table_name: &str, bytes: &[u8]) -> (result: Result<
    TableSchema,
    UserError,
>)
    ensures
        seen_schema(result) == match stored_table(bytes@) {
            Ok(table) => Ok::<TableModel, Report>(table.schema),
            Err(e) => Err::<TableModel, Report>(e),
        },
{
    match decode_table_catalog(bytes) {
        Ok(catalog) => Ok(catalog.schema),
        Err(e) => Err(e),
    }
}

/// The schema and the table that a reference names: a bare name is in the default schema.
pub open spec fn table_reference(name: Seq<char>) -> Result<(Seq<char>, Seq<char>), Report> {
    let parts = split(name, '.');
    if parts.len() == 1 {
        Ok(("public"@, parts[0]))
    } else if parts.len() == 2 {
        Ok((parts[0], parts[1]))
    } else {
        Err(unsupported_report("only table or schema.table references are supported"@))
    }
}

/// What is seen of a resolved reference.
pub open spec fn seen_names(result: Result<(String, String), UserError>) -> Result<
    (Seq<char>, Seq<char>),
    Report,
> {
    match result {
        Ok(names) => Ok((names.0@, names.1@)),
        Err(error) => Err(error@),
    }
}

/// The schema and the table that a reference names.
pub fn resolve_table_reference(name: &str) -> (result: Result<(String, String), UserError>)
    ensures
        seen_names(result) == table_reference(name@),
{
    let mut parts = split_text(name, '.');
    let ghost all = texts(parts@);
    if parts.len() == 1 {
        let table = parts.remove(0);
        assert(table@ == all[0]);
        Ok((DEFAULT_SCHEMA_NAME.to_string(), table))
    } else if parts.len() == 2 {
        let schema = parts.remove(0);
        assert(schema@ == all[0]);
        let table = parts.remove(0);
        assert(table@ == all[1]);
        Ok((schema, table))
    } else {
        Err(unsupported("only table or schema.table references are supported"))
    }
}

/// The key of a database's identifier.
pub open spec fn database_name_path(database_name: Seq<char>) -> Seq<char> {
    "__catalog__/databases/by-name/"@ + database_name
}

/// The key of a schema's identifier.
pub open spec fn schema_name_path(database_id: u32, schema_name: Seq<char>) -> Seq<char> {
    "__catalog__/schemas/by-name/"@ + decimal(database_id as nat) + "/"@ + schema_name
}

/// The key of the identifier of something in a schema; `head` tells what it is.
pub open spec fn scoped_name_path(
    head: Seq<char>,
    database_id: u32,
    schema_id: u32,
    name: Seq<char>,
) -> Seq<char> {
    head + decimal(database_id as nat) + "/"@ + decimal(schema_id as nat) + "/"@ + name
}

/// The key of an entry by its identifier; `head` tells what it is.
pub open spec fn id_path(head: Seq<char>, id: u32) -> Seq<char> {
    head + decimal(id as nat)
}

/// The start of the keys of the indexes of a table.
pub open spec fn table_indexes_path(table_id: u32) -> Seq<char> {
    "__catalog__/indexes/by-table/"@ + decimal(table_id as nat) + "/"@
}

pub(crate) fn database_by_name_key(database_name: &str) -> (key: String)
    ensures
        key@ == database_name_path(database_name@),
{
    let mut key = "__catalog__/databases/by-name/".to_string();
    key.push_str(database_name);
    key
}

pub(crate) fn schema_by_name_key(database_id: u32, schema_name: &str) -> (key: String)
    ensures
        key@ == schema_name_path(database_id, schema_name@),
{
    let mut key = "__catalog__/schemas/by-name/".to_string();
    push_decimal(&mut key, database_id as u64);
    key.push_str("/");
    key.push_str(schema_name);
    key
}

fn scoped_name_key(head: &str, database_id: u32, schema_id: u32, name: &str) -> (key: String)
    ensures
        key@ == scoped_name_path(head@, database_id, schema_id, name@),
{
    let mut key = head.to_string();
    push_decimal(&mut key, database_id as u64);
    key.push_str("/");
    push_decimal(&mut key, schema_id as u64);
    key.push_str("/");
    key.push_str(name);
    key
}

pub(crate) fn id_key(head: &str, id: u32) -> (key: String)
    ensures
        key@ == id_path(head@, id),
{
    let mut key = head.to_string();
    push_decimal(&mut key, id as u64);
    key
}

/// What the keys of databases by identifier start with.
pub const DATABASES_BY_ID: &'static str = "__catalog__/databases/by-id/";

/// What the keys of schemas by identifier start with.
pub const SCHEMAS_BY_ID: &'static str = "__catalog__/schemas/by-id/";

/// What the keys of tables by identifier start with.
pub const TABLES_BY_ID: &'static str = "__catalog__/tables/by-id/";

/// What the keys of indexes by identifier start with.
pub const INDEXES_BY_ID: &'static str = "__catalog__/indexes/by-id/";

/// What the keys of views by identifier start with.
pub const VIEWS_BY_ID: &'static str = "__catalog__/views/by-id/";

/// What the keys of tables by name start with.
pub const TABLES_BY_NAME: &'static str = "__catalog__/tables/by-name/";

/// What the keys of indexes by name start with.
pub const INDEXES_BY_NAME: &'static str = "__catalog__/indexes/by-name/";

/// What the keys of views by name start with.
pub const VIEWS_BY_NAME: &'static str = "__catalog__/views/by-name/";

pub(crate) fn table_by_name_key(database_id: u32, schema_id: u32, table_name: &str) -> (key: String)
    ensures
        key@ == scoped_name_path(TABLES_BY_NAME@, database_id, schema_id, table_name@),
{
    scoped_name_key(TABLES_BY_NAME, database_id, schema_id, table_name)
}

pub(crate) fn index_by_name_key(database_id: u32, schema_id: u32, index_name: &str) -> (key: String)
    ensures
        key@ == scoped_name_path(INDEXES_BY_NAME@, database_id, schema_id, index_name@),
{
    scoped_name_key(INDEXES_BY_NAME, database_id, schema_id, index_name)
}

pub(crate) fn view_by_name_key(database_id: u32, schema_id: u32, view_name: &str) -> (key: String)
    ensures
        key@ == scoped_name_path(VIEWS_BY_NAME@, database_id, schema_id, view_name@),
{
    scoped_name_key(VIEWS_BY_NAME, database_id, schema_id, view_name)
}

pub(crate) fn index_by_table_prefix(table_id: u32) -> (key: String)
    ensures
        key@ == table_indexes_path(table_id),
{
    let mut key = "__catalog__/indexes/by-table/".to_string();
    push_decimal(&mut key, table_id as u64);
    key.push_str("/");
    key
}

pub(crate) fn index_by_table_key(table_id: u32, index_id: u32) -> (key: String)
    ensures
        key@ == table_indexes_path(table_id) + decimal(index_id as nat),
{
    let mut key = index_by_table_prefix(table_id);
    push_decimal(&mut key, index_id as u64);
    key
}

/// Reads a stored identifier; `field` names it in the error.
pub open spec fn stored_id(bytes: Seq<u8>, field: Seq<char>) -> Result<u32, Report> {
    if bytes.len() == 4 {
        Ok(be_value(bytes) as u32)
    } else {
        Err(malformed(field))
    }
}

pub(crate) fn decode_u32(bytes: &[u8], field: &str) -> (result: Result<u32, UserError>)
    ensures
        match result {
            Ok(id) => stored_id(bytes@, field@) == Ok::<u32, Report>(id),
            Err(e) => stored_id(bytes@, field@) == Err::<u32, Report>(e@),
        },
{
    if bytes.len() != 4 {
        return Err(malformed_error(field));
    }
    Ok(read_be(bytes) as u32)
}

} // verus!
