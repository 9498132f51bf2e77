//! What holds across the catalog's operations.
use vstd::prelude::*;
use vstd::utf8::*;

use crate::bytes::{lemma_be_roundtrip, lemma_be_widths};
use crate::catalog::codec::{
    database_members, database_name_path, id_path, index_members, schema_members, schema_name_path,
    scoped_name_path, stored_database, stored_id, stored_index, stored_schema, stored_table,
    stored_view, table_indexes_path, table_members, view_members, DATABASES_BY_ID, INDEXES_BY_ID,
    INDEXES_BY_NAME, SCHEMAS_BY_ID, TABLES_BY_ID, TABLES_BY_NAME, VIEWS_BY_ID, VIEWS_BY_NAME,
};
use crate::catalog::model::{
    at, bootstrapped, counted, database_dropped, database_found, id_bytes, index_dropped,
    index_found, law_bootstrap_is_stable, legacy_path, mode_found, next_number, opened,
    schema_dropped, schema_found, scope_found, table_dropped, table_found, view_found, with,
    with_database, with_index, with_schema, with_table, with_view, without, without_indexes,
};
use crate::catalog::types::{DatabaseModel, IndexModel, SchemaModel, TableEntry, ViewModel};
use crate::error::Report;
use crate::json::object_text;
use crate::mem_store::Contents;
use crate::mode::{law_mode_name_roundtrip, mode_name, GatewayMode};
use crate::text::decimal;

verus! {

proof fn lemma_utf8_injective(a: Seq<char>, b: Seq<char>)
    ensures
        encode_utf8(a) == encode_utf8(b) ==> a == b,
{
    encode_utf8_decode_utf8(a);
    encode_utf8_decode_utf8(b);
}

/// What is found after a value was put under a key.
pub broadcast proof fn lemma_at_with(contents: Contents, path: Seq<char>, value: Seq<u8>, other: Seq<char>)
    ensures
        #[trigger] at(with(contents, path, value), other) == (if path == other {
            Some(value)
        } else {
            at(contents, other)
        }),
{
    lemma_utf8_injective(path, other);
}

/// What is found after a key was taken away.
pub broadcast proof fn lemma_at_without(contents: Contents, path: Seq<char>, other: Seq<char>)
    ensures
        #[trigger] at(without(contents, path), other) == (if path == other {
            None
        } else {
            at(contents, other)
        }),
{
    lemma_utf8_injective(path, other);
}

/// The kind of thing that a path leads to: a letter of its head and, where a kind has
/// several paths, another.
pub open spec fn mark(path: Seq<char>) -> (char, char) {
    if path.len() > 2 && path[2] == 's' {
        ('_', '_')
    } else if path[12] == 'd' {
        ('d', path[25])
    } else if path[12] == 's' {
        ('s', path[23])
    } else if path[12] == 't' {
        ('t', path[22])
    } else if path[12] == 'i' {
        ('i', path[23])
    } else if path[12] == 'v' {
        ('v', path[21])
    } else {
        (path[12], path[17])
    }
}

pub(crate) proof fn lemma_marks()
    ensures
        forall|name: Seq<char>| mark(#[trigger] database_name_path(name)) == ('d', 'n'),
        forall|id: u32| mark(#[trigger] id_path(DATABASES_BY_ID@, id)) == ('d', 'i'),
        forall|id: u32, name: Seq<char>|
            mark(#[trigger] schema_name_path(id, name)) == ('s', 'n'),
        forall|id: u32| mark(#[trigger] id_path(SCHEMAS_BY_ID@, id)) == ('s', 'i'),
        forall|d: u32, s: u32, name: Seq<char>|
            mark(#[trigger] scoped_name_path(TABLES_BY_NAME@, d, s, name)) == ('t', 'n'),
        forall|id: u32| mark(#[trigger] id_path(TABLES_BY_ID@, id)) == ('t', 'i'),
        forall|d: u32, s: u32, name: Seq<char>|
            mark(#[trigger] scoped_name_path(INDEXES_BY_NAME@, d, s, name)) == ('i', 'n'),
        forall|id: u32| mark(#[trigger] id_path(INDEXES_BY_ID@, id)) == ('i', 'i'),
        forall|t: u32, tail: Seq<char>| mark(#[trigger] (table_indexes_path(t) + tail)) == ('i', 't'),
        forall|d: u32, s: u32, name: Seq<char>|
            mark(#[trigger] scoped_name_path(VIEWS_BY_NAME@, d, s, name)) == ('v', 'n'),
        forall|id: u32| mark(#[trigger] id_path(VIEWS_BY_ID@, id)) == ('v', 'i'),
        forall|name: Seq<char>| mark(#[trigger] legacy_path(name)) == ('_', '_'),
        mark("__catalog__/next_database_id"@) == ('n', 'd'),
        mark("__catalog__/next_schema_id"@) == ('n', 's'),
        mark("__catalog__/next_table_id"@) == ('n', 't'),
        mark("__catalog__/next_index_id"@) == ('n', 'i'),
        mark("__catalog__/next_view_id"@) == ('n', 'v'),
        mark("__catalog__/compat_mode"@).0 == 'c',
{
    reveal_strlit("__catalog__/databases/by-name/");
    reveal_strlit("__catalog__/databases/by-id/");
    reveal_strlit("__catalog__/schemas/by-name/");
    reveal_strlit("__catalog__/schemas/by-id/");
    reveal_strlit("__catalog__/tables/by-name/");
    reveal_strlit("__catalog__/tables/by-id/");
    reveal_strlit("__catalog__/indexes/by-name/");
    reveal_strlit("__catalog__/indexes/by-id/");
    reveal_strlit("__catalog__/indexes/by-table/");
    reveal_strlit("__catalog__/views/by-name/");
    reveal_strlit("__catalog__/views/by-id/");
    reveal_strlit("__schema__:");
    reveal_strlit("__catalog__/next_database_id");
    reveal_strlit("__catalog__/next_schema_id");
    reveal_strlit("__catalog__/next_table_id");
    reveal_strlit("__catalog__/next_index_id");
    reveal_strlit("__catalog__/next_view_id");
    reveal_strlit("__catalog__/compat_mode");
}

pub(crate) proof fn lemma_stored_id(id: u32, field: Seq<char>)
    ensures
        stored_id(id_bytes(id), field) == Ok::<u32, Report>(id),
{
    lemma_be_widths();
    lemma_be_roundtrip(id as nat, 4);
}

/// A written database is found under its name.
pub proof fn law_written_database_is_found(contents: Contents, database: DatabaseModel)
    requires
        stored_database(object_text(database_members(database))) == Ok::<DatabaseModel, Report>(
            database,
        ),
    ensures
        database_found(with_database(contents, database), database.database_name) == Ok::<
            Option<DatabaseModel>,
            Report,
        >(Some(database)),
{
    broadcast use lemma_at_with;

    lemma_marks();
    lemma_stored_id(database.database_id, "database id"@);
    assert(id_path(DATABASES_BY_ID@, database.database_id) != database_name_path(
        database.database_name,
    ));
}

/// A written schema is found under its name.
pub proof fn law_written_schema_is_found(contents: Contents, schema: SchemaModel)
    requires
        stored_schema(object_text(schema_members(schema))) == Ok::<SchemaModel, Report>(schema),
    ensures
        schema_found(with_schema(contents, schema), schema.database_id, schema.schema_name)
            == Ok::<Option<SchemaModel>, Report>(Some(schema)),
{
    broadcast use lemma_at_with;

    lemma_marks();
    lemma_stored_id(schema.schema_id, "schema id"@);
}

/// A written index is found under its name.
pub proof fn law_written_index_is_found(contents: Contents, index: IndexModel)
    requires
        stored_index(object_text(index_members(index))) == Ok::<IndexModel, Report>(index),
    ensures
        index_found(
            with_index(contents, index),
            index.database_id,
            index.schema_id,
            index.index_name,
        ) == Ok::<Option<IndexModel>, Report>(Some(index)),
{
    broadcast use lemma_at_with;

    lemma_marks();
    lemma_stored_id(index.index_id, "index id"@);
    assert(mark(table_indexes_path(index.table_id) + decimal(index.index_id as nat)) == (
        'i',
        't',
    ));
}

/// Schemas, tables, views, indexes and counters do not touch the databases.
proof fn lemma_databases_untouched(contents: Contents, path: Seq<char>, value: Seq<u8>, name: Seq<char>)
    requires
        mark(path).0 != 'd',
    ensures
        database_found(with(contents, path, value), name) == database_found(contents, name),
        database_found(without(contents, path), name) == database_found(contents, name),
{
    broadcast use lemma_at_with, lemma_at_without;

    lemma_marks();
}

/// Databases, tables, views, indexes and counters do not touch the schemas.
proof fn lemma_schemas_untouched(
    contents: Contents,
    path: Seq<char>,
    value: Seq<u8>,
    database_id: u32,
    name: Seq<char>,
)
    requires
        mark(path).0 != 's',
    ensures
        schema_found(with(contents, path, value), database_id, name) == schema_found(
            contents,
            database_id,
            name,
        ),
        schema_found(without(contents, path), database_id, name) == schema_found(
            contents,
            database_id,
            name,
        ),
{
    broadcast use lemma_at_with, lemma_at_without;

    lemma_marks();
}

/// Storing a table leaves every database and every schema as it is.
pub proof fn law_storing_a_table_keeps_scopes(
    contents: Contents,
    database_name: Seq<char>,
    schema_name: Seq<char>,
    entry: TableEntry,
    other_database: Seq<char>,
    database_id: u32,
    other_schema: Seq<char>,
)
    ensures
        database_found(
            with_table(contents, database_name, schema_name, entry),
            other_database,
        ) == database_found(contents, other_database),
        schema_found(
            with_table(contents, database_name, schema_name, entry),
            database_id,
            other_schema,
        ) == schema_found(contents, database_id, other_schema),
{
    lemma_marks();
    let id = id_path(TABLES_BY_ID@, entry.schema.table_id);
    let name = scoped_name_path(
        TABLES_BY_NAME@,
        entry.database_id,
        entry.schema_id,
        entry.table_name,
    );
    let text = object_text(table_members(entry));
    let first = with(contents, id, text);
    let second = with(first, name, id_bytes(entry.schema.table_id));
    let legacy = object_text(crate::catalog::codec::legacy_members(entry.schema));
    lemma_databases_untouched(contents, id, text, other_database);
    lemma_databases_untouched(first, name, id_bytes(entry.schema.table_id), other_database);
    lemma_databases_untouched(second, legacy_path(entry.table_name), legacy, other_database);
    lemma_schemas_untouched(contents, id, text, database_id, other_schema);
    lemma_schemas_untouched(
        first,
        name,
        id_bytes(entry.schema.table_id),
        database_id,
        other_schema,
    );
    lemma_schemas_untouched(
        second,
        legacy_path(entry.table_name),
        legacy,
        database_id,
        other_schema,
    );
}

/// A stored table is found under its name.
pub proof fn law_stored_table_is_found(
    contents: Contents,
    database_name: Seq<char>,
    schema_name: Seq<char>,
    database: DatabaseModel,
    schema: SchemaModel,
    entry: TableEntry,
)
    requires
        scope_found(contents, database_name, schema_name) == Ok::<
            (DatabaseModel, SchemaModel),
            Report,
        >((database, schema)),
        entry.database_id == database.database_id,
        entry.schema_id == schema.schema_id,
        stored_table(object_text(table_members(entry))) == Ok::<TableEntry, Report>(entry),
    ensures
        table_found(
            with_table(contents, database_name, schema_name, entry),
            database_name,
            schema_name,
            entry.table_name,
        ) == Ok::<Option<TableEntry>, Report>(Some(entry)),
{
    broadcast use lemma_at_with;

    lemma_marks();
    lemma_stored_id(entry.schema.table_id, "table id"@);
    law_storing_a_table_keeps_scopes(
        contents,
        database_name,
        schema_name,
        entry,
        database_name,
        database.database_id,
        schema_name,
    );
    let after = with_table(contents, database_name, schema_name, entry);
    let id = id_path(TABLES_BY_ID@, entry.schema.table_id);
    let name = scoped_name_path(
        TABLES_BY_NAME@,
        entry.database_id,
        entry.schema_id,
        entry.table_name,
    );
    assert(mark(legacy_path(entry.table_name)) == ('_', '_'));
    assert(at(after, name) == Some(id_bytes(entry.schema.table_id)));
    assert(at(after, id) == Some(object_text(table_members(entry))));
}

/// A stored view is found under its name.
pub proof fn law_stored_view_is_found(
    contents: Contents,
    database_name: Seq<char>,
    schema_name: Seq<char>,
    database: DatabaseModel,
    schema: SchemaModel,
    view: ViewModel,
)
    requires
        scope_found(contents, database_name, schema_name) == Ok::<
            (DatabaseModel, SchemaModel),
            Report,
        >((database, schema)),
        view.database_id == database.database_id,
        view.schema_id == schema.schema_id,
        stored_view(object_text(view_members(view))) == Ok::<ViewModel, Report>(view),
    ensures
        view_found(with_view(contents, view), database_name, schema_name, view.view_name) == Ok::<
            Option<ViewModel>,
            Report,
        >(Some(view)),
{
    broadcast use lemma_at_with;

    lemma_marks();
    lemma_stored_id(view.view_id, "view id"@);
    let id = id_path(VIEWS_BY_ID@, view.view_id);
    let name = scoped_name_path(VIEWS_BY_NAME@, view.database_id, view.schema_id, view.view_name);
    let text = object_text(view_members(view));
    let first = with(contents, id, text);
    lemma_databases_untouched(contents, id, text, database_name);
    lemma_databases_untouched(first, name, id_bytes(view.view_id), database_name);
    lemma_schemas_untouched(contents, id, text, database.database_id, schema_name);
    lemma_schemas_untouched(first, name, id_bytes(view.view_id), database.database_id, schema_name);
    assert(at(with_view(contents, view), name) == Some(id_bytes(view.view_id)));
    assert(at(with_view(contents, view), id) == Some(text));
}

/// Counting an identifier touches neither databases nor schemas.
pub proof fn law_counting_keeps_scopes(
    contents: Contents,
    counter: Seq<char>,
    database_name: Seq<char>,
    database_id: u32,
    schema_name: Seq<char>,
)
    requires
        counter == "__catalog__/next_database_id"@ || counter == "__catalog__/next_schema_id"@
            || counter == "__catalog__/next_table_id"@ || counter == "__catalog__/next_index_id"@
            || counter == "__catalog__/next_view_id"@,
    ensures
        database_found(counted(contents, counter), database_name) == database_found(
            contents,
            database_name,
        ),
        schema_found(counted(contents, counter), database_id, schema_name) == schema_found(
            contents,
            database_id,
            schema_name,
        ),
{
    lemma_marks();
    let value = id_bytes(crate::catalog::model::following(next_number(contents, counter)));
    lemma_databases_untouched(contents, counter, value, database_name);
    lemma_schemas_untouched(contents, counter, value, database_id, schema_name);
}

/// Writing a schema leaves every database as it is.
pub proof fn law_writing_a_schema_keeps_databases(
    contents: Contents,
    schema: SchemaModel,
    database_name: Seq<char>,
)
    ensures
        database_found(with_schema(contents, schema), database_name) == database_found(
            contents,
            database_name,
        ),
{
    lemma_marks();
    let id = id_path(SCHEMAS_BY_ID@, schema.schema_id);
    let text = object_text(schema_members(schema));
    lemma_databases_untouched(contents, id, text, database_name);
    lemma_databases_untouched(
        with(contents, id, text),
        schema_name_path(schema.database_id, schema.schema_name),
        id_bytes(schema.schema_id),
        database_name,
    );
}

/// A database that was taken away is not found any more.
pub proof fn law_dropped_database_is_gone(contents: Contents, name: Seq<char>)
    requires
        database_dropped(contents, name).0 is Ok,
    ensures
        database_found(database_dropped(contents, name).1, name) == Ok::<
            Option<DatabaseModel>,
            Report,
        >(None),
{
    broadcast use lemma_at_without;

    lemma_marks();
}

/// A schema that was taken away is not found any more.
pub proof fn law_dropped_schema_is_gone(
    contents: Contents,
    database_name: Seq<char>,
    database: DatabaseModel,
    schema_name: Seq<char>,
)
    requires
        schema_dropped(contents, database_name, schema_name).0 is Ok,
        database_found(bootstrapped(contents), database_name) == Ok::<
            Option<DatabaseModel>,
            Report,
        >(Some(database)),
    ensures
        schema_found(
            schema_dropped(contents, database_name, schema_name).1,
            database.database_id,
            schema_name,
        ) == Ok::<Option<SchemaModel>, Report>(None),
{
    broadcast use lemma_at_without;

    lemma_marks();
}

/// An index that was taken away is not found any more, where it was kept under its own
/// schema.
pub proof fn law_dropped_index_is_gone(
    contents: Contents,
    database_id: u32,
    schema_id: u32,
    index_name: Seq<char>,
)
    requires
        match index_dropped(contents, database_id, schema_id, index_name).0 {
            Ok(Some(index)) => index.database_id == database_id && index.schema_id == schema_id
                && index.index_name == index_name,
            Ok(None) => true,
            Err(_) => false,
        },
    ensures
        index_found(
            index_dropped(contents, database_id, schema_id, index_name).1,
            database_id,
            schema_id,
            index_name,
        ) == Ok::<Option<IndexModel>, Report>(None),
{
    broadcast use lemma_at_without;

    lemma_marks();
    if let Ok(Some(index)) = index_dropped(contents, database_id, schema_id, index_name).0 {
        assert(mark(table_indexes_path(index.table_id) + decimal(index.index_id as nat)) == (
            'i',
            't',
        ));
    }
}

pub(crate) proof fn lemma_without_indexes(contents: Contents, indexes: Seq<IndexModel>, path: Seq<char>)
    requires
        mark(path).0 != 'i',
    ensures
        at(without_indexes(contents, indexes), path) == at(contents, path),
    decreases indexes.len(),
{
    broadcast use lemma_at_without;

    if indexes.len() > 0 {
        lemma_without_indexes(contents, indexes.drop_last(), path);
        lemma_marks();
        let index = indexes.last();
        assert(mark(table_indexes_path(index.table_id) + decimal(index.index_id as nat)) == (
            'i',
            't',
        ));
    }
}

/// A table that was taken away is not found any more, where it was kept under its own
/// schema.
pub proof fn law_dropped_table_is_gone(
    contents: Contents,
    database_name: Seq<char>,
    schema_name: Seq<char>,
    table_name: Seq<char>,
    database: DatabaseModel,
    schema: SchemaModel,
    table: TableEntry,
)
    requires
        scope_found(bootstrapped(contents), database_name, schema_name) == Ok::<
            (DatabaseModel, SchemaModel),
            Report,
        >((database, schema)),
        table_dropped(contents, database_name, schema_name, table_name).0 == Ok::<
            Option<TableEntry>,
            Report,
        >(Some(table)),
        table.database_id == database.database_id,
        table.schema_id == schema.schema_id,
    ensures
        table_found(
            table_dropped(contents, database_name, schema_name, table_name).1,
            database_name,
            schema_name,
            table_name,
        ) == Ok::<Option<TableEntry>, Report>(None),
{
    broadcast use lemma_at_without;

    lemma_marks();
    law_bootstrap_is_stable(contents);
    let start = bootstrapped(contents);
    let id = id_path(TABLES_BY_ID@, table.schema.table_id);
    let name = scoped_name_path(TABLES_BY_NAME@, table.database_id, table.schema_id, table_name);
    let first = without(start, id);
    let second = without(first, name);
    assert(bootstrapped(second) == second);
    let indexes = crate::catalog::model::indexes_listed(second, table.schema.table_id)->Ok_0;
    let bare = without_indexes(second, indexes);
    let after = table_dropped(contents, database_name, schema_name, table_name).1;
    assert forall|path: Seq<char>| mark(path).0 == 'd' || mark(path).0 == 's' implies
        #[trigger] at(after, path) == at(start, path) by {
        lemma_without_indexes(second, indexes, path);
    }
    lemma_without_indexes(second, indexes, name);
    lemma_without_indexes(second, indexes, legacy_path(table_name));
    assert(at(after, name) is None);
    assert(database_found(after, database_name) == database_found(start, database_name));
    assert(schema_found(after, database.database_id, schema_name) == schema_found(
        start,
        database.database_id,
        schema_name,
    ));
}

/// A catalog that was opened in a mode has that mode, and opens in no other.
pub proof fn law_opened_catalog_keeps_its_mode(contents: Contents, mode: GatewayMode, other: GatewayMode)
    requires
        opened(contents, mode).0 is Ok,
    ensures
        mode_found(opened(contents, mode).1) == Ok::<Option<GatewayMode>, Report>(Some(mode)),
        opened(opened(contents, mode).1, other).0 is Ok <==> other == mode,
        opened(opened(contents, mode).1, other).1 == opened(contents, mode).1,
{
    broadcast use lemma_at_with;

    lemma_marks();
    law_mode_name_roundtrip(mode);
    encode_utf8_valid_utf8(mode_name(mode));
    encode_utf8_decode_utf8(mode_name(mode));
    law_bootstrap_is_stable(contents);
    let after = opened(contents, mode).1;
    assert(mark("__catalog__/compat_mode"@).0 == 'c');
    assert(at(after, database_name_path("defaultdb"@)) is Some);
}

} // verus!
