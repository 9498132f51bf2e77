//! What the catalog's operations do to the contents of the store.
use vstd::prelude::*;
use vstd::utf8::encode_utf8;

use crate::bytes::{be_bytes, be_value};
use crate::bytes::lemma_be_roundtrip;
use crate::catalog::codec::{
    database_members, database_name_path, id_path, index_members, legacy_members, malformed,
    schema_members, schema_name_path, scoped_name_path, stored_database, stored_id, stored_index,
    stored_schema, stored_table, stored_view, table_indexes_path, table_members, view_members,
    DATABASES_BY_ID, INDEXES_BY_ID, INDEXES_BY_NAME, SCHEMAS_BY_ID, TABLES_BY_ID, TABLES_BY_NAME,
    VIEWS_BY_ID, VIEWS_BY_NAME,
};
use crate::catalog::types::{
    DatabaseCatalog, DatabaseModel, IndexCatalog, IndexModel, SchemaCatalog, SchemaModel,
    TableEntry, ViewCatalog, ViewModel,
};
use crate::codec::internal;
use crate::error::{report, Report};
use crate::json::object_text;
use crate::mem_store::{lookup, scan, Contents};
use crate::mode::{mode_name, mode_named, GatewayMode};
use crate::schema::{normalized, TableModel};
use crate::sorting::{order_of, sorted};
use crate::text::{decimal, utf8_error};

verus! {

/// Puts a value under a textual key.
pub open spec fn with(contents: Contents, path: Seq<char>, value: Seq<u8>) -> Contents {
    contents.insert(encode_utf8(path), value)
}

/// Takes a textual key away.
pub open spec fn without(contents: Contents, path: Seq<char>) -> Contents {
    contents.remove(encode_utf8(path))
}

/// The value under a textual key.
pub open spec fn at(contents: Contents, path: Seq<char>) -> Option<Seq<u8>> {
    lookup(contents, encode_utf8(path))
}

/// An identifier in four bytes.
pub open spec fn id_bytes(id: u32) -> Seq<u8> {
    be_bytes(id as nat, 4)
}

/// The contents with a database.
pub open spec fn with_database(contents: Contents, database: DatabaseModel) -> Contents {
    with(
        with(
            contents,
            id_path(DATABASES_BY_ID@, database.database_id),
            object_text(database_members(database)),
        ),
        database_name_path(database.database_name),
        id_bytes(database.database_id),
    )
}

/// The contents with a schema.
pub open spec fn with_schema(contents: Contents, schema: SchemaModel) -> Contents {
    with(
        with(
            contents,
            id_path(SCHEMAS_BY_ID@, schema.schema_id),
            object_text(schema_members(schema)),
        ),
        schema_name_path(schema.database_id, schema.schema_name),
        id_bytes(schema.schema_id),
    )
}

/// The contents with an index.
pub open spec fn with_index(contents: Contents, index: IndexModel) -> Contents {
    with(
        with(
            with(
                contents,
                id_path(INDEXES_BY_ID@, index.index_id),
                object_text(index_members(index)),
            ),
            scoped_name_path(INDEXES_BY_NAME@, index.database_id, index.schema_id, index.index_name),
            id_bytes(index.index_id),
        ),
        table_indexes_path(index.table_id) + decimal(index.index_id as nat),
        id_bytes(index.index_id),
    )
}

/// The contents without an index.
pub open spec fn without_index(contents: Contents, index: IndexModel) -> Contents {
    without(
        without(
            without(contents, id_path(INDEXES_BY_ID@, index.index_id)),
            scoped_name_path(INDEXES_BY_NAME@, index.database_id, index.schema_id, index.index_name),
        ),
        table_indexes_path(index.table_id) + decimal(index.index_id as nat),
    )
}

/// The contents with a view.
pub open spec fn with_view(contents: Contents, view: ViewModel) -> Contents {
    with(
        with(contents, id_path(VIEWS_BY_ID@, view.view_id), object_text(view_members(view))),
        scoped_name_path(VIEWS_BY_NAME@, view.database_id, view.schema_id, view.view_name),
        id_bytes(view.view_id),
    )
}

/// The first database.
pub open spec fn default_database() -> DatabaseModel {
    DatabaseModel { database_id: 1, database_name: "defaultdb"@ }
}

/// The first schema.
pub open spec fn default_schema() -> SchemaModel {
    SchemaModel { schema_id: 1, database_id: 1, schema_name: "public"@ }
}

/// The contents of a catalog that has its default database: an unused store gets it,
/// with its schema and the counters of identifiers.
pub open spec fn bootstrapped(contents: Contents) -> Contents {
    if at(contents, database_name_path("defaultdb"@)) is Some {
        contents
    } else {
        with_schema(
            with_database(
                with(
                    with(
                        with(
                            with(
                                with(contents, "__catalog__/next_database_id"@, id_bytes(2)),
                                "__catalog__/next_schema_id"@,
                                id_bytes(2),
                            ),
                            "__catalog__/next_table_id"@,
                            id_bytes(1),
                        ),
                        "__catalog__/next_index_id"@,
                        id_bytes(1),
                    ),
                    "__catalog__/next_view_id"@,
                    id_bytes(1),
                ),
                default_database(),
            ),
            default_schema(),
        )
    }
}

/// A catalog that has its default database stays as it is.
pub proof fn law_bootstrap_is_stable(contents: Contents)
    ensures
        bootstrapped(bootstrapped(contents)) == bootstrapped(contents),
        at(bootstrapped(contents), database_name_path("defaultdb"@)) is Some,
{
}

/// The next identifier of a counter; a counter that was never set starts at one.
pub open spec fn next_number(contents: Contents, counter: Seq<char>) -> u32 {
    match at(contents, counter) {
        Some(bytes) => if bytes.len() == 4 {
            be_value(bytes) as u32
        } else {
            1
        },
        None => 1,
    }
}

/// The number after another; the last one is followed by zero.
pub open spec fn following(number: u32) -> u32 {
    if number == u32::MAX {
        0
    } else {
        (number + 1) as u32
    }
}

/// The contents after a counter's next identifier was taken.
pub open spec fn counted(contents: Contents, counter: Seq<char>) -> Contents {
    with(contents, counter, id_bytes(following(next_number(contents, counter))))
}

/// Two identifiers that one counter gives in a row are different.
pub proof fn law_identifiers_differ(contents: Contents, counter: Seq<char>)
    ensures
        next_number(counted(contents, counter), counter) == following(
            next_number(contents, counter),
        ),
        next_number(counted(contents, counter), counter) != next_number(contents, counter),
{
    crate::bytes::lemma_be_widths();
    lemma_be_roundtrip(following(next_number(contents, counter)) as nat, 4);
}

/// The payload that a name leads to by way of an identifier: `field` names the identifier,
/// `head` starts the payload's key, `missing` is the message where there is no payload.
pub open spec fn payload(
    contents: Contents,
    name_path: Seq<char>,
    field: Seq<char>,
    head: Seq<char>,
    missing: Seq<char>,
) -> Result<Option<Seq<u8>>, Report> {
    match at(contents, name_path) {
        None => Ok(None),
        Some(bytes) => match stored_id(bytes, field) {
            Err(e) => Err(e),
            Ok(id) => match at(contents, id_path(head, id)) {
                None => Err(internal(missing)),
                Some(text) => Ok(Some(text)),
            },
        },
    }
}

/// What is made of a payload where there is one.
pub open spec fn decoded<T>(
    found: Result<Option<Seq<u8>>, Report>,
    reader: spec_fn(Seq<u8>) -> Result<T, Report>,
) -> Result<Option<T>, Report> {
    match found {
        Err(e) => Err(e),
        Ok(None) => Ok(None),
        Ok(Some(bytes)) => match reader(bytes) {
            Err(e) => Err(e),
            Ok(value) => Ok(Some(value)),
        },
    }
}

/// The database with a name.
pub open spec fn database_found(contents: Contents, name: Seq<char>) -> Result<
    Option<DatabaseModel>,
    Report,
> {
    decoded(
        payload(
            contents,
            database_name_path(name),
            "database id"@,
            DATABASES_BY_ID@,
            "catalog database payload missing"@,
        ),
        |bytes: Seq<u8>| stored_database(bytes),
    )
}

/// The schema of a database with a name.
pub open spec fn schema_found(contents: Contents, database_id: u32, name: Seq<char>) -> Result<
    Option<SchemaModel>,
    Report,
> {
    decoded(
        payload(
            contents,
            schema_name_path(database_id, name),
            "schema id"@,
            SCHEMAS_BY_ID@,
            "catalog schema payload missing"@,
        ),
        |bytes: Seq<u8>| stored_schema(bytes),
    )
}

/// The index of a schema with a name.
pub open spec fn index_found(
    contents: Contents,
    database_id: u32,
    schema_id: u32,
    name: Seq<char>,
) -> Result<Option<IndexModel>, Report> {
    decoded(
        payload(
            contents,
            scoped_name_path(INDEXES_BY_NAME@, database_id, schema_id, name),
            "index id"@,
            INDEXES_BY_ID@,
            "catalog index payload missing"@,
        ),
        |bytes: Seq<u8>| stored_index(bytes),
    )
}

/// Whether a schema is the default schema of the default database, whose tables are also
/// kept by name alone.
pub open spec fn is_default(database_name: Seq<char>, schema_name: Seq<char>) -> bool {
    database_name == "defaultdb"@ && schema_name == "public"@
}

/// The key of a table that is kept by name alone.
pub open spec fn legacy_path(table_name: Seq<char>) -> Seq<char> {
    "__schema__:"@ + table_name
}

/// The table of a schema with a name; the default schema's are looked for by name alone
/// too.
pub open spec fn table_found(
    contents: Contents,
    database_name: Seq<char>,
    schema_name: Seq<char>,
    table_name: Seq<char>,
) -> Result<Option<TableEntry>, Report> {
    match database_found(contents, database_name) {
        Err(e) => Err(e),
        Ok(None) => Ok(None),
        Ok(Some(database)) => match schema_found(contents, database.database_id, schema_name) {
            Err(e) => Err(e),
            Ok(None) => Ok(None),
            Ok(Some(schema)) => {
                let path = scoped_name_path(
                    TABLES_BY_NAME@,
                    database.database_id,
                    schema.schema_id,
                    table_name,
                );
                if at(contents, path) is None && is_default(database_name, schema_name) {
                    match at(contents, legacy_path(table_name)) {
                        None => Ok(None),
                        Some(bytes) => match stored_table(bytes) {
                            Err(e) => Err(e),
                            Ok(table) => Ok(Some(table)),
                        },
                    }
                } else {
                    decoded(
                        payload(
                            contents,
                            path,
                            "table id"@,
                            TABLES_BY_ID@,
                            "catalog table payload missing"@,
                        ),
                        |bytes: Seq<u8>| stored_table(bytes),
                    )
                }
            },
        },
    }
}

/// The view of a schema with a name.
pub open spec fn view_found(
    contents: Contents,
    database_name: Seq<char>,
    schema_name: Seq<char>,
    view_name: Seq<char>,
) -> Result<Option<ViewModel>, Report> {
    match database_found(contents, database_name) {
        Err(e) => Err(e),
        Ok(None) => Ok(None),
        Ok(Some(database)) => match schema_found(contents, database.database_id, schema_name) {
            Err(e) => Err(e),
            Ok(None) => Ok(None),
            Ok(Some(schema)) => decoded(
                payload(
                    contents,
                    scoped_name_path(
                        VIEWS_BY_NAME@,
                        database.database_id,
                        schema.schema_id,
                        view_name,
                    ),
                    "view id"@,
                    VIEWS_BY_ID@,
                    "catalog view payload missing"@,
                ),
                |bytes: Seq<u8>| stored_view(bytes),
            ),
        },
    }
}

/// The mode that a catalog was made in.
pub open spec fn mode_found(contents: Contents) -> Result<Option<GatewayMode>, Report> {
    match at(contents, "__catalog__/compat_mode"@) {
        None => Ok(None),
        Some(bytes) => if !vstd::utf8::valid_utf8(bytes) {
            Err(internal("catalog compat mode is malformed: "@ + utf8_error(bytes)))
        } else {
            match mode_named(vstd::utf8::decode_utf8(bytes)) {
                Some(mode) => Ok(Some(mode)),
                None => Err(
                    internal(
                        "catalog compat mode '"@ + vstd::utf8::decode_utf8(bytes)
                            + "' is not supported"@,
                    ),
                ),
            }
        },
    }
}

/// The message that a database does not exist.
pub open spec fn no_database(name: Seq<char>) -> Report {
    report("3D000"@, "database '"@ + name + "' does not exist"@)
}

/// The message that a schema does not exist.
pub open spec fn no_schema(name: Seq<char>) -> Report {
    report("3F000"@, "schema '"@ + name + "' does not exist"@)
}

/// The message that a table does not exist.
pub open spec fn no_table(name: Seq<char>) -> Report {
    report("42P01"@, "table '"@ + name + "' does not exist"@)
}

/// A database and a schema that both exist.
pub open spec fn scope_found(
    contents: Contents,
    database_name: Seq<char>,
    schema_name: Seq<char>,
) -> Result<(DatabaseModel, SchemaModel), Report> {
    match database_found(contents, database_name) {
        Err(e) => Err(e),
        Ok(None) => Err(no_database(database_name)),
        Ok(Some(database)) => match schema_found(contents, database.database_id, schema_name) {
            Err(e) => Err(e),
            Ok(None) => Err(no_schema(schema_name)),
            Ok(Some(schema)) => Ok((database, schema)),
        },
    }
}

/// The entry under which a table is kept.
pub open spec fn entry_for(
    database: DatabaseModel,
    schema: SchemaModel,
    schema_name: Seq<char>,
    table: TableModel,
) -> TableEntry {
    TableEntry {
        database_id: database.database_id,
        schema_id: schema.schema_id,
        schema_name,
        table_name: normalized(table).table_name,
        schema: normalized(table),
    }
}

/// The contents with a table.
pub open spec fn with_table(
    contents: Contents,
    database_name: Seq<char>,
    schema_name: Seq<char>,
    entry: TableEntry,
) -> Contents {
    let stored = with(
        with(
            contents,
            id_path(TABLES_BY_ID@, entry.schema.table_id),
            object_text(table_members(entry)),
        ),
        scoped_name_path(TABLES_BY_NAME@, entry.database_id, entry.schema_id, entry.table_name),
        id_bytes(entry.schema.table_id),
    );
    if is_default(database_name, schema_name) {
        with(stored, legacy_path(entry.table_name), object_text(legacy_members(entry.schema)))
    } else {
        stored
    }
}

/// Creating a database: the outcome and the contents afterwards.
pub open spec fn database_created(contents: Contents, name: Seq<char>, if_not_exists: bool) -> (
    Result<DatabaseModel, Report>,
    Contents,
) {
    let start = bootstrapped(contents);
    match database_found(start, name) {
        Err(e) => (Err(e), start),
        Ok(Some(existing)) => if if_not_exists {
            (Ok(existing), start)
        } else {
            (Err(report("42P04"@, "database '"@ + name + "' already exists"@)), start)
        },
        Ok(None) => {
            let database = DatabaseModel {
                database_id: next_number(start, "__catalog__/next_database_id"@),
                database_name: name,
            };
            let made = with_database(counted(start, "__catalog__/next_database_id"@), database);
            let schema = SchemaModel {
                schema_id: next_number(made, "__catalog__/next_schema_id"@),
                database_id: database.database_id,
                schema_name: "public"@,
            };
            (Ok(database), with_schema(counted(made, "__catalog__/next_schema_id"@), schema))
        },
    }
}

/// Creating a schema.
pub open spec fn schema_created(
    contents: Contents,
    database_name: Seq<char>,
    name: Seq<char>,
    if_not_exists: bool,
) -> (Result<SchemaModel, Report>, Contents) {
    let start = bootstrapped(contents);
    match database_found(start, database_name) {
        Err(e) => (Err(e), start),
        Ok(None) => (Err(no_database(database_name)), start),
        Ok(Some(database)) => match schema_found(start, database.database_id, name) {
            Err(e) => (Err(e), start),
            Ok(Some(existing)) => if if_not_exists {
                (Ok(existing), start)
            } else {
                (Err(report("42P06"@, "schema '"@ + name + "' already exists"@)), start)
            },
            Ok(None) => {
                let schema = SchemaModel {
                    schema_id: next_number(start, "__catalog__/next_schema_id"@),
                    database_id: database.database_id,
                    schema_name: name,
                };
                (Ok(schema), with_schema(counted(start, "__catalog__/next_schema_id"@), schema))
            },
        },
    }
}

/// Storing a table's descriptor.
pub open spec fn table_stored(
    contents: Contents,
    database_name: Seq<char>,
    schema_name: Seq<char>,
    table: TableModel,
) -> (Result<(), Report>, Contents) {
    let start = bootstrapped(contents);
    match scope_found(start, database_name, schema_name) {
        Err(e) => (Err(e), start),
        Ok((database, schema)) => (
            Ok(()),
            with_table(
                start,
                database_name,
                schema_name,
                entry_for(database, schema, schema_name, table),
            ),
        ),
    }
}

/// Storing or replacing a view.
pub open spec fn view_stored(
    contents: Contents,
    database_name: Seq<char>,
    schema_name: Seq<char>,
    view_name: Seq<char>,
    definition: Seq<char>,
    or_replace: bool,
    if_not_exists: bool,
) -> (Result<Option<ViewModel>, Report>, Contents) {
    let start = bootstrapped(contents);
    match scope_found(start, database_name, schema_name) {
        Err(e) => (Err(e), start),
        Ok((database, schema)) => match table_found(start, database_name, schema_name, view_name) {
            Err(e) => (Err(e), start),
            Ok(Some(_)) => (
                Err(report("42P07"@, "relation '"@ + view_name + "' already exists"@)),
                start,
            ),
            Ok(None) => match view_found(start, database_name, schema_name, view_name) {
                Err(e) => (Err(e), start),
                Ok(Some(existing)) => if if_not_exists {
                    (Ok(None), start)
                } else if !or_replace {
                    (Err(report("42P07"@, "view '"@ + view_name + "' already exists"@)), start)
                } else {
                    let view = ViewModel { definition, ..existing };
                    (Ok(Some(view)), with_view(start, view))
                },
                Ok(None) => {
                    let view = ViewModel {
                        view_id: next_number(start, "__catalog__/next_view_id"@),
                        database_id: database.database_id,
                        schema_id: schema.schema_id,
                        schema_name,
                        view_name,
                        definition,
                    };
                    (
                        Ok(Some(view)),
                        with_view(counted(start, "__catalog__/next_view_id"@), view),
                    )
                },
            },
        },
    }
}

/// Taking a view away.
pub open spec fn view_dropped(
    contents: Contents,
    database_name: Seq<char>,
    schema_name: Seq<char>,
    view_name: Seq<char>,
) -> (Result<Option<ViewModel>, Report>, Contents) {
    let start = bootstrapped(contents);
    match view_found(start, database_name, schema_name, view_name) {
        Err(e) => (Err(e), start),
        Ok(None) => (Ok(None), start),
        Ok(Some(view)) => (
            Ok(Some(view)),
            without(
                without(start, id_path(VIEWS_BY_ID@, view.view_id)),
                scoped_name_path(VIEWS_BY_NAME@, view.database_id, view.schema_id, view_name),
            ),
        ),
    }
}

/// Taking a schema away.
pub open spec fn schema_dropped(
    contents: Contents,
    database_name: Seq<char>,
    schema_name: Seq<char>,
) -> (Result<Option<SchemaModel>, Report>, Contents) {
    let start = bootstrapped(contents);
    match database_found(start, database_name) {
        Err(e) => (Err(e), start),
        Ok(None) => (Ok(None), start),
        Ok(Some(database)) => match schema_found(start, database.database_id, schema_name) {
            Err(e) => (Err(e), start),
            Ok(None) => (Ok(None), start),
            Ok(Some(schema)) => (
                Ok(Some(schema)),
                without(
                    without(start, id_path(SCHEMAS_BY_ID@, schema.schema_id)),
                    schema_name_path(database.database_id, schema_name),
                ),
            ),
        },
    }
}

/// Taking a database away.
pub open spec fn database_dropped(contents: Contents, name: Seq<char>) -> (
    Result<Option<DatabaseModel>, Report>,
    Contents,
) {
    let start = bootstrapped(contents);
    match database_found(start, name) {
        Err(e) => (Err(e), start),
        Ok(None) => (Ok(None), start),
        Ok(Some(database)) => (
            Ok(Some(database)),
            without(
                without(start, id_path(DATABASES_BY_ID@, database.database_id)),
                database_name_path(name),
            ),
        ),
    }
}

/// Giving a table another name.
pub open spec fn table_renamed(
    contents: Contents,
    database_name: Seq<char>,
    schema_name: Seq<char>,
    old_name: Seq<char>,
    new_name: Seq<char>,
) -> (Result<TableEntry, Report>, Contents) {
    let start = bootstrapped(contents);
    match scope_found(start, database_name, schema_name) {
        Err(e) => (Err(e), start),
        Ok((database, schema)) => match table_found(start, database_name, schema_name, new_name) {
            Err(e) => (Err(e), start),
            Ok(Some(_)) => (
                Err(report("42P07"@, "table '"@ + new_name + "' already exists"@)),
                start,
            ),
            Ok(None) => match table_found(start, database_name, schema_name, old_name) {
                Err(e) => (Err(e), start),
                Ok(None) => (Err(no_table(old_name)), start),
                Ok(Some(found)) => {
                    let unnamed = without(
                        start,
                        scoped_name_path(
                            TABLES_BY_NAME@,
                            database.database_id,
                            schema.schema_id,
                            old_name,
                        ),
                    );
                    let cleared = if is_default(database_name, schema_name) {
                        without(unnamed, legacy_path(old_name))
                    } else {
                        unnamed
                    };
                    let table = TableEntry {
                        table_name: new_name,
                        schema: TableModel { table_name: new_name, ..found.schema },
                        ..found
                    };
                    match table_stored(cleared, database_name, schema_name, table.schema) {
                        (Err(e), after) => (Err(e), after),
                        (Ok(_), after) => (Ok(table), after),
                    }
                },
            },
        },
    }
}

/// A table's next epoch, in which it has no rows.
pub open spec fn next_epoch(table: TableModel) -> TableModel {
    TableModel {
        table_epoch: if table.table_epoch == u64::MAX {
            u64::MAX
        } else {
            (table.table_epoch + 1) as u64
        },
        schema_version: if table.schema_version == 0 {
            1
        } else {
            table.schema_version
        },
        ..table
    }
}

/// Starting a table's next epoch.
pub open spec fn epoch_bumped(
    contents: Contents,
    database_name: Seq<char>,
    schema_name: Seq<char>,
    table_name: Seq<char>,
) -> (Result<TableEntry, Report>, Contents) {
    let start = bootstrapped(contents);
    match table_found(start, database_name, schema_name, table_name) {
        Err(e) => (Err(e), start),
        Ok(None) => (Err(no_table(table_name)), start),
        Ok(Some(found)) => {
            let table = TableEntry { schema: next_epoch(found.schema), ..found };
            match table_stored(start, database_name, schema_name, table.schema) {
                (Err(e), after) => (Err(e), after),
                (Ok(_), after) => (Ok(table), after),
            }
        },
    }
}

/// Creating an index.
pub open spec fn index_created(
    contents: Contents,
    database_name: Seq<char>,
    schema_name: Seq<char>,
    table_name: Seq<char>,
    index_name: Seq<char>,
    column_names: Seq<Seq<char>>,
    unique: bool,
    if_not_exists: bool,
) -> (Result<Option<IndexModel>, Report>, Contents) {
    let start = bootstrapped(contents);
    match table_found(start, database_name, schema_name, table_name) {
        Err(e) => (Err(e), start),
        Ok(None) => (Err(no_table(table_name)), start),
        Ok(Some(table)) => match index_found(
            start,
            table.database_id,
            table.schema_id,
            index_name,
        ) {
            Err(e) => (Err(e), start),
            Ok(Some(_)) => if if_not_exists {
                (Ok(None), start)
            } else {
                (Err(report("42P07"@, "relation '"@ + index_name + "' already exists"@)), start)
            },
            Ok(None) => if column_names.len() == 0 {
                (Err(report("42601"@, "CREATE INDEX requires at least one column"@)), start)
            } else {
                let index = IndexModel {
                    index_id: next_number(start, "__catalog__/next_index_id"@),
                    database_id: table.database_id,
                    schema_id: table.schema_id,
                    table_id: table.schema.table_id,
                    schema_name,
                    table_name,
                    index_name,
                    column_name: column_names[0],
                    column_names,
                    unique,
                };
                (Ok(Some(index)), with_index(counted(start, "__catalog__/next_index_id"@), index))
            },
        },
    }
}

/// Taking an index away.
pub open spec fn index_dropped(
    contents: Contents,
    database_id: u32,
    schema_id: u32,
    index_name: Seq<char>,
) -> (Result<Option<IndexModel>, Report>, Contents) {
    let start = bootstrapped(contents);
    match index_found(start, database_id, schema_id, index_name) {
        Err(e) => (Err(e), start),
        Ok(None) => (Ok(None), start),
        Ok(Some(index)) => (Ok(Some(index)), without_index(start, index)),
    }
}

/// Opening a catalog in a mode: a new catalog takes the mode on, an existing one has to
/// be of it.
pub open spec fn opened(contents: Contents, mode: GatewayMode) -> (Result<(), Report>, Contents) {
    let start = bootstrapped(contents);
    match mode_found(start) {
        Err(e) => (Err(e), start),
        Ok(Some(existing)) => if existing == mode {
            (Ok(()), start)
        } else {
            (
                Err(
                    internal(
                        "catalog was created in "@ + mode_name(existing)
                            + " mode and cannot be opened in "@ + mode_name(mode) + " mode"@,
                    ),
                ),
                start,
            )
        },
        Ok(None) => (
            Ok(()),
            with(start, "__catalog__/compat_mode"@, encode_utf8(mode_name(mode))),
        ),
    }
}

/// Reads entry after entry and keeps what is wanted; the first that cannot be read is the
/// error.
pub open spec fn kept<T>(
    entries: Seq<(Seq<u8>, Seq<u8>)>,
    reader: spec_fn(Seq<u8>) -> Result<T, Report>,
    wanted: spec_fn(T) -> bool,
    done: Seq<T>,
) -> Result<Seq<T>, Report>
    decreases entries.len(),
{
    if entries.len() == 0 {
        Ok(done)
    } else {
        match reader(entries[0].1) {
            Err(e) => Err(e),
            Ok(value) => kept(
                entries.skip(1),
                reader,
                wanted,
                if wanted(value) {
                    done.push(value)
                } else {
                    done
                },
            ),
        }
    }
}

/// The entries of the store whose keys start with a text.
pub open spec fn entries_under(contents: Contents, path: Seq<char>) -> Seq<(Seq<u8>, Seq<u8>)> {
    scan(contents, encode_utf8(path))
}

/// Every database, by name.
pub open spec fn databases_listed(contents: Contents) -> Result<Seq<DatabaseModel>, Report> {
    match kept(
        entries_under(contents, DATABASES_BY_ID@),
        |bytes: Seq<u8>| stored_database(bytes),
        |database: DatabaseModel| true,
        seq![],
    ) {
        Err(e) => Err(e),
        Ok(databases) => Ok(sorted(databases, order_of::<DatabaseCatalog>())),
    }
}

/// The schemas of a database, by name; one that does not exist has none.
pub open spec fn schemas_listed(contents: Contents, database_name: Seq<char>) -> Result<
    Seq<SchemaModel>,
    Report,
> {
    match database_found(contents, database_name) {
        Err(e) => Err(e),
        Ok(None) => Ok(seq![]),
        Ok(Some(database)) => match kept(
            entries_under(contents, SCHEMAS_BY_ID@),
            |bytes: Seq<u8>| stored_schema(bytes),
            |schema: SchemaModel| schema.database_id == database.database_id,
            seq![],
        ) {
            Err(e) => Err(e),
            Ok(schemas) => Ok(sorted(schemas, order_of::<SchemaCatalog>())),
        },
    }
}

/// The views of a database, by schema and name; one that does not exist has none.
pub open spec fn views_listed(contents: Contents, database_name: Seq<char>) -> Result<
    Seq<ViewModel>,
    Report,
> {
    match database_found(contents, database_name) {
        Err(e) => Err(e),
        Ok(None) => Ok(seq![]),
        Ok(Some(database)) => match kept(
            entries_under(contents, VIEWS_BY_ID@),
            |bytes: Seq<u8>| stored_view(bytes),
            |view: ViewModel| view.database_id == database.database_id,
            seq![],
        ) {
            Err(e) => Err(e),
            Ok(views) => Ok(sorted(views, order_of::<ViewCatalog>())),
        },
    }
}

/// The index whose identifier is stored.
pub open spec fn index_with_id(contents: Contents, bytes: Seq<u8>) -> Result<IndexModel, Report> {
    match stored_id(bytes, "index id"@) {
        Err(e) => Err(e),
        Ok(id) => match at(contents, id_path(INDEXES_BY_ID@, id)) {
            None => Err(internal("catalog index payload missing"@)),
            Some(text) => stored_index(text),
        },
    }
}

/// The indexes of a table, by name.
pub open spec fn indexes_listed(contents: Contents, table_id: u32) -> Result<
    Seq<IndexModel>,
    Report,
> {
    match kept(
        entries_under(contents, table_indexes_path(table_id)),
        |bytes: Seq<u8>| index_with_id(contents, bytes),
        |index: IndexModel| true,
        seq![],
    ) {
        Err(e) => Err(e),
        Ok(indexes) => Ok(sorted(indexes, order_of::<IndexCatalog>())),
    }
}

/// Whether a table is among others, by identifier or by name.
pub open spec fn is_known(tables: Seq<TableEntry>, table: TableEntry) -> bool {
    exists|i: int|
        0 <= i < tables.len() && ((#[trigger] tables[i]).schema.table_id == table.schema.table_id
            || tables[i].table_name == table.table_name)
}

/// Adds the tables of the default schema that are kept by name alone.
pub open spec fn legacy_added(entries: Seq<(Seq<u8>, Seq<u8>)>, tables: Seq<TableEntry>) -> Result<
    Seq<TableEntry>,
    Report,
>
    decreases entries.len(),
{
    if entries.len() == 0 {
        Ok(tables)
    } else {
        match stored_table(entries[0].1) {
            Err(e) => Err(e),
            Ok(table) => legacy_added(
                entries.skip(1),
                if table.database_id == 1 && table.schema_name == "public"@ && !is_known(
                    tables,
                    table,
                ) {
                    tables.push(table)
                } else {
                    tables
                },
            ),
        }
    }
}

/// The tables of a database, by identifier; one that does not exist has none.
pub open spec fn tables_listed(contents: Contents, database_name: Seq<char>) -> Result<
    Seq<TableEntry>,
    Report,
> {
    match database_found(contents, database_name) {
        Err(e) => Err(e),
        Ok(None) => Ok(seq![]),
        Ok(Some(database)) => match kept(
            entries_under(contents, TABLES_BY_ID@),
            |bytes: Seq<u8>| stored_table(bytes),
            |table: TableEntry| table.database_id == database.database_id,
            seq![],
        ) {
            Err(e) => Err(e),
            Ok(tables) => if database_name == "defaultdb"@ {
                legacy_added(entries_under(contents, "__schema__:"@), tables)
            } else {
                Ok(tables)
            },
        },
    }
}

/// The contents without any of the indexes.
pub open spec fn without_indexes(contents: Contents, indexes: Seq<IndexModel>) -> Contents
    decreases indexes.len(),
{
    if indexes.len() == 0 {
        contents
    } else {
        without_index(without_indexes(contents, indexes.drop_last()), indexes.last())
    }
}

/// Taking a table and its indexes away.
pub open spec fn table_dropped(
    contents: Contents,
    database_name: Seq<char>,
    schema_name: Seq<char>,
    table_name: Seq<char>,
) -> (Result<Option<TableEntry>, Report>, Contents) {
    let start = bootstrapped(contents);
    match table_found(start, database_name, schema_name, table_name) {
        Err(e) => (Err(e), start),
        Ok(None) => (Ok(None), start),
        Ok(Some(table)) => {
            let unnamed = without(
                without(start, id_path(TABLES_BY_ID@, table.schema.table_id)),
                scoped_name_path(TABLES_BY_NAME@, table.database_id, table.schema_id, table_name),
            );
            let cleared = bootstrapped(unnamed);
            match indexes_listed(cleared, table.schema.table_id) {
                Err(e) => (Err(e), cleared),
                Ok(indexes) => {
                    let bare = without_indexes(cleared, indexes);
                    (
                        Ok(Some(table)),
                        if is_default(database_name, schema_name) {
                            without(bare, legacy_path(table_name))
                        } else {
                            bare
                        },
                    )
                },
            }
        },
    }
}

} // verus!
