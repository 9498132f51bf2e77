//! What changes of the catalog are for: what is made is found and was not there before, what gets
//! another name keeps everything else, and a list has just what belongs to it.
use vstd::prelude::*;
use vstd::utf8::{encode_utf8, encode_utf8_decode_utf8};

use crate::bytes::lemma_bytes_less_total;
use crate::catalog::codec::{
    database_members, schema_members, stored_database, stored_schema, stored_table, stored_view,
    table_indexes_path, table_members, DATABASES_BY_ID, SCHEMAS_BY_ID, VIEWS_BY_ID,
};
use crate::catalog::laws::{
    law_counting_keeps_scopes, law_stored_table_is_found, law_writing_a_schema_keeps_databases,
    law_written_database_is_found, law_written_schema_is_found,
};
use crate::catalog::model::{
    bootstrapped, counted, database_created, database_found, databases_listed, entries_under,
    entry_for, epoch_bumped, index_created, index_found, index_with_id, indexes_listed, kept,
    next_number, schema_created, schema_found, schemas_listed, scope_found, table_found,
    table_renamed, table_stored, view_found, view_stored, views_listed, with_database,
};
use crate::catalog::types::{
    DatabaseCatalog, DatabaseModel, IndexCatalog, IndexModel, SchemaCatalog, SchemaModel,
    TableEntry, ViewCatalog, ViewModel,
};
use crate::error::Report;
use crate::json::object_text;
use crate::mem_store::Contents;
use crate::schema::{normalized, TableModel};
use crate::sorting::{law_sorted, law_text_order_is_strict, order_of, strict_on, text_less};

verus! {

/// A database is made where none has its name, with a number that the catalog has not given out;
/// one that is there is refused, or kept as it is where that is no fault, and then nothing
/// changes.
pub proof fn law_databases_are_made_once(contents: Contents, name: Seq<char>, if_not_exists: bool)
    ensures
        ({
            let start = bootstrapped(contents);
            let (made, after) = database_created(contents, name, if_not_exists);
            match database_found(start, name) {
                Err(e) => made == Err::<DatabaseModel, Report>(e) && after == start,
                Ok(Some(there)) => after == start && match made {
                    Ok(database) => if_not_exists && database == there,
                    Err(e) => !if_not_exists && e.code == "42P04"@,
                },
                Ok(None) => made matches Ok(database) && database.database_name == name
                    && database.database_id == next_number(start, "__catalog__/next_database_id"@),
            }
        }),
{
}

/// A database that is made is found by its name afterwards, and so is its schema `public`.
pub proof fn law_made_databases_are_found(
    contents: Contents,
    name: Seq<char>,
    if_not_exists: bool,
    database: DatabaseModel,
    schema: SchemaModel,
)
    requires
        database_found(bootstrapped(contents), name) == Ok::<Option<DatabaseModel>, Report>(None),
        database_created(contents, name, if_not_exists).0 == Ok::<DatabaseModel, Report>(database),
        stored_database(object_text(database_members(database))) == Ok::<DatabaseModel, Report>(
            database,
        ),
        schema == (SchemaModel {
            schema_id: next_number(
                with_database(
                    counted(bootstrapped(contents), "__catalog__/next_database_id"@),
                    database,
                ),
                "__catalog__/next_schema_id"@,
            ),
            database_id: database.database_id,
            schema_name: "public"@,
        }),
        stored_schema(object_text(schema_members(schema))) == Ok::<SchemaModel, Report>(schema),
    ensures
        ({
            let after = database_created(contents, name, if_not_exists).1;
            &&& database_found(after, name) == Ok::<Option<DatabaseModel>, Report>(Some(database))
            &&& schema_found(after, database.database_id, "public"@) == Ok::<
                Option<SchemaModel>,
                Report,
            >(Some(schema))
        }),
{
    let start = bootstrapped(contents);
    let first = counted(start, "__catalog__/next_database_id"@);
    let made = with_database(first, database);
    law_written_database_is_found(first, database);
    law_counting_keeps_scopes(
        made,
        "__catalog__/next_schema_id"@,
        name,
        database.database_id,
        "public"@,
    );
    let second = counted(made, "__catalog__/next_schema_id"@);
    law_writing_a_schema_keeps_databases(second, schema, name);
    law_written_schema_is_found(second, schema);
}

/// A schema is made in its database where none has its name there; one that is there is refused,
/// or kept as it is where that is no fault.
pub proof fn law_schemas_are_made_once(
    contents: Contents,
    database_name: Seq<char>,
    name: Seq<char>,
    if_not_exists: bool,
    database: DatabaseModel,
)
    requires
        database_found(bootstrapped(contents), database_name) == Ok::<
            Option<DatabaseModel>,
            Report,
        >(Some(database)),
    ensures
        ({
            let start = bootstrapped(contents);
            let (made, after) = schema_created(contents, database_name, name, if_not_exists);
            match schema_found(start, database.database_id, name) {
                Err(e) => made == Err::<SchemaModel, Report>(e) && after == start,
                Ok(Some(there)) => after == start && match made {
                    Ok(schema) => if_not_exists && schema == there,
                    Err(e) => !if_not_exists && e.code == "42P06"@,
                },
                Ok(None) => made matches Ok(schema) && schema.schema_name == name
                    && schema.database_id == database.database_id && schema.schema_id
                    == next_number(start, "__catalog__/next_schema_id"@) && (stored_schema(
                    object_text(schema_members(schema)),
                ) == Ok::<SchemaModel, Report>(schema) ==> schema_found(
                    after,
                    database.database_id,
                    name,
                ) == Ok::<Option<SchemaModel>, Report>(Some(schema))),
            }
        }),
{
    let start = bootstrapped(contents);
    let (made, after) = schema_created(contents, database_name, name, if_not_exists);
    if let Ok(None) = schema_found(start, database.database_id, name) {
        let schema = made->Ok_0;
        if stored_schema(object_text(schema_members(schema))) == Ok::<SchemaModel, Report>(schema) {
            law_written_schema_is_found(counted(start, "__catalog__/next_schema_id"@), schema);
        }
    }
}

/// A table that is stored is found by its name afterwards, as it was described.
pub proof fn law_stored_tables_are_found(
    contents: Contents,
    database_name: Seq<char>,
    schema_name: Seq<char>,
    table: TableModel,
    database: DatabaseModel,
    schema: SchemaModel,
)
    requires
        scope_found(bootstrapped(contents), database_name, schema_name) == Ok::<
            (DatabaseModel, SchemaModel),
            Report,
        >((database, schema)),
        stored_table(
            object_text(table_members(entry_for(database, schema, schema_name, table))),
        ) == Ok::<TableEntry, Report>(entry_for(database, schema, schema_name, table)),
    ensures
        table_stored(contents, database_name, schema_name, table).0 is Ok,
        table_found(
            table_stored(contents, database_name, schema_name, table).1,
            database_name,
            schema_name,
            table.table_name,
        ) matches Ok(Some(entry)) && entry.schema == normalized(table) && entry.table_name
            == table.table_name && entry.schema_name == schema_name && entry.database_id
            == database.database_id && entry.schema_id == schema.schema_id,
{
    law_stored_table_is_found(
        bootstrapped(contents),
        database_name,
        schema_name,
        database,
        schema,
        entry_for(database, schema, schema_name, table),
    );
}

/// A view is stored where nothing has its name; one that is there is replaced where the statement
/// says so, which changes its definition alone, passed over where that is no fault, and refused
/// otherwise. A table of the name is always in the way.
pub proof fn law_views_are_stored_or_replaced(
    contents: Contents,
    database_name: Seq<char>,
    schema_name: Seq<char>,
    view_name: Seq<char>,
    definition: Seq<char>,
    or_replace: bool,
    if_not_exists: bool,
    database: DatabaseModel,
    schema: SchemaModel,
)
    requires
        scope_found(bootstrapped(contents), database_name, schema_name) == Ok::<
            (DatabaseModel, SchemaModel),
            Report,
        >((database, schema)),
        table_found(bootstrapped(contents), database_name, schema_name, view_name) is Ok,
        view_found(bootstrapped(contents), database_name, schema_name, view_name) is Ok,
    ensures
        ({
            let start = bootstrapped(contents);
            let (stored, after) = view_stored(
                contents,
                database_name,
                schema_name,
                view_name,
                definition,
                or_replace,
                if_not_exists,
            );
            let table = table_found(start, database_name, schema_name, view_name)->Ok_0;
            let there = view_found(start, database_name, schema_name, view_name)->Ok_0;
            match stored {
                Err(e) => e.code == "42P07"@ && after == start && (table is Some || there is Some
                    && !or_replace && !if_not_exists),
                Ok(None) => after == start && table is None && there is Some && if_not_exists,
                Ok(Some(view)) => {
                    &&& table is None
                    &&& view.definition == definition
                    &&& match there {
                        Some(old) => or_replace && !if_not_exists && view == (ViewModel {
                            definition,
                            ..old
                        }),
                        None => view.view_name == view_name && view.schema_name == schema_name
                            && view.database_id == database.database_id && view.schema_id
                            == schema.schema_id && view.view_id == next_number(
                            start,
                            "__catalog__/next_view_id"@,
                        ),
                    }
                },
            }
        }),
{
}

/// An index is made for its table, on the columns that it is asked on, unique or not as asked for,
/// with a number that the catalog has not given out; one of its name is refused, or passed over
/// where that is no fault.
pub proof fn law_indexes_are_made_once(
    contents: Contents,
    database_name: Seq<char>,
    schema_name: Seq<char>,
    table_name: Seq<char>,
    index_name: Seq<char>,
    column_names: Seq<Seq<char>>,
    unique: bool,
    if_not_exists: bool,
    table: TableEntry,
)
    requires
        table_found(bootstrapped(contents), database_name, schema_name, table_name) == Ok::<
            Option<TableEntry>,
            Report,
        >(Some(table)),
        index_found(
            bootstrapped(contents),
            table.database_id,
            table.schema_id,
            index_name,
        ) is Ok,
    ensures
        ({
            let start = bootstrapped(contents);
            let there = index_found(start, table.database_id, table.schema_id, index_name)->Ok_0;
            let (made, after) = index_created(
                contents,
                database_name,
                schema_name,
                table_name,
                index_name,
                column_names,
                unique,
                if_not_exists,
            );
            match made {
                Err(e) => after == start && (there is Some && !if_not_exists && e.code == "42P07"@
                    || there is None && column_names.len() == 0 && e.code == "42601"@),
                Ok(None) => after == start && there is Some && if_not_exists,
                Ok(Some(index)) => {
                    &&& there is None && column_names.len() > 0
                    &&& index.index_name == index_name && index.column_names == column_names
                    &&& index.unique == unique && index.column_name == column_names[0]
                    &&& index.table_id == table.schema.table_id && index.table_name == table_name
                    &&& index.database_id == table.database_id && index.schema_id
                        == table.schema_id && index.schema_name == schema_name
                    &&& index.index_id == next_number(start, "__catalog__/next_index_id"@)
                },
            }
        }),
{
}

/// A table goes into an epoch that it was not in before, and stays the same otherwise.
pub proof fn law_epochs_go_on(
    contents: Contents,
    database_name: Seq<char>,
    schema_name: Seq<char>,
    table_name: Seq<char>,
    table: TableEntry,
)
    requires
        table_found(bootstrapped(contents), database_name, schema_name, table_name) == Ok::<
            Option<TableEntry>,
            Report,
        >(Some(table)),
        table.schema.table_epoch < u64::MAX,
    ensures
        epoch_bumped(contents, database_name, schema_name, table_name).0 matches Ok(next) ==> {
            &&& next.schema.table_epoch == table.schema.table_epoch + 1
            &&& next.schema.table_id == table.schema.table_id
            &&& next.schema.columns == table.schema.columns
            &&& next.schema.primary_key == table.schema.primary_key
            &&& next.schema.unique_constraints == table.schema.unique_constraints
            &&& next.schema.check_constraints == table.schema.check_constraints
            &&& next.schema.foreign_keys == table.schema.foreign_keys
            &&& next.table_name == table.table_name
            &&& epoch_bumped(contents, database_name, schema_name, table_name).1 == table_stored(
                bootstrapped(contents),
                database_name,
                schema_name,
                next.schema,
            ).1
        },
{
}

/// A table gets another name only where none has it; it keeps everything but its name.
pub proof fn law_renamed_tables_stay_the_same(
    contents: Contents,
    database_name: Seq<char>,
    schema_name: Seq<char>,
    old_name: Seq<char>,
    new_name: Seq<char>,
    database: DatabaseModel,
    schema: SchemaModel,
)
    requires
        scope_found(bootstrapped(contents), database_name, schema_name) == Ok::<
            (DatabaseModel, SchemaModel),
            Report,
        >((database, schema)),
        table_found(bootstrapped(contents), database_name, schema_name, new_name) is Ok,
        table_found(bootstrapped(contents), database_name, schema_name, old_name) is Ok,
    ensures
        ({
            let start = bootstrapped(contents);
            let new = table_found(start, database_name, schema_name, new_name)->Ok_0;
            let old = table_found(start, database_name, schema_name, old_name)->Ok_0;
            let (renamed, after) = table_renamed(
                contents,
                database_name,
                schema_name,
                old_name,
                new_name,
            );
            &&& new is Some ==> (renamed matches Err(e) && e.code == "42P07"@) && after == start
            &&& new is None && old is None ==> (renamed matches Err(e) && e.code == "42P01"@)
                && after == start
            &&& renamed matches Ok(table) ==> new is None && (old matches Some(before) && {
                &&& table.table_name == new_name && table.schema.table_name == new_name
                &&& table.schema == (TableModel { table_name: new_name, ..before.schema })
                &&& table == (TableEntry {
                    table_name: new_name,
                    schema: table.schema,
                    ..before
                })
            })
        }),
{
}

/// A list has each entry that is wanted, and no other, behind what it had; one entry that cannot be
/// read is the error of all.
pub proof fn law_listed_entries_are_wanted<T>(
    entries: Seq<(Seq<u8>, Seq<u8>)>,
    reader: spec_fn(Seq<u8>) -> Result<T, Report>,
    wanted: spec_fn(T) -> bool,
    done: Seq<T>,
)
    ensures
        kept(entries, reader, wanted, done) matches Ok(found) ==> {
            &&& found.len() >= done.len() && found.take(done.len() as int) == done
            &&& forall|i: int| done.len() <= i < found.len() ==> wanted(#[trigger] found[i])
            &&& forall|k: int|
                0 <= k < entries.len() ==> reader((#[trigger] entries[k]).1) is Ok && (wanted(
                    reader(entries[k].1)->Ok_0,
                ) ==> found.contains(reader(entries[k].1)->Ok_0))
        },
        kept(entries, reader, wanted, done) is Err <==> exists|k: int|
            0 <= k < entries.len() && reader((#[trigger] entries[k]).1) is Err,
    decreases entries.len(),
{
    if entries.len() == 0 {
        assert(done.take(done.len() as int) =~= done);
    } else {
        let rest = entries.skip(1);
        match reader(entries[0].1) {
            Err(e) => {
                assert(reader(entries[0].1) is Err);
            },
            Ok(value) => {
                let next = if wanted(value) {
                    done.push(value)
                } else {
                    done
                };
                law_listed_entries_are_wanted(rest, reader, wanted, next);
                match kept(rest, reader, wanted, next) {
                    Ok(found) => {
                        assert(found.take(done.len() as int) =~= next.take(done.len() as int)) by {
                            assert(found.take(next.len() as int) == next);
                            assert(found.take(next.len() as int).take(done.len() as int)
                                =~= found.take(done.len() as int));
                        }
                        assert(next.take(done.len() as int) =~= done);
                        assert forall|i: int| done.len() <= i < found.len() implies wanted(
                            #[trigger] found[i],
                        ) by {
                            if i < next.len() {
                                assert(found.take(next.len() as int)[i] == next[i]);
                            }
                        }
                        assert forall|k: int| 0 <= k < entries.len() implies reader(
                            (#[trigger] entries[k]).1,
                        ) is Ok && (wanted(reader(entries[k].1)->Ok_0) ==> found.contains(
                            reader(entries[k].1)->Ok_0,
                        )) by {
                            if k > 0 {
                                assert(rest[k - 1] == entries[k]);
                            } else if wanted(value) {
                                assert(found.take(next.len() as int)[done.len() as int] == value);
                                assert(found[done.len() as int] == value);
                            }
                        }
                        if exists|k: int|
                            0 <= k < entries.len() && reader((#[trigger] entries[k]).1) is Err {
                            let k = choose|k: int|
                                0 <= k < entries.len() && reader((#[trigger] entries[k]).1) is Err;
                            assert(rest[k - 1] == entries[k]);
                        }
                    },
                    Err(e) => {
                        let k = choose|k: int|
                            0 <= k < rest.len() && reader((#[trigger] rest[k]).1) is Err;
                        assert(entries[k + 1] == rest[k]);
                    },
                }
            },
        }
    }
}

/// A database lists its own schemas alone, and each of them.
pub proof fn law_databases_list_their_schemas(
    contents: Contents,
    database_name: Seq<char>,
    database: DatabaseModel,
    schemas: Seq<SchemaModel>,
    k: int,
)
    requires
        database_found(contents, database_name) == Ok::<Option<DatabaseModel>, Report>(
            Some(database),
        ),
        schemas_listed(contents, database_name) == Ok::<Seq<SchemaModel>, Report>(schemas),
    ensures
        forall|i: int|
            0 <= i < schemas.len() ==> (#[trigger] schemas[i]).database_id == database.database_id,
        0 <= k < entries_under(contents, SCHEMAS_BY_ID@).len() ==> (
        stored_schema(
            entries_under(contents, SCHEMAS_BY_ID@)[k].1,
        ) matches Ok(schema) && (schema.database_id == database.database_id ==> schemas.contains(
            schema,
        ))),
        forall|i: int, j: int|
            0 <= i < j < schemas.len() ==> !text_less(
                (#[trigger] schemas[j]).schema_name,
                (#[trigger] schemas[i]).schema_name,
            ),
{
    let entries = entries_under(contents, SCHEMAS_BY_ID@);
    let reader = |bytes: Seq<u8>| stored_schema(bytes);
    let wanted = |schema: SchemaModel| schema.database_id == database.database_id;
    law_listed_entries_are_wanted(entries, reader, wanted, seq![]);
    let found = kept(entries, reader, wanted, seq![])->Ok_0;
    let before = order_of::<SchemaCatalog>();
    lemma_schemas_in_order(found);
    law_sorted(found, before);
    lemma_same_items(schemas, found);
    assert forall|i: int, j: int| 0 <= i < j < schemas.len() implies !text_less(
        (#[trigger] schemas[j]).schema_name,
        (#[trigger] schemas[i]).schema_name,
    ) by {
        assert(!before(schemas[j], schemas[i]));
    }
    assert forall|i: int| 0 <= i < schemas.len() implies (#[trigger] schemas[i]).database_id
        == database.database_id by {
        assert(schemas.contains(schemas[i]));
        let j = choose|j: int| 0 <= j < found.len() && found[j] == schemas[i];
        assert(wanted(found[j]));
    }
    if 0 <= k < entries.len() {
        assert(reader(entries[k].1) is Ok);
    }
}

proof fn lemma_texts(a: Seq<char>, b: Seq<char>, c: Seq<char>)
    ensures
        text_less(a, b) ==> !text_less(b, a),
        text_less(a, b) && !text_less(c, b) ==> text_less(a, c),
        text_less(a, b) || text_less(b, a) || a == b,
{
    law_text_order_is_strict();
    let before = order_of::<String>();
    assert(before(a, b) == text_less(a, b));
    assert(before(b, a) == text_less(b, a));
    assert(before(c, b) == text_less(c, b));
    assert(before(a, c) == text_less(a, c));
    lemma_bytes_less_total(encode_utf8(a), encode_utf8(b));
    encode_utf8_decode_utf8(a);
    encode_utf8_decode_utf8(b);
}

proof fn lemma_schemas_in_order(items: Seq<SchemaModel>)
    ensures
        strict_on(items.to_set(), order_of::<SchemaCatalog>()),
{
    let before = order_of::<SchemaCatalog>();
    assert forall|a: SchemaModel, b: SchemaModel| #[trigger] before(a, b) implies !before(b, a) by {
        lemma_texts(a.schema_name, b.schema_name, a.schema_name);
    }
    assert forall|a: SchemaModel, b: SchemaModel, c: SchemaModel| #[trigger]
        before(a, b) && !#[trigger] before(c, b) implies before(a, c) by {
        lemma_texts(a.schema_name, b.schema_name, c.schema_name);
    }
}

proof fn lemma_views_in_order(items: Seq<ViewModel>)
    ensures
        strict_on(items.to_set(), order_of::<ViewCatalog>()),
{
    let before = order_of::<ViewCatalog>();
    assert forall|a: ViewModel, b: ViewModel| #[trigger] before(a, b) implies !before(b, a) by {
        lemma_texts(a.schema_name, b.schema_name, a.schema_name);
        lemma_texts(a.view_name, b.view_name, a.view_name);
    }
    assert forall|a: ViewModel, b: ViewModel, c: ViewModel| #[trigger]
        before(a, b) && !#[trigger] before(c, b) implies before(a, c) by {
        lemma_texts(a.schema_name, b.schema_name, c.schema_name);
        lemma_texts(c.schema_name, b.schema_name, a.schema_name);
        lemma_texts(a.view_name, b.view_name, c.view_name);
    }
}

/// Databases are listed by their names, each of them once.
pub proof fn law_databases_are_listed_by_name(
    contents: Contents,
    databases: Seq<DatabaseModel>,
    k: int,
)
    requires
        databases_listed(contents) == Ok::<Seq<DatabaseModel>, Report>(databases),
    ensures
        forall|i: int, j: int|
            0 <= i < j < databases.len() ==> !text_less(
                (#[trigger] databases[j]).database_name,
                (#[trigger] databases[i]).database_name,
            ),
        0 <= k < entries_under(contents, DATABASES_BY_ID@).len() ==> (stored_database(
            entries_under(contents, DATABASES_BY_ID@)[k].1,
        ) matches Ok(database) && databases.contains(database)),
{
    let entries = entries_under(contents, DATABASES_BY_ID@);
    let reader = |bytes: Seq<u8>| stored_database(bytes);
    let wanted = |database: DatabaseModel| true;
    law_listed_entries_are_wanted(entries, reader, wanted, seq![]);
    let found = kept(entries, reader, wanted, seq![])->Ok_0;
    let before = order_of::<DatabaseCatalog>();
    assert forall|a: DatabaseModel, b: DatabaseModel| #[trigger] before(a, b) implies !before(
        b,
        a,
    ) by {
        lemma_texts(a.database_name, b.database_name, a.database_name);
    }
    assert forall|a: DatabaseModel, b: DatabaseModel, c: DatabaseModel| #[trigger]
        before(a, b) && !#[trigger] before(c, b) implies before(a, c) by {
        lemma_texts(a.database_name, b.database_name, c.database_name);
    }
    law_sorted(found, before);
    lemma_same_items(databases, found);
    assert forall|i: int, j: int| 0 <= i < j < databases.len() implies !text_less(
        (#[trigger] databases[j]).database_name,
        (#[trigger] databases[i]).database_name,
    ) by {
        assert(!before(databases[j], databases[i]));
    }
    if 0 <= k < entries.len() {
        assert(reader(entries[k].1) is Ok);
    }
}

/// The indexes of a table are listed by their names, each of those that are filed for it.
pub proof fn law_indexes_are_listed_by_name(
    contents: Contents,
    table_id: u32,
    indexes: Seq<IndexModel>,
    k: int,
)
    requires
        indexes_listed(contents, table_id) == Ok::<Seq<IndexModel>, Report>(indexes),
    ensures
        forall|i: int, j: int|
            0 <= i < j < indexes.len() ==> !text_less(
                (#[trigger] indexes[j]).index_name,
                (#[trigger] indexes[i]).index_name,
            ),
        0 <= k < entries_under(contents, table_indexes_path(table_id)).len() ==> (index_with_id(
            contents,
            entries_under(contents, table_indexes_path(table_id))[k].1,
        ) matches Ok(index) && indexes.contains(index)),
{
    let entries = entries_under(contents, table_indexes_path(table_id));
    let reader = |bytes: Seq<u8>| index_with_id(contents, bytes);
    let wanted = |index: IndexModel| true;
    law_listed_entries_are_wanted(entries, reader, wanted, seq![]);
    let found = kept(entries, reader, wanted, seq![])->Ok_0;
    let before = order_of::<IndexCatalog>();
    assert forall|a: IndexModel, b: IndexModel| #[trigger] before(a, b) implies !before(b, a) by {
        lemma_texts(a.index_name, b.index_name, a.index_name);
    }
    assert forall|a: IndexModel, b: IndexModel, c: IndexModel| #[trigger]
        before(a, b) && !#[trigger] before(c, b) implies before(a, c) by {
        lemma_texts(a.index_name, b.index_name, c.index_name);
    }
    law_sorted(found, before);
    lemma_same_items(indexes, found);
    assert forall|i: int, j: int| 0 <= i < j < indexes.len() implies !text_less(
        (#[trigger] indexes[j]).index_name,
        (#[trigger] indexes[i]).index_name,
    ) by {
        assert(!before(indexes[j], indexes[i]));
    }
    if 0 <= k < entries.len() {
        assert(reader(entries[k].1) is Ok);
    }
}

proof fn lemma_same_items<T>(a: Seq<T>, b: Seq<T>)
    requires
        a.to_multiset() == b.to_multiset(),
    ensures
        a.len() == b.len(),
        forall|x: T| a.contains(x) <==> b.contains(x),
{
    a.to_multiset_ensures();
    b.to_multiset_ensures();
    assert forall|x: T| a.contains(x) <==> b.contains(x) by {
        assert(a.contains(x) <==> a.to_multiset().count(x) > 0);
        assert(b.contains(x) <==> b.to_multiset().count(x) > 0);
    }
}

/// A database lists its own views alone, and each of them.
pub proof fn law_databases_list_their_views(
    contents: Contents,
    database_name: Seq<char>,
    database: DatabaseModel,
    views: Seq<ViewModel>,
    k: int,
)
    requires
        database_found(contents, database_name) == Ok::<Option<DatabaseModel>, Report>(
            Some(database),
        ),
        views_listed(contents, database_name) == Ok::<Seq<ViewModel>, Report>(views),
    ensures
        forall|i: int|
            0 <= i < views.len() ==> (#[trigger] views[i]).database_id == database.database_id,
        0 <= k < entries_under(contents, VIEWS_BY_ID@).len() ==> (
        stored_view(
            entries_under(contents, VIEWS_BY_ID@)[k].1,
        ) matches Ok(view) && (view.database_id == database.database_id ==> views.contains(view))),
        forall|i: int, j: int|
            0 <= i < j < views.len() ==> !text_less(
                (#[trigger] views[j]).schema_name,
                (#[trigger] views[i]).schema_name,
            ),
{
    let entries = entries_under(contents, VIEWS_BY_ID@);
    let reader = |bytes: Seq<u8>| stored_view(bytes);
    let wanted = |view: ViewModel| view.database_id == database.database_id;
    law_listed_entries_are_wanted(entries, reader, wanted, seq![]);
    let found = kept(entries, reader, wanted, seq![])->Ok_0;
    let before = order_of::<ViewCatalog>();
    lemma_views_in_order(found);
    law_sorted(found, before);
    lemma_same_items(views, found);
    assert forall|i: int, j: int| 0 <= i < j < views.len() implies !text_less(
        (#[trigger] views[j]).schema_name,
        (#[trigger] views[i]).schema_name,
    ) by {
        assert(!before(views[j], views[i]));
    }
    assert forall|i: int| 0 <= i < views.len() implies (#[trigger] views[i]).database_id
        == database.database_id by {
        assert(views.contains(views[i]));
        let j = choose|j: int| 0 <= j < found.len() && found[j] == views[i];
        assert(wanted(found[j]));
    }
    if 0 <= k < entries.len() {
        assert(reader(entries[k].1) is Ok);
    }
}

} // verus!
