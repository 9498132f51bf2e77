//! What work on whole tables is for: an index that is filled has every row, rows that get another
//! key are stored under it, altered rows keep what was not altered, and what is told of a table is
//! what it is.
use vstd::prelude::*;

use crate::catalog::model::{index_created, index_found, table_found};
use crate::catalog::types::{IndexModel, TableEntry};
use crate::codec::cell_bytes;
use crate::error::Report;
use crate::mem_store::Contents;
use crate::row::{field, RowModel};
use crate::schema::{has_column, ColumnModel, TableModel};
use crate::server::alter::WorkModel;
use crate::server::exec_rows::{index_begun, index_named, keyed_by, new_key};
use crate::server::mysql_metadata::{column_line, columns_told, index_line, key_word, table_lines};
use crate::server::olap::{chunk_of, chunks_of, pieces};
use crate::server::row_work::{
    breaks_index, cell_of, entries_put, entry_start, index_filled, marker_of, row_rekeyed,
    PlaceModel, RowActionModel,
};
use crate::server::rows::{has_null, indexed, EntryModel, VerdictModel};
use crate::server::rule_laws::{
    entries_after, is_entry_of, is_plain, lemma_entries_joined, lemma_plain, lemma_put,
    lemma_rows_joined, rows_after,
};
use crate::server::session::{search_path_of, ClientModel};
use crate::server::startup::{client_started, password_verdict};
use crate::server::table_flow::{index_built, key_changed, rekey_error, rows_altered, rows_rekeyed};
use crate::text::lower;
use crate::types::Datum;

verus! {

/// Whether an entry is that of one of some rows in an index.
pub open spec fn is_entry_in(
    index_id: u32,
    columns: Seq<Seq<char>>,
    rows: Seq<EntryModel>,
    entry: (u32, Datum, Datum),
) -> bool {
    exists|i: int|
        0 <= i < rows.len() && entry == (
            index_id,
            indexed((#[trigger] rows[i]).row, columns),
            rows[i].key,
        )
}

/// An index that is filled has the entry of each row, and those that it had; the rows stay.
pub proof fn law_filled_indexes_have_every_row(
    place: PlaceModel,
    index_id: u32,
    index_name: Seq<char>,
    columns: Seq<Seq<char>>,
    rows: Seq<EntryModel>,
    stored: Map<Datum, RowModel>,
    entries: Set<(u32, Datum, Datum)>,
    entry: (u32, Datum, Datum),
)
    ensures
        rows_after(stored, index_filled(place, index_id, index_name, columns, rows)) == stored,
        entries_after(
            entries,
            index_filled(place, index_id, index_name, columns, rows),
        ).contains(entry) <==> entries.contains(entry) || is_entry_in(
            index_id,
            columns,
            rows,
            entry,
        ),
    decreases rows.len(),
{
    if rows.len() > 0 {
        let init = rows.drop_last();
        let before = index_filled(place, index_id, index_name, columns, init);
        let one = rows.last();
        let value = indexed(one.row, columns);
        let last = seq![
            RowActionModel::PutIndexEntry { index_id, value, key: one.key },
            RowActionModel::PutKey {
                key: crate::server::row_work::entry_of(place, index_name, value, one.key),
                value: seq![1],
            },
        ];
        law_filled_indexes_have_every_row(
            place,
            index_id,
            index_name,
            columns,
            init,
            stored,
            entries,
            entry,
        );
        lemma_rows_joined(stored, before, last);
        lemma_entries_joined(entries, before, last);
        assert(last.drop_last() =~= seq![last[0]]);
        assert(last.drop_last().drop_last() =~= seq![]);
        let start = entries_after(entries, before);
        assert(rows_after(stored, last) == stored) by {
            reveal_with_fuel(rows_after, 3);
        }
        assert(entries_after(start, last) == start.insert((index_id, value, one.key))) by {
            reveal_with_fuel(entries_after, 3);
        }
        if is_entry_in(index_id, columns, init, entry) {
            let i = choose|i: int|
                0 <= i < init.len() && entry == (
                    index_id,
                    indexed((#[trigger] init[i]).row, columns),
                    init[i].key,
                );
            assert(rows[i] == init[i]);
        }
        if is_entry_in(index_id, columns, rows, entry) {
            let i = choose|i: int|
                0 <= i < rows.len() && entry == (
                    index_id,
                    indexed((#[trigger] rows[i]).row, columns),
                    rows[i].key,
                );
            if i < init.len() {
                assert(init[i] == rows[i]);
            }
        }
        if entry == (index_id, value, one.key) {
            assert(rows[rows.len() - 1] == one);
        }
    }
}

/// Two rows with the same values keep a unique index away; a null keeps nothing away.
pub proof fn law_equal_rows_refuse_a_unique_index(
    contents: Contents,
    place: PlaceModel,
    index_name: Seq<char>,
    column_names: Seq<Seq<char>>,
    if_not_exists: bool,
    rows: Seq<EntryModel>,
    i: int,
    j: int,
)
    requires
        0 <= i < j < rows.len(),
        indexed(rows[i].row, column_names) == indexed(rows[j].row, column_names),
        !has_null(indexed(rows[i].row, column_names)),
        index_begun(
            contents,
            place.database_name,
            place.schema_name,
            place.table_name,
            index_name,
            column_names,
            if_not_exists,
        ) matches Ok(Some(_)),
    ensures
        index_built(
            contents,
            place,
            index_name,
            column_names,
            true,
            if_not_exists,
            rows,
        ).0 matches Err(e) && e.code == "23505"@,
        index_built(
            contents,
            place,
            index_name,
            column_names,
            true,
            if_not_exists,
            rows,
        ).1 == contents,
{
    assert(entry_start(place, index_name, column_names, rows[i].row) is Some);
    assert(breaks_index(place, index_name, column_names, rows));
}

/// An index that is built is the one that the catalog made, and is filled with all rows; an index
/// that need not be unique is never kept away by them.
pub proof fn law_built_indexes_are_filled(
    contents: Contents,
    place: PlaceModel,
    index_name: Seq<char>,
    column_names: Seq<Seq<char>>,
    unique: bool,
    if_not_exists: bool,
    rows: Seq<EntryModel>,
)
    ensures
        ({
            let (built, after) = index_built(
                contents,
                place,
                index_name,
                column_names,
                unique,
                if_not_exists,
                rows,
            );
            let made = index_created(
                contents,
                place.database_name,
                place.schema_name,
                place.table_name,
                index_name,
                column_names,
                unique,
                if_not_exists,
            );
            &&& built matches Ok(Some(fill)) ==> made == (
                Ok::<Option<IndexModel>, Report>(Some(fill.index)),
                after,
            ) && fill.actions == index_filled(
                place,
                fill.index.index_id,
                index_name,
                column_names,
                rows,
            )
            &&& !unique && (index_begun(
                contents,
                place.database_name,
                place.schema_name,
                place.table_name,
                index_name,
                column_names,
                if_not_exists,
            ) matches Ok(Some(_))) ==> after == made.1
        }),
{
}

/// An index is begun on a table that is there, on columns that it has, where no index has the
/// name; one that is there is refused, or passed over where that is no fault.
pub proof fn law_indexes_are_begun_once(
    contents: Contents,
    database_name: Seq<char>,
    schema_name: Seq<char>,
    table_name: Seq<char>,
    index_name: Seq<char>,
    column_names: Seq<Seq<char>>,
    if_not_exists: bool,
    table: TableEntry,
)
    requires
        table_found(contents, database_name, schema_name, table_name) == Ok::<
            Option<TableEntry>,
            Report,
        >(Some(table)),
        index_found(contents, table.database_id, table.schema_id, index_name) is Ok,
    ensures
        ({
            let there = index_found(contents, table.database_id, table.schema_id, index_name)->Ok_0;
            match index_begun(
                contents,
                database_name,
                schema_name,
                table_name,
                index_name,
                column_names,
                if_not_exists,
            ) {
                Ok(Some(found)) => found == table && there is None,
                Ok(None) => there is Some && if_not_exists,
                Err(e) => there is Some && !if_not_exists && e.code == "42P07"@ || e.code
                    == "42703"@,
            }
        }),
{
}

/// The index that is to get another name is one of the table's, by its name in any case.
pub proof fn law_renamed_indexes_are_the_named_ones(indexes: Seq<IndexModel>, name: Seq<char>)
    ensures
        match index_named(indexes, name) {
            Some(index) => indexes.contains(index) && lower(index.index_name) == lower(name),
            None => forall|i: int|
                0 <= i < indexes.len() ==> lower((#[trigger] indexes[i]).index_name) != lower(name),
        },
    decreases indexes.len(),
{
    if indexes.len() > 0 {
        if lower(indexes[0].index_name) == lower(name) {
            assert(indexes.contains(indexes[0]));
        } else {
            let rest = indexes.skip(1);
            law_renamed_indexes_are_the_named_ones(rest, name);
            match index_named(rest, name) {
                Some(index) => {
                    let i = choose|i: int| 0 <= i < rest.len() && rest[i] == index;
                    assert(indexes[i + 1] == index);
                },
                None => {
                    assert forall|i: int| 0 <= i < indexes.len() implies lower(
                        (#[trigger] indexes[i]).index_name,
                    ) != lower(name) by {
                        if i > 0 {
                            assert(rest[i - 1] == indexes[i]);
                        }
                    }
                },
            }
        }
    }
}

/// A row that gets another key is stored under it, with a marker and a cell for each column, and
/// is entered in each index; no other row is touched.
pub proof fn law_rekeyed_rows_are_stored(
    place: PlaceModel,
    table: TableModel,
    indexes: Seq<IndexModel>,
    key: Datum,
    row: RowModel,
    rows: Map<Datum, RowModel>,
    entries: Set<(u32, Datum, Datum)>,
    entry: (u32, Datum, Datum),
    c: int,
)
    ensures
        rows_after(rows, row_rekeyed(place, table, indexes, key, row)) == rows.insert(key, row),
        entries_after(entries, row_rekeyed(place, table, indexes, key, row)).contains(entry)
            <==> entries.contains(entry) || is_entry_of(indexes, key, row, entry),
        row_rekeyed(place, table, indexes, key, row).contains(
            RowActionModel::PutKey { key: marker_of(place, key), value: seq![1] },
        ),
        0 <= c < table.columns.len() ==> row_rekeyed(place, table, indexes, key, row).contains(
            RowActionModel::PutKey {
                key: cell_of(place, table.columns[c].name, key),
                value: cell_bytes(field(row, table.columns[c].name)),
            },
        ),
{
    let first = seq![
        RowActionModel::PutRow { key, row },
        RowActionModel::PutKey { key: marker_of(place, key), value: seq![1] },
    ];
    let second = table.columns.map_values(
        |column: ColumnModel|
            RowActionModel::PutKey {
                key: cell_of(place, column.name, key),
                value: cell_bytes(field(row, column.name)),
            },
    );
    let third = entries_put(place, indexes, key, row);
    let all = row_rekeyed(place, table, indexes, key, row);
    assert(all == first + second + third);
    assert(first.drop_last() =~= seq![first[0]]);
    assert(first.drop_last().drop_last() =~= seq![]);
    assert(rows_after(rows, first) == rows.insert(key, row)) by {
        reveal_with_fuel(rows_after, 3);
    }
    assert(entries_after(entries, first) == entries) by {
        reveal_with_fuel(entries_after, 3);
    }
    lemma_rows_joined(rows, first, second);
    lemma_entries_joined(entries, first, second);
    assert(is_plain(second));
    lemma_plain(rows.insert(key, row), entries, second);
    lemma_rows_joined(rows, first + second, third);
    lemma_entries_joined(entries, first + second, third);
    lemma_put(place, rows.insert(key, row), entries, indexes, key, row);
    assert(all[1] == first[1]);
    if 0 <= c < table.columns.len() {
        assert(all[2 + c] == second[c]);
    }
}

/// Rows that get another key are all stored under it: each under its value of the column that
/// becomes the key, where no two have the same.
pub proof fn law_all_rows_are_rekeyed(
    place: PlaceModel,
    table: TableModel,
    indexes: Seq<IndexModel>,
    column_name: Seq<char>,
    rows: Seq<EntryModel>,
    stored: Map<Datum, RowModel>,
    i: int,
)
    requires
        0 <= i < rows.len(),
        forall|a: int, b: int|
            0 <= a < b < rows.len() ==> field((#[trigger] rows[a]).row, column_name) != field(
                (#[trigger] rows[b]).row,
                column_name,
            ),
    ensures
        ({
            let after = rows_after(
                stored,
                rows_rekeyed(place, table, indexes, column_name, rows),
            );
            after.dom().contains(field(rows[i].row, column_name)) && after[field(
                rows[i].row,
                column_name,
            )] == rows[i].row
        }),
    decreases rows.len(),
{
    let init = rows.drop_last();
    let before = rows_rekeyed(place, table, indexes, column_name, init);
    let last = row_rekeyed(
        place,
        table,
        indexes,
        field(rows.last().row, column_name),
        rows.last().row,
    );
    lemma_rows_joined(stored, before, last);
    law_rekeyed_rows_are_stored(
        place,
        table,
        indexes,
        field(rows.last().row, column_name),
        rows.last().row,
        rows_after(stored, before),
        Set::empty(),
        (0, Datum::Null, Datum::Null),
        0,
    );
    if i < init.len() {
        assert forall|a: int, b: int| 0 <= a < b < init.len() implies field(
            (#[trigger] init[a]).row,
            column_name,
        ) != field((#[trigger] init[b]).row, column_name) by {
            assert(init[a] == rows[a]);
            assert(init[b] == rows[b]);
        }
        law_all_rows_are_rekeyed(place, table, indexes, column_name, init, stored, i);
        assert(init[i] == rows[i]);
        assert(rows[rows.len() - 1] == rows.last());
    }
}

/// A column that becomes the key of a table is its key afterwards, alone, and may not be null;
/// everything else stays, and the rows go into another epoch. A table with a key of its own keeps
/// it.
pub proof fn law_keys_become_the_key(table: TableModel, column_name: Seq<char>, c: int)
    ensures
        match keyed_by(table, column_name) {
            Ok(next) => {
                &&& has_column(table.columns, column_name)
                &&& next.primary_key == column_name
                &&& table.table_epoch < u64::MAX ==> next.table_epoch == table.table_epoch + 1
                &&& next.table_id == table.table_id && next.table_name == table.table_name
                &&& next.unique_constraints == table.unique_constraints
                &&& next.columns.len() == table.columns.len()
                &&& 0 <= c < table.columns.len() ==> {
                    &&& next.columns[c].name == table.columns[c].name
                    &&& next.columns[c].data_type == table.columns[c].data_type
                    &&& next.columns[c].primary_key <==> table.columns[c].name == column_name
                    &&& next.columns[c].nullable <==> table.columns[c].nullable
                        && table.columns[c].name != column_name
                    &&& next.columns[c].default == table.columns[c].default
                }
            },
            Err(e) => !has_column(table.columns, column_name) && e.code == "42703"@ || e.code
                == "0A000"@ && table.primary_key != column_name,
        },
{
}

/// The change of a key is refused where a row breaks a rule of the new description, has no value
/// for the key, or has that of a row before it; else the table is keyed by the column and its rows
/// are stored anew.
pub proof fn law_key_changes_are_checked(
    place: PlaceModel,
    table: TableModel,
    indexes: Seq<IndexModel>,
    column_name: Seq<char>,
    rows: Seq<EntryModel>,
    verdicts: Seq<Seq<VerdictModel>>,
)
    ensures
        match key_changed(place, table, indexes, column_name, rows, verdicts) {
            Ok(change) => keyed_by(table, column_name) == Ok::<TableModel, Report>(change.schema)
                && rekey_error(change.schema, column_name, rows, verdicts) is None
                && exists|front: Seq<RowActionModel>|
                change.actions == #[trigger] (front + rows_rekeyed(
                    place,
                    change.schema,
                    indexes,
                    column_name,
                    rows,
                )),
            Err(e) => match keyed_by(table, column_name) {
                Err(why) => e == why,
                Ok(schema) => rekey_error(schema, column_name, rows, verdicts) == Some(e),
            },
        },
{
    if let Ok(change) = key_changed(place, table, indexes, column_name, rows, verdicts) {
        let front = crate::server::table_flow::old_keys_removed(place, table, column_name, rows);
        assert(change.actions == front + rows_rekeyed(
            place,
            change.schema,
            indexes,
            column_name,
            rows,
        ));
    }
}

/// A key of a row is its value for the column, which is not null.
pub proof fn law_new_keys_are_values(row: RowModel, column_name: Seq<char>, known: Seq<Seq<u8>>)
    ensures
        new_key(row, column_name, known) matches Ok(key) ==> key == field(row, column_name) && key
            != Datum::Null,
        field(row, column_name) == Datum::Null ==> (new_key(row, column_name, known) matches Err(e)
            && e.code == "23502"@),
{
}

/// Rows of a table whose description changed keep their keys and every value but that of the
/// column that came or went; one that came has its own value in each row, one that went has none.
pub proof fn law_altered_rows_keep_the_rest(
    work: WorkModel,
    rows: Seq<EntryModel>,
    values: Seq<Datum>,
    i: int,
    name: Seq<char>,
)
    requires
        0 <= i < rows.len(),
        rows.len() == values.len(),
    ensures
        rows_altered(work, rows, values).len() == rows.len(),
        rows_altered(work, rows, values)[i].key == rows[i].key,
        ({
            let row = rows_altered(work, rows, values)[i].row;
            match work {
                WorkModel::Keep => row == rows[i].row,
                WorkModel::AddValue(column) => if name == column.name {
                    row.dom().contains(name) && row[name] == values[i]
                } else {
                    row.dom().contains(name) == rows[i].row.dom().contains(name) && field(row, name)
                        == field(rows[i].row, name)
                },
                WorkModel::RemoveValue(gone) => if name == gone {
                    !row.dom().contains(name)
                } else {
                    row.dom().contains(name) == rows[i].row.dom().contains(name) && field(row, name)
                        == field(rows[i].row, name)
                },
            }
        }),
{
}

/// A chunk has the values of each column, row by row, under the number of the column, and says how
/// many rows it has; chunks are counted from one.
pub proof fn law_chunks_have_their_values(
    table: TableModel,
    rows: Seq<RowModel>,
    number: int,
    c: int,
    r: int,
)
    requires
        0 <= c < table.columns.len(),
        0 <= r < rows.len(),
        rows.len() <= u32::MAX,
        0 <= number <= u64::MAX,
    ensures
        ({
            let chunk = chunk_of(table, rows, number);
            &&& chunk.row_count == rows.len()
            &&& chunk.chunk_id == number
            &&& chunk.columns.len() == table.columns.len()
            &&& chunk.columns[c].column_id == table.columns[c].column_id
            &&& chunk.columns[c].values.len() == rows.len()
            &&& chunk.columns[c].values[r] == field(rows[r], table.columns[c].name)
        }),
{
}

/// The chunks of rows are those of their pieces, in their order, with numbers from one on.
pub proof fn law_chunks_are_counted(
    table: TableModel,
    rows: Seq<RowModel>,
    size: nat,
    i: int,
)
    requires
        0 <= i < pieces(rows, size).len(),
    ensures
        chunks_of(table, rows, size).len() == pieces(rows, size).len(),
        chunks_of(table, rows, size)[i] == chunk_of(table, pieces(rows, size)[i], i + 1),
{
}

/// A MySQL client is told the name, the default and the null of each column as they are, and what
/// kind of key it is: the primary one, a unique one by itself, another, or none.
pub proof fn law_columns_are_told_as_they_are(
    table: TableModel,
    indexes: Seq<IndexModel>,
    type_names: Seq<Seq<char>>,
    c: int,
)
    requires
        0 <= c < table.columns.len(),
        type_names.len() == table.columns.len(),
    ensures
        ({
            let column = table.columns[c];
            let told = columns_told(table, indexes, type_names)[c];
            &&& columns_told(table, indexes, type_names).len() == table.columns.len()
            &&& told.field == column.name
            &&& told.column_type == type_names[c]
            &&& told.nullable == if column.nullable {
                "YES"@
            } else {
                "NO"@
            }
            &&& told.default_value == column.default
            &&& column.primary_key || column.name == table.primary_key ==> told.key == "PRI"@
            &&& told.key == "PRI"@ ==> column.primary_key || column.name == table.primary_key
        }),
{
    reveal_strlit("PRI");
    reveal_strlit("UNI");
    reveal_strlit("MUL");
    assert("PRI"@.len() == 3 && "PRI"@[0] == 'P');
    assert("UNI"@[0] == 'U' && "MUL"@[0] == 'M');
}

/// A column that is unique by itself, through an index of one column, is told as such.
pub proof fn law_unique_columns_are_told(
    table: TableModel,
    indexes: Seq<IndexModel>,
    column: ColumnModel,
    i: int,
)
    requires
        0 <= i < indexes.len(),
        indexes[i].column_names == seq![column.name],
        !column.primary_key,
        column.name != table.primary_key,
    ensures
        indexes[i].unique ==> key_word(
            column,
            table.primary_key,
            table.unique_constraints,
            indexes,
        ) == "UNI"@,
        !indexes[i].unique ==> key_word(
            column,
            table.primary_key,
            table.unique_constraints,
            indexes,
        ) == "UNI"@ || key_word(
            column,
            table.primary_key,
            table.unique_constraints,
            indexes,
        ) == "MUL"@,
{
    assert(lower(indexes[i].column_names[0]) == lower(column.name));
    assert(crate::server::mysql_metadata::listed_in(indexes[i].column_names, column.name));
}

/// The statement that a MySQL client is told of a table has a line for each column, then one for
/// the key, where the table has one of its own, and one for each index behind all others.
pub proof fn law_table_statements_have_their_lines(
    table: TableModel,
    indexes: Seq<IndexModel>,
    type_names: Seq<Seq<char>>,
    c: int,
    i: int,
)
    requires
        type_names.len() == table.columns.len(),
    ensures
        ({
            let lines = table_lines(table, indexes, type_names);
            &&& lines.len() >= table.columns.len() + indexes.len()
            &&& 0 <= c < table.columns.len() ==> lines[c] == column_line(
                table.columns[c],
                type_names[c],
                table.primary_key,
            )
            &&& 0 <= i < indexes.len() ==> lines[lines.len() - indexes.len() + i] == index_line(
                indexes[i],
            )
        }),
{
}

/// A client is let in just where it gives the password that is expected; without one nobody is.
pub proof fn law_passwords_let_in(
    given: Seq<char>,
    expected: Option<Seq<char>>,
    user: Option<Seq<char>>,
)
    ensures
        password_verdict(given, expected, user) is Ok <==> (expected matches Some(word) && word
            == given),
        password_verdict(given, None, user) is Err,
{
}

/// A client starts in its database and keeps its schema; where it has none it gets the first of
/// its search path, or the default one. Nothing else of it changes.
pub proof fn law_clients_start_in_their_scope(client: ClientModel, database: Seq<char>)
    ensures
        ({
            let next = client_started(client, database);
            &&& next.database == Some(database)
            &&& client.current_schema is Some ==> next.current_schema == client.current_schema
                && next.search_path == client.search_path
            &&& client.current_schema is None && (client.search_path matches Some(text)
                && search_path_of(text).len() > 0) ==> next.current_schema == Some(
                search_path_of(client.search_path->0)[0],
            )
            &&& client.current_schema is None && client.search_path is None ==> next.current_schema
                == Some(crate::catalog::types::DEFAULT_SCHEMA_NAME@)
            &&& next.session_id == client.session_id && next.user == client.user && next.status
                == client.status && next.isolation == client.isolation && next.autocommit
                == client.autocommit
        }),
{
}

} // verus!
