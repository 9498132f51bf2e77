//! The work that writing and deleting rows comes to: rows, index entries and the keys of an
//! earlier layout that are kept beside them.
use vstd::prelude::*;

use crate::catalog::types::{IndexCatalog, IndexModel};
use crate::codec::{
    cell_bytes, cell_key, column_prefix, encode_cell_value, entry_prefix, index_entry_key,
    index_entry_prefix, key_segment, keyable, row_marker_key,
};
use crate::error::{report, user_error_text, UserError};
use crate::row::{field, RowMap, RowModel};
use crate::schema::{views, ColumnModel, Duplicate, TableModel, TableSchema};
use crate::server::rows::{
    has_null, index_value_has_null, indexed, indexed_value, indexed_value_for_columns, EntryModel,
    RowEntry,
};
use crate::text::three_texts;
use crate::types::{ColumnValue, Datum};

verus! {

/// A piece of work on the rows of a table.
#[derive(Debug)]
#[allow(inconsistent_fields)]
pub enum RowAction {
    /// Keep a row under its key.
    PutRow { key: ColumnValue, row: RowMap },
    /// Take the row under a key away.
    DeleteRow { key: ColumnValue },
    /// Enter the key of a row under a value in an index.
    PutIndexEntry { index_id: u32, value: ColumnValue, key: ColumnValue },
    /// Take the key of a row under a value out of an index.
    DeleteIndexEntry { index_id: u32, value: ColumnValue, key: ColumnValue },
    /// Keep bytes under a key.
    PutKey { key: Vec<u8>, value: Vec<u8> },
    /// Take what is kept under a key away. Where that is not required, it is no fault if storage
    /// fails at it.
    DeleteKey { key: Vec<u8>, required: bool },
    /// Make the chunks and statistics of the table anew.
    RefreshStatistics,
}

/// What a [`RowAction`] says.
#[allow(inconsistent_fields)]
pub enum RowActionModel {
    PutRow { key: Datum, row: RowModel },
    DeleteRow { key: Datum },
    PutIndexEntry { index_id: u32, value: Datum, key: Datum },
    DeleteIndexEntry { index_id: u32, value: Datum, key: Datum },
    PutKey { key: Seq<u8>, value: Seq<u8> },
    DeleteKey { key: Seq<u8>, required: bool },
    RefreshStatistics,
}

impl View for RowAction {
    type V = RowActionModel;

    open spec fn view(&self) -> RowActionModel {
        match *self {
            RowAction::PutRow { key, row } => RowActionModel::PutRow {
                key: key@,
                row: row@,
            },
            RowAction::DeleteRow { key } => RowActionModel::DeleteRow {
                key: key@,
            },
            RowAction::PutIndexEntry { index_id, value, key } => RowActionModel::PutIndexEntry {
                index_id,
                value: value@,
                key: key@,
            },
            RowAction::DeleteIndexEntry {
                index_id,
                value,
                key,
            } => RowActionModel::DeleteIndexEntry {
                index_id,
                value: value@,
                key: key@,
            },
            RowAction::PutKey { key, value } => RowActionModel::PutKey {
                key: key@,
                value: value@,
            },
            RowAction::DeleteKey { key, required } => RowActionModel::DeleteKey {
                key: key@,
                required,
            },
            RowAction::RefreshStatistics => RowActionModel::RefreshStatistics,
        }
    }
}

/// The table whose rows are worked on.
pub struct RowPlace<'a> {
    pub database_name: &'a str,
    pub schema_name: &'a str,
    pub table_name: &'a str,
}

/// What a [`RowPlace`] says.
pub struct PlaceModel {
    pub database_name: Seq<char>,
    pub schema_name: Seq<char>,
    pub table_name: Seq<char>,
}

impl<'a> View for RowPlace<'a> {
    type V = PlaceModel;

    open spec fn view(&self) -> PlaceModel {
        PlaceModel {
            database_name: self.database_name@,
            schema_name: self.schema_name@,
            table_name: self.table_name@,
        }
    }
}

/// The key of the marker of a row.
pub open spec fn marker_of(place: PlaceModel, key: Datum) -> Seq<u8> {
    column_prefix(place.database_name, place.schema_name, place.table_name, "__row__"@)
        + key_segment(key)
}

/// The key of a cell of a row.
pub open spec fn cell_of(place: PlaceModel, column_name: Seq<char>, key: Datum) -> Seq<u8> {
    column_prefix(place.database_name, place.schema_name, place.table_name, column_name)
        + key_segment(key)
}

/// The key of an entry of an index.
pub open spec fn entry_of(place: PlaceModel, index_name: Seq<char>, value: Datum, key: Datum) -> Seq<
    u8,
> {
    entry_prefix(place.database_name, place.schema_name, place.table_name, index_name, value)
        + key_segment(key)
}

/// The work that takes the marker and the cells of a row away.
pub open spec fn cells_removed(
    place: PlaceModel,
    columns: Seq<ColumnModel>,
    key: Datum,
    required: bool,
) -> Seq<RowActionModel> {
    seq![RowActionModel::DeleteKey { key: marker_of(place, key), required }] + columns.map_values(
        |column: ColumnModel|
            RowActionModel::DeleteKey { key: cell_of(place, column.name, key), required },
    )
}

/// The work that takes a row out of the indexes of its table.
pub open spec fn entries_removed(
    place: PlaceModel,
    indexes: Seq<IndexModel>,
    key: Datum,
    row: RowModel,
) -> Seq<RowActionModel>
    decreases indexes.len(),
{
    if indexes.len() == 0 {
        seq![]
    } else {
        let index = indexes.last();
        let value = indexed(row, index.column_names);
        entries_removed(place, indexes.drop_last(), key, row) + seq![
            RowActionModel::DeleteIndexEntry { index_id: index.index_id, value, key },
            RowActionModel::DeleteKey {
                key: entry_of(place, index.index_name, value, key),
                required: true,
            },
        ]
    }
}

/// The work that enters a row in the indexes of its table.
pub open spec fn entries_put(
    place: PlaceModel,
    indexes: Seq<IndexModel>,
    key: Datum,
    row: RowModel,
) -> Seq<RowActionModel>
    decreases indexes.len(),
{
    if indexes.len() == 0 {
        seq![]
    } else {
        let index = indexes.last();
        let value = indexed(row, index.column_names);
        entries_put(place, indexes.drop_last(), key, row) + seq![
            RowActionModel::PutIndexEntry { index_id: index.index_id, value, key },
            RowActionModel::PutKey {
                key: entry_of(place, index.index_name, value, key),
                value: seq![1],
            },
        ]
    }
}

/// The work that writes a row: the entries of the row that was there go, the row is put, what
/// the earlier layout has of it goes where storage lets it, and its entries are put.
pub open spec fn row_written(
    place: PlaceModel,
    table: TableModel,
    indexes: Seq<IndexModel>,
    key: Datum,
    row: RowModel,
    old_row: Option<RowModel>,
    refresh: bool,
) -> Seq<RowActionModel> {
    (match old_row {
        Some(before) => entries_removed(place, indexes, key, before),
        None => seq![],
    }) + seq![RowActionModel::PutRow { key, row }] + cells_removed(
        place,
        table.columns,
        key,
        false,
    )
        + entries_put(place, indexes, key, row) + (if refresh {
        seq![RowActionModel::RefreshStatistics]
    } else {
        seq![]
    })
}

/// The work that deletes a row: the entries of the row that is there go, the row, what the
/// earlier layout has of it, and the statistics are made anew.
pub open spec fn row_deleted(
    place: PlaceModel,
    table: TableModel,
    indexes: Seq<IndexModel>,
    key: Datum,
    old_row: Option<RowModel>,
) -> Seq<RowActionModel> {
    (match old_row {
        Some(before) => entries_removed(place, indexes, key, before),
        None => seq![],
    }) + seq![RowActionModel::DeleteRow { key }] + cells_removed(
        place,
        table.columns,
        key,
        true,
    )
        + seq![RowActionModel::RefreshStatistics]
}

fn add_row_action(actions: &mut Vec<RowAction>, action: RowAction)
    ensures
        views(final(actions)@) == views(old(actions)@).push(action@),
{
    let ghost before = views(actions@);
    let ghost model = action@;
    actions.push(action);
    assert(views(actions@) =~= before.push(model));
}

fn add_cells_removed(
    actions: &mut Vec<RowAction>,
    place: &RowPlace,
    schema: &TableSchema,
    key: &ColumnValue,
    required: bool,
)
    requires
        keyable(key@),
    ensures
        views(final(actions)@) == views(old(actions)@) + cells_removed(
            place@,
            schema@.columns,
            key@,
            required,
        ),
{
    let ghost before = views(actions@);
    add_row_action(
        actions,
        RowAction::DeleteKey {
            key: row_marker_key(
                place.database_name,
                place.schema_name,
                place.table_name,
                key,
            ),
            required,
        },
    );
    let ghost marked = views(actions@);
    let ghost columns = schema@.columns;
    let ghost work = columns.map_values(
        |column: ColumnModel|
            RowActionModel::DeleteKey { key: cell_of(place@, column.name, key@), required },
    );
    let mut i: usize = 0;
    assert(marked =~= marked + work.take(0));
    while i < schema.columns.len()
        invariant
            i <= schema.columns@.len(),
            keyable(key@),
            columns == views(schema.columns@),
            work == columns.map_values(
                |column: ColumnModel|
                    RowActionModel::DeleteKey { key: cell_of(place@, column.name, key@), required },
            ),
            views(actions@) == marked + work.take(i as int),
        decreases schema.columns@.len() - i,
    {
        assert(columns[i as int] == schema.columns@[i as int]@);
        add_row_action(
            actions,
            RowAction::DeleteKey {
                key: cell_key(
                    place.database_name,
                    place.schema_name,
                    place.table_name,
                    schema.columns[i].name.as_str(),
                    key,
                ),
                required,
            },
        );
        assert(work.take(i + 1) =~= work.take(i as int).push(work[i as int]));
        assert(views(actions@) =~= marked + work.take(i + 1));
        i += 1;
    }
    assert(work.take(i as int) =~= work);
    assert(views(actions@) =~= before + cells_removed(place@, columns, key@, required));
}

fn add_entries_removed(
    actions: &mut Vec<RowAction>,
    place: &RowPlace,
    indexes: &Vec<IndexCatalog>,
    key: &ColumnValue,
    row: &RowMap,
)
    requires
        keyable(key@),
    ensures
        views(final(actions)@) == views(old(actions)@) + entries_removed(
            place@,
            views(indexes@),
            key@,
            row@,
        ),
{
    let ghost before = views(actions@);
    let ghost all = views(indexes@);
    let mut i: usize = 0;
    assert(before =~= before + entries_removed(place@, all.take(0), key@, row@));
    while i < indexes.len()
        invariant
            i <= indexes@.len(),
            keyable(key@),
            all == views(indexes@),
            views(actions@) == before + entries_removed(place@, all.take(i as int), key@, row@),
        decreases indexes@.len() - i,
    {
        let index = &indexes[i];
        assert(all.take(i + 1).drop_last() =~= all.take(i as int));
        assert(all.take(i + 1).last() == index@);
        let value = indexed_value(row, index);
        let entry = index_entry_key(
            place.database_name,
            place.schema_name,
            place.table_name,
            index.index_name.as_str(),
            &value,
            key,
        );
        add_row_action(
            actions,
            RowAction::DeleteIndexEntry { index_id: index.index_id, value, key: key.copied() },
        );
        add_row_action(actions, RowAction::DeleteKey { key: entry, required: true });
        assert(views(actions@) =~= before + entries_removed(place@, all.take(i + 1), key@, row@));
        i += 1;
    }
    assert(all.take(i as int) =~= all);
}

fn one_byte() -> (bytes: Vec<u8>)
    ensures
        bytes@ == seq![1u8],
{
    let mut bytes: Vec<u8> = Vec::new();
    bytes.push(1);
    assert(bytes@ =~= seq![1u8]);
    bytes
}

fn add_entries_put(
    actions: &mut Vec<RowAction>,
    place: &RowPlace,
    indexes: &Vec<IndexCatalog>,
    key: &ColumnValue,
    row: &RowMap,
)
    requires
        keyable(key@),
    ensures
        views(final(actions)@) == views(old(actions)@) + entries_put(
            place@,
            views(indexes@),
            key@,
            row@,
        ),
{
    let ghost before = views(actions@);
    let ghost all = views(indexes@);
    let mut i: usize = 0;
    assert(before =~= before + entries_put(place@, all.take(0), key@, row@));
    while i < indexes.len()
        invariant
            i <= indexes@.len(),
            keyable(key@),
            all == views(indexes@),
            views(actions@) == before + entries_put(place@, all.take(i as int), key@, row@),
        decreases indexes@.len() - i,
    {
        let index = &indexes[i];
        assert(all.take(i + 1).drop_last() =~= all.take(i as int));
        assert(all.take(i + 1).last() == index@);
        let value = indexed_value(row, index);
        let entry = index_entry_key(
            place.database_name,
            place.schema_name,
            place.table_name,
            index.index_name.as_str(),
            &value,
            key,
        );
        add_row_action(
            actions,
            RowAction::PutIndexEntry { index_id: index.index_id, value, key: key.copied() },
        );
        add_row_action(actions, RowAction::PutKey { key: entry, value: one_byte() });
        assert(views(actions@) =~= before + entries_put(place@, all.take(i + 1), key@, row@));
        i += 1;
    }
    assert(all.take(i as int) =~= all);
}

/// The work that writes a row.
pub fn write_row_work(
    place: &RowPlace,
    schema: &TableSchema,
    indexes: &Vec<IndexCatalog>,
    key: &ColumnValue,
    row: &RowMap,
    old_row: &Option<RowMap>,
    refresh: bool,
) -> (actions: Vec<RowAction>)
    requires
        keyable(key@),
    ensures
        views(actions@) == row_written(
            place@,
            schema@,
            views(indexes@),
            key@,
            row@,
            crate::schema::option_view(*old_row),
            refresh,
        ),
{
    let mut actions: Vec<RowAction> = Vec::new();
    assert(views(actions@) =~= Seq::<RowActionModel>::empty());
    if let Some(before) = old_row {
        add_entries_removed(&mut actions, place, indexes, key, before);
    }
    add_row_action(&mut actions, RowAction::PutRow { key: key.copied(), row: row.duplicate() });
    add_cells_removed(&mut actions, place, schema, key, false);
    add_entries_put(&mut actions, place, indexes, key, row);
    if refresh {
        add_row_action(&mut actions, RowAction::RefreshStatistics);
    }
    assert(views(actions@) =~= row_written(
        place@,
        schema@,
        views(indexes@),
        key@,
        row@,
        crate::schema::option_view(*old_row),
        refresh,
    ));
    actions
}

/// The work that deletes a row.
pub fn delete_row_work(
    place: &RowPlace,
    schema: &TableSchema,
    indexes: &Vec<IndexCatalog>,
    key: &ColumnValue,
    old_row: &Option<RowMap>,
) -> (actions: Vec<RowAction>)
    requires
        keyable(key@),
    ensures
        views(actions@) == row_deleted(
            place@,
            schema@,
            views(indexes@),
            key@,
            crate::schema::option_view(*old_row),
        ),
{
    let mut actions: Vec<RowAction> = Vec::new();
    assert(views(actions@) =~= Seq::<RowActionModel>::empty());
    if let Some(before) = old_row {
        add_entries_removed(&mut actions, place, indexes, key, before);
    }
    add_row_action(&mut actions, RowAction::DeleteRow { key: key.copied() });
    add_cells_removed(&mut actions, place, schema, key, true);
    add_row_action(&mut actions, RowAction::RefreshStatistics);
    assert(views(actions@) =~= row_deleted(
        place@,
        schema@,
        views(indexes@),
        key@,
        crate::schema::option_view(*old_row),
    ));
    actions
}

/// Deleting a row takes out of the indexes exactly what writing it has put in.
pub proof fn law_delete_undoes_index_entries(
    place: PlaceModel,
    indexes: Seq<IndexModel>,
    key: Datum,
    row: RowModel,
)
    ensures
        entries_put(place, indexes, key, row).len() == entries_removed(
            place,
            indexes,
            key,
            row,
        ).len(),
        forall|i: int|
            0 <= i < entries_put(place, indexes, key, row).len() ==> (match #[trigger] entries_put(
                place,
                indexes,
                key,
                row,
            )[i] {
                RowActionModel::PutIndexEntry { index_id, value, key: entered } => {
                    entries_removed(place, indexes, key, row)[i]
                        == (RowActionModel::DeleteIndexEntry { index_id, value, key: entered })
                },
                RowActionModel::PutKey { key: bytes, value } => {
                    entries_removed(place, indexes, key, row)[i] == (RowActionModel::DeleteKey {
                        key: bytes,
                        required: true,
                    })
                },
                _ => false,
            }),
    decreases indexes.len(),
{
    if indexes.len() > 0 {
        law_delete_undoes_index_entries(place, indexes.drop_last(), key, row);
    }
}

/// Whether a key other than a row's own is entered under the value of a unique index.
pub open spec fn taken_by_other(existing: Seq<Seq<u8>>, own: Seq<u8>) -> bool {
    exists|i: int| 0 <= i < existing.len() && #[trigger] existing[i] != own
}

/// The bytes of keys.
pub open spec fn key_bytes(keys: Seq<Vec<u8>>) -> Seq<Seq<u8>> {
    keys.map_values(|key: Vec<u8>| key@)
}

/// Refuses a row whose value in a unique index is taken: `existing` are the keys that are
/// entered under the value, `own` is the one of the row. A null is never taken.
pub fn unique_index_verdict(
    index: &IndexCatalog,
    value: &ColumnValue,
    existing: &Vec<Vec<u8>>,
    own: &Vec<u8>,
) -> (result: Result<(), UserError>)
    ensures
        result is Ok <==> !(index.unique && value@ != Datum::Null && taken_by_other(
            key_bytes(existing@),
            own@,
        )),
        result matches Err(error) ==> error@ == report(
            "23505"@,
            "duplicate key value violates unique constraint '"@ + index@.index_name + "'"@,
        ),
{
    if !index.unique || value.is_null() {
        return Ok(());
    }
    let mut i: usize = 0;
    while i < existing.len()
        invariant
            i <= existing@.len(),
            index.unique,
            value@ != Datum::Null,
            forall|k: int| 0 <= k < i ==> #[trigger] key_bytes(existing@)[k] == own@,
        decreases existing@.len() - i,
    {
        assert(key_bytes(existing@)[i as int] == existing@[i as int]@);
        if !same_key(&existing[i], own) {
            return Err(
                user_error_text(
                    "23505",
                    three_texts(
                        "duplicate key value violates unique constraint '",
                        index.index_name.as_str(),
                        "'",
                    ),
                ),
            );
        }
        i += 1;
    }
    Ok(())
}

fn same_key(a: &Vec<u8>, b: &Vec<u8>) -> (same: bool)
    ensures
        same == (a@ == b@),
{
    if a.len() != b.len() {
        return false;
    }
    let mut i: usize = 0;
    while i < a.len()
        invariant
            i <= a@.len(),
            a@.len() == b@.len(),
            forall|k: int| 0 <= k < i ==> a@[k] == b@[k],
        decreases a@.len() - i,
    {
        if a[i] != b[i] {
            return false;
        }
        i += 1;
    }
    assert(a@ =~= b@);
    true
}

/// The start of the entry of a row in a new unique index; rows with a null have none.
pub open spec fn entry_start(
    place: PlaceModel,
    index_name: Seq<char>,
    columns: Seq<Seq<char>>,
    row: RowModel,
) -> Option<Seq<u8>> {
    let value = indexed(row, columns);
    if has_null(value) {
        None
    } else {
        Some(
            entry_prefix(
                place.database_name,
                place.schema_name,
                place.table_name,
                index_name,
                value,
            ),
        )
    }
}

/// Whether two rows would stand under one value of a new unique index.
pub open spec fn breaks_index(
    place: PlaceModel,
    index_name: Seq<char>,
    columns: Seq<Seq<char>>,
    rows: Seq<EntryModel>,
) -> bool {
    exists|i: int, j: int|
        0 <= i < j < rows.len() && entry_start(
            place,
            index_name,
            columns,
            (#[trigger] rows[i]).row,
        ) is Some && entry_start(place, index_name, columns, rows[i].row) == entry_start(
            place,
            index_name,
            columns,
            (#[trigger] rows[j]).row,
        )
}

/// Refuses a new unique index over rows of which two have one value.
pub fn check_index_values(
    place: &RowPlace,
    index_name: &str,
    column_names: &Vec<String>,
    unique: bool,
    rows: &Vec<RowEntry>,
) -> (result: Result<(), UserError>)
    ensures
        result is Ok <==> !(unique && breaks_index(
            place@,
            index_name@,
            views(column_names@),
            views(rows@),
        )),
        result matches Err(error) ==> error@ == report(
            "23505"@,
            "could not create unique index '"@ + index_name@ + "': duplicate values exist"@,
        ),
{
    if !unique {
        return Ok(());
    }
    let ghost columns = views(column_names@);
    let ghost all = views(rows@);
    let mut known: Vec<Vec<u8>> = Vec::new();
    let ghost mut places: Seq<int> = Seq::empty();
    let mut i: usize = 0;
    while i < rows.len()
        invariant
            i <= rows@.len(),
            unique,
            columns == views(column_names@),
            all == views(rows@),
            places.len() == known@.len(),
            forall|k: int|
                0 <= k < known@.len() ==> 0 <= (#[trigger] places[k]) < i && entry_start(
                    place@,
                    index_name@,
                    columns,
                    all[places[k]].row,
                ) == Some(known@[k]@),
            forall|a: int|
                0 <= a < i && entry_start(place@, index_name@, columns, (#[trigger] all[a]).row)
                    is Some ==> exists|k: int| 0 <= k < known@.len() && (#[trigger] places[k]) == a,
            forall|a: int, b: int|
                0 <= a < b < i && entry_start(
                    place@,
                    index_name@,
                    columns,
                    (#[trigger] all[a]).row,
                ) is Some ==> entry_start(place@, index_name@, columns, all[a].row) != entry_start(
                    place@,
                    index_name@,
                    columns,
                    (#[trigger] all[b]).row,
                ),
        decreases rows@.len() - i,
    {
        let entry = &rows[i];
        assert(all[i as int] == entry@);
        let value = indexed_value_for_columns(&entry.row, column_names);
        if index_value_has_null(&value) {
            i += 1;
            continue ;
        }
        let start = index_entry_prefix(
            place.database_name,
            place.schema_name,
            place.table_name,
            index_name,
            &value,
        );
        assert(entry_start(place@, index_name@, columns, all[i as int].row) == Some(start@));
        let mut k: usize = 0;
        while k < known.len()
            invariant
                k <= known@.len(),
                i < rows@.len(),
                unique,
                columns == views(column_names@),
                all == views(rows@),
                entry_start(place@, index_name@, columns, all[i as int].row) == Some(start@),
                places.len() == known@.len(),
                forall|m: int|
                    0 <= m < known@.len() ==> 0 <= (#[trigger] places[m]) < i && entry_start(
                        place@,
                        index_name@,
                        columns,
                        all[places[m]].row,
                    ) == Some(known@[m]@),
                forall|m: int| 0 <= m < k ==> (#[trigger] known@[m])@ != start@,
            decreases known@.len() - k,
        {
            if same_key(&known[k], &start) {
                proof {
                    let j = places[k as int];
                    assert(entry_start(place@, index_name@, columns, all[j].row) is Some);
                    assert(breaks_index(place@, index_name@, columns, all));
                }
                return Err(
                    user_error_text(
                        "23505",
                        three_texts(
                            "could not create unique index '",
                            index_name,
                            "': duplicate values exist",
                        ),
                    ),
                );
            }
            k += 1;
        }
        let ghost old_known = known@;
        let ghost old_places = places;
        known.push(start);
        proof {
            places = places.push(i as int);
            assert forall|a: int|
                0 <= a < i + 1 && entry_start(
                    place@,
                    index_name@,
                    columns,
                    (#[trigger] all[a]).row,
                ) is Some implies exists|k: int|
                0 <= k < known@.len() && (#[trigger] places[k]) == a by {
                if a < i {
                    let k = choose|k: int|
                        0 <= k < old_known.len() && (#[trigger] old_places[k]) == a;
                    assert(places[k] == a);
                } else {
                    assert(places[old_known.len() as int] == a);
                }
            }
            assert forall|a: int, b: int|
                0 <= a < b < i + 1 && entry_start(
                    place@,
                    index_name@,
                    columns,
                    (#[trigger] all[a]).row,
                ) is Some implies entry_start(place@, index_name@, columns, all[a].row)
                != entry_start(place@, index_name@, columns, (#[trigger] all[b]).row) by {
                if b == i {
                    let k = choose|k: int|
                        0 <= k < old_known.len() && (#[trigger] old_places[k]) == a;
                    assert(old_known[k]@ != start@);
                }
            }
        }
        i += 1;
    }
    Ok(())
}

/// The work that fills a new index with the rows of its table.
pub open spec fn index_filled(
    place: PlaceModel,
    index_id: u32,
    index_name: Seq<char>,
    columns: Seq<Seq<char>>,
    rows: Seq<EntryModel>,
) -> Seq<RowActionModel>
    decreases rows.len(),
{
    if rows.len() == 0 {
        seq![]
    } else {
        let entry = rows.last();
        let value = indexed(entry.row, columns);
        index_filled(place, index_id, index_name, columns, rows.drop_last()) + seq![
            RowActionModel::PutIndexEntry { index_id, value, key: entry.key },
            RowActionModel::PutKey {
                key: entry_of(place, index_name, value, entry.key),
                value: seq![1],
            },
        ]
    }
}

/// The work that fills a new index with the rows of its table.
pub fn index_fill_work(
    place: &RowPlace,
    index_id: u32,
    index_name: &str,
    column_names: &Vec<String>,
    rows: &Vec<RowEntry>,
) -> (actions: Vec<RowAction>)
    requires
        forall|i: int| 0 <= i < rows@.len() ==> keyable((#[trigger] rows@[i]).key@),
    ensures
        views(actions@) == index_filled(
            place@,
            index_id,
            index_name@,
            views(column_names@),
            views(rows@),
        ),
{
    let ghost columns = views(column_names@);
    let ghost all = views(rows@);
    let mut actions: Vec<RowAction> = Vec::new();
    let mut i: usize = 0;
    assert(views(actions@) =~= index_filled(place@, index_id, index_name@, columns, all.take(0)));
    while i < rows.len()
        invariant
            i <= rows@.len(),
            forall|k: int| 0 <= k < rows@.len() ==> keyable((#[trigger] rows@[k]).key@),
            columns == views(column_names@),
            all == views(rows@),
            views(actions@) == index_filled(
                place@,
                index_id,
                index_name@,
                columns,
                all.take(i as int),
            ),
        decreases rows@.len() - i,
    {
        let entry = &rows[i];
        assert(all.take(i + 1).drop_last() =~= all.take(i as int));
        assert(all.take(i + 1).last() == entry@);
        let ghost before = views(actions@);
        let value = indexed_value_for_columns(&entry.row, column_names);
        let key = index_entry_key(
            place.database_name,
            place.schema_name,
            place.table_name,
            index_name,
            &value,
            &entry.key,
        );
        add_row_action(
            &mut actions,
            RowAction::PutIndexEntry { index_id, value, key: entry.key.copied() },
        );
        add_row_action(&mut actions, RowAction::PutKey { key, value: one_byte() });
        assert(views(actions@) =~= index_filled(
            place@,
            index_id,
            index_name@,
            columns,
            all.take(i + 1),
        ));
        i += 1;
    }
    assert(all.take(i as int) =~= all);
    actions
}

/// The work that puts a row under a new key: the row, its marker, its cells and its entries.
pub open spec fn row_rekeyed(
    place: PlaceModel,
    table: TableModel,
    indexes: Seq<IndexModel>,
    key: Datum,
    row: RowModel,
) -> Seq<RowActionModel> {
    seq![
        RowActionModel::PutRow { key, row },
        RowActionModel::PutKey { key: marker_of(place, key), value: seq![1] },
    ] + table.columns.map_values(
        |column: ColumnModel|
            RowActionModel::PutKey {
                key: cell_of(place, column.name, key),
                value: cell_bytes(field(row, column.name)),
            },
    ) + entries_put(place, indexes, key, row)
}

/// The work that puts a row under a new key.
pub fn rekey_row_work(
    place: &RowPlace,
    schema: &TableSchema,
    indexes: &Vec<IndexCatalog>,
    key: &ColumnValue,
    row: &RowMap,
) -> (actions: Vec<RowAction>)
    requires
        keyable(key@),
    ensures
        views(actions@) == row_rekeyed(place@, schema@, views(indexes@), key@, row@),
{
    let mut actions: Vec<RowAction> = Vec::new();
    assert(views(actions@) =~= Seq::<RowActionModel>::empty());
    add_row_action(&mut actions, RowAction::PutRow { key: key.copied(), row: row.duplicate() });
    add_row_action(
        &mut actions,
        RowAction::PutKey {
            key: row_marker_key(
                place.database_name,
                place.schema_name,
                place.table_name,
                key,
            ),
            value: one_byte(),
        },
    );
    let ghost marked = views(actions@);
    let ghost columns = schema@.columns;
    let ghost work = columns.map_values(
        |column: ColumnModel|
            RowActionModel::PutKey {
                key: cell_of(place@, column.name, key@),
                value: cell_bytes(field(row@, column.name)),
            },
    );
    let mut i: usize = 0;
    assert(marked =~= marked + work.take(0));
    while i < schema.columns.len()
        invariant
            i <= schema.columns@.len(),
            keyable(key@),
            columns == views(schema.columns@),
            work == columns.map_values(
                |column: ColumnModel|
                    RowActionModel::PutKey {
                        key: cell_of(place@, column.name, key@),
                        value: cell_bytes(field(row@, column.name)),
                    },
            ),
            views(actions@) == marked + work.take(i as int),
        decreases schema.columns@.len() - i,
    {
        assert(columns[i as int] == schema.columns@[i as int]@);
        let name = schema.columns[i].name.as_str();
        let value = row.value_or_null(name);
        add_row_action(
            &mut actions,
            RowAction::PutKey {
                key: cell_key(
                    place.database_name,
                    place.schema_name,
                    place.table_name,
                    name,
                    key,
                ),
                value: encode_cell_value(&value),
            },
        );
        assert(work.take(i + 1) =~= work.take(i as int).push(work[i as int]));
        assert(views(actions@) =~= marked + work.take(i + 1));
        i += 1;
    }
    assert(work.take(i as int) =~= work);
    add_entries_put(&mut actions, place, indexes, key, row);
    assert(views(actions@) =~= row_rekeyed(place@, schema@, views(indexes@), key@, row@));
    actions
}

/// The work that takes what the earlier layout has of a row under its old key away.
pub fn old_key_work(place: &RowPlace, schema: &TableSchema, key: &ColumnValue) -> (actions: Vec<
    RowAction,
>)
    requires
        keyable(key@),
    ensures
        views(actions@) == cells_removed(place@, schema@.columns, key@, true),
{
    let mut actions: Vec<RowAction> = Vec::new();
    assert(views(actions@) =~= Seq::<RowActionModel>::empty());
    add_cells_removed(&mut actions, place, schema, key, true);
    assert(views(actions@) =~= cells_removed(place@, schema@.columns, key@, true));
    actions
}

} // verus!
