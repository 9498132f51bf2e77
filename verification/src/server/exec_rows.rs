//! The steps of plans on rows: what is decided between reading a row and writing one, and how
//! the client is answered at the end.
use vstd::prelude::*;

use crate::catalog::model::{
    bootstrapped, index_dropped, index_found, indexes_listed, law_bootstrap_is_stable, no_table,
    scope_found, table_found,
};
use crate::catalog::types::{IndexCatalog, IndexModel, TableCatalog, TableEntry};
use crate::codec::{encode_primary_key_segment, index_table_prefix, indexes_prefix};
use crate::codec::{key_segment, keyable};
use crate::error::{
    not_internal, report, unsupported, unsupported_report, user_error_text, Report, UserError,
};
use crate::mem_store::{Contents, KvStore};
use crate::mode::GatewayMode;
use crate::response::{command_complete_rows, completed_rows, Response, ResponseModel};
use crate::row::{field, rows_equal, RowMap, RowModel};
use crate::schema::{
    has_column, option_view, seen, seen_option, views, ColumnModel, ColumnSchema, Duplicate,
    TableModel, TableSchema,
};
use crate::server::alter::{
    alter_table, altered, next_version, no_column, no_column_error, AlterChange, ChangeModel,
};
use crate::server::exec::{ActionModel, StorageAction};
use crate::server::gateway::{only_opened, GatewayServer};
use crate::server::plan::{
    AlterModel, ConflictModel, InsertConflictAction, ReadAccess, ReadModel, TableAlterOperation,
};
use crate::server::rows::{CheckVerdict, EntryModel, RowEntry, VerdictModel};
use crate::text::{
    lower, same_but_for_case, same_text, signed_decimal, signed_decimal_text, three_texts,
};
use crate::types::{same_bytes, ColumnValue, Datum, INTERNAL_ROWID_COLUMN};

verus! {

/// The key of a row that is to be inserted: its value for the primary key of its table or, where
/// the table has none of its own, the identifier that was taken for the row.
pub open spec fn key_for_insert(table: TableModel, row: RowModel, row_id: Datum) -> Datum {
    if table.primary_key != INTERNAL_ROWID_COLUMN@ {
        field(row, table.primary_key)
    } else {
        row_id
    }
}

/// The key of a row that is to be written by a statement that makes a table.
pub fn written_key(schema: &TableSchema, row: &RowMap, row_id: &ColumnValue) -> (key: ColumnValue)
    ensures
        key@ == key_for_insert(schema@, row@, row_id@),
{
    if schema.has_user_primary_key() {
        row.value_or_null(schema.primary_key.as_str())
    } else {
        row_id.copied()
    }
}

/// The key of a row that is to be inserted, which may not be null.
pub fn insert_key(schema: &TableSchema, row: &RowMap, row_id: &ColumnValue) -> (result: Result<
    ColumnValue,
    UserError,
>)
    ensures
        seen(result) == (if key_for_insert(schema@, row@, row_id@) == Datum::Null {
            Err(
                report(
                    "23502"@,
                    "null value for primary key '"@ + schema@.primary_key + "'"@,
                ),
            )
        } else {
            Ok(key_for_insert(schema@, row@, row_id@))
        }),
{
    let key = written_key(schema, row, row_id);
    if key.is_null() {
        return Err(
            user_error_text(
                "23502",
                three_texts("null value for primary key '", schema.primary_key.as_str(), "'"),
            ),
        );
    }
    Ok(key)
}

/// What is done with one row of an insertion.
pub enum InsertStep {
    /// Nothing.
    Skip,
    /// The row under one key goes, where there is one, and a row is written under another; it
    /// counts for some rows.
    Write { replaced: Option<ColumnValue>, key: ColumnValue, row: RowMap, affected: usize },
}

/// What an [`InsertStep`] says.
pub enum InsertModel {
    Skip,
    Write { replaced: Option<Datum>, key: Datum, row: RowModel, affected: usize },
}

impl View for InsertStep {
    type V = InsertModel;

    open spec fn view(&self) -> InsertModel {
        match *self {
            InsertStep::Skip => InsertModel::Skip,
            InsertStep::Write { replaced, key, row, affected } => InsertModel::Write {
                replaced: option_view(replaced),
                key: key@,
                row: row@,
                affected,
            },
        }
    }
}

/// What is done with one row of an insertion: `existing` is the row that it clashes with,
/// `updated` what the statement would make of that one, `key_taken` says whether a row is there
/// under the key. A row that is replaced, or changed, counts for two.
pub open spec fn inserted_row(
    table: TableModel,
    on_conflict: Option<ConflictModel>,
    key: Datum,
    row: RowModel,
    existing: Option<EntryModel>,
    updated: Option<RowModel>,
    key_taken: bool,
) -> Result<InsertModel, Report> {
    match existing {
        Some(entry) => match on_conflict {
            Some(ConflictModel::DoNothing) => Ok(InsertModel::Skip),
            Some(ConflictModel::DoNothingAnyUnique { target_column_sets }) => Ok(
                InsertModel::Skip,
            ),
            Some(ConflictModel::ReplaceAnyUnique { target_column_sets }) => Ok(
                InsertModel::Write { replaced: Some(entry.key), key, row, affected: 2 },
            ),
            Some(_) => match updated {
                None => Ok(InsertModel::Skip),
                Some(next) => Ok(
                    InsertModel::Write {
                        replaced: None,
                        key: entry.key,
                        row: next,
                        affected: if rows_equal(next, entry.row) {
                            0
                        } else {
                            2
                        },
                    },
                ),
            },
            None => Ok(InsertModel::Write { replaced: None, key, row, affected: 0 }),
        },
        None => if on_conflict is None && table.primary_key != INTERNAL_ROWID_COLUMN@ && key_taken {
            Err(
                report(
                    "23505"@,
                    "duplicate key value violates unique constraint '"@ + table.table_name
                        + "_pkey'"@,
                ),
            )
        } else {
            Ok(InsertModel::Write { replaced: None, key, row, affected: 1 })
        },
    }
}

/// What is done with one row of an insertion.
pub fn insert_step(
    schema: &TableSchema,
    on_conflict: &Option<InsertConflictAction>,
    key: ColumnValue,
    row: RowMap,
    existing: Option<RowEntry>,
    updated: Option<RowMap>,
    key_taken: bool,
) -> (result: Result<InsertStep, UserError>)
    ensures
        seen(result) == inserted_row(
            schema@,
            option_view(*on_conflict),
            key@,
            row@,
            option_view(existing),
            option_view(updated),
            key_taken,
        ),
{
    match existing {
        Some(entry) => match on_conflict {
            Some(InsertConflictAction::DoNothing) => Ok(InsertStep::Skip),
            Some(InsertConflictAction::DoNothingAnyUnique { target_column_sets }) => Ok(
                InsertStep::Skip,
            ),
            Some(InsertConflictAction::ReplaceAnyUnique { target_column_sets }) => Ok(
                InsertStep::Write { replaced: Some(entry.key), key, row, affected: 2 },
            ),
            Some(_) => match updated {
                None => Ok(InsertStep::Skip),
                Some(next) => {
                    let affected: usize = if next.same_row(&entry.row) {
                        0
                    } else {
                        2
                    };
                    Ok(InsertStep::Write { replaced: None, key: entry.key, row: next, affected })
                },
            },
            None => Ok(InsertStep::Write { replaced: None, key, row, affected: 0 }),
        },
        None => {
            if on_conflict.is_none() && schema.has_user_primary_key() && key_taken {
                return Err(
                    user_error_text(
                        "23505",
                        three_texts(
                            "duplicate key value violates unique constraint '",
                            schema.table_name.as_str(),
                            "_pkey'",
                        ),
                    ),
                );
            }
            Ok(InsertStep::Write { replaced: None, key, row, affected: 1 })
        },
    }
}

/// A row is never written where the statement leaves rows that are there alone.
pub proof fn law_do_nothing_keeps_rows(
    table: TableModel,
    key: Datum,
    row: RowModel,
    existing: EntryModel,
    updated: Option<RowModel>,
    key_taken: bool,
    target_column_sets: Seq<Seq<Seq<char>>>,
)
    ensures
        inserted_row(
            table,
            Some(ConflictModel::DoNothing),
            key,
            row,
            Some(existing),
            updated,
            key_taken,
        ) == Ok::<InsertModel, Report>(InsertModel::Skip),
        inserted_row(
            table,
            Some(ConflictModel::DoNothingAnyUnique { target_column_sets }),
            key,
            row,
            Some(existing),
            updated,
            key_taken,
        ) == Ok::<InsertModel, Report>(InsertModel::Skip),
{
}

/// What an insertion has done so far.
pub struct InsertCounts {
    pub inserted: usize,
    pub affected_rows: usize,
    pub first_insert_id: Option<i64>,
}

impl InsertCounts {
    /// An insertion that has done nothing yet.
    pub fn new() -> (counts: InsertCounts)
        ensures
            counts.inserted == 0,
            counts.affected_rows == 0,
            counts.first_insert_id is None,
    {
        InsertCounts { inserted: 0, affected_rows: 0, first_insert_id: None }
    }

    /// Counts a row that was written; the first identifier that a sequence gave is kept.
    pub fn count(&mut self, affected: usize, insert_id: Option<i64>)
        requires
            old(self).inserted < usize::MAX,
            old(self).affected_rows + affected <= usize::MAX,
        ensures
            final(self).inserted == old(self).inserted + 1,
            final(self).affected_rows == old(self).affected_rows + affected,
            final(self).first_insert_id == (if old(self).first_insert_id is Some {
                old(self).first_insert_id
            } else {
                insert_id
            }),
    {
        self.inserted = self.inserted + 1;
        self.affected_rows = self.affected_rows + affected;
        if self.first_insert_id.is_none() {
            self.first_insert_id = insert_id;
        }
    }
}

/// The answer to an insertion: MySQL clients are told the first identifier and the rows that
/// count, PostgreSQL clients the rows that were written.
pub open spec fn insert_answer(mode: GatewayMode, counts: InsertCounts) -> ResponseModel {
    if mode == GatewayMode::MySql {
        completed_rows(
            "INSERT "@ + signed_decimal(
                match counts.first_insert_id {
                    Some(id) => id as int,
                    None => 0,
                },
            ),
            counts.affected_rows,
        )
    } else {
        completed_rows("INSERT 0"@, counts.inserted)
    }
}

/// The answer to an insertion.
pub fn insert_response(mode: GatewayMode, counts: &InsertCounts) -> (response: Response)
    ensures
        response@ == insert_answer(mode, *counts),
{
    if mode == GatewayMode::MySql {
        let id: i64 = match counts.first_insert_id {
            Some(id) => id,
            None => 0,
        };
        let mut tag = "INSERT ".to_string();
        tag.push_str(signed_decimal_text(id).as_str());
        command_complete_rows(tag.as_str(), counts.affected_rows)
    } else {
        command_complete_rows("INSERT 0", counts.inserted)
    }
}

/// Whether the scan of a read gives the rows of the window alone: scans of the rows themselves
/// do, where a limit or an offset is asked for.
pub open spec fn scan_has_window(access: ReadModel, limit: Option<usize>, offset: usize) -> bool {
    (access is PrimaryKeyRangeScan || access is PrefixScan) && (offset > 0 || limit is Some)
}

/// Rows but the first few, and no more than a limit.
pub open spec fn windowed<V>(rows: Seq<V>, limit: Option<usize>, offset: usize) -> Seq<V> {
    let rest = if offset < rows.len() {
        rows.skip(offset as int)
    } else {
        seq![]
    };
    match limit {
        Some(n) => if n < rest.len() {
            rest.take(n as int)
        } else {
            rest
        },
        None => rest,
    }
}

/// Whether the scan of a read gives the rows of the window alone.
pub fn pushes_window_down(access: &ReadAccess, limit: Option<usize>, offset: usize) -> (answer: bool)
    ensures
        answer == scan_has_window(access@, limit, offset),
{
    let on_rows = match access {
        ReadAccess::PrimaryKeyRangeScan { lower, upper, filter } => true,
        ReadAccess::PrefixScan { filter } => true,
        _ => false,
    };
    on_rows && (offset > 0 || limit.is_some())
}

/// The rows of a read that are sent: those of the window, which the scan may have cut already.
pub fn select_window(
    access: &ReadAccess,
    rows: Vec<RowMap>,
    limit: Option<usize>,
    offset: usize,
) -> (kept: Vec<RowMap>)
    ensures
        views(kept@) == (if scan_has_window(access@, limit, offset) {
            views(rows@)
        } else {
            windowed(views(rows@), limit, offset)
        }),
{
    if pushes_window_down(access, limit, offset) {
        return rows;
    }
    let ghost all = views(rows@);
    let mut kept: Vec<RowMap> = Vec::new();
    let mut i: usize = offset;
    let total: usize = rows.len();
    let room: usize = match limit {
        Some(n) => n,
        None => total,
    };
    assert(views(kept@) =~= windowed(all, Some(0), offset));
    while i < total && kept.len() < room
        invariant
            total == rows@.len(),
            all == views(rows@),
            offset <= i,
            i <= total || (i == offset && offset > total),
            kept@.len() == i - offset,
            kept@.len() <= room,
            forall|k: int|
                0 <= k < kept@.len() ==> (#[trigger] kept@[k])@ == all[offset + k],
        decreases total - i,
    {
        assert(all[i as int] == rows@[i as int]@);
        kept.push(rows[i].duplicate());
        i += 1;
    }
    assert(views(kept@) =~= windowed(all, limit, offset));
    kept
}

/// A window never gives more rows than its limit, and gives rows in their order.
pub proof fn law_window_is_a_part<V>(rows: Seq<V>, limit: Option<usize>, offset: usize)
    ensures
        limit matches Some(n) ==> windowed(rows, limit, offset).len() <= n,
        forall|i: int|
            0 <= i < windowed(rows, limit, offset).len() ==> offset + i < rows.len()
                && #[trigger] windowed(rows, limit, offset)[i] == rows[offset + i],
{
}

/// Whether a sequence can be dropped: it has to be there, unless the statement says otherwise.
pub fn drop_sequence_verdict(
    is_there: bool,
    if_exists: bool,
    schema_name: &str,
    sequence_name: &str,
) -> (result: Result<(), UserError>)
    ensures
        result is Ok <==> is_there || if_exists,
        result matches Err(error) ==> error@ == crate::server::exec::no_object(
            "sequence"@,
            schema_name@,
            sequence_name@,
        ),
{
    if is_there || if_exists {
        return Ok(());
    }
    Err(crate::server::exec::no_object_error("sequence", schema_name, sequence_name))
}

/// The first of some names that is not that of a column.
pub open spec fn unknown_column(columns: Seq<ColumnModel>, names: Seq<Seq<char>>) -> Option<Seq<char>>
    decreases names.len(),
{
    if names.len() == 0 {
        None
    } else if !has_column(columns, names[0]) {
        Some(names[0])
    } else {
        unknown_column(columns, names.skip(1))
    }
}

/// Refuses names that are not those of columns.
pub fn require_columns(schema: &TableSchema, names: &Vec<String>) -> (result: Result<(), UserError>)
    ensures
        match result {
            Ok(_) => unknown_column(schema@.columns, views(names@)) is None,
            Err(error) => unknown_column(schema@.columns, views(names@)) matches Some(name)
                && error@ == no_column(name),
        },
{
    let ghost all = views(names@);
    let mut i: usize = 0;
    assert(all.skip(0) =~= all);
    while i < names.len()
        invariant
            i <= names@.len(),
            all == views(names@),
            unknown_column(schema@.columns, all) == unknown_column(
                schema@.columns,
                all.skip(i as int),
            ),
        decreases names@.len() - i,
    {
        assert(all.skip(i as int)[0] == names@[i as int]@);
        assert(all.skip(i as int).skip(1) =~= all.skip(i + 1));
        if schema.find_column(names[i].as_str()).is_none() {
            return Err(no_column_error(names[i].as_str()));
        }
        i += 1;
    }
    Ok(())
}

/// The table that is to get an index, unless the index is there already.
pub open spec fn index_begun(
    contents: Contents,
    database_name: Seq<char>,
    schema_name: Seq<char>,
    table_name: Seq<char>,
    index_name: Seq<char>,
    column_names: Seq<Seq<char>>,
    if_not_exists: bool,
) -> Result<Option<TableEntry>, Report> {
    match table_found(contents, database_name, schema_name, table_name) {
        Err(e) => Err(e),
        Ok(None) => Err(no_table(table_name)),
        Ok(Some(table)) => match unknown_column(table.schema.columns, column_names) {
            Some(name) => Err(no_column(name)),
            None => match index_found(contents, table.database_id, table.schema_id, index_name) {
                Err(e) => Err(e),
                Ok(None) => Ok(Some(table)),
                Ok(Some(_)) => if if_not_exists {
                    Ok(None)
                } else {
                    Err(report("42P07"@, "relation '"@ + index_name + "' already exists"@))
                },
            },
        },
    }
}

/// What changing the description of a table comes to, once it is found.
pub open spec fn table_altered(
    contents: Contents,
    database_name: Seq<char>,
    schema_name: Seq<char>,
    table_name: Seq<char>,
    operation: AlterModel,
    rows: Seq<EntryModel>,
    check: VerdictModel,
) -> Result<ChangeModel, Report> {
    match table_found(contents, database_name, schema_name, table_name) {
        Err(e) => Err(e),
        Ok(None) => Err(no_table(table_name)),
        Ok(Some(table)) => altered(table.schema, operation, rows, check),
    }
}

/// The first index with a name, whatever its case.
pub open spec fn index_named(indexes: Seq<IndexModel>, name: Seq<char>) -> Option<IndexModel>
    decreases indexes.len(),
{
    if indexes.len() == 0 {
        None
    } else if lower(indexes[0].index_name) == lower(name) {
        Some(indexes[0])
    } else {
        index_named(indexes.skip(1), name)
    }
}

/// The index that is to get another name.
pub open spec fn index_to_rename(contents: Contents, table_id: u32, old_name: Seq<char>) -> Result<
    IndexModel,
    Report,
> {
    match indexes_listed(contents, table_id) {
        Err(e) => Err(e),
        Ok(indexes) => match index_named(indexes, old_name) {
            Some(index) => Ok(index),
            None => Err(report("42P01"@, "index '"@ + old_name + "' does not exist"@)),
        },
    }
}

/// What taking an index from a table comes to: the work on its entries, none where it is not
/// there and need not be.
pub open spec fn table_index_dropped(
    contents: Contents,
    database_name: Seq<char>,
    schema_name: Seq<char>,
    table_name: Seq<char>,
    index_name: Seq<char>,
    if_exists: bool,
) -> (Result<Seq<ActionModel>, Report>, Contents) {
    let opened = bootstrapped(contents);
    match scope_found(opened, database_name, schema_name) {
        Err(e) => (Err(e), opened),
        Ok((database, schema)) => {
            let (dropped, after) = index_dropped(
                opened,
                database.database_id,
                schema.schema_id,
                index_name,
            );
            (
                match dropped {
                    Err(e) => Err(e),
                    Ok(None) => if if_exists {
                        Ok(seq![])
                    } else {
                        Err(report("42P01"@, "index '"@ + index_name + "' does not exist"@))
                    },
                    Ok(Some(index)) => Ok(
                        seq![
                            ActionModel::ClearIndex { index_id: index.index_id },
                            ActionModel::ClearPrefixHolding {
                                prefix: indexes_prefix(database_name, schema_name, table_name),
                                text: ":"@ + index_name + ":"@,
                            },
                        ],
                    ),
                },
                after,
            )
        },
    }
}

/// A description whose primary key is a column; its rows go into the next epoch.
pub open spec fn keyed_by(table: TableModel, column_name: Seq<char>) -> Result<TableModel, Report> {
    if table.primary_key != INTERNAL_ROWID_COLUMN@ && table.primary_key != column_name {
        Err(
            unsupported_report(
                "fast-path ALTER TABLE ADD PRIMARY KEY does not support replacing an existing primary key"@,
            ),
        )
    } else if !has_column(table.columns, column_name) {
        Err(no_column(column_name))
    } else {
        Ok(
            TableModel {
                schema_version: next_version(table.schema_version),
                table_epoch: if table.table_epoch < u64::MAX {
                    (table.table_epoch + 1) as u64
                } else {
                    u64::MAX
                },
                primary_key: column_name,
                columns: table.columns.map_values(
                    |column: ColumnModel|
                        ColumnModel {
                            primary_key: column.name == column_name,
                            nullable: column.nullable && column.name != column_name,
                            ..column
                        },
                ),
                ..table
            },
        )
    }
}

/// A description whose primary key is a column.
pub fn with_primary_key(schema: &TableSchema, column_name: &str) -> (result: Result<
    TableSchema,
    UserError,
>)
    ensures
        seen(result) == keyed_by(schema@, column_name@),
{
    if schema.has_user_primary_key() && !same_text(schema.primary_key.as_str(), column_name) {
        return Err(
            unsupported(
                "fast-path ALTER TABLE ADD PRIMARY KEY does not support replacing an existing primary key",
            ),
        );
    }
    if schema.find_column(column_name).is_none() {
        return Err(no_column_error(column_name));
    }
    let ghost columns = schema@.columns;
    let mut keyed = schema.duplicate();
    let mut declared: Vec<ColumnSchema> = Vec::new();
    let mut i: usize = 0;
    while i < schema.columns.len()
        invariant
            i <= schema.columns@.len(),
            columns == views(schema.columns@),
            declared@.len() == i,
            forall|k: int|
                0 <= k < i ==> (#[trigger] declared@[k])@ == (ColumnModel {
                    primary_key: columns[k].name == column_name@,
                    nullable: columns[k].nullable && columns[k].name != column_name@,
                    ..columns[k]
                }),
        decreases schema.columns@.len() - i,
    {
        assert(columns[i as int] == schema.columns@[i as int]@);
        let mut column = schema.columns[i].duplicate();
        let is_target = same_text(column.name.as_str(), column_name);
        column.primary_key = is_target;
        if is_target {
            column.nullable = false;
        }
        declared.push(column);
        i += 1;
    }
    let ghost expected = columns.map_values(
        |column: ColumnModel|
            ColumnModel {
                primary_key: column.name == column_name@,
                nullable: column.nullable && column.name != column_name@,
                ..column
            },
    );
    assert(views(declared@) =~= expected);
    keyed.columns = declared;
    if keyed.schema_version < u32::MAX {
        keyed.schema_version = keyed.schema_version + 1;
    }
    if keyed.table_epoch < u64::MAX {
        keyed.table_epoch = keyed.table_epoch + 1;
    }
    keyed.primary_key = column_name.to_string();
    Ok(keyed)
}

/// The new key of a row of a table that gets a primary key: it may not be null, nor that of a
/// row before. Keys are told apart by their bytes.
pub open spec fn new_key(row: RowModel, column_name: Seq<char>, known: Seq<Seq<u8>>) -> Result<
    Datum,
    Report,
> {
    let key = field(row, column_name);
    if key == Datum::Null {
        Err(report("23502"@, "column '"@ + column_name + "' contains null values"@))
    } else if known.contains(key_segment(key)) {
        Err(
            report(
                "23505"@,
                "could not create primary key on '"@ + column_name + "': duplicate values exist"@,
            ),
        )
    } else {
        Ok(key)
    }
}

fn contains_bytes(known: &Vec<Vec<u8>>, bytes: &Vec<u8>) -> (found: bool)
    ensures
        found == views(known@).contains(bytes@),
{
    let mut i: usize = 0;
    while i < known.len()
        invariant
            i <= known@.len(),
            forall|k: int| 0 <= k < i ==> views(known@)[k] != bytes@,
        decreases known@.len() - i,
    {
        assert(views(known@)[i as int] == known@[i as int]@);
        if same_bytes(&known[i], bytes) {
            return true;
        }
        i += 1;
    }
    false
}

/// Takes the new key of a row of a table that gets a primary key.
pub fn take_new_key(row: &RowMap, column_name: &str, known: &mut Vec<Vec<u8>>) -> (result: Result<
    ColumnValue,
    UserError,
>)
    requires
        field(row@, column_name@) is Null || keyable(field(row@, column_name@)),
    ensures
        seen(result) == new_key(row@, column_name@, views(old(known)@)),
        views(final(known)@) == (match result {
            Ok(key) => views(old(known)@).push(key_segment(key@)),
            Err(_) => views(old(known)@),
        }),
{
    let key = row.value_or_null(column_name);
    if key.is_null() {
        return Err(
            user_error_text("23502", three_texts("column '", column_name, "' contains null values")),
        );
    }
    let segment = encode_primary_key_segment(&key);
    if contains_bytes(known, &segment) {
        return Err(
            user_error_text(
                "23505",
                three_texts(
                    "could not create primary key on '",
                    column_name,
                    "': duplicate values exist",
                ),
            ),
        );
    }
    let ghost before = views(known@);
    let ghost bytes = segment@;
    known.push(segment);
    assert(views(known@) =~= before.push(bytes));
    Ok(key)
}

impl<S: KvStore> GatewayServer<S> {
    /// The table that is to get an index, unless the index is there already.
    pub fn begin_create_index(
        &mut self,
        database_name: &str,
        schema_name: &str,
        table_name: &str,
        index_name: &str,
        column_names: &Vec<String>,
        if_not_exists: bool,
    ) -> (result: Result<Option<TableCatalog>, UserError>)
        ensures
            final(self).reliable() == old(self).reliable(),
            final(self).same_sessions(old(self)),
            not_internal(result) || old(self).reliable() ==> only_opened(
                old(self).contents(),
                final(self).contents(),
            ) && seen_option(result) == index_begun(
                bootstrapped(old(self).contents()),
                database_name@,
                schema_name@,
                table_name@,
                index_name@,
                views(column_names@),
                if_not_exists,
            ),
    {
        proof {
            law_bootstrap_is_stable(self.contents());
        }
        let table = match self.catalog.load_table(database_name, schema_name, table_name) {
            Err(e) => {
                return Err(e);
            },
            Ok(None) => {
                return Err(
                    user_error_text("42P01", three_texts("table '", table_name, "' does not exist")),
                );
            },
            Ok(Some(table)) => table,
        };
        match require_columns(&table.schema, column_names) {
            Err(e) => {
                return Err(e);
            },
            Ok(_) => {},
        }
        match self.catalog.get_index(table.database_id, table.schema_id, index_name) {
            Err(e) => Err(e),
            Ok(None) => Ok(Some(table)),
            Ok(Some(_)) => {
                if if_not_exists {
                    return Ok(None);
                }
                Err(
                    user_error_text(
                        "42P07",
                        three_texts("relation '", index_name, "' already exists"),
                    ),
                )
            },
        }
    }

    /// What a change of the description of a table comes to, with its rows.
    pub fn alter_table_at(
        &mut self,
        database_name: &str,
        schema_name: &str,
        table_name: &str,
        operation: TableAlterOperation,
        rows: &Vec<RowEntry>,
        check: CheckVerdict,
    ) -> (result: Result<AlterChange, UserError>)
        ensures
            final(self).reliable() == old(self).reliable(),
            final(self).same_sessions(old(self)),
            not_internal(result) || old(self).reliable() ==> only_opened(
                old(self).contents(),
                final(self).contents(),
            ) && seen(result) == table_altered(
                bootstrapped(old(self).contents()),
                database_name@,
                schema_name@,
                table_name@,
                operation@,
                views(rows@),
                check@,
            ),
    {
        match self.catalog.load_table(database_name, schema_name, table_name) {
            Err(e) => Err(e),
            Ok(None) => Err(
                user_error_text("42P01", three_texts("table '", table_name, "' does not exist")),
            ),
            Ok(Some(table)) => alter_table(table.schema, operation, rows, check),
        }
    }

    /// Takes an index from a table; gives the work on its entries.
    pub fn drop_table_index(
        &mut self,
        database_name: &str,
        schema_name: &str,
        table_name: &str,
        index_name: &str,
        if_exists: bool,
    ) -> (result: Result<Vec<StorageAction>, UserError>)
        ensures
            final(self).reliable() == old(self).reliable(),
            final(self).same_sessions(old(self)),
            not_internal(result) || old(self).reliable() ==> (
                crate::schema::seen_all(result),
                final(self).contents(),
            ) == table_index_dropped(
                old(self).contents(),
                database_name@,
                schema_name@,
                table_name@,
                index_name@,
                if_exists,
            ),
    {
        proof {
            law_bootstrap_is_stable(self.contents());
        }
        let database = match self.catalog.get_database(database_name) {
            Err(e) => {
                return Err(e);
            },
            Ok(None) => {
                return Err(
                    user_error_text(
                        "3D000",
                        three_texts("database '", database_name, "' does not exist"),
                    ),
                );
            },
            Ok(Some(database)) => database,
        };
        let schema = match self.catalog.get_schema(database.database_id, schema_name) {
            Err(e) => {
                return Err(e);
            },
            Ok(None) => {
                return Err(
                    user_error_text(
                        "3F000",
                        three_texts("schema '", schema_name, "' does not exist"),
                    ),
                );
            },
            Ok(Some(schema)) => schema,
        };
        let index = match self.catalog.drop_index(
            database.database_id,
            schema.schema_id,
            index_name,
        ) {
            Err(e) => {
                return Err(e);
            },
            Ok(None) => {
                if if_exists {
                    let none: Vec<StorageAction> = Vec::new();
                    assert(views(none@) =~= Seq::<ActionModel>::empty());
                    return Ok(none);
                }
                return Err(
                    user_error_text(
                        "42P01",
                        three_texts("index '", index_name, "' does not exist"),
                    ),
                );
            },
            Ok(Some(index)) => index,
        };
        let mut actions: Vec<StorageAction> = Vec::new();
        actions.push(StorageAction::ClearIndex { index_id: index.index_id });
        actions.push(
            StorageAction::ClearPrefixHolding {
                prefix: index_table_prefix(database_name, schema_name, table_name),
                text: three_texts(":", index_name, ":"),
            },
        );
        assert(views(actions@) =~= seq![
            ActionModel::ClearIndex { index_id: index@.index_id },
            ActionModel::ClearPrefixHolding {
                prefix: indexes_prefix(database_name@, schema_name@, table_name@),
                text: ":"@ + index_name@ + ":"@,
            },
        ]);
        Ok(actions)
    }

    /// The index that is to get another name.
    pub fn find_index_to_rename(&mut self, table_id: u32, old_name: &str) -> (result: Result<
        IndexCatalog,
        UserError,
    >)
        ensures
            final(self).reliable() == old(self).reliable(),
            final(self).same_sessions(old(self)),
            not_internal(result) || old(self).reliable() ==> only_opened(
                old(self).contents(),
                final(self).contents(),
            ) && seen(result) == index_to_rename(
                bootstrapped(old(self).contents()),
                table_id,
                old_name@,
            ),
    {
        let indexes = match self.catalog.list_indexes_for_table(table_id) {
            Err(e) => {
                return Err(e);
            },
            Ok(indexes) => indexes,
        };
        let ghost all = views(indexes@);
        let mut i: usize = 0;
        assert(all.skip(0) =~= all);
        while i < indexes.len()
            invariant
                i <= indexes@.len(),
                all == views(indexes@),
                self.reliable() == old(self).reliable(),
                self.same_sessions(old(self)),
                self.contents() == bootstrapped(old(self).contents()),
                indexes_listed(bootstrapped(old(self).contents()), table_id) == Ok::<
                    Seq<IndexModel>,
                    Report,
                >(all),
                index_named(all, old_name@) == index_named(all.skip(i as int), old_name@),
            decreases indexes@.len() - i,
        {
            assert(all.skip(i as int)[0] == indexes@[i as int]@);
            assert(all.skip(i as int).skip(1) =~= all.skip(i + 1));
            if same_but_for_case(indexes[i].index_name.as_str(), old_name) {
                return Ok(indexes[i].duplicate());
            }
            i += 1;
        }
        Err(user_error_text("42P01", three_texts("index '", old_name, "' does not exist")))
    }
}

} // verus!
