//! Writing and deleting a row, as a whole: every rule that a row has to meet, in its order, and
//! the work that follows where it meets them all. What storage says of the row is given.
use vstd::prelude::*;

use crate::catalog::types::{IndexCatalog, IndexModel, TableCatalog, TableEntry};
use crate::codec::{index_entry_key, keyable};
use crate::error::{report, Report, UserError};
use crate::row::{RowMap, RowModel};
use crate::schema::{
    option_view, seen_all, views, Duplicate, ForeignKeyConstraintSchema, ForeignKeyModel,
    TableModel, TableSchema, UniqueModel,
};
use crate::server::row_work::{
    delete_row_work, entry_of, key_bytes, row_deleted, row_written, taken_by_other,
    unique_index_verdict, write_row_work, PlaceModel, RowAction, RowPlace,
};
use crate::server::rows::{
    any_matches, any_row_matches, breaks_unique, by_primary_key, constraint_error, foreign_demand,
    foreign_key_demand, foreign_key_reference, foreign_key_target, foreign_key_verdict,
    foreign_target_error, indexed, indexed_value, is_referenced, reference_verdict, referred_values,
    validate_row_constraints, validate_unique_constraint, CheckVerdict, EntryModel, RowEntry,
    VerdictModel,
};
use crate::server::scans::ensure_row_write_not_stale;
use crate::types::{ColumnValue, Datum};

verus! {

/// What a transaction sees of a row: the row, and the bytes that its snapshot and the store have
/// under the key of the row.
pub struct SightFacts {
    pub old_row: Option<RowMap>,
    pub repeatable_read: bool,
    pub written: bool,
    pub snapshot: Option<Vec<u8>>,
    pub latest: Option<Vec<u8>>,
}

/// The error of writing a row that another transaction changed behind the snapshot of this one;
/// a row that is not there cannot be behind.
pub open spec fn stale_error(sight: SightFacts) -> Option<Report> {
    if sight.old_row is Some && sight.repeatable_read && !sight.written && option_view(
        sight.snapshot,
    ) != option_view(sight.latest) {
        Some(report("40001"@, "could not serialize access due to concurrent update"@))
    } else {
        None
    }
}

/// What is known of the table that a foreign key refers to: its description, whether a row is
/// there under the asked key, and its rows.
pub struct ForeignFacts {
    pub table: Option<TableSchema>,
    pub key_found: bool,
    pub rows: Vec<RowMap>,
}

/// What [`ForeignFacts`] say.
pub struct ForeignFactsModel {
    pub table: Option<TableModel>,
    pub key_found: bool,
    pub rows: Seq<RowModel>,
}

impl View for ForeignFacts {
    type V = ForeignFactsModel;

    open spec fn view(&self) -> ForeignFactsModel {
        ForeignFactsModel {
            table: option_view(self.table),
            key_found: self.key_found,
            rows: views(self.rows@),
        }
    }
}

/// The error of a row whose foreign key finds nothing.
pub open spec fn foreign_violation(table: TableModel, key: ForeignKeyModel) -> Report {
    report(
        "23503"@,
        "insert or update on table '"@ + table.table_name + "' violates foreign key constraint '"@
            + key.name + "'"@,
    )
}

/// The error of a row with one of the foreign keys of its table.
pub open spec fn foreign_key_error(
    schema_name: Seq<char>,
    table: TableModel,
    key: ForeignKeyModel,
    row: RowModel,
    facts: ForeignFactsModel,
) -> Option<Report> {
    match foreign_demand(schema_name, key, row) {
        Err(e) => Some(e),
        Ok(None) => None,
        Ok(Some((_, table_name, values))) => match foreign_target_error(
            key,
            table_name,
            facts.table,
        ) {
            Some(e) => Some(e),
            None => {
                let found = if by_primary_key(key, facts.table->0) {
                    facts.key_found
                } else {
                    any_matches(facts.rows, key.referred_columns, values)
                };
                if found {
                    None
                } else {
                    Some(foreign_violation(table, key))
                }
            },
        },
    }
}

/// The first error of a row with the foreign keys of its table.
pub open spec fn foreign_keys_error(
    schema_name: Seq<char>,
    table: TableModel,
    keys: Seq<ForeignKeyModel>,
    row: RowModel,
    facts: Seq<ForeignFactsModel>,
) -> Option<Report>
    decreases keys.len(),
{
    if keys.len() == 0 {
        None
    } else {
        match foreign_key_error(schema_name, table, keys[0], row, facts[0]) {
            Some(e) => Some(e),
            None => foreign_keys_error(schema_name, table, keys.skip(1), row, facts.skip(1)),
        }
    }
}

fn check_foreign_key(
    schema_name: &str,
    schema: &TableSchema,
    key: &ForeignKeyConstraintSchema,
    row: &RowMap,
    facts: &ForeignFacts,
) -> (result: Result<(), UserError>)
    ensures
        match result {
            Ok(_) => foreign_key_error(schema_name@, schema@, key@, row@, facts@) is None,
            Err(e) => foreign_key_error(schema_name@, schema@, key@, row@, facts@) == Some(e@),
        },
{
    match foreign_key_demand(schema_name, key, row) {
        Err(e) => Err(e),
        Ok(None) => Ok(()),
        Ok(Some(demand)) => match foreign_key_target(key, demand.table_name.as_str(), &facts.table) {
            Err(e) => Err(e),
            Ok(by_key) => {
                let found = if by_key {
                    facts.key_found
                } else {
                    any_row_matches(&facts.rows, &key.referred_columns, &demand.values)
                };
                foreign_key_verdict(schema, key, found)
            },
        },
    }
}

fn check_foreign_keys(
    schema_name: &str,
    schema: &TableSchema,
    row: &RowMap,
    facts: &Vec<ForeignFacts>,
) -> (result: Result<(), UserError>)
    requires
        facts@.len() == schema.foreign_keys@.len(),
    ensures
        match result {
            Ok(_) => foreign_keys_error(
                schema_name@,
                schema@,
                schema@.foreign_keys,
                row@,
                views(facts@),
            ) is None,
            Err(e) => foreign_keys_error(
                schema_name@,
                schema@,
                schema@.foreign_keys,
                row@,
                views(facts@),
            ) == Some(e@),
        },
{
    let ghost keys = schema@.foreign_keys;
    let ghost said = views(facts@);
    let mut i: usize = 0;
    assert(keys.skip(0) =~= keys);
    assert(said.skip(0) =~= said);
    while i < schema.foreign_keys.len()
        invariant
            i <= schema.foreign_keys@.len(),
            facts@.len() == schema.foreign_keys@.len(),
            keys == schema@.foreign_keys,
            keys == views(schema.foreign_keys@),
            said == views(facts@),
            foreign_keys_error(schema_name@, schema@, keys, row@, said) == foreign_keys_error(
                schema_name@,
                schema@,
                keys.skip(i as int),
                row@,
                said.skip(i as int),
            ),
        decreases schema.foreign_keys@.len() - i,
    {
        assert(keys.skip(i as int)[0] == schema.foreign_keys@[i as int]@);
        assert(said.skip(i as int)[0] == facts@[i as int]@);
        assert(keys.skip(i as int).skip(1) =~= keys.skip(i + 1));
        assert(said.skip(i as int).skip(1) =~= said.skip(i + 1));
        match check_foreign_key(schema_name, schema, &schema.foreign_keys[i], row, &facts[i]) {
            Err(e) => {
                return Err(e);
            },
            Ok(_) => {},
        }
        i += 1;
    }
    Ok(())
}

/// What is entered in an index under the value of a row: the entries of the index, the one that
/// is the row's own, and the entries in their first form.
pub struct EntryFacts {
    pub existing: Vec<Vec<u8>>,
    pub own: Vec<u8>,
    pub first_form: Vec<Vec<u8>>,
}

/// What [`EntryFacts`] say.
pub struct EntryFactsModel {
    pub existing: Seq<Seq<u8>>,
    pub own: Seq<u8>,
    pub first_form: Seq<Seq<u8>>,
}

impl View for EntryFacts {
    type V = EntryFactsModel;

    open spec fn view(&self) -> EntryFactsModel {
        EntryFactsModel {
            existing: key_bytes(self.existing@),
            own: self.own@,
            first_form: key_bytes(self.first_form@),
        }
    }
}

/// Whether the value of a row is taken in a unique index by another row, in either form of its
/// entries. A null is never taken.
pub open spec fn entry_taken(
    place: PlaceModel,
    index: IndexModel,
    key: Datum,
    row: RowModel,
    facts: EntryFactsModel,
) -> bool {
    let value = indexed(row, index.column_names);
    index.unique && value != Datum::Null && (taken_by_other(facts.existing, facts.own)
        || taken_by_other(facts.first_form, entry_of(place, index.index_name, value, key)))
}

/// The first error of a row with the indexes of its table.
pub open spec fn indexes_error(
    place: PlaceModel,
    indexes: Seq<IndexModel>,
    key: Datum,
    row: RowModel,
    facts: Seq<EntryFactsModel>,
) -> Option<Report>
    decreases indexes.len(),
{
    if indexes.len() == 0 {
        None
    } else if entry_taken(place, indexes[0], key, row, facts[0]) {
        Some(
            report(
                "23505"@,
                "duplicate key value violates unique constraint '"@ + indexes[0].index_name + "'"@,
            ),
        )
    } else {
        indexes_error(place, indexes.skip(1), key, row, facts.skip(1))
    }
}

fn check_indexes(
    place: &RowPlace,
    indexes: &Vec<IndexCatalog>,
    key: &ColumnValue,
    row: &RowMap,
    facts: &Vec<EntryFacts>,
) -> (result: Result<(), UserError>)
    requires
        keyable(key@),
        facts@.len() == indexes@.len(),
    ensures
        match result {
            Ok(_) => indexes_error(place@, views(indexes@), key@, row@, views(facts@)) is None,
            Err(e) => indexes_error(place@, views(indexes@), key@, row@, views(facts@)) == Some(
                e@,
            ),
        },
{
    let ghost all = views(indexes@);
    let ghost said = views(facts@);
    let mut i: usize = 0;
    assert(all.skip(0) =~= all);
    assert(said.skip(0) =~= said);
    while i < indexes.len()
        invariant
            i <= indexes@.len(),
            facts@.len() == indexes@.len(),
            keyable(key@),
            all == views(indexes@),
            said == views(facts@),
            indexes_error(place@, all, key@, row@, said) == indexes_error(
                place@,
                all.skip(i as int),
                key@,
                row@,
                said.skip(i as int),
            ),
        decreases indexes@.len() - i,
    {
        let index = &indexes[i];
        assert(all.skip(i as int)[0] == index@);
        assert(said.skip(i as int)[0] == facts@[i as int]@);
        assert(all.skip(i as int).skip(1) =~= all.skip(i + 1));
        assert(said.skip(i as int).skip(1) =~= said.skip(i + 1));
        let value = indexed_value(row, index);
        match unique_index_verdict(index, &value, &facts[i].existing, &facts[i].own) {
            Err(e) => {
                return Err(e);
            },
            Ok(_) => {},
        }
        let own = index_entry_key(
            place.database_name,
            place.schema_name,
            place.table_name,
            index.index_name.as_str(),
            &value,
            key,
        );
        assert(own@ == entry_of(place@, index@.index_name, value@, key@));
        match unique_index_verdict(index, &value, &facts[i].first_form, &own) {
            Err(e) => {
                return Err(e);
            },
            Ok(_) => {},
        }
        i += 1;
    }
    Ok(())
}

/// The first unique constraint, but for the primary key, that the rows of a table break with a
/// row that is being written.
pub open spec fn uniques_error(
    constraints: Seq<UniqueModel>,
    rows: Seq<EntryModel>,
    key: Datum,
    row: RowModel,
) -> Option<Report>
    decreases constraints.len(),
{
    if constraints.len() == 0 {
        None
    } else if !constraints[0].primary_key && breaks_unique(
        constraints[0].columns,
        rows,
        Some(key),
        Some(row),
    ) {
        Some(
            report(
                "23505"@,
                "duplicate key value violates unique constraint '"@ + constraints[0].name + "'"@,
            ),
        )
    } else {
        uniques_error(constraints.skip(1), rows, key, row)
    }
}

fn check_uniques(schema: &TableSchema, rows: &Vec<RowEntry>, key: &ColumnValue, row: &RowMap) -> (result:
    Result<(), UserError>)
    ensures
        match result {
            Ok(_) => uniques_error(schema@.unique_constraints, views(rows@), key@, row@) is None,
            Err(e) => uniques_error(schema@.unique_constraints, views(rows@), key@, row@) == Some(
                e@,
            ),
        },
{
    let ghost constraints = schema@.unique_constraints;
    let current_key = Some(key.copied());
    let current_row = Some(row.duplicate());
    let mut i: usize = 0;
    assert(constraints.skip(0) =~= constraints);
    while i < schema.unique_constraints.len()
        invariant
            i <= schema.unique_constraints@.len(),
            constraints == schema@.unique_constraints,
            constraints == views(schema.unique_constraints@),
            option_view(current_key) == Some(key@),
            option_view(current_row) == Some(row@),
            uniques_error(constraints, views(rows@), key@, row@) == uniques_error(
                constraints.skip(i as int),
                views(rows@),
                key@,
                row@,
            ),
        decreases schema.unique_constraints@.len() - i,
    {
        let constraint = &schema.unique_constraints[i];
        assert(constraints.skip(i as int)[0] == constraint@);
        assert(constraints.skip(i as int).skip(1) =~= constraints.skip(i + 1));
        if !constraint.primary_key {
            match validate_unique_constraint(constraint, rows, &current_key, &current_row) {
                Err(e) => {
                    return Err(e);
                },
                Ok(_) => {},
            }
        }
        i += 1;
    }
    Ok(())
}

/// What storage says of a row that is to be written.
pub struct WriteFacts {
    pub sight: SightFacts,
    pub foreign: Vec<ForeignFacts>,
    pub entries: Vec<EntryFacts>,
    pub rows: Vec<RowEntry>,
}

/// The first error of writing a row: of the row by itself, then of a snapshot that is behind,
/// then of its foreign keys, of the unique indexes and of the unique constraints.
pub open spec fn write_error(
    place: PlaceModel,
    table: TableModel,
    indexes: Seq<IndexModel>,
    key: Datum,
    row: RowModel,
    verdicts: Seq<VerdictModel>,
    facts: WriteFacts,
) -> Option<Report> {
    match constraint_error(table, row, verdicts) {
        Some(e) => Some(e),
        None => match stale_error(facts.sight) {
            Some(e) => Some(e),
            None => match foreign_keys_error(
                place.schema_name,
                table,
                table.foreign_keys,
                row,
                views(facts.foreign@),
            ) {
                Some(e) => Some(e),
                None => match indexes_error(place, indexes, key, row, views(facts.entries@)) {
                    Some(e) => Some(e),
                    None => uniques_error(table.unique_constraints, views(facts.rows@), key, row),
                },
            },
        },
    }
}

fn check_sight(sight: &SightFacts) -> (result: Result<(), UserError>)
    ensures
        match result {
            Ok(_) => stale_error(*sight) is None,
            Err(e) => stale_error(*sight) == Some(e@),
        },
{
    if sight.old_row.is_none() {
        return Ok(());
    }
    ensure_row_write_not_stale(
        sight.repeatable_read,
        sight.written,
        &sight.snapshot,
        &sight.latest,
    )
}

/// Writes a row under a key: the work where the row meets every rule, else the first error.
/// `verdicts` says of each check constraint what it came to; `facts` has an item for each
/// foreign key and for each index of the table, in their order.
pub fn write_row(
    place: &RowPlace,
    schema: &TableSchema,
    indexes: &Vec<IndexCatalog>,
    key: &ColumnValue,
    row: &RowMap,
    verdicts: &Vec<CheckVerdict>,
    facts: &WriteFacts,
    refresh: bool,
) -> (result: Result<Vec<RowAction>, UserError>)
    requires
        keyable(key@),
        verdicts@.len() == schema.check_constraints@.len(),
        facts.foreign@.len() == schema.foreign_keys@.len(),
        facts.entries@.len() == indexes@.len(),
    ensures
        seen_all(result) == (match write_error(
            place@,
            schema@,
            views(indexes@),
            key@,
            row@,
            views(verdicts@),
            *facts,
        ) {
            Some(e) => Err(e),
            None => Ok(
                row_written(
                    place@,
                    schema@,
                    views(indexes@),
                    key@,
                    row@,
                    option_view(facts.sight.old_row),
                    refresh,
                ),
            ),
        }),
{
    match validate_row_constraints(schema, row, verdicts) {
        Err(e) => {
            return Err(e);
        },
        Ok(_) => {},
    }
    match check_sight(&facts.sight) {
        Err(e) => {
            return Err(e);
        },
        Ok(_) => {},
    }
    match check_foreign_keys(place.schema_name, schema, row, &facts.foreign) {
        Err(e) => {
            return Err(e);
        },
        Ok(_) => {},
    }
    match check_indexes(place, indexes, key, row, &facts.entries) {
        Err(e) => {
            return Err(e);
        },
        Ok(_) => {},
    }
    match check_uniques(schema, &facts.rows, key, row) {
        Err(e) => {
            return Err(e);
        },
        Ok(_) => {},
    }
    Ok(write_row_work(place, schema, indexes, key, row, &facts.sight.old_row, refresh))
}

/// A table that may refer to others, with its rows.
pub struct ReferringTable {
    pub table: TableCatalog,
    pub rows: Vec<RowMap>,
}

/// What a [`ReferringTable`] says.
pub struct ReferringModel {
    pub table: TableEntry,
    pub rows: Seq<RowModel>,
}

impl View for ReferringTable {
    type V = ReferringModel;

    open spec fn view(&self) -> ReferringModel {
        ReferringModel { table: self.table@, rows: views(self.rows@) }
    }
}

/// The first error of letting go of a row with the foreign keys of a table that may refer to it.
pub open spec fn referring_error(
    child: ReferringModel,
    keys: Seq<ForeignKeyModel>,
    schema_name: Seq<char>,
    table: TableModel,
    row: RowModel,
) -> Option<Report>
    decreases keys.len(),
{
    if keys.len() == 0 {
        None
    } else {
        match referred_values(child.table.schema_name, keys[0], schema_name, table.table_name, row) {
            Err(e) => Some(e),
            Ok(None) => referring_error(child, keys.skip(1), schema_name, table, row),
            Ok(Some(values)) => if is_referenced(child.rows, keys[0].columns, values) {
                Some(
                    report(
                        "23503"@,
                        "update or delete on table '"@ + table.table_name
                            + "' violates foreign key constraint '"@ + keys[0].name + "'"@,
                    ),
                )
            } else {
                referring_error(child, keys.skip(1), schema_name, table, row)
            },
        }
    }
}

/// The first error of letting go of a row with the foreign keys of all tables.
pub open spec fn references_error(
    children: Seq<ReferringModel>,
    schema_name: Seq<char>,
    table: TableModel,
    row: RowModel,
) -> Option<Report>
    decreases children.len(),
{
    if children.len() == 0 {
        None
    } else {
        match referring_error(
            children[0],
            children[0].table.schema.foreign_keys,
            schema_name,
            table,
            row,
        ) {
            Some(e) => Some(e),
            None => references_error(children.skip(1), schema_name, table, row),
        }
    }
}

fn check_referring(child: &ReferringTable, schema_name: &str, schema: &TableSchema, row: &RowMap) -> (result:
    Result<(), UserError>)
    ensures
        match result {
            Ok(_) => referring_error(
                child@,
                child@.table.schema.foreign_keys,
                schema_name@,
                schema@,
                row@,
            ) is None,
            Err(e) => referring_error(
                child@,
                child@.table.schema.foreign_keys,
                schema_name@,
                schema@,
                row@,
            ) == Some(e@),
        },
{
    let ghost keys = child@.table.schema.foreign_keys;
    let mut i: usize = 0;
    assert(keys.skip(0) =~= keys);
    while i < child.table.schema.foreign_keys.len()
        invariant
            i <= child.table.schema.foreign_keys@.len(),
            keys == child@.table.schema.foreign_keys,
            keys == views(child.table.schema.foreign_keys@),
            referring_error(child@, keys, schema_name@, schema@, row@) == referring_error(
                child@,
                keys.skip(i as int),
                schema_name@,
                schema@,
                row@,
            ),
        decreases child.table.schema.foreign_keys@.len() - i,
    {
        let key = &child.table.schema.foreign_keys[i];
        assert(keys.skip(i as int)[0] == key@);
        assert(keys.skip(i as int).skip(1) =~= keys.skip(i + 1));
        match foreign_key_reference(
            child.table.schema_name.as_str(),
            key,
            schema_name,
            schema,
            row,
        ) {
            Err(e) => {
                return Err(e);
            },
            Ok(None) => {},
            Ok(Some(values)) => {
                match reference_verdict(schema, key, &child.rows, &values) {
                    Err(e) => {
                        return Err(e);
                    },
                    Ok(_) => {},
                }
            },
        }
        i += 1;
    }
    Ok(())
}

fn check_references(
    children: &Vec<ReferringTable>,
    schema_name: &str,
    schema: &TableSchema,
    row: &RowMap,
) -> (result: Result<(), UserError>)
    ensures
        match result {
            Ok(_) => references_error(views(children@), schema_name@, schema@, row@) is None,
            Err(e) => references_error(views(children@), schema_name@, schema@, row@) == Some(e@),
        },
{
    let ghost all = views(children@);
    let mut i: usize = 0;
    assert(all.skip(0) =~= all);
    while i < children.len()
        invariant
            i <= children@.len(),
            all == views(children@),
            references_error(all, schema_name@, schema@, row@) == references_error(
                all.skip(i as int),
                schema_name@,
                schema@,
                row@,
            ),
        decreases children@.len() - i,
    {
        assert(all.skip(i as int)[0] == children@[i as int]@);
        assert(all.skip(i as int).skip(1) =~= all.skip(i + 1));
        match check_referring(&children[i], schema_name, schema, row) {
            Err(e) => {
                return Err(e);
            },
            Ok(_) => {},
        }
        i += 1;
    }
    Ok(())
}

/// The first error of deleting a row: of a snapshot that is behind, then of the tables that
/// refer to it. A row that is not there is let go of without a word.
pub open spec fn delete_error(
    schema_name: Seq<char>,
    table: TableModel,
    sight: SightFacts,
    children: Seq<ReferringModel>,
) -> Option<Report> {
    match option_view(sight.old_row) {
        None => None,
        Some(row) => match stale_error(sight) {
            Some(e) => Some(e),
            None => references_error(children, schema_name, table, row),
        },
    }
}

/// Deletes the row under a key: the work where nothing speaks against it, else the first error.
pub fn delete_row(
    place: &RowPlace,
    schema: &TableSchema,
    indexes: &Vec<IndexCatalog>,
    key: &ColumnValue,
    sight: &SightFacts,
    children: &Vec<ReferringTable>,
) -> (result: Result<Vec<RowAction>, UserError>)
    requires
        keyable(key@),
    ensures
        seen_all(result) == (match delete_error(
            place@.schema_name,
            schema@,
            *sight,
            views(children@),
        ) {
            Some(e) => Err(e),
            None => Ok(
                row_deleted(
                    place@,
                    schema@,
                    views(indexes@),
                    key@,
                    option_view(sight.old_row),
                ),
            ),
        }),
{
    if let Some(row) = &sight.old_row {
        match check_sight(sight) {
            Err(e) => {
                return Err(e);
            },
            Ok(_) => {},
        }
        match check_references(children, place.schema_name, schema, row) {
            Err(e) => {
                return Err(e);
            },
            Ok(_) => {},
        }
    }
    Ok(delete_row_work(place, schema, indexes, key, &sight.old_row))
}

/// A row that no foreign key of any table can refer to is never held back by another table.
pub proof fn law_unreferenced_rows_go(
    children: Seq<ReferringModel>,
    schema_name: Seq<char>,
    table: TableModel,
    row: RowModel,
)
    requires
        forall|i: int|
            0 <= i < children.len() ==> (#[trigger] children[i]).table.schema.foreign_keys.len()
                == 0,
    ensures
        references_error(children, schema_name, table, row) is None,
    decreases children.len(),
{
    if children.len() > 0 {
        let rest = children.skip(1);
        assert(children[0].table.schema.foreign_keys.len() == 0);
        assert forall|i: int| 0 <= i < rest.len() implies (
        #[trigger] rest[i]).table.schema.foreign_keys.len() == 0 by {
            assert(rest[i] == children[i + 1]);
        }
        law_unreferenced_rows_go(rest, schema_name, table, row);
    }
}

} // verus!
