//! The course of an insertion, row by row: the row that a new one clashes with, what becomes of
//! the new one, and what is counted.
use vstd::prelude::*;

use crate::error::{report, Report, UserError};
use crate::mode::GatewayMode;
use crate::response::Response;
use crate::row::{RowMap, RowModel};
use crate::schema::{
    duplicate_all, option_view, seen_option, views, Duplicate, TableModel, TableSchema,
};
use crate::server::exec_rows::{
    insert_answer, insert_key, insert_response, insert_step, inserted_row, key_for_insert,
    InsertCounts, InsertModel, InsertStep,
};
use crate::server::plan::{ColumnSet, ConflictModel, InsertConflictAction};
use crate::server::rows::{
    apply_insert_conflict_update, conflict_candidates, conflict_choice, conflict_columns_search,
    conflict_search, conflict_updated, find_existing_row_for_conflict_columns, ConflictSearch,
    EntryModel, RowEntry, SearchModel,
};
use crate::types::{ColumnValue, Datum};

verus! {

/// The sets of columns in which an insertion looks for a row that it clashes with, in order.
pub open spec fn sets_to_search(table: TableModel, on_conflict: Option<ConflictModel>) -> Seq<
    Seq<Seq<char>>,
> {
    match on_conflict {
        None => seq![],
        Some(ConflictModel::DoNothing) => seq![seq![table.primary_key]],
        Some(ConflictModel::DoUpdate { target_columns, assignments, selection }) => seq![
            target_columns,
        ],
        Some(ConflictModel::DoNothingAnyUnique { target_column_sets }) => target_column_sets,
        Some(ConflictModel::ReplaceAnyUnique { target_column_sets }) => target_column_sets,
        Some(
            ConflictModel::DoUpdateAnyUnique { target_column_sets, assignments },
        ) => target_column_sets,
    }
}

/// The sets of columns in which an insertion looks for a row that it clashes with.
pub fn conflict_sets(schema: &TableSchema, on_conflict: &Option<InsertConflictAction>) -> (sets: Vec<
    ColumnSet,
>)
    ensures
        views(sets@) == sets_to_search(schema@, option_view(*on_conflict)),
{
    let mut sets: Vec<ColumnSet> = Vec::new();
    match on_conflict {
        None => {
            assert(views(sets@) =~= seq![]);
        },
        Some(InsertConflictAction::DoNothing) => {
            let mut columns: Vec<String> = Vec::new();
            columns.push(schema.primary_key.clone());
            assert(views(columns@) =~= seq![schema@.primary_key]);
            sets.push(ColumnSet { columns });
            assert(views(sets@) =~= seq![seq![schema@.primary_key]]);
        },
        Some(InsertConflictAction::DoUpdate { target_columns, assignments, selection }) => {
            let columns = duplicate_all(target_columns);
            sets.push(ColumnSet { columns });
            assert(views(sets@) =~= seq![views(target_columns@)]);
        },
        Some(InsertConflictAction::DoNothingAnyUnique { target_column_sets }) => {
            return duplicate_all(target_column_sets);
        },
        Some(InsertConflictAction::ReplaceAnyUnique { target_column_sets }) => {
            return duplicate_all(target_column_sets);
        },
        Some(InsertConflictAction::DoUpdateAnyUnique { target_column_sets, assignments }) => {
            return duplicate_all(target_column_sets);
        },
    }
    sets
}

/// What storage has for one set of columns: the row under the key, where the columns are the key,
/// the rows that an index on the columns gives, and all rows.
pub struct SetFacts {
    pub by_key: Option<RowMap>,
    pub index_rows: Vec<RowEntry>,
    pub all_rows: Vec<RowEntry>,
}

/// What [`SetFacts`] say.
pub struct SetFactsModel {
    pub by_key: Option<RowModel>,
    pub index_rows: Seq<EntryModel>,
    pub all_rows: Seq<EntryModel>,
}

impl View for SetFacts {
    type V = SetFactsModel;

    open spec fn view(&self) -> SetFactsModel {
        SetFactsModel {
            by_key: option_view(self.by_key),
            index_rows: views(self.index_rows@),
            all_rows: views(self.all_rows@),
        }
    }
}

/// The row that a new one clashes with in a set of columns.
pub open spec fn clash_in(
    table: TableModel,
    columns: Seq<Seq<char>>,
    row: RowModel,
    facts: SetFactsModel,
) -> Result<Option<EntryModel>, Report> {
    match conflict_search(table.primary_key, columns, row) {
        Err(e) => Err(e),
        Ok(SearchModel::Nowhere) => Ok(None),
        Ok(SearchModel::ByKey(key)) => Ok(
            match facts.by_key {
                Some(found) => Some(EntryModel { key, row: found }),
                None => None,
            },
        ),
        Ok(SearchModel::ByValues(values)) => conflict_choice(
            conflict_candidates(columns, values, facts.index_rows, facts.all_rows),
        ),
    }
}

/// The first row that a new one clashes with in some sets of columns.
pub open spec fn first_clash(
    table: TableModel,
    sets: Seq<Seq<Seq<char>>>,
    row: RowModel,
    facts: Seq<SetFactsModel>,
) -> Result<Option<EntryModel>, Report>
    decreases sets.len(),
{
    if sets.len() == 0 {
        Ok(None)
    } else {
        match clash_in(table, sets[0], row, facts[0]) {
            Ok(None) => first_clash(table, sets.skip(1), row, facts.skip(1)),
            other => other,
        }
    }
}

fn find_clash(schema: &TableSchema, set: &ColumnSet, row: &RowMap, facts: &SetFacts) -> (result: Result<
    Option<RowEntry>,
    UserError,
>)
    ensures
        seen_option(result) == clash_in(schema@, set@, row@, facts@),
{
    match conflict_columns_search(schema, &set.columns, row) {
        Err(e) => Err(e),
        Ok(ConflictSearch::Nowhere) => Ok(None),
        Ok(ConflictSearch::ByKey(key)) => match &facts.by_key {
            Some(found) => Ok(Some(RowEntry { key, row: found.duplicate() })),
            None => Ok(None),
        },
        Ok(ConflictSearch::ByValues(values)) => find_existing_row_for_conflict_columns(
            &set.columns,
            &values,
            duplicate_all(&facts.index_rows),
            duplicate_all(&facts.all_rows),
        ),
    }
}

/// The row that a new one clashes with. `facts` has an item for each set of columns that the
/// statement makes an insertion look in.
pub fn find_existing_row_for_conflict(
    schema: &TableSchema,
    on_conflict: &Option<InsertConflictAction>,
    row: &RowMap,
    facts: &Vec<SetFacts>,
) -> (result: Result<Option<RowEntry>, UserError>)
    requires
        facts@.len() == sets_to_search(schema@, option_view(*on_conflict)).len(),
    ensures
        seen_option(result) == first_clash(
            schema@,
            sets_to_search(schema@, option_view(*on_conflict)),
            row@,
            views(facts@),
        ),
{
    let sets = conflict_sets(schema, on_conflict);
    let ghost all = views(sets@);
    let ghost said = views(facts@);
    let mut i: usize = 0;
    assert(all.skip(0) =~= all);
    assert(said.skip(0) =~= said);
    while i < sets.len()
        invariant
            i <= sets@.len(),
            facts@.len() == sets@.len(),
            all == views(sets@),
            all == sets_to_search(schema@, option_view(*on_conflict)),
            said == views(facts@),
            first_clash(schema@, all, row@, said) == first_clash(
                schema@,
                all.skip(i as int),
                row@,
                said.skip(i as int),
            ),
        decreases sets@.len() - i,
    {
        assert(all.skip(i as int)[0] == sets@[i as int]@);
        assert(said.skip(i as int)[0] == facts@[i as int]@);
        assert(all.skip(i as int).skip(1) =~= all.skip(i + 1));
        assert(said.skip(i as int).skip(1) =~= said.skip(i + 1));
        match find_clash(schema, &sets[i], row, &facts[i]) {
            Err(e) => {
                return Err(e);
            },
            Ok(Some(entry)) => {
                return Ok(Some(entry));
            },
            Ok(None) => {},
        }
        i += 1;
    }
    Ok(None)
}

/// What the expressions of a statement come to on a row that a new one clashes with: whether its
/// condition holds, the values of its assignments, and those that columns change to on every
/// update.
pub struct ClashValues {
    pub selected: bool,
    pub values: Vec<ColumnValue>,
    pub fresh: Vec<ColumnValue>,
}

/// What [`ClashValues`] say.
pub struct ClashModel {
    pub selected: bool,
    pub values: Seq<Datum>,
    pub fresh: Seq<Datum>,
}

impl View for ClashValues {
    type V = ClashModel;

    open spec fn view(&self) -> ClashModel {
        ClashModel {
            selected: self.selected,
            values: views(self.values@),
            fresh: views(self.fresh@),
        }
    }
}

/// What a statement makes of a row that a new one clashes with; nothing where it changes none.
pub open spec fn clash_updated(
    table: TableModel,
    on_conflict: Option<ConflictModel>,
    existing: Option<EntryModel>,
    given: ClashModel,
) -> Result<Option<RowModel>, Report> {
    match (existing, on_conflict) {
        (
            Some(entry),
            Some(ConflictModel::DoUpdate { target_columns, assignments, selection }),
        ) => conflict_updated(
            table,
            entry.row,
            selection is None || given.selected,
            assignments,
            given.values,
            given.fresh,
        ),
        (
            Some(entry),
            Some(ConflictModel::DoUpdateAnyUnique { target_column_sets, assignments }),
        ) => conflict_updated(table, entry.row, true, assignments, given.values, given.fresh),
        _ => Ok(None),
    }
}

fn update_clash(
    schema: &TableSchema,
    on_conflict: &Option<InsertConflictAction>,
    existing: &Option<RowEntry>,
    given: &ClashValues,
) -> (result: Result<Option<RowMap>, UserError>)
    ensures
        seen_option(result) == clash_updated(
            schema@,
            option_view(*on_conflict),
            option_view(*existing),
            given@,
        ),
{
    match (existing, on_conflict) {
        (
            Some(entry),
            Some(InsertConflictAction::DoUpdate { target_columns, assignments, selection }),
        ) => apply_insert_conflict_update(
            schema,
            entry.row.duplicate(),
            selection.is_none() || given.selected,
            assignments,
            &given.values,
            &given.fresh,
        ),
        (
            Some(entry),
            Some(InsertConflictAction::DoUpdateAnyUnique { target_column_sets, assignments }),
        ) => apply_insert_conflict_update(
            schema,
            entry.row.duplicate(),
            true,
            assignments,
            &given.values,
            &given.fresh,
        ),
        _ => Ok(None),
    }
}

/// The rows of an insertion, how far it has come, and what it has counted. The rows that were
/// written are kept, where the statement returns them.
pub struct InsertRun {
    pub rows: Vec<RowMap>,
    pub at: usize,
    pub counts: InsertCounts,
    pub returning: bool,
    pub returned: Vec<RowMap>,
}

/// What an [`InsertRun`] says.
pub struct InsertRunModel {
    pub rows: Seq<RowModel>,
    pub at: int,
    pub counts: InsertCounts,
    pub returning: bool,
    pub returned: Seq<RowModel>,
}

impl View for InsertRun {
    type V = InsertRunModel;

    open spec fn view(&self) -> InsertRunModel {
        InsertRunModel {
            rows: views(self.rows@),
            at: self.at as int,
            counts: self.counts,
            returning: self.returning,
            returned: views(self.returned@),
        }
    }
}

/// Whether a run could have come this far: no more rows are counted than it has come past, and
/// each counted row is kept where rows are returned.
pub open spec fn is_underway(run: InsertRunModel) -> bool {
    &&& 0 <= run.at <= run.rows.len()
    &&& run.counts.inserted <= run.at
    &&& run.counts.affected_rows <= 2 * run.at
    &&& run.returned.len() == (if run.returning {
        run.counts.inserted as int
    } else {
        0
    })
}

/// The row that a new one clashes with; a row without a key is refused before one is looked for.
pub open spec fn row_clash(
    table: TableModel,
    on_conflict: Option<ConflictModel>,
    row: RowModel,
    row_id: Datum,
    facts: Seq<SetFactsModel>,
) -> Result<Option<EntryModel>, Report> {
    if key_for_insert(table, row, row_id) == Datum::Null {
        Err(report("23502"@, "null value for primary key '"@ + table.primary_key + "'"@))
    } else {
        first_clash(table, sets_to_search(table, on_conflict), row, facts)
    }
}

/// What becomes of a new row, once the row that it clashes with is known.
pub open spec fn row_decision(
    table: TableModel,
    on_conflict: Option<ConflictModel>,
    row: RowModel,
    row_id: Datum,
    existing: Option<EntryModel>,
    given: ClashModel,
    key_taken: bool,
) -> Result<InsertModel, Report> {
    let key = key_for_insert(table, row, row_id);
    if key == Datum::Null {
        Err(report("23502"@, "null value for primary key '"@ + table.primary_key + "'"@))
    } else {
        match clash_updated(table, on_conflict, existing, given) {
            Err(e) => Err(e),
            Ok(updated) => inserted_row(
                table,
                on_conflict,
                key,
                row,
                existing,
                updated,
                key_taken,
            ),
        }
    }
}

impl InsertRun {
    /// An insertion of rows that has done nothing yet.
    pub fn start(rows: Vec<RowMap>, returning: bool) -> (run: InsertRun)
        ensures
            run@.rows == views(rows@),
            run@.at == 0,
            run@.counts.inserted == 0,
            run@.counts.affected_rows == 0,
            run@.counts.first_insert_id is None,
            run@.returning == returning,
            run@.returned == Seq::<RowModel>::empty(),
            is_underway(run@),
    {
        let run = InsertRun {
            rows,
            at: 0,
            counts: InsertCounts::new(),
            returning,
            returned: Vec::new(),
        };
        assert(run@.returned =~= Seq::<RowModel>::empty());
        run
    }

    /// Whether there are rows that were not come to yet.
    pub fn is_done(&self) -> (done: bool)
        ensures
            done == (self@.at >= self@.rows.len()),
    {
        self.at >= self.rows.len()
    }

    /// The row that the next new one clashes with.
    pub fn find_clash(
        &self,
        schema: &TableSchema,
        on_conflict: &Option<InsertConflictAction>,
        row_id: &ColumnValue,
        facts: &Vec<SetFacts>,
    ) -> (result: Result<Option<RowEntry>, UserError>)
        requires
            self@.at < self@.rows.len(),
            facts@.len() == sets_to_search(schema@, option_view(*on_conflict)).len(),
        ensures
            seen_option(result) == row_clash(
                schema@,
                option_view(*on_conflict),
                self@.rows[self@.at],
                row_id@,
                views(facts@),
            ),
    {
        let row = &self.rows[self.at];
        match insert_key(schema, row, row_id) {
            Err(e) => Err(e),
            Ok(_) => find_existing_row_for_conflict(schema, on_conflict, row, facts),
        }
    }

    /// What becomes of the next new row.
    pub fn decide(
        &self,
        schema: &TableSchema,
        on_conflict: &Option<InsertConflictAction>,
        row_id: &ColumnValue,
        existing: Option<RowEntry>,
        given: &ClashValues,
        key_taken: bool,
    ) -> (result: Result<InsertStep, UserError>)
        requires
            self@.at < self@.rows.len(),
        ensures
            crate::schema::seen(result) == row_decision(
                schema@,
                option_view(*on_conflict),
                self@.rows[self@.at],
                row_id@,
                option_view(existing),
                given@,
                key_taken,
            ),
    {
        let row = &self.rows[self.at];
        let key = match insert_key(schema, row, row_id) {
            Err(e) => {
                return Err(e);
            },
            Ok(key) => key,
        };
        match update_clash(schema, on_conflict, &existing, given) {
            Err(e) => Err(e),
            Ok(updated) => insert_step(
                schema,
                on_conflict,
                key,
                row.duplicate(),
                existing,
                updated,
                key_taken,
            ),
        }
    }

    /// Goes past a row that is left out.
    pub fn skipped(&mut self)
        requires
            is_underway(old(self)@),
            old(self)@.at < old(self)@.rows.len(),
        ensures
            final(self)@ == (InsertRunModel { at: old(self)@.at + 1, ..old(self)@ }),
            is_underway(final(self)@),
    {
        let end: usize = self.rows.len();
        assert(self.at < end);
        self.at = self.at + 1;
    }

    /// Goes past a row that was written, and counts it.
    pub fn written(&mut self, row: RowMap, affected: usize, insert_id: Option<i64>)
        requires
            is_underway(old(self)@),
            old(self)@.at < old(self)@.rows.len(),
            affected <= 2,
            old(self)@.counts.affected_rows + affected <= usize::MAX,
        ensures
            final(self)@.rows == old(self)@.rows,
            final(self)@.at == old(self)@.at + 1,
            final(self)@.counts.inserted == old(self)@.counts.inserted + 1,
            final(self)@.counts.affected_rows == old(self)@.counts.affected_rows + affected,
            final(self)@.counts.first_insert_id == (if old(
                self,
            )@.counts.first_insert_id is Some {
                old(self)@.counts.first_insert_id
            } else {
                insert_id
            }),
            final(self)@.returning == old(self)@.returning,
            final(self)@.returned == (if old(self)@.returning {
                old(self)@.returned.push(row@)
            } else {
                old(self)@.returned
            }),
            is_underway(final(self)@),
    {
        let end: usize = self.rows.len();
        assert(self.at < end);
        let ghost kept = views(self.returned@);
        let ghost model = row@;
        self.counts.count(affected, insert_id);
        self.at = self.at + 1;
        if self.returning {
            self.returned.push(row);
            assert(views(self.returned@) =~= kept.push(model));
        }
    }

    /// The answer to an insertion that returns no rows.
    pub fn answer(&self, mode: GatewayMode) -> (response: Response)
        ensures
            response@ == insert_answer(mode, self@.counts),
    {
        insert_response(mode, &self.counts)
    }
}

/// A row that is written counts for two at most, so that the counts of a run stay within bounds.
pub proof fn law_a_row_counts_for_two_at_most(
    table: TableModel,
    on_conflict: Option<ConflictModel>,
    row: RowModel,
    row_id: Datum,
    existing: Option<EntryModel>,
    given: ClashModel,
    key_taken: bool,
)
    ensures
        row_decision(table, on_conflict, row, row_id, existing, given, key_taken) matches Ok(
            InsertModel::Write { replaced, key, row: next, affected },
        ) ==> affected <= 2,
{
}

/// Without a word on conflicts, a row whose key is free is written as it stands, under its own
/// key, and counts for one.
pub proof fn law_plain_rows_are_written(
    table: TableModel,
    row: RowModel,
    row_id: Datum,
    given: ClashModel,
)
    requires
        key_for_insert(table, row, row_id) != Datum::Null,
    ensures
        row_decision(table, None, row, row_id, None, given, false) == Ok::<InsertModel, Report>(
            InsertModel::Write {
                replaced: None,
                key: key_for_insert(table, row, row_id),
                row,
                affected: 1,
            },
        ),
        forall|facts: Seq<SetFactsModel>|
            row_clash(table, None, row, row_id, facts) == Ok::<Option<EntryModel>, Report>(None),
{
}

} // verus!
