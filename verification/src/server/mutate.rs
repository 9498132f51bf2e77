//! Updates and deletions: which of the rows that were found are changed, and into what.
use vstd::prelude::*;

use crate::error::{report, user_error, Report, UserError};
use crate::response::{command_complete_rows, completed_rows, Response};
use crate::row::{RowMap, RowModel};
use crate::schema::{option_view, seen, seen_all, views, Duplicate, TableModel, TableSchema};
use crate::server::plan::{
    AssignmentModel, UpdateAssignment, WriteAccess, WriteModel as AccessModel,
};
use crate::server::rows::{
    apply_update_assignments, apply_write_limit, row_updated, write_limited, EntryModel, RowEntry,
};
use crate::types::{ColumnValue, Datum};

verus! {

/// The rows that are changed, of those that were found: the one that was asked for by its key, or
/// those of a scan up to the limit.
pub open spec fn rows_chosen(
    access: AccessModel,
    found: Seq<EntryModel>,
    limit: Option<usize>,
    order_by_primary_key: bool,
) -> Seq<EntryModel> {
    if limit == Some(0usize) {
        seq![]
    } else if access is PointLookup {
        found
    } else {
        write_limited(found, limit, order_by_primary_key)
    }
}

/// The rows that an update changes; one that was asked for by its key has to be there.
pub open spec fn update_chosen(
    access: AccessModel,
    found: Seq<EntryModel>,
    limit: Option<usize>,
    order_by_primary_key: bool,
) -> Result<Seq<EntryModel>, Report> {
    if limit != Some(0usize) && access is PointLookup && found.len() == 0 {
        Err(report("02000"@, "no row found for UPDATE"@))
    } else {
        Ok(rows_chosen(access, found, limit, order_by_primary_key))
    }
}

/// No more rows are changed than the limit allows, where at most one row has a key.
pub proof fn law_limit_holds(
    access: AccessModel,
    found: Seq<EntryModel>,
    limit: Option<usize>,
    order_by_primary_key: bool,
)
    requires
        access is PointLookup ==> found.len() <= 1,
    ensures
        limit matches Some(n) ==> rows_chosen(access, found, limit, order_by_primary_key).len()
            <= n,
{
}

fn is_point_lookup(access: &WriteAccess) -> (answer: bool)
    ensures
        answer == (access@ is PointLookup),
{
    match access {
        WriteAccess::PointLookup { key } => true,
        _ => false,
    }
}

/// The rows that a deletion changes, of those that were found.
pub fn rows_to_delete(
    access: &WriteAccess,
    found: Vec<RowEntry>,
    limit: Option<usize>,
    order_by_primary_key: bool,
) -> (rows: Vec<RowEntry>)
    ensures
        views(rows@) == rows_chosen(access@, views(found@), limit, order_by_primary_key),
{
    if let Some(n) = limit {
        if n == 0 {
            let none: Vec<RowEntry> = Vec::new();
            assert(views(none@) =~= Seq::<EntryModel>::empty());
            return none;
        }
    }
    if is_point_lookup(access) {
        return found;
    }
    apply_write_limit(found, limit, order_by_primary_key)
}

/// The rows that an update changes, of those that were found.
pub fn rows_to_update(
    access: &WriteAccess,
    found: Vec<RowEntry>,
    limit: Option<usize>,
    order_by_primary_key: bool,
) -> (result: Result<Vec<RowEntry>, UserError>)
    ensures
        seen_all(result) == update_chosen(access@, views(found@), limit, order_by_primary_key),
{
    let stops = match limit {
        Some(n) => n == 0,
        None => false,
    };
    if !stops && is_point_lookup(access) && found.len() == 0 {
        return Err(user_error("02000", "no row found for UPDATE"));
    }
    Ok(rows_to_delete(access, found, limit, order_by_primary_key))
}

/// The values that an update puts into a row: those of its assignments, and those of the columns
/// that change on every update.
#[derive(Debug)]
pub struct NewValues {
    pub values: Vec<ColumnValue>,
    pub fresh: Vec<ColumnValue>,
}

/// What [`NewValues`] say.
pub struct NewModel {
    pub values: Seq<Datum>,
    pub fresh: Seq<Datum>,
}

impl View for NewValues {
    type V = NewModel;

    open spec fn view(&self) -> NewModel {
        NewModel { values: views(self.values@), fresh: views(self.fresh@) }
    }
}

/// The rows that an update has changed, and the error of the row that it could not change.
#[derive(Debug)]
pub struct UpdatedRows {
    pub rows: Vec<RowEntry>,
    pub error: Option<UserError>,
}

/// What [`UpdatedRows`] say.
pub struct UpdatedModel {
    pub rows: Seq<EntryModel>,
    pub error: Option<Report>,
}

impl View for UpdatedRows {
    type V = UpdatedModel;

    open spec fn view(&self) -> UpdatedModel {
        UpdatedModel { rows: views(self.rows@), error: option_view(self.error) }
    }
}

/// What an update makes of rows, one by one, up to the first that it cannot change.
pub open spec fn rows_updated(
    table: TableModel,
    assignments: Seq<AssignmentModel>,
    rows: Seq<EntryModel>,
    new_values: Seq<NewModel>,
) -> UpdatedModel
    decreases rows.len(),
{
    if rows.len() == 0 || new_values.len() == 0 {
        UpdatedModel { rows: seq![], error: None }
    } else {
        let before = rows_updated(
            table,
            assignments,
            rows.drop_last(),
            new_values.drop_last(),
        );
        if before.error is Some {
            before
        } else {
            let entry = rows.last();
            let new = new_values.last();
            match row_updated(table, entry.row, assignments, new.values, new.fresh) {
                Err(e) => UpdatedModel { error: Some(e), ..before },
                Ok(row) => UpdatedModel {
                    rows: before.rows.push(EntryModel { key: entry.key, row }),
                    ..before
                },
            }
        }
    }
}

proof fn lemma_update_stops(
    table: TableModel,
    assignments: Seq<AssignmentModel>,
    rows: Seq<EntryModel>,
    new_values: Seq<NewModel>,
    n: int,
)
    requires
        0 <= n <= rows.len(),
        rows.len() == new_values.len(),
        rows_updated(table, assignments, rows.take(n), new_values.take(n)).error is Some,
    ensures
        rows_updated(table, assignments, rows, new_values) == rows_updated(
            table,
            assignments,
            rows.take(n),
            new_values.take(n),
        ),
    decreases rows.len() - n,
{
    if n == rows.len() {
        assert(rows.take(n) =~= rows);
        assert(new_values.take(n) =~= new_values);
    } else {
        assert(rows.take(n + 1).drop_last() =~= rows.take(n));
        assert(new_values.take(n + 1).drop_last() =~= new_values.take(n));
        lemma_update_stops(table, assignments, rows, new_values, n + 1);
    }
}

/// An update keeps the keys of rows and their order, and changes all of them where none fails.
pub proof fn law_updates_keep_keys(
    table: TableModel,
    assignments: Seq<AssignmentModel>,
    rows: Seq<EntryModel>,
    new_values: Seq<NewModel>,
)
    requires
        rows.len() == new_values.len(),
    ensures
        ({
            let done = rows_updated(table, assignments, rows, new_values);
            &&& done.rows.len() <= rows.len()
            &&& done.error is None ==> done.rows.len() == rows.len()
            &&& forall|i: int|
                0 <= i < done.rows.len() ==> (#[trigger] done.rows[i]).key == rows[i].key
        }),
    decreases rows.len(),
{
    if rows.len() > 0 {
        law_updates_keep_keys(table, assignments, rows.drop_last(), new_values.drop_last());
        let before = rows_updated(
            table,
            assignments,
            rows.drop_last(),
            new_values.drop_last(),
        );
        let done = rows_updated(table, assignments, rows, new_values);
        assert forall|i: int| 0 <= i < done.rows.len() implies (#[trigger] done.rows[i]).key
            == rows[i].key by {
            if i < before.rows.len() {
                assert(done.rows[i] == before.rows[i]);
                assert(rows.drop_last()[i] == rows[i]);
            }
        }
    }
}

/// Changes rows, one by one, up to the first that cannot be changed.
pub fn update_rows(
    schema: &TableSchema,
    assignments: &Vec<UpdateAssignment>,
    rows: &Vec<RowEntry>,
    new_values: &Vec<NewValues>,
) -> (done: UpdatedRows)
    requires
        rows@.len() == new_values@.len(),
    ensures
        done@ == rows_updated(schema@, views(assignments@), views(rows@), views(new_values@)),
{
    let ghost all = views(rows@);
    let ghost new = views(new_values@);
    let mut changed: Vec<RowEntry> = Vec::new();
    let mut i: usize = 0;
    assert(views(changed@) =~= Seq::<EntryModel>::empty());
    while i < rows.len()
        invariant
            i <= rows@.len(),
            rows@.len() == new_values@.len(),
            all == views(rows@),
            new == views(new_values@),
            rows_updated(
                schema@,
                views(assignments@),
                all.take(i as int),
                new.take(i as int),
            ) == (UpdatedModel { rows: views(changed@), error: None }),
        decreases rows@.len() - i,
    {
        proof {
            assert(all.take(i + 1).drop_last() =~= all.take(i as int));
            assert(new.take(i + 1).drop_last() =~= new.take(i as int));
            assert(all.take(i + 1).last() == rows@[i as int]@);
            assert(new.take(i + 1).last() == new_values@[i as int]@);
        }
        match apply_update_assignments(
            rows[i].row.duplicate(),
            schema,
            assignments,
            &new_values[i].values,
            &new_values[i].fresh,
        ) {
            Err(e) => {
                proof {
                    lemma_update_stops(schema@, views(assignments@), all, new, i + 1);
                }
                return UpdatedRows { rows: changed, error: Some(e) };
            },
            Ok(row) => {
                let ghost before = views(changed@);
                let entry = RowEntry { key: rows[i].key.copied(), row };
                let ghost added = entry@;
                changed.push(entry);
                assert(views(changed@) =~= before.push(added));
            },
        }
        i += 1;
    }
    assert(all.take(i as int) =~= all);
    assert(new.take(i as int) =~= new);
    UpdatedRows { rows: changed, error: None }
}

/// A change of rows, one by one: those that it chose, how far it has come, and those that it has
/// changed.
#[derive(Debug)]
pub struct ChangeRun {
    pub rows: Vec<RowEntry>,
    pub at: usize,
    pub changed: Vec<RowMap>,
}

/// What a [`ChangeRun`] says.
pub struct ChangeModel {
    pub rows: Seq<EntryModel>,
    pub at: int,
    pub changed: Seq<RowModel>,
}

impl View for ChangeRun {
    type V = ChangeModel;

    open spec fn view(&self) -> ChangeModel {
        ChangeModel {
            rows: views(self.rows@),
            at: self.at as int,
            changed: views(self.changed@),
        }
    }
}

/// Whether a run could have come this far: it has changed each row that it has come past.
pub open spec fn is_changing(run: ChangeModel) -> bool {
    0 <= run.at <= run.rows.len() && run.changed.len() == run.at
}

/// What a run has changed once it changed one more row.
pub open spec fn row_changed(run: ChangeModel, row: RowModel) -> ChangeModel {
    ChangeModel { at: run.at + 1, changed: run.changed.push(row), ..run }
}

impl ChangeRun {
    /// A change of rows that has changed none of them yet.
    pub fn start(rows: Vec<RowEntry>) -> (run: ChangeRun)
        ensures
            run@ == (ChangeModel { rows: views(rows@), at: 0, changed: seq![] }),
            is_changing(run@),
    {
        let run = ChangeRun { rows, at: 0, changed: Vec::new() };
        assert(run@.changed =~= Seq::<RowModel>::empty());
        run
    }

    /// Whether there are no more rows to change.
    pub fn is_done(&self) -> (done: bool)
        ensures
            done == (self@.at >= self@.rows.len()),
    {
        self.at >= self.rows.len()
    }

    /// What an update makes of the next row, under the key of the row.
    pub fn updated(
        &self,
        schema: &TableSchema,
        assignments: &Vec<UpdateAssignment>,
        new_values: &NewValues,
    ) -> (result: Result<RowEntry, UserError>)
        requires
            self@.at < self@.rows.len(),
        ensures
            seen(result) == (match row_updated(
                schema@,
                self@.rows[self@.at].row,
                views(assignments@),
                new_values@.values,
                new_values@.fresh,
            ) {
                Ok(row) => Ok(EntryModel { key: self@.rows[self@.at].key, row }),
                Err(e) => Err(e),
            }),
    {
        let entry = &self.rows[self.at];
        match apply_update_assignments(
            entry.row.duplicate(),
            schema,
            assignments,
            &new_values.values,
            &new_values.fresh,
        ) {
            Err(e) => Err(e),
            Ok(row) => Ok(RowEntry { key: entry.key.copied(), row }),
        }
    }

    /// Notes that the next row was changed, with the row that a statement may return of it.
    pub fn done(&mut self, row: RowMap)
        requires
            is_changing(old(self)@),
            old(self)@.at < old(self)@.rows.len(),
        ensures
            final(self)@ == row_changed(old(self)@, row@),
            is_changing(final(self)@),
    {
        let ghost before = self@.changed;
        let end: usize = self.rows.len();
        assert(self.at < end);
        self.changed.push(row);
        self.at = self.at + 1;
        assert(self@.changed =~= before.push(row@));
    }

    /// The answer to a change that returns no rows.
    pub fn answer(&self, tag: &str) -> (response: Response)
        requires
            is_changing(self@),
        ensures
            response@ == completed_rows(tag@, self@.at as usize),
    {
        assert(self.changed@.len() == views(self.changed@).len());
        command_complete_rows(tag, self.changed.len())
    }
}

/// The rows that an update has changed, once it has come past some.
pub open spec fn changed_so_far(
    table: TableModel,
    assignments: Seq<AssignmentModel>,
    run: ChangeModel,
    new_values: Seq<NewModel>,
) -> bool {
    let done = rows_updated(
        table,
        assignments,
        run.rows.take(run.at),
        new_values.take(run.at),
    );
    done.error is None && run.changed == done.rows.map_values(|entry: EntryModel| entry.row)
}

/// An update that changes its rows one by one, with a stop between any two, changes them into
/// what it makes of all of them at once.
pub proof fn law_row_by_row_is_all_at_once(
    table: TableModel,
    assignments: Seq<AssignmentModel>,
    run: ChangeModel,
    new_values: Seq<NewModel>,
)
    requires
        is_changing(run),
        run.rows.len() == new_values.len(),
        changed_so_far(table, assignments, run, new_values),
    ensures
        run.at < run.rows.len() ==> match row_updated(
            table,
            run.rows[run.at].row,
            assignments,
            new_values[run.at].values,
            new_values[run.at].fresh,
        ) {
            Ok(row) => changed_so_far(table, assignments, row_changed(run, row), new_values),
            Err(e) => rows_updated(table, assignments, run.rows, new_values).error == Some(e),
        },
        run.at == run.rows.len() ==> run.changed == rows_updated(
            table,
            assignments,
            run.rows,
            new_values,
        ).rows.map_values(|entry: EntryModel| entry.row) && run.changed.len() == run.rows.len(),
{
    let n = run.at;
    assert(run.rows.take(run.rows.len() as int) =~= run.rows);
    assert(new_values.take(run.rows.len() as int) =~= new_values);
    if n < run.rows.len() {
        assert(run.rows.take(n + 1).drop_last() =~= run.rows.take(n));
        assert(new_values.take(n + 1).drop_last() =~= new_values.take(n));
        match row_updated(
            table,
            run.rows[n].row,
            assignments,
            new_values[n].values,
            new_values[n].fresh,
        ) {
            Ok(row) => {
                let before = rows_updated(
                    table,
                    assignments,
                    run.rows.take(n),
                    new_values.take(n),
                );
                let entry = EntryModel { key: run.rows[n].key, row };
                assert(before.rows.push(entry).map_values(|entry: EntryModel| entry.row)
                    =~= before.rows.map_values(|entry: EntryModel| entry.row).push(row));
            },
            Err(_) => {
                lemma_update_stops(table, assignments, run.rows, new_values, n + 1);
            },
        }
    }
}

} // verus!
