//! What updates and deletions are for: each assigned column gets its own value, columns that
//! change by themselves get theirs, and just the rows that were chosen are changed.
use vstd::prelude::*;

use crate::error::Report;
use crate::row::{field, RowModel};
use crate::schema::{has_column, ColumnModel, TableModel};
use crate::server::mutate::{rows_chosen, rows_updated, update_chosen, NewModel};
use crate::server::plan::{AssignmentModel, WriteModel};
use crate::server::rows::{
    assigned_columns, conflict_assigned, conflict_updated, named_among, refreshed, row_updated,
    update_assigned, EntryModel, RowEntry,
};
use crate::sorting::{law_sorted, order_of, sorted, strict_on};
use crate::text::lower;
use crate::types::{datum_eq, Datum};

verus! {

/// Whether no assignment behind one, of those that have a value, names the same column.
pub open spec fn is_last_of_its_column(
    assignments: Seq<AssignmentModel>,
    values: Seq<Datum>,
    i: int,
) -> bool {
    forall|j: int|
        i < j < assignments.len() && j < values.len() ==> (#[trigger] assignments[j]).column
            != assignments[i].column
}

proof fn lemma_update_keeps(
    table: TableModel,
    row: RowModel,
    columns: Seq<Seq<char>>,
    values: Seq<Datum>,
    name: Seq<char>,
)
    requires
        update_assigned(table, row, columns, values) is Ok,
        forall|j: int| 0 <= j < columns.len() && j < values.len() ==> #[trigger] columns[j] != name,
        row.dom().contains(name),
    ensures
        update_assigned(table, row, columns, values)->Ok_0.dom().contains(name),
        update_assigned(table, row, columns, values)->Ok_0[name] == row[name],
    decreases columns.len(),
{
    if columns.len() > 0 && values.len() > 0 {
        assert forall|j: int|
            0 <= j < columns.skip(1).len() && j < values.skip(1).len() implies (
        #[trigger] columns.skip(1)[j]) != name by {
            assert(columns.skip(1)[j] == columns[j + 1]);
        }
        lemma_update_keeps(
            table,
            row.insert(columns[0], values[0]),
            columns.skip(1),
            values.skip(1),
            name,
        );
    }
}

proof fn lemma_update_gives(
    table: TableModel,
    row: RowModel,
    columns: Seq<Seq<char>>,
    values: Seq<Datum>,
    i: int,
)
    requires
        update_assigned(table, row, columns, values) is Ok,
        0 <= i < columns.len(),
        i < values.len(),
        forall|j: int|
            i < j < columns.len() && j < values.len() ==> #[trigger] columns[j] != columns[i],
    ensures
        update_assigned(table, row, columns, values)->Ok_0.dom().contains(columns[i]),
        update_assigned(table, row, columns, values)->Ok_0[columns[i]] == values[i],
    decreases columns.len(),
{
    let next = row.insert(columns[0], values[0]);
    let rest = columns.skip(1);
    if i == 0 {
        assert forall|j: int| 0 <= j < rest.len() && j < values.skip(1).len() implies (
        #[trigger] rest[j]) != columns[0] by {
            assert(rest[j] == columns[j + 1]);
        }
        lemma_update_keeps(table, next, rest, values.skip(1), columns[0]);
    } else {
        assert forall|j: int| i - 1 < j < rest.len() && j < values.skip(1).len() implies (
        #[trigger] rest[j]) != rest[i - 1] by {
            assert(rest[j] == columns[j + 1]);
        }
        lemma_update_gives(table, next, rest, values.skip(1), i - 1);
    }
}

proof fn lemma_refresh_keeps_assigned(
    columns: Seq<ColumnModel>,
    row: RowModel,
    assigned: Seq<Seq<char>>,
    fresh: Seq<Datum>,
    name: Seq<char>,
)
    requires
        assigned.contains(name),
        row.dom().contains(name),
    ensures
        refreshed(columns, row, assigned, fresh).dom().contains(name),
        refreshed(columns, row, assigned, fresh)[name] == row[name],
    decreases columns.len(),
{
    if columns.len() > 0 && fresh.len() > 0 {
        let next = if columns[0].on_update is Some && !named_among(assigned, columns[0].name) {
            row.insert(columns[0].name, fresh[0])
        } else {
            row
        };
        if columns[0].name == name {
            let i = choose|i: int| 0 <= i < assigned.len() && assigned[i] == name;
            assert(lower(assigned[i]) == lower(name));
            assert(named_among(assigned, name));
        }
        lemma_refresh_keeps_assigned(columns.skip(1), next, assigned, fresh.skip(1), name);
    }
}

/// After an update each assigned column has the value of its own assignment: of the last one,
/// where several name it.
pub proof fn law_assigned_columns_get_their_values(
    table: TableModel,
    row: RowModel,
    assignments: Seq<AssignmentModel>,
    values: Seq<Datum>,
    fresh: Seq<Datum>,
    i: int,
)
    requires
        row_updated(table, row, assignments, values, fresh) is Ok,
        0 <= i < assignments.len(),
        i < values.len(),
        is_last_of_its_column(assignments, values, i),
    ensures
        field(
            row_updated(table, row, assignments, values, fresh)->Ok_0,
            assignments[i].column,
        ) == values[i],
{
    let columns = assigned_columns(assignments);
    assert forall|j: int| i < j < columns.len() && j < values.len() implies (#[trigger] columns[j])
        != columns[i] by {
        assert(assignments[j].column != assignments[i].column);
    }
    lemma_update_gives(table, row, columns, values, i);
    let next = update_assigned(table, row, columns, values)->Ok_0;
    assert(columns.contains(columns[i]));
    lemma_refresh_keeps_assigned(table.columns, next, columns, fresh, columns[i]);
}

proof fn lemma_refresh_gives(
    columns: Seq<ColumnModel>,
    row: RowModel,
    assigned: Seq<Seq<char>>,
    fresh: Seq<Datum>,
    k: int,
)
    requires
        0 <= k < columns.len(),
        k < fresh.len(),
        columns[k].on_update is Some,
        !named_among(assigned, columns[k].name),
        forall|j: int| k < j < columns.len() ==> (#[trigger] columns[j]).name != columns[k].name,
    ensures
        refreshed(columns, row, assigned, fresh).dom().contains(columns[k].name),
        refreshed(columns, row, assigned, fresh)[columns[k].name] == fresh[k],
    decreases columns.len(),
{
    let next = if columns[0].on_update is Some && !named_among(assigned, columns[0].name) {
        row.insert(columns[0].name, fresh[0])
    } else {
        row
    };
    let rest = columns.skip(1);
    if k == 0 {
        assert forall|j: int| 0 <= j < rest.len() implies (#[trigger] rest[j]).name
            != columns[0].name by {
            assert(rest[j] == columns[j + 1]);
        }
        lemma_refresh_keeps(rest, next, assigned, fresh.skip(1), columns[0].name);
    } else {
        assert forall|j: int| k - 1 < j < rest.len() implies (#[trigger] rest[j]).name
            != rest[k - 1].name by {
            assert(rest[j] == columns[j + 1]);
        }
        lemma_refresh_gives(rest, next, assigned, fresh.skip(1), k - 1);
    }
}

proof fn lemma_refresh_keeps(
    columns: Seq<ColumnModel>,
    row: RowModel,
    assigned: Seq<Seq<char>>,
    fresh: Seq<Datum>,
    name: Seq<char>,
)
    requires
        forall|j: int| 0 <= j < columns.len() ==> (#[trigger] columns[j]).name != name,
        row.dom().contains(name),
    ensures
        refreshed(columns, row, assigned, fresh).dom().contains(name),
        refreshed(columns, row, assigned, fresh)[name] == row[name],
    decreases columns.len(),
{
    if columns.len() > 0 && fresh.len() > 0 {
        let next = if columns[0].on_update is Some && !named_among(assigned, columns[0].name) {
            row.insert(columns[0].name, fresh[0])
        } else {
            row
        };
        assert(columns[0].name != name);
        assert forall|j: int| 0 <= j < columns.skip(1).len() implies (#[trigger] columns.skip(
            1,
        )[j]).name != name by {
            assert(columns.skip(1)[j] == columns[j + 1]);
        }
        lemma_refresh_keeps(columns.skip(1), next, assigned, fresh.skip(1), name);
    }
}

/// A column that changes on every update gets its new value, unless the update sets it itself.
pub proof fn law_columns_refresh_on_update(
    table: TableModel,
    row: RowModel,
    assignments: Seq<AssignmentModel>,
    values: Seq<Datum>,
    fresh: Seq<Datum>,
    k: int,
)
    requires
        row_updated(table, row, assignments, values, fresh) is Ok,
        0 <= k < table.columns.len(),
        k < fresh.len(),
        table.columns[k].on_update is Some,
        forall|i: int|
            0 <= i < assignments.len() ==> lower((#[trigger] assignments[i]).column) != lower(
                table.columns[k].name,
            ),
        forall|j: int|
            k < j < table.columns.len() ==> (#[trigger] table.columns[j]).name
                != table.columns[k].name,
    ensures
        field(
            row_updated(table, row, assignments, values, fresh)->Ok_0,
            table.columns[k].name,
        ) == fresh[k],
{
    let columns = assigned_columns(assignments);
    let next = update_assigned(table, row, columns, values)->Ok_0;
    if named_among(columns, table.columns[k].name) {
        let i = choose|i: int|
            0 <= i < columns.len() && lower(#[trigger] columns[i]) == lower(table.columns[k].name);
        assert(lower(assignments[i].column) == lower(table.columns[k].name));
    }
    lemma_refresh_gives(table.columns, next, columns, fresh, k);
}

proof fn lemma_update_fails(
    table: TableModel,
    row: RowModel,
    columns: Seq<Seq<char>>,
    values: Seq<Datum>,
)
    ensures
        update_assigned(table, row, columns, values) is Ok <==> forall|i: int|
            0 <= i < columns.len() && i < values.len() ==> has_column(
                table.columns,
                #[trigger] columns[i],
            ),
        update_assigned(table, row, columns, values) matches Err(e) ==> e.code == "42703"@,
    decreases columns.len(),
{
    if columns.len() > 0 && values.len() > 0 && has_column(table.columns, columns[0]) {
        let next = row.insert(columns[0], values[0]);
        let rest = columns.skip(1);
        lemma_update_fails(table, next, rest, values.skip(1));
        if update_assigned(table, next, rest, values.skip(1)) is Ok {
            assert forall|i: int| 0 <= i < columns.len() && i < values.len() implies has_column(
                table.columns,
                #[trigger] columns[i],
            ) by {
                if i > 0 {
                    assert(rest[i - 1] == columns[i]);
                }
            }
        } else {
            let i = choose|i: int|
                0 <= i < rest.len() && i < values.skip(1).len() && !has_column(
                    table.columns,
                    #[trigger] rest[i],
                );
            assert(columns[i + 1] == rest[i]);
        }
    } else if columns.len() > 0 && values.len() > 0 {
        assert(!has_column(table.columns, columns[0]));
    }
}

/// An update fails only over a column that the table does not have, and then always.
pub proof fn law_updates_fail_over_unknown_columns(
    table: TableModel,
    row: RowModel,
    assignments: Seq<AssignmentModel>,
    values: Seq<Datum>,
    fresh: Seq<Datum>,
)
    ensures
        row_updated(table, row, assignments, values, fresh) is Ok <==> forall|i: int|
            0 <= i < assignments.len() && i < values.len() ==> has_column(
                table.columns,
                (#[trigger] assignments[i]).column,
            ),
        row_updated(table, row, assignments, values, fresh) matches Err(e) ==> e.code == "42703"@,
{
    let columns = assigned_columns(assignments);
    lemma_update_fails(table, row, columns, values);
    if row_updated(table, row, assignments, values, fresh) is Ok {
        assert forall|i: int| 0 <= i < assignments.len() && i < values.len() implies has_column(
            table.columns,
            (#[trigger] assignments[i]).column,
        ) by {
            assert(columns[i] == assignments[i].column);
        }
    } else {
        let i = choose|i: int|
            0 <= i < columns.len() && i < values.len() && !has_column(
                table.columns,
                #[trigger] columns[i],
            );
        assert(assignments[i].column == columns[i]);
    }
}

/// Each row of an update becomes what its own new values make of it; where one fails, the rows
/// before it were changed, and the error is its own.
pub proof fn law_each_row_gets_its_own_values(
    table: TableModel,
    assignments: Seq<AssignmentModel>,
    rows: Seq<EntryModel>,
    new_values: Seq<NewModel>,
)
    requires
        rows.len() == new_values.len(),
    ensures
        ({
            let done = rows_updated(table, assignments, rows, new_values);
            &&& done.rows.len() <= rows.len()
            &&& forall|i: int|
                0 <= i < done.rows.len() ==> row_updated(
                    table,
                    rows[i].row,
                    assignments,
                    new_values[i].values,
                    new_values[i].fresh,
                ) == Ok::<RowModel, Report>((#[trigger] done.rows[i]).row)
            &&& match done.error {
                None => done.rows.len() == rows.len(),
                Some(e) => done.rows.len() < rows.len() && row_updated(
                    table,
                    rows[done.rows.len() as int].row,
                    assignments,
                    new_values[done.rows.len() as int].values,
                    new_values[done.rows.len() as int].fresh,
                ) == Err::<RowModel, Report>(e),
            }
        }),
    decreases rows.len(),
{
    if rows.len() > 0 {
        let init = rows.drop_last();
        let given = new_values.drop_last();
        law_each_row_gets_its_own_values(table, assignments, init, given);
        let before = rows_updated(table, assignments, init, given);
        let done = rows_updated(table, assignments, rows, new_values);
        assert forall|i: int| 0 <= i < done.rows.len() implies row_updated(
            table,
            rows[i].row,
            assignments,
            new_values[i].values,
            new_values[i].fresh,
        ) == Ok::<RowModel, Report>((#[trigger] done.rows[i]).row) by {
            if i < before.rows.len() {
                assert(done.rows[i] == before.rows[i]);
                assert(init[i] == rows[i]);
                assert(given[i] == new_values[i]);
            }
        }
    }
}

/// An update or a deletion changes rows that were found alone, all of them where it has no limit,
/// else as many as the limit allows; in the order in which they were found, unless the statement
/// asks for another.
pub proof fn law_chosen_rows_were_found(
    access: WriteModel,
    found: Seq<EntryModel>,
    limit: Option<usize>,
    order_by_primary_key: bool,
)
    requires
        access is PointLookup ==> found.len() <= 1,
        strict_on(found.to_set(), order_of::<RowEntry>()),
    ensures
        ({
            let chosen = rows_chosen(access, found, limit, order_by_primary_key);
            &&& forall|i: int| 0 <= i < chosen.len() ==> found.contains(#[trigger] chosen[i])
            &&& limit is None ==> chosen.to_multiset() == found.to_multiset()
            &&& limit matches Some(n) ==> chosen.len() == if n < found.len() {
                n as nat
            } else {
                found.len()
            }
            &&& !order_by_primary_key || access is PointLookup ==> chosen == found.take(
                chosen.len() as int,
            )
        }),
{
    let chosen = rows_chosen(access, found, limit, order_by_primary_key);
    let before = order_of::<RowEntry>();
    let ordered = sorted(found, before);
    law_sorted(found, before);
    lemma_same_items(ordered, found);
    assert(found.take(found.len() as int) =~= found);
    assert(!order_by_primary_key || access is PointLookup ==> chosen =~= found.take(
        chosen.len() as int,
    ));
    assert forall|i: int| 0 <= i < chosen.len() implies found.contains(#[trigger] chosen[i]) by {
        if order_by_primary_key && !(access is PointLookup) {
            assert(chosen[i] == ordered[i]);
            assert(ordered.contains(ordered[i]));
            assert(found.contains(ordered[i]));
        } else {
            assert(chosen[i] == found[i]);
            assert(found.contains(found[i]));
        }
    }
}

proof fn lemma_same_items(a: Seq<EntryModel>, b: Seq<EntryModel>)
    requires
        a.to_multiset() == b.to_multiset(),
    ensures
        a.len() == b.len(),
        forall|x: EntryModel| a.contains(x) <==> b.contains(x),
{
    a.to_multiset_ensures();
    b.to_multiset_ensures();
    assert forall|x: EntryModel| a.contains(x) <==> b.contains(x) by {
        assert(a.contains(x) <==> a.to_multiset().count(x) > 0);
        assert(b.contains(x) <==> b.to_multiset().count(x) > 0);
    }
}

/// An update of one row by its key fails where the row is not there; every other update goes on
/// with the rows that a deletion would take.
pub proof fn law_updates_miss_only_single_rows(
    access: WriteModel,
    found: Seq<EntryModel>,
    limit: Option<usize>,
    order_by_primary_key: bool,
)
    ensures
        update_chosen(access, found, limit, order_by_primary_key) is Err <==> access is PointLookup
            && found.len() == 0 && limit != Some(0usize),
        update_chosen(access, found, limit, order_by_primary_key) matches Err(e) ==> e.code
            == "02000"@,
        update_chosen(access, found, limit, order_by_primary_key) matches Ok(rows) ==> rows
            == rows_chosen(access, found, limit, order_by_primary_key),
{
}

proof fn lemma_conflict_keeps(
    table: TableModel,
    row: RowModel,
    columns: Seq<Seq<char>>,
    values: Seq<Datum>,
    name: Seq<char>,
)
    requires
        conflict_assigned(table, row, columns, values) is Ok,
        forall|j: int| 0 <= j < columns.len() && j < values.len() ==> #[trigger] columns[j] != name,
    ensures
        conflict_assigned(table, row, columns, values)->Ok_0.dom().contains(name)
            == row.dom().contains(name),
        conflict_assigned(table, row, columns, values)->Ok_0[name] == row[name],
    decreases columns.len(),
{
    if columns.len() > 0 && values.len() > 0 {
        assert(columns[0] != name);
        assert forall|j: int|
            0 <= j < columns.skip(1).len() && j < values.skip(1).len() implies (
        #[trigger] columns.skip(1)[j]) != name by {
            assert(columns.skip(1)[j] == columns[j + 1]);
        }
        let next = row.insert(columns[0], values[0]);
        assert(next[name] == row[name]);
        lemma_conflict_keeps(table, next, columns.skip(1), values.skip(1), name);
    }
}

proof fn lemma_conflict_gives(
    table: TableModel,
    row: RowModel,
    columns: Seq<Seq<char>>,
    values: Seq<Datum>,
    i: int,
)
    requires
        conflict_assigned(table, row, columns, values) is Ok,
        0 <= i < columns.len(),
        i < values.len(),
        forall|j: int|
            i < j < columns.len() && j < values.len() ==> #[trigger] columns[j] != columns[i],
    ensures
        conflict_assigned(table, row, columns, values)->Ok_0.dom().contains(columns[i]),
        conflict_assigned(table, row, columns, values)->Ok_0[columns[i]] == values[i],
        has_column(table.columns, columns[i]),
    decreases columns.len(),
{
    let next = row.insert(columns[0], values[0]);
    let rest = columns.skip(1);
    if i == 0 {
        assert forall|j: int| 0 <= j < rest.len() && j < values.skip(1).len() implies (
        #[trigger] rest[j]) != columns[0] by {
            assert(rest[j] == columns[j + 1]);
        }
        lemma_conflict_keeps(table, next, rest, values.skip(1), columns[0]);
    } else {
        assert forall|j: int| i - 1 < j < rest.len() && j < values.skip(1).len() implies (
        #[trigger] rest[j]) != rest[i - 1] by {
            assert(rest[j] == columns[j + 1]);
        }
        lemma_conflict_gives(table, next, rest, values.skip(1), i - 1);
    }
}

/// A row that an insertion turns into another has the value of its own assignment in each
/// assigned column; where the condition of the statement does not hold, the row stays.
pub proof fn law_clashing_rows_get_their_values(
    table: TableModel,
    existing: RowModel,
    selected: bool,
    assignments: Seq<AssignmentModel>,
    values: Seq<Datum>,
    fresh: Seq<Datum>,
    i: int,
)
    requires
        conflict_updated(table, existing, selected, assignments, values, fresh) is Ok,
        0 <= i < assignments.len(),
        i < values.len(),
        is_last_of_its_column(assignments, values, i),
    ensures
        conflict_updated(table, existing, selected, assignments, values, fresh)->Ok_0 is Some
            <==> selected,
        conflict_updated(table, existing, selected, assignments, values, fresh)->Ok_0 matches Some(
            row,
        ) ==> field(row, assignments[i].column) == values[i] && has_column(
            table.columns,
            assignments[i].column,
        ),
{
    if selected {
        let columns = assigned_columns(assignments);
        assert forall|j: int| i < j < columns.len() && j < values.len() implies (
        #[trigger] columns[j]) != columns[i] by {
            assert(assignments[j].column != assignments[i].column);
        }
        lemma_conflict_gives(table, existing, columns, values, i);
        let next = conflict_assigned(table, existing, columns, values)->Ok_0;
        assert(columns.contains(columns[i]));
        lemma_refresh_keeps_assigned(table.columns, next, columns, fresh, columns[i]);
    }
}

/// A row that an insertion turns into another keeps the columns that are not assigned and do not
/// change by themselves.
pub proof fn law_clashing_rows_keep_other_columns(
    table: TableModel,
    existing: RowModel,
    assignments: Seq<AssignmentModel>,
    values: Seq<Datum>,
    fresh: Seq<Datum>,
    name: Seq<char>,
)
    requires
        forall|i: int| 0 <= i < assignments.len() ==> (#[trigger] assignments[i]).column != name,
        forall|k: int|
            0 <= k < table.columns.len() && (#[trigger] table.columns[k]).name == name
                ==> table.columns[k].on_update is None,
    ensures
        conflict_updated(table, existing, true, assignments, values, fresh) matches Ok(Some(row))
            ==> row.dom().contains(name) == existing.dom().contains(name) && field(row, name)
            == field(existing, name),
{
    let columns = assigned_columns(assignments);
    if let Ok(next) = conflict_assigned(table, existing, columns, values) {
        assert forall|j: int| 0 <= j < columns.len() && j < values.len() implies (
        #[trigger] columns[j]) != name by {
            assert(assignments[j].column != name);
        }
        lemma_conflict_keeps(table, existing, columns, values, name);
        lemma_refresh_passes_over(table.columns, next, columns, fresh, name);
    }
}

proof fn lemma_refresh_passes_over(
    columns: Seq<ColumnModel>,
    row: RowModel,
    assigned: Seq<Seq<char>>,
    fresh: Seq<Datum>,
    name: Seq<char>,
)
    requires
        forall|k: int|
            0 <= k < columns.len() && (#[trigger] columns[k]).name == name
                ==> columns[k].on_update is None,
    ensures
        refreshed(columns, row, assigned, fresh).dom().contains(name) == row.dom().contains(name),
        field(refreshed(columns, row, assigned, fresh), name) == field(row, name),
    decreases columns.len(),
{
    if columns.len() > 0 && fresh.len() > 0 {
        let next = if columns[0].on_update is Some && !named_among(assigned, columns[0].name) {
            row.insert(columns[0].name, fresh[0])
        } else {
            row
        };
        assert(field(next, name) == field(row, name));
        assert forall|k: int|
            0 <= k < columns.skip(1).len() && (#[trigger] columns.skip(1)[k]).name
                == name implies columns.skip(1)[k].on_update is None by {
            assert(columns.skip(1)[k] == columns[k + 1]);
        }
        lemma_refresh_passes_over(columns.skip(1), next, assigned, fresh.skip(1), name);
    }
}

/// An insertion never moves a row to another key: an assignment to the key may only repeat it.
pub proof fn law_clashing_rows_keep_their_key(
    table: TableModel,
    existing: RowModel,
    assignments: Seq<AssignmentModel>,
    values: Seq<Datum>,
    fresh: Seq<Datum>,
)
    requires
        existing.dom().contains(table.primary_key),
        assignments.len() > 0,
        values.len() > 0,
        assignments[0].column == table.primary_key,
        !datum_eq(existing[table.primary_key], values[0]),
    ensures
        conflict_updated(table, existing, true, assignments, values, fresh) is Err,
{
    assert(assigned_columns(assignments)[0] == assignments[0].column);
}

} // verus!
