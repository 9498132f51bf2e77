//! What insertions are for: where no row is in the way the new row is stored; where one is, the
//! statement says which of the two is there afterwards, and nothing else changes.
use vstd::prelude::*;

use crate::catalog::model::indexes_listed;
use crate::catalog::types::IndexModel;
use crate::error::Report;
use crate::lists::{kept_where, lemma_kept_where};
use crate::mem_store::Contents;
use crate::row::{field, rows_equal, RowModel};
use crate::schema::{has_column, TableModel, UniqueModel};
use crate::server::conflict::{
    clash_keys, conflict_assignments, conflict_resolved, target_columns_of, with_index_keys,
    with_key, with_unique_keys, AssignmentAsked, ConflictTargetModel, OnConflictModel,
    OnInsertModel,
};
use crate::server::exec_rows::{inserted_row, key_for_insert, InsertModel};
use crate::server::insert_run::{
    clash_in, first_clash, row_clash, row_decision, sets_to_search, ClashModel, SetFactsModel,
};
use crate::server::plan::{AssignmentModel, ConflictModel};
use crate::server::rows::{
    absent_column, conflict_candidates, conflict_updated, fields, matches_columns, matching,
    EntryModel,
};
use crate::server::update_laws::{is_last_of_its_column, law_clashing_rows_get_their_values};
use crate::types::{datum_eq, Datum, INTERNAL_ROWID_COLUMN};

verus! {

/// The rows of a table by their keys, once a step of an insertion is done.
pub open spec fn after_step(rows: Map<Datum, RowModel>, step: InsertModel) -> Map<Datum, RowModel> {
    match step {
        InsertModel::Skip => rows,
        InsertModel::Write { replaced, key, row, .. } => (match replaced {
            Some(old) => rows.remove(old),
            None => rows,
        }).insert(key, row),
    }
}

/// Whether two states of a table have the same rows but under some keys.
pub open spec fn same_but_at(
    before: Map<Datum, RowModel>,
    after: Map<Datum, RowModel>,
    a: Datum,
    b: Datum,
) -> bool {
    forall|key: Datum|
        key != a && key != b ==> {
            &&& #[trigger] after.dom().contains(key) == before.dom().contains(key)
            &&& after[key] == before[key]
        }
}

/// Where a REPLACE meets a row that it clashes with, that row goes and the new one is stored
/// under its own key; no other row is touched, and the two count.
pub proof fn law_replace_puts_the_new_row_in_place(
    rows: Map<Datum, RowModel>,
    table: TableModel,
    target_column_sets: Seq<Seq<Seq<char>>>,
    row: RowModel,
    row_id: Datum,
    existing: EntryModel,
    given: ClashModel,
    key_taken: bool,
)
    requires
        key_for_insert(table, row, row_id) != Datum::Null,
    ensures
        row_decision(
            table,
            Some(ConflictModel::ReplaceAnyUnique { target_column_sets }),
            row,
            row_id,
            Some(existing),
            given,
            key_taken,
        ) matches Ok(step) && {
            let key = key_for_insert(table, row, row_id);
            let after = after_step(rows, step);
            &&& after.dom().contains(key) && after[key] == row
            &&& existing.key != key ==> !after.dom().contains(existing.key)
            &&& same_but_at(rows, after, key, existing.key)
            &&& step matches InsertModel::Write { affected, .. } && affected == 2
        },
        inserted_row(
            table,
            Some(ConflictModel::ReplaceAnyUnique { target_column_sets }),
            key_for_insert(table, row, row_id),
            row,
            Some(existing),
            None,
            key_taken,
        ) == row_decision(
            table,
            Some(ConflictModel::ReplaceAnyUnique { target_column_sets }),
            row,
            row_id,
            Some(existing),
            given,
            key_taken,
        ),
{
}

/// Where an insertion that leaves rows that are there alone meets one that it clashes with,
/// nothing changes and nothing counts.
pub proof fn law_ignored_rows_change_nothing(
    rows: Map<Datum, RowModel>,
    table: TableModel,
    on_conflict: ConflictModel,
    row: RowModel,
    row_id: Datum,
    existing: EntryModel,
    given: ClashModel,
    key_taken: bool,
)
    requires
        key_for_insert(table, row, row_id) != Datum::Null,
        on_conflict is DoNothing || on_conflict is DoNothingAnyUnique,
    ensures
        row_decision(
            table,
            Some(on_conflict),
            row,
            row_id,
            Some(existing),
            given,
            key_taken,
        ) matches Ok(step) && after_step(rows, step) == rows && step is Skip,
{
}

/// Whether a statement changes rows that it clashes with; and by which assignments.
pub open spec fn is_upsert(on_conflict: ConflictModel, assignments: Seq<AssignmentModel>) -> bool {
    match on_conflict {
        ConflictModel::DoUpdate { assignments: asked, .. } => asked == assignments,
        ConflictModel::DoUpdateAnyUnique { assignments: asked, .. } => asked == assignments,
        _ => false,
    }
}

/// Whether the condition of a statement lets it change a row that it clashes with.
pub open spec fn is_let(on_conflict: ConflictModel, given: ClashModel) -> bool {
    on_conflict matches ConflictModel::DoUpdate { selection, .. } ==> selection is None
        || given.selected
}

/// Where an insertion that changes rows meets one that it clashes with, that row gets the values
/// of the assignments under the key that it has, the new row is not stored, and no other row is
/// touched; where the condition of the statement does not hold, nothing changes. A row that comes
/// out as it was does not count, another counts for two.
pub proof fn law_upserts_change_the_row_that_is_there(
    rows: Map<Datum, RowModel>,
    table: TableModel,
    on_conflict: ConflictModel,
    assignments: Seq<AssignmentModel>,
    row: RowModel,
    row_id: Datum,
    existing: EntryModel,
    given: ClashModel,
    key_taken: bool,
    i: int,
)
    requires
        key_for_insert(table, row, row_id) != Datum::Null,
        is_upsert(on_conflict, assignments),
        0 <= i < assignments.len(),
        i < given.values.len(),
        is_last_of_its_column(assignments, given.values, i),
    ensures
        row_decision(
            table,
            Some(on_conflict),
            row,
            row_id,
            Some(existing),
            given,
            key_taken,
        ) matches Ok(step) ==> {
            let after = after_step(rows, step);
            if is_let(on_conflict, given) {
                &&& after.dom().contains(existing.key)
                &&& field(after[existing.key], assignments[i].column) == given.values[i]
                &&& same_but_at(rows, after, existing.key, existing.key)
                &&& step matches InsertModel::Write { replaced, affected, .. } && replaced is None
                    && affected == if rows_equal(after[existing.key], existing.row) {
                    0usize
                } else {
                    2usize
                }
            } else {
                after == rows
            }
        },
        !is_let(on_conflict, given) ==> row_decision(
            table,
            Some(on_conflict),
            row,
            row_id,
            Some(existing),
            given,
            key_taken,
        ) is Ok,
{
    let selected = is_let(on_conflict, given);
    if conflict_updated(
        table,
        existing.row,
        selected,
        assignments,
        given.values,
        given.fresh,
    ) is Ok {
        law_clashing_rows_get_their_values(
            table,
            existing.row,
            selected,
            assignments,
            given.values,
            given.fresh,
            i,
        );
    }
}

/// Where no row is in the way, the new one is stored under its key and counts for one; no other
/// row is touched. A plain insertion is refused where the key that the table asks for is taken.
pub proof fn law_new_rows_are_stored(
    rows: Map<Datum, RowModel>,
    table: TableModel,
    on_conflict: Option<ConflictModel>,
    row: RowModel,
    row_id: Datum,
    given: ClashModel,
    key_taken: bool,
)
    requires
        key_for_insert(table, row, row_id) != Datum::Null,
    ensures
        ({
            let key = key_for_insert(table, row, row_id);
            let refused = on_conflict is None && key_taken && table.primary_key
                != INTERNAL_ROWID_COLUMN@;
            match row_decision(table, on_conflict, row, row_id, None, given, key_taken) {
                Err(e) => refused && e.code == "23505"@,
                Ok(step) => {
                    let after = after_step(rows, step);
                    &&& !refused
                    &&& after.dom().contains(key) && after[key] == row
                    &&& same_but_at(rows, after, key, key)
                    &&& step matches InsertModel::Write { affected, .. } && affected == 1
                },
            }
        }),
{
}

/// A row is stored under its value for the primary key of its table or, where the table has none
/// of its own, under the identifier that was taken for it; a row without a key is refused.
pub proof fn law_rows_are_stored_under_their_key(
    table: TableModel,
    on_conflict: Option<ConflictModel>,
    row: RowModel,
    row_id: Datum,
    existing: Option<EntryModel>,
    given: ClashModel,
    key_taken: bool,
    facts: Seq<SetFactsModel>,
)
    ensures
        table.primary_key == INTERNAL_ROWID_COLUMN@ ==> key_for_insert(table, row, row_id)
            == row_id,
        table.primary_key != INTERNAL_ROWID_COLUMN@ && row.dom().contains(table.primary_key)
            ==> key_for_insert(table, row, row_id) == row[table.primary_key],
        table.primary_key != INTERNAL_ROWID_COLUMN@ && !row.dom().contains(table.primary_key) ==> {
            &&& row_decision(
                table,
                on_conflict,
                row,
                row_id,
                existing,
                given,
                key_taken,
            ) matches Err(e) && e.code == "23502"@
            &&& row_clash(table, on_conflict, row, row_id, facts) matches Err(e) && e.code
                == "23502"@
        },
{
}

/// A row that a new one is said to clash with in some columns is one that is stored, and has the
/// same value in each of them.
pub proof fn law_clashing_rows_share_values(
    table: TableModel,
    columns: Seq<Seq<char>>,
    row: RowModel,
    facts: SetFactsModel,
)
    ensures
        clash_in(table, columns, row, facts) matches Ok(Some(entry)) ==> {
            if columns == seq![table.primary_key] {
                entry.key == field(row, table.primary_key) && facts.by_key == Some(entry.row)
            } else {
                &&& facts.index_rows.contains(entry) || facts.all_rows.contains(entry)
                &&& forall|i: int|
                    0 <= i < columns.len() ==> entry.row.dom().contains(#[trigger] columns[i])
                        && row.dom().contains(columns[i]) && row[columns[i]] != Datum::Null
                        && datum_eq(entry.row[columns[i]], row[columns[i]])
            }
        },
{
    lemma_absent(row, columns);
    let values = fields(row, columns);
    let keep = matching(columns, values);
    lemma_kept_where(facts.index_rows, keep);
    lemma_kept_where(facts.all_rows, keep);
    if columns.len() == 1 {
        assert(columns =~= seq![columns[0]]);
    }
    if let Ok(Some(entry)) = clash_in(table, columns, row, facts) {
        if columns != seq![table.primary_key] {
            assert(conflict_candidates(columns, values, facts.index_rows, facts.all_rows)[0]
                == entry);
            assert(keep(entry));
            assert(matches_columns(entry.row, columns, values));
            assert forall|i: int| 0 <= i < columns.len() implies entry.row.dom().contains(
                #[trigger] columns[i],
            ) && row.dom().contains(columns[i]) && row[columns[i]] != Datum::Null && datum_eq(
                entry.row[columns[i]],
                row[columns[i]],
            ) by {
                assert(values[i] == field(row, columns[i]));
                assert(values.contains(values[i]));
            }
        }
    }
}

proof fn lemma_absent(row: RowModel, columns: Seq<Seq<char>>)
    ensures
        absent_column(row, columns) is None <==> forall|i: int|
            0 <= i < columns.len() ==> row.dom().contains(#[trigger] columns[i]),
    decreases columns.len(),
{
    if columns.len() > 0 && row.dom().contains(columns[0]) {
        let rest = columns.skip(1);
        lemma_absent(row, rest);
        if absent_column(row, rest) is None {
            assert forall|i: int| 0 <= i < columns.len() implies row.dom().contains(
                #[trigger] columns[i],
            ) by {
                if i > 0 {
                    assert(rest[i - 1] == columns[i]);
                }
            }
        } else {
            let i = choose|i: int| 0 <= i < rest.len() && !row.dom().contains(#[trigger] rest[i]);
            assert(columns[i + 1] == rest[i]);
        }
    }
}

/// No row that shares the values of a new one is overlooked: where none is said to clash in some
/// columns, no stored row has those values there, or one of the values is null, which clashes
/// with nothing.
pub proof fn law_clashing_rows_are_not_overlooked(
    table: TableModel,
    columns: Seq<Seq<char>>,
    row: RowModel,
    facts: SetFactsModel,
    other: EntryModel,
)
    requires
        forall|i: int| 0 <= i < columns.len() ==> row.dom().contains(#[trigger] columns[i]),
        forall|i: int| 0 <= i < columns.len() ==> row[#[trigger] columns[i]] != Datum::Null,
        forall|i: int|
            0 <= i < columns.len() ==> other.row.dom().contains(#[trigger] columns[i]) && datum_eq(
                other.row[columns[i]],
                row[columns[i]],
            ),
        columns == seq![table.primary_key] ==> facts.by_key == Some(other.row),
        columns != seq![table.primary_key] ==> facts.all_rows.contains(other),
    ensures
        clash_in(table, columns, row, facts) != Ok::<Option<EntryModel>, Report>(None),
{
    lemma_absent(row, columns);
    let values = fields(row, columns);
    let keep = matching(columns, values);
    assert(!values.contains(Datum::Null)) by {
        if values.contains(Datum::Null) {
            let i = choose|i: int| 0 <= i < values.len() && values[i] == Datum::Null;
            assert(row[columns[i]] != Datum::Null);
        }
    }
    if columns.len() == 1 {
        assert(columns =~= seq![columns[0]]);
    }
    if columns != seq![table.primary_key] {
        lemma_kept_where(facts.all_rows, keep);
        lemma_kept_where(facts.index_rows, keep);
        let i = choose|i: int| 0 <= i < facts.all_rows.len() && facts.all_rows[i] == other;
        assert(matches_columns(other.row, columns, values)) by {
            assert forall|k: int| 0 <= k < columns.len() && k < values.len() implies
                other.row.dom().contains(#[trigger] columns[k]) && datum_eq(
                other.row[columns[k]],
                values[k],
            ) by {
                assert(values[k] == field(row, columns[k]));
            }
        }
        assert(keep(facts.all_rows[i]));
        assert(kept_where(facts.all_rows, keep).contains(other));
    }
}

/// A null never clashes.
pub proof fn law_nulls_do_not_clash(
    table: TableModel,
    columns: Seq<Seq<char>>,
    row: RowModel,
    facts: SetFactsModel,
    i: int,
)
    requires
        forall|k: int| 0 <= k < columns.len() ==> row.dom().contains(#[trigger] columns[k]),
        0 <= i < columns.len(),
        row[columns[i]] == Datum::Null,
    ensures
        clash_in(table, columns, row, facts) == Ok::<Option<EntryModel>, Report>(None),
{
    lemma_absent(row, columns);
    let values = fields(row, columns);
    assert(values[i] == Datum::Null);
    assert(values.contains(values[i]));
}

/// Every key is looked at in turn: a new row clashes with the first row that is in its way in
/// any of them, and with none only where none is.
pub proof fn law_every_key_is_looked_at(
    table: TableModel,
    sets: Seq<Seq<Seq<char>>>,
    row: RowModel,
    facts: Seq<SetFactsModel>,
)
    requires
        facts.len() == sets.len(),
    ensures
        first_clash(table, sets, row, facts) matches Ok(None) <==> forall|i: int|
            0 <= i < sets.len() ==> clash_in(table, #[trigger] sets[i], row, facts[i]) == Ok::<
                Option<EntryModel>,
                Report,
            >(None),
        first_clash(table, sets, row, facts) != Ok::<Option<EntryModel>, Report>(None) ==> exists|
            i: int,
        |
            0 <= i < sets.len() && first_clash(table, sets, row, facts) == clash_in(
                table,
                #[trigger] sets[i],
                row,
                facts[i],
            ),
    decreases sets.len(),
{
    if sets.len() > 0 {
        let rest = sets.skip(1);
        let said = facts.skip(1);
        law_every_key_is_looked_at(table, rest, row, said);
        if clash_in(table, sets[0], row, facts[0]) == Ok::<Option<EntryModel>, Report>(None) {
            if first_clash(table, rest, row, said) matches Ok(None) {
                assert forall|i: int| 0 <= i < sets.len() implies clash_in(
                    table,
                    #[trigger] sets[i],
                    row,
                    facts[i],
                ) == Ok::<Option<EntryModel>, Report>(None) by {
                    if i > 0 {
                        assert(rest[i - 1] == sets[i]);
                        assert(said[i - 1] == facts[i]);
                    }
                }
            } else {
                let i = choose|i: int|
                    0 <= i < rest.len() && first_clash(table, rest, row, said) == clash_in(
                        table,
                        #[trigger] rest[i],
                        row,
                        said[i],
                    );
                assert(rest[i] == sets[i + 1]);
                assert(said[i] == facts[i + 1]);
                assert(first_clash(table, sets, row, facts) == clash_in(
                    table,
                    sets[i + 1],
                    row,
                    facts[i + 1],
                ));
            }
        } else {
            assert(first_clash(table, sets, row, facts) == clash_in(table, sets[0], row, facts[0]));
        }
    }
}

/// A plain insertion looks for no clash; one that does nothing looks at the primary key; every
/// other looks at each of the keys that it was told of.
pub proof fn law_told_keys_are_looked_at(
    table: TableModel,
    on_conflict: ConflictModel,
    row: RowModel,
    row_id: Datum,
    facts: Seq<SetFactsModel>,
    columns: Seq<Seq<char>>,
)
    requires
        match on_conflict {
            ConflictModel::DoNothing => columns == seq![table.primary_key],
            ConflictModel::DoUpdate { target_columns, .. } => columns == target_columns,
            ConflictModel::DoNothingAnyUnique { target_column_sets } => target_column_sets.contains(
                columns,
            ),
            ConflictModel::ReplaceAnyUnique { target_column_sets } => target_column_sets.contains(
                columns,
            ),
            ConflictModel::DoUpdateAnyUnique {
                target_column_sets,
                ..
            } => target_column_sets.contains(columns),
        },
        facts.len() == sets_to_search(table, Some(on_conflict)).len(),
        row_clash(table, Some(on_conflict), row, row_id, facts) == Ok::<
            Option<EntryModel>,
            Report,
        >(None),
    ensures
        exists|i: int|
            0 <= i < facts.len() && clash_in(table, columns, row, #[trigger] facts[i]) == Ok::<
                Option<EntryModel>,
                Report,
            >(None),
{
    let sets = sets_to_search(table, Some(on_conflict));
    law_every_key_is_looked_at(table, sets, row, facts);
    assert(sets.contains(columns)) by {
        if on_conflict is DoNothing || on_conflict is DoUpdate {
            assert(sets[0] == columns);
        }
    }
    let i = choose|i: int| 0 <= i < sets.len() && sets[i] == columns;
    assert(clash_in(table, sets[i], row, facts[i]) == Ok::<Option<EntryModel>, Report>(None));
}

proof fn lemma_with_key(keys: Seq<Seq<Seq<char>>>, columns: Seq<Seq<char>>)
    ensures
        forall|key: Seq<Seq<char>>| #[trigger]
            with_key(keys, columns).contains(key) <==> keys.contains(key) || key == columns
                && columns.len() > 0,
{
    let next = with_key(keys, columns);
    assert forall|key: Seq<Seq<char>>| #[trigger]
        next.contains(key) <==> keys.contains(key) || key == columns && columns.len() > 0 by {
        if keys.contains(key) {
            let i = choose|i: int| 0 <= i < keys.len() && keys[i] == key;
            assert(next[i] == key);
        }
        if key == columns && columns.len() > 0 && !keys.contains(columns) {
            assert(next[keys.len() as int] == key);
        }
        if next.contains(key) && !keys.contains(key) {
            let i = choose|i: int| 0 <= i < next.len() && next[i] == key;
            if i < keys.len() {
                assert(keys[i] == key);
            }
        }
    }
}

proof fn lemma_unique_keys(keys: Seq<Seq<Seq<char>>>, uniques: Seq<UniqueModel>, key: Seq<Seq<char>>)
    ensures
        with_unique_keys(keys, uniques).contains(key) <==> keys.contains(key) || (key.len() > 0
            && exists|i: int| 0 <= i < uniques.len() && (#[trigger] uniques[i]).columns == key),
    decreases uniques.len(),
{
    if uniques.len() > 0 {
        let init = uniques.drop_last();
        lemma_unique_keys(keys, init, key);
        lemma_with_key(with_unique_keys(keys, init), uniques.last().columns);
        if exists|i: int| 0 <= i < init.len() && (#[trigger] init[i]).columns == key {
            let i = choose|i: int| 0 <= i < init.len() && (#[trigger] init[i]).columns == key;
            assert(uniques[i].columns == key);
        }
        if exists|i: int| 0 <= i < uniques.len() && (#[trigger] uniques[i]).columns == key {
            let i = choose|i: int| 0 <= i < uniques.len() && (#[trigger] uniques[i]).columns == key;
            if i < init.len() {
                assert(init[i].columns == key);
            }
        }
        if uniques.last().columns == key {
            assert(uniques[uniques.len() - 1].columns == key);
        }
    }
}

proof fn lemma_index_keys(keys: Seq<Seq<Seq<char>>>, indexes: Seq<IndexModel>, key: Seq<Seq<char>>)
    ensures
        with_index_keys(keys, indexes).contains(key) <==> keys.contains(key) || (key.len() > 0
            && exists|i: int|
            0 <= i < indexes.len() && (#[trigger] indexes[i]).unique && indexes[i].column_names
                == key),
    decreases indexes.len(),
{
    if indexes.len() > 0 {
        let init = indexes.drop_last();
        lemma_index_keys(keys, init, key);
        lemma_with_key(with_index_keys(keys, init), indexes.last().column_names);
        if exists|i: int|
            0 <= i < init.len() && (#[trigger] init[i]).unique && init[i].column_names == key {
            let i = choose|i: int|
                0 <= i < init.len() && (#[trigger] init[i]).unique && init[i].column_names == key;
            assert(indexes[i].unique);
        }
        if exists|i: int|
            0 <= i < indexes.len() && (#[trigger] indexes[i]).unique && indexes[i].column_names
                == key {
            let i = choose|i: int|
                0 <= i < indexes.len() && (#[trigger] indexes[i]).unique && indexes[i].column_names
                    == key;
            if i < init.len() {
                assert(init[i].unique);
            }
        }
        if indexes.last().unique && indexes.last().column_names == key {
            assert(indexes[indexes.len() - 1].unique);
        }
    }
}

/// The keys in which rows of a table clash are just its own primary key, its unique constraints
/// and its unique indexes.
pub proof fn law_rows_clash_in_every_unique_key(
    table: TableModel,
    indexes: Seq<IndexModel>,
    key: Seq<Seq<char>>,
)
    requires
        key.len() > 0,
    ensures
        clash_keys(table, indexes).contains(key) <==> {
            ||| key == seq![table.primary_key] && table.primary_key != INTERNAL_ROWID_COLUMN@
            ||| exists|i: int|
                0 <= i < table.unique_constraints.len() && (
                #[trigger] table.unique_constraints[i]).columns == key
            ||| exists|i: int|
                0 <= i < indexes.len() && (#[trigger] indexes[i]).unique && indexes[i].column_names
                    == key
        },
{
    let start = if table.primary_key != INTERNAL_ROWID_COLUMN@ {
        seq![seq![table.primary_key]]
    } else {
        seq![]
    };
    lemma_unique_keys(start, table.unique_constraints, key);
    lemma_index_keys(with_unique_keys(start, table.unique_constraints), indexes, key);
    if start.len() > 0 {
        assert(start[0] == seq![table.primary_key]);
        if key == seq![table.primary_key] {
            assert(start.contains(key));
        }
    }
    if start.contains(key) {
        let i = choose|i: int| 0 <= i < start.len() && start[i] == key;
        assert(start[i] == seq![table.primary_key]);
    }
}

/// A statement does what it says with rows that clash: REPLACE replaces, IGNORE leaves alone, ON
/// CONFLICT and ON DUPLICATE KEY do what they name, and a plain insertion nothing. The MySQL forms
/// go by every unique key of the table.
pub proof fn law_statements_say_what_becomes_of_clashes(
    contents: Contents,
    table: TableModel,
    indexes: Seq<IndexModel>,
    on: Option<OnInsertModel>,
)
    requires
        indexes_listed(contents, table.table_id) == Ok::<Seq<IndexModel>, Report>(indexes),
    ensures
        conflict_resolved(contents, table, None, false, false) == Ok::<
            Option<ConflictModel>,
            Report,
        >(None),
        conflict_resolved(contents, table, on, false, true) matches Ok(action) && match action {
            None => clash_keys(table, indexes).len() == 0,
            Some(action) => action matches ConflictModel::ReplaceAnyUnique { target_column_sets }
                && target_column_sets == clash_keys(table, indexes),
        },
        conflict_resolved(contents, table, on, true, false) matches Ok(action) && match action {
            None => clash_keys(table, indexes).len() == 0,
            Some(action) => action matches ConflictModel::DoNothingAnyUnique { target_column_sets }
                && target_column_sets == clash_keys(table, indexes),
        },
        conflict_resolved(contents, table, on, false, false) matches Ok(action) ==> match on {
            None => action is None,
            Some(OnInsertModel::Other) => false,
            Some(OnInsertModel::OnConflict { target, action: OnConflictModel::DoNothing }) => action
                == Some(ConflictModel::DoNothing),
            Some(OnInsertModel::OnConflict {
                target,
                action: OnConflictModel::DoUpdate { assignments, selection },
            }) => action matches Some(ConflictModel::DoUpdate {
                target_columns,
                assignments: found,
                selection: kept,
            }) && kept == selection && found.len() == assignments.len() && target_columns_of(
                table,
                target,
            ) == Ok::<Seq<Seq<char>>, Report>(target_columns),
            Some(OnInsertModel::DuplicateKeyUpdate { assignments }) => action matches Some(
                ConflictModel::DoUpdateAnyUnique { target_column_sets, assignments: found },
            ) && target_column_sets == clash_keys(table, indexes) && found.len()
                == assignments.len(),
        },
{
    match on {
        Some(OnInsertModel::OnConflict {
            target,
            action: OnConflictModel::DoUpdate { assignments, selection },
        }) => {
            if let Ok(columns) = target_columns_of(table, target) {
                law_conflict_assignments_keep_their_columns(table, assignments, columns);
            }
        },
        Some(OnInsertModel::DuplicateKeyUpdate { assignments }) => {
            law_conflict_assignments_keep_their_columns(table, assignments, seq![]);
        },
        _ => {},
    }
}

/// The assignments of a statement are kept in their order, each with its column, which the table
/// has and rows do not clash in, and its expression.
pub proof fn law_conflict_assignments_keep_their_columns(
    table: TableModel,
    asked: Seq<AssignmentAsked>,
    target: Seq<Seq<char>>,
)
    ensures
        conflict_assignments(table, asked, target) matches Ok(found) ==> found.len() == asked.len()
            && forall|i: int|
            0 <= i < asked.len() ==> asked[i].column == Ok::<Seq<char>, Report>(
                (#[trigger] found[i]).column,
            ) && found[i].expr == asked[i].expr && has_column(table.columns, found[i].column)
                && !target.contains(found[i].column),
    decreases asked.len(),
{
    if asked.len() > 0 {
        let init = asked.drop_last();
        law_conflict_assignments_keep_their_columns(table, init, target);
        if let Ok(found) = conflict_assignments(table, asked, target) {
            let before = conflict_assignments(table, init, target)->Ok_0;
            assert forall|i: int| 0 <= i < asked.len() implies asked[i].column == Ok::<
                Seq<char>,
                Report,
            >((#[trigger] found[i]).column) && found[i].expr == asked[i].expr && has_column(
                table.columns,
                found[i].column,
            ) && !target.contains(found[i].column) by {
                if i < init.len() {
                    assert(init[i] == asked[i]);
                    assert(found[i] == before[i]);
                }
            }
        }
    }
}

/// Rows clash in the columns that a statement names, in those of the constraint that it names, or
/// else in the primary key.
pub proof fn law_conflict_targets_are_as_named(table: TableModel, columns: Seq<Seq<char>>)
    requires
        columns.len() > 0,
        table.primary_key != INTERNAL_ROWID_COLUMN@,
    ensures
        target_columns_of(table, Some(ConflictTargetModel::Columns { columns })) == Ok::<
            Seq<Seq<char>>,
            Report,
        >(columns),
        target_columns_of(table, None) == Ok::<Seq<Seq<char>>, Report>(seq![table.primary_key]),
{
}

/// An insertion may name columns for its clashes only where they are a key: columns that are not
/// there, or that no key of the table is on, are refused.
pub proof fn law_conflict_targets_are_keys(
    contents: Contents,
    table: TableModel,
    target: Option<ConflictTargetModel>,
    action: OnConflictModel,
    columns: Seq<Seq<char>>,
)
    requires
        target_columns_of(table, target) == Ok::<Seq<Seq<char>>, Report>(columns),
        (exists|i: int| 0 <= i < columns.len() && !has_column(table.columns, #[trigger] columns[i]))
            || (columns != seq![table.primary_key] && forall|i: int|
            0 <= i < table.unique_constraints.len() ==> !(
            #[trigger] table.unique_constraints[i]).primary_key
                && table.unique_constraints[i].columns != columns),
    ensures
        conflict_resolved(
            contents,
            table,
            Some(OnInsertModel::OnConflict { target, action }),
            false,
            false,
        ) is Err,
{
}

} // verus!
