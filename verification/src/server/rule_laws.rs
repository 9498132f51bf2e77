//! What the rules of a table are for: a row that is written breaks none of them, a row that breaks
//! none is written, and no row goes that others refer to.
use vstd::prelude::*;

use crate::catalog::types::IndexModel;
use crate::error::Report;
use crate::row::{field, RowModel};
use crate::schema::{
    has_column, option_view, views, CheckModel, ColumnModel, ForeignKeyModel, TableModel,
    UniqueModel,
};
use crate::server::row_flow::{
    delete_error, entry_taken, foreign_key_error, foreign_keys_error, indexes_error,
    references_error, referring_error, stale_error, uniques_error, write_error, EntryFactsModel,
    ForeignFactsModel, ReferringModel, SightFacts, WriteFacts,
};
use crate::server::row_work::{
    cell_of, cells_removed, entries_put, entries_removed, entry_of, marker_of, row_deleted,
    row_written, PlaceModel, RowActionModel,
};
use crate::server::rows::{
    breaks_unique, check_error, clashes_with, constraint_error, counts, fields, foreign_reference,
    indexed, matches_columns, missing_value, EntryModel, VerdictModel,
};
use crate::types::{data_eq, datum_eq, Datum};

verus! {

/// Whether a row has a value in every column that may not be null.
pub open spec fn has_values(columns: Seq<ColumnModel>, row: RowModel) -> bool {
    forall|i: int|
        0 <= i < columns.len() && !(#[trigger] columns[i]).nullable ==> field(row, columns[i].name)
            != Datum::Null
}

/// Whether every check holds.
pub open spec fn all_hold(verdicts: Seq<VerdictModel>) -> bool {
    forall|i: int| 0 <= i < verdicts.len() ==> (#[trigger] verdicts[i]) is Holds
}

/// Whether what a foreign key asks of a row is met: one of its values is null, or a row of the
/// other table has them.
pub open spec fn is_referring(
    schema_name: Seq<char>,
    key: ForeignKeyModel,
    row: RowModel,
    facts: ForeignFactsModel,
) -> bool {
    &&& key.columns.len() == key.referred_columns.len() && key.columns.len() > 0
    &&& (exists|i: int|
        0 <= i < key.columns.len() && field(row, #[trigger] key.columns[i]) == Datum::Null) || {
        &&& foreign_reference(schema_name, key.foreign_table) is Ok
        &&& facts.table matches Some(other) && {
            &&& forall|i: int|
                0 <= i < key.referred_columns.len() ==> has_column(
                    other.columns,
                    #[trigger] key.referred_columns[i],
                )
            &&& if key.referred_columns == seq![other.primary_key] {
                facts.key_found
            } else {
                exists|r: int|
                    0 <= r < facts.rows.len() && refers_to(key, row, #[trigger] facts.rows[r])
            }
        }
    }
}

/// Whether a row has the values that another refers to.
pub open spec fn refers_to(key: ForeignKeyModel, row: RowModel, other: RowModel) -> bool {
    forall|i: int|
        0 <= i < key.referred_columns.len() ==> other.dom().contains(
            #[trigger] key.referred_columns[i],
        ) && datum_eq(other[key.referred_columns[i]], field(row, key.columns[i]))
}

/// Whether no other row has the place of a row in a unique index; a null has no place.
pub open spec fn has_the_place(
    place: PlaceModel,
    index: IndexModel,
    key: Datum,
    row: RowModel,
    facts: EntryFactsModel,
) -> bool {
    index.unique && indexed(row, index.column_names) != Datum::Null ==> {
        &&& forall|i: int|
            0 <= i < facts.existing.len() ==> #[trigger] facts.existing[i] == facts.own
        &&& forall|i: int|
            0 <= i < facts.first_form.len() ==> #[trigger] facts.first_form[i] == entry_of(
                place,
                index.index_name,
                indexed(row, index.column_names),
                key,
            )
    }
}

proof fn lemma_missing(columns: Seq<ColumnModel>, row: RowModel)
    ensures
        missing_value(columns, row) is None <==> has_values(columns, row),
    decreases columns.len(),
{
    if columns.len() > 0 {
        let rest = columns.skip(1);
        lemma_missing(rest, row);
        if !columns[0].nullable && field(row, columns[0].name) == Datum::Null {
            assert(!has_values(columns, row));
        } else if has_values(rest, row) {
            assert forall|i: int|
                0 <= i < columns.len() && !(#[trigger] columns[i]).nullable implies field(
                row,
                columns[i].name,
            ) != Datum::Null by {
                if i > 0 {
                    assert(rest[i - 1] == columns[i]);
                }
            }
        } else {
            let i = choose|i: int|
                0 <= i < rest.len() && !(#[trigger] rest[i]).nullable && field(row, rest[i].name)
                    == Datum::Null;
            assert(columns[i + 1] == rest[i]);
        }
    }
}

proof fn lemma_checks(checks: Seq<CheckModel>, verdicts: Seq<VerdictModel>)
    requires
        checks.len() == verdicts.len(),
    ensures
        check_error(checks, verdicts) is None <==> all_hold(verdicts),
    decreases checks.len(),
{
    if checks.len() > 0 {
        let rest = verdicts.skip(1);
        lemma_checks(checks.skip(1), rest);
        if verdicts[0] is Holds {
            if all_hold(rest) {
                assert forall|i: int| 0 <= i < verdicts.len() implies (
                #[trigger] verdicts[i]) is Holds by {
                    if i > 0 {
                        assert(rest[i - 1] == verdicts[i]);
                    }
                }
            } else {
                let i = choose|i: int| 0 <= i < rest.len() && !((#[trigger] rest[i]) is Holds);
                assert(verdicts[i + 1] == rest[i]);
            }
        } else {
            assert(!(verdicts[0] is Holds));
        }
    }
}

/// A row is accepted by the rules of its own table just where it has a value in every column that
/// may not be null and every check holds.
pub proof fn law_accepted_rows_are_complete(
    table: TableModel,
    row: RowModel,
    verdicts: Seq<VerdictModel>,
)
    requires
        verdicts.len() == table.check_constraints.len(),
    ensures
        constraint_error(table, row, verdicts) is None <==> has_values(table.columns, row)
            && all_hold(verdicts),
        !has_values(table.columns, row) ==> (constraint_error(table, row, verdicts) matches Some(e)
            && e.code == "23502"@),
{
    lemma_missing(table.columns, row);
    lemma_checks(table.check_constraints, verdicts);
}

proof fn lemma_foreign(
    schema_name: Seq<char>,
    table: TableModel,
    key: ForeignKeyModel,
    row: RowModel,
    facts: ForeignFactsModel,
)
    ensures
        foreign_key_error(schema_name, table, key, row, facts) is None <==> is_referring(
            schema_name,
            key,
            row,
            facts,
        ),
{
    let values = fields(row, key.columns);
    let some_null = exists|i: int|
        0 <= i < key.columns.len() && field(row, #[trigger] key.columns[i]) == Datum::Null;
    assert(values.contains(Datum::Null) <==> some_null) by {
        if values.contains(Datum::Null) {
            let i = choose|i: int| 0 <= i < values.len() && values[i] == Datum::Null;
            assert(field(row, key.columns[i]) == Datum::Null);
        }
        if some_null {
            let i = choose|i: int|
                0 <= i < key.columns.len() && field(row, #[trigger] key.columns[i]) == Datum::Null;
            assert(values[i] == Datum::Null);
        }
    }
    if key.referred_columns.len() == 1 {
        assert(key.referred_columns =~= seq![key.referred_columns[0]]);
    }
    if key.columns.len() == key.referred_columns.len() {
        assert forall|r: int| 0 <= r < facts.rows.len() implies matches_columns(
            #[trigger] facts.rows[r],
            key.referred_columns,
            values,
        ) == refers_to(key, row, facts.rows[r]) by {
            let other = facts.rows[r];
            assert forall|i: int| 0 <= i < key.columns.len() implies values[i] == field(
                row,
                #[trigger] key.columns[i],
            ) by {}
            if refers_to(key, row, other) {
                assert forall|i: int|
                    0 <= i < key.referred_columns.len() && i < values.len() implies
                    other.dom().contains(#[trigger] key.referred_columns[i]) && datum_eq(
                    other[key.referred_columns[i]],
                    values[i],
                ) by {
                    assert(values[i] == field(row, key.columns[i]));
                }
            }
            if matches_columns(other, key.referred_columns, values) {
                assert forall|i: int| 0 <= i < key.referred_columns.len() implies
                    other.dom().contains(#[trigger] key.referred_columns[i]) && datum_eq(
                    other[key.referred_columns[i]],
                    field(row, key.columns[i]),
                ) by {
                    assert(values[i] == field(row, key.columns[i]));
                }
            }
        }
    }
}

proof fn lemma_foreign_keys(
    schema_name: Seq<char>,
    table: TableModel,
    keys: Seq<ForeignKeyModel>,
    row: RowModel,
    facts: Seq<ForeignFactsModel>,
)
    requires
        keys.len() == facts.len(),
    ensures
        foreign_keys_error(schema_name, table, keys, row, facts) is None <==> forall|i: int|
            0 <= i < keys.len() ==> is_referring(schema_name, #[trigger] keys[i], row, facts[i]),
    decreases keys.len(),
{
    if keys.len() > 0 {
        let rest = keys.skip(1);
        let said = facts.skip(1);
        lemma_foreign(schema_name, table, keys[0], row, facts[0]);
        lemma_foreign_keys(schema_name, table, rest, row, said);
        if foreign_keys_error(schema_name, table, keys, row, facts) is None {
            assert forall|i: int| 0 <= i < keys.len() implies is_referring(
                schema_name,
                #[trigger] keys[i],
                row,
                facts[i],
            ) by {
                if i > 0 {
                    assert(rest[i - 1] == keys[i]);
                    assert(said[i - 1] == facts[i]);
                }
            }
        } else if foreign_key_error(schema_name, table, keys[0], row, facts[0]) is None {
            let i = choose|i: int|
                0 <= i < rest.len() && !is_referring(schema_name, #[trigger] rest[i], row, said[i]);
            assert(keys[i + 1] == rest[i]);
            assert(facts[i + 1] == said[i]);
            assert(!is_referring(schema_name, keys[i + 1], row, facts[i + 1]));
        } else {
            assert(!is_referring(schema_name, keys[0], row, facts[0]));
        }
    }
}

proof fn lemma_indexes(
    place: PlaceModel,
    indexes: Seq<IndexModel>,
    key: Datum,
    row: RowModel,
    facts: Seq<EntryFactsModel>,
)
    requires
        indexes.len() == facts.len(),
    ensures
        indexes_error(place, indexes, key, row, facts) is None <==> forall|i: int|
            0 <= i < indexes.len() ==> has_the_place(
                place,
                #[trigger] indexes[i],
                key,
                row,
                facts[i],
            ),
    decreases indexes.len(),
{
    if indexes.len() > 0 {
        let rest = indexes.skip(1);
        let said = facts.skip(1);
        assert(entry_taken(place, indexes[0], key, row, facts[0]) == !has_the_place(
            place,
            indexes[0],
            key,
            row,
            facts[0],
        ));
        lemma_indexes(place, rest, key, row, said);
        if indexes_error(place, indexes, key, row, facts) is None {
            assert forall|i: int| 0 <= i < indexes.len() implies has_the_place(
                place,
                #[trigger] indexes[i],
                key,
                row,
                facts[i],
            ) by {
                if i > 0 {
                    assert(rest[i - 1] == indexes[i]);
                    assert(said[i - 1] == facts[i]);
                }
            }
        } else if !entry_taken(place, indexes[0], key, row, facts[0]) {
            let i = choose|i: int|
                0 <= i < rest.len() && !has_the_place(place, #[trigger] rest[i], key, row, said[i]);
            assert(indexes[i + 1] == rest[i]);
            assert(facts[i + 1] == said[i]);
            assert(!has_the_place(place, indexes[i + 1], key, row, facts[i + 1]));
        } else {
            assert(!has_the_place(place, indexes[0], key, row, facts[0]));
        }
    }
}

proof fn lemma_uniques(
    constraints: Seq<UniqueModel>,
    rows: Seq<EntryModel>,
    key: Datum,
    row: RowModel,
)
    ensures
        uniques_error(constraints, rows, key, row) is None <==> forall|i: int|
            0 <= i < constraints.len() && !(#[trigger] constraints[i]).primary_key
                ==> !breaks_unique(constraints[i].columns, rows, Some(key), Some(row)),
    decreases constraints.len(),
{
    if constraints.len() > 0 {
        let rest = constraints.skip(1);
        lemma_uniques(rest, rows, key, row);
        let first = !constraints[0].primary_key && breaks_unique(
            constraints[0].columns,
            rows,
            Some(key),
            Some(row),
        );
        if first {
            assert(!constraints[0].primary_key);
        } else if uniques_error(rest, rows, key, row) is None {
            assert forall|i: int|
                0 <= i < constraints.len() && !(#[trigger] constraints[i]).primary_key implies
                !breaks_unique(constraints[i].columns, rows, Some(key), Some(row)) by {
                if i > 0 {
                    assert(rest[i - 1] == constraints[i]);
                }
            }
        } else {
            let i = choose|i: int|
                0 <= i < rest.len() && !(#[trigger] rest[i]).primary_key && breaks_unique(
                    rest[i].columns,
                    rows,
                    Some(key),
                    Some(row),
                );
            assert(constraints[i + 1] == rest[i]);
        }
    }
}

/// Whether a row that another session changed since the snapshot of a transaction is in the way.
pub open spec fn is_overtaken(sight: SightFacts) -> bool {
    sight.old_row is Some && sight.repeatable_read && !sight.written && option_view(sight.snapshot)
        != option_view(sight.latest)
}

/// A row is written just where it breaks no rule: no null where none may stand, every check
/// holds, nobody overtook the transaction, each foreign key finds its row, no other row has its
/// place in a unique index, and no unique constraint is broken.
pub proof fn law_written_rows_break_no_rule(
    place: PlaceModel,
    table: TableModel,
    indexes: Seq<IndexModel>,
    key: Datum,
    row: RowModel,
    verdicts: Seq<VerdictModel>,
    facts: WriteFacts,
)
    requires
        verdicts.len() == table.check_constraints.len(),
        facts.foreign@.len() == table.foreign_keys.len(),
        facts.entries@.len() == indexes.len(),
    ensures
        write_error(place, table, indexes, key, row, verdicts, facts) is None <==> {
            &&& has_values(table.columns, row)
            &&& all_hold(verdicts)
            &&& !is_overtaken(facts.sight)
            &&& forall|i: int|
                0 <= i < table.foreign_keys.len() ==> is_referring(
                    place.schema_name,
                    #[trigger] table.foreign_keys[i],
                    row,
                    views(facts.foreign@)[i],
                )
            &&& forall|i: int|
                0 <= i < indexes.len() ==> has_the_place(
                    place,
                    #[trigger] indexes[i],
                    key,
                    row,
                    views(facts.entries@)[i],
                )
            &&& forall|i: int|
                0 <= i < table.unique_constraints.len() && !(
                #[trigger] table.unique_constraints[i]).primary_key ==> !breaks_unique(
                    table.unique_constraints[i].columns,
                    views(facts.rows@),
                    Some(key),
                    Some(row),
                )
        },
{
    law_accepted_rows_are_complete(table, row, verdicts);
    lemma_foreign_keys(
        place.schema_name,
        table,
        table.foreign_keys,
        row,
        views(facts.foreign@),
    );
    lemma_indexes(place, indexes, key, row, views(facts.entries@));
    lemma_uniques(table.unique_constraints, views(facts.rows@), key, row);
}

/// A unique constraint keeps rows apart: where none is broken, no row under another key has the
/// values of a written one in all columns of the constraint, unless one of them is null.
pub proof fn law_unique_values_stand_once(
    columns: Seq<Seq<char>>,
    rows: Seq<EntryModel>,
    key: Datum,
    row: RowModel,
    i: int,
)
    requires
        0 <= i < rows.len(),
        !datum_eq(key, rows[i].key),
        forall|c: int|
            0 <= c < columns.len() ==> field(rows[i].row, #[trigger] columns[c]) != Datum::Null
                && datum_eq(field(row, columns[c]), field(rows[i].row, columns[c])),
    ensures
        breaks_unique(columns, rows, Some(key), Some(row)),
{
    let values = fields(rows[i].row, columns);
    let own = fields(row, columns);
    assert(!values.contains(Datum::Null)) by {
        if values.contains(Datum::Null) {
            let c = choose|c: int| 0 <= c < values.len() && values[c] == Datum::Null;
            assert(field(rows[i].row, columns[c]) != Datum::Null);
        }
    }
    assert forall|c: int| 0 <= c < own.len() implies datum_eq(#[trigger] own[c], values[c]) by {
        assert(field(rows[i].row, columns[c]) != Datum::Null);
    }
    assert(data_eq(own, values));
    assert(counts(rows[i], columns, Some(key)));
    assert(clashes_with(columns, rows[i], Some(row)));
}

/// A row does not stand in its own way, and a row with a null stands in nobody's: a constraint on
/// a table that has no other row is never broken.
pub proof fn law_a_row_is_not_in_its_own_way(
    columns: Seq<Seq<char>>,
    rows: Seq<EntryModel>,
    key: Datum,
    row: RowModel,
)
    requires
        forall|i: int|
            0 <= i < rows.len() ==> datum_eq(key, (#[trigger] rows[i]).key) || exists|c: int|
                0 <= c < columns.len() && field(rows[i].row, #[trigger] columns[c]) == Datum::Null,
    ensures
        !breaks_unique(columns, rows, Some(key), Some(row)),
{
    assert forall|i: int| 0 <= i < rows.len() implies !counts(
        #[trigger] rows[i],
        columns,
        Some(key),
    ) by {
        if !datum_eq(key, rows[i].key) {
            let c = choose|c: int|
                0 <= c < columns.len() && field(rows[i].row, #[trigger] columns[c]) == Datum::Null;
            assert(fields(rows[i].row, columns)[c] == Datum::Null);
        }
    }
}

/// Whether a row of another table refers to a row that is to go, by one of its foreign keys.
pub open spec fn is_referred_to(
    child: ReferringModel,
    key: ForeignKeyModel,
    schema_name: Seq<char>,
    table: TableModel,
    row: RowModel,
    r: int,
) -> bool {
    &&& key.columns.len() == key.referred_columns.len() && key.columns.len() > 0
    &&& foreign_reference(child.table.schema_name, key.foreign_table) == Ok::<
        (Seq<char>, Seq<char>),
        Report,
    >((schema_name, table.table_name))
    &&& 0 <= r < child.rows.len()
    &&& forall|i: int|
        0 <= i < key.referred_columns.len() ==> field(row, #[trigger] key.referred_columns[i])
            != Datum::Null && datum_eq(
            field(child.rows[r], key.columns[i]),
            field(row, key.referred_columns[i]),
        )
}

proof fn lemma_referring(
    child: ReferringModel,
    keys: Seq<ForeignKeyModel>,
    schema_name: Seq<char>,
    table: TableModel,
    row: RowModel,
    k: int,
    r: int,
)
    requires
        0 <= k < keys.len(),
        is_referred_to(child, keys[k], schema_name, table, row, r),
    ensures
        referring_error(child, keys, schema_name, table, row) is Some,
    decreases keys.len(),
{
    if k == 0 {
        let key = keys[0];
        let values = fields(row, key.referred_columns);
        assert(!values.contains(Datum::Null)) by {
            if values.contains(Datum::Null) {
                let i = choose|i: int| 0 <= i < values.len() && values[i] == Datum::Null;
                assert(field(row, key.referred_columns[i]) != Datum::Null);
            }
        }
        let own = fields(child.rows[r], key.columns);
        assert forall|i: int| 0 <= i < own.len() implies datum_eq(#[trigger] own[i], values[i]) by {
            assert(field(row, key.referred_columns[i]) != Datum::Null);
        }
        assert(data_eq(own, values));
    } else {
        assert(keys.skip(1)[k - 1] == keys[k]);
        lemma_referring(child, keys.skip(1), schema_name, table, row, k - 1, r);
    }
}

/// No row goes while a row of another table refers to it.
pub proof fn law_referred_rows_stay(
    schema_name: Seq<char>,
    table: TableModel,
    sight: SightFacts,
    row: RowModel,
    children: Seq<ReferringModel>,
    c: int,
    k: int,
    r: int,
)
    requires
        option_view(sight.old_row) == Some(row),
        0 <= c < children.len(),
        0 <= k < children[c].table.schema.foreign_keys.len(),
        is_referred_to(
            children[c],
            children[c].table.schema.foreign_keys[k],
            schema_name,
            table,
            row,
            r,
        ),
    ensures
        delete_error(schema_name, table, sight, children) is Some,
{
    lemma_references(schema_name, table, row, children, c, k, r);
}

proof fn lemma_references(
    schema_name: Seq<char>,
    table: TableModel,
    row: RowModel,
    children: Seq<ReferringModel>,
    c: int,
    k: int,
    r: int,
)
    requires
        0 <= c < children.len(),
        0 <= k < children[c].table.schema.foreign_keys.len(),
        is_referred_to(
            children[c],
            children[c].table.schema.foreign_keys[k],
            schema_name,
            table,
            row,
            r,
        ),
    ensures
        references_error(children, schema_name, table, row) is Some,
    decreases children.len(),
{
    if c == 0 {
        lemma_referring(
            children[0],
            children[0].table.schema.foreign_keys,
            schema_name,
            table,
            row,
            k,
            r,
        );
    } else {
        assert(children.skip(1)[c - 1] == children[c]);
        lemma_references(schema_name, table, row, children.skip(1), c - 1, k, r);
    }
}

/// A transaction that reads one state throughout does not write over what another session changed
/// since; one that reads the latest state, or has written the row itself, does.
pub proof fn law_overtaken_rows_stay(
    schema_name: Seq<char>,
    table: TableModel,
    sight: SightFacts,
)
    ensures
        stale_error(sight) is Some <==> is_overtaken(sight),
        stale_error(sight) matches Some(e) ==> e.code == "40001"@,
        is_overtaken(sight) ==> delete_error(schema_name, table, sight, seq![]) is Some,
        !is_overtaken(sight) ==> delete_error(schema_name, table, sight, seq![]) is None,
{
}

/// The rows of a table by their keys, once some work on them is done.
pub open spec fn rows_after(rows: Map<Datum, RowModel>, actions: Seq<RowActionModel>) -> Map<
    Datum,
    RowModel,
>
    decreases actions.len(),
{
    if actions.len() == 0 {
        rows
    } else {
        let before = rows_after(rows, actions.drop_last());
        match actions.last() {
            RowActionModel::PutRow { key, row } => before.insert(key, row),
            RowActionModel::DeleteRow { key } => before.remove(key),
            _ => before,
        }
    }
}

/// The entries of indexes, each with the index, the value and the key of the row, once some work
/// is done.
pub open spec fn entries_after(
    entries: Set<(u32, Datum, Datum)>,
    actions: Seq<RowActionModel>,
) -> Set<(u32, Datum, Datum)>
    decreases actions.len(),
{
    if actions.len() == 0 {
        entries
    } else {
        let before = entries_after(entries, actions.drop_last());
        match actions.last() {
            RowActionModel::PutIndexEntry { index_id, value, key } => before.insert(
                (index_id, value, key),
            ),
            RowActionModel::DeleteIndexEntry { index_id, value, key } => before.remove(
                (index_id, value, key),
            ),
            _ => before,
        }
    }
}

/// What stands under plain keys, once some work is done.
pub open spec fn keys_after(
    keys: Map<Seq<u8>, Seq<u8>>,
    actions: Seq<RowActionModel>,
) -> Map<Seq<u8>, Seq<u8>>
    decreases actions.len(),
{
    if actions.len() == 0 {
        keys
    } else {
        let before = keys_after(keys, actions.drop_last());
        match actions.last() {
            RowActionModel::PutKey { key, value } => before.insert(key, value),
            RowActionModel::DeleteKey { key, .. } => before.remove(key),
            _ => before,
        }
    }
}

pub(crate) proof fn lemma_rows_joined(rows: Map<Datum, RowModel>, a: Seq<RowActionModel>, b: Seq<RowActionModel>)
    ensures
        rows_after(rows, a + b) == rows_after(rows_after(rows, a), b),
    decreases b.len(),
{
    if b.len() == 0 {
        assert(a + b =~= a);
    } else {
        assert((a + b).drop_last() =~= a + b.drop_last());
        lemma_rows_joined(rows, a, b.drop_last());
    }
}

pub(crate) proof fn lemma_entries_joined(
    entries: Set<(u32, Datum, Datum)>,
    a: Seq<RowActionModel>,
    b: Seq<RowActionModel>,
)
    ensures
        entries_after(entries, a + b) == entries_after(entries_after(entries, a), b),
    decreases b.len(),
{
    if b.len() == 0 {
        assert(a + b =~= a);
    } else {
        assert((a + b).drop_last() =~= a + b.drop_last());
        lemma_entries_joined(entries, a, b.drop_last());
    }
}

proof fn lemma_keys_joined(
    keys: Map<Seq<u8>, Seq<u8>>,
    a: Seq<RowActionModel>,
    b: Seq<RowActionModel>,
)
    ensures
        keys_after(keys, a + b) == keys_after(keys_after(keys, a), b),
    decreases b.len(),
{
    if b.len() == 0 {
        assert(a + b =~= a);
    } else {
        assert((a + b).drop_last() =~= a + b.drop_last());
        lemma_keys_joined(keys, a, b.drop_last());
    }
}

/// Whether some work touches neither rows nor entries of indexes.
pub(crate) open spec fn is_plain(actions: Seq<RowActionModel>) -> bool {
    forall|i: int|
        0 <= i < actions.len() ==> match #[trigger] actions[i] {
            RowActionModel::PutKey { .. } => true,
            RowActionModel::DeleteKey { .. } => true,
            RowActionModel::RefreshStatistics => true,
            _ => false,
        }
}

pub(crate) proof fn lemma_plain(
    rows: Map<Datum, RowModel>,
    entries: Set<(u32, Datum, Datum)>,
    actions: Seq<RowActionModel>,
)
    requires
        is_plain(actions),
    ensures
        rows_after(rows, actions) == rows,
        entries_after(entries, actions) == entries,
    decreases actions.len(),
{
    if actions.len() > 0 {
        assert forall|i: int| 0 <= i < actions.drop_last().len() implies match (
        #[trigger] actions.drop_last()[i]) {
            RowActionModel::PutKey { .. } => true,
            RowActionModel::DeleteKey { .. } => true,
            RowActionModel::RefreshStatistics => true,
            _ => false,
        } by {
            assert(actions.drop_last()[i] == actions[i]);
        }
        lemma_plain(rows, entries, actions.drop_last());
        assert(actions[actions.len() - 1] == actions.last());
    }
}

/// Whether an entry is that of a row in one of some indexes.
pub open spec fn is_entry_of(
    indexes: Seq<IndexModel>,
    key: Datum,
    row: RowModel,
    entry: (u32, Datum, Datum),
) -> bool {
    exists|i: int|
        0 <= i < indexes.len() && entry == (
            (#[trigger] indexes[i]).index_id,
            indexed(row, indexes[i].column_names),
            key,
        )
}

proof fn lemma_entry_split(
    indexes: Seq<IndexModel>,
    key: Datum,
    row: RowModel,
    entry: (u32, Datum, Datum),
)
    requires
        indexes.len() > 0,
    ensures
        is_entry_of(indexes, key, row, entry) <==> is_entry_of(
            indexes.drop_last(),
            key,
            row,
            entry,
        ) || entry == (
            indexes.last().index_id,
            indexed(row, indexes.last().column_names),
            key,
        ),
{
    let init = indexes.drop_last();
    if is_entry_of(init, key, row, entry) {
        let i = choose|i: int|
            0 <= i < init.len() && entry == (
                (#[trigger] init[i]).index_id,
                indexed(row, init[i].column_names),
                key,
            );
        assert(indexes[i] == init[i]);
    }
    if is_entry_of(indexes, key, row, entry) {
        let i = choose|i: int|
            0 <= i < indexes.len() && entry == (
                (#[trigger] indexes[i]).index_id,
                indexed(row, indexes[i].column_names),
                key,
            );
        if i < init.len() {
            assert(init[i] == indexes[i]);
        }
    }
    if entry == (indexes.last().index_id, indexed(row, indexes.last().column_names), key) {
        assert(indexes[indexes.len() - 1] == indexes.last());
    }
}

proof fn lemma_removed(
    place: PlaceModel,
    rows: Map<Datum, RowModel>,
    entries: Set<(u32, Datum, Datum)>,
    indexes: Seq<IndexModel>,
    key: Datum,
    row: RowModel,
)
    ensures
        rows_after(rows, entries_removed(place, indexes, key, row)) == rows,
        forall|entry: (u32, Datum, Datum)| #[trigger]
            entries_after(entries, entries_removed(place, indexes, key, row)).contains(entry)
                <==> entries.contains(entry) && !is_entry_of(indexes, key, row, entry),
    decreases indexes.len(),
{
    if indexes.len() > 0 {
        let init = indexes.drop_last();
        let before = entries_removed(place, init, key, row);
        let index = indexes.last();
        let value = indexed(row, index.column_names);
        let last = seq![
            RowActionModel::DeleteIndexEntry { index_id: index.index_id, value, key },
            RowActionModel::DeleteKey {
                key: entry_of(place, index.index_name, value, key),
                required: true,
            },
        ];
        lemma_removed(place, rows, entries, init, key, row);
        lemma_rows_joined(rows, before, last);
        lemma_entries_joined(entries, before, last);
        assert(last.drop_last() =~= seq![last[0]]);
        assert(last.drop_last().drop_last() =~= seq![]);
        let start = entries_after(entries, before);
        assert(rows_after(rows, last) == rows) by {
            reveal_with_fuel(rows_after, 3);
        }
        assert(entries_after(start, last) == start.remove((index.index_id, value, key))) by {
            reveal_with_fuel(entries_after, 3);
        }
        assert forall|entry: (u32, Datum, Datum)| #[trigger]
            entries_after(entries, entries_removed(place, indexes, key, row)).contains(entry)
                <==> entries.contains(entry) && !is_entry_of(indexes, key, row, entry) by {
            lemma_entry_split(indexes, key, row, entry);
            assert(start.contains(entry) <==> entries.contains(entry) && !is_entry_of(
                init,
                key,
                row,
                entry,
            ));
        }
    }
}

pub(crate) proof fn lemma_put(
    place: PlaceModel,
    rows: Map<Datum, RowModel>,
    entries: Set<(u32, Datum, Datum)>,
    indexes: Seq<IndexModel>,
    key: Datum,
    row: RowModel,
)
    ensures
        rows_after(rows, entries_put(place, indexes, key, row)) == rows,
        forall|entry: (u32, Datum, Datum)| #[trigger]
            entries_after(entries, entries_put(place, indexes, key, row)).contains(entry)
                <==> entries.contains(entry) || is_entry_of(indexes, key, row, entry),
    decreases indexes.len(),
{
    if indexes.len() > 0 {
        let init = indexes.drop_last();
        let before = entries_put(place, init, key, row);
        let index = indexes.last();
        let value = indexed(row, index.column_names);
        let last = seq![
            RowActionModel::PutIndexEntry { index_id: index.index_id, value, key },
            RowActionModel::PutKey {
                key: entry_of(place, index.index_name, value, key),
                value: seq![1],
            },
        ];
        lemma_put(place, rows, entries, init, key, row);
        lemma_rows_joined(rows, before, last);
        lemma_entries_joined(entries, before, last);
        assert(last.drop_last() =~= seq![last[0]]);
        assert(last.drop_last().drop_last() =~= seq![]);
        let start = entries_after(entries, before);
        assert(rows_after(rows, last) == rows) by {
            reveal_with_fuel(rows_after, 3);
        }
        assert(entries_after(start, last) == start.insert((index.index_id, value, key))) by {
            reveal_with_fuel(entries_after, 3);
        }
        assert forall|entry: (u32, Datum, Datum)| #[trigger]
            entries_after(entries, entries_put(place, indexes, key, row)).contains(entry)
                <==> entries.contains(entry) || is_entry_of(indexes, key, row, entry) by {
            lemma_entry_split(indexes, key, row, entry);
            assert(start.contains(entry) <==> entries.contains(entry) || is_entry_of(
                init,
                key,
                row,
                entry,
            ));
        }
    }
}

/// Writing a row leaves it under its key and every other row as it was. The indexes then have the
/// entries of the new row, and no longer those of the row that was there, unless they are the
/// same; every other entry stays.
pub proof fn law_written_rows_are_stored_and_entered(
    place: PlaceModel,
    table: TableModel,
    indexes: Seq<IndexModel>,
    key: Datum,
    row: RowModel,
    old_row: Option<RowModel>,
    refresh: bool,
    rows: Map<Datum, RowModel>,
    entries: Set<(u32, Datum, Datum)>,
    entry: (u32, Datum, Datum),
)
    ensures
        rows_after(rows, row_written(place, table, indexes, key, row, old_row, refresh))
            == rows.insert(key, row),
        entries_after(
            entries,
            row_written(place, table, indexes, key, row, old_row, refresh),
        ).contains(entry) <==> is_entry_of(indexes, key, row, entry) || entries.contains(entry)
            && !(old_row matches Some(old) && is_entry_of(indexes, key, old, entry)),
{
    let first = match old_row {
        Some(before) => entries_removed(place, indexes, key, before),
        None => seq![],
    };
    let second = seq![RowActionModel::PutRow { key, row }];
    let third = cells_removed(place, table.columns, key, false);
    let fourth = entries_put(place, indexes, key, row);
    let fifth = if refresh {
        seq![RowActionModel::RefreshStatistics]
    } else {
        seq![]
    };
    if let Some(old) = old_row {
        lemma_removed(place, rows, entries, indexes, key, old);
    }
    let rows1 = rows_after(rows, first);
    let entries1 = entries_after(entries, first);
    lemma_rows_joined(rows, first, second);
    lemma_entries_joined(entries, first, second);
    assert(second.drop_last() =~= seq![]);
    let rows2 = rows_after(rows1, second);
    let entries2 = entries_after(entries1, second);
    assert(rows2 == rows1.insert(key, row)) by {
        reveal_with_fuel(rows_after, 2);
    }
    assert(entries2 == entries1) by {
        reveal_with_fuel(entries_after, 2);
    }
    lemma_rows_joined(rows, first + second, third);
    lemma_entries_joined(entries, first + second, third);
    assert(is_plain(third));
    lemma_plain(rows2, entries2, third);
    lemma_rows_joined(rows, first + second + third, fourth);
    lemma_entries_joined(entries, first + second + third, fourth);
    lemma_put(place, rows2, entries2, indexes, key, row);
    lemma_rows_joined(rows, first + second + third + fourth, fifth);
    lemma_entries_joined(entries, first + second + third + fourth, fifth);
    assert(is_plain(fifth));
    lemma_plain(rows2, entries_after(entries2, fourth), fifth);
}

/// Deleting a row leaves every other row as it was, and takes the entries of the row out of the
/// indexes, and no others.
pub proof fn law_deleted_rows_are_gone(
    place: PlaceModel,
    table: TableModel,
    indexes: Seq<IndexModel>,
    key: Datum,
    old_row: RowModel,
    rows: Map<Datum, RowModel>,
    entries: Set<(u32, Datum, Datum)>,
    entry: (u32, Datum, Datum),
)
    ensures
        rows_after(rows, row_deleted(place, table, indexes, key, Some(old_row))) == rows.remove(
            key,
        ),
        entries_after(
            entries,
            row_deleted(place, table, indexes, key, Some(old_row)),
        ).contains(entry) <==> entries.contains(entry) && !is_entry_of(
            indexes,
            key,
            old_row,
            entry,
        ),
{
    let first = entries_removed(place, indexes, key, old_row);
    let second = seq![RowActionModel::DeleteRow { key }];
    let third = cells_removed(place, table.columns, key, true);
    let fourth = seq![RowActionModel::RefreshStatistics];
    lemma_removed(place, rows, entries, indexes, key, old_row);
    let rows1 = rows_after(rows, first);
    let entries1 = entries_after(entries, first);
    lemma_rows_joined(rows, first, second);
    lemma_entries_joined(entries, first, second);
    assert(second.drop_last() =~= seq![]);
    let rows2 = rows_after(rows1, second);
    let entries2 = entries_after(entries1, second);
    assert(rows2 == rows1.remove(key)) by {
        reveal_with_fuel(rows_after, 2);
    }
    assert(entries2 == entries1) by {
        reveal_with_fuel(entries_after, 2);
    }
    lemma_rows_joined(rows, first + second, third);
    lemma_entries_joined(entries, first + second, third);
    assert(is_plain(third));
    lemma_plain(rows2, entries2, third);
    lemma_rows_joined(rows, first + second + third, fourth);
    lemma_entries_joined(entries, first + second + third, fourth);
    assert(is_plain(fourth));
    lemma_plain(rows2, entries2, fourth);
}

proof fn lemma_entry_key_put(
    place: PlaceModel,
    keys: Map<Seq<u8>, Seq<u8>>,
    indexes: Seq<IndexModel>,
    key: Datum,
    row: RowModel,
    i: int,
)
    requires
        0 <= i < indexes.len(),
    ensures
        keys_after(keys, entries_put(place, indexes, key, row)).dom().contains(
            entry_of(
                place,
                indexes[i].index_name,
                indexed(row, indexes[i].column_names),
                key,
            ),
        ),
    decreases indexes.len(),
{
    let init = indexes.drop_last();
    let before = entries_put(place, init, key, row);
    let index = indexes.last();
    let value = indexed(row, index.column_names);
    let last = seq![
        RowActionModel::PutIndexEntry { index_id: index.index_id, value, key },
        RowActionModel::PutKey {
            key: entry_of(place, index.index_name, value, key),
            value: seq![1],
        },
    ];
    lemma_keys_joined(keys, before, last);
    assert(last.drop_last() =~= seq![last[0]]);
    assert(last.drop_last().drop_last() =~= seq![]);
    let start = keys_after(keys, before);
    assert(keys_after(start, last) == start.insert(
        entry_of(place, index.index_name, value, key),
        seq![1],
    )) by {
        reveal_with_fuel(keys_after, 3);
    }
    if i < init.len() {
        lemma_entry_key_put(place, keys, init, key, row, i);
        assert(init[i] == indexes[i]);
    }
}

/// Writing a row leaves an entry of it in each index also under the plain key of the entry.
pub proof fn law_written_rows_have_plain_entries(
    place: PlaceModel,
    table: TableModel,
    indexes: Seq<IndexModel>,
    key: Datum,
    row: RowModel,
    old_row: Option<RowModel>,
    keys: Map<Seq<u8>, Seq<u8>>,
    i: int,
)
    requires
        0 <= i < indexes.len(),
    ensures
        keys_after(
            keys,
            row_written(place, table, indexes, key, row, old_row, false),
        ).dom().contains(
            entry_of(
                place,
                indexes[i].index_name,
                indexed(row, indexes[i].column_names),
                key,
            ),
        ),
{
    let first = match old_row {
        Some(before) => entries_removed(place, indexes, key, before),
        None => seq![],
    };
    let front = first + seq![RowActionModel::PutRow { key, row }] + cells_removed(
        place,
        table.columns,
        key,
        false,
    );
    let work = entries_put(place, indexes, key, row);
    lemma_keys_joined(keys, front, work);
    lemma_entry_key_put(place, keys_after(keys, front), indexes, key, row, i);
    assert(front + work + seq![] =~= front + work);
}

proof fn lemma_key_stays_away(
    keys: Map<Seq<u8>, Seq<u8>>,
    actions: Seq<RowActionModel>,
    at: int,
    key: Seq<u8>,
)
    requires
        0 <= at < actions.len(),
        actions[at] matches RowActionModel::DeleteKey { key: gone, .. } && gone == key,
        forall|i: int| at < i < actions.len() ==> !(#[trigger] actions[i] is PutKey),
    ensures
        !keys_after(keys, actions).dom().contains(key),
    decreases actions.len(),
{
    let before = actions.drop_last();
    if at < before.len() {
        assert(!(actions[actions.len() - 1] is PutKey));
        assert forall|i: int| at < i < before.len() implies !(#[trigger] before[i] is PutKey) by {
            assert(before[i] == actions[i]);
        }
        lemma_key_stays_away(keys, before, at, key);
    }
}

/// A deleted row leaves nothing behind under the keys of its older form: neither its marker nor a
/// cell of any of its columns.
pub proof fn law_deleted_rows_leave_no_cells(
    place: PlaceModel,
    table: TableModel,
    indexes: Seq<IndexModel>,
    key: Datum,
    old_row: Option<RowModel>,
    keys: Map<Seq<u8>, Seq<u8>>,
    i: int,
)
    requires
        0 <= i < table.columns.len(),
    ensures
        !keys_after(keys, row_deleted(place, table, indexes, key, old_row)).dom().contains(
            marker_of(place, key),
        ),
        !keys_after(keys, row_deleted(place, table, indexes, key, old_row)).dom().contains(
            cell_of(place, table.columns[i].name, key),
        ),
{
    let actions = row_deleted(place, table, indexes, key, old_row);
    let first = (match old_row {
        Some(before) => entries_removed(place, indexes, key, before),
        None => seq![],
    }) + seq![RowActionModel::DeleteRow { key }];
    let cells = cells_removed(place, table.columns, key, true);
    let at = first.len() as int;
    assert(actions[at] == cells[0]);
    assert(actions[at + 1 + i] == cells[1 + i]);
    assert forall|k: int| at < k < actions.len() implies !(#[trigger] actions[k] is PutKey) by {
        if k < at + cells.len() {
            assert(actions[k] == cells[k - at]);
        }
    }
    lemma_key_stays_away(keys, actions, at, marker_of(place, key));
    lemma_key_stays_away(keys, actions, at + 1 + i, cell_of(place, table.columns[i].name, key));
}

} // verus!
