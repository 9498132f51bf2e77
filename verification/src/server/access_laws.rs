//! What the plans of queries, updates and deletions are for: they come to just the rows that the
//! condition of the statement asks for, by a shorter way where there is one, and keep what else
//! the statement asks for.
use vstd::prelude::*;

use crate::catalog::model::indexes_listed;
use crate::catalog::types::IndexModel;
use crate::error::Report;
use crate::lists::{kept_where, lemma_kept_where};
use crate::mem_store::Contents;
use crate::row::field;
use crate::schema::{has_column, TableModel};
use crate::server::conflict::{update_assignment, AssignmentAsked};
use crate::server::ddl_plan::each_resolved;
use crate::server::dml_select::{
    delete_planned, first_range, index_on, is_range_index, order_verdict, range_indexes, read_way,
    select_begun, select_planned, update_assignments, update_planned, window_of, write_begun,
    write_order, write_way, FactsModel, LimitModel, OrderByModel, OrderExprModel, RangeModel,
    SelectAsked, SelectTargetModel, WriteAsked, WriteTargetModel,
};
use crate::server::gateway::{table_required, table_resolved};
use crate::server::plan::{AssignmentModel, ReadModel, ReturningModel, WriteModel};
use crate::server::rows::EntryModel;
use crate::server::scans::in_bounds;
use crate::types::Datum;

verus! {

/// Whether a row meets a condition, where there is one; `holds` says what conditions are true of
/// which rows.
pub open spec fn meets(
    selection: Option<Seq<char>>,
    holds: spec_fn(Seq<char>, EntryModel) -> bool,
    entry: EntryModel,
) -> bool {
    selection matches Some(condition) ==> holds(condition, entry)
}

/// Whether what was read off a condition is true of a row: where it names the key, the keys or
/// the bounds of the key, just the rows with these meet it; where it compares or bounds another
/// column, a row that meets it has such a value there.
pub open spec fn is_truthful(
    facts: FactsModel,
    table: TableModel,
    indexes: Seq<IndexModel>,
    meets: bool,
    entry: EntryModel,
) -> bool {
    &&& facts.primary_key matches Ok(Some(key)) ==> (meets <==> entry.key == key)
    &&& facts.key_list matches Ok(Some(keys)) ==> (meets <==> keys.contains(entry.key))
    &&& facts.key_range matches Ok(Some(bounds)) ==> (meets <==> in_bounds(
        entry.key,
        bounds.lower,
        bounds.upper,
    ))
    &&& facts.equality matches Ok(Some(one)) ==> meets ==> field(entry.row, one.column_name)
        == one.key
    &&& forall|i: int|
        0 <= i < facts.ranges.len() && i < range_indexes(table, indexes).len()
            ==> ((#[trigger] facts.ranges[i]) matches Ok(Some(bounds)) ==> meets ==> in_bounds(
            field(entry.row, range_indexes(table, indexes)[i].column_names[0]),
            bounds.lower,
            bounds.upper,
        ))
}

/// Whether there is an index of a name on just one column.
pub open spec fn has_index(
    indexes: Seq<IndexModel>,
    index_name: Seq<char>,
    column_name: Seq<char>,
) -> bool {
    exists|i: int|
        0 <= i < indexes.len() && (#[trigger] indexes[i]).index_name == index_name
            && indexes[i].column_names == seq![column_name]
}

/// Whether a read gives a row.
pub open spec fn gives(
    access: ReadModel,
    indexes: Seq<IndexModel>,
    holds: spec_fn(Seq<char>, EntryModel) -> bool,
    entry: EntryModel,
) -> bool {
    match access {
        ReadModel::PointLookup { key } => entry.key == key,
        ReadModel::PrimaryKeyInLookup { keys } => keys.contains(entry.key),
        ReadModel::PrimaryKeyRangeScan { lower, upper, filter } => in_bounds(
            entry.key,
            lower,
            upper,
        ) && meets(filter, holds, entry),
        ReadModel::SecondaryIndexLookup { index_name, column_name, key, filter } => has_index(
            indexes,
            index_name,
            column_name,
        ) && field(entry.row, column_name) == key && meets(filter, holds, entry),
        ReadModel::SecondaryIndexRangeScan { index_name, column_name, lower, upper, filter } => {
            has_index(indexes, index_name, column_name) && in_bounds(
                field(entry.row, column_name),
                lower,
                upper,
            ) && meets(filter, holds, entry)
        },
        ReadModel::PrefixScan { filter } => meets(filter, holds, entry),
    }
}

/// Whether an update or a deletion comes to a row.
pub open spec fn changes(
    access: WriteModel,
    indexes: Seq<IndexModel>,
    holds: spec_fn(Seq<char>, EntryModel) -> bool,
    entry: EntryModel,
) -> bool {
    match access {
        WriteModel::PointLookup { key } => entry.key == key,
        WriteModel::PrimaryKeyRangeScan { lower, upper, filter } => in_bounds(
            entry.key,
            lower,
            upper,
        ) && meets(filter, holds, entry),
        WriteModel::SecondaryIndexLookup { index_name, key, filter } => meets(filter, holds, entry)
            && exists|column_name: Seq<char>| #[trigger]
            has_index(indexes, index_name, column_name) && field(entry.row, column_name) == key,
        WriteModel::SecondaryIndexRangeScan { index_name, lower, upper, filter } => meets(
            filter,
            holds,
            entry,
        ) && exists|column_name: Seq<char>| #[trigger]
            has_index(indexes, index_name, column_name) && in_bounds(
                field(entry.row, column_name),
                lower,
                upper,
            ),
        WriteModel::PrefixScan { filter } => meets(filter, holds, entry),
    }
}

/// An index that is found on a column is one of those that there are.
proof fn lemma_index_on(indexes: Seq<IndexModel>, column_name: Seq<char>)
    ensures
        match index_on(indexes, column_name) {
            Some(index) => has_index(indexes, index.index_name, column_name),
            None => forall|name: Seq<char>| !#[trigger] has_index(indexes, name, column_name),
        },
    decreases indexes.len(),
{
    if indexes.len() > 0 {
        let rest = indexes.skip(1);
        if indexes[0].column_names != seq![column_name] {
            lemma_index_on(rest, column_name);
            match index_on(rest, column_name) {
                Some(index) => {
                    let i = choose|i: int|
                        0 <= i < rest.len() && (#[trigger] rest[i]).index_name == index.index_name
                            && rest[i].column_names == seq![column_name];
                    assert(indexes[i + 1] == rest[i]);
                },
                None => {
                    assert forall|name: Seq<char>| !#[trigger] has_index(
                        indexes,
                        name,
                        column_name,
                    ) by {
                        if has_index(indexes, name, column_name) {
                            let i = choose|i: int|
                                0 <= i < indexes.len() && (#[trigger] indexes[i]).index_name == name
                                    && indexes[i].column_names == seq![column_name];
                            assert(rest[i - 1] == indexes[i]);
                            assert(has_index(rest, name, column_name));
                        }
                    }
                },
            }
        }
    }
}

/// A range that is found is that of an index at its place.
proof fn lemma_first_range(
    indexes: Seq<IndexModel>,
    ranges: Seq<Result<Option<RangeModel>, Report>>,
) -> (at: int)
    ensures
        first_range(indexes, ranges) matches Ok(Some(found)) ==> 0 <= at < indexes.len() && at
            < ranges.len() && found.0 == indexes[at] && ranges[at] == Ok::<
            Option<RangeModel>,
            Report,
        >(Some(found.1)),
        (forall|i: int| 0 <= i < ranges.len() ==> (#[trigger] ranges[i]) is Ok) ==> first_range(
            indexes,
            ranges,
        ) is Ok,
    decreases indexes.len(),
{
    if indexes.len() == 0 || ranges.len() == 0 {
        0
    } else {
        if let Ok(None) = ranges[0] {
            let at = lemma_first_range(indexes.skip(1), ranges.skip(1));
            if first_range(indexes, ranges) matches Ok(Some(_)) {
                at + 1
            } else {
                0
            }
        } else {
            0
        }
    }
}

/// A candidate for a range is one of the indexes, on just one column.
proof fn lemma_candidate(table: TableModel, indexes: Seq<IndexModel>, at: int)
    requires
        0 <= at < range_indexes(table, indexes).len(),
    ensures
        has_index(
            indexes,
            range_indexes(table, indexes)[at].index_name,
            range_indexes(table, indexes)[at].column_names[0],
        ),
{
    let keep = |index: IndexModel| is_range_index(table, index);
    lemma_kept_where(indexes, keep);
    let index = range_indexes(table, indexes)[at];
    assert(kept_where(indexes, keep)[at] == index);
    assert(indexes.contains(index));
    let i = choose|i: int| 0 <= i < indexes.len() && indexes[i] == index;
    assert(index.column_names =~= seq![index.column_names[0]]);
}

/// A query gives just the rows that meet its condition, by whatever way it comes to them.
pub proof fn law_reads_give_what_is_asked_for(
    contents: Contents,
    table: TableModel,
    indexes: Seq<IndexModel>,
    selection: Option<Seq<char>>,
    facts: FactsModel,
    holds: spec_fn(Seq<char>, EntryModel) -> bool,
    entry: EntryModel,
)
    requires
        indexes_listed(contents, table.table_id) == Ok::<Seq<IndexModel>, Report>(indexes),
        is_truthful(facts, table, indexes, meets(selection, holds, entry), entry),
    ensures
        read_way(contents, table, selection, facts) matches Ok(access) ==> (gives(
            access,
            indexes,
            holds,
            entry,
        ) <==> meets(selection, holds, entry)),
{
    let at = lemma_first_range(range_indexes(table, indexes), facts.ranges);
    if first_range(range_indexes(table, indexes), facts.ranges) matches Ok(Some(_)) {
        lemma_candidate(table, indexes, at);
        assert(facts.ranges[at] is Ok);
    }
    if let Ok(Some(one)) = facts.equality {
        lemma_index_on(indexes, one.column_name);
    }
}

/// An update or a deletion comes to just the rows that meet its condition, by whatever way.
pub proof fn law_writes_come_to_what_is_asked_for(
    contents: Contents,
    table: TableModel,
    indexes: Seq<IndexModel>,
    selection: Option<Seq<char>>,
    facts: FactsModel,
    holds: spec_fn(Seq<char>, EntryModel) -> bool,
    entry: EntryModel,
)
    requires
        indexes_listed(contents, table.table_id) == Ok::<Seq<IndexModel>, Report>(indexes),
        is_truthful(facts, table, indexes, meets(selection, holds, entry), entry),
    ensures
        write_way(contents, table, selection, facts) matches Ok(access) ==> (changes(
            access,
            indexes,
            holds,
            entry,
        ) <==> meets(selection, holds, entry)),
{
    let at = lemma_first_range(range_indexes(table, indexes), facts.ranges);
    if let Ok(Some((index, bounds))) = first_range(range_indexes(table, indexes), facts.ranges) {
        lemma_candidate(table, indexes, at);
        assert(facts.ranges[at] is Ok);
        assert(has_index(indexes, index.index_name, index.column_names[0]));
    }
    if let Ok(Some(one)) = facts.equality {
        lemma_index_on(indexes, one.column_name);
        if let Some(index) = index_on(indexes, one.column_name) {
            assert(has_index(indexes, index.index_name, one.column_name));
        }
    }
    let asked = meets(selection, holds, entry);
    if let Ok(access) = write_way(contents, table, selection, facts) {
        match access {
            WriteModel::SecondaryIndexRangeScan { index_name, lower, upper, filter } => {
                let found = first_range(range_indexes(table, indexes), facts.ranges)->Ok_0->0;
                assert(has_index(indexes, index_name, found.0.column_names[0]));
                if asked {
                    assert(in_bounds(field(entry.row, found.0.column_names[0]), lower, upper));
                }
            },
            WriteModel::SecondaryIndexLookup { index_name, key, filter } => {
                let one = facts.equality->Ok_0->0;
                assert(has_index(indexes, index_name, one.column_name));
                if asked {
                    assert(field(entry.row, one.column_name) == key);
                }
            },
            _ => {},
        }
    }
}

/// The conditions of statements are kept wherever the way to the rows does not stand for them: a
/// way over all rows or over an index checks each row.
pub proof fn law_conditions_are_checked(
    contents: Contents,
    table: TableModel,
    selection: Option<Seq<char>>,
    facts: FactsModel,
)
    ensures
        read_way(contents, table, selection, facts) matches Ok(access) ==> match access {
            ReadModel::PrefixScan { filter } => filter == selection,
            ReadModel::SecondaryIndexLookup { filter, .. } => filter == selection,
            ReadModel::SecondaryIndexRangeScan { filter, .. } => filter == selection,
            _ => true,
        },
        write_way(contents, table, selection, facts) matches Ok(access) ==> match access {
            WriteModel::PrefixScan { filter } => filter == selection,
            WriteModel::PrimaryKeyRangeScan { filter, .. } => filter == selection,
            WriteModel::SecondaryIndexLookup { filter, .. } => filter == selection,
            WriteModel::SecondaryIndexRangeScan { filter, .. } => filter == selection,
            WriteModel::PointLookup { .. } => true,
        },
{
}

/// Whether nothing failed in reading a condition.
pub open spec fn all_read(facts: FactsModel) -> bool {
    &&& facts.primary_key is Ok
    &&& facts.key_list is Ok
    &&& facts.key_range is Ok
    &&& facts.equality is Ok
    &&& forall|i: int| 0 <= i < facts.ranges.len() ==> (#[trigger] facts.ranges[i]) is Ok
}

/// Rows are looked for by the shortest way that the condition allows: by the key, by a list of
/// keys, by a range of keys, by the value of a column that has an index; all rows are gone over
/// only where none of these is at hand. There is always a way where the condition could be read.
pub proof fn law_the_shortest_way_is_taken(
    contents: Contents,
    table: TableModel,
    indexes: Seq<IndexModel>,
    selection: Option<Seq<char>>,
    facts: FactsModel,
)
    requires
        indexes_listed(contents, table.table_id) == Ok::<Seq<IndexModel>, Report>(indexes),
        all_read(facts),
    ensures
        read_way(contents, table, selection, facts) matches Ok(access) && {
            &&& access is PointLookup <==> facts.primary_key->Ok_0 is Some
            &&& access is PrimaryKeyInLookup <==> facts.primary_key->Ok_0 is None
                && facts.key_list->Ok_0 is Some
            &&& access is PrimaryKeyRangeScan <==> facts.primary_key->Ok_0 is None
                && facts.key_list->Ok_0 is None && facts.key_range->Ok_0 is Some
            &&& access is SecondaryIndexLookup <==> facts.primary_key->Ok_0 is None
                && facts.key_list->Ok_0 is None && facts.key_range->Ok_0 is None && (
            facts.equality->Ok_0 matches Some(one) && exists|name: Seq<char>| #[trigger]
                has_index(indexes, name, one.column_name))
            &&& access is PrefixScan ==> forall|i: int|
                0 <= i < facts.ranges.len() && i < range_indexes(table, indexes).len()
                    ==> #[trigger] facts.ranges[i]->Ok_0 is None
        },
        write_way(contents, table, selection, facts) matches Ok(access) && {
            &&& access is PointLookup <==> facts.primary_key->Ok_0 is Some
            &&& access is PrimaryKeyRangeScan <==> facts.primary_key->Ok_0 is None
                && facts.key_range->Ok_0 is Some
            &&& access is SecondaryIndexLookup <==> facts.primary_key->Ok_0 is None
                && facts.key_range->Ok_0 is None && (facts.equality->Ok_0 matches Some(one)
                && exists|name: Seq<char>| #[trigger]
                has_index(indexes, name, one.column_name))
            &&& access is PrefixScan ==> forall|i: int|
                0 <= i < facts.ranges.len() && i < range_indexes(table, indexes).len()
                    ==> #[trigger] facts.ranges[i]->Ok_0 is None
        },
{
    let at = lemma_first_range(range_indexes(table, indexes), facts.ranges);
    lemma_no_range(range_indexes(table, indexes), facts.ranges);
    if let Ok(Some(one)) = facts.equality {
        lemma_index_on(indexes, one.column_name);
        if let Some(index) = index_on(indexes, one.column_name) {
            assert(has_index(indexes, index.index_name, one.column_name));
        }
    }
}

proof fn lemma_no_range(
    indexes: Seq<IndexModel>,
    ranges: Seq<Result<Option<RangeModel>, Report>>,
)
    ensures
        first_range(indexes, ranges) matches Ok(None) ==> forall|i: int|
            0 <= i < ranges.len() && i < indexes.len() ==> #[trigger] ranges[i] matches Ok(None),
    decreases indexes.len(),
{
    if indexes.len() > 0 && ranges.len() > 0 && ranges[0] matches Ok(None) {
        lemma_no_range(indexes.skip(1), ranges.skip(1));
        if first_range(indexes, ranges) matches Ok(None) {
            assert forall|i: int| 0 <= i < ranges.len() && i < indexes.len() implies (
            #[trigger] ranges[i] matches Ok(None)) by {
                if i > 0 {
                    assert(ranges.skip(1)[i - 1] == ranges[i]);
                }
            }
        }
    }
}

/// The plan of a query is for its table and gives the columns and the window that it asks for, of
/// just the rows that meet its condition.
pub proof fn law_select_plans_keep_the_request(
    contents: Contents,
    database_name: Seq<char>,
    target: SelectTargetModel,
    indexes: Seq<IndexModel>,
    selection: Option<Seq<char>>,
    columns: Seq<Seq<char>>,
    facts: FactsModel,
    holds: spec_fn(Seq<char>, EntryModel) -> bool,
    entry: EntryModel,
)
    requires
        indexes_listed(contents, target.schema.table_id) == Ok::<Seq<IndexModel>, Report>(indexes),
        is_truthful(facts, target.schema, indexes, meets(selection, holds, entry), entry),
        all_read(facts),
    ensures
        select_planned(
            contents,
            database_name,
            target,
            selection,
            Ok(columns),
            facts,
        ) matches Ok(plan) && plan is SelectRows && {
            &&& plan->SelectRows_database_name == database_name
            &&& plan->SelectRows_schema_name == target.schema_name
            &&& plan->SelectRows_schema == target.schema
            &&& plan->SelectRows_projection == columns
            &&& plan->SelectRows_limit == target.limit
            &&& plan->SelectRows_offset == target.offset
            &&& gives(plan->SelectRows_access, indexes, holds, entry) <==> meets(
                selection,
                holds,
                entry,
            )
        },
{
    law_the_shortest_way_is_taken(contents, target.schema, indexes, selection, facts);
    law_reads_give_what_is_asked_for(
        contents,
        target.schema,
        indexes,
        selection,
        facts,
        holds,
        entry,
    );
}

/// The plan of an update is for its table, with its assignments in their order, its limit, its
/// order and what it gives back, and comes to just the rows that meet its condition.
pub proof fn law_update_plans_keep_the_request(
    contents: Contents,
    database_name: Seq<char>,
    target: WriteTargetModel,
    indexes: Seq<IndexModel>,
    assignments: Seq<AssignmentAsked>,
    selection: Option<Seq<char>>,
    facts: FactsModel,
    returning: Option<Seq<ReturningModel>>,
    holds: spec_fn(Seq<char>, EntryModel) -> bool,
    entry: EntryModel,
)
    requires
        indexes_listed(contents, target.schema.table_id) == Ok::<Seq<IndexModel>, Report>(indexes),
        is_truthful(facts, target.schema, indexes, meets(selection, holds, entry), entry),
        all_read(facts),
    ensures
        update_planned(
            contents,
            database_name,
            target,
            assignments,
            selection,
            facts,
            Ok(returning),
        ) is Ok <==> update_assignments(target.schema, assignments) is Ok,
        update_planned(
            contents,
            database_name,
            target,
            assignments,
            selection,
            facts,
            Ok(returning),
        ) matches Ok(plan) ==> plan is UpdateRows && {
            &&& plan->UpdateRows_database_name == database_name
            &&& plan->UpdateRows_schema_name == target.schema_name
            &&& plan->UpdateRows_schema == target.schema
            &&& plan->UpdateRows_limit == target.limit
            &&& plan->UpdateRows_order_by_primary_key == target.order_by_primary_key
            &&& plan->UpdateRows_returning == returning
            &&& plan->UpdateRows_assignments.len() == assignments.len()
            &&& forall|i: int|
                0 <= i < assignments.len() ==> update_assignment(target.schema, assignments[i])
                    == Ok::<AssignmentModel, Report>(#[trigger] plan->UpdateRows_assignments[i])
            &&& changes(plan->UpdateRows_access, indexes, holds, entry) <==> meets(
                selection,
                holds,
                entry,
            )
        },
{
    law_the_shortest_way_is_taken(contents, target.schema, indexes, selection, facts);
    law_writes_come_to_what_is_asked_for(
        contents,
        target.schema,
        indexes,
        selection,
        facts,
        holds,
        entry,
    );
    lemma_each(assignments, |one: AssignmentAsked| update_assignment(target.schema, one));
}

proof fn lemma_each<V, R>(names: Seq<V>, resolve: spec_fn(V) -> Result<R, Report>)
    ensures
        each_resolved(names, resolve) matches Ok(found) ==> found.len() == names.len() && forall|
            i: int,
        |
            0 <= i < names.len() ==> resolve(names[i]) == Ok::<R, Report>(#[trigger] found[i]),
    decreases names.len(),
{
    if names.len() > 0 {
        lemma_each(names.drop_last(), resolve);
        if let Ok(found) = each_resolved(names, resolve) {
            let before = each_resolved(names.drop_last(), resolve)->Ok_0;
            assert forall|i: int| 0 <= i < names.len() implies resolve(names[i]) == Ok::<R, Report>(
                #[trigger] found[i],
            ) by {
                if i < names.len() - 1 {
                    assert(found[i] == before[i]);
                    assert(names.drop_last()[i] == names[i]);
                }
            }
        }
    }
}

/// The plan of a deletion is for its table, with its limit, its order and what it gives back, and
/// comes to just the rows that meet its condition.
pub proof fn law_delete_plans_keep_the_request(
    contents: Contents,
    database_name: Seq<char>,
    target: WriteTargetModel,
    indexes: Seq<IndexModel>,
    selection: Option<Seq<char>>,
    facts: FactsModel,
    returning: Option<Seq<ReturningModel>>,
    holds: spec_fn(Seq<char>, EntryModel) -> bool,
    entry: EntryModel,
)
    requires
        indexes_listed(contents, target.schema.table_id) == Ok::<Seq<IndexModel>, Report>(indexes),
        is_truthful(facts, target.schema, indexes, meets(selection, holds, entry), entry),
        all_read(facts),
    ensures
        delete_planned(
            contents,
            database_name,
            target,
            selection,
            facts,
            Ok(returning),
        ) matches Ok(plan) && plan is DeleteRows && {
            &&& plan->DeleteRows_database_name == database_name
            &&& plan->DeleteRows_schema_name == target.schema_name
            &&& plan->DeleteRows_schema == target.schema
            &&& plan->DeleteRows_limit == target.limit
            &&& plan->DeleteRows_order_by_primary_key == target.order_by_primary_key
            &&& plan->DeleteRows_returning == returning
            &&& changes(plan->DeleteRows_access, indexes, holds, entry) <==> meets(
                selection,
                holds,
                entry,
            )
        },
{
    law_the_shortest_way_is_taken(contents, target.schema, indexes, selection, facts);
    law_writes_come_to_what_is_asked_for(
        contents,
        target.schema,
        indexes,
        selection,
        facts,
        holds,
        entry,
    );
}

/// Whether a value is a whole number, and which.
pub open spec fn is_number(value: Datum, number: int) -> bool {
    match value {
        Datum::Int16(n) => n == number,
        Datum::Int32(n) => n == number,
        Datum::Int64(n) => n == number,
        _ => false,
    }
}

/// A query skips as many rows as its OFFSET says, none where it has none, and gives no more than
/// its LIMIT says, where it has one, in either way of writing these. Negative numbers are refused.
pub proof fn law_windows_are_as_written(
    limit: Datum,
    offset: Datum,
    rows: int,
    skipped: int,
)
    requires
        is_number(limit, rows),
        is_number(offset, skipped),
    ensures
        window_of(None) == Ok::<(Option<usize>, usize), Report>((None, 0)),
        window_of(
            Some(LimitModel::LimitOffset { limit: None, offset: None, limit_by: false }),
        ) == Ok::<(Option<usize>, usize), Report>((None, 0)),
        0 <= rows ==> (window_of(
            Some(LimitModel::LimitOffset { limit: Some(Ok(limit)), offset: None, limit_by: false }),
        ) matches Ok(window) && window.0 == Some(rows as usize) && window.1 == 0),
        0 <= skipped ==> (window_of(
            Some(LimitModel::LimitOffset { limit: None, offset: Some(Ok(offset)), limit_by: false }),
        ) matches Ok(window) && window.0 is None && window.1 == skipped as usize),
        0 <= rows && 0 <= skipped ==> (window_of(
            Some(
                LimitModel::LimitOffset {
                    limit: Some(Ok(limit)),
                    offset: Some(Ok(offset)),
                    limit_by: false,
                },
            ),
        ) matches Ok(window) && window.0 == Some(rows as usize) && window.1 == skipped as usize),
        0 <= rows && 0 <= skipped ==> (window_of(
            Some(LimitModel::OffsetCommaLimit { offset: Ok(offset), limit: Ok(limit) }),
        ) matches Ok(window) && window.0 == Some(rows as usize) && window.1 == skipped as usize),
        rows < 0 ==> (window_of(
            Some(LimitModel::LimitOffset { limit: Some(Ok(limit)), offset: None, limit_by: false }),
        ) matches Err(e) && e.code == "2201X"@),
        skipped < 0 ==> (window_of(
            Some(LimitModel::LimitOffset { limit: None, offset: Some(Ok(offset)), limit_by: false }),
        ) matches Err(e) && e.code == "2201X"@),
        rows < 0 || skipped < 0 ==> (window_of(
            Some(LimitModel::OffsetCommaLimit { offset: Ok(offset), limit: Ok(limit) }),
        ) matches Err(e) && e.code == "2201X"@),
{
}

/// Whether one expression asks for the primary key from its least value on.
pub open spec fn is_by_key(expr: OrderExprModel, table: TableModel) -> bool {
    expr.column == Ok::<Seq<char>, Report>(table.primary_key) && expr.ascending != Some(false)
        && expr.nulls_first is None
}

/// No order is passed over: where an order is accepted, it is that of the primary key, which rows
/// are read and written in, or none was asked for.
pub proof fn law_accepted_orders_are_by_key(
    order_by: OrderByModel,
    exprs: Seq<OrderExprModel>,
    table: TableModel,
)
    requires
        order_by.expressions == Some(exprs),
    ensures
        order_verdict(None, table) is Ok,
        order_verdict(Some(order_by), table) is Ok <==> !order_by.interpolate && exprs.len() == 1
            && !exprs[0].with_fill && is_by_key(exprs[0], table) && has_column(
            table.columns,
            table.primary_key,
        ),
        write_order(exprs, table) is Ok <==> exprs.len() == 0 || exprs.len() == 1 && is_by_key(
            exprs[0],
            table,
        ),
        write_order(exprs, table) matches Ok(by_key) ==> (by_key <==> exprs.len() == 1),
{
}

/// A query that groups, joins, sorts or otherwise asks for more than columns of a table is never
/// taken for a plain one.
pub proof fn law_only_plain_queries_are_taken(
    contents: Contents,
    database_name: Seq<char>,
    search_path: Seq<Seq<char>>,
    asked: SelectAsked,
)
    ensures
        select_begun(contents, database_name, search_path, asked) matches Ok(target) ==> {
            &&& asked.is_select && asked.filter_supported && asked.shape.projection_supported
            &&& !asked.with_clause && !asked.fetch
            &&& !asked.shape.distinct && !asked.shape.top && !asked.shape.into
            &&& !asked.shape.grouped && !asked.shape.having && !asked.shape.qualify
            &&& !asked.shape.lateral_views && !asked.shape.named_window
            &&& !asked.shape.cluster_by && !asked.shape.distribute_by && !asked.shape.sort_by
            &&& order_verdict(asked.order_by, target.schema) is Ok
            &&& window_of(asked.limit_clause) == Ok::<(Option<usize>, usize), Report>(
                (target.limit, target.offset),
            )
            &&& asked.table matches Ok(name) && table_resolved(
                contents,
                database_name,
                search_path,
                name,
            ) == Ok::<(Seq<char>, Option<TableModel>), Report>(
                (target.schema_name, Some(target.schema)),
            )
        },
{
}

/// The table of an update or a deletion is the one that it names, with the limit and the order
/// that it asks for; one with a condition that cannot be checked here is not taken.
pub proof fn law_writes_keep_their_table(
    contents: Contents,
    database_name: Seq<char>,
    search_path: Seq<Seq<char>>,
    asked: WriteAsked,
    refusal: Seq<char>,
    number: int,
)
    ensures
        write_begun(contents, database_name, search_path, asked, refusal) matches Ok(target) ==> {
            &&& asked.filter_supported
            &&& asked.table matches Ok(name) && table_required(
                contents,
                database_name,
                search_path,
                name,
            ) == Ok::<(Seq<char>, TableModel), Report>((target.schema_name, target.schema))
            &&& target.order_by_primary_key <==> asked.order_by.len() == 1
            &&& asked.order_by.len() <= 1
            &&& asked.limit is None <==> target.limit is None
            &&& asked.limit matches Some(Ok(value)) ==> is_number(value, number) ==> number >= 0
                && target.limit == Some(number as usize)
        },
{
}

} // verus!
