//! What reads are for: bounds hold what is between them, scans stop neither early nor late, views
//! stand for their definitions, every table that a statement names is seen, and a plan is told as
//! it is.
use vstd::prelude::*;

use crate::catalog::types::IndexModel;
use crate::error::Report;
use crate::mem_store::Contents;
use crate::mode::GatewayMode;
use crate::names::{object_name, PartModel};
use crate::order::{datum_less, law_values_are_ordered, without_nan};
use crate::row::RowModel;
use crate::schema::{has_column, ColumnModel, TableModel};
use crate::server::explain::{access_told, explain_lines, mysql_row, plan_explained, scan_lines};
use crate::server::gateway::table_resolved;
use crate::server::literals::FloatTextModel;
use crate::server::lock_plan::lossy_text;
use crate::server::plan::{BoundModel, PlanModel, ReadModel};
use crate::server::qualify::{
    is_catalog_relation, name_qualified, names_in_from, names_in_joins, names_in_query,
    names_in_statement, names_in_table, names_in_tables, JoinTree, QueryTree, SetTree,
    StatementTree, TableTree,
};
use crate::server::scans::{
    batch_wanted, entries_wanted, holding, in_bounds, index_by_name, index_for_range,
    IndexScanModel,
};
use crate::server::query_flow::is_word_char;
use crate::server::slow_path::{
    batches_rows, defaults_filled, gateway_type, query_row, reads_relation, relation_replaced,
    targets_filled, ArrowType, BatchModel,
};
use crate::text::{contains_text, decimal, is_space, lower, mark_at, trim_start};
use crate::types::{datum_eq, DataType, Datum};

verus! {

/// A value is between bounds where it is above the lower one, or equal to it and that counts, and
/// likewise below the upper one; without a bound there is none to keep to.
pub proof fn law_bounds_hold_what_is_between(
    value: Datum,
    low: BoundModel,
    high: BoundModel,
)
    requires
        without_nan(value),
        without_nan(low.value),
        without_nan(high.value),
    ensures
        in_bounds(value, None, None),
        in_bounds(value, Some(low), None) <==> datum_less(low.value, value) || datum_eq(
            value,
            low.value,
        ) && low.inclusive,
        in_bounds(value, None, Some(high)) <==> datum_less(value, high.value) || datum_eq(
            value,
            high.value,
        ) && high.inclusive,
        in_bounds(value, Some(low), Some(high)) <==> in_bounds(value, Some(low), None)
            && in_bounds(value, None, Some(high)),
{
    law_values_are_ordered(value, low.value, value);
    law_values_are_ordered(low.value, value, low.value);
    law_values_are_ordered(value, high.value, value);
    law_values_are_ordered(high.value, value, high.value);
}

/// A scan asks for enough entries: without a filter for those of its window and those before it,
/// with one for all, in batches where a limit may end it early.
pub proof fn law_scans_ask_for_enough(
    has_filter: bool,
    limit: Option<usize>,
    offset: usize,
    batch: usize,
)
    ensures
        entries_wanted(has_filter, limit, offset) matches Some(n) ==> !has_filter && (
        limit matches Some(rows) && (n == rows + offset || n == usize::MAX)),
        has_filter || limit is None ==> entries_wanted(has_filter, limit, offset) is None,
        batch_wanted(has_filter, limit, offset, batch).1 <==> has_filter && limit is Some,
        batch_wanted(has_filter, limit, offset, batch).1 ==> batch_wanted(
            has_filter,
            limit,
            offset,
            batch,
        ).0 == Some(batch),
        !batch_wanted(has_filter, limit, offset, batch).1 ==> batch_wanted(
            has_filter,
            limit,
            offset,
            batch,
        ).0 == entries_wanted(has_filter, limit, offset),
{
}

/// The keys that hold a text are just those whose text holds it.
pub proof fn law_keys_are_picked_by_their_text(keys: Seq<Seq<u8>>, text: Seq<char>, key: Seq<u8>)
    ensures
        holding(keys, text).contains(key) <==> keys.contains(key) && contains_text(
            lossy_text(key),
            text,
        ),
    decreases keys.len(),
{
    let found = holding(keys, text);
    if keys.len() > 0 {
        let init = keys.drop_last();
        law_keys_are_picked_by_their_text(init, text, key);
        let before = holding(init, text);
        if keys.contains(key) {
            let i = choose|i: int| 0 <= i < keys.len() && keys[i] == key;
            if i < init.len() {
                assert(init[i] == key);
            }
        }
        if init.contains(key) {
            let i = choose|i: int| 0 <= i < init.len() && init[i] == key;
            assert(keys[i] == key);
        }
        if before.contains(key) {
            let i = choose|i: int| 0 <= i < before.len() && before[i] == key;
            assert(found[i] == key);
        }
        if found.contains(key) && !before.contains(key) {
            let i = choose|i: int| 0 <= i < found.len() && found[i] == key;
            if i < before.len() {
                assert(before[i] == key);
            }
            assert(keys[keys.len() - 1] == key);
        }
        if key == keys.last() && contains_text(lossy_text(key), text) {
            assert(found[found.len() - 1] == key);
        }
    }
}

/// An index is found by its name, the first that has it; a scan of a range needs one whose first
/// column the table has.
pub proof fn law_indexes_are_found_by_name(
    table: TableModel,
    indexes: Seq<IndexModel>,
    name: Seq<char>,
)
    ensures
        match index_by_name(indexes, name) {
            Some(index) => index.index_name == name && indexes.contains(index),
            None => forall|i: int|
                0 <= i < indexes.len() ==> (#[trigger] indexes[i]).index_name != name,
        },
        match index_for_range(table, indexes, name) {
            IndexScanModel::NoIndex => index_by_name(indexes, name) is None,
            IndexScanModel::NoColumn => index_by_name(indexes, name) is Some,
            IndexScanModel::Found { index } => index_by_name(indexes, name) == Some(index)
                && index.column_names.len() > 0 && has_column(table.columns, index.column_names[0]),
        },
    decreases indexes.len(),
{
    if indexes.len() > 0 && indexes[0].index_name != name {
        let rest = indexes.skip(1);
        law_indexes_are_found_by_name(table, rest, name);
        match index_by_name(rest, name) {
            Some(index) => {
                let i = choose|i: int| 0 <= i < rest.len() && rest[i] == index;
                assert(indexes[i + 1] == index);
            },
            None => {
                assert forall|i: int| 0 <= i < indexes.len() implies (
                #[trigger] indexes[i]).index_name != name by {
                    if i > 0 {
                        assert(rest[i - 1] == indexes[i]);
                    }
                }
            },
        }
    } else if indexes.len() > 0 {
        assert(indexes[0].index_name == name);
        assert(indexes.contains(indexes[0]));
    }
}

/// A view stands for its definition where a query reads it: behind the keyword the name of the
/// relation gives way to what it stands for, and what comes behind is read on.
pub proof fn law_relations_give_way(
    keyword: Seq<char>,
    relation: Seq<char>,
    replacement: Seq<char>,
    rest: Seq<char>,
)
    requires
        keyword.len() > 0,
        lower(keyword) == keyword,
        relation.len() > 0,
        !is_space(relation[0]),
        rest.len() > 0 ==> !is_word_char(rest[0]) && rest[0] != '.',
    ensures
        relation_replaced(
            keyword + seq![' '] + relation + rest,
            keyword,
            relation,
            replacement,
            false,
        ) == keyword + seq![' '] + replacement + relation_replaced(
            rest,
            keyword,
            relation,
            replacement,
            true,
        ),
{
    let text = keyword + seq![' '] + relation + rest;
    let behind = text.skip(keyword.len() as int);
    let name = relation + rest;
    assert(behind =~= seq![' '] + name);
    assert(behind.skip(1) =~= name);
    assert(behind[0] == ' ');
    assert(name[0] == relation[0]);
    assert(trim_start(name) == name);
    assert(trim_start(behind) == name);
    assert(lower(text).take(keyword.len() as int) =~= lower(keyword));
    assert(lower(name).take(lower(relation).len() as int) =~= lower(relation));
    assert(lower(relation).len() == relation.len());
    if rest.len() > 0 {
        assert(name[relation.len() as int] == rest[0]);
    }
    assert(reads_relation(text, keyword, relation));
    assert(text.take(text.len() - name.len()) =~= keyword + seq![' ']);
    assert(name.skip(relation.len() as int) =~= rest);
}

/// Each value of a query becomes the value of its own column, and columns that it does not fill
/// get their own defaults.
pub proof fn law_query_rows_have_their_values(
    table: TableModel,
    targets: Seq<Seq<char>>,
    defaults: Seq<Result<Datum, Report>>,
    values: Seq<Result<Datum, Report>>,
    i: int,
    c: int,
)
    requires
        targets.len() == values.len(),
        targets.no_duplicates(),
        table.columns.len() == defaults.len(),
    ensures
        query_row(table, targets, defaults, values) matches Ok(row) ==> {
            &&& 0 <= i < targets.len() ==> has_column(table.columns, targets[i])
                && row.dom().contains(targets[i]) && values[i] == Ok::<Datum, Report>(
                row[targets[i]],
            )
            &&& 0 <= c < table.columns.len() && !targets.contains(table.columns[c].name) && (forall|
                k: int,
            |
                0 <= k < c ==> (#[trigger] table.columns[k]).name != table.columns[c].name)
                ==> row.dom().contains(table.columns[c].name) && defaults[c] == Ok::<
                Datum,
                Report,
            >(row[table.columns[c].name])
        },
{
    if let Ok(row) = query_row(table, targets, defaults, values) {
        let first = targets_filled(table, targets, values)->Ok_0;
        lemma_targets(table, targets, values);
        lemma_kept_values(table.columns, defaults, first);
        if 0 <= i < targets.len() {
            assert(targets.contains(targets[i]));
            assert(first.dom().contains(targets[i]));
            assert(values[i] == Ok::<Datum, Report>(first[targets[i]]));
        }
        if 0 <= c < table.columns.len() && !targets.contains(table.columns[c].name) && (forall|
            k: int,
        |
            0 <= k < c ==> (#[trigger] table.columns[k]).name != table.columns[c].name) {
            assert(!first.dom().contains(table.columns[c].name));
            lemma_default(table.columns, defaults, first, c);
        }
    }
}

proof fn lemma_targets(
    table: TableModel,
    targets: Seq<Seq<char>>,
    values: Seq<Result<Datum, Report>>,
)
    requires
        targets.len() == values.len(),
        targets.no_duplicates(),
    ensures
        targets_filled(table, targets, values) matches Ok(row) ==> {
            &&& forall|name: Seq<char>| #[trigger]
                row.dom().contains(name) <==> targets.contains(name)
            &&& forall|i: int|
                0 <= i < targets.len() ==> has_column(table.columns, #[trigger] targets[i])
                    && values[i] == Ok::<Datum, Report>(row[targets[i]])
        },
    decreases targets.len(),
{
    if targets.len() > 0 {
        let init = targets.drop_last();
        lemma_targets(table, init, values.drop_last());
        if let Ok(row) = targets_filled(table, targets, values) {
            let before = targets_filled(table, init, values.drop_last())->Ok_0;
            assert forall|name: Seq<char>| #[trigger]
                row.dom().contains(name) <==> targets.contains(name) by {
                assert(before.dom().contains(name) <==> init.contains(name));
                if targets.contains(name) {
                    let i = choose|i: int| 0 <= i < targets.len() && targets[i] == name;
                    if i < init.len() {
                        assert(init[i] == name);
                    }
                }
                if init.contains(name) {
                    let i = choose|i: int| 0 <= i < init.len() && init[i] == name;
                    assert(targets[i] == name);
                }
                assert(targets[targets.len() - 1] == targets.last());
            }
            assert forall|i: int| 0 <= i < targets.len() implies has_column(
                table.columns,
                #[trigger] targets[i],
            ) && values[i] == Ok::<Datum, Report>(row[targets[i]]) by {
                if i < init.len() {
                    assert(init[i] == targets[i]);
                    assert(targets[i] != targets.last());
                }
            }
        }
    }
}

proof fn lemma_kept_values(
    columns: Seq<ColumnModel>,
    defaults: Seq<Result<Datum, Report>>,
    row: RowModel,
)
    requires
        columns.len() == defaults.len(),
    ensures
        defaults_filled(columns, defaults, row) matches Ok(filled) ==> forall|name: Seq<char>|
            #[trigger]
            row.dom().contains(name) ==> filled.dom().contains(name) && filled[name] == row[name],
    decreases columns.len(),
{
    if columns.len() > 0 {
        lemma_kept_values(columns.drop_last(), defaults.drop_last(), row);
    }
}

proof fn lemma_only_columns(
    columns: Seq<ColumnModel>,
    defaults: Seq<Result<Datum, Report>>,
    row: RowModel,
    name: Seq<char>,
)
    requires
        columns.len() == defaults.len(),
        !row.dom().contains(name),
        forall|k: int| 0 <= k < columns.len() ==> (#[trigger] columns[k]).name != name,
    ensures
        defaults_filled(columns, defaults, row) matches Ok(filled) ==> !filled.dom().contains(name),
    decreases columns.len(),
{
    if columns.len() > 0 {
        let init = columns.drop_last();
        assert forall|k: int| 0 <= k < init.len() implies (#[trigger] init[k]).name != name by {
            assert(init[k] == columns[k]);
        }
        lemma_only_columns(init, defaults.drop_last(), row, name);
        assert(columns[columns.len() - 1].name != name);
    }
}

proof fn lemma_default(
    columns: Seq<ColumnModel>,
    defaults: Seq<Result<Datum, Report>>,
    row: RowModel,
    c: int,
)
    requires
        columns.len() == defaults.len(),
        0 <= c < columns.len(),
        !row.dom().contains(columns[c].name),
        forall|k: int| 0 <= k < c ==> (#[trigger] columns[k]).name != columns[c].name,
    ensures
        defaults_filled(columns, defaults, row) matches Ok(filled) ==> filled.dom().contains(
            columns[c].name,
        ) && defaults[c] == Ok::<Datum, Report>(filled[columns[c].name]),
    decreases columns.len(),
{
    let init = columns.drop_last();
    if c < columns.len() - 1 {
        assert forall|k: int| 0 <= k < c implies (#[trigger] init[k]).name != init[c].name by {
            assert(init[k] == columns[k]);
        }
        lemma_default(init, defaults.drop_last(), row, c);
    } else {
        assert forall|k: int| 0 <= k < init.len() implies (#[trigger] init[k]).name
            != columns[c].name by {
            assert(init[k] == columns[k]);
        }
        lemma_only_columns(init, defaults.drop_last(), row, columns[c].name);
    }
}

/// Each row of a query becomes a row, in its order, over all batches; a query with another number
/// of columns is refused.
pub proof fn law_query_rows_are_all_taken(
    table: TableModel,
    targets: Seq<Seq<char>>,
    defaults: Seq<Result<Datum, Report>>,
    batches: Seq<BatchModel>,
)
    ensures
        batches_rows(table, targets, defaults, batches) matches Ok(rows) ==> rows.len()
            == total_rows(batches) && forall|b: int|
            0 <= b < batches.len() ==> (#[trigger] batches[b]).width == targets.len(),
    decreases batches.len(),
{
    if batches.len() > 0 {
        let init = batches.drop_last();
        law_query_rows_are_all_taken(table, targets, defaults, init);
        if let Ok(rows) = batches_rows(table, targets, defaults, batches) {
            let last = batches.last();
            crate::server::ddl_laws::law_each_name_is_resolved(
                last.rows,
                |values: Seq<Result<Datum, Report>>| query_row(table, targets, defaults, values),
            );
            assert forall|b: int| 0 <= b < batches.len() implies (#[trigger] batches[b]).width
                == targets.len() by {
                if b < init.len() {
                    assert(init[b] == batches[b]);
                }
            }
        }
    }
}

/// How many rows batches have.
pub open spec fn total_rows(batches: Seq<BatchModel>) -> nat
    decreases batches.len(),
{
    if batches.len() == 0 {
        0
    } else {
        total_rows(batches.drop_last()) + batches.last().rows.len()
    }
}

/// The least and the greatest number of a type of the query engine.
pub open spec fn engine_range(data_type: ArrowType) -> Option<(int, int)> {
    match data_type {
        ArrowType::Int8 => Some((-0x80, 0x7f)),
        ArrowType::Int16 => Some((-0x8000, 0x7fff)),
        ArrowType::Int32 => Some((-0x8000_0000, 0x7fff_ffff)),
        ArrowType::Int64 => Some((-0x8000_0000_0000_0000, 0x7fff_ffff_ffff_ffff)),
        ArrowType::UInt8 => Some((0, 0xff)),
        ArrowType::UInt16 => Some((0, 0xffff)),
        ArrowType::UInt32 => Some((0, 0xffff_ffff)),
        _ => None,
    }
}

/// The least and the greatest number of a type of a column.
pub open spec fn column_range(data_type: DataType) -> Option<(int, int)> {
    match data_type {
        DataType::Int16 => Some((-0x8000, 0x7fff)),
        DataType::Int32 => Some((-0x8000_0000, 0x7fff_ffff)),
        DataType::Int64 => Some((-0x8000_0000_0000_0000, 0x7fff_ffff_ffff_ffff)),
        _ => None,
    }
}

/// The result of a query fits the columns that it is given: whole numbers get a type that has all
/// of them, other values a type of their kind.
pub proof fn law_query_results_fit_their_columns(data_type: ArrowType)
    ensures
        engine_range(data_type) matches Some(range) ==> (column_range(
            gateway_type(data_type),
        ) matches Some(room) && room.0 <= range.0 && range.1 <= room.1),
        gateway_type(ArrowType::UInt64) is Int64,
        gateway_type(ArrowType::Float32) is Float32,
        gateway_type(ArrowType::Float64) is Float64,
        gateway_type(ArrowType::Boolean) is Boolean,
        gateway_type(ArrowType::Date32) is Date && gateway_type(ArrowType::Date64) is Date,
        gateway_type(ArrowType::Timestamp) is Timestamp,
        gateway_type(ArrowType::Other) is Text,
{
}

/// A table is read with the schema in which the search path finds it; relations of the system
/// catalog with theirs; a name with a schema, and one that is found nowhere, as it is.
pub proof fn law_names_get_their_schema(
    contents: Contents,
    database_name: Seq<char>,
    search_path: Seq<Seq<char>>,
    name: Seq<PartModel>,
    text: Seq<char>,
)
    requires
        object_name(name) == Ok::<Seq<char>, Report>(text),
        mark_at(text, '.') is None,
    ensures
        is_catalog_relation(text) ==> name_qualified(
            contents,
            database_name,
            search_path,
            name,
        ) == Ok::<Option<Seq<char>>, Report>(Some("pg_catalog."@ + text)),
        !is_catalog_relation(text) ==> match table_resolved(
            contents,
            database_name,
            search_path,
            text,
        ) {
            Ok(found) => name_qualified(contents, database_name, search_path, name) == Ok::<
                Option<Seq<char>>,
                Report,
            >(
                if found.1 is Some {
                    Some(found.0 + "."@ + found.1->0.table_name)
                } else {
                    None
                },
            ),
            Err(e) => name_qualified(contents, database_name, search_path, name) == Err::<
                Option<Seq<char>>,
                Report,
            >(e),
        },
{
}

proof fn lemma_in_tables(tables: Seq<TableTree>, i: int, name: Seq<PartModel>)
    requires
        0 <= i < tables.len(),
        names_in_table(tables[i]).contains(name),
    ensures
        names_in_tables(tables).contains(name),
    decreases tables.len(),
{
    let before = names_in_tables(tables.drop_last());
    let last = names_in_table(tables.last());
    if i < tables.len() - 1 {
        assert(tables.drop_last()[i] == tables[i]);
        lemma_in_tables(tables.drop_last(), i, name);
    }
    lemma_joined_names(before, last, name);
}

proof fn lemma_joined_names(a: Seq<Seq<PartModel>>, b: Seq<Seq<PartModel>>, name: Seq<PartModel>)
    ensures
        (a + b).contains(name) <==> a.contains(name) || b.contains(name),
{
    if a.contains(name) {
        let i = choose|i: int| 0 <= i < a.len() && a[i] == name;
        assert((a + b)[i] == name);
    }
    if b.contains(name) {
        let i = choose|i: int| 0 <= i < b.len() && b[i] == name;
        assert((a + b)[a.len() + i] == name);
    }
    if (a + b).contains(name) {
        let i = choose|i: int| 0 <= i < (a + b).len() && (a + b)[i] == name;
        if i < a.len() {
            assert(a[i] == name);
        } else {
            assert(b[i - a.len()] == name);
        }
    }
}

proof fn lemma_in_from(from: Seq<JoinTree>, i: int, name: Seq<PartModel>)
    requires
        0 <= i < from.len(),
        names_in_joins(from[i]).contains(name),
    ensures
        names_in_from(from).contains(name),
    decreases from.len(),
{
    if i < from.len() - 1 {
        assert(from.drop_last()[i] == from[i]);
        lemma_in_from(from.drop_last(), i, name);
    }
    lemma_joined_names(names_in_from(from.drop_last()), names_in_joins(from.last()), name);
}

/// Every table that a statement reads or writes is seen: those in its list, those that are joined
/// to them, those in queries within it, and the one that it inserts into.
pub proof fn law_every_table_is_seen(
    query: QueryTree,
    tables: JoinTree,
    from: Seq<JoinTree>,
    i: int,
    j: int,
    name: Seq<PartModel>,
)
    ensures
        names_in_table(tables.relation).contains(name) ==> names_in_joins(tables).contains(name),
        0 <= j < tables.joins@.len() && names_in_table(tables.joins@[j]).contains(name)
            ==> names_in_joins(tables).contains(name),
        0 <= i < from.len() && names_in_joins(from[i]).contains(name) ==> names_in_from(
            from,
        ).contains(name),
        (query.body matches SetTree::Select { from: list } && names_in_from(list@).contains(name))
            ==> names_in_query(query).contains(name),
        names_in_query(query).contains(name) ==> names_in_statement(
            StatementTree::Query { query },
        ).contains(name),
        names_in_query(query).contains(name) ==> names_in_statement(
            StatementTree::Insert { table: None, source: Some(query) },
        ).contains(name),
        names_in_joins(tables).contains(name) ==> names_in_statement(
            StatementTree::Update { table: tables },
        ).contains(name),
{
    lemma_joined_names(
        names_in_table(tables.relation),
        names_in_tables(tables.joins@),
        name,
    );
    if 0 <= j < tables.joins@.len() && names_in_table(tables.joins@[j]).contains(name) {
        lemma_in_tables(tables.joins@, j, name);
    }
    if 0 <= i < from.len() && names_in_joins(from[i]).contains(name) {
        lemma_in_from(from, i, name);
    }
    lemma_joined_names(
        crate::server::qualify::names_in_queries(query.ctes@),
        crate::server::qualify::names_in_set(query.body),
        name,
    );
    assert(Seq::<Seq<PartModel>>::empty() + names_in_query(query) =~= names_in_query(query));
}

/// A table by its name is that name alone, wherever it stands.
pub proof fn law_named_tables_are_named(name: crate::names::ObjectName)
    ensures
        names_in_table(TableTree::Named { name }) == seq![name@],
        names_in_table(TableTree::Other).len() == 0,
        names_in_statement(StatementTree::Insert { table: Some(name), source: None }) == seq![
            name@,
        ],
{
    assert(seq![name@] + Seq::<Seq<PartModel>>::empty() =~= seq![name@]);
}

/// PostgreSQL clients are told of the filter of a read, where it has one, behind everything else;
/// of its limit and its offset, where it has them, in front; and of all rows being gone over just
/// where they are.
pub proof fn law_reads_are_explained(
    table: TableModel,
    access: ReadModel,
    limit: Option<usize>,
    offset: usize,
    floats: Seq<FloatTextModel>,
)
    ensures
        ({
            let lines = explain_lines(table, access, limit, offset, floats);
            let filter = match access {
                ReadModel::PrimaryKeyRangeScan { filter, .. } => filter,
                ReadModel::SecondaryIndexLookup { filter, .. } => filter,
                ReadModel::SecondaryIndexRangeScan { filter, .. } => filter,
                ReadModel::PrefixScan { filter } => filter,
                _ => None,
            };
            &&& filter matches Some(text) ==> lines.last() == "  Filter: ("@ + text + ")"@
            &&& offset > 0 ==> lines[0] == "Offset: "@ + decimal(offset as nat)
            &&& offset > 0 && limit is Some ==> lines[1] == "Limit: "@ + decimal(limit->0 as nat)
            &&& offset == 0 && limit is Some ==> lines[0] == "Limit: "@ + decimal(limit->0 as nat)
            &&& access is PrefixScan ==> scan_lines(table, access, floats)[0] == "Seq Scan on "@
                + table.table_name
            &&& access matches ReadModel::SecondaryIndexLookup { index_name, .. } ==> scan_lines(
                table,
                access,
                floats,
            )[0] == "Index Scan using "@ + index_name + " on "@ + table.table_name
            &&& access matches ReadModel::SecondaryIndexRangeScan { index_name, .. } ==> scan_lines(
                table,
                access,
                floats,
            )[0] == "Index Scan using "@ + index_name + " on "@ + table.table_name
        }),
{
}

/// MySQL clients are told which key a read goes by, and whether rows are filtered.
pub proof fn law_reads_are_told_to_mysql(
    table: TableModel,
    access: ReadModel,
    limit: Option<usize>,
    indexes: Seq<IndexModel>,
)
    ensures
        mysql_row(table, access, limit, indexes)[2] == Some(table.table_name),
        ({
            let (kind, key, rows, filtered) = access_told(access, limit);
            &&& key is None <==> access is PrefixScan
            &&& access matches ReadModel::SecondaryIndexLookup { index_name, filter, .. } ==> key
                == Some(index_name) && (filtered <==> filter is Some)
            &&& access matches ReadModel::SecondaryIndexRangeScan { index_name, filter, .. } ==> key
                == Some(index_name) && (filtered <==> filter is Some)
            &&& access matches ReadModel::PrefixScan { filter } ==> (filtered <==> filter is Some)
            &&& access is PointLookup || access is PrimaryKeyInLookup
                || access is PrimaryKeyRangeScan ==> key == Some("PRIMARY"@)
        }),
{
}

/// Only reads are explained; each kind of client gets its own form.
pub proof fn law_only_reads_are_explained(
    contents: Contents,
    mode: GatewayMode,
    plan: PlanModel,
    floats: Seq<FloatTextModel>,
)
    ensures
        plan_explained(contents, mode, plan, floats) matches Ok(told) ==> plan is SelectRows && (
        mode == GatewayMode::MySql <==> told is ExplainRows) && (mode != GatewayMode::MySql
            <==> told is PostgresExplainRows),
        !(plan is SelectRows) ==> (plan_explained(contents, mode, plan, floats) matches Err(e)
            && e.code == "0A000"@),
{
}

} // verus!
