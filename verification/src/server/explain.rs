//! Descriptions of plans.
use vstd::prelude::*;

use crate::catalog::model::{bootstrapped, indexes_listed};
use crate::catalog::types::{IndexCatalog, IndexModel};
use crate::error::{not_internal, unsupported, unsupported_report, Report, UserError};
use crate::mem_store::{Contents, KvStore};
use crate::mode::GatewayMode;
use crate::names::{join_names, joined};
use crate::schema::{option_view, seen, views, TableModel, TableSchema};
use crate::server::gateway::{only_opened, GatewayServer};
use crate::server::literals::{
    explain_values, explained, explained_list, postgres_explain_value, FloatText, FloatTextModel,
};
use crate::server::plan::{
    Bound, BoundModel, PlanModel, QueryPlan, ReadAccess, ReadModel, SqlExpr, TextRow,
};
use crate::text::{decimal, decimal_text, three_texts};
use crate::types::INTERNAL_ROWID_COLUMN;

verus! {

/// A bound on a column: `(column > value)` or the like.
pub open spec fn bound_text(
    column: Seq<char>,
    strict: Seq<char>,
    loose: Seq<char>,
    bound: BoundModel,
    floats: Seq<FloatTextModel>,
) -> Seq<char> {
    "("@ + column + " "@ + (if bound.inclusive {
        loose
    } else {
        strict
    }) + " "@ + explained(bound.value, floats) + ")"@
}

/// The bounds on a column, where there are any.
pub open spec fn range_text(
    column: Seq<char>,
    lower: Option<BoundModel>,
    upper: Option<BoundModel>,
    floats: Seq<FloatTextModel>,
) -> Option<Seq<char>> {
    match (lower, upper) {
        (None, None) => None,
        (Some(low), None) => Some(bound_text(column, ">"@, ">="@, low, floats)),
        (None, Some(high)) => Some(bound_text(column, "<"@, "<="@, high, floats)),
        (Some(low), Some(high)) => Some(
            bound_text(column, ">"@, ">="@, low, floats) + " AND "@ + bound_text(
                column,
                "<"@,
                "<="@,
                high,
                floats,
            ),
        ),
    }
}

fn write_bound(
    column_name: &str,
    strict: &str,
    loose: &str,
    bound: &Bound,
    floats: &Vec<FloatText>,
) -> (text: String)
    ensures
        text@ == bound_text(column_name@, strict@, loose@, bound@, views(floats@)),
{
    let mut text = "(".to_string();
    text.push_str(column_name);
    text.push_str(" ");
    if bound.inclusive {
        text.push_str(loose);
    } else {
        text.push_str(strict);
    }
    text.push_str(" ");
    text.push_str(postgres_explain_value(&bound.value, floats).as_str());
    text.push_str(")");
    text
}

/// The bounds on a column, where there are any.
pub fn postgres_explain_range_condition(
    column_name: &str,
    lower: &Option<Bound>,
    upper: &Option<Bound>,
    floats: &Vec<FloatText>,
) -> (text: Option<String>)
    ensures
        option_view(text) == range_text(
            column_name@,
            option_view(*lower),
            option_view(*upper),
            views(floats@),
        ),
{
    match lower {
        None => match upper {
            None => None,
            Some(high) => Some(write_bound(column_name, "<", "<=", high, floats)),
        },
        Some(low) => {
            let first = write_bound(column_name, ">", ">=", low, floats);
            match upper {
                None => Some(first),
                Some(high) => {
                    let second = write_bound(column_name, "<", "<=", high, floats);
                    Some(three_texts(first.as_str(), " AND ", second.as_str()))
                },
            }
        },
    }
}

/// The line that says which index of a table is scanned.
pub open spec fn index_scan_text(index: Seq<char>, table: Seq<char>) -> Seq<char> {
    "Index Scan using "@ + index + " on "@ + table
}

/// The line for what rows are filtered by, where they are.
pub open spec fn with_filter(lines: Seq<Seq<char>>, filter: Option<Seq<char>>) -> Seq<Seq<char>> {
    match filter {
        Some(text) => lines.push("  Filter: ("@ + text + ")"@),
        None => lines,
    }
}

/// The line for the condition on an index, where there is one.
pub open spec fn with_condition(lines: Seq<Seq<char>>, condition: Option<Seq<char>>) -> Seq<
    Seq<char>,
> {
    match condition {
        Some(text) => lines.push("  Index Cond: "@ + text),
        None => lines,
    }
}

/// The lines that describe a scan.
pub open spec fn scan_lines(table: TableModel, access: ReadModel, floats: Seq<FloatTextModel>) -> Seq<
    Seq<char>,
> {
    let key_scan = index_scan_text(table.table_name + "_pkey"@, table.table_name);
    match access {
        ReadModel::PointLookup { key } => seq![
            key_scan,
            "  Index Cond: ("@ + table.primary_key + " = "@ + explained(key, floats) + ")"@,
        ],
        ReadModel::PrimaryKeyInLookup { keys } => seq![
            key_scan,
            "  Index Cond: ("@ + table.primary_key + " = ANY ({"@ + explained_list(keys, floats)
                + "}))"@,
        ],
        ReadModel::PrimaryKeyRangeScan { lower, upper, filter } => with_filter(
            with_condition(seq![key_scan], range_text(table.primary_key, lower, upper, floats)),
            filter,
        ),
        ReadModel::SecondaryIndexLookup { index_name, column_name, key, filter } => with_filter(
            seq![
                index_scan_text(index_name, table.table_name),
                "  Index Cond: ("@ + column_name + " = "@ + explained(key, floats) + ")"@,
            ],
            filter,
        ),
        ReadModel::SecondaryIndexRangeScan { index_name, column_name, lower, upper, filter } =>
            with_filter(
            with_condition(
                seq![index_scan_text(index_name, table.table_name)],
                range_text(column_name, lower, upper, floats),
            ),
            filter,
        ),
        ReadModel::PrefixScan { filter } => with_filter(
            seq!["Seq Scan on "@ + table.table_name],
            filter,
        ),
    }
}

/// The lines that describe a read: its window first.
pub open spec fn explain_lines(
    table: TableModel,
    access: ReadModel,
    limit: Option<usize>,
    offset: usize,
    floats: Seq<FloatTextModel>,
) -> Seq<Seq<char>> {
    let window = match limit {
        Some(n) => seq!["Limit: "@ + decimal(n as nat)],
        None => seq![],
    };
    let start = if offset > 0 {
        seq!["Offset: "@ + decimal(offset as nat)]
    } else {
        seq![]
    };
    start + window + scan_lines(table, access, floats)
}

fn add_line(lines: &mut Vec<String>, line: String)
    ensures
        views(final(lines)@) == views(old(lines)@).push(line@),
{
    let ghost before = views(lines@);
    let ghost added = line@;
    lines.push(line);
    assert(views(lines@) =~= before.push(added));
}

fn add_filter(lines: &mut Vec<String>, filter: &Option<SqlExpr>)
    ensures
        views(final(lines)@) == with_filter(views(old(lines)@), option_view(*filter)),
{
    match filter {
        Some(expr) => {
            add_line(lines, three_texts("  Filter: (", expr.text.as_str(), ")"));
        },
        None => {},
    }
}

fn add_condition(lines: &mut Vec<String>, condition: &Option<String>)
    ensures
        views(final(lines)@) == with_condition(views(old(lines)@), option_view(*condition)),
{
    match condition {
        Some(text) => {
            let mut line = "  Index Cond: ".to_string();
            line.push_str(text.as_str());
            add_line(lines, line);
        },
        None => {},
    }
}

fn index_scan_line(index: &str, table: &str) -> (line: String)
    ensures
        line@ == index_scan_text(index@, table@),
{
    let mut line = three_texts("Index Scan using ", index, " on ");
    line.push_str(table);
    line
}

/// A list of texts with others behind it, in the order of the lists.
proof fn lemma_first_line(lines: Seq<String>, line: String)
    requires
        lines.len() == 1,
        lines[0] == line,
    ensures
        views(lines) == seq![line@],
{
    assert(views(lines) =~= seq![line@]);
}

fn first_line(line: String) -> (lines: Vec<String>)
    ensures
        views(lines@) == seq![line@],
{
    let mut lines: Vec<String> = Vec::new();
    lines.push(line);
    proof {
        lemma_first_line(lines@, line);
    }
    lines
}

/// The lines that describe a scan.
pub fn describe_scan(schema: &TableSchema, access: &ReadAccess, floats: &Vec<FloatText>) -> (lines:
    Vec<String>)
    ensures
        views(lines@) == scan_lines(schema@, access@, views(floats@)),
{
    let mut key_index = schema.table_name.clone();
    key_index.push_str("_pkey");
    let key_scan = index_scan_line(key_index.as_str(), schema.table_name.as_str());
    match access {
        ReadAccess::PointLookup { key } => {
            let mut lines = first_line(key_scan);
            let mut line = three_texts("  Index Cond: (", schema.primary_key.as_str(), " = ");
            line.push_str(postgres_explain_value(key, floats).as_str());
            line.push_str(")");
            add_line(&mut lines, line);
            assert(views(lines@) =~= scan_lines(schema@, access@, views(floats@)));
            lines
        },
        ReadAccess::PrimaryKeyInLookup { keys } => {
            let mut lines = first_line(key_scan);
            let mut line = three_texts("  Index Cond: (", schema.primary_key.as_str(), " = ANY ({");
            line.push_str(explain_values(keys, floats).as_str());
            line.push_str("}))");
            add_line(&mut lines, line);
            assert(views(lines@) =~= scan_lines(schema@, access@, views(floats@)));
            lines
        },
        ReadAccess::PrimaryKeyRangeScan { lower, upper, filter } => {
            let mut lines = first_line(key_scan);
            let condition = postgres_explain_range_condition(
                schema.primary_key.as_str(),
                lower,
                upper,
                floats,
            );
            add_condition(&mut lines, &condition);
            add_filter(&mut lines, filter);
            lines
        },
        ReadAccess::SecondaryIndexLookup { index_name, column_name, key, filter } => {
            let mut lines = first_line(
                index_scan_line(index_name.as_str(), schema.table_name.as_str()),
            );
            let mut line = three_texts("  Index Cond: (", column_name.as_str(), " = ");
            line.push_str(postgres_explain_value(key, floats).as_str());
            line.push_str(")");
            let ghost texts = seq![
                index_scan_text(index_name@, schema@.table_name),
                "  Index Cond: ("@ + column_name@ + " = "@ + explained(key@, views(floats@))
                    + ")"@,
            ];
            add_line(&mut lines, line);
            assert(views(lines@) =~= texts);
            add_filter(&mut lines, filter);
            lines
        },
        ReadAccess::SecondaryIndexRangeScan { index_name, column_name, lower, upper, filter } => {
            let mut lines = first_line(
                index_scan_line(index_name.as_str(), schema.table_name.as_str()),
            );
            let condition = postgres_explain_range_condition(
                column_name.as_str(),
                lower,
                upper,
                floats,
            );
            add_condition(&mut lines, &condition);
            add_filter(&mut lines, filter);
            lines
        },
        ReadAccess::PrefixScan { filter } => {
            let mut line = "Seq Scan on ".to_string();
            line.push_str(schema.table_name.as_str());
            let mut lines = first_line(line);
            add_filter(&mut lines, filter);
            lines
        },
    }
}

/// Lines as rows of one text each.
pub open spec fn rows_of_lines(lines: Seq<Seq<char>>) -> Seq<Seq<Option<Seq<char>>>> {
    lines.map_values(|line: Seq<char>| seq![Some(line)])
}

/// Puts lines behind rows, one text to a row.
fn add_rows(rows: &mut Vec<TextRow>, lines: Vec<String>)
    ensures
        views(final(rows)@) == views(old(rows)@) + rows_of_lines(views(lines@)),
{
    let ghost before = views(rows@);
    let ghost added = rows_of_lines(views(lines@));
    let mut i: usize = 0;
    assert(before + added.take(0) =~= before);
    while i < lines.len()
        invariant
            i <= lines@.len(),
            added == rows_of_lines(views(lines@)),
            views(rows@) == before + added.take(i as int),
        decreases lines@.len() - i,
    {
        let ghost so_far = views(rows@);
        let mut cells: Vec<Option<String>> = Vec::new();
        cells.push(Some(lines[i].clone()));
        let row = TextRow { cells };
        assert(row@ =~= seq![Some(lines@[i as int]@)]);
        assert(added[i as int] == row@) by {
            assert(views(lines@)[i as int] == lines@[i as int]@);
        }
        let ghost model = row@;
        rows.push(row);
        assert(views(rows@) =~= so_far.push(model));
        assert(added.take(i + 1) =~= added.take(i as int).push(model));
        assert(views(rows@) =~= before + added.take(i + 1));
        i += 1;
    }
    assert(added.take(i as int) =~= added);
}

/// The rows that describe a read to PostgreSQL clients.
pub fn describe_read(
    schema: &TableSchema,
    access: &ReadAccess,
    limit: Option<usize>,
    offset: usize,
    floats: &Vec<FloatText>,
) -> (rows: Vec<TextRow>)
    ensures
        views(rows@) == rows_of_lines(
            explain_lines(schema@, access@, limit, offset, views(floats@)),
        ),
{
    let mut lines: Vec<String> = Vec::new();
    assert(views(lines@) =~= Seq::<Seq<char>>::empty());
    if offset > 0 {
        let mut line = "Offset: ".to_string();
        line.push_str(decimal_text(offset as u64).as_str());
        add_line(&mut lines, line);
    }
    match limit {
        Some(n) => {
            let mut line = "Limit: ".to_string();
            line.push_str(decimal_text(n as u64).as_str());
            add_line(&mut lines, line);
        },
        None => {},
    }
    let scan = describe_scan(schema, access, floats);
    let ghost window = views(lines@);
    let ghost rest = views(scan@);
    let mut rows: Vec<TextRow> = Vec::new();
    assert(views(rows@) =~= Seq::<Seq<Option<Seq<char>>>>::empty());
    add_rows(&mut rows, lines);
    add_rows(&mut rows, scan);
    assert(window + rest =~= explain_lines(schema@, access@, limit, offset, views(floats@)));
    assert(views(rows@) =~= rows_of_lines(window + rest));
    rows
}

/// The keys that a MySQL client is told of: the primary key and the indexes.
pub open spec fn possible_keys(table: TableModel, indexes: Seq<IndexModel>) -> Seq<Seq<char>> {
    (if table.primary_key != INTERNAL_ROWID_COLUMN@ {
        seq!["PRIMARY"@]
    } else {
        seq![]
    }) + indexes.map_values(|index: IndexModel| index.index_name)
}

/// The text of the keys that a MySQL client is told of.
pub open spec fn keys_text(table: TableModel, indexes: Seq<IndexModel>) -> Option<Seq<char>> {
    if possible_keys(table, indexes).len() == 0 {
        None
    } else {
        Some(joined(possible_keys(table, indexes), ","@))
    }
}

/// The text of the keys that a MySQL client is told of.
pub fn mysql_possible_keys(schema: &TableSchema, indexes: &Vec<IndexCatalog>) -> (keys: Option<
    String,
>)
    ensures
        option_view(keys) == keys_text(schema@, views(indexes@)),
{
    let ghost all = views(indexes@);
    let mut names: Vec<String> = Vec::new();
    assert(views(names@) =~= Seq::<Seq<char>>::empty());
    if schema.has_user_primary_key() {
        add_line(&mut names, "PRIMARY".to_string());
    }
    let ghost start = views(names@);
    let ghost rest = all.map_values(|index: IndexModel| index.index_name);
    let mut i: usize = 0;
    assert(start + rest.take(0) =~= start);
    while i < indexes.len()
        invariant
            i <= indexes@.len(),
            all == views(indexes@),
            rest == all.map_values(|index: IndexModel| index.index_name),
            views(names@) == start + rest.take(i as int),
        decreases indexes@.len() - i,
    {
        assert(all[i as int] == indexes@[i as int]@);
        add_line(&mut names, indexes[i].index_name.clone());
        assert(rest.take(i + 1) =~= rest.take(i as int).push(rest[i as int]));
        assert(views(names@) =~= start + rest.take(i + 1));
        i += 1;
    }
    assert(rest.take(i as int) =~= rest);
    assert(start + rest =~= possible_keys(schema@, all));
    if names.len() == 0 {
        return None;
    }
    Some(join_names(&names, ","))
}

/// How a MySQL client is told of a read: its kind, its key, how many rows, and whether rows are
/// filtered.
pub open spec fn access_told(access: ReadModel, limit: Option<usize>) -> (
    Seq<char>,
    Option<Seq<char>>,
    usize,
    bool,
) {
    let few = match limit {
        Some(n) => if n > 1 {
            n
        } else {
            1
        },
        None => 1,
    };
    match access {
        ReadModel::PointLookup { key } => ("const"@, Some("PRIMARY"@), 1, false),
        ReadModel::PrimaryKeyInLookup { keys } => ("const"@, Some("PRIMARY"@), 1, false),
        ReadModel::PrimaryKeyRangeScan { lower, upper, filter } => (
            "range"@,
            Some("PRIMARY"@),
            few,
            filter is Some,
        ),
        ReadModel::SecondaryIndexLookup { index_name, column_name, key, filter } => (
            "ref"@,
            Some(index_name),
            few,
            filter is Some,
        ),
        ReadModel::SecondaryIndexRangeScan { index_name, column_name, lower, upper, filter } => (
            "range"@,
            Some(index_name),
            few,
            filter is Some,
        ),
        ReadModel::PrefixScan { filter } => (
            "ALL"@,
            None,
            if limit is None {
                1000
            } else {
                few
            },
            filter is Some,
        ),
    }
}

/// How a MySQL client is told of a read.
pub fn mysql_explain_access(access: &ReadAccess, limit: Option<usize>) -> (told: (
    String,
    Option<String>,
    usize,
    bool,
))
    ensures
        (told.0@, option_view(told.1), told.2, told.3) == access_told(access@, limit),
{
    let few: usize = match limit {
        Some(n) => if n > 1 {
            n
        } else {
            1
        },
        None => 1,
    };
    match access {
        ReadAccess::PointLookup { key } => (
            "const".to_string(),
            Some("PRIMARY".to_string()),
            1,
            false,
        ),
        ReadAccess::PrimaryKeyInLookup { keys } => (
            "const".to_string(),
            Some("PRIMARY".to_string()),
            1,
            false,
        ),
        ReadAccess::PrimaryKeyRangeScan { lower, upper, filter } => (
            "range".to_string(),
            Some("PRIMARY".to_string()),
            few,
            filter.is_some(),
        ),
        ReadAccess::SecondaryIndexLookup { index_name, column_name, key, filter } => (
            "ref".to_string(),
            Some(index_name.clone()),
            few,
            filter.is_some(),
        ),
        ReadAccess::SecondaryIndexRangeScan { index_name, column_name, lower, upper, filter } => (
            "range".to_string(),
            Some(index_name.clone()),
            few,
            filter.is_some(),
        ),
        ReadAccess::PrefixScan { filter } => {
            let rows: usize = if limit.is_none() {
                1000
            } else {
                few
            };
            ("ALL".to_string(), None, rows, filter.is_some())
        },
    }
}

/// The row that describes a read to MySQL clients.
pub open spec fn mysql_row(
    table: TableModel,
    access: ReadModel,
    limit: Option<usize>,
    indexes: Seq<IndexModel>,
) -> Seq<Option<Seq<char>>> {
    let told = access_told(access, limit);
    seq![
        Some("1"@),
        Some("SIMPLE"@),
        Some(table.table_name),
        None,
        Some(told.0),
        keys_text(table, indexes),
        told.1,
        None,
        None,
        Some(decimal(told.2 as nat)),
        Some("100.00"@),
        if told.3 {
            Some("Using where"@)
        } else {
            None
        },
    ]
}

/// The row that describes a read to MySQL clients.
pub fn describe_mysql_read(
    schema: &TableSchema,
    access: &ReadAccess,
    limit: Option<usize>,
    indexes: &Vec<IndexCatalog>,
) -> (row: TextRow)
    ensures
        row@ == mysql_row(schema@, access@, limit, views(indexes@)),
{
    let (access_type, key, rows, filtered) = mysql_explain_access(access, limit);
    let keys = mysql_possible_keys(schema, indexes);
    let mut cells: Vec<Option<String>> = Vec::new();
    cells.push(Some("1".to_string()));
    cells.push(Some("SIMPLE".to_string()));
    cells.push(Some(schema.table_name.clone()));
    cells.push(None);
    cells.push(Some(access_type));
    cells.push(keys);
    cells.push(key);
    cells.push(None);
    cells.push(None);
    cells.push(Some(decimal_text(rows as u64)));
    cells.push(Some("100.00".to_string()));
    if filtered {
        cells.push(Some("Using where".to_string()));
    } else {
        cells.push(None);
    }
    let row = TextRow { cells };
    assert(row@ =~= mysql_row(schema@, access@, limit, views(indexes@)));
    row
}

/// The description of a plan for clients of a kind; only reads have one.
pub open spec fn plan_explained(
    contents: Contents,
    mode: GatewayMode,
    plan: PlanModel,
    floats: Seq<FloatTextModel>,
) -> Result<PlanModel, Report> {
    match plan {
        PlanModel::SelectRows {
            database_name,
            schema_name,
            schema,
            projection,
            access,
            limit,
            offset,
        } => match indexes_listed(contents, schema.table_id) {
            Err(e) => Err(e),
            Ok(indexes) => if mode == GatewayMode::MySql {
                Ok(
                    PlanModel::ExplainRows {
                        rows: seq![mysql_row(schema, access, limit, indexes)],
                    },
                )
            } else {
                Ok(
                    PlanModel::PostgresExplainRows {
                        rows: rows_of_lines(explain_lines(schema, access, limit, offset, floats)),
                    },
                )
            },
        },
        _ => if mode == GatewayMode::MySql {
            Err(unsupported_report("EXPLAIN currently supports SELECT statements in MySQL mode"@))
        } else {
            Err(
                unsupported_report(
                    "EXPLAIN currently supports SELECT statements in PostgreSQL mode"@,
                ),
            )
        },
    }
}

impl<S: KvStore> GatewayServer<S> {
    /// The rows that describe a plan to MySQL clients.
    pub fn mysql_explain_rows(&mut self, plan: &QueryPlan) -> (result: Result<
        Vec<TextRow>,
        UserError,
    >)
        ensures
            final(self).reliable() == old(self).reliable(),
            final(self).same_sessions(old(self)),
            not_internal(result) || old(self).reliable() ==> only_opened(
                old(self).contents(),
                final(self).contents(),
            ) && (match result {
                Ok(rows) => Ok(PlanModel::ExplainRows { rows: views(rows@) }),
                Err(e) => Err(e@),
            }) == plan_explained(
                bootstrapped(old(self).contents()),
                GatewayMode::MySql,
                plan@,
                seq![],
            ),
    {
        match plan {
            QueryPlan::SelectRows {
                database_name,
                schema_name,
                schema,
                projection,
                access,
                limit,
                offset,
            } => {
                let indexes = match self.catalog.list_indexes_for_table(schema.table_id) {
                    Err(e) => {
                        return Err(e);
                    },
                    Ok(indexes) => indexes,
                };
                let mut rows: Vec<TextRow> = Vec::new();
                rows.push(describe_mysql_read(schema, access, *limit, &indexes));
                assert(views(rows@) =~= seq![
                    mysql_row(schema@, access@, *limit, views(indexes@)),
                ]);
                Ok(rows)
            },
            _ => Err(unsupported("EXPLAIN currently supports SELECT statements in MySQL mode")),
        }
    }

    /// The rows that describe a plan to PostgreSQL clients.
    pub fn postgres_explain_rows(&mut self, plan: &QueryPlan, floats: &Vec<FloatText>) -> (result:
        Result<Vec<TextRow>, UserError>)
        ensures
            final(self).reliable() == old(self).reliable(),
            final(self).same_sessions(old(self)),
            not_internal(result) || old(self).reliable() ==> only_opened(
                old(self).contents(),
                final(self).contents(),
            ) && (match result {
                Ok(rows) => Ok(PlanModel::PostgresExplainRows { rows: views(rows@) }),
                Err(e) => Err(e@),
            }) == plan_explained(
                bootstrapped(old(self).contents()),
                GatewayMode::Postgres,
                plan@,
                views(floats@),
            ),
    {
        match plan {
            QueryPlan::SelectRows {
                database_name,
                schema_name,
                schema,
                projection,
                access,
                limit,
                offset,
            } => {
                match self.catalog.list_indexes_for_table(schema.table_id) {
                    Err(e) => {
                        return Err(e);
                    },
                    Ok(_) => {},
                }
                Ok(describe_read(schema, access, *limit, *offset, floats))
            },
            _ => Err(
                unsupported("EXPLAIN currently supports SELECT statements in PostgreSQL mode"),
            ),
        }
    }

    /// The plan that describes another.
    pub fn explain_plan(&mut self, plan: &QueryPlan, floats: &Vec<FloatText>) -> (result: Result<
        QueryPlan,
        UserError,
    >)
        ensures
            final(self).reliable() == old(self).reliable(),
            final(self).same_sessions(old(self)),
            not_internal(result) || old(self).reliable() ==> only_opened(
                old(self).contents(),
                final(self).contents(),
            ) && seen(result) == plan_explained(
                bootstrapped(old(self).contents()),
                old(self).mode,
                plan@,
                views(floats@),
            ),
    {
        if self.mode == GatewayMode::MySql {
            match self.mysql_explain_rows(plan) {
                Err(e) => Err(e),
                Ok(rows) => Ok(QueryPlan::ExplainRows { rows }),
            }
        } else {
            match self.postgres_explain_rows(plan, floats) {
                Err(e) => Err(e),
                Ok(rows) => Ok(QueryPlan::PostgresExplainRows { rows }),
            }
        }
    }
}

} // verus!
