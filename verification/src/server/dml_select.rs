//! Plans for reads, updates and deletions: which rows are read, and by which way.
use vstd::prelude::*;

use crate::catalog::model::{
    bootstrapped, indexes_listed, law_bootstrap_is_stable, no_table, view_found,
};
use crate::catalog::types::{IndexCatalog, IndexModel, DEFAULT_SCHEMA_NAME};
use crate::error::{
    not_internal, report, unsupported, unsupported_report, user_error_text, Report, UserError,
};
use crate::lists::{kept_where, lemma_kept_where};
use crate::mem_store::{Contents, KvStore};
use crate::names::seen_text;
use crate::schema::{
    duplicate_all, duplicate_option, has_column, option_view, seen, seen_all, seen_option, views,
    Duplicate, TableModel, TableSchema,
};
use crate::server::conflict::{
    resolve_update_assignment, update_assignment, AssignmentAsked, AssignmentRequest,
};
use crate::server::ddl_columns::two_texts;
use crate::server::ddl_plan::{each_resolved, lemma_each_fails};
use crate::server::gateway::{
    is_misreferred, only_opened, table_required, table_resolved, GatewayServer,
};
use crate::server::plan::{
    option_views, AssignmentModel, Bound, BoundModel, PlanModel, QueryPlan, ReadAccess, ReadModel,
    ReturningModel, ReturningProjection, SqlExpr, UpdateAssignment, WriteAccess, WriteModel,
};
use crate::text::{begins, begins_with, chars_of, same_text, three_texts};
use crate::types::{ColumnValue, Datum};

verus! {

/// The value of an expression, as far as it has one.
#[derive(Debug)]
pub struct Evaluated {
    pub value: Result<ColumnValue, UserError>,
}

impl View for Evaluated {
    type V = Result<Datum, Report>;

    open spec fn view(&self) -> Result<Datum, Report> {
        seen(self.value)
    }
}

/// How many rows a statement asks for, and from where on.
#[derive(Debug)]
#[allow(inconsistent_fields)]
pub enum LimitClause {
    LimitOffset { limit: Option<Evaluated>, offset: Option<Evaluated>, limit_by: bool },
    OffsetCommaLimit { offset: Evaluated, limit: Evaluated },
}

/// What a [`LimitClause`] says.
#[allow(inconsistent_fields)]
pub enum LimitModel {
    LimitOffset {
        limit: Option<Result<Datum, Report>>,
        offset: Option<Result<Datum, Report>>,
        limit_by: bool,
    },
    OffsetCommaLimit { offset: Result<Datum, Report>, limit: Result<Datum, Report> },
}

impl View for LimitClause {
    type V = LimitModel;

    open spec fn view(&self) -> LimitModel {
        match *self {
            LimitClause::LimitOffset { limit, offset, limit_by } => LimitModel::LimitOffset {
                limit: option_view(limit),
                offset: option_view(offset),
                limit_by,
            },
            LimitClause::OffsetCommaLimit { offset, limit } => LimitModel::OffsetCommaLimit {
                offset: offset@,
                limit: limit@,
            },
        }
    }
}

/// What rows are ordered by.
#[derive(Debug)]
pub struct OrderExpr {
    pub column: Result<String, UserError>,
    pub ascending: Option<bool>,
    pub nulls_first: Option<bool>,
    pub with_fill: bool,
}

/// What a [`OrderExpr`] says.
pub struct OrderExprModel {
    pub column: Result<Seq<char>, Report>,
    pub ascending: Option<bool>,
    pub nulls_first: Option<bool>,
    pub with_fill: bool,
}

impl View for OrderExpr {
    type V = OrderExprModel;

    open spec fn view(&self) -> OrderExprModel {
        OrderExprModel {
            column: seen_text(self.column),
            ascending: self.ascending,
            nulls_first: self.nulls_first,
            with_fill: self.with_fill,
        }
    }
}

/// An order of rows: by expressions, or by every column.
#[derive(Debug)]
pub struct OrderBy {
    pub interpolate: bool,
    pub expressions: Option<Vec<OrderExpr>>,
}

/// What an [`OrderBy`] says.
pub struct OrderByModel {
    pub interpolate: bool,
    pub expressions: Option<Seq<OrderExprModel>>,
}

impl View for OrderBy {
    type V = OrderByModel;

    open spec fn view(&self) -> OrderByModel {
        OrderByModel {
            interpolate: self.interpolate,
            expressions: option_views(self.expressions),
        }
    }
}

/// What a query asks for besides columns, a table and a filter.
#[derive(Clone, Copy, Debug, PartialEq, Eq, Structural)]
pub struct SelectShape {
    pub distinct: bool,
    pub top: bool,
    pub into: bool,
    pub lateral_views: bool,
    pub grouped: bool,
    pub cluster_by: bool,
    pub distribute_by: bool,
    pub sort_by: bool,
    pub having: bool,
    pub named_window: bool,
    pub qualify: bool,
    pub projection_supported: bool,
}

/// A query, as far as the choice of its table depends on it.
#[derive(Debug)]
pub struct SelectRequest {
    pub with_clause: bool,
    pub fetch: bool,
    pub limit_clause: Option<LimitClause>,
    pub is_select: bool,
    pub shape: SelectShape,
    pub table: Result<String, UserError>,
    pub order_by: Option<OrderBy>,
    pub filter_supported: bool,
}

/// What a [`SelectRequest`] says.
pub struct SelectAsked {
    pub with_clause: bool,
    pub fetch: bool,
    pub limit_clause: Option<LimitModel>,
    pub is_select: bool,
    pub shape: SelectShape,
    pub table: Result<Seq<char>, Report>,
    pub order_by: Option<OrderByModel>,
    pub filter_supported: bool,
}

impl View for SelectRequest {
    type V = SelectAsked;

    open spec fn view(&self) -> SelectAsked {
        SelectAsked {
            with_clause: self.with_clause,
            fetch: self.fetch,
            limit_clause: option_view(self.limit_clause),
            is_select: self.is_select,
            shape: self.shape,
            table: seen_text(self.table),
            order_by: option_view(self.order_by),
            filter_supported: self.filter_supported,
        }
    }
}

/// The table of a query, and the window of its rows.
#[derive(Debug)]
pub struct SelectTarget {
    pub schema_name: String,
    pub schema: TableSchema,
    pub limit: Option<usize>,
    pub offset: usize,
}

/// What a [`SelectTarget`] says.
pub struct SelectTargetModel {
    pub schema_name: Seq<char>,
    pub schema: TableModel,
    pub limit: Option<usize>,
    pub offset: usize,
}

impl View for SelectTarget {
    type V = SelectTargetModel;

    open spec fn view(&self) -> SelectTargetModel {
        SelectTargetModel {
            schema_name: self.schema_name@,
            schema: self.schema@,
            limit: self.limit,
            offset: self.offset,
        }
    }
}

/// An update or a deletion, as far as the choice of its table depends on it.
#[derive(Debug)]
pub struct WriteRequest {
    pub table: Result<String, UserError>,
    pub filter_supported: bool,
    pub order_by: Vec<OrderExpr>,
    pub limit: Option<Evaluated>,
}

/// What a [`WriteRequest`] says.
pub struct WriteAsked {
    pub table: Result<Seq<char>, Report>,
    pub filter_supported: bool,
    pub order_by: Seq<OrderExprModel>,
    pub limit: Option<Result<Datum, Report>>,
}

impl View for WriteRequest {
    type V = WriteAsked;

    open spec fn view(&self) -> WriteAsked {
        WriteAsked {
            table: seen_text(self.table),
            filter_supported: self.filter_supported,
            order_by: views(self.order_by@),
            limit: option_view(self.limit),
        }
    }
}

/// The table of an update or a deletion.
#[derive(Debug)]
pub struct WriteTarget {
    pub schema_name: String,
    pub schema: TableSchema,
    pub limit: Option<usize>,
    pub order_by_primary_key: bool,
}

/// What a [`WriteTarget`] says.
pub struct WriteTargetModel {
    pub schema_name: Seq<char>,
    pub schema: TableModel,
    pub limit: Option<usize>,
    pub order_by_primary_key: bool,
}

impl View for WriteTarget {
    type V = WriteTargetModel;

    open spec fn view(&self) -> WriteTargetModel {
        WriteTargetModel {
            schema_name: self.schema_name@,
            schema: self.schema@,
            limit: self.limit,
            order_by_primary_key: self.order_by_primary_key,
        }
    }
}

/// The bounds on the values of a column.
#[derive(Debug)]
pub struct RangeBounds {
    pub lower: Option<Bound>,
    pub upper: Option<Bound>,
}

/// What a [`RangeBounds`] says.
pub struct RangeModel {
    pub lower: Option<BoundModel>,
    pub upper: Option<BoundModel>,
}

impl View for RangeBounds {
    type V = RangeModel;

    open spec fn view(&self) -> RangeModel {
        RangeModel {
            lower: option_view(self.lower),
            upper: option_view(self.upper),
        }
    }
}

/// A column and a value of it.
#[derive(Debug)]
pub struct ColumnKey {
    pub column_name: String,
    pub key: ColumnValue,
}

/// What a [`ColumnKey`] says.
pub struct ColumnKeyModel {
    pub column_name: Seq<char>,
    pub key: Datum,
}

impl View for ColumnKey {
    type V = ColumnKeyModel;

    open spec fn view(&self) -> ColumnKeyModel {
        ColumnKeyModel {
            column_name: self.column_name@,
            key: self.key@,
        }
    }
}

/// Some values of the primary key.
#[derive(Debug)]
pub struct KeyList {
    pub keys: Vec<ColumnValue>,
}

impl View for KeyList {
    type V = Seq<Datum>;

    open spec fn view(&self) -> Seq<Datum> {
        views(self.keys@)
    }
}

/// The bounds that a filter puts on a column, if any.
#[derive(Debug)]
pub struct RangeFact {
    pub bounds: Result<Option<RangeBounds>, UserError>,
}

impl View for RangeFact {
    type V = Result<Option<RangeModel>, Report>;

    open spec fn view(&self) -> Result<Option<RangeModel>, Report> {
        seen_option(self.bounds)
    }
}

/// What a filter says of the columns of a table.
#[derive(Debug)]
pub struct FilterFacts {
    pub primary_key: Result<Option<ColumnValue>, UserError>,
    pub key_list: Result<Option<KeyList>, UserError>,
    pub key_range: Result<Option<RangeBounds>, UserError>,
    pub equality: Result<Option<ColumnKey>, UserError>,
    pub ranges: Vec<RangeFact>,
}

/// What a [`FilterFacts`] says.
pub struct FactsModel {
    pub primary_key: Result<Option<Datum>, Report>,
    pub key_list: Result<Option<Seq<Datum>>, Report>,
    pub key_range: Result<Option<RangeModel>, Report>,
    pub equality: Result<Option<ColumnKeyModel>, Report>,
    pub ranges: Seq<Result<Option<RangeModel>, Report>>,
}

impl View for FilterFacts {
    type V = FactsModel;

    open spec fn view(&self) -> FactsModel {
        FactsModel {
            primary_key: seen_option(self.primary_key),
            key_list: seen_option(self.key_list),
            key_range: seen_option(self.key_range),
            equality: seen_option(self.equality),
            ranges: views(self.ranges@),
        }
    }
}

/// The shape of a filter, as far as it may use an index.
#[derive(Debug)]
pub enum FilterShape {
    /// A column is compared with a value.
    Equality { left: Result<String, UserError> },
    /// A column is looked for in a list.
    InList { target: Result<String, UserError>, negated: bool },
    /// A filter in brackets.
    Nested { inner: Box<FilterShape> },
    Other,
}

/// A value of a list, with the key that it is stored under.
#[derive(Debug)]
pub struct ListedValue {
    pub value: Result<ColumnValue, UserError>,
    pub encoded: Vec<u8>,
}

/// What a [`ListedValue`] says.
pub struct ListedModel {
    pub value: Result<Datum, Report>,
    pub encoded: Seq<u8>,
}

impl View for ListedValue {
    type V = ListedModel;

    open spec fn view(&self) -> ListedModel {
        ListedModel {
            value: seen(self.value),
            encoded: self.encoded@,
        }
    }
}

/// The number of rows that an expression stands for.
pub open spec fn window_number(value: Result<Datum, Report>, clause: Seq<char>) -> Result<
    usize,
    Report,
> {
    match value {
        Err(e) => Err(e),
        Ok(datum) => {
            let number = match datum {
                Datum::Int16(n) => Some(n as int),
                Datum::Int32(n) => Some(n as int),
                Datum::Int64(n) => Some(n as int),
                _ => None,
            };
            match number {
                None => Err(
                    unsupported_report(clause + " expression is not supported in fast path"@),
                ),
                Some(n) => if n < 0 {
                    Err(report("2201X"@, clause + " must not be negative"@))
                } else {
                    Ok(n as usize)
                },
            }
        },
    }
}

/// The number of rows that an expression stands for.
pub fn fast_path_usize_expr(expr: &Evaluated, clause: &str) -> (result: Result<usize, UserError>)
    ensures
        crate::error::outcome(result) == window_number(expr@, clause@),
{
    let value = match &expr.value {
        Err(e) => {
            return Err(e.duplicate());
        },
        Ok(value) => value,
    };
    let number: i64 = match value {
        ColumnValue::Int16(n) => *n as i64,
        ColumnValue::Int32(n) => *n as i64,
        ColumnValue::Int64(n) => *n,
        _ => {
            let message = two_texts(clause, " expression is not supported in fast path");
            return Err(unsupported(message.as_str()));
        },
    };
    if number < 0 {
        return Err(user_error_text("2201X", two_texts(clause, " must not be negative")));
    }
    Ok(number as usize)
}

/// The window that a query asks for.
pub open spec fn window_of(clause: Option<LimitModel>) -> Result<(Option<usize>, usize), Report> {
    match clause {
        None => Ok((None, 0)),
        Some(LimitModel::LimitOffset { limit, offset, limit_by }) => if limit_by {
            Err(unsupported_report("LIMIT BY is not supported in fast path"@))
        } else {
            match optional_number(limit, "LIMIT"@) {
                Err(e) => Err(e),
                Ok(rows) => match optional_number(offset, "OFFSET"@) {
                    Err(e) => Err(e),
                    Ok(None) => Ok((rows, 0)),
                    Ok(Some(skipped)) => Ok((rows, skipped)),
                },
            }
        },
        Some(LimitModel::OffsetCommaLimit { offset, limit }) => match window_number(
            limit,
            "LIMIT"@,
        ) {
            Err(e) => Err(e),
            Ok(rows) => match window_number(offset, "OFFSET"@) {
                Err(e) => Err(e),
                Ok(skipped) => Ok((Some(rows), skipped)),
            },
        },
    }
}

/// The number of rows that an expression, where there is one, stands for.
pub open spec fn optional_number(value: Option<Result<Datum, Report>>, clause: Seq<char>) -> Result<
    Option<usize>,
    Report,
> {
    match value {
        None => Ok(None),
        Some(expr) => match window_number(expr, clause) {
            Err(e) => Err(e),
            Ok(n) => Ok(Some(n)),
        },
    }
}

fn read_optional_number(expr: &Option<Evaluated>, clause: &str) -> (result: Result<
    Option<usize>,
    UserError,
>)
    ensures
        crate::error::outcome(result) == optional_number(option_view(*expr), clause@),
{
    match expr {
        None => Ok(None),
        Some(expr) => match fast_path_usize_expr(expr, clause) {
            Err(e) => Err(e),
            Ok(n) => Ok(Some(n)),
        },
    }
}

/// The window that a query asks for.
pub fn fast_path_limit_offset(limit_clause: &Option<LimitClause>) -> (result: Result<
    (Option<usize>, usize),
    UserError,
>)
    ensures
        crate::error::outcome(result) == window_of(option_view(*limit_clause)),
{
    match limit_clause {
        None => Ok((None, 0)),
        Some(LimitClause::LimitOffset { limit, offset, limit_by }) => {
            if *limit_by {
                return Err(unsupported("LIMIT BY is not supported in fast path"));
            }
            let rows = match read_optional_number(limit, "LIMIT") {
                Err(e) => {
                    return Err(e);
                },
                Ok(rows) => rows,
            };
            match read_optional_number(offset, "OFFSET") {
                Err(e) => Err(e),
                Ok(None) => Ok((rows, 0)),
                Ok(Some(skipped)) => Ok((rows, skipped)),
            }
        },
        Some(LimitClause::OffsetCommaLimit { offset, limit }) => {
            let rows: usize = match fast_path_usize_expr(limit, "LIMIT") {
                Err(e) => {
                    return Err(e);
                },
                Ok(rows) => rows,
            };
            match fast_path_usize_expr(offset, "OFFSET") {
                Err(e) => Err(e),
                Ok(skipped) => Ok((Some(rows), skipped)),
            }
        },
    }
}

/// Why most orders are left to the general engine.
pub const ORDER_REFUSAL: &'static str = "SELECT ORDER BY is not supported in fast path and should use DataFusion";

/// Whether an order is that of the rows themselves: ascending by the primary key.
pub open spec fn order_verdict(order_by: Option<OrderByModel>, table: TableModel) -> Result<
    (),
    Report,
> {
    match order_by {
        None => Ok(()),
        Some(order) => match order.expressions {
            None => Err(unsupported_report(ORDER_REFUSAL@)),
            Some(exprs) => if order.interpolate || exprs.len() != 1 || exprs[0].with_fill {
                Err(unsupported_report(ORDER_REFUSAL@))
            } else {
                match exprs[0].column {
                    Err(e) => Err(e),
                    Ok(column) => if !has_column(table.columns, column) {
                        Err(report("42703"@, "column '"@ + column + "' does not exist"@))
                    } else if column == table.primary_key && exprs[0].ascending != Some(false)
                        && exprs[0].nulls_first is None {
                        Ok(())
                    } else {
                        Err(unsupported_report(ORDER_REFUSAL@))
                    },
                }
            },
        },
    }
}

fn is_descending(expr: &OrderExpr) -> (answer: bool)
    ensures
        answer == (expr.ascending == Some(false)),
{
    match expr.ascending {
        Some(ascending) => !ascending,
        None => false,
    }
}

/// Whether an order is that of the rows themselves.
pub fn fast_path_order_by(order_by: &Option<OrderBy>, schema: &TableSchema) -> (result: Result<
    (),
    UserError,
>)
    ensures
        crate::error::outcome(result) == order_verdict(option_view(*order_by), schema@),
{
    let order = match order_by {
        None => {
            return Ok(());
        },
        Some(order) => order,
    };
    let exprs = match &order.expressions {
        None => {
            return Err(unsupported(ORDER_REFUSAL));
        },
        Some(exprs) => exprs,
    };
    if order.interpolate || exprs.len() != 1 {
        return Err(unsupported(ORDER_REFUSAL));
    }
    let expr = &exprs[0];
    assert(views(exprs@)[0] == expr@);
    if expr.with_fill {
        return Err(unsupported(ORDER_REFUSAL));
    }
    let column = match &expr.column {
        Err(e) => {
            return Err(e.duplicate());
        },
        Ok(column) => column,
    };
    if schema.find_column(column.as_str()).is_none() {
        return Err(
            user_error_text("42703", three_texts("column '", column.as_str(), "' does not exist")),
        );
    }
    if same_text(column.as_str(), schema.primary_key.as_str()) && !is_descending(expr)
        && expr.nulls_first.is_none() {
        return Ok(());
    }
    Err(unsupported(ORDER_REFUSAL))
}

/// Whether rows are written in the order of the primary key, where an order is asked for.
pub open spec fn write_order(order_by: Seq<OrderExprModel>, table: TableModel) -> Result<
    bool,
    Report,
> {
    if order_by.len() == 0 {
        Ok(false)
    } else if order_by.len() != 1 {
        Err(
            unsupported_report(
                "UPDATE/DELETE ORDER BY fast path supports only the primary key"@,
            ),
        )
    } else {
        match order_by[0].column {
            Err(e) => Err(e),
            Ok(column) => if column == table.primary_key && order_by[0].ascending != Some(false)
                && order_by[0].nulls_first is None {
                Ok(true)
            } else {
                Err(
                    unsupported_report(
                        "UPDATE/DELETE ORDER BY fast path supports only primary key ascending"@,
                    ),
                )
            },
        }
    }
}

/// Whether rows are written in the order of the primary key.
pub fn fast_path_write_order_by(order_by: &Vec<OrderExpr>, schema: &TableSchema) -> (result: Result<
    bool,
    UserError,
>)
    ensures
        crate::error::outcome(result) == write_order(views(order_by@), schema@),
{
    if order_by.len() == 0 {
        return Ok(false);
    }
    if order_by.len() != 1 {
        return Err(unsupported("UPDATE/DELETE ORDER BY fast path supports only the primary key"));
    }
    let expr = &order_by[0];
    assert(views(order_by@)[0] == expr@);
    let column = match &expr.column {
        Err(e) => {
            return Err(e.duplicate());
        },
        Ok(column) => column,
    };
    if same_text(column.as_str(), schema.primary_key.as_str()) && !is_descending(expr)
        && expr.nulls_first.is_none() {
        return Ok(true);
    }
    Err(unsupported("UPDATE/DELETE ORDER BY fast path supports only primary key ascending"))
}

impl SelectShape {
    /// Whether a query asks for nothing but columns, a table and a filter.
    pub open spec fn plain(self) -> bool {
        !self.distinct && !self.top && !self.into && !self.lateral_views && !self.grouped
            && !self.cluster_by && !self.distribute_by && !self.sort_by && !self.having
            && !self.named_window && !self.qualify && self.projection_supported
    }

    /// Whether a query asks for nothing but columns, a table and a filter.
    pub fn is_plain(&self) -> (answer: bool)
        ensures
            answer == self.plain(),
    {
        !self.distinct && !self.top && !self.into && !self.lateral_views && !self.grouped
            && !self.cluster_by && !self.distribute_by && !self.sort_by && !self.having
            && !self.named_window && !self.qualify && self.projection_supported
    }
}

/// Whether some schema has a view of a name.
pub open spec fn view_searched(
    contents: Contents,
    database_name: Seq<char>,
    schemas: Seq<Seq<char>>,
    name: Seq<char>,
) -> Result<bool, Report>
    decreases schemas.len(),
{
    if schemas.len() == 0 {
        Ok(false)
    } else {
        match view_found(contents, database_name, schemas[0], name) {
            Err(e) => Err(e),
            Ok(Some(view)) => Ok(true),
            Ok(None) => view_searched(contents, database_name, schemas.skip(1), name),
        }
    }
}

/// Why some queries are left to the general engine.
pub const SHAPE_REFUSAL: &'static str = "SELECT shape is not supported in fast path and should use DataFusion";

/// Whether a query is refused for how it is written alone.
pub open spec fn is_refused_unseen(asked: SelectAsked) -> bool {
    asked.with_clause || asked.fetch || window_of(asked.limit_clause) is Err || !asked.is_select
        || !asked.shape.plain() || match asked.table {
        Err(_) => true,
        Ok(name) => begins(name, "pg_catalog."@) || begins(name, "information_schema."@)
            || is_misreferred(name),
    }
}

/// The table of a query, and the window of its rows.
pub open spec fn select_begun(
    contents: Contents,
    database_name: Seq<char>,
    search_path: Seq<Seq<char>>,
    asked: SelectAsked,
) -> Result<SelectTargetModel, Report> {
    if asked.with_clause || asked.fetch {
        Err(unsupported_report(SHAPE_REFUSAL@))
    } else {
        match window_of(asked.limit_clause) {
            Err(e) => Err(e),
            Ok((limit, offset)) => if !asked.is_select {
                Err(unsupported_report("only SELECT queries are supported"@))
            } else if !asked.shape.plain() {
                Err(unsupported_report(SHAPE_REFUSAL@))
            } else {
                match asked.table {
                    Err(e) => Err(e),
                    Ok(name) => if begins(name, "pg_catalog."@) || begins(
                        name,
                        "information_schema."@,
                    ) {
                        Err(
                            unsupported_report(
                                "catalog SELECT should use the DataFusion slow path"@,
                            ),
                        )
                    } else {
                        match table_resolved(contents, database_name, search_path, name) {
                            Err(e) => Err(e),
                            Ok((schema_name, None)) => match view_searched(
                                contents,
                                database_name,
                                search_path + seq![schema_name, DEFAULT_SCHEMA_NAME@],
                                name,
                            ) {
                                Err(e) => Err(e),
                                Ok(true) => Err(
                                    unsupported_report(
                                        "SELECT from a view should use the DataFusion slow path"@,
                                    ),
                                ),
                                Ok(false) => Err(no_table(name)),
                            },
                            Ok((schema_name, Some(table))) => match order_verdict(
                                asked.order_by,
                                table,
                            ) {
                                Err(e) => Err(e),
                                Ok(_) => if !asked.filter_supported {
                                    Err(
                                        unsupported_report(
                                            "SELECT filter is not supported in fast path and should use DataFusion"@,
                                        ),
                                    )
                                } else {
                                    Ok(
                                        SelectTargetModel {
                                            schema_name,
                                            schema: table,
                                            limit,
                                            offset,
                                        },
                                    )
                                },
                            },
                        }
                    },
                }
            },
        }
    }
}

/// The column that a filter compares with a value, where the table has it.
pub open spec fn equality_column(shape: FilterShape, table: TableModel) -> Result<
    Option<Seq<char>>,
    Report,
>
    decreases shape,
{
    match shape {
        FilterShape::Equality { left } => match left {
            Err(e) => Err(e@),
            Ok(name) => if has_column(table.columns, name@) {
                Ok(Some(name@))
            } else {
                Ok(None)
            },
        },
        FilterShape::Nested { inner } => equality_column(*inner, table),
        _ => Ok(None),
    }
}

/// The column that a filter compares with a value.
pub fn find_equality_column(shape: &FilterShape, schema: &TableSchema) -> (result: Result<
    Option<String>,
    UserError,
>)
    ensures
        seen_option(result) == equality_column(*shape, schema@),
    decreases shape,
{
    match shape {
        FilterShape::Equality { left } => match left {
            Err(e) => Err(e.duplicate()),
            Ok(name) => {
                if schema.find_column(name.as_str()).is_none() {
                    return Ok(None);
                }
                Ok(Some(name.clone()))
            },
        },
        FilterShape::Nested { inner } => find_equality_column(inner, schema),
        _ => Ok(None),
    }
}

/// The column that a filter compares with a value, and the value.
pub open spec fn equality_filter(
    shape: Option<FilterShape>,
    table: TableModel,
    value: Result<Datum, Report>,
) -> Result<Option<ColumnKeyModel>, Report> {
    match shape {
        None => Ok(None),
        Some(shape) => match equality_column(shape, table) {
            Err(e) => Err(e),
            Ok(None) => Ok(None),
            Ok(Some(column_name)) => match value {
                Err(e) => Err(e),
                Ok(key) => Ok(Some(ColumnKeyModel { column_name, key })),
            },
        },
    }
}

/// The column that a filter compares with a value, and the value, which was read by the type of
/// that column.
pub fn extract_indexable_eq_filter(
    shape: &Option<FilterShape>,
    schema: &TableSchema,
    value: Evaluated,
) -> (result: Result<Option<ColumnKey>, UserError>)
    ensures
        seen_option(result) == equality_filter(*shape, schema@, value@),
{
    match shape {
        None => Ok(None),
        Some(shape) => match find_equality_column(shape, schema) {
            Err(e) => Err(e),
            Ok(None) => Ok(None),
            Ok(Some(column_name)) => match value.value {
                Err(e) => Err(e),
                Ok(key) => Ok(Some(ColumnKey { column_name, key })),
            },
        },
    }
}

/// Whether a filter looks for the primary key in a list.
pub open spec fn lists_keys(shape: FilterShape, table: TableModel) -> Result<bool, Report>
    decreases shape,
{
    match shape {
        FilterShape::InList { target, negated } => if negated {
            Ok(false)
        } else {
            match target {
                Err(e) => Err(e@),
                Ok(name) => Ok(name@ == table.primary_key && has_column(table.columns, name@)),
            }
        },
        FilterShape::Nested { inner } => lists_keys(*inner, table),
        _ => Ok(false),
    }
}

/// Whether a filter looks for the primary key in a list.
pub fn lists_primary_keys(shape: &FilterShape, schema: &TableSchema) -> (result: Result<
    bool,
    UserError,
>)
    ensures
        crate::error::outcome(result) == lists_keys(*shape, schema@),
    decreases shape,
{
    match shape {
        FilterShape::InList { target, negated } => {
            if *negated {
                return Ok(false);
            }
            match target {
                Err(e) => Err(e.duplicate()),
                Ok(name) => Ok(
                    same_text(name.as_str(), schema.primary_key.as_str()) && schema.find_column(
                        name.as_str(),
                    ).is_some(),
                ),
            }
        },
        FilterShape::Nested { inner } => lists_primary_keys(inner, schema),
        _ => Ok(false),
    }
}

/// The values of a list that are not null, each once by the key that it is stored under, with
/// these keys.
pub open spec fn listed_keys(values: Seq<ListedModel>) -> Result<(Seq<Datum>, Seq<Seq<u8>>), Report>
    decreases values.len(),
{
    if values.len() == 0 {
        Ok((seq![], seq![]))
    } else {
        match listed_keys(values.drop_last()) {
            Err(e) => Err(e),
            Ok((keys, known)) => match values.last().value {
                Err(e) => Err(e),
                Ok(value) => if value == Datum::Null || known.contains(values.last().encoded) {
                    Ok((keys, known))
                } else {
                    Ok((keys.push(value), known.push(values.last().encoded)))
                },
            },
        }
    }
}

proof fn lemma_listed_fails(values: Seq<ListedModel>, n: int)
    requires
        0 <= n <= values.len(),
        listed_keys(values.take(n)) is Err,
    ensures
        listed_keys(values) == listed_keys(values.take(n)),
    decreases values.len() - n,
{
    if n == values.len() {
        assert(values.take(n) =~= values);
    } else {
        assert(values.take(n + 1).drop_last() =~= values.take(n));
        lemma_listed_fails(values, n + 1);
    }
}

/// No null is looked for, and no key twice.
pub proof fn law_listed_keys_differ(values: Seq<ListedModel>)
    ensures
        listed_keys(values) matches Ok(found) ==> {
            &&& found.0.len() == found.1.len()
            &&& found.1.no_duplicates()
            &&& !found.0.contains(Datum::Null)
        },
    decreases values.len(),
{
    if values.len() > 0 {
        law_listed_keys_differ(values.drop_last());
        match listed_keys(values.drop_last()) {
            Ok(found) => {
                assert(!found.0.contains(Datum::Null));
                if listed_keys(values) is Ok {
                    let next = listed_keys(values)->Ok_0;
                    assert forall|i: int| 0 <= i < next.0.len() implies next.0[i]
                        != Datum::Null by {
                        if i < found.0.len() {
                            assert(next.0[i] == found.0[i]);
                        }
                    }
                }
            },
            Err(_) => {},
        }
    }
}

fn same_bytes(a: &Vec<u8>, b: &Vec<u8>) -> (same: bool)
    ensures
        same == (a@ == b@),
{
    if a.len() != b.len() {
        return false;
    }
    let mut i: usize = 0;
    while i < a.len()
        invariant
            i <= a@.len(),
            a@.len() == b@.len(),
            forall|k: int| 0 <= k < i ==> a@[k] == b@[k],
        decreases a@.len() - i,
    {
        if a[i] != b[i] {
            return false;
        }
        i += 1;
    }
    assert(a@ =~= b@);
    true
}

/// Encoded keys, as sequences of bytes.
pub open spec fn byte_seqs(keys: Seq<Vec<u8>>) -> Seq<Seq<u8>> {
    keys.map_values(|key: Vec<u8>| key@)
}

fn holds_bytes(keys: &Vec<Vec<u8>>, key: &Vec<u8>) -> (answer: bool)
    ensures
        answer == byte_seqs(keys@).contains(key@),
{
    let ghost all = byte_seqs(keys@);
    let mut i: usize = 0;
    while i < keys.len()
        invariant
            i <= keys@.len(),
            all == byte_seqs(keys@),
            forall|k: int| 0 <= k < i ==> all[k] != key@,
        decreases keys@.len() - i,
    {
        if same_bytes(&keys[i], key) {
            assert(all[i as int] == key@);
            return true;
        }
        i += 1;
    }
    false
}

/// The keys of a list that a filter looks for the primary key in.
pub open spec fn key_list_filter(
    shape: Option<FilterShape>,
    table: TableModel,
    values: Seq<ListedModel>,
) -> Result<Option<Seq<Datum>>, Report> {
    match shape {
        None => Ok(None),
        Some(shape) => match lists_keys(shape, table) {
            Err(e) => Err(e),
            Ok(false) => Ok(None),
            Ok(true) => match listed_keys(values) {
                Err(e) => Err(e),
                Ok((keys, known)) => Ok(Some(keys)),
            },
        },
    }
}

/// The keys of a list that a filter looks for the primary key in.
pub fn extract_primary_key_in_filter(
    shape: &Option<FilterShape>,
    schema: &TableSchema,
    values: &Vec<ListedValue>,
) -> (result: Result<Option<KeyList>, UserError>)
    ensures
        seen_option(result) == key_list_filter(*shape, schema@, views(values@)),
{
    let inner = match shape {
        None => {
            return Ok(None);
        },
        Some(inner) => inner,
    };
    match lists_primary_keys(inner, schema) {
        Err(e) => {
            return Err(e);
        },
        Ok(false) => {
            return Ok(None);
        },
        Ok(true) => {},
    }
    let ghost all = views(values@);
    let mut keys: Vec<ColumnValue> = Vec::new();
    let mut known: Vec<Vec<u8>> = Vec::new();
    let mut i: usize = 0;
    assert(all.take(0) =~= Seq::<ListedModel>::empty());
    assert(views(keys@) =~= Seq::<Datum>::empty());
    assert(byte_seqs(known@) =~= Seq::<Seq<u8>>::empty());
    while i < values.len()
        invariant
            i <= values@.len(),
            all == views(values@),
            *shape == Some(*inner),
            lists_keys(*inner, schema@) == Ok::<bool, Report>(true),
            listed_keys(all.take(i as int)) == Ok::<(Seq<Datum>, Seq<Seq<u8>>), Report>(
                (views(keys@), byte_seqs(known@)),
            ),
        decreases values@.len() - i,
    {
        assert(all.take(i + 1).drop_last() =~= all.take(i as int));
        assert(all.take(i + 1).last() == values@[i as int]@);
        match &values[i].value {
            Err(e) => {
                proof {
                    lemma_listed_fails(all, i + 1);
                }
                return Err(e.duplicate());
            },
            Ok(value) => {
                if !value.is_null() && !holds_bytes(&known, &values[i].encoded) {
                    let ghost before = views(keys@);
                    let ghost added = value@;
                    keys.push(value.copied());
                    assert(views(keys@) =~= before.push(added));
                    let ghost before = byte_seqs(known@);
                    let encoded = values[i].encoded.clone();
                    known.push(encoded);
                    assert(byte_seqs(known@) =~= before.push(values@[i as int].encoded@));
                }
            },
        }
        i += 1;
    }
    assert(all.take(i as int) =~= all);
    Ok(Some(KeyList { keys }))
}

/// Whether an index may be scanned for a range of its column: it has one column, which the table
/// has, and which is not the primary key.
pub open spec fn is_range_index(table: TableModel, index: IndexModel) -> bool {
    index.column_names.len() == 1 && index.column_names[0] != table.primary_key && has_column(
        table.columns,
        index.column_names[0],
    )
}

/// The indexes that may be scanned for a range of their column.
pub open spec fn range_indexes(table: TableModel, indexes: Seq<IndexModel>) -> Seq<IndexModel> {
    kept_where(indexes, |index: IndexModel| is_range_index(table, index))
}

/// The indexes that may be scanned for a range of their column.
pub fn range_candidates(schema: &TableSchema, indexes: &Vec<IndexCatalog>) -> (found: Vec<
    IndexCatalog,
>)
    ensures
        views(found@) == range_indexes(schema@, views(indexes@)),
{
    let ghost all = views(indexes@);
    let ghost keep = |index: IndexModel| is_range_index(schema@, index);
    let mut found: Vec<IndexCatalog> = Vec::new();
    let mut i: usize = 0;
    assert(all.take(0) =~= Seq::<IndexModel>::empty());
    assert(views(found@) =~= Seq::<IndexModel>::empty());
    while i < indexes.len()
        invariant
            i <= indexes@.len(),
            all == views(indexes@),
            keep == (|index: IndexModel| is_range_index(schema@, index)),
            views(found@) == kept_where(all.take(i as int), keep),
        decreases indexes@.len() - i,
    {
        assert(all.take(i + 1).drop_last() =~= all.take(i as int));
        assert(all.take(i + 1).last() == indexes@[i as int]@);
        let index = &indexes[i];
        if index.column_names.len() == 1 {
            assert(index@.column_names[0] == index.column_names@[0]@);
            if !same_text(index.column_names[0].as_str(), schema.primary_key.as_str())
                && schema.find_column(index.column_names[0].as_str()).is_some() {
                let ghost before = views(found@);
                let copy = index.duplicate();
                let ghost added = copy@;
                found.push(copy);
                assert(views(found@) =~= before.push(added));
            }
        }
        i += 1;
    }
    assert(all.take(i as int) =~= all);
    found
}

/// The first of some indexes whose column a filter bounds, with the bounds.
pub open spec fn first_range(
    indexes: Seq<IndexModel>,
    ranges: Seq<Result<Option<RangeModel>, Report>>,
) -> Result<Option<(IndexModel, RangeModel)>, Report>
    decreases indexes.len(),
{
    if indexes.len() == 0 || ranges.len() == 0 {
        Ok(None)
    } else {
        match ranges[0] {
            Err(e) => Err(e),
            Ok(Some(bounds)) => Ok(Some((indexes[0], bounds))),
            Ok(None) => first_range(indexes.skip(1), ranges.skip(1)),
        }
    }
}

fn find_first_range(indexes: &Vec<IndexCatalog>, ranges: &Vec<RangeFact>) -> (result: Result<
    Option<(IndexCatalog, RangeBounds)>,
    UserError,
>)
    ensures
        match result {
            Err(e) => first_range(views(indexes@), views(ranges@)) == Err::<
                Option<(IndexModel, RangeModel)>,
                Report,
            >(e@),
            Ok(None) => first_range(views(indexes@), views(ranges@)) == Ok::<
                Option<(IndexModel, RangeModel)>,
                Report,
            >(None),
            Ok(Some(found)) => first_range(views(indexes@), views(ranges@)) == Ok::<
                Option<(IndexModel, RangeModel)>,
                Report,
            >(Some((found.0@, found.1@))),
        },
{
    let ghost all = views(indexes@);
    let ghost facts = views(ranges@);
    let mut i: usize = 0;
    assert(all.skip(0) =~= all);
    assert(facts.skip(0) =~= facts);
    while i < indexes.len() && i < ranges.len()
        invariant
            i <= indexes@.len(),
            i <= ranges@.len(),
            all == views(indexes@),
            facts == views(ranges@),
            first_range(all, facts) == first_range(all.skip(i as int), facts.skip(i as int)),
        decreases indexes@.len() - i,
    {
        assert(all.skip(i as int)[0] == indexes@[i as int]@);
        assert(all.skip(i as int).skip(1) =~= all.skip(i + 1));
        assert(facts.skip(i as int)[0] == ranges@[i as int]@);
        assert(facts.skip(i as int).skip(1) =~= facts.skip(i + 1));
        match &ranges[i].bounds {
            Err(e) => {
                return Err(e.duplicate());
            },
            Ok(Some(bounds)) => {
                let copy = RangeBounds {
                    lower: duplicate_option(&bounds.lower),
                    upper: duplicate_option(&bounds.upper),
                };
                return Ok(Some((indexes[i].duplicate(), copy)));
            },
            Ok(None) => {},
        }
        i += 1;
    }
    Ok(None)
}

/// The first index on just one given column.
pub open spec fn index_on(indexes: Seq<IndexModel>, column: Seq<char>) -> Option<IndexModel>
    decreases indexes.len(),
{
    if indexes.len() == 0 {
        None
    } else if indexes[0].column_names == seq![column] {
        Some(indexes[0])
    } else {
        index_on(indexes.skip(1), column)
    }
}

fn find_index_on(indexes: &Vec<IndexCatalog>, column: &str) -> (found: Option<IndexCatalog>)
    ensures
        option_view(found) == index_on(views(indexes@), column@),
{
    let ghost all = views(indexes@);
    let mut i: usize = 0;
    assert(all.skip(0) =~= all);
    while i < indexes.len()
        invariant
            i <= indexes@.len(),
            all == views(indexes@),
            index_on(all, column@) == index_on(all.skip(i as int), column@),
        decreases indexes@.len() - i,
    {
        assert(all.skip(i as int)[0] == indexes@[i as int]@);
        assert(all.skip(i as int).skip(1) =~= all.skip(i + 1));
        let names = &indexes[i].column_names;
        if names.len() == 1 && same_text(names[0].as_str(), column) {
            assert(views(names@) =~= seq![column@]);
            return Some(indexes[i].duplicate());
        }
        proof {
            let one = seq![column@];
            if views(names@) == one {
                assert(names@.len() == one.len());
                assert(views(names@)[0] == one[0]);
                assert(names@[0]@ == column@);
            }
        }
        i += 1;
    }
    None
}

/// The way to the rows that a filter asks for, by an index: on the column that it compares with
/// a value, or else on one that it bounds.
pub enum IndexWay {
    Lookup { index_name: Seq<char>, column_name: Seq<char>, key: Datum },
    Range { index_name: Seq<char>, column_name: Seq<char>, bounds: RangeModel },
    Scan,
}

/// The way to the rows that a filter asks for, by an index.
pub open spec fn index_way(
    contents: Contents,
    table: TableModel,
    equality: Result<Option<ColumnKeyModel>, Report>,
    ranges: Seq<Result<Option<RangeModel>, Report>>,
) -> Result<IndexWay, Report> {
    match equality {
        Err(e) => Err(e),
        Ok(compared) => match indexes_listed(contents, table.table_id) {
            Err(e) => Err(e),
            Ok(indexes) => {
                let found = match compared {
                    Some(one) => index_on(indexes, one.column_name),
                    None => None,
                };
                match (compared, found) {
                    (Some(one), Some(index)) => Ok(
                        IndexWay::Lookup {
                            index_name: index.index_name,
                            column_name: one.column_name,
                            key: one.key,
                        },
                    ),
                    _ => match first_range(range_indexes(table, indexes), ranges) {
                        Err(e) => Err(e),
                        Ok(Some((index, bounds))) => Ok(
                            IndexWay::Range {
                                index_name: index.index_name,
                                column_name: index.column_names[0],
                                bounds,
                            },
                        ),
                        Ok(None) => Ok(IndexWay::Scan),
                    },
                }
            },
        },
    }
}

/// Whether the indexes of a table have a part in how a read finds its rows.
pub open spec fn read_needs_indexes(facts: FactsModel) -> bool {
    facts.primary_key matches Ok(None) && facts.key_list matches Ok(None)
        && facts.key_range matches Ok(None) && facts.equality is Ok
}

/// The way by which a read finds the rows that its filter asks for: by key, by keys, by a range
/// of keys, by an index, or else by all rows.
pub open spec fn read_way(
    contents: Contents,
    table: TableModel,
    selection: Option<Seq<char>>,
    facts: FactsModel,
) -> Result<ReadModel, Report> {
    match facts.primary_key {
        Err(e) => Err(e),
        Ok(Some(key)) => Ok(ReadModel::PointLookup { key }),
        Ok(None) => match facts.key_list {
            Err(e) => Err(e),
            Ok(Some(keys)) => Ok(ReadModel::PrimaryKeyInLookup { keys }),
            Ok(None) => match facts.key_range {
                Err(e) => Err(e),
                Ok(Some(bounds)) => Ok(
                    ReadModel::PrimaryKeyRangeScan {
                        lower: bounds.lower,
                        upper: bounds.upper,
                        filter: None,
                    },
                ),
                Ok(None) => match index_way(contents, table, facts.equality, facts.ranges) {
                    Err(e) => Err(e),
                    Ok(IndexWay::Lookup { index_name, column_name, key }) => Ok(
                        ReadModel::SecondaryIndexLookup {
                            index_name,
                            column_name,
                            key,
                            filter: selection,
                        },
                    ),
                    Ok(IndexWay::Range { index_name, column_name, bounds }) => Ok(
                        ReadModel::SecondaryIndexRangeScan {
                            index_name,
                            column_name,
                            lower: bounds.lower,
                            upper: bounds.upper,
                            filter: selection,
                        },
                    ),
                    Ok(IndexWay::Scan) => Ok(ReadModel::PrefixScan { filter: selection }),
                },
            },
        },
    }
}

/// Whether the indexes of a table have a part in how an update or a deletion finds its rows.
pub open spec fn write_needs_indexes(facts: FactsModel) -> bool {
    facts.primary_key matches Ok(None) && facts.key_range matches Ok(None) && facts.equality is Ok
}

/// The way by which an update or a deletion finds the rows that its filter asks for.
pub open spec fn write_way(
    contents: Contents,
    table: TableModel,
    selection: Option<Seq<char>>,
    facts: FactsModel,
) -> Result<WriteModel, Report> {
    match facts.primary_key {
        Err(e) => Err(e),
        Ok(Some(key)) => Ok(WriteModel::PointLookup { key }),
        Ok(None) => match facts.key_range {
            Err(e) => Err(e),
            Ok(Some(bounds)) => Ok(
                WriteModel::PrimaryKeyRangeScan {
                    lower: bounds.lower,
                    upper: bounds.upper,
                    filter: selection,
                },
            ),
            Ok(None) => match index_way(contents, table, facts.equality, facts.ranges) {
                Err(e) => Err(e),
                Ok(IndexWay::Lookup { index_name, column_name, key }) => Ok(
                    WriteModel::SecondaryIndexLookup { index_name, key, filter: selection },
                ),
                Ok(IndexWay::Range { index_name, column_name, bounds }) => Ok(
                    WriteModel::SecondaryIndexRangeScan {
                        index_name,
                        lower: bounds.lower,
                        upper: bounds.upper,
                        filter: selection,
                    },
                ),
                Ok(IndexWay::Scan) => Ok(WriteModel::PrefixScan { filter: selection }),
            },
        },
    }
}

/// Whether a write names no table, as is seen without a look at any.
pub open spec fn table_is_misreferred(table: Result<Seq<char>, Report>) -> bool {
    match table {
        Err(_) => true,
        Ok(name) => is_misreferred(name),
    }
}

/// The table of an update or a deletion.
pub open spec fn write_begun(
    contents: Contents,
    database_name: Seq<char>,
    search_path: Seq<Seq<char>>,
    asked: WriteAsked,
    refusal: Seq<char>,
) -> Result<WriteTargetModel, Report> {
    match asked.table {
        Err(e) => Err(e),
        Ok(name) => match table_required(contents, database_name, search_path, name) {
            Err(e) => Err(e),
            Ok((schema_name, schema)) => if !asked.filter_supported {
                Err(unsupported_report(refusal))
            } else {
                match write_order(asked.order_by, schema) {
                    Err(e) => Err(e),
                    Ok(order_by_primary_key) => match optional_number(asked.limit, "LIMIT"@) {
                        Err(e) => Err(e),
                        Ok(limit) => Ok(
                            WriteTargetModel { schema_name, schema, limit, order_by_primary_key },
                        ),
                    },
                }
            },
        },
    }
}

/// Why some updates are left to the general engine.
pub const UPDATE_REFUSAL: &'static str = "UPDATE filter is not supported in fast path";

/// Why some deletions are left to the general engine.
pub const DELETE_REFUSAL: &'static str = "DELETE filter is not supported in fast path";

/// What is seen of the columns that a statement gives back.
pub open spec fn seen_returning(
    result: Result<Option<Vec<ReturningProjection>>, UserError>,
) -> Result<Option<Seq<ReturningModel>>, Report> {
    match result {
        Ok(items) => Ok(option_views(items)),
        Err(e) => Err(e@),
    }
}

/// The columns that an update gives new values.
pub open spec fn update_assignments(table: TableModel, asked: Seq<AssignmentAsked>) -> Result<
    Seq<AssignmentModel>,
    Report,
> {
    each_resolved(asked, |one: AssignmentAsked| update_assignment(table, one))
}

/// The columns that an update gives new values.
pub fn resolve_update_assignments(
    schema: &TableSchema,
    assignments: &Vec<AssignmentRequest>,
) -> (result: Result<Vec<UpdateAssignment>, UserError>)
    ensures
        seen_all(result) == update_assignments(schema@, views(assignments@)),
{
    let ghost all = views(assignments@);
    let ghost resolve = |one: AssignmentAsked| update_assignment(schema@, one);
    let mut found: Vec<UpdateAssignment> = Vec::new();
    let mut i: usize = 0;
    assert(all.take(0) =~= Seq::<AssignmentAsked>::empty());
    assert(views(found@) =~= Seq::<AssignmentModel>::empty());
    while i < assignments.len()
        invariant
            i <= assignments@.len(),
            all == views(assignments@),
            resolve == (|one: AssignmentAsked| update_assignment(schema@, one)),
            each_resolved(all.take(i as int), resolve) == Ok::<Seq<AssignmentModel>, Report>(
                views(found@),
            ),
        decreases assignments@.len() - i,
    {
        assert(all.take(i + 1).drop_last() =~= all.take(i as int));
        assert(all.take(i + 1).last() == assignments@[i as int]@);
        match resolve_update_assignment(schema, &assignments[i]) {
            Err(e) => {
                proof {
                    lemma_each_fails(all, resolve, i + 1);
                }
                return Err(e);
            },
            Ok(one) => {
                let ghost before = views(found@);
                let ghost added = one@;
                found.push(one);
                assert(views(found@) =~= before.push(added));
            },
        }
        i += 1;
    }
    assert(all.take(i as int) =~= all);
    Ok(found)
}

/// The plan of a query.
pub open spec fn select_planned(
    contents: Contents,
    database_name: Seq<char>,
    target: SelectTargetModel,
    selection: Option<Seq<char>>,
    projection: Result<Seq<Seq<char>>, Report>,
    facts: FactsModel,
) -> Result<PlanModel, Report> {
    match projection {
        Err(e) => Err(e),
        Ok(columns) => match read_way(contents, target.schema, selection, facts) {
            Err(e) => Err(e),
            Ok(access) => Ok(
                PlanModel::SelectRows {
                    database_name,
                    schema_name: target.schema_name,
                    schema: target.schema,
                    projection: columns,
                    access,
                    limit: target.limit,
                    offset: target.offset,
                },
            ),
        },
    }
}

/// The plan of an update.
pub open spec fn update_planned(
    contents: Contents,
    database_name: Seq<char>,
    target: WriteTargetModel,
    assignments: Seq<AssignmentAsked>,
    selection: Option<Seq<char>>,
    facts: FactsModel,
    returning: Result<Option<Seq<ReturningModel>>, Report>,
) -> Result<PlanModel, Report> {
    match update_assignments(target.schema, assignments) {
        Err(e) => Err(e),
        Ok(found) => match write_way(contents, target.schema, selection, facts) {
            Err(e) => Err(e),
            Ok(access) => match returning {
                Err(e) => Err(e),
                Ok(items) => Ok(
                    PlanModel::UpdateRows {
                        database_name,
                        schema_name: target.schema_name,
                        schema: target.schema,
                        assignments: found,
                        access,
                        limit: target.limit,
                        order_by_primary_key: target.order_by_primary_key,
                        returning: items,
                    },
                ),
            },
        },
    }
}

/// The plan of a deletion.
pub open spec fn delete_planned(
    contents: Contents,
    database_name: Seq<char>,
    target: WriteTargetModel,
    selection: Option<Seq<char>>,
    facts: FactsModel,
    returning: Result<Option<Seq<ReturningModel>>, Report>,
) -> Result<PlanModel, Report> {
    match write_way(contents, target.schema, selection, facts) {
        Err(e) => Err(e),
        Ok(access) => match returning {
            Err(e) => Err(e),
            Ok(items) => Ok(
                PlanModel::DeleteRows {
                    database_name,
                    schema_name: target.schema_name,
                    schema: target.schema,
                    access,
                    limit: target.limit,
                    order_by_primary_key: target.order_by_primary_key,
                    returning: items,
                },
            ),
        },
    }
}

/// An index by which rows are found.
enum FoundWay {
    Lookup { index_name: String, column_name: String, key: ColumnValue },
    Range { index_name: String, column_name: String, bounds: RangeBounds },
    Scan,
}

impl View for FoundWay {
    type V = IndexWay;

    closed spec fn view(&self) -> IndexWay {
        match *self {
            FoundWay::Lookup { index_name, column_name, key } => IndexWay::Lookup {
                index_name: index_name@,
                column_name: column_name@,
                key: key@,
            },
            FoundWay::Range { index_name, column_name, bounds } => IndexWay::Range {
                index_name: index_name@,
                column_name: column_name@,
                bounds: bounds@,
            },
            FoundWay::Scan => IndexWay::Scan,
        }
    }
}

impl<S: KvStore> GatewayServer<S> {
    /// Whether some schema has a view of a name.
    fn find_view(&mut self, database_name: &str, schemas: &Vec<String>, name: &str) -> (result: Result<
        bool,
        UserError,
    >)
        ensures
            final(self).reliable() == old(self).reliable(),
            final(self).same_sessions(old(self)),
            not_internal(result) || old(self).reliable() ==> only_opened(
                old(self).contents(),
                final(self).contents(),
            ) && crate::error::outcome(result) == view_searched(
                bootstrapped(old(self).contents()),
                database_name@,
                views(schemas@),
                name@,
            ),
    {
        let ghost opened = bootstrapped(self.contents());
        proof {
            law_bootstrap_is_stable(self.contents());
        }
        let ghost all = views(schemas@);
        let mut i: usize = 0;
        assert(all.skip(0) =~= all);
        while i < schemas.len()
            invariant
                i <= schemas@.len(),
                all == views(schemas@),
                opened == bootstrapped(old(self).contents()),
                opened == bootstrapped(opened),
                self.reliable() == old(self).reliable(),
                self.same_sessions(old(self)),
                only_opened(old(self).contents(), self.contents()),
                bootstrapped(self.contents()) == opened,
                view_searched(opened, database_name@, all, name@) == view_searched(
                    opened,
                    database_name@,
                    all.skip(i as int),
                    name@,
                ),
            decreases schemas@.len() - i,
        {
            assert(all.skip(i as int)[0] == schemas@[i as int]@);
            assert(all.skip(i as int).skip(1) =~= all.skip(i + 1));
            match self.catalog.load_view(database_name, schemas[i].as_str(), name) {
                Err(e) => {
                    return Err(e);
                },
                Ok(Some(_)) => {
                    return Ok(true);
                },
                Ok(None) => {},
            }
            i += 1;
        }
        Ok(false)
    }

    /// The table of a query, and the window of its rows.
    pub fn begin_select(
        &mut self,
        database_name: &str,
        search_path: &Vec<String>,
        request: &SelectRequest,
    ) -> (result: Result<SelectTarget, UserError>)
        ensures
            final(self).reliable() == old(self).reliable(),
            final(self).same_sessions(old(self)),
            is_refused_unseen(request@) ==> final(self).contents() == old(self).contents(),
            not_internal(result) || old(self).reliable() || is_refused_unseen(request@)
                ==> only_opened(
                old(self).contents(),
                final(self).contents(),
            ) && seen(result) == select_begun(
                bootstrapped(old(self).contents()),
                database_name@,
                views(search_path@),
                request@,
            ),
    {
        proof {
            law_bootstrap_is_stable(self.contents());
        }
        if request.with_clause || request.fetch {
            return Err(unsupported(SHAPE_REFUSAL));
        }
        let (limit, offset) = match fast_path_limit_offset(&request.limit_clause) {
            Err(e) => {
                return Err(e);
            },
            Ok(window) => window,
        };
        if !request.is_select {
            return Err(unsupported("only SELECT queries are supported"));
        }
        if !request.shape.is_plain() {
            return Err(unsupported(SHAPE_REFUSAL));
        }
        let name = match &request.table {
            Err(e) => {
                return Err(e.duplicate());
            },
            Ok(name) => name,
        };
        let chars = chars_of(name.as_str());
        if begins_with(chars.as_slice(), "pg_catalog.") || begins_with(
            chars.as_slice(),
            "information_schema.",
        ) {
            return Err(unsupported("catalog SELECT should use the DataFusion slow path"));
        }
        let (schema_name, schema) = match self.resolve_table_schema(
            database_name,
            search_path,
            name.as_str(),
        ) {
            Err(e) => {
                return Err(e);
            },
            Ok((schema_name, Some(schema))) => (schema_name, schema),
            Ok((schema_name, None)) => {
                let ghost last = schema_name@;
                let mut schemas = duplicate_all(search_path);
                schemas.push(schema_name);
                schemas.push(DEFAULT_SCHEMA_NAME.to_string());
                assert(views(schemas@) =~= views(search_path@) + seq![last, DEFAULT_SCHEMA_NAME@]);
                return match self.find_view(database_name, &schemas, name.as_str()) {
                    Err(e) => Err(e),
                    Ok(true) => Err(
                        unsupported("SELECT from a view should use the DataFusion slow path"),
                    ),
                    Ok(false) => Err(
                        user_error_text(
                            "42P01",
                            three_texts("table '", name.as_str(), "' does not exist"),
                        ),
                    ),
                };
            },
        };
        match fast_path_order_by(&request.order_by, &schema) {
            Err(e) => {
                return Err(e);
            },
            Ok(_) => {},
        }
        if !request.filter_supported {
            return Err(
                unsupported("SELECT filter is not supported in fast path and should use DataFusion"),
            );
        }
        Ok(SelectTarget { schema_name, schema, limit, offset })
    }

    /// The indexes of a table that may be scanned for a range of their column.
    pub fn indexes_for_ranges(&mut self, schema: &TableSchema) -> (result: Result<
        Vec<IndexCatalog>,
        UserError,
    >)
        ensures
            final(self).reliable() == old(self).reliable(),
            final(self).same_sessions(old(self)),
            not_internal(result) || old(self).reliable() ==> only_opened(
                old(self).contents(),
                final(self).contents(),
            ) && seen_all(result) == (match indexes_listed(
                bootstrapped(old(self).contents()),
                schema@.table_id,
            ) {
                Err(e) => Err(e),
                Ok(indexes) => Ok(range_indexes(schema@, indexes)),
            }),
    {
        match self.catalog.list_indexes_for_table(schema.table_id) {
            Err(e) => Err(e),
            Ok(indexes) => Ok(range_candidates(schema, &indexes)),
        }
    }

    /// The way to the rows that a filter asks for, by an index.
    fn find_index_way(
        &mut self,
        schema: &TableSchema,
        equality: Result<Option<ColumnKey>, UserError>,
        ranges: &Vec<RangeFact>,
    ) -> (result: Result<FoundWay, UserError>)
        ensures
            final(self).reliable() == old(self).reliable(),
            final(self).same_sessions(old(self)),
            equality is Err ==> final(self).contents() == old(self).contents(),
            not_internal(result) || old(self).reliable() || equality is Err ==> only_opened(
                old(self).contents(),
                final(self).contents(),
            ) && seen(result) == index_way(
                bootstrapped(old(self).contents()),
                schema@,
                seen_option(equality),
                views(ranges@),
            ),
    {
        let compared = match equality {
            Err(e) => {
                return Err(e);
            },
            Ok(compared) => compared,
        };
        let indexes = match self.catalog.list_indexes_for_table(schema.table_id) {
            Err(e) => {
                return Err(e);
            },
            Ok(indexes) => indexes,
        };
        match compared {
            Some(one) => match find_index_on(&indexes, one.column_name.as_str()) {
                Some(index) => {
                    return Ok(
                        FoundWay::Lookup {
                            index_name: index.index_name,
                            column_name: one.column_name,
                            key: one.key,
                        },
                    );
                },
                None => {},
            },
            None => {},
        }
        let candidates = range_candidates(schema, &indexes);
        proof {
            lemma_kept_where(
                views(indexes@),
                |index: IndexModel| is_range_index(schema@, index),
            );
            lemma_first_range(views(candidates@), views(ranges@));
        }
        match find_first_range(&candidates, ranges) {
            Err(e) => Err(e),
            Ok(None) => Ok(FoundWay::Scan),
            Ok(Some((index, bounds))) => {
                assert(index@.column_names.len() == 1);
                assert(index@.column_names[0] == index.column_names@[0]@);
                Ok(
                    FoundWay::Range {
                        index_name: index.index_name,
                        column_name: index.column_names[0].clone(),
                        bounds,
                    },
                )
            },
        }
    }

    /// The way by which a read finds its rows.
    fn find_read_way(
        &mut self,
        schema: &TableSchema,
        selection: Option<SqlExpr>,
        facts: FilterFacts,
    ) -> (result: Result<ReadAccess, UserError>)
        ensures
            final(self).reliable() == old(self).reliable(),
            final(self).same_sessions(old(self)),
            !read_needs_indexes(facts@) ==> final(self).contents() == old(self).contents(),
            not_internal(result) || old(self).reliable() || !read_needs_indexes(facts@)
                ==> only_opened(
                old(self).contents(),
                final(self).contents(),
            ) && seen(result) == read_way(
                bootstrapped(old(self).contents()),
                schema@,
                option_view(selection),
                facts@,
            ),
    {
        match facts.primary_key {
            Err(e) => {
                return Err(e);
            },
            Ok(Some(key)) => {
                return Ok(ReadAccess::PointLookup { key });
            },
            Ok(None) => {},
        }
        match facts.key_list {
            Err(e) => {
                return Err(e);
            },
            Ok(Some(list)) => {
                return Ok(ReadAccess::PrimaryKeyInLookup { keys: list.keys });
            },
            Ok(None) => {},
        }
        match facts.key_range {
            Err(e) => {
                return Err(e);
            },
            Ok(Some(bounds)) => {
                return Ok(
                    ReadAccess::PrimaryKeyRangeScan {
                        lower: bounds.lower,
                        upper: bounds.upper,
                        filter: None,
                    },
                );
            },
            Ok(None) => {},
        }
        match self.find_index_way(schema, facts.equality, &facts.ranges) {
            Err(e) => Err(e),
            Ok(FoundWay::Lookup { index_name, column_name, key }) => Ok(
                ReadAccess::SecondaryIndexLookup { index_name, column_name, key, filter: selection },
            ),
            Ok(FoundWay::Range { index_name, column_name, bounds }) => Ok(
                ReadAccess::SecondaryIndexRangeScan {
                    index_name,
                    column_name,
                    lower: bounds.lower,
                    upper: bounds.upper,
                    filter: selection,
                },
            ),
            Ok(FoundWay::Scan) => Ok(ReadAccess::PrefixScan { filter: selection }),
        }
    }

    /// The way by which an update or a deletion finds its rows.
    fn find_write_way(
        &mut self,
        schema: &TableSchema,
        selection: Option<SqlExpr>,
        facts: FilterFacts,
    ) -> (result: Result<WriteAccess, UserError>)
        ensures
            final(self).reliable() == old(self).reliable(),
            final(self).same_sessions(old(self)),
            !write_needs_indexes(facts@) ==> final(self).contents() == old(self).contents(),
            not_internal(result) || old(self).reliable() || !write_needs_indexes(facts@)
                ==> only_opened(
                old(self).contents(),
                final(self).contents(),
            ) && seen(result) == write_way(
                bootstrapped(old(self).contents()),
                schema@,
                option_view(selection),
                facts@,
            ),
    {
        match facts.primary_key {
            Err(e) => {
                return Err(e);
            },
            Ok(Some(key)) => {
                return Ok(WriteAccess::PointLookup { key });
            },
            Ok(None) => {},
        }
        match facts.key_range {
            Err(e) => {
                return Err(e);
            },
            Ok(Some(bounds)) => {
                return Ok(
                    WriteAccess::PrimaryKeyRangeScan {
                        lower: bounds.lower,
                        upper: bounds.upper,
                        filter: selection,
                    },
                );
            },
            Ok(None) => {},
        }
        match self.find_index_way(schema, facts.equality, &facts.ranges) {
            Err(e) => Err(e),
            Ok(FoundWay::Lookup { index_name, column_name, key }) => Ok(
                WriteAccess::SecondaryIndexLookup { index_name, key, filter: selection },
            ),
            Ok(FoundWay::Range { index_name, column_name, bounds }) => Ok(
                WriteAccess::SecondaryIndexRangeScan {
                    index_name,
                    lower: bounds.lower,
                    upper: bounds.upper,
                    filter: selection,
                },
            ),
            Ok(FoundWay::Scan) => Ok(WriteAccess::PrefixScan { filter: selection }),
        }
    }

    /// The plan of a query, once its columns and its filter were read against its table.
    pub fn plan_select(
        &mut self,
        database_name: &str,
        target: SelectTarget,
        selection: Option<SqlExpr>,
        projection: Result<Vec<String>, UserError>,
        facts: FilterFacts,
    ) -> (result: Result<QueryPlan, UserError>)
        ensures
            final(self).reliable() == old(self).reliable(),
            final(self).same_sessions(old(self)),
            projection is Err || !read_needs_indexes(facts@)
                ==> final(self).contents() == old(self).contents(),
            not_internal(result) || old(self).reliable() || projection is Err
                || !read_needs_indexes(facts@) ==> only_opened(
                old(self).contents(),
                final(self).contents(),
            ) && seen(result) == select_planned(
                bootstrapped(old(self).contents()),
                database_name@,
                target@,
                option_view(selection),
                seen_all(projection),
                facts@,
            ),
    {
        let columns = match projection {
            Err(e) => {
                return Err(e);
            },
            Ok(columns) => columns,
        };
        match self.find_read_way(&target.schema, selection, facts) {
            Err(e) => Err(e),
            Ok(access) => Ok(
                QueryPlan::SelectRows {
                    database_name: database_name.to_string(),
                    schema_name: target.schema_name,
                    schema: target.schema,
                    projection: columns,
                    access,
                    limit: target.limit,
                    offset: target.offset,
                },
            ),
        }
    }

    fn begin_write(
        &mut self,
        database_name: &str,
        search_path: &Vec<String>,
        request: &WriteRequest,
        refusal: &str,
    ) -> (result: Result<WriteTarget, UserError>)
        ensures
            final(self).reliable() == old(self).reliable(),
            final(self).same_sessions(old(self)),
            table_is_misreferred(request@.table) ==> final(self).contents() == old(self).contents(),
            not_internal(result) || old(self).reliable() || table_is_misreferred(request@.table)
                ==> only_opened(
                old(self).contents(),
                final(self).contents(),
            ) && seen(result) == write_begun(
                bootstrapped(old(self).contents()),
                database_name@,
                views(search_path@),
                request@,
                refusal@,
            ),
    {
        let name = match &request.table {
            Err(e) => {
                return Err(e.duplicate());
            },
            Ok(name) => name,
        };
        let (schema_name, schema) = match self.require_table(
            database_name,
            search_path,
            name.as_str(),
        ) {
            Err(e) => {
                return Err(e);
            },
            Ok(found) => found,
        };
        if !request.filter_supported {
            return Err(unsupported(refusal));
        }
        let order_by_primary_key = match fast_path_write_order_by(&request.order_by, &schema) {
            Err(e) => {
                return Err(e);
            },
            Ok(answer) => answer,
        };
        match read_optional_number(&request.limit, "LIMIT") {
            Err(e) => Err(e),
            Ok(limit) => Ok(WriteTarget { schema_name, schema, limit, order_by_primary_key }),
        }
    }

    /// The table of an update.
    pub fn begin_update(
        &mut self,
        database_name: &str,
        search_path: &Vec<String>,
        request: &WriteRequest,
    ) -> (result: Result<WriteTarget, UserError>)
        ensures
            final(self).reliable() == old(self).reliable(),
            final(self).same_sessions(old(self)),
            table_is_misreferred(request@.table) ==> final(self).contents() == old(self).contents(),
            not_internal(result) || old(self).reliable() || table_is_misreferred(request@.table)
                ==> only_opened(
                old(self).contents(),
                final(self).contents(),
            ) && seen(result) == write_begun(
                bootstrapped(old(self).contents()),
                database_name@,
                views(search_path@),
                request@,
                UPDATE_REFUSAL@,
            ),
    {
        self.begin_write(database_name, search_path, request, UPDATE_REFUSAL)
    }

    /// The table of a deletion, which names just one.
    pub fn begin_delete(
        &mut self,
        database_name: &str,
        search_path: &Vec<String>,
        tables: usize,
        request: &WriteRequest,
    ) -> (result: Result<WriteTarget, UserError>)
        ensures
            final(self).reliable() == old(self).reliable(),
            final(self).same_sessions(old(self)),
            tables != 1 || table_is_misreferred(request@.table)
                ==> final(self).contents() == old(self).contents(),
            not_internal(result) || old(self).reliable() || tables != 1
                || table_is_misreferred(request@.table) ==> only_opened(
                old(self).contents(),
                final(self).contents(),
            ) && seen(result) == (if tables != 1 {
                Err(unsupported_report("DELETE fast-path only supports a single table"@))
            } else {
                write_begun(
                    bootstrapped(old(self).contents()),
                    database_name@,
                    views(search_path@),
                    request@,
                    DELETE_REFUSAL@,
                )
            }),
    {
        if tables != 1 {
            return Err(unsupported("DELETE fast-path only supports a single table"));
        }
        self.begin_write(database_name, search_path, request, DELETE_REFUSAL)
    }

    /// The plan of an update, once its filter was read against its table.
    pub fn plan_update(
        &mut self,
        database_name: &str,
        target: WriteTarget,
        assignments: &Vec<AssignmentRequest>,
        selection: Option<SqlExpr>,
        facts: FilterFacts,
        returning: Result<Option<Vec<ReturningProjection>>, UserError>,
    ) -> (result: Result<QueryPlan, UserError>)
        ensures
            final(self).reliable() == old(self).reliable(),
            final(self).same_sessions(old(self)),
            update_assignments(target@.schema, views(assignments@)) is Err
                || !write_needs_indexes(facts@) ==> final(self).contents() == old(self).contents(),
            not_internal(result) || old(self).reliable()
                || update_assignments(target@.schema, views(assignments@)) is Err
                || !write_needs_indexes(facts@) ==> only_opened(
                old(self).contents(),
                final(self).contents(),
            ) && seen(result) == update_planned(
                bootstrapped(old(self).contents()),
                database_name@,
                target@,
                views(assignments@),
                option_view(selection),
                facts@,
                seen_returning(returning),
            ),
    {
        let found = match resolve_update_assignments(&target.schema, assignments) {
            Err(e) => {
                return Err(e);
            },
            Ok(found) => found,
        };
        let access = match self.find_write_way(&target.schema, selection, facts) {
            Err(e) => {
                return Err(e);
            },
            Ok(access) => access,
        };
        match returning {
            Err(e) => Err(e),
            Ok(items) => Ok(
                QueryPlan::UpdateRows {
                    database_name: database_name.to_string(),
                    schema_name: target.schema_name,
                    schema: target.schema,
                    assignments: found,
                    access,
                    limit: target.limit,
                    order_by_primary_key: target.order_by_primary_key,
                    returning: items,
                },
            ),
        }
    }

    /// The plan of a deletion, once its filter was read against its table.
    pub fn plan_delete(
        &mut self,
        database_name: &str,
        target: WriteTarget,
        selection: Option<SqlExpr>,
        facts: FilterFacts,
        returning: Result<Option<Vec<ReturningProjection>>, UserError>,
    ) -> (result: Result<QueryPlan, UserError>)
        ensures
            final(self).reliable() == old(self).reliable(),
            final(self).same_sessions(old(self)),
            !write_needs_indexes(facts@) ==> final(self).contents() == old(self).contents(),
            not_internal(result) || old(self).reliable() || !write_needs_indexes(facts@)
                ==> only_opened(
                old(self).contents(),
                final(self).contents(),
            ) && seen(result) == delete_planned(
                bootstrapped(old(self).contents()),
                database_name@,
                target@,
                option_view(selection),
                facts@,
                seen_returning(returning),
            ),
    {
        let access = match self.find_write_way(&target.schema, selection, facts) {
            Err(e) => {
                return Err(e);
            },
            Ok(access) => access,
        };
        match returning {
            Err(e) => Err(e),
            Ok(items) => Ok(
                QueryPlan::DeleteRows {
                    database_name: database_name.to_string(),
                    schema_name: target.schema_name,
                    schema: target.schema,
                    access,
                    limit: target.limit,
                    order_by_primary_key: target.order_by_primary_key,
                    returning: items,
                },
            ),
        }
    }
}

/// The index of the first range is one of those that were looked through.
proof fn lemma_first_range(
    indexes: Seq<IndexModel>,
    ranges: Seq<Result<Option<RangeModel>, Report>>,
)
    ensures
        first_range(indexes, ranges) matches Ok(Some(found)) ==> indexes.contains(found.0),
    decreases indexes.len(),
{
    if indexes.len() > 0 && ranges.len() > 0 {
        lemma_first_range(indexes.skip(1), ranges.skip(1));
        match first_range(indexes, ranges) {
            Ok(Some(found)) => {
                if ranges[0] == Ok::<Option<RangeModel>, Report>(None) {
                    let i = choose|i: int|
                        0 <= i < indexes.skip(1).len() && indexes.skip(1)[i] == found.0;
                    assert(indexes[i + 1] == found.0);
                } else {
                    assert(indexes[0] == found.0);
                }
            },
            _ => {},
        }
    }
}

} // verus!
