//! Plans: what a statement comes to once its names are resolved.
use vstd::prelude::*;

use crate::row::{RowMap, RowModel};
use crate::schema::{duplicate_all, option_view, views, Duplicate};
use crate::schema::{
    CheckConstraintSchema, CheckModel, ColumnModel, ColumnSchema, ForeignKeyConstraintSchema,
    ForeignKeyModel, TableModel, TableSchema, UniqueConstraintSchema, UniqueModel,
};
use crate::types::{ColumnValue, Datum};

verus! {

/// The views of a list that may be missing.
pub open spec fn option_views<T: View>(items: Option<Vec<T>>) -> Option<Seq<T::V>> {
    match items {
        Some(items) => Some(views(items@)),
        None => None,
    }
}

/// An expression of SQL, as it is written.
#[derive(Debug)]
pub struct SqlExpr {
    pub text: String,
}

impl View for SqlExpr {
    type V = Seq<char>;

    open spec fn view(&self) -> Seq<char> {
        self.text@
    }
}

impl Duplicate for SqlExpr {
    fn duplicate(&self) -> (copy: Self) {
        SqlExpr { text: self.text.clone() }
    }
}

/// Columns that together are a key.
#[derive(Debug)]
pub struct ColumnSet {
    pub columns: Vec<String>,
}

impl View for ColumnSet {
    type V = Seq<Seq<char>>;

    open spec fn view(&self) -> Seq<Seq<char>> {
        views(self.columns@)
    }
}

impl Duplicate for ColumnSet {
    fn duplicate(&self) -> (copy: Self) {
        ColumnSet { columns: duplicate_all(&self.columns) }
    }
}

/// A row of texts, some of which are null.
#[derive(Debug)]
pub struct TextRow {
    pub cells: Vec<Option<String>>,
}

/// The texts of cells.
pub open spec fn cell_texts(cells: Seq<Option<String>>) -> Seq<Option<Seq<char>>> {
    cells.map_values(|cell: Option<String>| option_view(cell))
}

impl View for TextRow {
    type V = Seq<Option<Seq<char>>>;

    open spec fn view(&self) -> Seq<Option<Seq<char>>> {
        cell_texts(self.cells@)
    }
}

/// An end of a range, and whether the range holds it.
#[derive(Debug)]
pub struct Bound {
    pub value: ColumnValue,
    pub inclusive: bool,
}

/// What a [`Bound`] says.
pub struct BoundModel {
    pub value: Datum,
    pub inclusive: bool,
}

impl View for Bound {
    type V = BoundModel;

    open spec fn view(&self) -> BoundModel {
        BoundModel {
            value: self.value@,
            inclusive: self.inclusive,
        }
    }
}

impl Duplicate for Bound {
    fn duplicate(&self) -> (copy: Self) {
        Bound {
            value: self.value.duplicate(),
            inclusive: self.inclusive,
        }
    }
}

/// The name of an object with that of its schema.
#[derive(Debug)]
pub struct QualifiedName {
    pub schema_name: String,
    pub name: String,
}

/// What a [`QualifiedName`] says.
pub struct QualifiedModel {
    pub schema_name: Seq<char>,
    pub name: Seq<char>,
}

impl View for QualifiedName {
    type V = QualifiedModel;

    open spec fn view(&self) -> QualifiedModel {
        QualifiedModel {
            schema_name: self.schema_name@,
            name: self.name@,
        }
    }
}

impl Duplicate for QualifiedName {
    fn duplicate(&self) -> (copy: Self) {
        QualifiedName {
            schema_name: self.schema_name.clone(),
            name: self.name.clone(),
        }
    }
}

/// A table with the name of its schema.
#[derive(Debug)]
pub struct ScopedTable {
    pub schema_name: String,
    pub schema: TableSchema,
}

/// What a [`ScopedTable`] says.
pub struct ScopedModel {
    pub schema_name: Seq<char>,
    pub schema: TableModel,
}

impl View for ScopedTable {
    type V = ScopedModel;

    open spec fn view(&self) -> ScopedModel {
        ScopedModel {
            schema_name: self.schema_name@,
            schema: self.schema@,
        }
    }
}

/// An index that comes with a table.
#[derive(Debug)]
pub struct IndexPlan {
    pub index_name: String,
    pub column_names: Vec<String>,
    pub unique: bool,
}

/// What a [`IndexPlan`] says.
pub struct IndexPlanModel {
    pub index_name: Seq<char>,
    pub column_names: Seq<Seq<char>>,
    pub unique: bool,
}

impl View for IndexPlan {
    type V = IndexPlanModel;

    open spec fn view(&self) -> IndexPlanModel {
        IndexPlanModel {
            index_name: self.index_name@,
            column_names: views(self.column_names@),
            unique: self.unique,
        }
    }
}

impl Duplicate for IndexPlan {
    fn duplicate(&self) -> (copy: Self) {
        IndexPlan {
            index_name: self.index_name.clone(),
            column_names: duplicate_all(&self.column_names),
            unique: self.unique,
        }
    }
}

/// What a statement gives back of a row that it wrote.
#[derive(Debug)]
pub enum ReturningProjection {
    Wildcard,
    Column { name: String },
    Expr { expr: SqlExpr, output_name: String },
}

/// What a [`ReturningProjection`] says.
pub enum ReturningModel {
    Wildcard,
    Column { name: Seq<char> },
    Expr { expr: Seq<char>, output_name: Seq<char> },
}

impl View for ReturningProjection {
    type V = ReturningModel;

    open spec fn view(&self) -> ReturningModel {
        match *self {
            ReturningProjection::Wildcard => ReturningModel::Wildcard,
            ReturningProjection::Column { name } => ReturningModel::Column {
                name: name@,
            },
            ReturningProjection::Expr { expr, output_name } => ReturningModel::Expr {
                expr: expr@,
                output_name: output_name@,
            },
        }
    }
}

/// How a statement gets at the rows that it reads.
#[derive(Debug)]
pub enum ReadAccess {
    PointLookup { key: ColumnValue },
    PrimaryKeyInLookup { keys: Vec<ColumnValue> },
    PrimaryKeyRangeScan { lower: Option<Bound>, upper: Option<Bound>, filter: Option<SqlExpr> },
    SecondaryIndexLookup {
        index_name: String,
        column_name: String,
        key: ColumnValue,
        filter: Option<SqlExpr>,
    },
    SecondaryIndexRangeScan {
        index_name: String,
        column_name: String,
        lower: Option<Bound>,
        upper: Option<Bound>,
        filter: Option<SqlExpr>,
    },
    PrefixScan { filter: Option<SqlExpr> },
}

/// What a [`ReadAccess`] says.
pub enum ReadModel {
    PointLookup { key: Datum },
    PrimaryKeyInLookup { keys: Seq<Datum> },
    PrimaryKeyRangeScan {
        lower: Option<BoundModel>,
        upper: Option<BoundModel>,
        filter: Option<Seq<char>>,
    },
    SecondaryIndexLookup {
        index_name: Seq<char>,
        column_name: Seq<char>,
        key: Datum,
        filter: Option<Seq<char>>,
    },
    SecondaryIndexRangeScan {
        index_name: Seq<char>,
        column_name: Seq<char>,
        lower: Option<BoundModel>,
        upper: Option<BoundModel>,
        filter: Option<Seq<char>>,
    },
    PrefixScan { filter: Option<Seq<char>> },
}

impl View for ReadAccess {
    type V = ReadModel;

    open spec fn view(&self) -> ReadModel {
        match *self {
            ReadAccess::PointLookup { key } => ReadModel::PointLookup {
                key: key@,
            },
            ReadAccess::PrimaryKeyInLookup { keys } => ReadModel::PrimaryKeyInLookup {
                keys: views(keys@),
            },
            ReadAccess::PrimaryKeyRangeScan {
                lower,
                upper,
                filter,
            } => ReadModel::PrimaryKeyRangeScan {
                lower: option_view(lower),
                upper: option_view(upper),
                filter: option_view(filter),
            },
            ReadAccess::SecondaryIndexLookup {
                index_name,
                column_name,
                key,
                filter,
            } => ReadModel::SecondaryIndexLookup {
                index_name: index_name@,
                column_name: column_name@,
                key: key@,
                filter: option_view(filter),
            },
            ReadAccess::SecondaryIndexRangeScan {
                index_name,
                column_name,
                lower,
                upper,
                filter,
            } => ReadModel::SecondaryIndexRangeScan {
                index_name: index_name@,
                column_name: column_name@,
                lower: option_view(lower),
                upper: option_view(upper),
                filter: option_view(filter),
            },
            ReadAccess::PrefixScan { filter } => ReadModel::PrefixScan {
                filter: option_view(filter),
            },
        }
    }
}

/// How a statement gets at the rows that it writes.
#[derive(Debug)]
pub enum WriteAccess {
    PointLookup { key: ColumnValue },
    PrimaryKeyRangeScan { lower: Option<Bound>, upper: Option<Bound>, filter: Option<SqlExpr> },
    SecondaryIndexLookup { index_name: String, key: ColumnValue, filter: Option<SqlExpr> },
    SecondaryIndexRangeScan {
        index_name: String,
        lower: Option<Bound>,
        upper: Option<Bound>,
        filter: Option<SqlExpr>,
    },
    PrefixScan { filter: Option<SqlExpr> },
}

/// What a [`WriteAccess`] says.
pub enum WriteModel {
    PointLookup { key: Datum },
    PrimaryKeyRangeScan {
        lower: Option<BoundModel>,
        upper: Option<BoundModel>,
        filter: Option<Seq<char>>,
    },
    SecondaryIndexLookup { index_name: Seq<char>, key: Datum, filter: Option<Seq<char>> },
    SecondaryIndexRangeScan {
        index_name: Seq<char>,
        lower: Option<BoundModel>,
        upper: Option<BoundModel>,
        filter: Option<Seq<char>>,
    },
    PrefixScan { filter: Option<Seq<char>> },
}

impl View for WriteAccess {
    type V = WriteModel;

    open spec fn view(&self) -> WriteModel {
        match *self {
            WriteAccess::PointLookup { key } => WriteModel::PointLookup {
                key: key@,
            },
            WriteAccess::PrimaryKeyRangeScan {
                lower,
                upper,
                filter,
            } => WriteModel::PrimaryKeyRangeScan {
                lower: option_view(lower),
                upper: option_view(upper),
                filter: option_view(filter),
            },
            WriteAccess::SecondaryIndexLookup {
                index_name,
                key,
                filter,
            } => WriteModel::SecondaryIndexLookup {
                index_name: index_name@,
                key: key@,
                filter: option_view(filter),
            },
            WriteAccess::SecondaryIndexRangeScan {
                index_name,
                lower,
                upper,
                filter,
            } => WriteModel::SecondaryIndexRangeScan {
                index_name: index_name@,
                lower: option_view(lower),
                upper: option_view(upper),
                filter: option_view(filter),
            },
            WriteAccess::PrefixScan { filter } => WriteModel::PrefixScan {
                filter: option_view(filter),
            },
        }
    }
}

/// A column and the expression that it is set to.
#[derive(Debug)]
pub struct UpdateAssignment {
    pub column: String,
    pub expr: SqlExpr,
}

/// What a [`UpdateAssignment`] says.
pub struct AssignmentModel {
    pub column: Seq<char>,
    pub expr: Seq<char>,
}

impl View for UpdateAssignment {
    type V = AssignmentModel;

    open spec fn view(&self) -> AssignmentModel {
        AssignmentModel {
            column: self.column@,
            expr: self.expr@,
        }
    }
}

impl Duplicate for UpdateAssignment {
    fn duplicate(&self) -> (copy: Self) {
        UpdateAssignment {
            column: self.column.clone(),
            expr: self.expr.duplicate(),
        }
    }
}

/// What an insertion does where a row with its key is there.
#[derive(Debug)]
pub enum InsertConflictAction {
    DoNothing,
    DoUpdate {
        target_columns: Vec<String>,
        assignments: Vec<UpdateAssignment>,
        selection: Option<SqlExpr>,
    },
    DoNothingAnyUnique { target_column_sets: Vec<ColumnSet> },
    ReplaceAnyUnique { target_column_sets: Vec<ColumnSet> },
    DoUpdateAnyUnique { target_column_sets: Vec<ColumnSet>, assignments: Vec<UpdateAssignment> },
}

/// What a [`InsertConflictAction`] says.
pub enum ConflictModel {
    DoNothing,
    DoUpdate {
        target_columns: Seq<Seq<char>>,
        assignments: Seq<AssignmentModel>,
        selection: Option<Seq<char>>,
    },
    DoNothingAnyUnique { target_column_sets: Seq<Seq<Seq<char>>> },
    ReplaceAnyUnique { target_column_sets: Seq<Seq<Seq<char>>> },
    DoUpdateAnyUnique {
        target_column_sets: Seq<Seq<Seq<char>>>,
        assignments: Seq<AssignmentModel>,
    },
}

impl View for InsertConflictAction {
    type V = ConflictModel;

    open spec fn view(&self) -> ConflictModel {
        match *self {
            InsertConflictAction::DoNothing => ConflictModel::DoNothing,
            InsertConflictAction::DoUpdate {
                target_columns,
                assignments,
                selection,
            } => ConflictModel::DoUpdate {
                target_columns: views(target_columns@),
                assignments: views(assignments@),
                selection: option_view(selection),
            },
            InsertConflictAction::DoNothingAnyUnique {
                target_column_sets,
            } => ConflictModel::DoNothingAnyUnique {
                target_column_sets: views(target_column_sets@),
            },
            InsertConflictAction::ReplaceAnyUnique {
                target_column_sets,
            } => ConflictModel::ReplaceAnyUnique {
                target_column_sets: views(target_column_sets@),
            },
            InsertConflictAction::DoUpdateAnyUnique {
                target_column_sets,
                assignments,
            } => ConflictModel::DoUpdateAnyUnique {
                target_column_sets: views(target_column_sets@),
                assignments: views(assignments@),
            },
        }
    }
}

/// A change of the description of a table.
#[derive(Debug)]
#[allow(inconsistent_fields)]
pub enum TableAlterOperation {
    AddColumn { column: ColumnSchema, if_not_exists: bool },
    ModifyColumn { column_name: String, column: ColumnSchema },
    DropColumn { column_name: String, if_exists: bool },
    RenameColumn { old_name: String, new_name: String },
    RenameTable { new_name: String },
    SetDefault { column_name: String, default: Option<String> },
    SetNotNull { column_name: String, nullable: bool },
    AddCheck { constraint: CheckConstraintSchema },
    AddUnique { constraint: UniqueConstraintSchema },
    AddForeignKey { constraint: ForeignKeyConstraintSchema },
    DropForeignKey { name: String, if_exists: bool },
    AddIndex { index_name: String, column_names: Vec<String>, unique: bool, if_not_exists: bool },
    DropIndex { index_name: String, if_exists: bool },
    RenameIndex { old_name: String, new_name: String },
    SetAutoIncrement { value: i64 },
}

/// What a [`TableAlterOperation`] says.
#[allow(inconsistent_fields)]
pub enum AlterModel {
    AddColumn { column: ColumnModel, if_not_exists: bool },
    ModifyColumn { column_name: Seq<char>, column: ColumnModel },
    DropColumn { column_name: Seq<char>, if_exists: bool },
    RenameColumn { old_name: Seq<char>, new_name: Seq<char> },
    RenameTable { new_name: Seq<char> },
    SetDefault { column_name: Seq<char>, default: Option<Seq<char>> },
    SetNotNull { column_name: Seq<char>, nullable: bool },
    AddCheck { constraint: CheckModel },
    AddUnique { constraint: UniqueModel },
    AddForeignKey { constraint: ForeignKeyModel },
    DropForeignKey { name: Seq<char>, if_exists: bool },
    AddIndex {
        index_name: Seq<char>,
        column_names: Seq<Seq<char>>,
        unique: bool,
        if_not_exists: bool,
    },
    DropIndex { index_name: Seq<char>, if_exists: bool },
    RenameIndex { old_name: Seq<char>, new_name: Seq<char> },
    SetAutoIncrement { value: i64 },
}

impl View for TableAlterOperation {
    type V = AlterModel;

    open spec fn view(&self) -> AlterModel {
        match *self {
            TableAlterOperation::AddColumn { column, if_not_exists } => AlterModel::AddColumn {
                column: column@,
                if_not_exists,
            },
            TableAlterOperation::ModifyColumn { column_name, column } => AlterModel::ModifyColumn {
                column_name: column_name@,
                column: column@,
            },
            TableAlterOperation::DropColumn { column_name, if_exists } => AlterModel::DropColumn {
                column_name: column_name@,
                if_exists,
            },
            TableAlterOperation::RenameColumn { old_name, new_name } => AlterModel::RenameColumn {
                old_name: old_name@,
                new_name: new_name@,
            },
            TableAlterOperation::RenameTable { new_name } => AlterModel::RenameTable {
                new_name: new_name@,
            },
            TableAlterOperation::SetDefault { column_name, default } => AlterModel::SetDefault {
                column_name: column_name@,
                default: option_view(default),
            },
            TableAlterOperation::SetNotNull { column_name, nullable } => AlterModel::SetNotNull {
                column_name: column_name@,
                nullable,
            },
            TableAlterOperation::AddCheck { constraint } => AlterModel::AddCheck {
                constraint: constraint@,
            },
            TableAlterOperation::AddUnique { constraint } => AlterModel::AddUnique {
                constraint: constraint@,
            },
            TableAlterOperation::AddForeignKey { constraint } => AlterModel::AddForeignKey {
                constraint: constraint@,
            },
            TableAlterOperation::DropForeignKey { name, if_exists } => AlterModel::DropForeignKey {
                name: name@,
                if_exists,
            },
            TableAlterOperation::AddIndex {
                index_name,
                column_names,
                unique,
                if_not_exists,
            } => AlterModel::AddIndex {
                index_name: index_name@,
                column_names: views(column_names@),
                unique,
                if_not_exists,
            },
            TableAlterOperation::DropIndex { index_name, if_exists } => AlterModel::DropIndex {
                index_name: index_name@,
                if_exists,
            },
            TableAlterOperation::RenameIndex { old_name, new_name } => AlterModel::RenameIndex {
                old_name: old_name@,
                new_name: new_name@,
            },
            TableAlterOperation::SetAutoIncrement { value } => AlterModel::SetAutoIncrement {
                value,
            },
        }
    }
}

/// What a statement comes to once its names are resolved.
#[derive(Debug)]
#[allow(inconsistent_fields)]
pub enum QueryPlan {
    Noop { tag: String },
    CreateDatabase { database_name: String, if_not_exists: bool },
    CreateSchema { database_name: String, schema_name: String, if_not_exists: bool },
    CreateTable {
        database_name: String,
        schema_name: String,
        schema: TableSchema,
        auto_increment_start: Option<i64>,
        indexes: Vec<IndexPlan>,
    },
    CreateSequence {
        database_name: String,
        schema_name: String,
        sequence_name: String,
        if_not_exists: bool,
        start: i64,
        increment: i64,
    },
    CreateView {
        database_name: String,
        schema_name: String,
        view_name: String,
        definition: String,
        or_replace: bool,
        if_not_exists: bool,
    },
    CreateTableAs {
        database_name: String,
        schema_name: String,
        schema: TableSchema,
        rows: Vec<RowMap>,
    },
    AlterTableAddPrimaryKey {
        database_name: String,
        schema_name: String,
        table_name: String,
        column_name: String,
    },
    AlterTable {
        database_name: String,
        schema_name: String,
        table_name: String,
        operations: Vec<TableAlterOperation>,
    },
    CreateIndex {
        database_name: String,
        schema_name: String,
        table_name: String,
        index_name: String,
        column_names: Vec<String>,
        unique: bool,
        if_not_exists: bool,
    },
    DropTables { database_name: String, tables: Vec<QualifiedName>, if_exists: bool },
    DropIndexes { database_name: String, indexes: Vec<QualifiedName>, if_exists: bool },
    DropSequences { database_name: String, sequences: Vec<QualifiedName>, if_exists: bool },
    DropViews { database_name: String, views: Vec<QualifiedName>, if_exists: bool },
    DropSchemas { database_name: String, schemas: Vec<String>, if_exists: bool },
    DropDatabases { databases: Vec<String>, if_exists: bool },
    TruncateTables { database_name: String, tables: Vec<ScopedTable> },
    ExplainRows { rows: Vec<TextRow> },
    PostgresExplainRows { rows: Vec<TextRow> },
    AnalyzeTables { database_name: String, tables: Vec<ScopedTable> },
    TableMaintenanceRows { rows: Vec<TextRow> },
    InsertRows {
        database_name: String,
        schema_name: String,
        schema: TableSchema,
        rows: Vec<RowMap>,
        on_conflict: Option<InsertConflictAction>,
        returning: Option<Vec<ReturningProjection>>,
    },
    SelectRows {
        database_name: String,
        schema_name: String,
        schema: TableSchema,
        projection: Vec<String>,
        access: ReadAccess,
        limit: Option<usize>,
        offset: usize,
    },
    UpdateRows {
        database_name: String,
        schema_name: String,
        schema: TableSchema,
        assignments: Vec<UpdateAssignment>,
        access: WriteAccess,
        limit: Option<usize>,
        order_by_primary_key: bool,
        returning: Option<Vec<ReturningProjection>>,
    },
    DeleteRows {
        database_name: String,
        schema_name: String,
        schema: TableSchema,
        access: WriteAccess,
        limit: Option<usize>,
        order_by_primary_key: bool,
        returning: Option<Vec<ReturningProjection>>,
    },
}

/// What a [`QueryPlan`] says.
#[allow(inconsistent_fields)]
pub enum PlanModel {
    Noop { tag: Seq<char> },
    CreateDatabase { database_name: Seq<char>, if_not_exists: bool },
    CreateSchema { database_name: Seq<char>, schema_name: Seq<char>, if_not_exists: bool },
    CreateTable {
        database_name: Seq<char>,
        schema_name: Seq<char>,
        schema: TableModel,
        auto_increment_start: Option<i64>,
        indexes: Seq<IndexPlanModel>,
    },
    CreateSequence {
        database_name: Seq<char>,
        schema_name: Seq<char>,
        sequence_name: Seq<char>,
        if_not_exists: bool,
        start: i64,
        increment: i64,
    },
    CreateView {
        database_name: Seq<char>,
        schema_name: Seq<char>,
        view_name: Seq<char>,
        definition: Seq<char>,
        or_replace: bool,
        if_not_exists: bool,
    },
    CreateTableAs {
        database_name: Seq<char>,
        schema_name: Seq<char>,
        schema: TableModel,
        rows: Seq<RowModel>,
    },
    AlterTableAddPrimaryKey {
        database_name: Seq<char>,
        schema_name: Seq<char>,
        table_name: Seq<char>,
        column_name: Seq<char>,
    },
    AlterTable {
        database_name: Seq<char>,
        schema_name: Seq<char>,
        table_name: Seq<char>,
        operations: Seq<AlterModel>,
    },
    CreateIndex {
        database_name: Seq<char>,
        schema_name: Seq<char>,
        table_name: Seq<char>,
        index_name: Seq<char>,
        column_names: Seq<Seq<char>>,
        unique: bool,
        if_not_exists: bool,
    },
    DropTables { database_name: Seq<char>, tables: Seq<QualifiedModel>, if_exists: bool },
    DropIndexes { database_name: Seq<char>, indexes: Seq<QualifiedModel>, if_exists: bool },
    DropSequences { database_name: Seq<char>, sequences: Seq<QualifiedModel>, if_exists: bool },
    DropViews { database_name: Seq<char>, views: Seq<QualifiedModel>, if_exists: bool },
    DropSchemas { database_name: Seq<char>, schemas: Seq<Seq<char>>, if_exists: bool },
    DropDatabases { databases: Seq<Seq<char>>, if_exists: bool },
    TruncateTables { database_name: Seq<char>, tables: Seq<ScopedModel> },
    ExplainRows { rows: Seq<Seq<Option<Seq<char>>>> },
    PostgresExplainRows { rows: Seq<Seq<Option<Seq<char>>>> },
    AnalyzeTables { database_name: Seq<char>, tables: Seq<ScopedModel> },
    TableMaintenanceRows { rows: Seq<Seq<Option<Seq<char>>>> },
    InsertRows {
        database_name: Seq<char>,
        schema_name: Seq<char>,
        schema: TableModel,
        rows: Seq<RowModel>,
        on_conflict: Option<ConflictModel>,
        returning: Option<Seq<ReturningModel>>,
    },
    SelectRows {
        database_name: Seq<char>,
        schema_name: Seq<char>,
        schema: TableModel,
        projection: Seq<Seq<char>>,
        access: ReadModel,
        limit: Option<usize>,
        offset: usize,
    },
    UpdateRows {
        database_name: Seq<char>,
        schema_name: Seq<char>,
        schema: TableModel,
        assignments: Seq<AssignmentModel>,
        access: WriteModel,
        limit: Option<usize>,
        order_by_primary_key: bool,
        returning: Option<Seq<ReturningModel>>,
    },
    DeleteRows {
        database_name: Seq<char>,
        schema_name: Seq<char>,
        schema: TableModel,
        access: WriteModel,
        limit: Option<usize>,
        order_by_primary_key: bool,
        returning: Option<Seq<ReturningModel>>,
    },
}

impl View for QueryPlan {
    type V = PlanModel;

    open spec fn view(&self) -> PlanModel {
        match *self {
            QueryPlan::Noop { tag } => PlanModel::Noop {
                tag: tag@,
            },
            QueryPlan::CreateDatabase {
                database_name,
                if_not_exists,
            } => PlanModel::CreateDatabase {
                database_name: database_name@,
                if_not_exists,
            },
            QueryPlan::CreateSchema {
                database_name,
                schema_name,
                if_not_exists,
            } => PlanModel::CreateSchema {
                database_name: database_name@,
                schema_name: schema_name@,
                if_not_exists,
            },
            QueryPlan::CreateTable {
                database_name,
                schema_name,
                schema,
                auto_increment_start,
                indexes,
            } => PlanModel::CreateTable {
                database_name: database_name@,
                schema_name: schema_name@,
                schema: schema@,
                auto_increment_start,
                indexes: views(indexes@),
            },
            QueryPlan::CreateSequence {
                database_name,
                schema_name,
                sequence_name,
                if_not_exists,
                start,
                increment,
            } => PlanModel::CreateSequence {
                database_name: database_name@,
                schema_name: schema_name@,
                sequence_name: sequence_name@,
                if_not_exists,
                start,
                increment,
            },
            QueryPlan::CreateView {
                database_name,
                schema_name,
                view_name,
                definition,
                or_replace,
                if_not_exists,
            } => PlanModel::CreateView {
                database_name: database_name@,
                schema_name: schema_name@,
                view_name: view_name@,
                definition: definition@,
                or_replace,
                if_not_exists,
            },
            QueryPlan::CreateTableAs {
                database_name,
                schema_name,
                schema,
                rows,
            } => PlanModel::CreateTableAs {
                database_name: database_name@,
                schema_name: schema_name@,
                schema: schema@,
                rows: views(rows@),
            },
            QueryPlan::AlterTableAddPrimaryKey {
                database_name,
                schema_name,
                table_name,
                column_name,
            } => PlanModel::AlterTableAddPrimaryKey {
                database_name: database_name@,
                schema_name: schema_name@,
                table_name: table_name@,
                column_name: column_name@,
            },
            QueryPlan::AlterTable {
                database_name,
                schema_name,
                table_name,
                operations,
            } => PlanModel::AlterTable {
                database_name: database_name@,
                schema_name: schema_name@,
                table_name: table_name@,
                operations: views(operations@),
            },
            QueryPlan::CreateIndex {
                database_name,
                schema_name,
                table_name,
                index_name,
                column_names,
                unique,
                if_not_exists,
            } => PlanModel::CreateIndex {
                database_name: database_name@,
                schema_name: schema_name@,
                table_name: table_name@,
                index_name: index_name@,
                column_names: views(column_names@),
                unique,
                if_not_exists,
            },
            QueryPlan::DropTables { database_name, tables, if_exists } => PlanModel::DropTables {
                database_name: database_name@,
                tables: views(tables@),
                if_exists,
            },
            QueryPlan::DropIndexes {
                database_name,
                indexes,
                if_exists,
            } => PlanModel::DropIndexes {
                database_name: database_name@,
                indexes: views(indexes@),
                if_exists,
            },
            QueryPlan::DropSequences {
                database_name,
                sequences,
                if_exists,
            } => PlanModel::DropSequences {
                database_name: database_name@,
                sequences: views(sequences@),
                if_exists,
            },
            QueryPlan::DropViews { database_name, views, if_exists } => PlanModel::DropViews {
                database_name: database_name@,
                views: crate::schema::views(views@),
                if_exists,
            },
            QueryPlan::DropSchemas {
                database_name,
                schemas,
                if_exists,
            } => PlanModel::DropSchemas {
                database_name: database_name@,
                schemas: views(schemas@),
                if_exists,
            },
            QueryPlan::DropDatabases { databases, if_exists } => PlanModel::DropDatabases {
                databases: views(databases@),
                if_exists,
            },
            QueryPlan::TruncateTables { database_name, tables } => PlanModel::TruncateTables {
                database_name: database_name@,
                tables: views(tables@),
            },
            QueryPlan::ExplainRows { rows } => PlanModel::ExplainRows {
                rows: views(rows@),
            },
            QueryPlan::PostgresExplainRows { rows } => PlanModel::PostgresExplainRows {
                rows: views(rows@),
            },
            QueryPlan::AnalyzeTables { database_name, tables } => PlanModel::AnalyzeTables {
                database_name: database_name@,
                tables: views(tables@),
            },
            QueryPlan::TableMaintenanceRows { rows } => PlanModel::TableMaintenanceRows {
                rows: views(rows@),
            },
            QueryPlan::InsertRows {
                database_name,
                schema_name,
                schema,
                rows,
                on_conflict,
                returning,
            } => PlanModel::InsertRows {
                database_name: database_name@,
                schema_name: schema_name@,
                schema: schema@,
                rows: views(rows@),
                on_conflict: option_view(on_conflict),
                returning: option_views(returning),
            },
            QueryPlan::SelectRows {
                database_name,
                schema_name,
                schema,
                projection,
                access,
                limit,
                offset,
            } => PlanModel::SelectRows {
                database_name: database_name@,
                schema_name: schema_name@,
                schema: schema@,
                projection: views(projection@),
                access: access@,
                limit,
                offset,
            },
            QueryPlan::UpdateRows {
                database_name,
                schema_name,
                schema,
                assignments,
                access,
                limit,
                order_by_primary_key,
                returning,
            } => PlanModel::UpdateRows {
                database_name: database_name@,
                schema_name: schema_name@,
                schema: schema@,
                assignments: views(assignments@),
                access: access@,
                limit,
                order_by_primary_key,
                returning: option_views(returning),
            },
            QueryPlan::DeleteRows {
                database_name,
                schema_name,
                schema,
                access,
                limit,
                order_by_primary_key,
                returning,
            } => PlanModel::DeleteRows {
                database_name: database_name@,
                schema_name: schema_name@,
                schema: schema@,
                access: access@,
                limit,
                order_by_primary_key,
                returning: option_views(returning),
            },
        }
    }
}

} // verus!
