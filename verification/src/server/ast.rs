//! Statements that declare and change objects, as far as plans depend on them.
use vstd::prelude::*;

use crate::error::{Report, UserError};
use crate::names::{ObjectName, PartModel};
use crate::schema::{option_view, views};
use crate::types::{type_code, ColumnValue, DataType, Datum};

verus! {

/// What a column is declared to be.
#[derive(Debug)]
pub enum ColumnOptionKind {
    PrimaryKey,
    Unique,
    NotNull,
    /// A value, by its text.
    DefaultValue { expr: String },
    /// A value that every update sets, by its text.
    OnUpdate { expr: String },
    CharacterSet { name: String },
    Collation { name: String },
    /// A condition, by its text.
    Check { expr: String },
    /// Columns of another table.
    ForeignKey { foreign_table: ObjectName, referred_columns: Vec<String> },
    AutoIncrement,
    /// Anything that plans do not depend on.
    Other,
}

/// What a [`ColumnOptionKind`] says.
pub enum OptionModel {
    PrimaryKey,
    Unique,
    NotNull,
    DefaultValue { expr: Seq<char> },
    OnUpdate { expr: Seq<char> },
    CharacterSet { name: Seq<char> },
    Collation { name: Seq<char> },
    Check { expr: Seq<char> },
    ForeignKey { foreign_table: Seq<PartModel>, referred_columns: Seq<Seq<char>> },
    AutoIncrement,
    Other,
}

impl View for ColumnOptionKind {
    type V = OptionModel;

    open spec fn view(&self) -> OptionModel {
        match *self {
            ColumnOptionKind::PrimaryKey => OptionModel::PrimaryKey,
            ColumnOptionKind::Unique => OptionModel::Unique,
            ColumnOptionKind::NotNull => OptionModel::NotNull,
            ColumnOptionKind::DefaultValue { expr } => OptionModel::DefaultValue {
                expr: expr@,
            },
            ColumnOptionKind::OnUpdate { expr } => OptionModel::OnUpdate {
                expr: expr@,
            },
            ColumnOptionKind::CharacterSet { name } => OptionModel::CharacterSet {
                name: name@,
            },
            ColumnOptionKind::Collation { name } => OptionModel::Collation {
                name: name@,
            },
            ColumnOptionKind::Check { expr } => OptionModel::Check {
                expr: expr@,
            },
            ColumnOptionKind::ForeignKey {
                foreign_table,
                referred_columns,
            } => OptionModel::ForeignKey {
                foreign_table: foreign_table@,
                referred_columns: views(referred_columns@),
            },
            ColumnOptionKind::AutoIncrement => OptionModel::AutoIncrement,
            ColumnOptionKind::Other => OptionModel::Other,
        }
    }
}

/// A declaration of a column, with its name where it has one.
#[derive(Debug)]
pub struct ColumnOption {
    pub name: Option<String>,
    pub kind: ColumnOptionKind,
}

/// What a [`ColumnOption`] says.
pub struct ColumnOptionModel {
    pub name: Option<Seq<char>>,
    pub kind: OptionModel,
}

impl View for ColumnOption {
    type V = ColumnOptionModel;

    open spec fn view(&self) -> ColumnOptionModel {
        ColumnOptionModel {
            name: option_view(self.name),
            kind: self.kind@,
        }
    }
}

/// A column as a statement declares it; `serial` says that its type counts by itself.
#[derive(Debug)]
pub struct ColumnDef {
    pub name: String,
    pub data_type: DataType,
    pub serial: bool,
    pub options: Vec<ColumnOption>,
}

/// What a [`ColumnDef`] says.
pub struct DefModel {
    pub name: Seq<char>,
    pub data_type: Seq<char>,
    pub serial: bool,
    pub options: Seq<ColumnOptionModel>,
}

impl View for ColumnDef {
    type V = DefModel;

    open spec fn view(&self) -> DefModel {
        DefModel {
            name: self.name@,
            data_type: type_code(self.data_type),
            serial: self.serial,
            options: views(self.options@),
        }
    }
}

/// What a part of an index is made of.
#[derive(Debug)]
#[allow(inconsistent_fields)]
pub enum IndexTarget {
    /// A column, or a part of its text.
    Column { name: String },
    /// A call of a function.
    Call { name: ObjectName },
    /// An expression that names no column.
    Refused { error: UserError },
}

/// What a [`IndexTarget`] says.
#[allow(inconsistent_fields)]
pub enum TargetModel {
    Column { name: Seq<char> },
    Call { name: Seq<PartModel> },
    Refused { error: Report },
}

impl View for IndexTarget {
    type V = TargetModel;

    open spec fn view(&self) -> TargetModel {
        match *self {
            IndexTarget::Column { name } => TargetModel::Column {
                name: name@,
            },
            IndexTarget::Call { name } => TargetModel::Call {
                name: name@,
            },
            IndexTarget::Refused { error } => TargetModel::Refused {
                error: error@,
            },
        }
    }
}

/// A part of an index.
#[derive(Debug)]
pub struct IndexColumn {
    pub ascending: Option<bool>,
    pub nulls_first: Option<bool>,
    pub target: IndexTarget,
}

/// What a [`IndexColumn`] says.
pub struct IndexColumnModel {
    pub ascending: Option<bool>,
    pub nulls_first: Option<bool>,
    pub target: TargetModel,
}

impl View for IndexColumn {
    type V = IndexColumnModel;

    open spec fn view(&self) -> IndexColumnModel {
        IndexColumnModel {
            ascending: self.ascending,
            nulls_first: self.nulls_first,
            target: self.target@,
        }
    }
}

/// A constraint that a statement puts on a table.
#[derive(Debug)]
#[allow(inconsistent_fields)]
pub enum TableConstraint {
    Unique { name: Option<String>, columns: Vec<IndexColumn> },
    PrimaryKey { name: Option<String>, columns: Vec<IndexColumn> },
    Check { name: Option<String>, expr: String },
    ForeignKey {
        name: Option<String>,
        index_name: Option<String>,
        columns: Vec<String>,
        foreign_table: ObjectName,
        referred_columns: Vec<String>,
    },
    Index { name: Option<String>, columns: Vec<IndexColumn> },
    FulltextOrSpatial { name: Option<String>, columns: Vec<IndexColumn> },
    /// Anything that plans do not depend on.
    Other,
}

/// What a [`TableConstraint`] says.
#[allow(inconsistent_fields)]
pub enum ConstraintModel {
    Unique { name: Option<Seq<char>>, columns: Seq<IndexColumnModel> },
    PrimaryKey { name: Option<Seq<char>>, columns: Seq<IndexColumnModel> },
    Check { name: Option<Seq<char>>, expr: Seq<char> },
    ForeignKey {
        name: Option<Seq<char>>,
        index_name: Option<Seq<char>>,
        columns: Seq<Seq<char>>,
        foreign_table: Seq<PartModel>,
        referred_columns: Seq<Seq<char>>,
    },
    Index { name: Option<Seq<char>>, columns: Seq<IndexColumnModel> },
    FulltextOrSpatial { name: Option<Seq<char>>, columns: Seq<IndexColumnModel> },
    Other,
}

impl View for TableConstraint {
    type V = ConstraintModel;

    open spec fn view(&self) -> ConstraintModel {
        match *self {
            TableConstraint::Unique { name, columns } => ConstraintModel::Unique {
                name: option_view(name),
                columns: views(columns@),
            },
            TableConstraint::PrimaryKey { name, columns } => ConstraintModel::PrimaryKey {
                name: option_view(name),
                columns: views(columns@),
            },
            TableConstraint::Check { name, expr } => ConstraintModel::Check {
                name: option_view(name),
                expr: expr@,
            },
            TableConstraint::ForeignKey {
                name,
                index_name,
                columns,
                foreign_table,
                referred_columns,
            } => ConstraintModel::ForeignKey {
                name: option_view(name),
                index_name: option_view(index_name),
                columns: views(columns@),
                foreign_table: foreign_table@,
                referred_columns: views(referred_columns@),
            },
            TableConstraint::Index { name, columns } => ConstraintModel::Index {
                name: option_view(name),
                columns: views(columns@),
            },
            TableConstraint::FulltextOrSpatial {
                name,
                columns,
            } => ConstraintModel::FulltextOrSpatial {
                name: option_view(name),
                columns: views(columns@),
            },
            TableConstraint::Other => ConstraintModel::Other,
        }
    }
}

/// A change of one column.
#[derive(Debug)]
pub enum AlterColumnOperation {
    SetDefault { value: String },
    DropDefault,
    SetNotNull,
    DropNotNull,
    /// Anything that is not supported.
    Other,
}

/// What a [`AlterColumnOperation`] says.
pub enum ColumnChangeModel {
    SetDefault { value: Seq<char> },
    DropDefault,
    SetNotNull,
    DropNotNull,
    Other,
}

impl View for AlterColumnOperation {
    type V = ColumnChangeModel;

    open spec fn view(&self) -> ColumnChangeModel {
        match *self {
            AlterColumnOperation::SetDefault { value } => ColumnChangeModel::SetDefault {
                value: value@,
            },
            AlterColumnOperation::DropDefault => ColumnChangeModel::DropDefault,
            AlterColumnOperation::SetNotNull => ColumnChangeModel::SetNotNull,
            AlterColumnOperation::DropNotNull => ColumnChangeModel::DropNotNull,
            AlterColumnOperation::Other => ColumnChangeModel::Other,
        }
    }
}

/// A change of a table.
#[derive(Debug)]
#[allow(inconsistent_fields)]
pub enum AlterTableOperation {
    AddColumn { column: ColumnDef, if_not_exists: bool },
    ModifyColumn { column: ColumnDef },
    ChangeColumn { old_name: String, column: ColumnDef },
    DropColumn { column_names: Vec<String>, if_exists: bool },
    RenameColumn { old_column_name: String, new_column_name: String },
    RenameTable { new_name: ObjectName },
    AlterColumn { column_name: String, op: AlterColumnOperation },
    AddConstraint { constraint: TableConstraint },
    DropForeignKey { name: String },
    DropConstraint { name: String, if_exists: bool },
    DropIndex { name: String },
    AutoIncrement { value: String },
    Algorithm,
    Lock,
    /// Anything that is not supported.
    Other,
}

/// What a [`AlterTableOperation`] says.
#[allow(inconsistent_fields)]
pub enum AlterRequest {
    AddColumn { column: DefModel, if_not_exists: bool },
    ModifyColumn { column: DefModel },
    ChangeColumn { old_name: Seq<char>, column: DefModel },
    DropColumn { column_names: Seq<Seq<char>>, if_exists: bool },
    RenameColumn { old_column_name: Seq<char>, new_column_name: Seq<char> },
    RenameTable { new_name: Seq<PartModel> },
    AlterColumn { column_name: Seq<char>, op: ColumnChangeModel },
    AddConstraint { constraint: ConstraintModel },
    DropForeignKey { name: Seq<char> },
    DropConstraint { name: Seq<char>, if_exists: bool },
    DropIndex { name: Seq<char> },
    AutoIncrement { value: Seq<char> },
    Algorithm,
    Lock,
    Other,
}

impl View for AlterTableOperation {
    type V = AlterRequest;

    open spec fn view(&self) -> AlterRequest {
        match *self {
            AlterTableOperation::AddColumn { column, if_not_exists } => AlterRequest::AddColumn {
                column: column@,
                if_not_exists,
            },
            AlterTableOperation::ModifyColumn { column } => AlterRequest::ModifyColumn {
                column: column@,
            },
            AlterTableOperation::ChangeColumn { old_name, column } => AlterRequest::ChangeColumn {
                old_name: old_name@,
                column: column@,
            },
            AlterTableOperation::DropColumn {
                column_names,
                if_exists,
            } => AlterRequest::DropColumn {
                column_names: views(column_names@),
                if_exists,
            },
            AlterTableOperation::RenameColumn {
                old_column_name,
                new_column_name,
            } => AlterRequest::RenameColumn {
                old_column_name: old_column_name@,
                new_column_name: new_column_name@,
            },
            AlterTableOperation::RenameTable { new_name } => AlterRequest::RenameTable {
                new_name: new_name@,
            },
            AlterTableOperation::AlterColumn { column_name, op } => AlterRequest::AlterColumn {
                column_name: column_name@,
                op: op@,
            },
            AlterTableOperation::AddConstraint { constraint } => AlterRequest::AddConstraint {
                constraint: constraint@,
            },
            AlterTableOperation::DropForeignKey { name } => AlterRequest::DropForeignKey {
                name: name@,
            },
            AlterTableOperation::DropConstraint {
                name,
                if_exists,
            } => AlterRequest::DropConstraint {
                name: name@,
                if_exists,
            },
            AlterTableOperation::DropIndex { name } => AlterRequest::DropIndex {
                name: name@,
            },
            AlterTableOperation::AutoIncrement { value } => AlterRequest::AutoIncrement {
                value: value@,
            },
            AlterTableOperation::Algorithm => AlterRequest::Algorithm,
            AlterTableOperation::Lock => AlterRequest::Lock,
            AlterTableOperation::Other => AlterRequest::Other,
        }
    }
}

/// The value of an option of a sequence.
#[derive(Debug)]
pub enum SequenceValue {
    Value { value: ColumnValue },
    /// An expression without a value.
    Refused { error: UserError },
}

/// What a [`SequenceValue`] says.
pub enum SequenceValueModel {
    Value { value: Datum },
    Refused { error: Report },
}

impl View for SequenceValue {
    type V = SequenceValueModel;

    open spec fn view(&self) -> SequenceValueModel {
        match *self {
            SequenceValue::Value { value } => SequenceValueModel::Value {
                value: value@,
            },
            SequenceValue::Refused { error } => SequenceValueModel::Refused {
                error: error@,
            },
        }
    }
}

/// An option of a sequence.
#[derive(Debug)]
pub enum SequenceOption {
    StartWith { value: SequenceValue },
    IncrementBy { value: SequenceValue },
    /// Anything that plans do not depend on.
    Other,
}

/// What a [`SequenceOption`] says.
pub enum SequenceOptionModel {
    StartWith { value: SequenceValueModel },
    IncrementBy { value: SequenceValueModel },
    Other,
}

impl View for SequenceOption {
    type V = SequenceOptionModel;

    open spec fn view(&self) -> SequenceOptionModel {
        match *self {
            SequenceOption::StartWith { value } => SequenceOptionModel::StartWith {
                value: value@,
            },
            SequenceOption::IncrementBy { value } => SequenceOptionModel::IncrementBy {
                value: value@,
            },
            SequenceOption::Other => SequenceOptionModel::Other,
        }
    }
}

} // verus!
