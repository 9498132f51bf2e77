//! Plans for statements that make, change and drop objects.
use vstd::prelude::*;

use crate::catalog::codec::{resolve_table_reference, table_reference};
use crate::catalog::model::{
    bootstrapped, database_found, index_found, law_bootstrap_is_stable, no_database, no_table,
    schema_found, scope_found,
};
use crate::catalog::types::DatabaseModel;
use crate::error::{
    not_internal, report, unsupported, unsupported_report, user_error, user_error_text, Report,
    UserError,
};
use crate::mem_store::{Contents, KvStore};
use crate::names::{
    join_names, joined, object_name, object_name_to_string, schema_name_of, schema_name_to_string,
    ObjectName, PartModel, SchemaName,
};
use crate::schema::{
    column_position, duplicate_all, has_column, option_view, seen, views, CheckConstraintSchema,
    CheckModel, Duplicate, ForeignKeyConstraintSchema, ForeignKeyModel, TableModel, TableSchema,
    UniqueConstraintSchema, UniqueModel,
};
use crate::server::alter::{no_column, no_column_error};
use crate::server::ast::{
    AlterColumnOperation, AlterRequest, AlterTableOperation, ColumnChangeModel, ColumnDef,
    ConstraintModel, DefModel, IndexColumn, IndexColumnModel, SequenceOption, SequenceOptionModel,
    SequenceValue, SequenceValueModel, TableConstraint,
};
use crate::server::ddl_columns::{
    column_described, column_schema_from_def, constraint_name, constraint_text, index_column_name,
    index_column_names, indexed_column, indexed_columns, low_bits, name_or, named_or,
    ordinal_behind, two_texts,
};
use crate::server::exec_rows::{require_columns, unknown_column};
use crate::server::gateway::{
    has_dot, is_misnamed, only_opened, resolve_scoped_name, scoped_name, table_required,
    table_resolved, GatewayServer,
};
use crate::server::plan::{
    AlterModel, PlanModel, QualifiedModel, QualifiedName, QueryPlan, TableAlterOperation,
};
use crate::text::{
    chars_of, mark_at, parse_whole, same_but_for_case, same_text, three_texts, whole_number,
};
use crate::types::{ColumnValue, Datum};

verus! {

/// What the changes of a table come to: changes of its description, or a primary key.
pub enum AlterOutcome {
    Operations(Seq<AlterModel>),
    PrimaryKey(Seq<char>),
}

/// Some changes with a new index behind them.
pub open spec fn with_new_index(
    planned: Seq<AlterModel>,
    table_name: Seq<char>,
    name: Option<Seq<char>>,
    parts: Seq<IndexColumnModel>,
) -> Result<AlterOutcome, Report> {
    match indexed_columns(parts) {
        Err(e) => Err(e),
        Ok(names) => Ok(
            AlterOutcome::Operations(
                planned.push(
                    AlterModel::AddIndex {
                        index_name: named_or(
                            name,
                            constraint_text(table_name, joined(names, "_"@), "_idx"@),
                        ),
                        column_names: names,
                        unique: false,
                        if_not_exists: false,
                    },
                ),
            ),
        ),
    }
}

/// Some changes with a new constraint behind them.
pub open spec fn with_new_constraint(
    planned: Seq<AlterModel>,
    table: TableModel,
    count: nat,
    constraint: ConstraintModel,
) -> Result<AlterOutcome, Report> {
    match constraint {
        ConstraintModel::PrimaryKey { name, columns } => if columns.len() != 1 {
            Err(unsupported_report("fast-path ALTER TABLE operation is not supported yet"@))
        } else if count != 1 {
            Err(
                unsupported_report(
                    "ALTER TABLE ADD PRIMARY KEY cannot be combined with other operations"@,
                ),
            )
        } else {
            match indexed_column(columns[0]) {
                Err(e) => Err(e),
                Ok(column) => if has_column(table.columns, column) {
                    Ok(AlterOutcome::PrimaryKey(column))
                } else {
                    Err(no_column(column))
                },
            }
        },
        ConstraintModel::Unique { name, columns } => match indexed_columns(columns) {
            Err(e) => Err(e),
            Ok(names) => if names.len() == 0 {
                Err(report("42601"@, "UNIQUE constraint requires columns"@))
            } else {
                Ok(
                    AlterOutcome::Operations(
                        planned.push(
                            AlterModel::AddUnique {
                                constraint: UniqueModel {
                                    name: named_or(
                                        name,
                                        constraint_text(
                                            table.table_name,
                                            joined(names, "_"@),
                                            "_key"@,
                                        ),
                                    ),
                                    columns: names,
                                    primary_key: false,
                                },
                            },
                        ),
                    ),
                )
            },
        },
        ConstraintModel::Check { name, expr } => Ok(
            AlterOutcome::Operations(
                planned.push(
                    AlterModel::AddCheck {
                        constraint: CheckModel {
                            name: named_or(name, table.table_name + "_check"@),
                            expr,
                        },
                    },
                ),
            ),
        ),
        ConstraintModel::ForeignKey {
            name,
            index_name,
            columns,
            foreign_table,
            referred_columns,
        } => match object_name(foreign_table) {
            Err(e) => Err(e),
            Ok(foreign) => Ok(
                AlterOutcome::Operations(
                    planned.push(
                        AlterModel::AddForeignKey {
                            constraint: ForeignKeyModel {
                                name: named_or(
                                    name,
                                    named_or(index_name, table.table_name + "_fkey"@),
                                ),
                                columns,
                                foreign_table: foreign,
                                referred_columns,
                            },
                        },
                    ),
                ),
            ),
        },
        ConstraintModel::Index { name, columns } => with_new_index(
            planned,
            table.table_name,
            name,
            columns,
        ),
        ConstraintModel::FulltextOrSpatial { name, columns } => with_new_index(
            planned,
            table.table_name,
            name,
            columns,
        ),
        ConstraintModel::Other => Err(
            unsupported_report("fast-path ALTER TABLE operation is not supported yet"@),
        ),
    }
}

/// Some changes with a new declaration of a column behind them.
pub open spec fn with_new_column(
    planned: Seq<AlterModel>,
    schema_name: Seq<char>,
    table: TableModel,
    old_name: Seq<char>,
    def: DefModel,
    refusal: Seq<char>,
) -> Result<AlterOutcome, Report> {
    match column_position(table.columns, old_name) {
        None => Err(no_column(old_name)),
        Some(position) => match column_described(
            schema_name,
            table.table_name,
            low_bits((position + 1) as nat),
            def,
        ) {
            Err(e) => Err(e),
            Ok(parts) => if parts.is_plain() {
                Ok(
                    AlterOutcome::Operations(
                        planned.push(
                            AlterModel::ModifyColumn {
                                column_name: old_name,
                                column: parts.column,
                            },
                        ),
                    ),
                )
            } else {
                Err(unsupported_report(refusal))
            },
        },
    }
}

/// Why a new column may bring no constraints along.
pub const ADD_COLUMN_REFUSAL: &'static str = "ALTER TABLE ADD COLUMN supports column type/default/nullability; inline CHECK/UNIQUE/REFERENCES should be added separately";

/// Why a modified column may bring no constraints along.
pub const MODIFY_COLUMN_REFUSAL: &'static str = "ALTER TABLE MODIFY COLUMN supports type/default/nullability/charset/collation/on update; constraints should be added separately";

/// Why a changed column may bring no constraints along.
pub const CHANGE_COLUMN_REFUSAL: &'static str = "ALTER TABLE CHANGE COLUMN supports type/default/nullability/charset/collation/on update; constraints should be added separately";

/// Some changes, with those that one more request of a statement with `count` requests asks for
/// behind them.
pub open spec fn operation_planned(
    planned: Seq<AlterModel>,
    schema_name: Seq<char>,
    table: TableModel,
    count: nat,
    operation: AlterRequest,
) -> Result<AlterOutcome, Report> {
    match operation {
        AlterRequest::AddColumn { column, if_not_exists } => match column_described(
            schema_name,
            table.table_name,
            low_bits(table.columns.len() + planned.len() + 1),
            column,
        ) {
            Err(e) => Err(e),
            Ok(parts) => if parts.is_plain() {
                Ok(
                    AlterOutcome::Operations(
                        planned.push(
                            AlterModel::AddColumn { column: parts.column, if_not_exists },
                        ),
                    ),
                )
            } else {
                Err(unsupported_report(ADD_COLUMN_REFUSAL@))
            },
        },
        AlterRequest::ModifyColumn { column } => with_new_column(
            planned,
            schema_name,
            table,
            column.name,
            column,
            MODIFY_COLUMN_REFUSAL@,
        ),
        AlterRequest::ChangeColumn { old_name, column } => with_new_column(
            planned,
            schema_name,
            table,
            old_name,
            column,
            CHANGE_COLUMN_REFUSAL@,
        ),
        AlterRequest::DropColumn { column_names, if_exists } => Ok(
            AlterOutcome::Operations(
                planned + column_names.map_values(
                    |column_name: Seq<char>| AlterModel::DropColumn { column_name, if_exists },
                ),
            ),
        ),
        AlterRequest::RenameColumn { old_column_name, new_column_name } => Ok(
            AlterOutcome::Operations(
                planned.push(
                    AlterModel::RenameColumn {
                        old_name: old_column_name,
                        new_name: new_column_name,
                    },
                ),
            ),
        ),
        AlterRequest::RenameTable { new_name } => if count != 1 {
            Err(
                unsupported_report(
                    "ALTER TABLE RENAME TO cannot be combined with other operations"@,
                ),
            )
        } else {
            match object_name(new_name) {
                Err(e) => Err(e),
                Ok(name) => if mark_at(name, '.') is Some {
                    Err(
                        unsupported_report(
                            "ALTER TABLE RENAME TO only supports unqualified table names"@,
                        ),
                    )
                } else {
                    Ok(
                        AlterOutcome::Operations(
                            planned.push(AlterModel::RenameTable { new_name: name }),
                        ),
                    )
                },
            }
        },
        AlterRequest::AlterColumn { column_name, op } => match op {
            ColumnChangeModel::SetDefault { value } => Ok(
                AlterOutcome::Operations(
                    planned.push(AlterModel::SetDefault { column_name, default: Some(value) }),
                ),
            ),
            ColumnChangeModel::DropDefault => Ok(
                AlterOutcome::Operations(
                    planned.push(AlterModel::SetDefault { column_name, default: None }),
                ),
            ),
            ColumnChangeModel::SetNotNull => Ok(
                AlterOutcome::Operations(
                    planned.push(AlterModel::SetNotNull { column_name, nullable: false }),
                ),
            ),
            ColumnChangeModel::DropNotNull => Ok(
                AlterOutcome::Operations(
                    planned.push(AlterModel::SetNotNull { column_name, nullable: true }),
                ),
            ),
            ColumnChangeModel::Other => Err(
                unsupported_report(
                    "ALTER TABLE ALTER COLUMN only supports DEFAULT and NOT NULL changes"@,
                ),
            ),
        },
        AlterRequest::AddConstraint { constraint } => with_new_constraint(
            planned,
            table,
            count,
            constraint,
        ),
        AlterRequest::DropForeignKey { name } => Ok(
            AlterOutcome::Operations(
                planned.push(AlterModel::DropForeignKey { name, if_exists: false }),
            ),
        ),
        AlterRequest::DropConstraint { name, if_exists } => Ok(
            AlterOutcome::Operations(planned.push(AlterModel::DropForeignKey { name, if_exists })),
        ),
        AlterRequest::DropIndex { name } => Ok(
            AlterOutcome::Operations(
                planned.push(AlterModel::DropIndex { index_name: name, if_exists: false }),
            ),
        ),
        AlterRequest::AutoIncrement { value } => match whole_number(value) {
            Some(n) => Ok(
                AlterOutcome::Operations(
                    planned.push(AlterModel::SetAutoIncrement { value: n as i64 }),
                ),
            ),
            None => Err(report("22023"@, "AUTO_INCREMENT value must be an integer"@)),
        },
        AlterRequest::Algorithm => Ok(AlterOutcome::Operations(planned)),
        AlterRequest::Lock => Ok(AlterOutcome::Operations(planned)),
        AlterRequest::Other => Err(
            unsupported_report("fast-path ALTER TABLE operation is not supported yet"@),
        ),
    }
}

/// What the requests of a statement, one after the other, come to.
pub open spec fn operations_planned(
    schema_name: Seq<char>,
    table: TableModel,
    count: nat,
    operations: Seq<AlterRequest>,
) -> Result<AlterOutcome, Report>
    decreases operations.len(),
{
    if operations.len() == 0 {
        Ok(AlterOutcome::Operations(seq![]))
    } else {
        match operations_planned(schema_name, table, count, operations.drop_last()) {
            Err(e) => Err(e),
            Ok(AlterOutcome::PrimaryKey(column)) => Ok(AlterOutcome::PrimaryKey(column)),
            Ok(AlterOutcome::Operations(planned)) => operation_planned(
                planned,
                schema_name,
                table,
                count,
                operations.last(),
            ),
        }
    }
}

/// What ends the planning of the first requests ends that of all.
proof fn lemma_operations_end(
    schema_name: Seq<char>,
    table: TableModel,
    count: nat,
    operations: Seq<AlterRequest>,
    n: int,
)
    requires
        0 <= n <= operations.len(),
        !(operations_planned(schema_name, table, count, operations.take(n)) matches Ok(outcome)
            && outcome is Operations),
    ensures
        operations_planned(schema_name, table, count, operations) == operations_planned(
            schema_name,
            table,
            count,
            operations.take(n),
        ),
    decreases operations.len() - n,
{
    if n == operations.len() {
        assert(operations.take(n) =~= operations);
    } else {
        assert(operations.take(n + 1).drop_last() =~= operations.take(n));
        lemma_operations_end(schema_name, table, count, operations, n + 1);
    }
}

/// The plan of a statement that changes a table.
pub open spec fn alter_planned(
    contents: Contents,
    database_name: Seq<char>,
    search_path: Seq<Seq<char>>,
    name: Seq<PartModel>,
    operations: Seq<AlterRequest>,
) -> Result<PlanModel, Report> {
    match object_name(name) {
        Err(e) => Err(e),
        Ok(text) => match table_required(contents, database_name, search_path, text) {
            Err(e) => Err(e),
            Ok((schema_name, table)) => if operations.len() == 0 {
                Ok(PlanModel::Noop { tag: "ALTER TABLE"@ })
            } else {
                match operations_planned(schema_name, table, operations.len(), operations) {
                    Err(e) => Err(e),
                    Ok(AlterOutcome::PrimaryKey(column_name)) => Ok(
                        PlanModel::AlterTableAddPrimaryKey {
                            database_name,
                            schema_name,
                            table_name: table.table_name,
                            column_name,
                        },
                    ),
                    Ok(AlterOutcome::Operations(planned)) => Ok(
                        PlanModel::AlterTable {
                            database_name,
                            schema_name,
                            table_name: table.table_name,
                            operations: planned,
                        },
                    ),
                }
            },
        },
    }
}

/// Puts a change behind others.
fn add_change(planned: &mut Vec<TableAlterOperation>, change: TableAlterOperation)
    ensures
        views(final(planned)@) == views(old(planned)@).push(change@),
{
    let ghost before = views(planned@);
    let ghost added = change@;
    planned.push(change);
    assert(views(planned@) =~= before.push(added));
}

/// What is seen of the planning of a request: the changes so far, or a primary key.
pub open spec fn seen_outcome(
    result: Result<Option<String>, UserError>,
    planned: Seq<TableAlterOperation>,
) -> Result<AlterOutcome, Report> {
    match result {
        Err(e) => Err(e@),
        Ok(Some(column)) => Ok(AlterOutcome::PrimaryKey(column@)),
        Ok(None) => Ok(AlterOutcome::Operations(views(planned))),
    }
}

/// Plans a new index.
fn plan_new_index(
    planned: &mut Vec<TableAlterOperation>,
    table_name: &str,
    name: &Option<String>,
    parts: &Vec<IndexColumn>,
) -> (result: Result<Option<String>, UserError>)
    ensures
        seen_outcome(result, final(planned)@) == with_new_index(
            views(old(planned)@),
            table_name@,
            option_view(*name),
            views(parts@),
        ),
{
    let names = match index_column_names(parts) {
        Err(e) => {
            return Err(e);
        },
        Ok(names) => names,
    };
    let text = join_names(&names, "_");
    add_change(
        planned,
        TableAlterOperation::AddIndex {
            index_name: name_or(name, constraint_name(table_name, text.as_str(), "_idx")),
            column_names: names,
            unique: false,
            if_not_exists: false,
        },
    );
    Ok(None)
}

/// Plans a new constraint.
fn plan_new_constraint(
    planned: &mut Vec<TableAlterOperation>,
    schema: &TableSchema,
    count: usize,
    constraint: &TableConstraint,
) -> (result: Result<Option<String>, UserError>)
    ensures
        seen_outcome(result, final(planned)@) == with_new_constraint(
            views(old(planned)@),
            schema@,
            count as nat,
            constraint@,
        ),
{
    match constraint {
        TableConstraint::PrimaryKey { name, columns } => {
            if columns.len() != 1 {
                return Err(unsupported("fast-path ALTER TABLE operation is not supported yet"));
            }
            if count != 1 {
                return Err(
                    unsupported(
                        "ALTER TABLE ADD PRIMARY KEY cannot be combined with other operations",
                    ),
                );
            }
            assert(views(columns@)[0] == columns@[0]@);
            let column = match index_column_name(&columns[0]) {
                Err(e) => {
                    return Err(e);
                },
                Ok(column) => column,
            };
            if schema.find_column(column.as_str()).is_none() {
                return Err(no_column_error(column.as_str()));
            }
            Ok(Some(column))
        },
        TableConstraint::Unique { name, columns } => {
            let names = match index_column_names(columns) {
                Err(e) => {
                    return Err(e);
                },
                Ok(names) => names,
            };
            if names.len() == 0 {
                return Err(user_error("42601", "UNIQUE constraint requires columns"));
            }
            let text = join_names(&names, "_");
            let unique = UniqueConstraintSchema {
                name: name_or(
                    name,
                    constraint_name(schema.table_name.as_str(), text.as_str(), "_key"),
                ),
                columns: names,
                primary_key: false,
            };
            add_change(planned, TableAlterOperation::AddUnique { constraint: unique });
            Ok(None)
        },
        TableConstraint::Check { name, expr } => {
            let check = CheckConstraintSchema {
                name: name_or(name, two_texts(schema.table_name.as_str(), "_check")),
                expr: expr.clone(),
            };
            add_change(planned, TableAlterOperation::AddCheck { constraint: check });
            Ok(None)
        },
        TableConstraint::ForeignKey {
            name,
            index_name,
            columns,
            foreign_table,
            referred_columns,
        } => {
            let foreign = match object_name_to_string(foreign_table) {
                Err(e) => {
                    return Err(e);
                },
                Ok(foreign) => foreign,
            };
            let other = name_or(index_name, two_texts(schema.table_name.as_str(), "_fkey"));
            let key = ForeignKeyConstraintSchema {
                name: name_or(name, other),
                columns: duplicate_all(columns),
                foreign_table: foreign,
                referred_columns: duplicate_all(referred_columns),
            };
            add_change(planned, TableAlterOperation::AddForeignKey { constraint: key });
            Ok(None)
        },
        TableConstraint::Index { name, columns } => plan_new_index(
            planned,
            schema.table_name.as_str(),
            name,
            columns,
        ),
        TableConstraint::FulltextOrSpatial { name, columns } => plan_new_index(
            planned,
            schema.table_name.as_str(),
            name,
            columns,
        ),
        TableConstraint::Other => Err(
            unsupported("fast-path ALTER TABLE operation is not supported yet"),
        ),
    }
}

/// Plans a new declaration of a column.
fn plan_new_column(
    planned: &mut Vec<TableAlterOperation>,
    schema_name: &str,
    schema: &TableSchema,
    old_name: &str,
    def: &ColumnDef,
    refusal: &str,
) -> (result: Result<Option<String>, UserError>)
    ensures
        seen_outcome(result, final(planned)@) == with_new_column(
            views(old(planned)@),
            schema_name@,
            schema@,
            old_name@,
            def@,
            refusal@,
        ),
{
    let position: usize = match schema.position_of(old_name) {
        None => {
            return Err(no_column_error(old_name));
        },
        Some(position) => position,
    };
    match column_schema_from_def(
        schema_name,
        schema.table_name.as_str(),
        ordinal_behind(position, 0),
        def,
    ) {
        Err(e) => Err(e),
        Ok(parts) => {
            if parts.checks.len() > 0 || parts.unique.is_some() || parts.foreign_key.is_some() {
                return Err(unsupported(refusal));
            }
            add_change(
                planned,
                TableAlterOperation::ModifyColumn {
                    column_name: old_name.to_string(),
                    column: parts.column,
                },
            );
            Ok(None)
        },
    }
}

/// Plans one request of a statement that changes a table.
#[verifier::rlimit(40)]
pub fn plan_alter_operation(
    planned: &mut Vec<TableAlterOperation>,
    schema_name: &str,
    schema: &TableSchema,
    count: usize,
    operation: &AlterTableOperation,
) -> (result: Result<Option<String>, UserError>)
    ensures
        seen_outcome(result, final(planned)@) == operation_planned(
            views(old(planned)@),
            schema_name@,
            schema@,
            count as nat,
            operation@,
        ),
{
    match operation {
        AlterTableOperation::AddColumn { column, if_not_exists } => {
            match column_schema_from_def(
                schema_name,
                schema.table_name.as_str(),
                ordinal_behind(schema.columns.len(), planned.len()),
                column,
            ) {
                Err(e) => Err(e),
                Ok(parts) => {
                    if parts.checks.len() > 0 || parts.unique.is_some()
                        || parts.foreign_key.is_some() {
                        return Err(unsupported(ADD_COLUMN_REFUSAL));
                    }
                    add_change(
                        planned,
                        TableAlterOperation::AddColumn {
                            column: parts.column,
                            if_not_exists: *if_not_exists,
                        },
                    );
                    Ok(None)
                },
            }
        },
        AlterTableOperation::ModifyColumn { column } => plan_new_column(
            planned,
            schema_name,
            schema,
            column.name.as_str(),
            column,
            MODIFY_COLUMN_REFUSAL,
        ),
        AlterTableOperation::ChangeColumn { old_name, column } => plan_new_column(
            planned,
            schema_name,
            schema,
            old_name.as_str(),
            column,
            CHANGE_COLUMN_REFUSAL,
        ),
        AlterTableOperation::DropColumn { column_names, if_exists } => {
            let ghost before = views(planned@);
            let ghost drops = views(column_names@).map_values(
                |column_name: Seq<char>|
                    AlterModel::DropColumn { column_name, if_exists: *if_exists },
            );
            let mut i: usize = 0;
            assert(before + drops.take(0) =~= before);
            while i < column_names.len()
                invariant
                    i <= column_names@.len(),
                    drops == views(column_names@).map_values(
                        |column_name: Seq<char>|
                            AlterModel::DropColumn { column_name, if_exists: *if_exists },
                    ),
                    views(planned@) == before + drops.take(i as int),
                decreases column_names@.len() - i,
            {
                add_change(
                    planned,
                    TableAlterOperation::DropColumn {
                        column_name: column_names[i].clone(),
                        if_exists: *if_exists,
                    },
                );
                assert(views(column_names@)[i as int] == column_names@[i as int]@);
                assert(drops.take(i + 1) =~= drops.take(i as int).push(drops[i as int]));
                assert(views(planned@) =~= before + drops.take(i + 1));
                i += 1;
            }
            assert(drops.take(i as int) =~= drops);
            Ok(None)
        },
        AlterTableOperation::RenameColumn { old_column_name, new_column_name } => {
            add_change(
                planned,
                TableAlterOperation::RenameColumn {
                    old_name: old_column_name.clone(),
                    new_name: new_column_name.clone(),
                },
            );
            Ok(None)
        },
        AlterTableOperation::RenameTable { new_name } => {
            if count != 1 {
                return Err(
                    unsupported("ALTER TABLE RENAME TO cannot be combined with other operations"),
                );
            }
            let name = match object_name_to_string(new_name) {
                Err(e) => {
                    return Err(e);
                },
                Ok(name) => name,
            };
            if has_dot(name.as_str()) {
                return Err(
                    unsupported("ALTER TABLE RENAME TO only supports unqualified table names"),
                );
            }
            add_change(planned, TableAlterOperation::RenameTable { new_name: name });
            Ok(None)
        },
        AlterTableOperation::AlterColumn { column_name, op } => {
            let change = match op {
                AlterColumnOperation::SetDefault { value } => TableAlterOperation::SetDefault {
                    column_name: column_name.clone(),
                    default: Some(value.clone()),
                },
                AlterColumnOperation::DropDefault => TableAlterOperation::SetDefault {
                    column_name: column_name.clone(),
                    default: None,
                },
                AlterColumnOperation::SetNotNull => TableAlterOperation::SetNotNull {
                    column_name: column_name.clone(),
                    nullable: false,
                },
                AlterColumnOperation::DropNotNull => TableAlterOperation::SetNotNull {
                    column_name: column_name.clone(),
                    nullable: true,
                },
                AlterColumnOperation::Other => {
                    return Err(
                        unsupported(
                            "ALTER TABLE ALTER COLUMN only supports DEFAULT and NOT NULL changes",
                        ),
                    );
                },
            };
            add_change(planned, change);
            Ok(None)
        },
        AlterTableOperation::AddConstraint { constraint } => plan_new_constraint(
            planned,
            schema,
            count,
            constraint,
        ),
        AlterTableOperation::DropForeignKey { name } => {
            add_change(
                planned,
                TableAlterOperation::DropForeignKey { name: name.clone(), if_exists: false },
            );
            Ok(None)
        },
        AlterTableOperation::DropConstraint { name, if_exists } => {
            add_change(
                planned,
                TableAlterOperation::DropForeignKey { name: name.clone(), if_exists: *if_exists },
            );
            Ok(None)
        },
        AlterTableOperation::DropIndex { name } => {
            add_change(
                planned,
                TableAlterOperation::DropIndex { index_name: name.clone(), if_exists: false },
            );
            Ok(None)
        },
        AlterTableOperation::AutoIncrement { value } => {
            let chars = chars_of(value.as_str());
            match parse_whole(chars.as_slice()) {
                Some(n) => {
                    add_change(planned, TableAlterOperation::SetAutoIncrement { value: n });
                    Ok(None)
                },
                None => Err(user_error("22023", "AUTO_INCREMENT value must be an integer")),
            }
        },
        AlterTableOperation::Algorithm => Ok(None),
        AlterTableOperation::Lock => Ok(None),
        AlterTableOperation::Other => Err(
            unsupported("fast-path ALTER TABLE operation is not supported yet"),
        ),
    }
}

/// The name of a table that is to be dropped, with its schema.
pub open spec fn table_to_drop(
    contents: Contents,
    database_name: Seq<char>,
    search_path: Seq<Seq<char>>,
    name: Seq<PartModel>,
    if_exists: bool,
) -> Result<QualifiedModel, Report> {
    match object_name(name) {
        Err(e) => Err(e),
        Ok(text) => if mark_at(text, '.') is Some {
            match table_reference(text) {
                Err(e) => Err(e),
                Ok((schema_name, name)) => Ok(QualifiedModel { schema_name, name }),
            }
        } else {
            match table_resolved(contents, database_name, search_path, text) {
                Err(e) => Err(e),
                Ok((schema_name, table)) => if table is None && !if_exists {
                    Err(no_table(text))
                } else {
                    Ok(QualifiedModel { schema_name, name: text })
                },
            }
        },
    }
}

/// The first schema of a search path with an index of a name.
pub open spec fn index_searched(
    contents: Contents,
    database_id: u32,
    search_path: Seq<Seq<char>>,
    index_name: Seq<char>,
) -> Result<Option<Seq<char>>, Report>
    decreases search_path.len(),
{
    if search_path.len() == 0 {
        Ok(None)
    } else {
        match schema_found(contents, database_id, search_path[0]) {
            Err(e) => Err(e),
            Ok(None) => index_searched(contents, database_id, search_path.skip(1), index_name),
            Ok(Some(schema)) => match index_found(
                contents,
                database_id,
                schema.schema_id,
                index_name,
            ) {
                Err(e) => Err(e),
                Ok(Some(index)) => Ok(Some(search_path[0])),
                Ok(None) => index_searched(contents, database_id, search_path.skip(1), index_name),
            },
        }
    }
}

/// The name of an index that is to be dropped, with its schema.
pub open spec fn index_to_drop(
    contents: Contents,
    database_id: u32,
    search_path: Seq<Seq<char>>,
    name: Seq<PartModel>,
    if_exists: bool,
) -> Result<QualifiedModel, Report> {
    match object_name(name) {
        Err(e) => Err(e),
        Ok(text) => if mark_at(text, '.') is Some {
            match table_reference(text) {
                Err(e) => Err(e),
                Ok((schema_name, name)) => Ok(QualifiedModel { schema_name, name }),
            }
        } else {
            match index_searched(contents, database_id, search_path, text) {
                Err(e) => Err(e),
                Ok(Some(schema_name)) => Ok(QualifiedModel { schema_name, name: text }),
                Ok(None) => if if_exists {
                    Ok(QualifiedModel { schema_name: search_path[0], name: text })
                } else {
                    Err(report("42P01"@, "index '"@ + text + "' does not exist"@))
                },
            }
        },
    }
}

/// The name of an object that is to be dropped, in a default schema where it names none.
pub open spec fn object_to_drop(default_schema: Seq<char>, name: Seq<PartModel>) -> Result<
    QualifiedModel,
    Report,
> {
    match object_name(name) {
        Err(e) => Err(e),
        Ok(text) => match scoped_name(default_schema, text) {
            Err(e) => Err(e),
            Ok((schema_name, name)) => Ok(QualifiedModel { schema_name, name }),
        },
    }
}

/// What each of several names comes to; the first failure is that of all.
pub open spec fn each_resolved<V, R>(
    names: Seq<V>,
    resolve: spec_fn(V) -> Result<R, Report>,
) -> Result<Seq<R>, Report>
    decreases names.len(),
{
    if names.len() == 0 {
        Ok(seq![])
    } else {
        match each_resolved(names.drop_last(), resolve) {
            Err(e) => Err(e),
            Ok(found) => match resolve(names.last()) {
                Err(e) => Err(e),
                Ok(one) => Ok(found.push(one)),
            },
        }
    }
}

/// A failure among the first names is that of all.
pub proof fn lemma_each_fails<V, R>(
    names: Seq<V>,
    resolve: spec_fn(V) -> Result<R, Report>,
    n: int,
)
    requires
        0 <= n <= names.len(),
        each_resolved(names.take(n), resolve) is Err,
    ensures
        each_resolved(names, resolve) == each_resolved(names.take(n), resolve),
    decreases names.len() - n,
{
    if n == names.len() {
        assert(names.take(n) =~= names);
    } else {
        assert(names.take(n + 1).drop_last() =~= names.take(n));
        lemma_each_fails(names, resolve, n + 1);
    }
}

/// The names of objects that are to be dropped.
pub open spec fn objects_to_drop(default_schema: Seq<char>, names: Seq<Seq<PartModel>>) -> Result<
    Seq<QualifiedModel>,
    Report,
> {
    each_resolved(names, |name: Seq<PartModel>| object_to_drop(default_schema, name))
}

/// The names of objects that are to be dropped.
pub fn dropped_objects(default_schema: &str, names: &Vec<ObjectName>) -> (result: Result<
    Vec<QualifiedName>,
    UserError,
>)
    ensures
        crate::schema::seen_all(result) == objects_to_drop(default_schema@, views(names@)),
{
    let ghost all = views(names@);
    let ghost resolve = |name: Seq<PartModel>| object_to_drop(default_schema@, name);
    let mut found: Vec<QualifiedName> = Vec::new();
    let mut i: usize = 0;
    assert(all.take(0) =~= Seq::<Seq<PartModel>>::empty());
    assert(views(found@) =~= Seq::<QualifiedModel>::empty());
    while i < names.len()
        invariant
            i <= names@.len(),
            all == views(names@),
            resolve == (|name: Seq<PartModel>| object_to_drop(default_schema@, name)),
            each_resolved(all.take(i as int), resolve) == Ok::<Seq<QualifiedModel>, Report>(
                views(found@),
            ),
        decreases names@.len() - i,
    {
        assert(all.take(i + 1).drop_last() =~= all.take(i as int));
        assert(all.take(i + 1).last() == names@[i as int]@);
        let text = match object_name_to_string(&names[i]) {
            Err(e) => {
                proof {
                    lemma_each_fails(all, resolve, i + 1);
                }
                return Err(e);
            },
            Ok(text) => text,
        };
        match resolve_scoped_name(default_schema, text.as_str()) {
            Err(e) => {
                proof {
                    lemma_each_fails(all, resolve, i + 1);
                }
                return Err(e);
            },
            Ok((schema_name, name)) => {
                let ghost before = views(found@);
                let ghost added = QualifiedModel { schema_name: schema_name@, name: name@ };
                found.push(QualifiedName { schema_name, name });
                assert(views(found@) =~= before.push(added));
            },
        }
        i += 1;
    }
    assert(all.take(i as int) =~= all);
    Ok(found)
}

/// The number that an option of a sequence gives.
pub open spec fn sequence_number(value: SequenceValueModel) -> Result<i64, Report> {
    match value {
        SequenceValueModel::Value { value: Datum::Int64(n) } => Ok(n),
        SequenceValueModel::Value { value } => Err(
            report("22023"@, "sequence option must be an integer"@),
        ),
        SequenceValueModel::Refused { error } => Err(error),
    }
}

/// The number that an option of a sequence gives.
pub fn sequence_option_i64(value: &SequenceValue) -> (result: Result<i64, UserError>)
    ensures
        crate::error::outcome(result) == sequence_number(value@),
{
    match value {
        SequenceValue::Value { value } => match value {
            ColumnValue::Int64(n) => Ok(*n),
            _ => Err(user_error("22023", "sequence option must be an integer")),
        },
        SequenceValue::Refused { error } => Err(error.duplicate()),
    }
}

/// The start and the step of a sequence, which is not zero.
pub open spec fn sequence_described(options: Seq<SequenceOptionModel>) -> Result<(i64, i64), Report>
    decreases options.len(),
{
    if options.len() == 0 {
        Ok((1, 1))
    } else {
        match sequence_described(options.drop_last()) {
            Err(e) => Err(e),
            Ok((start, increment)) => match options.last() {
                SequenceOptionModel::StartWith { value } => match sequence_number(value) {
                    Err(e) => Err(e),
                    Ok(n) => Ok((n, increment)),
                },
                SequenceOptionModel::IncrementBy { value } => match sequence_number(value) {
                    Err(e) => Err(e),
                    Ok(n) => if n == 0 {
                        Err(
                            report(
                                "22023"@,
                                "INCREMENT must not be zero for CREATE SEQUENCE"@,
                            ),
                        )
                    } else {
                        Ok((start, n))
                    },
                },
                SequenceOptionModel::Other => Ok((start, increment)),
            },
        }
    }
}

/// A failure among the first options is that of all.
proof fn lemma_sequence_fails(options: Seq<SequenceOptionModel>, n: int)
    requires
        0 <= n <= options.len(),
        sequence_described(options.take(n)) is Err,
    ensures
        sequence_described(options) == sequence_described(options.take(n)),
    decreases options.len() - n,
{
    if n == options.len() {
        assert(options.take(n) =~= options);
    } else {
        assert(options.take(n + 1).drop_last() =~= options.take(n));
        lemma_sequence_fails(options, n + 1);
    }
}

/// A sequence never stands still.
pub proof fn law_sequences_move(options: Seq<SequenceOptionModel>)
    ensures
        sequence_described(options) matches Ok(found) ==> found.1 != 0,
    decreases options.len(),
{
    if options.len() > 0 {
        law_sequences_move(options.drop_last());
    }
}

/// The start and the step of a sequence.
pub fn describe_sequence(options: &Vec<SequenceOption>) -> (result: Result<(i64, i64), UserError>)
    ensures
        crate::error::outcome(result) == sequence_described(views(options@)),
{
    let ghost all = views(options@);
    let mut start: i64 = 1;
    let mut increment: i64 = 1;
    let mut i: usize = 0;
    assert(all.take(0) =~= Seq::<SequenceOptionModel>::empty());
    while i < options.len()
        invariant
            i <= options@.len(),
            all == views(options@),
            sequence_described(all.take(i as int)) == Ok::<(i64, i64), Report>((start, increment)),
        decreases options@.len() - i,
    {
        assert(all.take(i + 1).drop_last() =~= all.take(i as int));
        assert(all.take(i + 1).last() == options@[i as int]@);
        match &options[i] {
            SequenceOption::StartWith { value } => match sequence_option_i64(value) {
                Err(e) => {
                    proof {
                        lemma_sequence_fails(all, i + 1);
                    }
                    return Err(e);
                },
                Ok(n) => {
                    start = n;
                },
            },
            SequenceOption::IncrementBy { value } => match sequence_option_i64(value) {
                Err(e) => {
                    proof {
                        lemma_sequence_fails(all, i + 1);
                    }
                    return Err(e);
                },
                Ok(n) => {
                    if n == 0 {
                        proof {
                            lemma_sequence_fails(all, i + 1);
                        }
                        return Err(
                            user_error("22023", "INCREMENT must not be zero for CREATE SEQUENCE"),
                        );
                    }
                    increment = n;
                },
            },
            SequenceOption::Other => {},
        }
        i += 1;
    }
    assert(all.take(i as int) =~= all);
    Ok((start, increment))
}

/// The plan that makes a sequence.
pub open spec fn create_sequence_planned(
    contents: Contents,
    database_name: Seq<char>,
    default_schema: Seq<char>,
    name: Seq<PartModel>,
    if_not_exists: bool,
    options: Seq<SequenceOptionModel>,
) -> Result<PlanModel, Report> {
    match object_to_drop(default_schema, name) {
        Err(e) => Err(e),
        Ok(place) => match scope_found(contents, database_name, place.schema_name) {
            Err(e) => Err(e),
            Ok(scope) => match sequence_described(options) {
                Err(e) => Err(e),
                Ok((start, increment)) => Ok(
                    PlanModel::CreateSequence {
                        database_name,
                        schema_name: place.schema_name,
                        sequence_name: place.name,
                        if_not_exists,
                        start,
                        increment,
                    },
                ),
            },
        },
    }
}

/// The place of an object, in a default schema where its name gives none.
pub fn place_of(default_schema: &str, name: &ObjectName) -> (result: Result<
    (String, String),
    UserError,
>)
    ensures
        match result {
            Ok(place) => object_to_drop(default_schema@, name@) == Ok::<QualifiedModel, Report>(
                QualifiedModel { schema_name: place.0@, name: place.1@ },
            ),
            Err(e) => object_to_drop(default_schema@, name@) == Err::<QualifiedModel, Report>(
                e@,
            ),
        },
{
    match object_name_to_string(name) {
        Err(e) => Err(e),
        Ok(text) => resolve_scoped_name(default_schema, text.as_str()),
    }
}

/// Plans a database.
pub fn plan_create_database(name: &ObjectName, if_not_exists: bool) -> (result: Result<
    QueryPlan,
    UserError,
>)
    ensures
        seen(result) == (match object_name(name@) {
            Err(e) => Err(e),
            Ok(database_name) => Ok(PlanModel::CreateDatabase { database_name, if_not_exists }),
        }),
{
    match object_name_to_string(name) {
        Err(e) => Err(e),
        Ok(database_name) => Ok(QueryPlan::CreateDatabase { database_name, if_not_exists }),
    }
}

/// Plans a schema.
pub fn plan_create_schema(database_name: &str, name: &SchemaName, if_not_exists: bool) -> (result:
    Result<QueryPlan, UserError>)
    ensures
        seen(result) == (match schema_name_of(name@) {
            Err(e) => Err(e),
            Ok(schema_name) => Ok(
                PlanModel::CreateSchema {
                    database_name: database_name@,
                    schema_name,
                    if_not_exists,
                },
            ),
        }),
{
    match schema_name_to_string(name) {
        Err(e) => Err(e),
        Ok(schema_name) => Ok(
            QueryPlan::CreateSchema {
                database_name: database_name.to_string(),
                schema_name,
                if_not_exists,
            },
        ),
    }
}

/// Plans a view with a definition.
pub fn plan_create_view(
    database_name: &str,
    default_schema_name: &str,
    name: &ObjectName,
    definition: &str,
    or_replace: bool,
    if_not_exists: bool,
) -> (result: Result<QueryPlan, UserError>)
    ensures
        seen(result) == (match object_to_drop(default_schema_name@, name@) {
            Err(e) => Err(e),
            Ok(place) => Ok(
                PlanModel::CreateView {
                    database_name: database_name@,
                    schema_name: place.schema_name,
                    view_name: place.name,
                    definition: definition@,
                    or_replace,
                    if_not_exists,
                },
            ),
        }),
{
    match place_of(default_schema_name, name) {
        Err(e) => Err(e),
        Ok((schema_name, view_name)) => Ok(
            QueryPlan::CreateView {
                database_name: database_name.to_string(),
                schema_name,
                view_name,
                definition: definition.to_string(),
                or_replace,
                if_not_exists,
            },
        ),
    }
}

/// Plans that sequences go.
pub fn plan_drop_sequence(
    database_name: &str,
    default_schema_name: &str,
    names: &Vec<ObjectName>,
    if_exists: bool,
) -> (result: Result<QueryPlan, UserError>)
    ensures
        seen(result) == (match objects_to_drop(default_schema_name@, views(names@)) {
            Err(e) => Err(e),
            Ok(sequences) => Ok(
                PlanModel::DropSequences { database_name: database_name@, sequences, if_exists },
            ),
        }),
{
    match dropped_objects(default_schema_name, names) {
        Err(e) => Err(e),
        Ok(sequences) => Ok(
            QueryPlan::DropSequences {
                database_name: database_name.to_string(),
                sequences,
                if_exists,
            },
        ),
    }
}

/// Plans that views go.
pub fn plan_drop_view(
    database_name: &str,
    default_schema_name: &str,
    names: &Vec<ObjectName>,
    if_exists: bool,
) -> (result: Result<QueryPlan, UserError>)
    ensures
        seen(result) == (match objects_to_drop(default_schema_name@, views(names@)) {
            Err(e) => Err(e),
            Ok(found) => Ok(
                PlanModel::DropViews { database_name: database_name@, views: found, if_exists },
            ),
        }),
{
    match dropped_objects(default_schema_name, names) {
        Err(e) => Err(e),
        Ok(found) => Ok(
            QueryPlan::DropViews {
                database_name: database_name.to_string(),
                views: found,
                if_exists,
            },
        ),
    }
}

/// Plans that schemas go.
pub fn plan_drop_schema(database_name: &str, names: &Vec<ObjectName>, if_exists: bool) -> (result:
    Result<QueryPlan, UserError>)
    ensures
        seen(result) == (match each_resolved(
            views(names@),
            |name: Seq<PartModel>| object_name(name),
        ) {
            Err(e) => Err(e),
            Ok(schemas) => Ok(
                PlanModel::DropSchemas { database_name: database_name@, schemas, if_exists },
            ),
        }),
{
    let ghost all = views(names@);
    let ghost resolve = |name: Seq<PartModel>| object_name(name);
    let mut schemas: Vec<String> = Vec::new();
    let mut i: usize = 0;
    assert(all.take(0) =~= Seq::<Seq<PartModel>>::empty());
    assert(views(schemas@) =~= Seq::<Seq<char>>::empty());
    while i < names.len()
        invariant
            i <= names@.len(),
            all == views(names@),
            resolve == (|name: Seq<PartModel>| object_name(name)),
            each_resolved(all.take(i as int), resolve) == Ok::<Seq<Seq<char>>, Report>(
                views(schemas@),
            ),
        decreases names@.len() - i,
    {
        assert(all.take(i + 1).drop_last() =~= all.take(i as int));
        assert(all.take(i + 1).last() == names@[i as int]@);
        match object_name_to_string(&names[i]) {
            Err(e) => {
                proof {
                    lemma_each_fails(all, resolve, i + 1);
                }
                return Err(e);
            },
            Ok(name) => {
                let ghost before = views(schemas@);
                let ghost added = name@;
                schemas.push(name);
                assert(views(schemas@) =~= before.push(added));
            },
        }
        i += 1;
    }
    assert(all.take(i as int) =~= all);
    Ok(QueryPlan::DropSchemas { database_name: database_name.to_string(), schemas, if_exists })
}

/// Why an index cannot be made, from what the statement says of it.
pub open spec fn index_refusal(
    concurrently: bool,
    using: Option<Seq<char>>,
    includes: nat,
    has_predicate: bool,
    columns: nat,
) -> Option<Report> {
    if concurrently {
        Some(unsupported_report("CREATE INDEX CONCURRENTLY is not supported yet"@))
    } else if using matches Some(kind) && crate::text::lower(kind) != crate::text::lower(
        "btree"@,
    ) {
        Some(unsupported_report("only btree indexes are supported"@))
    } else if includes > 0 {
        Some(unsupported_report("CREATE INDEX INCLUDE columns are not supported yet"@))
    } else if has_predicate {
        Some(unsupported_report("partial indexes are not supported yet"@))
    } else if columns == 0 {
        Some(report("42601"@, "CREATE INDEX requires at least one column"@))
    } else {
        None
    }
}

/// The name of a new index of a table.
pub open spec fn new_index_name(
    name: Option<Seq<PartModel>>,
    schema_name: Seq<char>,
    table_name: Seq<char>,
    columns: Seq<Seq<char>>,
) -> Result<Seq<char>, Report> {
    match name {
        None => Ok(constraint_text(table_name, joined(columns, "_"@), "_idx"@)),
        Some(parts) => match object_name(parts) {
            Err(e) => Err(e),
            Ok(text) => if mark_at(text, '.') is Some {
                match table_reference(text) {
                    Err(e) => Err(e),
                    Ok((index_schema, index_name)) => if index_schema != schema_name {
                        Err(
                            report(
                                "3F000"@,
                                "index schema must match the indexed table schema"@,
                            ),
                        )
                    } else {
                        Ok(index_name)
                    },
                }
            } else {
                Ok(text)
            },
        },
    }
}

/// The name of a new index of a table.
pub fn choose_index_name(
    name: &Option<ObjectName>,
    schema_name: &str,
    table_name: &str,
    columns: &Vec<String>,
) -> (result: Result<String, UserError>)
    ensures
        crate::names::seen_text(result) == new_index_name(
            option_view(*name),
            schema_name@,
            table_name@,
            views(columns@),
        ),
{
    match name {
        None => {
            let text = join_names(columns, "_");
            Ok(constraint_name(table_name, text.as_str(), "_idx"))
        },
        Some(parts) => match object_name_to_string(parts) {
            Err(e) => Err(e),
            Ok(text) => {
                if !has_dot(text.as_str()) {
                    return Ok(text);
                }
                match resolve_table_reference(text.as_str()) {
                    Err(e) => Err(e),
                    Ok((index_schema, index_name)) => {
                        if !same_text(index_schema.as_str(), schema_name) {
                            return Err(
                                user_error(
                                    "3F000",
                                    "index schema must match the indexed table schema",
                                ),
                            );
                        }
                        Ok(index_name)
                    },
                }
            },
        },
    }
}

/// Whether an index cannot be made for how the statement is written alone.
pub open spec fn index_is_misstated(
    concurrently: bool,
    using: Option<Seq<char>>,
    includes: nat,
    has_predicate: bool,
    columns: Seq<IndexColumnModel>,
    table: Seq<PartModel>,
) -> bool {
    index_refusal(concurrently, using, includes, has_predicate, columns.len()) is Some
        || indexed_columns(columns) is Err || is_misnamed(table)
}

/// The plan that makes an index.
pub open spec fn create_index_planned(
    contents: Contents,
    database_name: Seq<char>,
    search_path: Seq<Seq<char>>,
    name: Option<Seq<PartModel>>,
    table: Seq<PartModel>,
    using: Option<Seq<char>>,
    columns: Seq<IndexColumnModel>,
    unique: bool,
    concurrently: bool,
    if_not_exists: bool,
    includes: nat,
    has_predicate: bool,
) -> Result<PlanModel, Report> {
    match index_refusal(concurrently, using, includes, has_predicate, columns.len()) {
        Some(e) => Err(e),
        None => match indexed_columns(columns) {
            Err(e) => Err(e),
            Ok(column_names) => match object_name(table) {
                Err(e) => Err(e),
                Ok(text) => match table_required(contents, database_name, search_path, text) {
                    Err(e) => Err(e),
                    Ok((schema_name, found)) => match unknown_column(
                        found.columns,
                        column_names,
                    ) {
                        Some(column) => Err(no_column(column)),
                        None => match new_index_name(
                            name,
                            schema_name,
                            found.table_name,
                            column_names,
                        ) {
                            Err(e) => Err(e),
                            Ok(index_name) => Ok(
                                PlanModel::CreateIndex {
                                    database_name,
                                    schema_name,
                                    table_name: found.table_name,
                                    index_name,
                                    column_names,
                                    unique,
                                    if_not_exists,
                                },
                            ),
                        },
                    },
                },
            },
        },
    }
}

impl<S: KvStore> GatewayServer<S> {
    /// Plans a sequence.
    pub fn plan_create_sequence(
        &mut self,
        database_name: &str,
        default_schema_name: &str,
        name: &ObjectName,
        if_not_exists: bool,
        options: &Vec<SequenceOption>,
    ) -> (result: Result<QueryPlan, UserError>)
        ensures
            final(self).reliable() == old(self).reliable(),
            final(self).same_sessions(old(self)),
            object_to_drop(default_schema_name@, name@) is Err
                ==> final(self).contents() == old(self).contents(),
            not_internal(result) || old(self).reliable()
                || object_to_drop(default_schema_name@, name@) is Err ==> only_opened(
                old(self).contents(),
                final(self).contents(),
            ) && seen(result) == create_sequence_planned(
                bootstrapped(old(self).contents()),
                database_name@,
                default_schema_name@,
                name@,
                if_not_exists,
                views(options@),
            ),
    {
        let (schema_name, sequence_name) = match place_of(default_schema_name, name) {
            Err(e) => {
                return Err(e);
            },
            Ok(place) => place,
        };
        match self.require_schema(database_name, schema_name.as_str()) {
            Err(e) => {
                return Err(e);
            },
            Ok(_) => {},
        }
        match describe_sequence(options) {
            Err(e) => Err(e),
            Ok((start, increment)) => Ok(
                QueryPlan::CreateSequence {
                    database_name: database_name.to_string(),
                    schema_name,
                    sequence_name,
                    if_not_exists,
                    start,
                    increment,
                },
            ),
        }
    }

    /// Plans that tables go.
    pub fn plan_drop_table(
        &mut self,
        database_name: &str,
        search_path: &Vec<String>,
        names: &Vec<ObjectName>,
        if_exists: bool,
    ) -> (result: Result<QueryPlan, UserError>)
        ensures
            final(self).reliable() == old(self).reliable(),
            final(self).same_sessions(old(self)),
            names@.len() == 0 || is_misnamed(names@[0]@)
                ==> final(self).contents() == old(self).contents(),
            not_internal(result) || old(self).reliable() || names@.len() == 0
                || is_misnamed(names@[0]@) ==> only_opened(
                old(self).contents(),
                final(self).contents(),
            ) && seen(result) == (match each_resolved(
                views(names@),
                |name: Seq<PartModel>|
                    table_to_drop(
                        bootstrapped(old(self).contents()),
                        database_name@,
                        views(search_path@),
                        name,
                        if_exists,
                    ),
            ) {
                Err(e) => Err(e),
                Ok(tables) => Ok(
                    PlanModel::DropTables { database_name: database_name@, tables, if_exists },
                ),
            }),
    {
        let ghost opened = bootstrapped(self.contents());
        proof {
            law_bootstrap_is_stable(self.contents());
        }
        let ghost all = views(names@);
        let ghost resolve = |name: Seq<PartModel>|
            table_to_drop(opened, database_name@, views(search_path@), name, if_exists);
        let mut tables: Vec<QualifiedName> = Vec::new();
        let mut i: usize = 0;
        assert(all.take(0) =~= Seq::<Seq<PartModel>>::empty());
        assert(views(tables@) =~= Seq::<QualifiedModel>::empty());
        while i < names.len()
            invariant
                i <= names@.len(),
                all == views(names@),
                opened == bootstrapped(old(self).contents()),
                opened == bootstrapped(opened),
                self.reliable() == old(self).reliable(),
                self.same_sessions(old(self)),
                i == 0 ==> self.contents() == old(self).contents(),
                i > 0 ==> !is_misnamed(names@[0]@),
                only_opened(old(self).contents(), self.contents()),
                bootstrapped(self.contents()) == opened,
                resolve == (|name: Seq<PartModel>|
                    table_to_drop(opened, database_name@, views(search_path@), name, if_exists)),
                each_resolved(all.take(i as int), resolve) == Ok::<Seq<QualifiedModel>, Report>(
                    views(tables@),
                ),
            decreases names@.len() - i,
        {
            assert(all.take(i + 1).drop_last() =~= all.take(i as int));
            assert(all.take(i + 1).last() == names@[i as int]@);
            let ghost known = each_resolved(all.take(i + 1), resolve) is Err;
            proof {
                if known {
                    lemma_each_fails(all, resolve, i + 1);
                }
            }
            let text = match object_name_to_string(&names[i]) {
                Err(e) => {
                    return Err(e);
                },
                Ok(text) => text,
            };
            let table = if has_dot(text.as_str()) {
                match resolve_table_reference(text.as_str()) {
                    Err(e) => {
                        return Err(e);
                    },
                    Ok((schema_name, name)) => QualifiedName { schema_name, name },
                }
            } else {
                match self.resolve_table_schema(database_name, search_path, text.as_str()) {
                    Err(e) => {
                        return Err(e);
                    },
                    Ok((schema_name, found)) => {
                        if found.is_none() && !if_exists {
                            return Err(
                                user_error_text(
                                    "42P01",
                                    three_texts("table '", text.as_str(), "' does not exist"),
                                ),
                            );
                        }
                        QualifiedName { schema_name, name: text }
                    },
                }
            };
            let ghost before = views(tables@);
            let ghost added = table@;
            tables.push(table);
            assert(views(tables@) =~= before.push(added));
            i += 1;
        }
        assert(all.take(i as int) =~= all);
        Ok(QueryPlan::DropTables { database_name: database_name.to_string(), tables, if_exists })
    }

    /// The first schema of a search path with an index of a name.
    fn find_index_schema(
        &mut self,
        database_id: u32,
        search_path: &Vec<String>,
        index_name: &str,
    ) -> (result: Result<Option<String>, UserError>)
        ensures
            final(self).reliable() == old(self).reliable(),
            final(self).same_sessions(old(self)),
            not_internal(result) || old(self).reliable() ==> only_opened(
                old(self).contents(),
                final(self).contents(),
            ) && crate::schema::seen_option(result) == index_searched(
                bootstrapped(old(self).contents()),
                database_id,
                views(search_path@),
                index_name@,
            ),
    {
        let ghost opened = bootstrapped(self.contents());
        proof {
            law_bootstrap_is_stable(self.contents());
        }
        let ghost path = views(search_path@);
        let mut i: usize = 0;
        assert(path.skip(0) =~= path);
        while i < search_path.len()
            invariant
                i <= search_path@.len(),
                path == views(search_path@),
                opened == bootstrapped(old(self).contents()),
                opened == bootstrapped(opened),
                self.reliable() == old(self).reliable(),
                self.same_sessions(old(self)),
                only_opened(old(self).contents(), self.contents()),
                bootstrapped(self.contents()) == opened,
                index_searched(opened, database_id, path, index_name@) == index_searched(
                    opened,
                    database_id,
                    path.skip(i as int),
                    index_name@,
                ),
            decreases search_path@.len() - i,
        {
            assert(path.skip(i as int)[0] == search_path@[i as int]@);
            assert(path.skip(i as int).skip(1) =~= path.skip(i + 1));
            match self.catalog.get_schema(database_id, search_path[i].as_str()) {
                Err(e) => {
                    return Err(e);
                },
                Ok(None) => {},
                Ok(Some(schema)) => match self.catalog.get_index(
                    database_id,
                    schema.schema_id,
                    index_name,
                ) {
                    Err(e) => {
                        return Err(e);
                    },
                    Ok(Some(_)) => {
                        return Ok(Some(search_path[i].clone()));
                    },
                    Ok(None) => {},
                },
            }
            i += 1;
        }
        Ok(None)
    }

    /// Plans that indexes go.
    pub fn plan_drop_index(
        &mut self,
        database_name: &str,
        search_path: &Vec<String>,
        names: &Vec<ObjectName>,
        if_exists: bool,
    ) -> (result: Result<QueryPlan, UserError>)
        requires
            search_path@.len() > 0 || !if_exists || forall|i: int|
                0 <= i < names@.len() ==> (object_name((#[trigger] names@[i])@) matches Ok(text)
                    ==> mark_at(text, '.') is Some),
        ensures
            final(self).reliable() == old(self).reliable(),
            final(self).same_sessions(old(self)),
            not_internal(result) || old(self).reliable() ==> only_opened(
                old(self).contents(),
                final(self).contents(),
            ) && seen(result) == (match database_found(
                bootstrapped(old(self).contents()),
                database_name@,
            ) {
                Err(e) => Err(e),
                Ok(None) => Err(no_database(database_name@)),
                Ok(Some(database)) => match each_resolved(
                    views(names@),
                    |name: Seq<PartModel>|
                        index_to_drop(
                            bootstrapped(old(self).contents()),
                            database.database_id,
                            views(search_path@),
                            name,
                            if_exists,
                        ),
                ) {
                    Err(e) => Err(e),
                    Ok(indexes) => Ok(
                        PlanModel::DropIndexes {
                            database_name: database_name@,
                            indexes,
                            if_exists,
                        },
                    ),
                },
            }),
    {
        let ghost opened = bootstrapped(self.contents());
        proof {
            law_bootstrap_is_stable(self.contents());
        }
        let database = match self.catalog.get_database(database_name) {
            Err(e) => {
                return Err(e);
            },
            Ok(None) => {
                return Err(
                    user_error_text(
                        "3D000",
                        three_texts("database '", database_name, "' does not exist"),
                    ),
                );
            },
            Ok(Some(database)) => database,
        };
        let ghost all = views(names@);
        let ghost model = database@;
        let ghost resolve = |name: Seq<PartModel>|
            index_to_drop(opened, model.database_id, views(search_path@), name, if_exists);
        let mut indexes: Vec<QualifiedName> = Vec::new();
        let mut i: usize = 0;
        assert(all.take(0) =~= Seq::<Seq<PartModel>>::empty());
        assert(views(indexes@) =~= Seq::<QualifiedModel>::empty());
        while i < names.len()
            invariant
                i <= names@.len(),
                all == views(names@),
                opened == bootstrapped(old(self).contents()),
                opened == bootstrapped(opened),
                database@ == model,
                database_found(opened, database_name@) == Ok::<Option<DatabaseModel>, Report>(
                    Some(model),
                ),
                search_path@.len() > 0 || !if_exists || forall|k: int|
                    0 <= k < names@.len() ==> (object_name((#[trigger] names@[k])@) matches Ok(text)
                        ==> mark_at(text, '.') is Some),
                self.reliable() == old(self).reliable(),
                self.same_sessions(old(self)),
                only_opened(old(self).contents(), self.contents()),
                bootstrapped(self.contents()) == opened,
                resolve == (|name: Seq<PartModel>|
                    index_to_drop(opened, model.database_id, views(search_path@), name, if_exists)),
                each_resolved(all.take(i as int), resolve) == Ok::<Seq<QualifiedModel>, Report>(
                    views(indexes@),
                ),
            decreases names@.len() - i,
        {
            assert(all.take(i + 1).drop_last() =~= all.take(i as int));
            assert(all.take(i + 1).last() == names@[i as int]@);
            proof {
                if each_resolved(all.take(i + 1), resolve) is Err {
                    lemma_each_fails(all, resolve, i + 1);
                }
            }
            let text = match object_name_to_string(&names[i]) {
                Err(e) => {
                    return Err(e);
                },
                Ok(text) => text,
            };
            let index = if has_dot(text.as_str()) {
                match resolve_table_reference(text.as_str()) {
                    Err(e) => {
                        return Err(e);
                    },
                    Ok((schema_name, name)) => QualifiedName { schema_name, name },
                }
            } else {
                match self.find_index_schema(database.database_id, search_path, text.as_str()) {
                    Err(e) => {
                        return Err(e);
                    },
                    Ok(Some(schema_name)) => QualifiedName { schema_name, name: text },
                    Ok(None) => {
                        if !if_exists {
                            return Err(
                                user_error_text(
                                    "42P01",
                                    three_texts("index '", text.as_str(), "' does not exist"),
                                ),
                            );
                        }
                        assert(views(search_path@)[0] == search_path@[0]@);
                        QualifiedName { schema_name: search_path[0].clone(), name: text }
                    },
                }
            };
            let ghost before = views(indexes@);
            let ghost added = index@;
            indexes.push(index);
            assert(views(indexes@) =~= before.push(added));
            i += 1;
        }
        assert(all.take(i as int) =~= all);
        Ok(QueryPlan::DropIndexes { database_name: database_name.to_string(), indexes, if_exists })
    }

    /// Plans the changes of a table.
    #[verifier::rlimit(40)]
    pub fn plan_alter_table(
        &mut self,
        database_name: &str,
        search_path: &Vec<String>,
        name: &ObjectName,
        operations: &Vec<AlterTableOperation>,
    ) -> (result: Result<QueryPlan, UserError>)
        ensures
            final(self).reliable() == old(self).reliable(),
            final(self).same_sessions(old(self)),
            is_misnamed(name@) ==> final(self).contents() == old(self).contents(),
            not_internal(result) || old(self).reliable() || is_misnamed(name@) ==> only_opened(
                old(self).contents(),
                final(self).contents(),
            ) && seen(result) == alter_planned(
                bootstrapped(old(self).contents()),
                database_name@,
                views(search_path@),
                name@,
                views(operations@),
            ),
    {
        let text = match object_name_to_string(name) {
            Err(e) => {
                return Err(e);
            },
            Ok(text) => text,
        };
        let (schema_name, schema) = match self.require_table(
            database_name,
            search_path,
            text.as_str(),
        ) {
            Err(e) => {
                return Err(e);
            },
            Ok(found) => found,
        };
        let count: usize = operations.len();
        if count == 0 {
            return Ok(QueryPlan::Noop { tag: "ALTER TABLE".to_string() });
        }
        let ghost all = views(operations@);
        let ghost expected = alter_planned(
            bootstrapped(old(self).contents()),
            database_name@,
            views(search_path@),
            name@,
            all,
        );
        let mut planned: Vec<TableAlterOperation> = Vec::new();
        let mut i: usize = 0;
        assert(all.take(0) =~= Seq::<AlterRequest>::empty());
        assert(views(planned@) =~= Seq::<AlterModel>::empty());
        while i < operations.len()
            invariant
                !is_misnamed(name@),
                i <= operations@.len(),
                count == operations@.len(),
                all == views(operations@),
                operations_planned(
                    schema_name@,
                    schema@,
                    count as nat,
                    all.take(i as int),
                ) == Ok::<AlterOutcome, Report>(AlterOutcome::Operations(views(planned@))),
                expected == (match operations_planned(schema_name@, schema@, count as nat, all) {
                    Err(e) => Err::<PlanModel, Report>(e),
                    Ok(AlterOutcome::PrimaryKey(column_name)) => Ok(
                        PlanModel::AlterTableAddPrimaryKey {
                            database_name: database_name@,
                            schema_name: schema_name@,
                            table_name: schema@.table_name,
                            column_name,
                        },
                    ),
                    Ok(AlterOutcome::Operations(changes)) => Ok(
                        PlanModel::AlterTable {
                            database_name: database_name@,
                            schema_name: schema_name@,
                            table_name: schema@.table_name,
                            operations: changes,
                        },
                    ),
                }),
                expected == alter_planned(
                    bootstrapped(old(self).contents()),
                    database_name@,
                    views(search_path@),
                    name@,
                    views(operations@),
                ),
                self.reliable() == old(self).reliable(),
                self.same_sessions(old(self)),
                only_opened(old(self).contents(), self.contents()),
            decreases operations@.len() - i,
        {
            assert(all.take(i + 1).drop_last() =~= all.take(i as int));
            assert(all.take(i + 1).last() == operations@[i as int]@);
            match plan_alter_operation(
                &mut planned,
                schema_name.as_str(),
                &schema,
                count,
                &operations[i],
            ) {
                Err(e) => {
                    proof {
                        lemma_operations_end(schema_name@, schema@, count as nat, all, i + 1);
                    }
                    return Err(e);
                },
                Ok(Some(column_name)) => {
                    proof {
                        lemma_operations_end(schema_name@, schema@, count as nat, all, i + 1);
                    }
                    return Ok(
                        QueryPlan::AlterTableAddPrimaryKey {
                            database_name: database_name.to_string(),
                            schema_name,
                            table_name: schema.table_name,
                            column_name,
                        },
                    );
                },
                Ok(None) => {},
            }
            i += 1;
        }
        assert(all.take(i as int) =~= all);
        Ok(
            QueryPlan::AlterTable {
                database_name: database_name.to_string(),
                schema_name,
                table_name: schema.table_name,
                operations: planned,
            },
        )
    }

    /// Plans an index; `includes` counts the columns that it would only carry along.
    pub fn plan_create_index(
        &mut self,
        database_name: &str,
        search_path: &Vec<String>,
        name: &Option<ObjectName>,
        table_name: &ObjectName,
        using: &Option<String>,
        columns: &Vec<IndexColumn>,
        unique: bool,
        concurrently: bool,
        if_not_exists: bool,
        includes: usize,
        has_predicate: bool,
    ) -> (result: Result<QueryPlan, UserError>)
        ensures
            final(self).reliable() == old(self).reliable(),
            final(self).same_sessions(old(self)),
            index_is_misstated(
                concurrently,
                option_view(*using),
                includes as nat,
                has_predicate,
                views(columns@),
                table_name@,
            ) ==> final(self).contents() == old(self).contents(),
            not_internal(result) || old(self).reliable() || index_is_misstated(
                concurrently,
                option_view(*using),
                includes as nat,
                has_predicate,
                views(columns@),
                table_name@,
            ) ==> only_opened(
                old(self).contents(),
                final(self).contents(),
            ) && seen(result) == create_index_planned(
                bootstrapped(old(self).contents()),
                database_name@,
                views(search_path@),
                option_view(*name),
                table_name@,
                option_view(*using),
                views(columns@),
                unique,
                concurrently,
                if_not_exists,
                includes as nat,
                has_predicate,
            ),
    {
        if concurrently {
            return Err(unsupported("CREATE INDEX CONCURRENTLY is not supported yet"));
        }
        match using {
            Some(kind) => {
                if !same_but_for_case(kind.as_str(), "btree") {
                    return Err(unsupported("only btree indexes are supported"));
                }
            },
            None => {},
        }
        if includes > 0 {
            return Err(unsupported("CREATE INDEX INCLUDE columns are not supported yet"));
        }
        if has_predicate {
            return Err(unsupported("partial indexes are not supported yet"));
        }
        if columns.len() == 0 {
            return Err(user_error("42601", "CREATE INDEX requires at least one column"));
        }
        let column_names = match index_column_names(columns) {
            Err(e) => {
                return Err(e);
            },
            Ok(names) => names,
        };
        let text = match object_name_to_string(table_name) {
            Err(e) => {
                return Err(e);
            },
            Ok(text) => text,
        };
        let (schema_name, schema) = match self.require_table(
            database_name,
            search_path,
            text.as_str(),
        ) {
            Err(e) => {
                return Err(e);
            },
            Ok(found) => found,
        };
        match require_columns(&schema, &column_names) {
            Err(e) => {
                return Err(e);
            },
            Ok(_) => {},
        }
        match choose_index_name(
            name,
            schema_name.as_str(),
            schema.table_name.as_str(),
            &column_names,
        ) {
            Err(e) => Err(e),
            Ok(index_name) => Ok(
                QueryPlan::CreateIndex {
                    database_name: database_name.to_string(),
                    schema_name,
                    table_name: schema.table_name,
                    index_name,
                    column_names,
                    unique,
                    if_not_exists,
                },
            ),
        }
    }
}

} // verus!
