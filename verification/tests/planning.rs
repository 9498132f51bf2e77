use pg_gateway::error::UserError;
use pg_gateway::mem_store::MemoryKvStore;
use pg_gateway::mode::GatewayMode;
use pg_gateway::names::{Ident, ObjectName, ObjectNamePart, QuoteStyle, SchemaName};
use pg_gateway::response::Response;
use pg_gateway::row::RowMap;
use pg_gateway::schema::{ColumnSchema, TableSchema};
use pg_gateway::server::alter::{alter_table, AlterChange, RowWork};
use pg_gateway::server::ast::{
    AlterTableOperation, ColumnDef, ColumnOption, ColumnOptionKind, IndexColumn, IndexTarget,
    SequenceOption, SequenceValue, TableConstraint,
};
use pg_gateway::server::conflict::{
    conflict_target_columns, AssignmentRequest, ConflictTarget, OnConflictAction, OnInsert,
};
use pg_gateway::server::ddl_columns::{column_schema_from_def, index_column_name};
use pg_gateway::server::ddl_plan::{
    describe_sequence, plan_create_database, plan_create_schema, plan_create_view,
};
use pg_gateway::server::ddl_tables::{table_from_query, table_like, QueryField};
use pg_gateway::server::dml_select::{
    fast_path_limit_offset, fast_path_order_by, Evaluated, FilterFacts, LimitClause, OrderBy,
    OrderExpr, SelectRequest, SelectShape, WriteRequest,
};
use pg_gateway::server::exec::{ExecutionOutcome, StorageAction};
use pg_gateway::server::explain::{describe_read, describe_scan};
use pg_gateway::server::gateway::GatewayServer;
use pg_gateway::server::plan::{
    Bound, InsertConflictAction, QueryPlan, ReadAccess, SqlExpr, TableAlterOperation, WriteAccess,
};
use pg_gateway::server::rows::{CheckVerdict, RowEntry};
use pg_gateway::server::sequences::{
    nextval_default_text, nextval_sequence_name, serial_sequence_name,
};
use pg_gateway::server::statements::{ObjectType, SessionCatalog, Statement, StatementPlan};
use pg_gateway::types::{ColumnValue, DataType};

fn failed<T>(result: Result<T, UserError>) -> UserError {
    match result {
        Ok(_) => panic!("the call went through"),
        Err(error) => error,
    }
}

fn name(text: &str) -> ObjectName {
    ObjectName(
        text.split('.')
            .map(|part| {
                ObjectNamePart::Identifier(Ident {
                    value: part.to_string(),
                    quote_style: QuoteStyle::Bare,
                })
            })
            .collect(),
    )
}

fn column(name: &str, data_type: DataType, primary_key: bool) -> ColumnSchema {
    ColumnSchema {
        column_id: 0,
        name: name.to_string(),
        data_type,
        primary_key,
        nullable: !primary_key,
        default: None,
        on_update: None,
        character_set: None,
        collation: None,
    }
}

fn table() -> TableSchema {
    TableSchema {
        table_name: "t".to_string(),
        table_id: 4,
        schema_version: 1,
        table_epoch: 1,
        primary_key: "id".to_string(),
        check_constraints: Vec::new(),
        unique_constraints: Vec::new(),
        foreign_keys: Vec::new(),
        columns: vec![
            column("id", DataType::Int32, true),
            column("name", DataType::Text, false),
        ],
    }
}

fn definition(name: &str, data_type: DataType, kinds: Vec<ColumnOptionKind>) -> ColumnDef {
    ColumnDef {
        name: name.to_string(),
        data_type,
        serial: false,
        options: kinds
            .into_iter()
            .map(|kind| ColumnOption { name: None, kind })
            .collect(),
    }
}

fn indexed(name: &str) -> IndexColumn {
    IndexColumn {
        ascending: None,
        nulls_first: None,
        target: IndexTarget::Column { name: name.to_string() },
    }
}

fn path() -> Vec<String> {
    vec!["public".to_string()]
}

fn server() -> GatewayServer<MemoryKvStore> {
    let mut server = GatewayServer::new(MemoryKvStore::new());
    server.catalog.store_table("defaultdb", "public", &table()).unwrap();
    server
}

fn tag(response: &Response) -> String {
    match response {
        Response::Execution { tag, .. } => tag.clone(),
        Response::Query { .. } => panic!("rows came back"),
    }
}

#[test]
fn a_column_is_described_by_its_options() {
    let parts = column_schema_from_def(
        "public",
        "t",
        2,
        &definition(
            "age",
            DataType::Int32,
            vec![
                ColumnOptionKind::NotNull,
                ColumnOptionKind::DefaultValue { expr: "7".to_string() },
                ColumnOptionKind::Check { expr: "age > 0".to_string() },
                ColumnOptionKind::Unique,
            ],
        ),
    )
    .unwrap();
    assert_eq!(parts.column.column_id, 2);
    assert!(!parts.column.nullable);
    assert_eq!(parts.column.default, Some("7".to_string()));
    assert_eq!(parts.checks[0].expr, "age > 0");
    assert_eq!(parts.unique.unwrap().columns, vec!["age"]);
    assert!(parts.foreign_key.is_none());
}

#[test]
fn a_serial_column_counts() {
    let mut def = definition("id", DataType::Int32, vec![ColumnOptionKind::PrimaryKey]);
    def.serial = true;
    let parts = column_schema_from_def("public", "t", 1, &def).unwrap();
    let sequence = serial_sequence_name("public", "t", "id");
    assert_eq!(parts.column.default, Some(nextval_default_text(&sequence)));
    assert_eq!(
        nextval_sequence_name(&parts.column.default.unwrap()),
        Some(sequence)
    );
    assert!(parts.column.primary_key);
    assert!(!parts.column.nullable);
}

#[test]
fn an_index_is_on_columns() {
    assert_eq!(index_column_name(&indexed("a")).unwrap(), "a");
    let call = IndexColumn {
        ascending: None,
        nulls_first: None,
        target: IndexTarget::Call { name: name("lower") },
    };
    assert_eq!(index_column_name(&call).unwrap(), "lower");
    let mut falling = indexed("a");
    falling.ascending = Some(false);
    assert_eq!(failed(index_column_name(&falling)).code, "0A000");
}

#[test]
fn sequences_have_a_start_and_a_step() {
    assert_eq!(describe_sequence(&vec![]).unwrap(), (1, 1));
    let options = vec![
        SequenceOption::StartWith {
            value: SequenceValue::Value { value: ColumnValue::Int64(10) },
        },
        SequenceOption::IncrementBy {
            value: SequenceValue::Value { value: ColumnValue::Int64(5) },
        },
    ];
    assert_eq!(describe_sequence(&options).unwrap(), (10, 5));
    let odd = vec![SequenceOption::StartWith {
        value: SequenceValue::Value { value: ColumnValue::Null },
    }];
    let error = failed(describe_sequence(&odd));
    assert_eq!(error.code, "22023");
    assert_eq!(error.message, "sequence option must be an integer");
}

#[test]
fn databases_schemas_and_views_are_planned() {
    match plan_create_database(&name("app"), true).unwrap() {
        QueryPlan::CreateDatabase { database_name, if_not_exists } => {
            assert_eq!(database_name, "app");
            assert!(if_not_exists);
        }
        _ => panic!("another plan"),
    }
    match plan_create_schema("defaultdb", &SchemaName::Simple(name("s")), false).unwrap() {
        QueryPlan::CreateSchema { schema_name, .. } => assert_eq!(schema_name, "s"),
        _ => panic!("another plan"),
    }
    match plan_create_view("defaultdb", "public", &name("s.v"), "select 1", true, false).unwrap() {
        QueryPlan::CreateView { schema_name, view_name, definition, or_replace, .. } => {
            assert_eq!(schema_name, "s");
            assert_eq!(view_name, "v");
            assert_eq!(definition, "select 1");
            assert!(or_replace);
        }
        _ => panic!("another plan"),
    }
}

#[test]
fn a_table_is_planned_with_its_constraints() {
    let mut server = server();
    let columns = vec![
        definition("id", DataType::Int64, vec![]),
        definition("name", DataType::Text, vec![]),
    ];
    let constraints = vec![
        TableConstraint::PrimaryKey { name: None, columns: vec![indexed("id")] },
        TableConstraint::Unique { name: None, columns: vec![indexed("name")] },
    ];
    let plan = server
        .plan_create_table("defaultdb", "public", &name("new"), &columns, &constraints, false, None)
        .unwrap();
    match plan {
        QueryPlan::CreateTable { schema, schema_name, .. } => {
            assert_eq!(schema_name, "public");
            assert_eq!(schema.table_name, "new");
            assert_eq!(schema.primary_key, "id");
            assert!(schema.columns[0].primary_key);
            assert!(schema
                .unique_constraints
                .iter()
                .any(|constraint| constraint.columns == vec!["name"]));
        }
        _ => panic!("another plan"),
    }
    let error = failed(server.plan_create_table(
        "defaultdb",
        "public",
        &name("t"),
        &columns,
        &constraints,
        false,
        None,
    ));
    assert_eq!(error.code, "42P07");
}

#[test]
fn a_table_without_a_key_gets_row_numbers() {
    let schema = table_from_query(
        9,
        "made",
        &vec![QueryField { name: "a".to_string(), data_type: DataType::Text }],
    );
    assert_eq!(schema.primary_key, "__rowid__");
    assert!(!schema.has_user_primary_key());
    let copy = table_like(&table(), 12, "public", "copy");
    assert_eq!(copy.table_id, 12);
    assert_eq!(copy.table_name, "copy");
    assert_eq!(copy.columns.len(), 2);
}

fn altered(operation: TableAlterOperation, rows: Vec<RowEntry>) -> Result<AlterChange, UserError> {
    alter_table(table(), operation, &rows, CheckVerdict::Holds)
}

fn row(id: i32, name: ColumnValue) -> RowEntry {
    let mut row = RowMap::new();
    row.insert("id".to_string(), ColumnValue::Int32(id));
    row.insert("name".to_string(), name);
    RowEntry { key: ColumnValue::Int32(id), row }
}

#[test]
fn columns_are_added_renamed_and_dropped() {
    match altered(
        TableAlterOperation::AddColumn {
            column: column("age", DataType::Int32, false),
            if_not_exists: false,
        },
        vec![],
    )
    .unwrap()
    {
        AlterChange::Store { schema, work, .. } => {
            assert_eq!(schema.columns.len(), 3);
            assert_eq!(schema.columns[2].name, "age");
            assert!(matches!(work, RowWork::AddValue(_) | RowWork::Keep));
        }
        _ => panic!("another change"),
    }
    match altered(
        TableAlterOperation::RenameColumn {
            old_name: "name".to_string(),
            new_name: "title".to_string(),
        },
        vec![],
    ) {
        Ok(AlterChange::Store { schema, .. }) => assert_eq!(schema.columns[1].name, "title"),
        Ok(_) => panic!("another change"),
        Err(error) => assert_eq!(error.code, "0A000"),
    }
    match altered(
        TableAlterOperation::DropColumn { column_name: "name".to_string(), if_exists: false },
        vec![],
    )
    .unwrap()
    {
        AlterChange::Store { schema, work, .. } => {
            assert_eq!(schema.columns.len(), 1);
            assert!(matches!(work, RowWork::RemoveValue(name) if name == "name"));
        }
        _ => panic!("another change"),
    }
    let error = failed(altered(
        TableAlterOperation::DropColumn { column_name: "x".to_string(), if_exists: false },
        vec![],
    ));
    assert_eq!(error.code, "42703");
    assert!(matches!(
        altered(
            TableAlterOperation::DropColumn { column_name: "x".to_string(), if_exists: true },
            vec![]
        ),
        Ok(AlterChange::Nothing)
    ));
}

#[test]
fn a_column_with_nulls_cannot_refuse_them() {
    let not_null =
        || TableAlterOperation::SetNotNull { column_name: "name".to_string(), nullable: false };
    let error = failed(altered(not_null(), vec![row(1, ColumnValue::Null)]));
    assert_eq!(error.code, "23502");
    match altered(not_null(), vec![row(1, ColumnValue::Text("a".to_string()))]).unwrap() {
        AlterChange::Store { schema, .. } => assert!(!schema.columns[1].nullable),
        _ => panic!("another change"),
    }
}

#[test]
fn alterations_are_planned() {
    let mut server = server();
    let plan = server
        .plan_alter_table(
            "defaultdb",
            &path(),
            &name("t"),
            &vec![AlterTableOperation::RenameTable { new_name: name("u") }],
        )
        .unwrap();
    match plan {
        QueryPlan::AlterTable { table_name, operations, .. } => {
            assert_eq!(table_name, "t");
            assert!(matches!(
                &operations[0],
                TableAlterOperation::RenameTable { new_name } if new_name == "u"
            ));
        }
        _ => panic!("another plan"),
    }
    let error = failed(server.plan_alter_table("defaultdb", &path(), &name("nowhere"), &vec![]));
    assert_eq!(error.code, "42P01");
}

#[test]
fn an_index_is_planned() {
    let mut server = server();
    let plan = server
        .plan_create_index(
            "defaultdb",
            &path(),
            &None,
            &name("t"),
            &None,
            &vec![indexed("name")],
            true,
            false,
            false,
            0,
            false,
        )
        .unwrap();
    match plan {
        QueryPlan::CreateIndex { index_name, column_names, unique, .. } => {
            assert_eq!(index_name, "t_name_idx");
            assert_eq!(column_names, vec!["name"]);
            assert!(unique);
        }
        _ => panic!("another plan"),
    }
}

fn session() -> SessionCatalog {
    SessionCatalog {
        database_name: "defaultdb".to_string(),
        schema_name: "public".to_string(),
        search_path: path(),
    }
}

#[test]
fn statements_are_planned_by_their_kind() {
    let mut server = server();
    let drop = Statement::Drop {
        object_type: ObjectType::Table,
        if_exists: false,
        names: vec![name("t")],
    };
    match server.plan_statement(&session(), &drop, &vec![]) {
        Ok(StatementPlan::Planned(QueryPlan::DropTables { tables, .. })) => {
            assert_eq!(tables[0].name, "t");
            assert_eq!(tables[0].schema_name, "public");
        }
        _ => panic!("another plan"),
    }
    assert!(matches!(
        server.plan_statement(&session(), &Statement::OnRows, &vec![]),
        Ok(StatementPlan::OnRows)
    ));
    let other = Statement::Other { text: "LISTEN x".to_string() };
    let error = failed(server.plan_statement(&session(), &other, &vec![]));
    assert_eq!(error.code, "0A000");
}

#[test]
fn a_table_that_is_made_can_be_dropped() {
    let mut server = GatewayServer::new(MemoryKvStore::new());
    let plan = QueryPlan::CreateTable {
        database_name: "defaultdb".to_string(),
        schema_name: "public".to_string(),
        schema: table(),
        auto_increment_start: None,
        indexes: vec![],
    };
    match server.execute_plan(plan).outcome {
        ExecutionOutcome::Answered(response) => assert_eq!(tag(&response), "CREATE TABLE"),
        _ => panic!("the table was not made"),
    }
    assert!(server
        .catalog
        .load_table("defaultdb", "public", "t")
        .unwrap()
        .is_some());
    let drop = Statement::Drop {
        object_type: ObjectType::Table,
        if_exists: false,
        names: vec![name("t")],
    };
    let plan = match server.plan_statement(&session(), &drop, &vec![]) {
        Ok(StatementPlan::Planned(plan)) => plan,
        _ => panic!("the drop was not planned"),
    };
    let execution = server.execute_plan(plan);
    assert!(execution
        .actions
        .iter()
        .any(|action| matches!(action, StorageAction::ClearRows { .. })));
    assert!(server
        .catalog
        .load_table("defaultdb", "public", "t")
        .unwrap()
        .is_none());
}

#[test]
fn plans_on_rows_are_handed_back() {
    let mut server = server();
    let plan = QueryPlan::SelectRows {
        database_name: "defaultdb".to_string(),
        schema_name: "public".to_string(),
        schema: table(),
        projection: vec!["id".to_string()],
        access: ReadAccess::PrefixScan { filter: None },
        limit: None,
        offset: 0,
    };
    let execution = server.execute_plan(plan);
    assert!(matches!(
        execution.outcome,
        ExecutionOutcome::OnRows(QueryPlan::SelectRows { .. })
    ));
    assert!(execution.actions.is_empty());
}

fn evaluated(value: ColumnValue) -> Evaluated {
    Evaluated { value: Ok(value) }
}

#[test]
fn limits_and_offsets_are_numbers() {
    assert_eq!(fast_path_limit_offset(&None).unwrap(), (None, 0));
    let clause = LimitClause::LimitOffset {
        limit: Some(evaluated(ColumnValue::Int64(5))),
        offset: Some(evaluated(ColumnValue::Int32(2))),
        limit_by: false,
    };
    assert_eq!(fast_path_limit_offset(&Some(clause)).unwrap(), (Some(5), 2));
    let comma = LimitClause::OffsetCommaLimit {
        offset: evaluated(ColumnValue::Int64(3)),
        limit: evaluated(ColumnValue::Int64(4)),
    };
    assert_eq!(fast_path_limit_offset(&Some(comma)).unwrap(), (Some(4), 3));
    let negative = LimitClause::LimitOffset {
        limit: Some(evaluated(ColumnValue::Int64(-5))),
        offset: None,
        limit_by: false,
    };
    assert!(fast_path_limit_offset(&Some(negative)).is_err());
}

fn order(column: &str, ascending: Option<bool>) -> Option<OrderBy> {
    Some(OrderBy {
        interpolate: false,
        expressions: Some(vec![OrderExpr {
            column: Ok(column.to_string()),
            ascending,
            nulls_first: None,
            with_fill: false,
        }]),
    })
}

#[test]
fn rows_come_in_the_order_of_the_key() {
    assert!(fast_path_order_by(&None, &table()).is_ok());
    assert!(fast_path_order_by(&order("id", Some(true)), &table()).is_ok());
    assert!(fast_path_order_by(&order("id", Some(false)), &table()).is_err());
    assert!(fast_path_order_by(&order("name", None), &table()).is_err());
}

fn plain() -> SelectShape {
    SelectShape {
        distinct: false,
        top: false,
        into: false,
        lateral_views: false,
        grouped: false,
        cluster_by: false,
        distribute_by: false,
        sort_by: false,
        having: false,
        named_window: false,
        qualify: false,
        projection_supported: true,
    }
}

fn select() -> SelectRequest {
    SelectRequest {
        with_clause: false,
        fetch: false,
        limit_clause: None,
        is_select: true,
        shape: plain(),
        table: Ok("t".to_string()),
        order_by: None,
        filter_supported: true,
    }
}

fn facts(primary_key: Option<ColumnValue>) -> FilterFacts {
    FilterFacts {
        primary_key: Ok(primary_key),
        key_list: Ok(None),
        key_range: Ok(None),
        equality: Ok(None),
        ranges: vec![],
    }
}

#[test]
fn a_key_is_looked_up_and_else_all_is_read() {
    let mut server = server();
    let target = server.begin_select("defaultdb", &path(), &select()).unwrap();
    let plan = server
        .plan_select(
            "defaultdb",
            target,
            None,
            Ok(vec!["id".to_string()]),
            facts(Some(ColumnValue::Int32(3))),
        )
        .unwrap();
    assert!(matches!(
        plan,
        QueryPlan::SelectRows { access: ReadAccess::PointLookup { key: ColumnValue::Int32(3) }, .. }
    ));
    let target = server.begin_select("defaultdb", &path(), &select()).unwrap();
    let plan = server
        .plan_select("defaultdb", target, None, Ok(vec!["id".to_string()]), facts(None))
        .unwrap();
    assert!(matches!(
        plan,
        QueryPlan::SelectRows { access: ReadAccess::PrefixScan { filter: None }, .. }
    ));
    let mut grouped = select();
    grouped.shape.grouped = true;
    let error = failed(server.begin_select("defaultdb", &path(), &grouped));
    assert_eq!(error.code, "0A000");
}

#[test]
fn a_deletion_is_planned() {
    let mut server = server();
    let request = WriteRequest {
        table: Ok("t".to_string()),
        filter_supported: true,
        order_by: vec![],
        limit: Some(evaluated(ColumnValue::Int64(2))),
    };
    let target = server.begin_delete("defaultdb", &path(), 1, &request).unwrap();
    assert_eq!(target.limit, Some(2));
    let selection = Some(SqlExpr { text: "name = 'a'".to_string() });
    let plan = server
        .plan_delete("defaultdb", target, selection, facts(None), Ok(None))
        .unwrap();
    assert!(matches!(
        plan,
        QueryPlan::DeleteRows {
            access: WriteAccess::PrefixScan { filter: Some(_) },
            limit: Some(2),
            ..
        }
    ));
}

#[test]
fn conflicts_are_found_by_key() {
    let mut server = server();
    assert_eq!(conflict_target_columns(&table(), &None).unwrap(), vec!["id"]);
    let error = failed(conflict_target_columns(
        &table(),
        &Some(ConflictTarget::OnConstraint { name: name("nope") }),
    ));
    assert_eq!(error.code, "42704");
    assert_eq!(error.message, "constraint 'nope' does not exist");
    let on = Some(OnInsert::OnConflict {
        target: Some(ConflictTarget::Columns { columns: vec!["id".to_string()] }),
        action: OnConflictAction::DoUpdate {
            assignments: vec![AssignmentRequest {
                column: Ok("name".to_string()),
                expr: SqlExpr { text: "'x'".to_string() },
            }],
            selection: None,
        },
    });
    match server.resolve_insert_on_conflict(&table(), &on, false, false).unwrap() {
        Some(InsertConflictAction::DoUpdate { target_columns, assignments, .. }) => {
            assert_eq!(target_columns, vec!["id"]);
            assert_eq!(assignments[0].column, "name");
        }
        _ => panic!("another action"),
    }
    assert!(server
        .resolve_insert_on_conflict(&table(), &None, false, false)
        .unwrap()
        .is_none());
}

#[test]
fn a_read_is_explained() {
    let access = ReadAccess::PointLookup { key: ColumnValue::Int32(3) };
    assert_eq!(
        describe_scan(&table(), &access, &vec![]),
        vec!["Index Scan using t_pkey on t", "  Index Cond: (id = 3)"]
    );
    let range = ReadAccess::PrimaryKeyRangeScan {
        lower: Some(Bound { value: ColumnValue::Int32(1), inclusive: false }),
        upper: Some(Bound { value: ColumnValue::Int32(9), inclusive: true }),
        filter: None,
    };
    assert_eq!(
        describe_scan(&table(), &range, &vec![])[1],
        "  Index Cond: (id > 1) AND (id <= 9)"
    );
    let all = ReadAccess::PrefixScan { filter: Some(SqlExpr { text: "a = 1".to_string() }) };
    let rows = describe_read(&table(), &all, Some(5), 2, &vec![]);
    let lines: Vec<String> = rows
        .iter()
        .map(|row| row.cells[0].clone().unwrap())
        .collect();
    assert!(lines.contains(&"Seq Scan on t".to_string()));
    assert!(lines.contains(&"  Filter: (a = 1)".to_string()));
    assert!(lines.contains(&"Limit: 5".to_string()));
    assert!(lines.contains(&"Offset: 2".to_string()));
}

#[test]
fn the_gateway_speaks_two_languages() {
    assert_eq!(GatewayMode::parse("mysql").map(|mode| mode.as_str()), Some("mysql"));
    assert!(GatewayMode::parse("other").is_none());
}
