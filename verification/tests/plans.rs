use pg_gateway::error::{user_error, UserError};
use pg_gateway::mem_store::{KvStore, MemoryKvStore};
use pg_gateway::mode::GatewayMode;
use pg_gateway::names::{Ident, ObjectName, ObjectNamePart, QuoteStyle};
use pg_gateway::response::{
    build_pg_response_with_format, build_pg_returning_response, command_complete,
    empty_query_response, multi_text_row_response, single_int8_row_response, spoofed_scalar_response, FieldFormat,
    FieldType, Response,
};
use pg_gateway::row::RowMap;
use pg_gateway::schema::{ColumnSchema, TableSchema, UniqueConstraintSchema};
use pg_gateway::server::alter::AlterChange;
use pg_gateway::server::ast::{
    AlterTableOperation, IndexColumn, IndexTarget, SequenceOption, SequenceValue,
};
use pg_gateway::server::command_steps::CommandStep;
use pg_gateway::server::conflict::{AssignmentRequest, ConflictTarget, OnConflictAction, OnInsert};
use pg_gateway::server::copy_text::CopyInOptions;
use pg_gateway::server::ddl_tables::QueryField;
use pg_gateway::server::dml_select::{
    extract_indexable_eq_filter, extract_primary_key_in_filter, fast_path_write_order_by,
    ColumnKey, Evaluated, FilterFacts, FilterShape, KeyList, ListedValue, OrderExpr, RangeBounds,
    RangeFact, WriteRequest,
};
use pg_gateway::server::exec::{ExecutionOutcome, StorageAction};
use pg_gateway::server::exec_rows::{drop_sequence_verdict, pushes_window_down, written_key};
use pg_gateway::server::gateway::{resolve_scoped_name, GatewayServer};
use pg_gateway::server::locks::{MySqlLockKind, MySqlLockScope};
use pg_gateway::server::plan::{
    Bound, InsertConflictAction, QueryPlan, ReadAccess, ReturningProjection, SqlExpr,
    TableAlterOperation, TextRow, WriteAccess,
};
use pg_gateway::server::prepared::{
    describe_fields_from_plan, describe_fields_from_responses, describe_step, DescribeStep,
};
use pg_gateway::server::rename::{IndexRename, RenameStage};
use pg_gateway::server::rows::{
    apply_insert_conflict_update, conflict_columns_search, CheckVerdict, ConflictSearch,
};
use pg_gateway::server::scans::{
    index_entry_range, index_entry_suffix, index_scan_end, IndexScan, PrefixBound, RowWindow,
};
use pg_gateway::server::session::ClientState;
use pg_gateway::server::statements::{
    vacuum_analyze_table_names, ObjectType, SessionCatalog, Statement, StatementPlan, TableSource,
};
use pg_gateway::types::{ColumnValue, DataType};

fn failed<T>(result: Result<T, UserError>) -> UserError {
    match result {
        Ok(_) => panic!("the call went through"),
        Err(error) => error,
    }
}

fn name(text: &str) -> ObjectName {
    ObjectName(
        text.split('.')
            .map(|part| {
                ObjectNamePart::Identifier(Ident {
                    value: part.to_string(),
                    quote_style: QuoteStyle::Bare,
                })
            })
            .collect(),
    )
}

fn words(texts: &[&str]) -> Vec<String> {
    texts.iter().map(|text| text.to_string()).collect()
}

fn column(name: &str, data_type: DataType, primary_key: bool) -> ColumnSchema {
    ColumnSchema {
        column_id: 0,
        name: name.to_string(),
        data_type,
        primary_key,
        nullable: !primary_key,
        default: None,
        on_update: None,
        character_set: None,
        collation: None,
    }
}

fn table() -> TableSchema {
    TableSchema {
        table_name: "t".to_string(),
        table_id: 4,
        schema_version: 1,
        table_epoch: 1,
        primary_key: "id".to_string(),
        check_constraints: Vec::new(),
        unique_constraints: Vec::new(),
        foreign_keys: Vec::new(),
        columns: vec![
            column("id", DataType::Int32, true),
            column("name", DataType::Text, false),
        ],
    }
}

fn text(value: &str) -> ColumnValue {
    ColumnValue::Text(value.to_string())
}

fn row(id: i32, name: &str) -> RowMap {
    let mut row = RowMap::new();
    row.insert("id".to_string(), ColumnValue::Int32(id));
    row.insert("name".to_string(), text(name));
    row
}

fn server_in(mode: GatewayMode) -> GatewayServer<MemoryKvStore> {
    let mut server = GatewayServer::with_mode(MemoryKvStore::new(), mode);
    server.catalog.store_table("defaultdb", "public", &table()).unwrap();
    server
}

fn server() -> GatewayServer<MemoryKvStore> {
    server_in(GatewayMode::Postgres)
}

fn with_index(mode: GatewayMode, unique: bool) -> GatewayServer<MemoryKvStore> {
    let mut server = server_in(mode);
    server
        .catalog
        .create_index(
            "defaultdb",
            "public",
            "t",
            "by_name",
            &words(&["name"]),
            unique,
            false,
        )
        .unwrap();
    server
}

fn stored(server: &mut GatewayServer<MemoryKvStore>) -> TableSchema {
    let found = server.catalog.load_table("defaultdb", "public", "t").unwrap();
    found.unwrap().schema
}

fn path() -> Vec<String> {
    words(&["public"])
}

fn session() -> SessionCatalog {
    SessionCatalog {
        database_name: "defaultdb".to_string(),
        schema_name: "public".to_string(),
        search_path: path(),
    }
}

fn expr(text: &str) -> SqlExpr {
    SqlExpr { text: text.to_string() }
}

fn bound(value: i32, inclusive: bool) -> Option<Bound> {
    Some(Bound { value: ColumnValue::Int32(value), inclusive })
}

fn facts() -> FilterFacts {
    FilterFacts {
        primary_key: Ok(None),
        key_list: Ok(None),
        key_range: Ok(None),
        equality: Ok(None),
        ranges: vec![],
    }
}

fn write() -> WriteRequest {
    WriteRequest {
        table: Ok("t".to_string()),
        filter_supported: true,
        order_by: vec![],
        limit: None,
    }
}

fn assignment(column: &str, value: &str) -> AssignmentRequest {
    AssignmentRequest { column: Ok(column.to_string()), expr: expr(value) }
}

fn select(access: ReadAccess, limit: Option<usize>) -> QueryPlan {
    QueryPlan::SelectRows {
        database_name: "defaultdb".to_string(),
        schema_name: "public".to_string(),
        schema: table(),
        projection: words(&["id", "name"]),
        access,
        limit,
        offset: 0,
    }
}

fn planned(
    server: &mut GatewayServer<MemoryKvStore>,
    statement: Statement,
) -> Result<QueryPlan, UserError> {
    match server.plan_statement(&session(), &statement, &vec![])? {
        StatementPlan::Planned(plan) => Ok(plan),
        StatementPlan::OnRows => panic!("the statement is on rows"),
    }
}

fn dropping(object_type: ObjectType, names: &[&str], if_exists: bool) -> Statement {
    Statement::Drop {
        object_type,
        if_exists,
        names: names.iter().map(|text| name(text)).collect(),
    }
}

fn cells(row: &TextRow) -> Vec<Option<&str>> {
    row.cells.iter().map(|cell| cell.as_deref()).collect()
}

#[test]
fn an_insertion_is_planned() {
    let mut server = server();
    let target = server
        .begin_insert("defaultdb", &path(), &Some("t".to_string()), &vec![], 2, false, false)
        .unwrap();
    assert_eq!(target.schema_name, "public");
    assert_eq!(target.schema.table_id, 4);
    let plan = server
        .plan_insert(
            "defaultdb",
            target,
            false,
            true,
            Ok(vec![row(1, "a")]),
            &None,
            false,
            false,
            Ok(None),
        )
        .unwrap();
    match plan {
        QueryPlan::InsertRows { rows, on_conflict: None, returning: None, .. } => {
            assert_eq!(rows.len(), 1);
            assert!(rows[0].same_row(&row(1, "a")));
        }
        _ => panic!("another plan"),
    }
}

#[test]
fn insertions_that_do_not_fit_together_are_refused() {
    let mut server = server();
    let table = Some("t".to_string());
    let error =
        failed(server.begin_insert("defaultdb", &path(), &table, &vec![], 0, true, true));
    assert_eq!(error.message, "INSERT IGNORE cannot be combined with REPLACE");
    let target = server
        .begin_insert("defaultdb", &path(), &table, &vec![], 0, false, false)
        .unwrap();
    let error = failed(server.plan_insert(
        "defaultdb",
        target,
        true,
        true,
        Ok(vec![]),
        &None,
        false,
        false,
        Ok(None),
    ));
    assert_eq!(
        error.message,
        "INSERT ... SET cannot be combined with column list or VALUES"
    );
    let target = server
        .begin_insert("defaultdb", &path(), &table, &vec![], 0, false, false)
        .unwrap();
    let error = failed(server.plan_insert(
        "defaultdb",
        target,
        false,
        false,
        Ok(vec![]),
        &None,
        false,
        false,
        Ok(None),
    ));
    assert_eq!(error.message, "INSERT fast-path requires VALUES, SELECT, or SET");
    let qualified = vec![name("t.id")];
    let error =
        failed(server.begin_insert("defaultdb", &path(), &table, &qualified, 1, false, false));
    assert_eq!(error.code, "0A000");
}

#[test]
fn an_insertion_may_meet_rows_by_any_unique_columns() {
    let mut server = with_index(GatewayMode::MySql, true);
    let schema = stored(&mut server);
    match server.resolve_insert_on_conflict(&schema, &None, true, false).unwrap() {
        Some(InsertConflictAction::DoNothingAnyUnique { target_column_sets }) => {
            assert_eq!(target_column_sets.len(), 2);
            assert_eq!(target_column_sets[0].columns, words(&["id"]));
            assert_eq!(target_column_sets[1].columns, words(&["name"]));
        }
        _ => panic!("another action"),
    }
    assert!(matches!(
        server.resolve_insert_on_conflict(&schema, &None, false, true).unwrap(),
        Some(InsertConflictAction::ReplaceAnyUnique { .. })
    ));
    let on = Some(OnInsert::DuplicateKeyUpdate { assignments: vec![assignment("name", "'x'")] });
    assert!(matches!(
        server.resolve_insert_on_conflict(&schema, &on, false, false).unwrap(),
        Some(InsertConflictAction::DoUpdateAnyUnique { .. })
    ));
    let on = Some(OnInsert::DuplicateKeyUpdate { assignments: vec![assignment("age", "1")] });
    let error = failed(server.resolve_insert_on_conflict(&schema, &on, false, false));
    assert_eq!(error.code, "42703");
    assert_eq!(error.message, "column 'age' not found");
}

#[test]
fn conflict_targets_have_to_be_keys() {
    let mut server = server();
    let update = |column: &str| OnConflictAction::DoUpdate {
        assignments: vec![assignment(column, "'x'")],
        selection: None,
    };
    let on = |columns: &[&str], action: OnConflictAction| {
        Some(OnInsert::OnConflict {
            target: Some(ConflictTarget::Columns { columns: words(columns) }),
            action,
        })
    };
    let refusal = |server: &mut GatewayServer<MemoryKvStore>, on: &Option<OnInsert>| {
        failed(server.resolve_insert_on_conflict(&table(), on, false, false)).message
    };
    assert_eq!(
        refusal(&mut server, &on(&["id"], update("id"))),
        "ON CONFLICT DO UPDATE cannot update the conflict target columns in fast path"
    );
    assert_eq!(
        refusal(&mut server, &on(&["name"], OnConflictAction::DoNothing)),
        "upsert target must match the primary key or a unique constraint"
    );
    assert_eq!(
        refusal(&mut server, &on(&["age"], OnConflictAction::DoNothing)),
        "upsert target column not found"
    );
    assert_eq!(
        refusal(&mut server, &on(&[], OnConflictAction::DoNothing)),
        "ON CONFLICT target cannot be empty"
    );
    assert_eq!(
        refusal(&mut server, &Some(OnInsert::Other)),
        "only ON CONFLICT and ON DUPLICATE KEY UPDATE are supported in fast path"
    );
    let mut unique = table();
    unique.unique_constraints.push(UniqueConstraintSchema {
        name: "one_name".to_string(),
        columns: words(&["name"]),
        primary_key: false,
    });
    assert!(matches!(
        server
            .resolve_insert_on_conflict(
                &unique,
                &on(&["name"], OnConflictAction::DoNothing),
                false,
                false
            )
            .unwrap(),
        Some(InsertConflictAction::DoNothing)
    ));
}

#[test]
fn an_update_is_planned() {
    let mut server = server();
    let target = server.begin_update("defaultdb", &path(), &write()).unwrap();
    assert!(!target.order_by_primary_key);
    let mut by_key = facts();
    by_key.primary_key = Ok(Some(ColumnValue::Int32(7)));
    let plan = server
        .plan_update(
            "defaultdb",
            target,
            &vec![assignment("name", "'x'")],
            Some(expr("id = 7")),
            by_key,
            Ok(Some(vec![ReturningProjection::Wildcard])),
        )
        .unwrap();
    match plan {
        QueryPlan::UpdateRows {
            assignments,
            access: WriteAccess::PointLookup { key: ColumnValue::Int32(7) },
            returning: Some(_),
            ..
        } => assert_eq!(assignments[0].column, "name"),
        _ => panic!("another plan"),
    }
    let target = server.begin_update("defaultdb", &path(), &write()).unwrap();
    let error = failed(server.plan_update(
        "defaultdb",
        target,
        &vec![assignment("age", "1")],
        None,
        facts(),
        Ok(None),
    ));
    assert_eq!(error.message, "column 'age' not found");
    let mut odd = write();
    odd.filter_supported = false;
    assert_eq!(
        failed(server.begin_update("defaultdb", &path(), &odd)).message,
        "UPDATE filter is not supported in fast path"
    );
    let mut missing = write();
    missing.table = Ok("nope".to_string());
    assert_eq!(failed(server.begin_update("defaultdb", &path(), &missing)).code, "42P01");
}

#[test]
fn a_filter_may_lead_to_an_index() {
    let mut server = with_index(GatewayMode::Postgres, false);
    let schema = stored(&mut server);
    let ranged = server.indexes_for_ranges(&schema).unwrap();
    assert_eq!(ranged.len(), 1);
    assert_eq!(ranged[0].index_name, "by_name");
    let target = server.begin_update("defaultdb", &path(), &write()).unwrap();
    let mut equal = facts();
    equal.equality = Ok(Some(ColumnKey { column_name: "name".to_string(), key: text("a") }));
    equal.ranges = vec![RangeFact { bounds: Ok(None) }];
    let plan = server
        .plan_update(
            "defaultdb",
            target,
            &vec![assignment("name", "'x'")],
            Some(expr("name = 'a'")),
            equal,
            Ok(None),
        )
        .unwrap();
    assert!(matches!(
        plan,
        QueryPlan::UpdateRows {
            access: WriteAccess::SecondaryIndexLookup { index_name, .. },
            ..
        } if index_name == "by_name"
    ));
    let target = server.begin_update("defaultdb", &path(), &write()).unwrap();
    let mut range = facts();
    range.ranges = vec![RangeFact {
        bounds: Ok(Some(RangeBounds {
            lower: Some(Bound { value: text("a"), inclusive: true }),
            upper: None,
        })),
    }];
    let plan = server
        .plan_update(
            "defaultdb",
            target,
            &vec![assignment("name", "'x'")],
            Some(expr("name >= 'a'")),
            range,
            Ok(None),
        )
        .unwrap();
    assert!(matches!(
        plan,
        QueryPlan::UpdateRows {
            access: WriteAccess::SecondaryIndexRangeScan { upper: None, .. },
            ..
        }
    ));
}

#[test]
fn filters_are_read() {
    let listed = |value: ColumnValue, encoded: u8| ListedValue {
        value: Ok(value),
        encoded: vec![encoded],
    };
    let shape = Some(FilterShape::Nested {
        inner: Box::new(FilterShape::InList { target: Ok("id".to_string()), negated: false }),
    });
    let values = vec![
        listed(ColumnValue::Int32(3), 3),
        listed(ColumnValue::Null, 0),
        listed(ColumnValue::Int32(3), 3),
        listed(ColumnValue::Int32(1), 1),
    ];
    let KeyList { keys } = extract_primary_key_in_filter(&shape, &table(), &values)
        .unwrap()
        .unwrap();
    assert_eq!(keys, vec![ColumnValue::Int32(3), ColumnValue::Int32(1)]);
    let negated = Some(FilterShape::InList { target: Ok("id".to_string()), negated: true });
    assert!(extract_primary_key_in_filter(&negated, &table(), &values)
        .unwrap()
        .is_none());
    let equal = Some(FilterShape::Equality { left: Ok("name".to_string()) });
    let found = extract_indexable_eq_filter(&equal, &table(), Evaluated { value: Ok(text("a")) })
        .unwrap()
        .unwrap();
    assert_eq!(found.column_name, "name");
    assert_eq!(found.key, text("a"));
    let elsewhere = Some(FilterShape::Equality { left: Ok("age".to_string()) });
    assert!(extract_indexable_eq_filter(
        &elsewhere,
        &table(),
        Evaluated { value: Err(user_error("22023", "not a value")) }
    )
    .unwrap()
    .is_none());
}

#[test]
fn writes_follow_the_key_upwards() {
    let order = |column: &str, ascending: Option<bool>| OrderExpr {
        column: Ok(column.to_string()),
        ascending,
        nulls_first: None,
        with_fill: false,
    };
    assert!(!fast_path_write_order_by(&vec![], &table()).unwrap());
    assert!(fast_path_write_order_by(&vec![order("id", None)], &table()).unwrap());
    assert_eq!(
        failed(fast_path_write_order_by(&vec![order("id", Some(false))], &table())).message,
        "UPDATE/DELETE ORDER BY fast path supports only primary key ascending"
    );
    assert_eq!(
        failed(fast_path_write_order_by(
            &vec![order("id", None), order("name", None)],
            &table()
        ))
        .message,
        "UPDATE/DELETE ORDER BY fast path supports only the primary key"
    );
}

#[test]
fn tables_are_emptied_and_looked_after() {
    let mut server = server();
    match planned(&mut server, Statement::Truncate { names: vec![name("t")] }).unwrap() {
        QueryPlan::TruncateTables { tables, .. } => {
            assert_eq!(tables.len(), 1);
            assert_eq!(tables[0].schema_name, "public");
        }
        _ => panic!("another plan"),
    }
    let error = failed(planned(&mut server, Statement::Truncate { names: vec![name("x.y")] }));
    assert_eq!(error.message, "table 'x.y' does not exist");
    match planned(&mut server, Statement::Analyze { table_name: None }).unwrap() {
        QueryPlan::AnalyzeTables { tables, .. } => assert_eq!(tables.len(), 1),
        _ => panic!("another plan"),
    }
    let error =
        failed(server.plan_mysql_table_maintenance("defaultdb", &path(), "optimize", &vec![]));
    assert_eq!(error.message, "OPTIMIZE TABLE is not supported yet");
    let mut mysql = server_in(GatewayMode::MySql);
    let plan = mysql
        .plan_mysql_table_maintenance("defaultdb", &path(), "optimize", &vec![name("t")])
        .unwrap();
    match plan {
        QueryPlan::TableMaintenanceRows { rows } => assert_eq!(
            cells(&rows[0]),
            vec![Some("defaultdb.t"), Some("optimize"), Some("status"), Some("OK")]
        ),
        _ => panic!("another plan"),
    }
}

#[test]
fn objects_are_dropped_by_name() {
    let mut server = with_index(GatewayMode::Postgres, false);
    match planned(&mut server, dropping(ObjectType::Table, &["t"], false)).unwrap() {
        QueryPlan::DropTables { tables, if_exists: false, .. } => {
            assert_eq!(tables[0].schema_name, "public");
            assert_eq!(tables[0].name, "t");
        }
        _ => panic!("another plan"),
    }
    match planned(&mut server, dropping(ObjectType::Index, &["by_name"], false)).unwrap() {
        QueryPlan::DropIndexes { indexes, .. } => assert_eq!(indexes[0].name, "by_name"),
        _ => panic!("another plan"),
    }
    match planned(&mut server, dropping(ObjectType::Sequence, &["s.q"], true)).unwrap() {
        QueryPlan::DropSequences { sequences, if_exists: true, .. } => {
            assert_eq!(sequences[0].schema_name, "s");
            assert_eq!(sequences[0].name, "q");
        }
        _ => panic!("another plan"),
    }
    match planned(&mut server, dropping(ObjectType::View, &["v"], true)).unwrap() {
        QueryPlan::DropViews { views, .. } => assert_eq!(views[0].name, "v"),
        _ => panic!("another plan"),
    }
    match planned(&mut server, dropping(ObjectType::Schema, &["s"], true)).unwrap() {
        QueryPlan::DropSchemas { schemas, .. } => assert_eq!(schemas, words(&["s"])),
        _ => panic!("another plan"),
    }
    assert!(drop_sequence_verdict(false, true, "public", "q").is_ok());
    let error = failed(drop_sequence_verdict(false, false, "public", "q"));
    assert_eq!(error.message, "sequence 'public.q' does not exist");
}

#[test]
fn dropped_indexes_lose_their_entries() {
    let mut server = with_index(GatewayMode::Postgres, false);
    let plan = planned(&mut server, dropping(ObjectType::Index, &["by_name"], false)).unwrap();
    let execution = server.execute_plan(plan);
    assert!(matches!(execution.outcome, ExecutionOutcome::Answered(_)));
    assert!(execution
        .actions
        .iter()
        .any(|action| matches!(action, StorageAction::ClearIndex { .. })));
    let schema = stored(&mut server);
    assert!(server
        .catalog
        .list_indexes_for_table(schema.table_id)
        .unwrap()
        .is_empty());
}

#[test]
fn a_sequence_is_planned() {
    let mut server = server();
    let plan = planned(
        &mut server,
        Statement::CreateSequence {
            temporary: false,
            if_not_exists: true,
            name: name("s"),
            options: vec![
                SequenceOption::IncrementBy {
                    value: SequenceValue::Value { value: ColumnValue::Int64(3) },
                },
                SequenceOption::StartWith {
                    value: SequenceValue::Value { value: ColumnValue::Int64(10) },
                },
            ],
        },
    );
    match plan {
        Ok(QueryPlan::CreateSequence { sequence_name, start, increment, if_not_exists, .. }) => {
            assert_eq!(sequence_name, "s");
            assert_eq!((start, increment), (10, 3));
            assert!(if_not_exists);
        }
        _ => panic!("another plan"),
    }
}

#[test]
fn a_table_may_follow_another_or_a_query() {
    let mut server = with_index(GatewayMode::MySql, true);
    let like = Statement::CreateTable {
        name: name("u"),
        if_not_exists: false,
        source: TableSource::Like(name("t")),
        auto_increment_start: None,
    };
    match planned(&mut server, like).unwrap() {
        QueryPlan::CreateTable { schema, indexes, .. } => {
            assert_eq!(schema.table_name, "u");
            assert_eq!(schema.column_names(), words(&["id", "name"]));
            assert_eq!(schema.primary_key, "id");
            assert_eq!(indexes.len(), 1);
            assert!(indexes[0].unique);
        }
        _ => panic!("another plan"),
    }
    let begun = server
        .begin_create_table_as("defaultdb", "public", &name("u"), false)
        .unwrap();
    assert_eq!(begun, Some(("public".to_string(), "u".to_string())));
    assert!(server
        .begin_create_table_as("defaultdb", "public", &name("t"), true)
        .unwrap()
        .is_none());
    assert_eq!(
        failed(server.begin_create_table_as("defaultdb", "public", &name("t"), false)).code,
        "42P07"
    );
    let fields = vec![QueryField { name: "a".to_string(), data_type: DataType::Int64 }];
    let schema = server.finish_create_table_as("u", &fields).unwrap();
    assert_eq!(schema.column_names(), words(&["a"]));
    assert!(!schema.has_user_primary_key());
}

#[test]
fn an_index_gets_another_name_step_by_step() {
    let mut server = with_index(GatewayMode::Postgres, true);
    let table_id = stored(&mut server).table_id;
    let mut rename = IndexRename {
        database_name: "defaultdb".to_string(),
        schema_name: "public".to_string(),
        table_name: "t".to_string(),
        table_id,
        old_name: "by_name".to_string(),
        new_name: "by_label".to_string(),
        stage: RenameStage::Making,
    };
    let old = server.find_index_to_rename(table_id, "by_name").unwrap();
    match server.next_rename_action(&mut rename).unwrap() {
        Some(StorageAction::CreateIndex { table_name, index, if_not_exists: false, .. }) => {
            assert_eq!(table_name, "t");
            assert_eq!(index.index_name, "by_label");
            assert_eq!(index.column_names, old.column_names);
            assert!(index.unique);
        }
        _ => panic!("the new index comes first"),
    }
    assert!(server.find_index_to_rename(table_id, "by_name").is_ok());
    match server.next_rename_action(&mut rename).unwrap() {
        Some(StorageAction::ClearIndex { index_id }) => assert_eq!(index_id, old.index_id),
        _ => panic!("the entries of the old index go"),
    }
    assert!(server.find_index_to_rename(table_id, "by_name").is_err());
    assert!(server.next_rename_action(&mut rename).unwrap().is_none());
    rename.stage = RenameStage::Dropping;
    assert!(server.next_rename_action(&mut rename).unwrap().is_none());
    rename.stage = RenameStage::Making;
    assert_eq!(
        failed(server.next_rename_action(&mut rename)).message,
        "index 'by_name' does not exist"
    );
    rename.stage = RenameStage::Dropping;
    rename.schema_name = "nowhere".to_string();
    assert_eq!(failed(server.next_rename_action(&mut rename)).code, "3F000");
    rename.database_name = "nowhere".to_string();
    assert_eq!(failed(server.next_rename_action(&mut rename)).code, "3D000");
}

fn is_open(server: &GatewayServer<MemoryKvStore>) -> bool {
    let key = b"__catalog__/databases/by-name/defaultdb";
    server.catalog.store.get(key).unwrap().is_some()
}

#[test]
fn what_needs_no_store_leaves_it_alone() {
    let mut server = GatewayServer::with_mode(MemoryKvStore::new(), GatewayMode::MySql);
    let execution = server.execute_plan(QueryPlan::Noop { tag: "OK".to_string() });
    assert!(matches!(
        execution.outcome,
        ExecutionOutcome::Answered(Response::Execution { tag, .. }) if tag == "OK"
    ));
    let none = QueryPlan::DropDatabases { databases: vec![], if_exists: true };
    assert!(matches!(server.execute_plan(none).outcome, ExecutionOutcome::Answered(_)));
    let update = QueryPlan::UpdateRows {
        database_name: "defaultdb".to_string(),
        schema_name: "public".to_string(),
        schema: table(),
        assignments: vec![],
        access: WriteAccess::PointLookup { key: ColumnValue::Int32(1) },
        limit: None,
        order_by_primary_key: false,
        returning: None,
    };
    let locks = server
        .plan_lock_targets(1, &update, false, &vec![true], &vec![], &vec![])
        .unwrap();
    assert_eq!(locks.len(), 2);
    assert!(server
        .resolve_insert_on_conflict(&table(), &None, false, false)
        .unwrap()
        .is_none());
    let mut client = ClientState::new(1);
    assert!(matches!(
        server.handle_session_command(&mut client, "BEGIN"),
        Ok(Some(CommandStep::Begin { .. }))
    ));
    assert!(!is_open(&server));
    let before = client.search_path.clone();
    assert!(server.handle_session_command(&mut client, "SET search_path TO nowhere").is_err());
    assert_eq!(client.search_path, before);
    assert!(is_open(&server));
}

#[test]
fn planning_opens_the_catalog() {
    let mut server = GatewayServer::with_mode(MemoryKvStore::new(), GatewayMode::Postgres);
    let plan = planned(&mut server, Statement::Vacuum);
    assert!(matches!(plan, Ok(QueryPlan::Noop { .. })));
    assert!(is_open(&server));
}

#[test]
fn vacuum_takes_the_table_that_its_target_names() {
    let one = Some(Statement::Analyze { table_name: Some(name("t")) });
    assert_eq!(vacuum_analyze_table_names(&one).unwrap().unwrap().len(), 1);
    let all = Some(Statement::Analyze { table_name: None });
    assert!(vacuum_analyze_table_names(&all).unwrap().is_none());
    let error = failed(vacuum_analyze_table_names(&Some(Statement::Vacuum)));
    assert_eq!(error.code, "42601");
    assert_eq!(error.message, "invalid VACUUM ANALYZE target");
    assert_eq!(failed(vacuum_analyze_table_names(&None)).code, "42601");
}

#[test]
fn an_alteration_runs_against_the_stored_table() {
    let mut server = with_index(GatewayMode::Postgres, false);
    let plan = planned(
        &mut server,
        Statement::AlterTable {
            name: name("t"),
            operations: vec![AlterTableOperation::RenameColumn {
                old_column_name: "name".to_string(),
                new_column_name: "label".to_string(),
            }],
        },
    );
    assert!(matches!(plan, Ok(QueryPlan::AlterTable { .. })));
    let rename = TableAlterOperation::RenameColumn {
        old_name: "name".to_string(),
        new_name: "label".to_string(),
    };
    let change = server
        .alter_table_at("defaultdb", "public", "t", rename, &vec![], CheckVerdict::Holds)
        .unwrap();
    match change {
        AlterChange::Store { schema, refresh: true, .. } => {
            assert_eq!(schema.column_names(), words(&["id", "label"]));
        }
        _ => panic!("another change"),
    }
    let gone = TableAlterOperation::RenameTable { new_name: "u".to_string() };
    assert_eq!(
        failed(server.alter_table_at(
            "defaultdb",
            "public",
            "nope",
            gone,
            &vec![],
            CheckVerdict::Holds
        ))
        .message,
        "table 'nope' does not exist"
    );
    let schema = stored(&mut server);
    let index = server.find_index_to_rename(schema.table_id, "BY_NAME").unwrap();
    assert_eq!(index.index_name, "by_name");
    assert_eq!(
        failed(server.find_index_to_rename(schema.table_id, "other")).message,
        "index 'other' does not exist"
    );
    let actions = server
        .drop_table_index("defaultdb", "public", "t", "by_name", false)
        .unwrap();
    assert!(matches!(actions[0], StorageAction::ClearIndex { .. }));
    assert!(server
        .drop_table_index("defaultdb", "public", "t", "by_name", true)
        .unwrap()
        .is_empty());
}

#[test]
fn an_index_is_begun_once() {
    let mut server = with_index(GatewayMode::Postgres, false);
    assert!(server
        .begin_create_index("defaultdb", "public", "t", "other", &words(&["name"]), false)
        .unwrap()
        .is_some());
    assert!(server
        .begin_create_index("defaultdb", "public", "t", "by_name", &words(&["name"]), true)
        .unwrap()
        .is_none());
    assert_eq!(
        failed(server.begin_create_index(
            "defaultdb",
            "public",
            "t",
            "by_name",
            &words(&["name"]),
            false
        ))
        .message,
        "relation 'by_name' already exists"
    );
    assert_eq!(
        failed(server.begin_create_index(
            "defaultdb",
            "public",
            "t",
            "other",
            &words(&["age"]),
            false
        ))
        .message,
        "column 'age' not found"
    );
    let plan = planned(
        &mut server,
        Statement::CreateIndex {
            name: None,
            table_name: name("t"),
            using: None,
            columns: vec![IndexColumn {
                ascending: None,
                nulls_first: None,
                target: IndexTarget::Column { name: "name".to_string() },
            }],
            unique: true,
            concurrently: false,
            if_not_exists: false,
            includes: 0,
            has_predicate: false,
        },
    );
    assert!(matches!(plan, Ok(QueryPlan::CreateIndex { unique: true, .. })));
}

#[test]
fn reads_are_explained_in_both_languages() {
    let mut mysql = with_index(GatewayMode::MySql, false);
    let schema = stored(&mut mysql);
    let mut plan = select(ReadAccess::PrefixScan { filter: Some(expr("name = 'a'")) }, None);
    if let QueryPlan::SelectRows { schema: described, .. } = &mut plan {
        *described = schema;
    }
    match mysql.explain_plan(&plan, &vec![]).unwrap() {
        QueryPlan::ExplainRows { rows } => assert_eq!(
            cells(&rows[0]),
            vec![
                Some("1"),
                Some("SIMPLE"),
                Some("t"),
                None,
                Some("ALL"),
                Some("PRIMARY,by_name"),
                None,
                None,
                None,
                Some("1000"),
                Some("100.00"),
                Some("Using where"),
            ]
        ),
        _ => panic!("another plan"),
    }
    let mut postgres = server();
    let plan = select(ReadAccess::PrefixScan { filter: None }, Some(5));
    match postgres.explain_plan(&plan, &vec![]).unwrap() {
        QueryPlan::PostgresExplainRows { rows } => {
            assert_eq!(cells(&rows[0]), vec![Some("Limit: 5")]);
            assert_eq!(cells(&rows[1]), vec![Some("Seq Scan on t")]);
        }
        _ => panic!("another plan"),
    }
    let other = QueryPlan::Noop { tag: "SET".to_string() };
    assert_eq!(
        failed(postgres.explain_plan(&other, &vec![])).message,
        "EXPLAIN currently supports SELECT statements in PostgreSQL mode"
    );
    assert_eq!(
        failed(mysql.explain_plan(&other, &vec![])).message,
        "EXPLAIN currently supports SELECT statements in MySQL mode"
    );
}

#[test]
fn plans_ask_for_locks() {
    let mut server = server_in(GatewayMode::MySql);
    let plan = QueryPlan::CreateDatabase {
        database_name: "db".to_string(),
        if_not_exists: false,
    };
    let locks = server.plan_lock_targets(9, &plan, false, &vec![], &vec![], &vec![]).unwrap();
    assert_eq!(locks.len(), 1);
    assert_eq!(locks[0].owner, 9);
    assert_eq!(locks[0].scope, MySqlLockScope::Database);
    assert!(matches!(locks[0].kind, MySqlLockKind::MetadataWrite));
    let update = QueryPlan::UpdateRows {
        database_name: "defaultdb".to_string(),
        schema_name: "public".to_string(),
        schema: table(),
        assignments: vec![],
        access: WriteAccess::PointLookup { key: ColumnValue::Int32(1) },
        limit: None,
        order_by_primary_key: false,
        returning: None,
    };
    let locks = server.plan_lock_targets(9, &update, false, &vec![true], &vec![], &vec![]).unwrap();
    assert!(locks.iter().any(|lock| matches!(lock.kind, MySqlLockKind::Record(_))));
    assert!(locks.iter().any(|lock| matches!(lock.kind, MySqlLockKind::MetadataRead)));
    let locks = server.plan_lock_targets(9, &update, false, &vec![false], &vec![], &vec![]).unwrap();
    assert!(locks.iter().any(|lock| matches!(lock.kind, MySqlLockKind::Gap { .. })));
    let read = select(ReadAccess::PrefixScan { filter: None }, None);
    let locks = server.plan_lock_targets(9, &read, true, &vec![], &vec![], &vec![]).unwrap();
    assert!(locks.iter().any(|lock| matches!(lock.kind, MySqlLockKind::Table)));
    let locks = server.plan_lock_targets(9, &read, false, &vec![], &vec![], &vec![]).unwrap();
    assert!(locks
        .iter()
        .all(|lock| matches!(lock.kind, MySqlLockKind::MetadataRead)));
}

#[test]
fn copies_begin_with_known_columns() {
    let mut server = with_index(GatewayMode::Postgres, false);
    let state = server
        .begin_copy_from_stdin(3, &session(), &name("t"), vec![], CopyInOptions::new(), true)
        .unwrap();
    assert_eq!(state.columns, words(&["id", "name"]));
    assert_eq!(state.indexes.len(), 1);
    assert!(state.use_session_transaction);
    let error = failed(server.begin_copy_from_stdin(
        3,
        &session(),
        &name("t"),
        words(&["age"]),
        CopyInOptions::new(),
        false,
    ));
    assert_eq!(error.message, "column 'age' not found");
    let error = failed(server.begin_copy_from_stdin(
        3,
        &session(),
        &name("nope"),
        vec![],
        CopyInOptions::new(),
        false,
    ));
    assert_eq!(error.message, "table 'nope' does not exist");
    let state = server
        .begin_mysql_load_data_local(
            3,
            &session(),
            "LOAD DATA LOCAL INFILE 'f' INTO TABLE t IGNORE 1 LINES (name)",
            false,
        )
        .unwrap();
    assert_eq!(state.columns, words(&["name"]));
    assert!(state.options.header_pending);
}

#[test]
fn what_is_miswritten_is_refused_before_the_store_is_asked() {
    let mut server = GatewayServer::new(MemoryKvStore::new());
    let error = failed(server.begin_mysql_load_data_local(3, &session(), "LOAD DATA", false));
    assert_ne!(error.code, "XX000");
    let error = failed(server.begin_copy_from_stdin(
        3,
        &session(),
        &name("a.b.c"),
        vec![],
        CopyInOptions::new(),
        false,
    ));
    assert_ne!(error.code, "XX000");
    let path = words(&["public"]);
    let altered = failed(server.plan_alter_table("defaultdb", &path, &name("a.b.c"), &vec![]));
    assert_eq!(altered.message, error.message);
    assert!(server.catalog.store.scan_prefix(b"").unwrap().is_empty());
}

#[test]
fn lines_leave_the_buffer_once_they_are_read() {
    let mut server = server();
    let mut state = server
        .begin_copy_from_stdin(3, &session(), &name("t"), vec![], CopyInOptions::new(), false)
        .unwrap();
    state.receive(b"1\ta\n2\t");
    assert_eq!(state.lines(false), vec![b"1\ta".to_vec()]);
    state.drop_lines(false);
    assert_eq!(state.buffer, b"2\t".to_vec());
    state.receive(b"b");
    assert!(state.lines(false).is_empty());
    assert_eq!(state.lines(true), vec![b"2\tb".to_vec()]);
    state.drop_lines(true);
    assert!(state.buffer.is_empty());
}

#[test]
fn views_are_expanded_from_the_catalog() {
    let mut server = server();
    server
        .catalog
        .store_view("defaultdb", "public", "v", "SELECT 1", false, false)
        .unwrap();
    let sql = server
        .expand_views_in_sql("SELECT * FROM v WHERE id = 1", &session())
        .unwrap();
    assert!(sql.contains("SELECT 1"));
    assert!(!sql.contains("FROM v "));
    assert_eq!(
        server.expand_views_in_sql("SELECT * FROM t", &session()).unwrap(),
        "SELECT * FROM t"
    );
}

#[test]
fn answers_are_described_before_they_are_given() {
    let plan = select(ReadAccess::PrefixScan { filter: None }, None);
    let fields = describe_fields_from_plan(&plan, FieldFormat::Text);
    assert_eq!(fields.len(), 2);
    assert_eq!(fields[1].name, "name");
    let plan = select(ReadAccess::PrefixScan { filter: None }, None);
    match describe_step(Ok(plan), true, FieldFormat::Text).unwrap() {
        DescribeStep::Fields(fields) => assert_eq!(fields[0].name, "id"),
        DescribeStep::Run => panic!("the query was to be run"),
    }
    let responses = single_int8_row_response("n", 5).unwrap();
    let fields = describe_fields_from_responses(&responses);
    assert_eq!(fields[0].name, "n");
    assert!(matches!(fields[0].field_type, FieldType::Int8));
    assert!(describe_fields_from_responses(&vec![command_complete("SET")]).is_empty());
    let odd = || Err(user_error("22023", "not a value"));
    assert_eq!(failed(describe_step(odd(), false, FieldFormat::Text)).code, "22023");
}

#[test]
fn some_values_cannot_be_sent_in_binary_form() {
    let mut numbers = table();
    numbers.columns[1].data_type = DataType::Numeric { precision: None, scale: None };
    let mut one = RowMap::new();
    one.insert("id".to_string(), ColumnValue::Int32(1));
    one.insert("name".to_string(), ColumnValue::Numeric("1.5".to_string()));
    let sent = |format: FieldFormat, columns: &[&str], rows: Vec<RowMap>| {
        match build_pg_response_with_format(rows, &numbers, &words(columns), format).unwrap() {
            Response::Query { mut rows, .. } => rows.remove(0).cells,
            Response::Execution { .. } => panic!("no rows came back"),
        }
    };
    let mut other = RowMap::new();
    other.insert("id".to_string(), ColumnValue::Int32(1));
    assert_eq!(
        sent(FieldFormat::Binary, &["id"], vec![other]).unwrap(),
        vec![ColumnValue::Int32(1)]
    );
    let mut again = RowMap::new();
    again.insert("name".to_string(), ColumnValue::Numeric("1.5".to_string()));
    assert_eq!(
        failed(sent(FieldFormat::Binary, &["id", "name"], vec![one])).message,
        "binary result format is not supported for this column type yet"
    );
    assert_eq!(
        sent(FieldFormat::Text, &["id", "name"], vec![again]).unwrap(),
        vec![ColumnValue::Null, ColumnValue::Numeric("1.5".to_string())]
    );
    let returned = build_pg_returning_response(
        vec![vec![ColumnValue::Int32(1)]],
        &table(),
        &vec![ReturningProjection::Column { name: "id".to_string() }],
        FieldFormat::Text,
    );
    assert!(matches!(returned, Ok(Response::Query { rows, .. }) if rows.len() == 1));
}

#[test]
fn answers_have_their_shapes() {
    assert!(matches!(
        empty_query_response(),
        Response::Query { fields, rows } if fields.is_empty() && rows.is_empty()
    ));
    let answer = spoofed_scalar_response("select version()").unwrap().unwrap();
    match &answer[0] {
        Response::Query { fields, rows } => {
            assert_eq!(fields[0].name, "version");
            assert_eq!(
                rows[0].cells.as_ref().unwrap()[0],
                text("PostgreSQL 14.0 (pg_gateway)")
            );
        }
        Response::Execution { .. } => panic!("no rows came back"),
    }
    assert!(spoofed_scalar_response("select 1").is_none());
    let rows = vec![TextRow { cells: vec![Some("a".to_string()), None] }];
    let answer = multi_text_row_response(&words(&["x", "y"]), &rows).unwrap();
    match &answer[0] {
        Response::Query { fields, rows } => {
            assert_eq!(fields.len(), 2);
            assert_eq!(
                rows[0].cells.as_ref().unwrap(),
                &vec![text("a"), ColumnValue::Null]
            );
        }
        Response::Execution { .. } => panic!("no rows came back"),
    }
}

#[test]
fn entries_of_an_index_are_found_in_a_range() {
    let bound = |byte: u8, inclusive: bool| Some(PrefixBound { prefix: vec![1, byte], inclusive });
    let all = vec![1u8];
    let range = index_entry_range(&all, &bound(3, true), &bound(5, false)).unwrap();
    assert_eq!((range.start, range.end), (vec![1, 3], Some(vec![1, 5])));
    let range = index_entry_range(&all, &bound(3, false), &bound(5, true)).unwrap();
    assert_eq!((range.start, range.end), (vec![1, 4], Some(vec![1, 6])));
    let range = index_entry_range(&all, &None, &None).unwrap();
    assert_eq!((range.start, range.end), (vec![1], Some(vec![2])));
    assert!(index_entry_range(&all, &bound(5, true), &bound(5, false)).is_none());
    assert_eq!(index_scan_end(&vec![1, 255]), vec![2]);
    assert_eq!(index_scan_end(&vec![255]), vec![255]);
    assert_eq!(index_entry_suffix(&vec![1, 7, 8], &all).unwrap(), vec![7, 8]);
    assert_eq!(failed(index_entry_suffix(&vec![2, 7], &all)).code, "XX000");
    let window = RowWindow::new(Some(1), 0);
    assert_eq!(window.next_marker_batch(2, 2, Some(vec![9])), Some(vec![9, 0]));
    assert_eq!(window.next_marker_batch(1, 2, Some(vec![9])), None);
    let mut server = with_index(GatewayMode::Postgres, false);
    let schema = stored(&mut server);
    assert!(matches!(
        server.index_range_to_scan(&schema, "by_name").unwrap(),
        IndexScan::Found { .. }
    ));
    assert!(matches!(
        server.index_range_to_scan(&schema, "other").unwrap(),
        IndexScan::NoIndex
    ));
    assert!(server.index_to_scan(&schema, "by_name").unwrap().is_some());
}

#[test]
fn windows_are_pushed_into_scans_of_the_key() {
    let scan = ReadAccess::PrefixScan { filter: None };
    assert!(pushes_window_down(&scan, Some(1), 0));
    assert!(pushes_window_down(&scan, None, 2));
    assert!(!pushes_window_down(&scan, None, 0));
    let lookup = ReadAccess::PointLookup { key: ColumnValue::Int32(1) };
    assert!(!pushes_window_down(&lookup, Some(1), 1));
    let range = ReadAccess::PrimaryKeyRangeScan {
        lower: bound(1, true),
        upper: None,
        filter: None,
    };
    assert!(pushes_window_down(&range, Some(1), 0));
    assert_eq!(written_key(&table(), &row(3, "a"), &ColumnValue::Null), ColumnValue::Int32(3));
}

#[test]
fn clashing_rows_are_searched_and_changed() {
    let id = words(&["id"]);
    assert!(matches!(
        conflict_columns_search(&table(), &id, &row(3, "a")).unwrap(),
        ConflictSearch::ByKey(ColumnValue::Int32(3))
    ));
    let both = words(&["id", "name"]);
    assert!(matches!(
        conflict_columns_search(&table(), &both, &row(3, "a")).unwrap(),
        ConflictSearch::ByValues(values) if values.len() == 2
    ));
    let error = failed(conflict_columns_search(&table(), &id, &RowMap::new()));
    assert_eq!((error.code.as_str(), error.message.as_str()), ("23502", "null value for id"));
    let assignments = vec![pg_gateway::server::plan::UpdateAssignment {
        column: "name".to_string(),
        expr: expr("'z'"),
    }];
    let changed = apply_insert_conflict_update(
        &table(),
        row(1, "a"),
        true,
        &assignments,
        &vec![text("z")],
        &vec![],
    )
    .unwrap()
    .unwrap();
    assert!(changed.same_row(&row(1, "z")));
    assert!(apply_insert_conflict_update(
        &table(),
        row(1, "a"),
        false,
        &assignments,
        &vec![text("z")],
        &vec![],
    )
    .unwrap()
    .is_none());
    let moved = vec![pg_gateway::server::plan::UpdateAssignment {
        column: "id".to_string(),
        expr: expr("2"),
    }];
    let error = failed(apply_insert_conflict_update(
        &table(),
        row(1, "a"),
        true,
        &moved,
        &vec![ColumnValue::Int32(2)],
        &vec![],
    ));
    assert_eq!(
        error.message,
        "ON CONFLICT DO UPDATE cannot modify the primary key in fast path"
    );
}

#[test]
fn names_may_have_a_schema() {
    assert_eq!(
        resolve_scoped_name("public", "t").unwrap(),
        ("public".to_string(), "t".to_string())
    );
    assert_eq!(
        resolve_scoped_name("public", "s.t").unwrap(),
        ("s".to_string(), "t".to_string())
    );
    let mut server = server();
    assert_eq!(
        server
            .resolve_table_name_for_search_path("defaultdb", &path(), "t")
            .unwrap(),
        Some("public.t".to_string())
    );
    assert!(server
        .resolve_table_schema("defaultdb", &path(), "nope")
        .unwrap()
        .1
        .is_none());
    assert_eq!(failed(server.require_table("defaultdb", &path(), "nope")).code, "42P01");
}
