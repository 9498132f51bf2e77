use pg_gateway::catalog::types::{IndexCatalog, TableCatalog};
use pg_gateway::codec::{cell_key, index_entry_key, row_marker_key};
use pg_gateway::error::UserError;
use pg_gateway::mem_store::MemoryKvStore;
use pg_gateway::mode::GatewayMode;
use pg_gateway::response::Response;
use pg_gateway::row::RowMap;
use pg_gateway::schema::{
    CheckConstraintSchema, ColumnSchema, ForeignKeyConstraintSchema, TableSchema,
    UniqueConstraintSchema,
};
use pg_gateway::server::alter::RowWork;
use pg_gateway::server::exec_rows::InsertStep;
use pg_gateway::server::gateway::GatewayServer;
use pg_gateway::server::insert_run::{
    conflict_sets, find_existing_row_for_conflict, ClashValues, InsertRun, SetFacts,
};
use pg_gateway::server::plan::{
    ColumnSet, InsertConflictAction, SqlExpr, UpdateAssignment,
};
use pg_gateway::server::row_flow::{
    delete_row, write_row, EntryFacts, ForeignFacts, ReferringTable, SightFacts, WriteFacts,
};
use pg_gateway::server::row_work::{RowAction, RowPlace};
use pg_gateway::server::rows::{CheckVerdict, RowEntry};
use pg_gateway::server::table_flow::{add_primary_key, alter_rows, drop_cell_work, RowVerdicts};
use pg_gateway::types::{ColumnValue, DataType};

fn failed<T>(result: Result<T, UserError>) -> UserError {
    match result {
        Ok(_) => panic!("the call went through"),
        Err(error) => error,
    }
}

fn column(name: &str, data_type: DataType, primary_key: bool) -> ColumnSchema {
    ColumnSchema {
        column_id: 0,
        name: name.to_string(),
        data_type,
        primary_key,
        nullable: !primary_key,
        default: None,
        on_update: None,
        character_set: None,
        collation: None,
    }
}

fn table() -> TableSchema {
    TableSchema {
        table_name: "t".to_string(),
        table_id: 4,
        schema_version: 1,
        table_epoch: 1,
        primary_key: "id".to_string(),
        check_constraints: Vec::new(),
        unique_constraints: Vec::new(),
        foreign_keys: Vec::new(),
        columns: vec![
            column("id", DataType::Int32, true),
            column("name", DataType::Text, false),
        ],
    }
}

fn text(value: &str) -> ColumnValue {
    ColumnValue::Text(value.to_string())
}

fn row(id: i32, name: &str) -> RowMap {
    let mut row = RowMap::new();
    row.insert("id".to_string(), ColumnValue::Int32(id));
    row.insert("name".to_string(), text(name));
    row
}

fn entry(id: i32, name: &str) -> RowEntry {
    RowEntry { key: ColumnValue::Int32(id), row: row(id, name) }
}

fn index() -> IndexCatalog {
    IndexCatalog {
        index_id: 9,
        database_id: 1,
        schema_id: 1,
        table_id: 4,
        schema_name: "public".to_string(),
        table_name: "t".to_string(),
        index_name: "by_name".to_string(),
        column_name: "name".to_string(),
        column_names: vec!["name".to_string()],
        unique: true,
    }
}

fn place() -> RowPlace<'static> {
    RowPlace { database_name: "defaultdb", schema_name: "public", table_name: "t" }
}

fn sight(old_row: Option<RowMap>) -> SightFacts {
    SightFacts {
        old_row,
        repeatable_read: false,
        written: false,
        snapshot: None,
        latest: None,
    }
}

fn facts() -> WriteFacts {
    WriteFacts { sight: sight(None), foreign: vec![], entries: vec![], rows: vec![] }
}

fn write(
    schema: &TableSchema,
    indexes: &Vec<IndexCatalog>,
    facts: &WriteFacts,
) -> Result<Vec<RowAction>, UserError> {
    let key = ColumnValue::Int32(1);
    write_row(&place(), schema, indexes, &key, &row(1, "a"), &vec![], facts, true)
}

#[test]
fn a_good_row_is_written() {
    let actions = write(&table(), &vec![], &facts()).unwrap();
    assert!(matches!(&actions[0], RowAction::PutRow { .. }));
    assert!(matches!(actions.last(), Some(RowAction::RefreshStatistics)));
    let marker = row_marker_key("defaultdb", "public", "t", &ColumnValue::Int32(1));
    assert!(actions
        .iter()
        .any(|action| matches!(
            action,
            RowAction::DeleteKey { key, required: false } if *key == marker
        )));
}

#[test]
fn rules_on_a_row_have_an_order() {
    let mut schema = table();
    schema.foreign_keys.push(ForeignKeyConstraintSchema {
        name: "fk".to_string(),
        columns: vec!["name".to_string()],
        foreign_table: "people".to_string(),
        referred_columns: vec!["name".to_string()],
    });
    schema.unique_constraints.push(UniqueConstraintSchema {
        name: "u".to_string(),
        columns: vec!["name".to_string()],
        primary_key: false,
    });
    let mut told = facts();
    told.sight = SightFacts {
        old_row: Some(row(1, "old")),
        repeatable_read: true,
        written: false,
        snapshot: Some(vec![1]),
        latest: Some(vec![2]),
    };
    told.foreign = vec![ForeignFacts { table: None, key_found: false, rows: vec![] }];
    told.entries = vec![EntryFacts {
        existing: vec![vec![7]],
        own: vec![8],
        first_form: vec![],
    }];
    told.rows = vec![entry(2, "a")];
    let indexes = vec![index()];
    assert_eq!(failed(write(&schema, &indexes, &told)).code, "40001");
    told.sight.written = true;
    assert_eq!(failed(write(&schema, &indexes, &told)).code, "42P01");
    told.foreign = vec![ForeignFacts { table: Some(table()), key_found: false, rows: vec![] }];
    assert_eq!(failed(write(&schema, &indexes, &told)).code, "23503");
    told.foreign[0].rows = vec![row(5, "a")];
    let error = failed(write(&schema, &indexes, &told));
    assert_eq!(error.message, "duplicate key value violates unique constraint 'by_name'");
    told.entries[0].own = vec![7];
    let error = failed(write(&schema, &indexes, &told));
    assert_eq!(error.message, "duplicate key value violates unique constraint 'u'");
    told.rows = vec![entry(1, "a")];
    assert!(write(&schema, &indexes, &told).is_ok());
    let key = ColumnValue::Int32(1);
    let mut nameless = table();
    nameless.columns[1].nullable = false;
    let mut empty = row(1, "a");
    empty.remove("name");
    let error =
        failed(write_row(&place(), &nameless, &vec![], &key, &empty, &vec![], &facts(), true));
    assert_eq!(error.code, "23502");
}

#[test]
fn entries_in_their_first_form_count_too() {
    let mut told = facts();
    let key = ColumnValue::Int32(1);
    let own = index_entry_key("defaultdb", "public", "t", "by_name", &text("a"), &key);
    told.entries = vec![EntryFacts {
        existing: vec![],
        own: vec![],
        first_form: vec![own],
    }];
    assert!(write(&table(), &vec![index()], &told).is_ok());
    let other =
        index_entry_key("defaultdb", "public", "t", "by_name", &text("a"), &ColumnValue::Int32(2));
    told.entries[0].first_form.push(other);
    assert_eq!(failed(write(&table(), &vec![index()], &told)).code, "23505");
}

fn referring(rows: Vec<RowMap>) -> ReferringTable {
    let mut schema = table();
    schema.table_name = "child".to_string();
    schema.foreign_keys.push(ForeignKeyConstraintSchema {
        name: "fk".to_string(),
        columns: vec!["name".to_string()],
        foreign_table: "t".to_string(),
        referred_columns: vec!["name".to_string()],
    });
    ReferringTable {
        table: TableCatalog {
            database_id: 1,
            schema_id: 1,
            schema_name: "public".to_string(),
            table_name: "child".to_string(),
            schema,
        },
        rows,
    }
}

#[test]
fn a_row_that_is_referred_to_stays() {
    let key = ColumnValue::Int32(1);
    let error = failed(delete_row(
        &place(),
        &table(),
        &vec![],
        &key,
        &sight(Some(row(1, "a"))),
        &vec![referring(vec![row(3, "a")])],
    ));
    assert_eq!(error.code, "23503");
    assert_eq!(
        error.message,
        "update or delete on table 't' violates foreign key constraint 'fk'"
    );
    let free = vec![referring(vec![row(3, "b")])];
    let actions =
        delete_row(&place(), &table(), &vec![index()], &key, &sight(Some(row(1, "a"))), &free)
            .unwrap();
    assert!(actions.iter().any(|action| matches!(action, RowAction::DeleteRow { .. })));
    assert!(!actions
        .iter()
        .any(|action| matches!(action, RowAction::DeleteKey { required: false, .. })));
    assert!(actions.iter().any(|action| matches!(action, RowAction::DeleteIndexEntry { .. })));
    let held = vec![referring(vec![row(3, "a")])];
    assert!(delete_row(&place(), &table(), &vec![], &key, &sight(None), &held).is_ok());
}

fn loose() -> TableSchema {
    let mut schema = table();
    schema.primary_key = "__rowid__".to_string();
    schema.columns[0].primary_key = false;
    schema.columns[0].nullable = true;
    schema
}

fn verdicts(count: usize) -> Vec<RowVerdicts> {
    (0..count).map(|_| RowVerdicts { verdicts: vec![] }).collect()
}

#[test]
fn rows_get_another_key() {
    let rows = vec![entry(10, "a"), entry(20, "b")];
    let change =
        add_primary_key(&place(), &loose(), &vec![index()], "name", &rows, &verdicts(2)).unwrap();
    assert_eq!(change.schema.primary_key, "name");
    assert_eq!(change.schema.table_epoch, 2);
    assert!(!change.schema.columns[1].nullable);
    let old = row_marker_key("defaultdb", "public", "t", &ColumnValue::Int32(10));
    assert!(change
        .actions
        .iter()
        .any(|action| matches!(
            action,
            RowAction::DeleteKey { key, required: true } if *key == old
        )));
    let puts = change
        .actions
        .iter()
        .filter(|action| matches!(action, RowAction::PutRow { .. }))
        .count();
    assert_eq!(puts, 2);
    let twice = vec![entry(10, "a"), entry(20, "a")];
    let error =
        failed(add_primary_key(&place(), &loose(), &vec![], "name", &twice, &verdicts(2)));
    assert_eq!(error.code, "23505");
    assert_eq!(
        error.message,
        "could not create primary key on 'name': duplicate values exist"
    );
    let error = failed(add_primary_key(&place(), &loose(), &vec![], "x", &rows, &verdicts(2)));
    assert_eq!(error.code, "42703");
    let error = failed(add_primary_key(&place(), &table(), &vec![], "name", &rows, &verdicts(2)));
    assert_eq!(error.code, "0A000");
    let mut checked = loose();
    checked.check_constraints.push(CheckConstraintSchema {
        name: "c".to_string(),
        expr: "id > 10".to_string(),
    });
    let broken = vec![
        RowVerdicts { verdicts: vec![CheckVerdict::Fails] },
        RowVerdicts { verdicts: vec![CheckVerdict::Holds] },
    ];
    let error = failed(add_primary_key(&place(), &checked, &vec![], "name", &rows, &broken));
    assert_eq!(error.code, "23514");
}

#[test]
fn rows_follow_their_table() {
    let rows = vec![entry(1, "a")];
    let added = alter_rows(
        &RowWork::AddValue(column("age", DataType::Int32, false)),
        &rows,
        &vec![ColumnValue::Int32(7)],
    );
    assert_eq!(added[0].row.value_or_null("age"), ColumnValue::Int32(7));
    assert_eq!(added[0].key, ColumnValue::Int32(1));
    let removed =
        alter_rows(&RowWork::RemoveValue("age".to_string()), &added, &vec![ColumnValue::Null]);
    assert!(removed[0].row.same_row(&rows[0].row));
}

#[test]
fn a_column_that_goes_takes_its_cells_along() {
    let key = ColumnValue::Int32(1);
    let work = RowWork::RemoveValue("age".to_string());
    let actions = drop_cell_work(&place(), &work, &key);
    assert_eq!(actions.len(), 1);
    let cell = cell_key("defaultdb", "public", "t", "age", &key);
    assert!(matches!(
        &actions[0],
        RowAction::DeleteKey { key, required: false } if *key == cell
    ));
    assert!(drop_cell_work(&place(), &RowWork::Keep, &key).is_empty());
    let added = RowWork::AddValue(column("age", DataType::Int32, false));
    assert!(drop_cell_work(&place(), &added, &key).is_empty());
}

#[test]
fn an_index_is_made_and_filled() {
    let mut server = GatewayServer::new(MemoryKvStore::new());
    server.catalog.store_table("defaultdb", "public", &table()).unwrap();
    let names = vec!["name".to_string()];
    let twice = vec![entry(1, "a"), entry(2, "a")];
    let error =
        failed(server.create_index_at(&place(), "by_name", &names, true, false, &twice));
    assert_eq!(error.code, "23505");
    let rows = vec![entry(1, "a"), entry(2, "b")];
    let fill = server
        .create_index_at(&place(), "by_name", &names, true, false, &rows)
        .unwrap_or_else(|error| panic!("{}", error.message))
        .unwrap_or_else(|| panic!("no index was made"));
    assert_eq!(fill.index.index_name, "by_name");
    assert_eq!(fill.actions.len(), 4);
    assert!(server
        .create_index_at(&place(), "by_name", &names, true, true, &rows)
        .unwrap_or_else(|error| panic!("{}", error.message))
        .is_none());
    let error = failed(server.create_index_at(&place(), "by_name", &names, true, false, &rows));
    assert_eq!(error.code, "42P07");
}

fn renaming() -> InsertConflictAction {
    InsertConflictAction::DoUpdate {
        target_columns: vec!["id".to_string()],
        assignments: vec![UpdateAssignment {
            column: "name".to_string(),
            expr: SqlExpr { text: "'z'".to_string() },
        }],
        selection: None,
    }
}

fn given() -> ClashValues {
    ClashValues { selected: true, values: vec![text("z")], fresh: vec![] }
}

#[test]
fn a_clash_is_looked_for_set_by_set() {
    let sets = conflict_sets(&table(), &Some(InsertConflictAction::DoNothing));
    assert_eq!(sets[0].columns, vec!["id"]);
    assert!(conflict_sets(&table(), &None).is_empty());
    let any = Some(InsertConflictAction::DoNothingAnyUnique {
        target_column_sets: vec![
            ColumnSet { columns: vec!["id".to_string()] },
            ColumnSet { columns: vec!["name".to_string()] },
        ],
    });
    let told = vec![
        SetFacts { by_key: None, index_rows: vec![], all_rows: vec![] },
        SetFacts { by_key: None, index_rows: vec![], all_rows: vec![entry(5, "a")] },
    ];
    let found = find_existing_row_for_conflict(&table(), &any, &row(1, "a"), &told)
        .unwrap()
        .unwrap();
    assert_eq!(found.key, ColumnValue::Int32(5));
    let many = vec![
        SetFacts { by_key: None, index_rows: vec![], all_rows: vec![] },
        SetFacts {
            by_key: None,
            index_rows: vec![],
            all_rows: vec![entry(5, "a"), entry(6, "a")],
        },
    ];
    let error = failed(find_existing_row_for_conflict(&table(), &any, &row(1, "a"), &many));
    assert_eq!(error.code, "23505");
}

#[test]
fn an_insertion_runs_row_by_row() {
    let mut run = InsertRun::start(vec![row(1, "a"), row(2, "b")], true);
    let on_conflict = Some(renaming());
    let none = ColumnValue::Null;
    let told = vec![SetFacts {
        by_key: Some(row(1, "old")),
        index_rows: vec![],
        all_rows: vec![],
    }];
    let existing = run.find_clash(&table(), &on_conflict, &none, &told).unwrap();
    assert!(existing.is_some());
    match run.decide(&table(), &on_conflict, &none, existing, &given(), false) {
        Ok(InsertStep::Write { key, row, affected, .. }) => {
            assert_eq!(key, ColumnValue::Int32(1));
            assert_eq!(row.value_or_null("name"), text("z"));
            assert_eq!(affected, 2);
            run.written(row, affected, Some(41));
        }
        _ => panic!("the row was not changed"),
    }
    match run.decide(&table(), &None, &none, None, &given(), false) {
        Ok(InsertStep::Write { row, affected, .. }) => run.written(row, affected, Some(42)),
        _ => panic!("the row was not written"),
    }
    assert!(run.is_done());
    assert_eq!(run.returned.len(), 2);
    assert_eq!(run.counts.first_insert_id, Some(41));
    match run.answer(GatewayMode::MySql) {
        Response::Execution { tag, count } => {
            assert_eq!(tag, "INSERT 41");
            assert_eq!(count, Some(3));
        }
        _ => panic!("rows came back"),
    }
}

#[test]
fn rows_without_a_key_or_with_a_taken_one_are_refused() {
    let mut keyless = row(1, "a");
    keyless.remove("id");
    let run = InsertRun::start(vec![keyless], false);
    let none = ColumnValue::Null;
    let error = failed(run.find_clash(&table(), &None, &none, &vec![]));
    assert_eq!(error.code, "23502");
    assert_eq!(error.message, "null value for primary key 'id'");
    let mut run = InsertRun::start(vec![row(1, "a")], false);
    let error = failed(run.decide(&table(), &None, &none, None, &given(), true));
    assert_eq!(error.code, "23505");
    assert_eq!(
        error.message,
        "duplicate key value violates unique constraint 't_pkey'"
    );
    run.skipped();
    assert!(run.is_done());
    assert_eq!(run.counts.inserted, 0);
}
