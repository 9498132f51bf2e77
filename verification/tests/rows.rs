use pg_gateway::catalog::types::{CatalogStore, IndexCatalog};
use pg_gateway::codec::{encode_cell_value, row_marker_key};
use pg_gateway::error::{user_error, UserError};
use pg_gateway::mem_store::MemoryKvStore;
use pg_gateway::mode::GatewayMode;
use pg_gateway::response::{build_pg_response, Response};
use pg_gateway::row::RowMap;
use pg_gateway::schema::{
    CheckConstraintSchema, ColumnSchema, ForeignKeyConstraintSchema, TableSchema,
    UniqueConstraintSchema,
};
use pg_gateway::seed::{batch_end, ensure_orders_table, order_row, orders_schema, TARGET_ROWS};
use pg_gateway::server::exec_rows::{
    insert_key, insert_response, insert_step, select_window, take_new_key, with_primary_key,
    InsertCounts, InsertStep,
};
use pg_gateway::server::mutate::{
    rows_to_delete, rows_to_update, update_rows, ChangeRun, NewValues,
};
use pg_gateway::server::olap::olap_storage;
use pg_gateway::server::plan::{
    Bound, InsertConflictAction, ReadAccess, SqlExpr, UpdateAssignment, WriteAccess,
};
use pg_gateway::server::row_work::{
    check_index_values, delete_row_work, unique_index_verdict, write_row_work, RowAction, RowPlace,
};
use pg_gateway::server::rows::{
    apply_update_assignments, apply_write_limit, check_over_rows, foreign_key_demand,
    foreign_key_verdict, index_for_columns, indexed_value_for_columns, new_check_verdict,
    reference_verdict, resolve_foreign_table_reference, validate_row_constraints,
    validate_unique_constraint, zone_maps_for_rows, CheckVerdict, RowEntry,
};
use pg_gateway::server::scans::{
    ensure_row_write_not_stale, index_entry_in_bounds, keys_holding, row_marker_range,
    row_of_cells, scan_batch, storage_scan_limit, value_in_bounds, visible_row, RowWindow,
};
use pg_gateway::types::{ColumnValue, DataType};

fn failed<T>(result: Result<T, UserError>) -> UserError {
    match result {
        Ok(_) => panic!("the call went through"),
        Err(error) => error,
    }
}

fn column(name: &str, data_type: DataType, primary_key: bool) -> ColumnSchema {
    ColumnSchema {
        column_id: 0,
        name: name.to_string(),
        data_type,
        primary_key,
        nullable: !primary_key,
        default: None,
        on_update: None,
        character_set: None,
        collation: None,
    }
}

fn table() -> TableSchema {
    TableSchema {
        table_name: "t".to_string(),
        table_id: 4,
        schema_version: 1,
        table_epoch: 1,
        primary_key: "id".to_string(),
        check_constraints: Vec::new(),
        unique_constraints: Vec::new(),
        foreign_keys: Vec::new(),
        columns: vec![
            column("id", DataType::Int32, true),
            column("name", DataType::Text, false),
        ],
    }
}

fn text(value: &str) -> ColumnValue {
    ColumnValue::Text(value.to_string())
}

fn row(id: i32, name: &str) -> RowMap {
    let mut row = RowMap::new();
    row.insert("id".to_string(), ColumnValue::Int32(id));
    row.insert("name".to_string(), text(name));
    row
}

fn entry(id: i32, name: &str) -> RowEntry {
    RowEntry { key: ColumnValue::Int32(id), row: row(id, name) }
}

fn index(unique: bool) -> IndexCatalog {
    IndexCatalog {
        index_id: 9,
        database_id: 1,
        schema_id: 1,
        table_id: 4,
        schema_name: "public".to_string(),
        table_name: "t".to_string(),
        index_name: "by_name".to_string(),
        column_name: "name".to_string(),
        column_names: vec!["name".to_string()],
        unique,
    }
}

fn bound(value: i32, inclusive: bool) -> Option<Bound> {
    Some(Bound { value: ColumnValue::Int32(value), inclusive })
}

#[test]
fn a_row_keeps_one_value_per_name() {
    let mut row = row(1, "a");
    row.insert("name".to_string(), text("b"));
    assert_eq!(row.get("name"), Some(&text("b")));
    row.remove("name");
    assert_eq!(row.get("name"), None);
    assert_eq!(row.value_or_null("name"), ColumnValue::Null);
}

#[test]
fn rows_have_to_meet_constraints() {
    let mut schema = table();
    schema.columns[1].nullable = false;
    let mut empty = row(1, "a");
    empty.remove("name");
    let error = failed(validate_row_constraints(&schema, &empty, &vec![]));
    assert_eq!(error.code, "23502");
    schema.check_constraints.push(CheckConstraintSchema {
        name: "c".to_string(),
        expr: "id > 0".to_string(),
    });
    assert!(validate_row_constraints(&schema, &row(1, "a"), &vec![CheckVerdict::Holds]).is_ok());
    let error =
        failed(validate_row_constraints(&schema, &row(1, "a"), &vec![CheckVerdict::Fails]));
    assert_eq!(error.code, "23514");
    let error = failed(validate_row_constraints(
        &schema,
        &row(1, "a"),
        &vec![CheckVerdict::Malformed(user_error("42601", "bad"))],
    ));
    assert_eq!(error.message, "bad");
}

#[test]
fn unique_values_are_held_once() {
    let constraint = UniqueConstraintSchema {
        name: "u".to_string(),
        columns: vec!["name".to_string()],
        primary_key: false,
    };
    let rows = vec![entry(1, "a"), entry(2, "b")];
    assert!(validate_unique_constraint(&constraint, &rows, &None, &Some(row(3, "c"))).is_ok());
    let error = failed(validate_unique_constraint(
        &constraint,
        &rows,
        &Some(ColumnValue::Int32(3)),
        &Some(row(3, "a")),
    ));
    assert_eq!(error.code, "23505");
    assert!(validate_unique_constraint(
        &constraint,
        &rows,
        &Some(ColumnValue::Int32(1)),
        &Some(row(1, "a"))
    )
    .is_ok());
}

#[test]
fn unique_floats_are_told_apart_as_they_are_written() {
    let constraint = UniqueConstraintSchema {
        name: "u".to_string(),
        columns: vec!["x".to_string()],
        primary_key: false,
    };
    let rows = |values: &[f64]| -> Vec<RowEntry> {
        values
            .iter()
            .enumerate()
            .map(|(number, value)| {
                let mut row = RowMap::new();
                row.insert("x".to_string(), ColumnValue::Float64(value.to_bits()));
                RowEntry { key: ColumnValue::Int32(number as i32), row }
            })
            .collect()
    };
    let check = |values: &[f64]| validate_unique_constraint(&constraint, &rows(values), &None, &None);
    assert!(check(&[0.0, -0.0, 1.5]).is_ok());
    assert!(check(&[1.5, 2.5, 1.5]).is_err());
    assert!(check(&[f64::NAN, -f64::NAN]).is_err());
    assert!(check(&[f64::INFINITY, f64::NEG_INFINITY, f64::NAN]).is_ok());
}

fn foreign_key() -> ForeignKeyConstraintSchema {
    ForeignKeyConstraintSchema {
        name: "fk".to_string(),
        columns: vec!["name".to_string()],
        foreign_table: "people".to_string(),
        referred_columns: vec!["name".to_string()],
    }
}

#[test]
fn foreign_keys_ask_for_a_row() {
    assert_eq!(
        resolve_foreign_table_reference("s", "people").unwrap(),
        ("s".to_string(), "people".to_string())
    );
    let demand = foreign_key_demand("s", &foreign_key(), &row(1, "a")).unwrap().unwrap();
    assert_eq!(demand.table_name, "people");
    assert_eq!(demand.values, vec![text("a")]);
    let mut free = row(1, "a");
    free.insert("name".to_string(), ColumnValue::Null);
    assert!(foreign_key_demand("s", &foreign_key(), &free).unwrap().is_none());
    assert!(foreign_key_verdict(&table(), &foreign_key(), true).is_ok());
    assert_eq!(failed(foreign_key_verdict(&table(), &foreign_key(), false)).code, "23503");
    assert_eq!(
        failed(reference_verdict(&table(), &foreign_key(), &vec![row(2, "a")], &vec![text("a")]))
            .code,
        "23503"
    );
    assert!(
        reference_verdict(&table(), &foreign_key(), &vec![row(2, "b")], &vec![text("a")]).is_ok()
    );
}

#[test]
fn an_index_value_may_span_columns() {
    let row = row(1, "a");
    assert_eq!(indexed_value_for_columns(&row, &vec!["name".to_string()]), text("a"));
    assert_eq!(
        indexed_value_for_columns(&row, &vec!["id".to_string(), "name".to_string()]),
        ColumnValue::Array(vec![ColumnValue::Int32(1), text("a")])
    );
}

#[test]
fn an_insertion_meets_what_is_there() {
    let key = insert_key(&table(), &row(1, "a"), &ColumnValue::Int64(7)).unwrap();
    assert_eq!(key, ColumnValue::Int32(1));
    let error = failed(insert_step(
        &table(),
        &None,
        ColumnValue::Int32(1),
        row(1, "a"),
        None,
        None,
        true,
    ));
    assert_eq!(error.code, "23505");
    assert!(matches!(
        insert_step(
            &table(),
            &Some(InsertConflictAction::DoNothing),
            ColumnValue::Int32(1),
            row(1, "a"),
            Some(entry(1, "b")),
            None,
            true
        ),
        Ok(InsertStep::Skip)
    ));
    match insert_step(&table(), &None, ColumnValue::Int32(1), row(1, "a"), None, None, false) {
        Ok(InsertStep::Write { replaced, key, affected, .. }) => {
            assert!(replaced.is_none());
            assert_eq!(key, ColumnValue::Int32(1));
            assert_eq!(affected, 1);
        }
        _ => panic!("the row was not written"),
    }
}

#[test]
fn insertions_are_counted() {
    let mut counts = InsertCounts::new();
    counts.count(1, Some(8));
    counts.count(2, Some(9));
    assert_eq!(counts.inserted, 2);
    assert_eq!(counts.affected_rows, 3);
    assert_eq!(counts.first_insert_id, Some(8));
    match insert_response(GatewayMode::Postgres, &counts) {
        Response::Execution { tag, count } => {
            assert_eq!(tag, "INSERT 0");
            assert_eq!(count, Some(2));
        }
        _ => panic!("rows came back"),
    }
}

#[test]
fn a_window_of_rows_is_shown() {
    let all = ReadAccess::PrimaryKeyInLookup { keys: vec![] };
    let rows = vec![row(1, "a"), row(2, "b"), row(3, "c")];
    let shown = select_window(&all, rows, Some(1), 1);
    assert_eq!(shown.len(), 1);
    assert_eq!(shown[0].value_or_null("id"), ColumnValue::Int32(2));
}

#[test]
fn a_column_can_become_the_key() {
    let mut loose = table();
    loose.primary_key = "__rowid__".to_string();
    loose.columns[0].primary_key = false;
    let schema = with_primary_key(&loose, "name").unwrap();
    assert_eq!(schema.primary_key, "name");
    assert!(with_primary_key(&loose, "nowhere").is_err());
    let mut known: Vec<Vec<u8>> = Vec::new();
    assert_eq!(take_new_key(&row(1, "a"), "name", &mut known).unwrap(), text("a"));
    assert!(take_new_key(&row(2, "a"), "name", &mut known).is_err());
    assert_eq!(take_new_key(&row(3, "ab"), "name", &mut known).unwrap(), text("ab"));
    assert_eq!(known, vec![b"a\0".to_vec(), b"ab\0".to_vec()]);
    assert!(take_new_key(&RowMap::new(), "name", &mut known).is_err());
}

#[test]
fn a_new_check_is_tried_alone_and_on_the_rows() {
    let bad = || CheckVerdict::Malformed(user_error("42601", "bad"));
    assert!(matches!(check_over_rows(&vec![]), CheckVerdict::Holds));
    assert!(matches!(
        check_over_rows(&vec![CheckVerdict::Holds, CheckVerdict::Fails, bad()]),
        CheckVerdict::Fails
    ));
    assert!(matches!(
        check_over_rows(&vec![CheckVerdict::Holds, bad(), CheckVerdict::Fails]),
        CheckVerdict::Malformed(error) if error.message == "bad"
    ));
    assert!(matches!(
        new_check_verdict(&vec![CheckVerdict::Fails], &vec![CheckVerdict::Holds]),
        CheckVerdict::Holds
    ));
    assert!(matches!(
        new_check_verdict(&vec![CheckVerdict::Holds], &vec![CheckVerdict::Fails]),
        CheckVerdict::Fails
    ));
    assert!(matches!(
        new_check_verdict(&vec![bad()], &vec![CheckVerdict::Fails]),
        CheckVerdict::Malformed(error) if error.code == "42601"
    ));
}

#[test]
fn an_index_is_found_by_its_columns() {
    let mut pair = index(true);
    pair.index_name = "by_both".to_string();
    pair.column_names = vec!["id".to_string(), "name".to_string()];
    let indexes = vec![pair, index(true)];
    let names = |columns: &[&str]| columns.iter().map(|name| name.to_string()).collect();
    let found = index_for_columns(&indexes, &names(&["name"]), &vec![text("a")]);
    assert_eq!(found, Some(("by_name".to_string(), text("a"))));
    let values = vec![ColumnValue::Int32(1), text("a")];
    let found = index_for_columns(&indexes, &names(&["id", "name"]), &values);
    let both = ColumnValue::Array(vec![ColumnValue::Int32(1), text("a")]);
    assert_eq!(found, Some(("by_both".to_string(), both)));
    assert_eq!(index_for_columns(&indexes, &names(&["name", "id"]), &values), None);
}

#[test]
fn storage_is_read_in_batches_where_a_filter_meets_a_limit() {
    assert_eq!(scan_batch(true, Some(3), 2, 4096), (Some(4096), true));
    assert_eq!(scan_batch(false, Some(3), 2, 4096), (storage_scan_limit(false, Some(3), 2), false));
    assert_eq!(scan_batch(false, Some(3), 2, 4096), (Some(5), false));
    assert_eq!(scan_batch(true, None, 0, 4096), (None, false));
}

#[test]
fn keys_are_picked_by_a_text_in_them() {
    let keys = vec![
        b"index:by_name:1".to_vec(),
        b"index:other:2".to_vec(),
        vec![0xff, b'b', b'y', b'_', b'n', b'a', b'm', b'e'],
    ];
    let found = keys_holding(&keys, "by_name");
    assert_eq!(found, vec![keys[0].clone(), keys[2].clone()]);
    assert_eq!(keys_holding(&keys, "\u{fffd}by"), vec![keys[2].clone()]);
    assert_eq!(keys_holding(&keys, ""), keys);
}

#[test]
fn a_write_limit_keeps_the_smallest_keys_and_the_order_of_ties() {
    let rows = vec![entry(2, "late"), entry(3, "c"), entry(1, "first"), entry(1, "second")];
    let kept = apply_write_limit(rows, Some(3), true);
    let names: Vec<ColumnValue> = kept.iter().map(|one| one.row.value_or_null("name")).collect();
    assert_eq!(names, vec![text("first"), text("second"), text("late")]);
}

#[test]
fn zones_bound_the_values_and_count_the_nulls() {
    let mut gap = row(9, "x");
    gap.remove("name");
    let zones = zone_maps_for_rows(&table(), &vec![row(5, "m"), gap, row(7, "a")]);
    assert_eq!(zones[0].min, Some(ColumnValue::Int32(5)));
    assert_eq!(zones[0].max, Some(ColumnValue::Int32(9)));
    assert_eq!(zones[0].null_count, 0);
    assert_eq!(zones[1].min, Some(text("a")));
    assert_eq!(zones[1].max, Some(text("m")));
    assert_eq!(zones[1].null_count, 1);
}

#[test]
fn writes_stop_at_their_limit() {
    let rows = vec![entry(3, "c"), entry(1, "a"), entry(2, "b")];
    let kept = apply_write_limit(rows, Some(2), true);
    assert_eq!(kept.len(), 2);
    assert_eq!(kept[0].key, ColumnValue::Int32(1));
    assert_eq!(kept[1].key, ColumnValue::Int32(2));
    let access = WriteAccess::PrefixScan { filter: None };
    let rows = rows_to_delete(&access, vec![entry(2, "b"), entry(1, "a")], Some(1), false);
    assert_eq!(rows.len(), 1);
    assert_eq!(rows[0].key, ColumnValue::Int32(2));
    let rows = rows_to_update(&access, vec![entry(2, "b")], None, false).unwrap();
    assert_eq!(rows.len(), 1);
}

fn renaming() -> Vec<UpdateAssignment> {
    vec![UpdateAssignment {
        column: "name".to_string(),
        expr: SqlExpr { text: "'z'".to_string() },
    }]
}

#[test]
fn updates_keep_keys() {
    let changed = apply_update_assignments(
        row(1, "a"),
        &table(),
        &renaming(),
        &vec![text("z")],
        &vec![],
    )
    .unwrap();
    assert_eq!(changed.value_or_null("name"), text("z"));
    assert_eq!(changed.value_or_null("id"), ColumnValue::Int32(1));
    let done = update_rows(
        &table(),
        &renaming(),
        &vec![entry(1, "a")],
        &vec![NewValues { values: vec![text("z")], fresh: vec![] }],
    );
    assert!(done.error.is_none());
    assert_eq!(done.rows[0].key, ColumnValue::Int32(1));
    assert_eq!(done.rows[0].row.value_or_null("name"), text("z"));
}

#[test]
fn an_update_goes_row_by_row() {
    let rows = vec![entry(1, "a"), entry(2, "b")];
    let new = vec![
        NewValues { values: vec![text("y")], fresh: vec![] },
        NewValues { values: vec![text("z")], fresh: vec![] },
    ];
    let whole = update_rows(&table(), &renaming(), &rows, &new);
    let mut run = ChangeRun::start(rows);
    while !run.is_done() {
        let next = run.updated(&table(), &renaming(), &new[run.at]).unwrap();
        assert!(next.key.equals(&run.rows[run.at].key));
        assert!(next.row.same_row(&whole.rows[run.at].row));
        run.done(next.row);
    }
    assert_eq!(run.changed.len(), 2);
    assert!(matches!(
        run.answer("UPDATE"),
        Response::Execution { tag, count: Some(2) } if tag == "UPDATE"
    ));
    let missing = vec![UpdateAssignment {
        column: "age".to_string(),
        expr: SqlExpr { text: "1".to_string() },
    }];
    let run = ChangeRun::start(vec![entry(1, "a")]);
    let new = NewValues { values: vec![ColumnValue::Int32(1)], fresh: vec![] };
    assert_eq!(failed(run.updated(&table(), &missing, &new)).code, "42703");
}

#[test]
fn an_update_by_key_needs_its_row() {
    let access = WriteAccess::PointLookup { key: ColumnValue::Int32(1) };
    let error = failed(rows_to_update(&access, vec![], None, false));
    assert_eq!(error.code, "02000");
    assert_eq!(error.message, "no row found for UPDATE");
    assert!(rows_to_update(&access, vec![], Some(0), false).unwrap().is_empty());
    assert!(rows_to_delete(&access, vec![], None, false).is_empty());
}

#[test]
fn a_written_row_has_entries() {
    let place = RowPlace { database_name: "db", schema_name: "public", table_name: "t" };
    let actions = write_row_work(
        &place,
        &table(),
        &vec![index(false)],
        &ColumnValue::Int32(1),
        &row(1, "a"),
        &Some(row(1, "old")),
        false,
    );
    assert!(actions.iter().any(|action| matches!(action, RowAction::PutRow { .. })));
    assert!(actions.iter().any(|action| matches!(
        action,
        RowAction::PutIndexEntry { index_id: 9, value, .. } if *value == text("a")
    )));
    assert!(actions.iter().any(|action| matches!(
        action,
        RowAction::DeleteIndexEntry { index_id: 9, value, .. } if *value == text("old")
    )));
    let actions = delete_row_work(
        &place,
        &table(),
        &vec![index(false)],
        &ColumnValue::Int32(1),
        &Some(row(1, "a")),
    );
    assert!(actions.iter().any(|action| matches!(action, RowAction::DeleteRow { .. })));
    assert!(actions.iter().any(|action| matches!(action, RowAction::DeleteIndexEntry { .. })));
}

#[test]
fn a_unique_index_refuses_a_second_row() {
    let own = vec![1u8];
    assert!(unique_index_verdict(&index(true), &text("a"), &vec![own.clone()], &own).is_ok());
    let other = vec![2u8];
    let error = failed(unique_index_verdict(&index(true), &text("a"), &vec![other.clone()], &own));
    assert_eq!(error.code, "23505");
    assert!(unique_index_verdict(&index(false), &text("a"), &vec![other], &own).is_ok());
    let place = RowPlace { database_name: "db", schema_name: "public", table_name: "t" };
    let names = vec!["name".to_string()];
    let rows = vec![entry(1, "a"), entry(2, "a")];
    assert!(check_index_values(&place, "by_name", &names, false, &rows).is_ok());
    assert_eq!(
        failed(check_index_values(&place, "by_name", &names, true, &rows)).code,
        "23505"
    );
}

#[test]
fn bounds_hold_values() {
    assert!(value_in_bounds(&ColumnValue::Int32(5), &bound(5, true), &None));
    assert!(!value_in_bounds(&ColumnValue::Int32(5), &bound(5, false), &None));
    assert!(!value_in_bounds(&ColumnValue::Int32(6), &None, &bound(5, true)));
    assert!(value_in_bounds(&ColumnValue::Int32(5), &None, &None));
    assert!(index_entry_in_bounds(&ColumnValue::Int32(5), &None, &None, 4, 3, 7).unwrap());
    let error = failed(index_entry_in_bounds(&ColumnValue::Int32(5), &None, &None, 4, 3, 8));
    assert_eq!(error.code, "XX000");
}

#[test]
fn a_range_of_keys_holds_the_rows_in_bounds() {
    let range = row_marker_range("db", "s", "t", &bound(2, true), &bound(4, false));
    let inside = |id: i32| {
        let key = row_marker_key("db", "s", "t", &ColumnValue::Int32(id));
        key >= range.start && range.end.as_ref().map_or(true, |end| key < *end)
    };
    assert!(!inside(1));
    assert!(inside(2));
    assert!(inside(3));
    assert!(!inside(4));
}

#[test]
fn a_scan_keeps_its_window() {
    let mut window = RowWindow::new(Some(2), 1);
    assert!(window.meet(entry(1, "a"), true));
    assert!(window.meet(entry(2, "b"), false));
    assert!(window.meet(entry(3, "c"), true));
    assert!(!window.meet(entry(4, "d"), true));
    let kept: Vec<ColumnValue> = window.rows.iter().map(|entry| entry.key.clone()).collect();
    assert_eq!(kept, vec![ColumnValue::Int32(3), ColumnValue::Int32(4)]);
    assert!(window.next_batch(10, 10, Some(ColumnValue::Int32(4))).is_none());
    let mut split = RowWindow::new(Some(2), 1);
    split.meet_all(&vec![entry(1, "a"), entry(2, "b")], &vec![true, false]);
    split.meet_all(&vec![entry(3, "c"), entry(4, "d")], &vec![true, true]);
    let again: Vec<ColumnValue> = split.rows.iter().map(|entry| entry.key.clone()).collect();
    assert_eq!(again, kept);
    assert_eq!(storage_scan_limit(false, Some(5), 2), Some(7));
    assert_eq!(storage_scan_limit(true, Some(5), 2), None);
}

#[test]
fn a_stale_write_is_refused() {
    let old = Some(vec![1u8]);
    let new = Some(vec![2u8]);
    assert!(ensure_row_write_not_stale(true, false, &old, &old).is_ok());
    let error = failed(ensure_row_write_not_stale(true, false, &old, &new));
    assert_eq!(error.code, "40001");
    assert_eq!(error.message, "could not serialize access due to concurrent update");
    assert!(ensure_row_write_not_stale(false, false, &old, &new).is_ok());
    assert!(ensure_row_write_not_stale(true, true, &old, &new).is_ok());
}

#[test]
fn a_sessions_own_rows_come_first() {
    let mine = visible_row(Some(Some(row(1, "mine"))), Some(row(1, "stored")), None);
    assert_eq!(mine.unwrap().value_or_null("name"), text("mine"));
    assert!(visible_row(Some(None), Some(row(1, "stored")), None).is_none());
    let stored = visible_row(None, Some(row(1, "stored")), Some(row(1, "cells")));
    assert_eq!(stored.unwrap().value_or_null("name"), text("stored"));
    let cells = visible_row(None, None, Some(row(1, "cells")));
    assert_eq!(cells.unwrap().value_or_null("name"), text("cells"));
}

#[test]
fn cells_make_a_row() {
    let cells = vec![
        Some(encode_cell_value(&ColumnValue::Int32(5))),
        Some(encode_cell_value(&text("five"))),
    ];
    let row = row_of_cells(&table(), &cells).unwrap();
    assert_eq!(row.value_or_null("id"), ColumnValue::Int32(5));
    assert_eq!(row.value_or_null("name"), text("five"));
    assert!(row_of_cells(&table(), &vec![Some(vec![1]), None]).is_err());
}

#[test]
fn chunks_hold_all_rows() {
    let rows = vec![row(1, "a"), row(2, "b"), row(3, "c")];
    let storage = olap_storage(&table(), &rows, 2);
    assert_eq!(storage.row_count, 3);
    assert_eq!(storage.chunks.len(), 2);
    assert_eq!(storage.chunks[0].row_count, 2);
    assert_eq!(storage.chunks[1].row_count, 1);
    assert_eq!(storage.chunks[1].columns[0].values, vec![ColumnValue::Int32(3)]);
    let zones = zone_maps_for_rows(&table(), &rows);
    assert_eq!(zones[0].min, Some(ColumnValue::Int32(1)));
    assert_eq!(zones[0].max, Some(ColumnValue::Int32(3)));
    assert_eq!(zones[0].null_count, 0);
}

#[test]
fn rows_are_shown_by_projection() {
    let response =
        build_pg_response(vec![row(1, "a")], &table(), &vec!["name".to_string()]).unwrap();
    match response {
        Response::Query { fields, rows } => {
            assert_eq!(fields.len(), 1);
            assert_eq!(fields[0].name, "name");
            assert_eq!(rows[0].cells.as_ref().unwrap()[0], text("a"));
        }
        _ => panic!("no rows came back"),
    }
}

#[test]
fn orders_are_made() {
    assert_eq!(batch_end(1, 100_000), 100_000);
    assert_eq!(batch_end(TARGET_ROWS, 100_000), TARGET_ROWS);
    let schema = orders_schema(5);
    assert_eq!(schema.table_id, 5);
    let order = order_row(1);
    for column in &schema.columns {
        assert!(order.get(&column.name).is_some());
    }
    let mut catalog = CatalogStore::new(MemoryKvStore::new());
    let made = ensure_orders_table(&mut catalog, GatewayMode::Postgres).unwrap();
    let again = ensure_orders_table(&mut catalog, GatewayMode::Postgres).unwrap();
    assert_eq!(made.schema.table_id, again.schema.table_id);
}
