use std::collections::HashMap;

use pg_gateway::catalog::types::IndexCatalog;
use pg_gateway::row::RowMap;
use pg_gateway::server::lock_plan::{
    insert_row_locks, primary_key_record_or_gap_lock, read_access_locks, secondary_index_locks,
    LockTarget,
};
use pg_gateway::server::lock_table::{
    mysql_lock_queue_blocker, mysql_lock_timeout_error, mysql_lock_wait_timeout,
    mysql_register_lock_wait, LockStep, LockTable,
};
use pg_gateway::server::literals::FloatText;
use pg_gateway::server::locks::{
    mysql_database_lock, mysql_index_value_in_range, mysql_lock, mysql_locks_conflict,
    mysql_range_contains_value, mysql_ranges_overlap, mysql_schema_lock, mysql_statement_lock,
    normalize_mysql_index_lock_value, normalize_mysql_lock_value, MySqlLock, MySqlLockKind,
    MySqlLockPriority, MySqlLockWaiter,
};
use pg_gateway::server::plan::{Bound, ReadAccess};
use pg_gateway::types::ColumnValue;

fn text(value: &str) -> Option<String> {
    Some(value.to_string())
}

fn lock(owner: i32, kind: MySqlLockKind) -> MySqlLock {
    mysql_lock(owner, "db", "s", "t", kind)
}

fn record(owner: i32, value: &str) -> MySqlLock {
    lock(owner, MySqlLockKind::Record(value.to_string()))
}

fn insertion(owner: i32, value: &str) -> MySqlLock {
    lock(owner, MySqlLockKind::InsertIntention(value.to_string()))
}

fn gap(owner: i32, lower: Option<String>, upper: Option<String>) -> MySqlLock {
    lock(owner, MySqlLockKind::Gap { lower, upper })
}

#[test]
fn a_lock_value_is_written_in_its_debug_form() {
    assert_eq!(normalize_mysql_lock_value(&ColumnValue::Int32(-4), &vec![]), "Int32(-4)");
    assert_eq!(
        normalize_mysql_lock_value(&ColumnValue::Text("a\"b\n".to_string()), &vec![]),
        "Text(\"a\\\"b\\n\")"
    );
    assert_eq!(
        normalize_mysql_lock_value(
            &ColumnValue::Array(vec![
                ColumnValue::Null,
                ColumnValue::Boolean(true),
                ColumnValue::Bytea(vec![1, 2]),
            ]),
            &vec![]
        ),
        "Array([Null, Boolean(true), Bytea([1, 2])])"
    );
    assert_eq!(
        normalize_mysql_index_lock_value("Idx", &ColumnValue::Int64(7), &vec![]),
        "idx=Int64(7)"
    );
}

fn float_texts() -> Vec<FloatText> {
    let mut floats: Vec<FloatText> = [1.5f32, -0.0]
        .iter()
        .map(|value| FloatText {
            bits: u64::from(value.to_bits()),
            single: true,
            text: format!("{value:?}"),
        })
        .collect();
    floats.push(FloatText {
        bits: 100.0f64.to_bits(),
        single: false,
        text: format!("{:?}", 100.0f64),
    });
    floats
}

#[test]
fn a_lock_value_holds_the_text_of_a_float() {
    let floats = float_texts();
    let single = ColumnValue::Float32(1.5f32.to_bits());
    assert_eq!(normalize_mysql_lock_value(&single, &floats), "Float32(1.5)");
    let zero = ColumnValue::Float32((-0.0f32).to_bits());
    assert_eq!(normalize_mysql_lock_value(&zero, &floats), "Float32(-0.0)");
    let double = ColumnValue::Float64(100.0f64.to_bits());
    assert_eq!(normalize_mysql_lock_value(&double, &floats), "Float64(100.0)");
    assert_eq!(
        normalize_mysql_index_lock_value("I", &ColumnValue::Array(vec![single.clone()]), &floats),
        "i=Array([Float32(1.5)])"
    );
    let held = primary_key_record_or_gap_lock(&target(&floats), &single, true);
    assert!(matches!(&held.kind, MySqlLockKind::Record(value) if value == "Float32(1.5)"));
    let access = ReadAccess::PrimaryKeyRangeScan {
        lower: Some(Bound { value: double, inclusive: true }),
        upper: None,
        filter: None,
    };
    let locks = read_access_locks(&target(&floats), &access, &vec![], &vec![]);
    assert!(locks.iter().any(|lock| matches!(
        &lock.kind,
        MySqlLockKind::NextKey { lower, upper: None } if *lower == text("Float64(100.0)")
    )));
}

#[test]
fn ranges_hold_and_meet() {
    assert!(mysql_range_contains_value(&None, &None, "x"));
    assert!(!mysql_range_contains_value(&text("b"), &None, "a"));
    assert!(!mysql_range_contains_value(&None, &text("b"), "c"));
    assert!(mysql_ranges_overlap(&None, &text("b"), &text("a"), &None));
    assert!(!mysql_ranges_overlap(&None, &text("b"), &text("c"), &None));
    assert!(mysql_index_value_in_range("i", "i=5", &None, &None));
    assert!(!mysql_index_value_in_range("i", "j=5", &None, &None));
}

#[test]
fn ranges_overlap_where_they_share_a_value() {
    let left = (text("b"), text("d"));
    let meets = (text("c"), text("f"));
    let apart = (text("d"), text("f"));
    assert!(mysql_ranges_overlap(&left.0, &left.1, &meets.0, &meets.1));
    assert!(mysql_range_contains_value(&left.0, &left.1, "c"));
    assert!(mysql_range_contains_value(&meets.0, &meets.1, "c"));
    assert!(!mysql_ranges_overlap(&left.0, &left.1, &apart.0, &apart.1));
    assert!(!mysql_ranges_overlap(&apart.0, &apart.1, &left.0, &left.1));
    assert!(!mysql_range_contains_value(&left.0, &left.1, "d"));
    assert!(mysql_ranges_overlap(&None, &None, &left.0, &left.1));
}

#[test]
fn a_wait_that_would_never_end_is_refused() {
    let mut waits = HashMap::new();
    assert!(mysql_register_lock_wait(&mut waits, 1, 2).is_none());
    assert!(mysql_register_lock_wait(&mut waits, 2, 3).is_none());
    let error = mysql_register_lock_wait(&mut waits, 3, 1);
    assert_eq!(error.map(|one| one.code), Some("40001".to_string()));
    assert_eq!(waits.get(&3), None);
    assert_eq!(waits.get(&1), Some(&2));
    assert!(mysql_register_lock_wait(&mut waits, 1, 3).is_none());
    assert_eq!(waits.get(&1), Some(&3));
    assert!(mysql_register_lock_wait(&mut waits, 2, 2).is_some());
    assert_eq!(waits.get(&2), None);
}

#[test]
fn a_session_does_not_wait_for_itself() {
    let mut table = LockTable::new();
    table.try_acquire(1, vec![record(1, "a")]);
    assert!(matches!(table.try_acquire(1, vec![record(1, "a")]), LockStep::Granted));
    assert_eq!(table.find_blocker(1, &vec![record(1, "a")]), None);
    assert!(mysql_locks_conflict(&record(1, "a"), &record(2, "a")));
    assert!(!mysql_locks_conflict(&record(1, "a"), &record(2, "b")));
}

#[test]
fn ranges_stop_what_is_in_them() {
    let held = gap(1, text("b"), text("d"));
    assert!(mysql_locks_conflict(&held, &gap(2, None, None)));
    assert!(!mysql_locks_conflict(&held, &gap(2, text("d"), None)));
    assert!(mysql_locks_conflict(&held, &insertion(2, "c")));
    assert!(mysql_locks_conflict(&held, &record(2, "c")));
    assert!(!mysql_locks_conflict(&held, &insertion(2, "e")));
    assert!(!mysql_locks_conflict(&insertion(1, "a"), &insertion(2, "a")));
    assert!(!mysql_locks_conflict(&insertion(1, "a"), &record(2, "a")));
}

#[test]
fn meeting_is_mutual() {
    let locks = vec![
        record(1, "a"),
        insertion(1, "a"),
        gap(1, None, None),
        lock(1, MySqlLockKind::Table),
        lock(1, MySqlLockKind::MetadataRead),
        lock(1, MySqlLockKind::MetadataWrite),
    ];
    for left in &locks {
        for right in &locks {
            let other = mysql_lock(2, "db", "s", "t", clone_kind(&right.kind));
            let back = mysql_lock(2, "db", "s", "t", clone_kind(&left.kind));
            assert_eq!(
                mysql_locks_conflict(left, &other),
                mysql_locks_conflict(right, &back)
            );
        }
    }
}

fn clone_kind(kind: &MySqlLockKind) -> MySqlLockKind {
    match kind {
        MySqlLockKind::Record(value) => MySqlLockKind::Record(value.clone()),
        MySqlLockKind::InsertIntention(value) => MySqlLockKind::InsertIntention(value.clone()),
        MySqlLockKind::Gap { lower, upper } => MySqlLockKind::Gap {
            lower: lower.clone(),
            upper: upper.clone(),
        },
        MySqlLockKind::Table => MySqlLockKind::Table,
        MySqlLockKind::MetadataWrite => MySqlLockKind::MetadataWrite,
        _ => MySqlLockKind::MetadataRead,
    }
}

#[test]
fn a_wider_scope_covers_a_narrower_one() {
    let write = mysql_schema_lock(1, "db", "s", MySqlLockKind::MetadataWrite);
    let read = mysql_lock(2, "db", "s", "t", MySqlLockKind::MetadataRead);
    let elsewhere = mysql_lock(2, "db", "other", "t", MySqlLockKind::MetadataRead);
    assert!(mysql_locks_conflict(&write, &read));
    assert!(!mysql_locks_conflict(&write, &elsewhere));
    let whole = mysql_database_lock(1, "db", MySqlLockKind::MetadataWrite);
    assert!(mysql_locks_conflict(&whole, &elsewhere));
    let shared = mysql_database_lock(1, "db", MySqlLockKind::MetadataRead);
    assert!(!mysql_locks_conflict(&shared, &read));
}

#[test]
fn a_free_lock_is_granted_and_a_held_one_is_waited_for() {
    let mut table = LockTable::new();
    assert!(matches!(table.try_acquire(1, vec![record(1, "a")]), LockStep::Granted));
    let wanted = vec![record(2, "a")];
    assert_eq!(table.find_blocker(2, &wanted), Some(1));
    table.enqueue(2, &wanted);
    assert!(matches!(table.try_acquire(2, wanted), LockStep::Waits));
    table.release_session_table_locks(1);
    assert!(matches!(table.try_acquire(2, vec![record(2, "a")]), LockStep::Granted));
    assert_eq!(table.locks.len(), 1);
    assert_eq!(table.locks[0].owner, 2);
}

#[test]
fn a_ring_of_waits_is_a_deadlock() {
    let mut table = LockTable::new();
    table.try_acquire(1, vec![record(1, "a")]);
    table.try_acquire(2, vec![record(2, "b")]);
    table.enqueue(1, &vec![record(1, "b")]);
    assert!(matches!(table.try_acquire(1, vec![record(1, "b")]), LockStep::Waits));
    table.enqueue(2, &vec![record(2, "a")]);
    match table.try_acquire(2, vec![record(2, "a")]) {
        LockStep::Refused(error) => {
            assert_eq!(error.code, "40001");
            assert_eq!(
                error.message,
                "Deadlock found when trying to get lock; try restarting transaction"
            );
        }
        _ => panic!("a deadlock was not found"),
    }
}

#[test]
fn statement_locks_go_with_the_statement() {
    let mut table = LockTable::new();
    table.try_acquire(
        1,
        vec![
            mysql_statement_lock(1, "db", "s", "t", MySqlLockKind::MetadataRead),
            record(1, "a"),
        ],
    );
    assert_eq!(table.locks.len(), 2);
    table.release_session_statement_locks(1);
    assert_eq!(table.locks.len(), 1);
    assert!(matches!(table.locks[0].kind, MySqlLockKind::Record(_)));
}

#[test]
fn earlier_waiters_come_first() {
    let queue = vec![MySqlLockWaiter {
        session_id: 5,
        priority: MySqlLockPriority::Normal,
        locks: vec![record(5, "a")],
    }];
    assert_eq!(
        mysql_lock_queue_blocker(&queue, 6, MySqlLockPriority::Normal, &vec![record(6, "a")]),
        Some(5)
    );
    assert_eq!(
        mysql_lock_queue_blocker(&queue, 5, MySqlLockPriority::Normal, &vec![record(5, "a")]),
        None
    );
    assert_eq!(
        mysql_lock_queue_blocker(&queue, 6, MySqlLockPriority::Normal, &vec![record(6, "b")]),
        None
    );
}

#[test]
fn the_wait_for_a_lock_ends() {
    assert_eq!(mysql_lock_wait_timeout(&None), 50);
    assert_eq!(mysql_lock_wait_timeout(&text("7")), 7);
    assert_eq!(mysql_lock_wait_timeout(&text("x")), 50);
    let error = mysql_lock_timeout_error(7);
    assert_eq!(error.code, "HY000");
    assert_eq!(
        error.message,
        "Lock wait timeout exceeded after 7 seconds; try restarting transaction"
    );
}

fn target(floats: &Vec<FloatText>) -> LockTarget<'_> {
    LockTarget { session_id: 3, database_name: "db", schema_name: "s", table_name: "t", floats }
}

#[test]
fn a_key_that_is_not_there_locks_its_gap() {
    let key = ColumnValue::Int32(4);
    let held = primary_key_record_or_gap_lock(&target(&vec![]), &key, true);
    assert!(matches!(&held.kind, MySqlLockKind::Record(value) if value == "Int32(4)"));
    assert_eq!(held.owner, 3);
    let missing = primary_key_record_or_gap_lock(&target(&vec![]), &key, false);
    assert!(matches!(
        &missing.kind,
        MySqlLockKind::Gap { lower, upper }
            if *lower == text("Int32(4)") && *upper == text("Int32(4*")
    ));
}

#[test]
fn an_index_lookup_locks_its_records() {
    let found = vec![ColumnValue::Int32(1), ColumnValue::Int32(2)];
    let locks =
        secondary_index_locks(&target(&vec![]), "i", &ColumnValue::Text("x".to_string()), &found);
    assert_eq!(locks.len(), 3);
    let records: Vec<&MySqlLock> = locks
        .iter()
        .filter(|lock| matches!(lock.kind, MySqlLockKind::Record(_)))
        .collect();
    assert_eq!(records.len(), 2);
}

#[test]
fn inserted_rows_are_announced() {
    let mut row = RowMap::new();
    row.insert("id".to_string(), ColumnValue::Int32(9));
    row.insert("name".to_string(), ColumnValue::Text("n".to_string()));
    let index = IndexCatalog {
        index_id: 1,
        database_id: 1,
        schema_id: 1,
        table_id: 1,
        schema_name: "s".to_string(),
        table_name: "t".to_string(),
        index_name: "By_Name".to_string(),
        column_name: "name".to_string(),
        column_names: vec!["name".to_string()],
        unique: false,
    };
    let locks = insert_row_locks(&target(&vec![]), "id", &vec![row], &vec![index]);
    assert!(locks
        .iter()
        .any(|lock| matches!(&lock.kind, MySqlLockKind::InsertIntention(value) if value == "Int32(9)")));
    assert!(locks.iter().any(|lock| matches!(
        &lock.kind,
        MySqlLockKind::IndexInsertIntention { value, .. } if value == "by_name=Text(\"n\")"
    )));
}

#[test]
fn a_key_range_locks_what_is_between() {
    let access = ReadAccess::PrimaryKeyRangeScan {
        lower: Some(Bound { value: ColumnValue::Int32(1), inclusive: true }),
        upper: None,
        filter: None,
    };
    let locks = read_access_locks(&target(&vec![]), &access, &vec![], &vec![]);
    assert!(locks.iter().any(|lock| matches!(
        &lock.kind,
        MySqlLockKind::NextKey { lower, upper: None } if *lower == text("Int32(1)")
    )));
}
