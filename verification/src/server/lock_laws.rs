//! What the locks of statements are for: a statement that changes rows keeps others away from
//! them, one that changes a description keeps everybody away from the object, and nobody waits
//! for a statement that only reads.
use vstd::prelude::*;
use vstd::utf8::encode_utf8;

use crate::bytes::{lemma_bytes_less_prefix, lemma_bytes_less_total};
use crate::catalog::model::{database_found, index_found, schema_found};
use crate::catalog::types::{DatabaseModel, IndexModel};
use crate::error::Report;
use crate::lists::{kept_where, lemma_kept_where};
use crate::mem_store::Contents;
use crate::row::RowModel;
use crate::server::literals::FloatTextModel;
use crate::server::lock_plan::{
    drop_index_locks, index_insert_locks, index_locks, index_range_locks, indexes_insert_locks,
    lemma_ascii_end, plan_locks, read_locks, record_locks, row_insert_locks, rows_insert_locks,
    upper_form, write_locks, TargetModel,
};
use crate::server::lock_table::{
    any_conflict, enqueued, holder, holder_of, is_queued, outlasting, priority_of, queue_blocker,
    statement_released, tried, wait_seconds, waiting_others, with_locks, LockState,
};
use crate::server::locks::{
    in_range, index_value_form, law_ranges_overlap_where_they_meet, locks_conflict, value_form,
    KindModel, LockModel, MySqlLockDuration, MySqlLockScope, WaiterModel,
};
use crate::server::plan::{BoundModel, PlanModel, QualifiedModel, ReadModel, WriteModel};
use crate::server::rows::indexed;
use crate::sorting::text_less;
use crate::text::{all_digits, begins, digits_value, is_digit, lower};
use crate::types::Datum;

verus! {

/// A table, by its names.
pub struct TablePlace {
    pub database_name: Seq<char>,
    pub schema_name: Seq<char>,
    pub table_name: Seq<char>,
}

/// Whether the form of a key stands between those of two ends: not below the one and below the
/// other.
pub open spec fn stands_between(
    lower: Option<BoundModel>,
    upper: Option<BoundModel>,
    floats: Seq<FloatTextModel>,
    key: Datum,
) -> bool {
    &&& lower matches Some(end) ==> !text_less(
        value_form(key, floats),
        value_form(end.value, floats),
    )
    &&& upper matches Some(end) ==> text_less(
        value_form(key, floats),
        value_form(end.value, floats),
    )
}

/// Whether an update or a deletion may change the row under a key: the one that it looks up,
/// where it is there, one that an index leads to, or any. A range of keys is known by the forms
/// of its ends, so it has the keys whose form stands between them.
pub open spec fn may_change(
    access: WriteModel,
    visible: Seq<bool>,
    found: Seq<Datum>,
    floats: Seq<FloatTextModel>,
    key: Datum,
) -> bool {
    match access {
        WriteModel::PointLookup { key: wanted } => key == wanted && visible.len() > 0 && visible[0],
        WriteModel::PrimaryKeyRangeScan { lower, upper, .. } => stands_between(lower, upper, floats, key),
        WriteModel::SecondaryIndexLookup { .. } => found.contains(key),
        WriteModel::SecondaryIndexRangeScan { .. } => found.contains(key),
        WriteModel::PrefixScan { .. } => true,
    }
}

/// Whether a read may come to the row under a key.
pub open spec fn may_read(
    access: ReadModel,
    visible: Seq<bool>,
    found: Seq<Datum>,
    floats: Seq<FloatTextModel>,
    key: Datum,
) -> bool {
    match access {
        ReadModel::PointLookup { key: wanted } => key == wanted && visible.len() > 0 && visible[0],
        ReadModel::PrimaryKeyInLookup { keys } => exists|i: int|
            0 <= i < keys.len() && i < visible.len() && #[trigger] keys[i] == key && visible[i],
        ReadModel::PrimaryKeyRangeScan { lower, upper, .. } => stands_between(lower, upper, floats, key),
        ReadModel::SecondaryIndexLookup { .. } => found.contains(key),
        ReadModel::SecondaryIndexRangeScan { .. } => found.contains(key),
        ReadModel::PrefixScan { .. } => true,
    }
}

/// Whether a row with a key is among some rows.
pub open spec fn has_key(rows: Seq<RowModel>, primary_key: Seq<char>, key: Datum) -> bool {
    exists|i: int|
        0 <= i < rows.len() && (#[trigger] rows[i]).dom().contains(primary_key)
            && rows[i][primary_key] == key
}

/// The table whose rows a statement has to itself, if any: one that it inserts into, updates,
/// deletes from, or reads with locks.
pub open spec fn table_of_rows(plan: PlanModel, locking_read: bool) -> Option<TablePlace> {
    match plan {
        PlanModel::InsertRows { database_name, schema_name, schema, .. } => Some(
            TablePlace { database_name, schema_name, table_name: schema.table_name },
        ),
        PlanModel::UpdateRows { database_name, schema_name, schema, .. } => Some(
            TablePlace { database_name, schema_name, table_name: schema.table_name },
        ),
        PlanModel::DeleteRows { database_name, schema_name, schema, .. } => Some(
            TablePlace { database_name, schema_name, table_name: schema.table_name },
        ),
        PlanModel::SelectRows { database_name, schema_name, schema, .. } => if locking_read {
            Some(TablePlace { database_name, schema_name, table_name: schema.table_name })
        } else {
            None
        },
        _ => None,
    }
}

/// Whether a statement may come to the row under a key, to change it or to read it with a lock.
pub open spec fn comes_to(
    plan: PlanModel,
    locking_read: bool,
    visible: Seq<bool>,
    found: Seq<Datum>,
    floats: Seq<FloatTextModel>,
    key: Datum,
) -> bool {
    match plan {
        PlanModel::InsertRows { schema, rows, .. } => has_key(rows, schema.primary_key, key),
        PlanModel::UpdateRows { access, .. } => may_change(access, visible, found, floats, key),
        PlanModel::DeleteRows { access, .. } => may_change(access, visible, found, floats, key),
        PlanModel::SelectRows { access, .. } => locking_read && may_read(
            access,
            visible,
            found,
            floats,
            key,
        ),
        _ => false,
    }
}

/// Whether a lock is on a table, whoever has it.
pub open spec fn is_on(lock: LockModel, place: TablePlace) -> bool {
    lock.scope == MySqlLockScope::Table && lock.database_name == lower(place.database_name)
        && lock.schema_name == lower(place.schema_name) && lock.table_name == lower(
        place.table_name,
    )
}

/// Whether some lock among others stands in the way of one.
pub open spec fn some_conflicts(locks: Seq<LockModel>, other: LockModel) -> bool {
    exists|i: int| 0 <= i < locks.len() && locks_conflict(#[trigger] locks[i], other)
}

/// Whether a lock has the row under a form: by itself, by a range, or with the whole table.
spec fn has_row(lock: LockModel, place: TablePlace, form: Seq<char>) -> bool {
    is_on(lock, place) && match lock.kind {
        KindModel::Table => true,
        KindModel::Record(value) => value == form,
        KindModel::NextKey { lower, upper } => in_range(lower, upper, form),
        _ => false,
    }
}

spec fn some_has_row(locks: Seq<LockModel>, place: TablePlace, form: Seq<char>) -> bool {
    exists|i: int| 0 <= i < locks.len() && has_row(#[trigger] locks[i], place, form)
}

proof fn lemma_more_locks(locks: Seq<LockModel>, more: Seq<LockModel>, place: TablePlace, form: Seq<char>)
    requires
        some_has_row(locks, place, form) || some_has_row(more, place, form),
    ensures
        some_has_row(locks + more, place, form),
{
    if some_has_row(locks, place, form) {
        let i = choose|i: int| 0 <= i < locks.len() && has_row(#[trigger] locks[i], place, form);
        assert((locks + more)[i] == locks[i]);
    } else {
        let i = choose|i: int| 0 <= i < more.len() && has_row(#[trigger] more[i], place, form);
        assert((locks + more)[locks.len() + i] == more[i]);
    }
}

proof fn lemma_found_rows(target: TargetModel, first: Seq<LockModel>, found: Seq<Datum>, key: Datum)
    requires
        found.contains(key),
    ensures
        some_has_row(
            first + record_locks(target, found),
            place_of(target),
            value_form(key, target.floats),
        ),
{
    let locks = record_locks(target, found);
    let i = choose|i: int| 0 <= i < found.len() && found[i] == key;
    assert(has_row(locks[i], place_of(target), value_form(key, target.floats)));
    lemma_more_locks(first, locks, place_of(target), value_form(key, target.floats));
}

spec fn place_of(target: TargetModel) -> TablePlace {
    TablePlace {
        database_name: target.database_name,
        schema_name: target.schema_name,
        table_name: target.table_name,
    }
}

proof fn lemma_write_has_row(
    target: TargetModel,
    access: WriteModel,
    visible: Seq<bool>,
    found: Seq<Datum>,
    key: Datum,
)
    requires
        may_change(access, visible, found, target.floats, key),
    ensures
        some_has_row(
            write_locks(target, access, visible, found),
            place_of(target),
            value_form(key, target.floats),
        ),
{
    let locks = write_locks(target, access, visible, found);
    let place = place_of(target);
    let form = value_form(key, target.floats);
    match access {
        WriteModel::SecondaryIndexLookup { index_name, key: value, .. } => {
            let first = index_locks(target, index_name, value, found).take(1);
            assert(locks =~= first + record_locks(target, found));
            lemma_found_rows(target, first, found, key);
        },
        WriteModel::SecondaryIndexRangeScan { index_name, lower, upper, .. } => {
            let first = index_range_locks(target, index_name, lower, upper, found).take(1);
            assert(locks =~= first + record_locks(target, found));
            lemma_found_rows(target, first, found, key);
        },
        _ => {
            assert(has_row(locks[0], place, form));
        },
    }
}

proof fn lemma_read_has_row(
    target: TargetModel,
    access: ReadModel,
    visible: Seq<bool>,
    found: Seq<Datum>,
    key: Datum,
)
    requires
        may_read(access, visible, found, target.floats, key),
    ensures
        some_has_row(
            read_locks(target, access, visible, found),
            place_of(target),
            value_form(key, target.floats),
        ),
{
    let locks = read_locks(target, access, visible, found);
    let place = place_of(target);
    let form = value_form(key, target.floats);
    match access {
        ReadModel::SecondaryIndexLookup { index_name, key: value, .. } => {
            let first = index_locks(target, index_name, value, found).take(1);
            assert(locks =~= first + record_locks(target, found));
            lemma_found_rows(target, first, found, key);
        },
        ReadModel::SecondaryIndexRangeScan { index_name, lower, upper, .. } => {
            let first = index_range_locks(target, index_name, lower, upper, found).take(1);
            assert(locks =~= first + record_locks(target, found));
            lemma_found_rows(target, first, found, key);
        },
        ReadModel::PrimaryKeyInLookup { keys } => {
            let i = choose|i: int|
                0 <= i < keys.len() && i < visible.len() && #[trigger] keys[i] == key && visible[i];
            assert(has_row(locks[i], place, form));
        },
        _ => {
            assert(has_row(locks[0], place, form));
        },
    }
}

proof fn lemma_insert_has_row(
    target: TargetModel,
    primary_key: Seq<char>,
    rows: Seq<RowModel>,
    indexes: Seq<IndexModel>,
    key: Datum,
)
    requires
        has_key(rows, primary_key, key),
    ensures
        some_has_row(
            rows_insert_locks(target, primary_key, rows, indexes),
            place_of(target),
            value_form(key, target.floats),
        ),
    decreases rows.len(),
{
    let place = place_of(target);
    let form = value_form(key, target.floats);
    let i = choose|i: int|
        0 <= i < rows.len() && (#[trigger] rows[i]).dom().contains(primary_key)
            && rows[i][primary_key] == key;
    let before = rows_insert_locks(target, primary_key, rows.drop_last(), indexes);
    let last = row_insert_locks(target, primary_key, rows.last(), indexes);
    if i < rows.len() - 1 {
        assert(rows.drop_last()[i] == rows[i]);
        lemma_insert_has_row(target, primary_key, rows.drop_last(), indexes, key);
    } else {
        assert(has_row(last[1], place, form));
    }
    lemma_more_locks(before, last, place, form);
}

/// Each row that a statement comes to is in one of its locks.
proof fn lemma_has_rows(
    contents: Contents,
    session_id: i32,
    plan: PlanModel,
    locking_read: bool,
    visible: Seq<bool>,
    found: Seq<Datum>,
    floats: Seq<FloatTextModel>,
    key: Datum,
)
    requires
        comes_to(plan, locking_read, visible, found, floats, key),
        plan_locks(contents, session_id, plan, locking_read, visible, found, floats) is Ok,
    ensures
        table_of_rows(plan, locking_read) is Some,
        some_has_row(
            plan_locks(contents, session_id, plan, locking_read, visible, found, floats)->Ok_0,
            table_of_rows(plan, locking_read)->0,
            value_form(key, floats),
        ),
{
    let place = table_of_rows(plan, locking_read)->0;
    let form = value_form(key, floats);
    let target = TargetModel {
        session_id,
        database_name: place.database_name,
        schema_name: place.schema_name,
        table_name: place.table_name,
        floats,
    };
    let locks = plan_locks(contents, session_id, plan, locking_read, visible, found, floats)->Ok_0;
    let rest = seq![locks.last()];
    match plan {
        PlanModel::InsertRows { schema, rows, .. } => {
            let indexes = crate::catalog::model::indexes_listed(contents, schema.table_id)->Ok_0;
            lemma_insert_has_row(target, schema.primary_key, rows, indexes, key);
            let first = rows_insert_locks(target, schema.primary_key, rows, indexes);
            lemma_more_locks(first, rest, place, form);
            assert(locks =~= first + rest);
        },
        PlanModel::UpdateRows { access, .. } => {
            lemma_write_has_row(target, access, visible, found, key);
            let first = write_locks(target, access, visible, found);
            lemma_more_locks(first, rest, place, form);
            assert(locks =~= first + rest);
        },
        PlanModel::DeleteRows { access, .. } => {
            lemma_write_has_row(target, access, visible, found, key);
            let first = write_locks(target, access, visible, found);
            lemma_more_locks(first, rest, place, form);
            assert(locks =~= first + rest);
        },
        PlanModel::SelectRows { access, .. } => {
            lemma_read_has_row(target, access, visible, found, key);
            let first = read_locks(target, access, visible, found);
            lemma_more_locks(first, rest, place, form);
            assert(locks =~= first + rest);
        },
        _ => {},
    }
}

/// A statement that inserts, updates, deletes, or reads with locks keeps every other session away
/// from each row that it may come to: one of its locks stands against a lock on that row.
pub proof fn law_rows_of_a_statement_are_locked(
    contents: Contents,
    session_id: i32,
    plan: PlanModel,
    locking_read: bool,
    visible: Seq<bool>,
    found: Seq<Datum>,
    floats: Seq<FloatTextModel>,
    key: Datum,
    other: LockModel,
)
    requires
        comes_to(plan, locking_read, visible, found, floats, key),
        table_of_rows(plan, locking_read) matches Some(place) && is_on(other, place),
        other.kind == KindModel::Record(value_form(key, floats)),
    ensures
        plan_locks(contents, session_id, plan, locking_read, visible, found, floats) matches Ok(
            locks,
        ) ==> some_conflicts(locks, other),
        !(plan is InsertRows) ==> plan_locks(
            contents,
            session_id,
            plan,
            locking_read,
            visible,
            found,
            floats,
        ) is Ok,
{
    let result = plan_locks(contents, session_id, plan, locking_read, visible, found, floats);
    if let Ok(locks) = result {
        lemma_has_rows(
            contents,
            session_id,
            plan,
            locking_read,
            visible,
            found,
            floats,
            key,
        );
        let place = table_of_rows(plan, locking_read)->0;
        let form = value_form(key, floats);
        let i = choose|i: int| 0 <= i < locks.len() && has_row(#[trigger] locks[i], place, form);
        assert(locks_conflict(locks[i], other));
    }
}

/// Two statements of two sessions that may come to one row of a table cannot both have their
/// locks.
pub proof fn law_statements_on_one_row_exclude_each_other(
    contents: Contents,
    sessions: (i32, i32),
    plans: (PlanModel, PlanModel),
    locking: (bool, bool),
    visible: (Seq<bool>, Seq<bool>),
    found: (Seq<Datum>, Seq<Datum>),
    floats: Seq<FloatTextModel>,
    key: Datum,
)
    requires
        comes_to(plans.0, locking.0, visible.0, found.0, floats, key),
        comes_to(plans.1, locking.1, visible.1, found.1, floats, key),
        table_of_rows(plans.0, locking.0) == table_of_rows(plans.1, locking.1),
        plan_locks(contents, sessions.0, plans.0, locking.0, visible.0, found.0, floats) is Ok,
        plan_locks(contents, sessions.1, plans.1, locking.1, visible.1, found.1, floats) is Ok,
    ensures
        exists|j: int|
            0 <= j < plan_locks(
                contents,
                sessions.1,
                plans.1,
                locking.1,
                visible.1,
                found.1,
                floats,
            )->Ok_0.len() && some_conflicts(
                plan_locks(
                    contents,
                    sessions.0,
                    plans.0,
                    locking.0,
                    visible.0,
                    found.0,
                    floats,
                )->Ok_0,
                #[trigger] plan_locks(
                    contents,
                    sessions.1,
                    plans.1,
                    locking.1,
                    visible.1,
                    found.1,
                    floats,
                )->Ok_0[j],
            ),
{
    let first = plan_locks(
        contents,
        sessions.0,
        plans.0,
        locking.0,
        visible.0,
        found.0,
        floats,
    )->Ok_0;
    let second = plan_locks(
        contents,
        sessions.1,
        plans.1,
        locking.1,
        visible.1,
        found.1,
        floats,
    )->Ok_0;
    lemma_has_rows(contents, sessions.0, plans.0, locking.0, visible.0, found.0, floats, key);
    lemma_has_rows(contents, sessions.1, plans.1, locking.1, visible.1, found.1, floats, key);
    let place = table_of_rows(plans.0, locking.0)->0;
    let form = value_form(key, floats);
    let i = choose|i: int| 0 <= i < first.len() && has_row(#[trigger] first[i], place, form);
    let j = choose|j: int| 0 <= j < second.len() && has_row(#[trigger] second[j], place, form);
    if let (
        KindModel::NextKey { lower: a, upper: b },
        KindModel::NextKey { lower: c, upper: d },
    ) = (first[i].kind, second[j].kind) {
        assert(in_range(a, b, form) && in_range(c, d, form));
        law_ranges_overlap_where_they_meet(a, b, c, d);
    }
    assert(locks_conflict(first[i], second[j]));
    assert(some_conflicts(first, second[j]));
}

/// A statement that comes to rows by their keys, or by an index, keeps nobody away from another
/// row: none of its locks stands against a lock on a row with another form.
#[verifier::rlimit(60)]
pub proof fn law_other_rows_stay_free(
    contents: Contents,
    session_id: i32,
    plan: PlanModel,
    locking_read: bool,
    visible: Seq<bool>,
    found: Seq<Datum>,
    floats: Seq<FloatTextModel>,
    key: Datum,
    other: LockModel,
)
    requires
        plan matches PlanModel::UpdateRows { access, .. } ==> !(access is PrefixScan),
        plan matches PlanModel::DeleteRows { access, .. } ==> !(access is PrefixScan),
        plan matches PlanModel::SelectRows { access, .. } ==> !(access is PrefixScan),
        plan is UpdateRows || plan is DeleteRows || plan is SelectRows,
        forall|i: int| 0 <= i < visible.len() ==> #[trigger] visible[i],
        plan matches PlanModel::UpdateRows { access, .. } ==> access is PointLookup
            ==> visible.len() == 1,
        plan matches PlanModel::DeleteRows { access, .. } ==> access is PointLookup
            ==> visible.len() == 1,
        plan matches PlanModel::SelectRows { access, .. } ==> {
            &&& access is PointLookup ==> visible.len() == 1
            &&& access matches ReadModel::PrimaryKeyInLookup { keys } ==> visible.len()
                == keys.len()
        },
        other.kind == KindModel::Record(value_form(key, floats)),
        forall|near: Datum| #[trigger]
            comes_to(plan, locking_read, visible, found, floats, near) ==> value_form(near, floats)
                != value_form(key, floats),
    ensures
        plan_locks(contents, session_id, plan, locking_read, visible, found, floats) matches Ok(
            locks,
        ) && !some_conflicts(locks, other),
{
    let locks = plan_locks(contents, session_id, plan, locking_read, visible, found, floats)->Ok_0;
    assert forall|i: int| 0 <= i < locks.len() implies !locks_conflict(
        #[trigger] locks[i],
        other,
    ) by {
        if let KindModel::Record(form) = locks[i].kind {
            match plan {
                PlanModel::SelectRows { access, .. } => {
                    match access {
                        ReadModel::PointLookup { key: wanted } => {
                            assert(comes_to(plan, locking_read, visible, found, floats, wanted));
                        },
                        ReadModel::PrimaryKeyInLookup { keys } => {
                            assert(keys[i] == keys[i] && visible[i]);
                            assert(comes_to(plan, locking_read, visible, found, floats, keys[i]));
                        },
                        _ => {
                            assert(found.contains(found[i - 1]));
                            assert(comes_to(plan, locking_read, visible, found, floats, found[i - 1]));
                        },
                    }
                },
                PlanModel::UpdateRows { access, .. } => {
                    match access {
                        WriteModel::PointLookup { key: wanted } => {
                            assert(comes_to(plan, locking_read, visible, found, floats, wanted));
                        },
                        _ => {
                            assert(found.contains(found[i - 1]));
                            assert(comes_to(plan, locking_read, visible, found, floats, found[i - 1]));
                        },
                    }
                },
                PlanModel::DeleteRows { access, .. } => {
                    match access {
                        WriteModel::PointLookup { key: wanted } => {
                            assert(comes_to(plan, locking_read, visible, found, floats, wanted));
                        },
                        _ => {
                            assert(found.contains(found[i - 1]));
                            assert(comes_to(plan, locking_read, visible, found, floats, found[i - 1]));
                        },
                    }
                },
                _ => {},
            }
        }
        if let KindModel::NextKey { lower, upper } = locks[i].kind {
            assert(comes_to(plan, locking_read, visible, found, floats, key)
                == in_range(lower, upper, value_form(key, floats)));
        }
    }
}

/// Whether locks stand in the way of another in every case where it writes the description of a
/// table.
pub open spec fn guards(locks: Seq<LockModel>, place: TablePlace) -> bool {
    forall|other: LockModel| #[trigger]
        is_on(other, place) && other.kind is MetadataWrite ==> some_conflicts(locks, other)
}

/// While a statement works on the rows of a table, nobody changes the description of the table.
pub proof fn law_rows_guard_the_description(
    contents: Contents,
    session_id: i32,
    plan: PlanModel,
    locking_read: bool,
    visible: Seq<bool>,
    found: Seq<Datum>,
    floats: Seq<FloatTextModel>,
)
    requires
        table_of_rows(plan, locking_read) is Some,
    ensures
        plan_locks(contents, session_id, plan, locking_read, visible, found, floats) matches Ok(
            locks,
        ) ==> guards(locks, table_of_rows(plan, locking_read)->0),
{
    let result = plan_locks(contents, session_id, plan, locking_read, visible, found, floats);
    let place = table_of_rows(plan, locking_read)->0;
    if let Ok(locks) = result {
        assert forall|other: LockModel| #[trigger]
            is_on(other, place) && other.kind is MetadataWrite implies some_conflicts(
            locks,
            other,
        ) by {
            assert(locks_conflict(locks[locks.len() - 1], other));
        }
    }
}

/// An object whose description may change: a database, a schema in it, or an object there.
pub struct Described {
    pub scope: MySqlLockScope,
    pub database_name: Seq<char>,
    pub schema_name: Seq<char>,
    pub name: Seq<char>,
}

/// Whether a lock is on an object, whoever has it.
pub open spec fn is_on_object(lock: LockModel, object: Described) -> bool {
    &&& lock.scope == object.scope
    &&& lock.database_name == lower(object.database_name)
    &&& object.scope != MySqlLockScope::Database ==> lock.schema_name == lower(object.schema_name)
    &&& object.scope != MySqlLockScope::Database && object.scope != MySqlLockScope::Schema
        ==> lock.table_name == lower(object.name)
}

/// Whether an object of a schema is among some.
pub open spec fn named(names: Seq<QualifiedModel>, schema_name: Seq<char>, name: Seq<char>) -> bool {
    exists|i: int|
        0 <= i < names.len() && (#[trigger] names[i]).schema_name == schema_name && names[i].name
            == name
}

/// Whether a statement makes, changes or drops an object.
pub open spec fn changes_object(plan: PlanModel, object: Described) -> bool {
    match plan {
        PlanModel::CreateDatabase { database_name, .. } => object.scope == MySqlLockScope::Database
            && object.database_name == database_name,
        PlanModel::CreateSchema { database_name, schema_name, .. } => object.scope
            == MySqlLockScope::Schema && object.database_name == database_name && object.schema_name
            == schema_name,
        PlanModel::CreateSequence { database_name, schema_name, sequence_name, .. } => object.scope
            == MySqlLockScope::Sequence && object.database_name == database_name
            && object.schema_name == schema_name && object.name == sequence_name,
        PlanModel::CreateView { database_name, schema_name, view_name, .. } => object.scope
            == MySqlLockScope::View && object.database_name == database_name && object.schema_name
            == schema_name && object.name == view_name,
        PlanModel::CreateTable { database_name, schema_name, schema, .. } => object.scope
            == MySqlLockScope::Table && object.database_name == database_name && object.schema_name
            == schema_name && object.name == schema.table_name,
        PlanModel::CreateTableAs { database_name, schema_name, schema, .. } => object.scope
            == MySqlLockScope::Table && object.database_name == database_name && object.schema_name
            == schema_name && object.name == schema.table_name,
        PlanModel::AlterTable { database_name, schema_name, table_name, .. } => object.scope
            == MySqlLockScope::Table && object.database_name == database_name && object.schema_name
            == schema_name && object.name == table_name,
        PlanModel::AlterTableAddPrimaryKey { database_name, schema_name, table_name, .. } => {
            object.scope == MySqlLockScope::Table && object.database_name == database_name
                && object.schema_name == schema_name && object.name == table_name
        },
        PlanModel::CreateIndex { database_name, schema_name, table_name, index_name, .. } => {
            object.database_name == database_name && object.schema_name == schema_name && (
            object.scope == MySqlLockScope::Table && object.name == table_name || object.scope
                == MySqlLockScope::Index && object.name == index_name)
        },
        PlanModel::DropTables { database_name, tables, .. } => object.scope
            == MySqlLockScope::Table && object.database_name == database_name && named(
            tables,
            object.schema_name,
            object.name,
        ),
        PlanModel::DropIndexes { database_name, indexes, .. } => object.scope
            == MySqlLockScope::Index && object.database_name == database_name && named(
            indexes,
            object.schema_name,
            object.name,
        ),
        PlanModel::DropSequences { database_name, sequences, .. } => object.scope
            == MySqlLockScope::Sequence && object.database_name == database_name && named(
            sequences,
            object.schema_name,
            object.name,
        ),
        PlanModel::DropViews { database_name, views, .. } => object.scope == MySqlLockScope::View
            && object.database_name == database_name && named(
            views,
            object.schema_name,
            object.name,
        ),
        PlanModel::DropSchemas { database_name, schemas, .. } => object.scope
            == MySqlLockScope::Schema && object.database_name == database_name && schemas.contains(
            object.schema_name,
        ),
        PlanModel::DropDatabases { databases, .. } => object.scope == MySqlLockScope::Database
            && databases.contains(object.database_name),
        PlanModel::TruncateTables { database_name, tables } => object.scope == MySqlLockScope::Table
            && object.database_name == database_name && exists|i: int|
            0 <= i < tables.len() && (#[trigger] tables[i]).schema_name == object.schema_name
                && tables[i].schema.table_name == object.name,
        _ => false,
    }
}

/// A statement that makes, changes or drops an object keeps everybody away from it meanwhile:
/// one of its locks stands against every lock on the object.
#[verifier::rlimit(80)]
#[verifier::spinoff_prover]
pub proof fn law_changed_objects_are_locked(
    contents: Contents,
    session_id: i32,
    plan: PlanModel,
    locking_read: bool,
    visible: Seq<bool>,
    found: Seq<Datum>,
    floats: Seq<FloatTextModel>,
    object: Described,
    other: LockModel,
)
    requires
        changes_object(plan, object),
        is_on_object(other, object),
    ensures
        plan_locks(contents, session_id, plan, locking_read, visible, found, floats) matches Ok(
            locks,
        ) ==> some_conflicts(locks, other),
        !(plan is DropIndexes) ==> plan_locks(
            contents,
            session_id,
            plan,
            locking_read,
            visible,
            found,
            floats,
        ) is Ok,
{
    let result = plan_locks(contents, session_id, plan, locking_read, visible, found, floats);
    if let Ok(locks) = result {
        let at: int = match plan {
            PlanModel::CreateIndex { .. } => if object.scope == MySqlLockScope::Index {
                1
            } else {
                0
            },
            PlanModel::DropTables { tables, .. } => place_among(tables, object),
            PlanModel::DropIndexes { database_name, indexes, .. } => {
                let at = place_among(indexes, object);
                lemma_dropped_indexes_locked(
                    contents,
                    session_id,
                    database_name,
                    database_found(contents, database_name)->Ok_0,
                    indexes,
                    at,
                );
                let lock = choose|lock: LockModel| #[trigger]
                    locks.contains(lock) && lock.kind is MetadataWrite && lock.scope
                        == MySqlLockScope::Index && lock.database_name == lower(database_name)
                        && lock.schema_name == lower(indexes[at].schema_name) && lock.table_name
                        == lower(indexes[at].name);
                locks.index_of(lock)
            },
            PlanModel::DropSequences { sequences, .. } => place_among(sequences, object),
            PlanModel::DropViews { views, .. } => place_among(views, object),
            PlanModel::DropSchemas { schemas, .. } => choose|i: int|
                0 <= i < schemas.len() && schemas[i] == object.schema_name,
            PlanModel::DropDatabases { databases, .. } => choose|i: int|
                0 <= i < databases.len() && databases[i] == object.database_name,
            PlanModel::TruncateTables { tables, .. } => choose|i: int|
                0 <= i < tables.len() && (#[trigger] tables[i]).schema_name == object.schema_name
                    && tables[i].schema.table_name == object.name,
            _ => 0,
        };
        assert(0 <= at < locks.len());
        assert(locks_conflict(locks[at], other));
    }
}

spec fn place_among(names: Seq<QualifiedModel>, object: Described) -> int {
    choose|i: int|
        0 <= i < names.len() && (#[trigger] names[i]).schema_name == object.schema_name
            && names[i].name == object.name
}

proof fn lemma_dropped_indexes_locked(
    contents: Contents,
    session_id: i32,
    database_name: Seq<char>,
    database: Option<DatabaseModel>,
    indexes: Seq<QualifiedModel>,
    at: int,
)
    requires
        0 <= at < indexes.len(),
        drop_index_locks(contents, session_id, database_name, database, indexes) is Ok,
    ensures
        exists|lock: LockModel| #[trigger]
            drop_index_locks(
                contents,
                session_id,
                database_name,
                database,
                indexes,
            )->Ok_0.contains(lock) && lock.kind is MetadataWrite && lock.scope
                == MySqlLockScope::Index && lock.database_name == lower(database_name)
                && lock.schema_name == lower(indexes[at].schema_name) && lock.table_name == lower(
                indexes[at].name,
            ),
    decreases indexes.len(),
{
    let locks = drop_index_locks(contents, session_id, database_name, database, indexes)->Ok_0;
    let before = drop_index_locks(
        contents,
        session_id,
        database_name,
        database,
        indexes.drop_last(),
    )->Ok_0;
    if at < indexes.len() - 1 {
        lemma_dropped_indexes_locked(
            contents,
            session_id,
            database_name,
            database,
            indexes.drop_last(),
            at,
        );
        let lock = choose|lock: LockModel| #[trigger]
            before.contains(lock) && lock.kind is MetadataWrite && lock.scope
                == MySqlLockScope::Index && lock.database_name == lower(database_name)
                && lock.schema_name == lower(indexes[at].schema_name) && lock.table_name == lower(
                indexes[at].name,
            );
        let i = choose|i: int| 0 <= i < before.len() && before[i] == lock;
        assert(locks[i] == lock);
        assert(locks.contains(lock));
    } else {
        assert(locks.contains(locks[before.len() as int]));
    }
}

/// A statement that drops an index keeps everybody away from the table of the index meanwhile.
pub proof fn law_dropping_an_index_locks_its_table(
    contents: Contents,
    session_id: i32,
    database_name: Seq<char>,
    indexes: Seq<QualifiedModel>,
    if_exists: bool,
    at: int,
    floats: Seq<FloatTextModel>,
    other: LockModel,
)
    requires
        0 <= at < indexes.len(),
        dropped_index(contents, database_name, indexes[at]) matches Some(index) && is_on(
            other,
            TablePlace {
                database_name,
                schema_name: indexes[at].schema_name,
                table_name: index.table_name,
            },
        ),
    ensures
        plan_locks(
            contents,
            session_id,
            PlanModel::DropIndexes { database_name, indexes, if_exists },
            false,
            seq![],
            seq![],
            floats,
        ) matches Ok(locks) ==> some_conflicts(locks, other),
{
    let database = database_found(contents, database_name)->Ok_0;
    if drop_index_locks(contents, session_id, database_name, database, indexes) is Ok {
        lemma_tables_of_dropped_indexes_locked(
            contents,
            session_id,
            database_name,
            indexes,
            at,
            other,
        );
    }
}

/// An index that a statement names, where it is there.
pub open spec fn dropped_index(
    contents: Contents,
    database_name: Seq<char>,
    name: QualifiedModel,
) -> Option<IndexModel> {
    match database_found(contents, database_name) {
        Ok(Some(database)) => match schema_found(contents, database.database_id, name.schema_name) {
            Ok(Some(schema)) => match index_found(
                contents,
                database.database_id,
                schema.schema_id,
                name.name,
            ) {
                Ok(found) => found,
                Err(_) => None,
            },
            _ => None,
        },
        _ => None,
    }
}

proof fn lemma_tables_of_dropped_indexes_locked(
    contents: Contents,
    session_id: i32,
    database_name: Seq<char>,
    indexes: Seq<QualifiedModel>,
    at: int,
    other: LockModel,
)
    requires
        0 <= at < indexes.len(),
        dropped_index(contents, database_name, indexes[at]) matches Some(index) && is_on(
            other,
            TablePlace {
                database_name,
                schema_name: indexes[at].schema_name,
                table_name: index.table_name,
            },
        ),
        drop_index_locks(
            contents,
            session_id,
            database_name,
            database_found(contents, database_name)->Ok_0,
            indexes,
        ) is Ok,
    ensures
        some_conflicts(
            drop_index_locks(
                contents,
                session_id,
                database_name,
                database_found(contents, database_name)->Ok_0,
                indexes,
            )->Ok_0,
            other,
        ),
    decreases indexes.len(),
{
    let database = database_found(contents, database_name)->Ok_0;
    let locks = drop_index_locks(contents, session_id, database_name, database, indexes)->Ok_0;
    let before = drop_index_locks(
        contents,
        session_id,
        database_name,
        database,
        indexes.drop_last(),
    )->Ok_0;
    if at < indexes.len() - 1 {
        assert(indexes.drop_last()[at] == indexes[at]);
        lemma_tables_of_dropped_indexes_locked(
            contents,
            session_id,
            database_name,
            indexes.drop_last(),
            at,
            other,
        );
        let i = choose|i: int| 0 <= i < before.len() && locks_conflict(#[trigger] before[i], other);
        assert(locks[i] == before[i]);
    } else {
        assert(locks_conflict(locks[locks.len() - 1], other));
    }
}

/// A read that asks for no lock waits for nobody, and nobody waits for it; the same is so of
/// statements that only tell something.
pub proof fn law_plain_reads_take_no_lock(
    contents: Contents,
    session_id: i32,
    plan: PlanModel,
    visible: Seq<bool>,
    found: Seq<Datum>,
    floats: Seq<FloatTextModel>,
)
    requires
        plan is SelectRows || plan is ExplainRows || plan is PostgresExplainRows
            || plan is AnalyzeTables || plan is TableMaintenanceRows || plan is Noop,
    ensures
        plan_locks(contents, session_id, plan, false, visible, found, floats) == Ok::<
            Seq<LockModel>,
            Report,
        >(seq![]),
{
}

spec fn all_of(locks: Seq<LockModel>, owner: i32, duration: MySqlLockDuration) -> bool {
    forall|i: int|
        0 <= i < locks.len() ==> (#[trigger] locks[i]).owner == owner && locks[i].duration
            == duration
}

proof fn lemma_all_joined(a: Seq<LockModel>, b: Seq<LockModel>, owner: i32, duration: MySqlLockDuration)
    requires
        all_of(a, owner, duration),
        all_of(b, owner, duration),
    ensures
        all_of(a + b, owner, duration),
{
    let locks = a + b;
    assert forall|i: int| 0 <= i < locks.len() implies (#[trigger] locks[i]).owner == owner
        && locks[i].duration == duration by {
        if i < a.len() {
            assert(locks[i] == a[i]);
        } else {
            assert(locks[i] == b[i - a.len()]);
        }
    }
}

proof fn lemma_index_locks_of(target: TargetModel, row: RowModel, indexes: Seq<IndexModel>)
    ensures
        all_of(
            indexes_insert_locks(target, row, indexes),
            target.session_id,
            MySqlLockDuration::Transaction,
        ),
    decreases indexes.len(),
{
    if indexes.len() > 0 {
        lemma_index_locks_of(target, row, indexes.drop_last());
        lemma_all_joined(
            indexes_insert_locks(target, row, indexes.drop_last()),
            index_insert_locks(target, row, indexes.last()),
            target.session_id,
            MySqlLockDuration::Transaction,
        );
    }
}

proof fn lemma_insert_locks_of(
    target: TargetModel,
    primary_key: Seq<char>,
    rows: Seq<RowModel>,
    indexes: Seq<IndexModel>,
)
    ensures
        all_of(
            rows_insert_locks(target, primary_key, rows, indexes),
            target.session_id,
            MySqlLockDuration::Transaction,
        ),
    decreases rows.len(),
{
    if rows.len() > 0 {
        lemma_insert_locks_of(target, primary_key, rows.drop_last(), indexes);
        let last = row_insert_locks(target, primary_key, rows.last(), indexes);
        lemma_index_locks_of(target, rows.last(), indexes);
        let behind = indexes_insert_locks(target, rows.last(), indexes);
        let front = last.take(last.len() - behind.len());
        assert(last =~= front + behind);
        lemma_all_joined(front, behind, target.session_id, MySqlLockDuration::Transaction);
        lemma_all_joined(
            rows_insert_locks(target, primary_key, rows.drop_last(), indexes),
            last,
            target.session_id,
            MySqlLockDuration::Transaction,
        );
    }
}

proof fn lemma_drop_index_locks_of(
    contents: Contents,
    session_id: i32,
    database_name: Seq<char>,
    database: Option<DatabaseModel>,
    indexes: Seq<QualifiedModel>,
)
    ensures
        drop_index_locks(contents, session_id, database_name, database, indexes) matches Ok(locks)
            ==> all_of(locks, session_id, MySqlLockDuration::Statement),
    decreases indexes.len(),
{
    if indexes.len() > 0 {
        lemma_drop_index_locks_of(
            contents,
            session_id,
            database_name,
            database,
            indexes.drop_last(),
        );
    }
}

/// Every lock of a statement belongs to its session. Those on rows last to the end of the
/// transaction, those on descriptions that change to the end of the statement.
#[verifier::rlimit(80)]
#[verifier::spinoff_prover]
pub proof fn law_locks_belong_to_the_session(
    contents: Contents,
    session_id: i32,
    plan: PlanModel,
    locking_read: bool,
    visible: Seq<bool>,
    found: Seq<Datum>,
    floats: Seq<FloatTextModel>,
    i: int,
)
    requires
        plan_locks(contents, session_id, plan, locking_read, visible, found, floats) matches Ok(
            locks,
        ) && 0 <= i < locks.len(),
    ensures
        plan_locks(contents, session_id, plan, locking_read, visible, found, floats) matches Ok(
            locks,
        ) && locks[i].owner == session_id && locks[i].duration == if table_of_rows(
            plan,
            locking_read,
        ) is Some {
            MySqlLockDuration::Transaction
        } else {
            MySqlLockDuration::Statement
        },
{
    match plan {
        PlanModel::InsertRows { database_name, schema_name, schema, rows, .. } => {
            let target = TargetModel {
                session_id,
                database_name,
                schema_name,
                table_name: schema.table_name,
                floats,
            };
            let indexes = crate::catalog::model::indexes_listed(contents, schema.table_id)->Ok_0;
            lemma_insert_locks_of(target, schema.primary_key, rows, indexes);
        },
        PlanModel::DropIndexes { database_name, indexes, .. } => {
            let database = database_found(contents, database_name)->Ok_0;
            lemma_drop_index_locks_of(contents, session_id, database_name, database, indexes);
        },
        _ => {},
    }
}

spec fn some_has(locks: Seq<LockModel>, place: TablePlace, kind: KindModel) -> bool {
    exists|i: int| 0 <= i < locks.len() && is_on(#[trigger] locks[i], place) && locks[i].kind == kind
}

proof fn lemma_more_have(a: Seq<LockModel>, b: Seq<LockModel>, place: TablePlace, kind: KindModel)
    requires
        some_has(a, place, kind) || some_has(b, place, kind),
    ensures
        some_has(a + b, place, kind),
{
    if some_has(a, place, kind) {
        let i = choose|i: int|
            0 <= i < a.len() && is_on(#[trigger] a[i], place) && a[i].kind == kind;
        assert((a + b)[i] == a[i]);
    } else {
        let i = choose|i: int|
            0 <= i < b.len() && is_on(#[trigger] b[i], place) && b[i].kind == kind;
        assert((a + b)[a.len() + i] == b[i]);
    }
}

proof fn lemma_entry_is_locked(
    target: TargetModel,
    row: RowModel,
    indexes: Seq<IndexModel>,
    at: int,
    kind: KindModel,
)
    requires
        0 <= at < indexes.len(),
        some_has(index_insert_locks(target, row, indexes[at]), place_of(target), kind),
    ensures
        some_has(indexes_insert_locks(target, row, indexes), place_of(target), kind),
    decreases indexes.len(),
{
    if at < indexes.len() - 1 {
        assert(indexes.drop_last()[at] == indexes[at]);
        lemma_entry_is_locked(target, row, indexes.drop_last(), at, kind);
    }
    lemma_more_have(
        indexes_insert_locks(target, row, indexes.drop_last()),
        index_insert_locks(target, row, indexes.last()),
        place_of(target),
        kind,
    );
}

proof fn lemma_row_is_locked(
    target: TargetModel,
    primary_key: Seq<char>,
    rows: Seq<RowModel>,
    indexes: Seq<IndexModel>,
    at: int,
    kind: KindModel,
)
    requires
        0 <= at < rows.len(),
        some_has(row_insert_locks(target, primary_key, rows[at], indexes), place_of(target), kind),
    ensures
        some_has(rows_insert_locks(target, primary_key, rows, indexes), place_of(target), kind),
    decreases rows.len(),
{
    if at < rows.len() - 1 {
        assert(rows.drop_last()[at] == rows[at]);
        lemma_row_is_locked(target, primary_key, rows.drop_last(), indexes, at, kind);
    }
    lemma_more_have(
        rows_insert_locks(target, primary_key, rows.drop_last(), indexes),
        row_insert_locks(target, primary_key, rows.last(), indexes),
        place_of(target),
        kind,
    );
}

/// A row is not inserted into what another session has locked: the locks of an insertion stand
/// against a range of keys, or of an index, that the row falls into, whether it is a gap or not.
pub proof fn law_insertions_respect_ranges(
    contents: Contents,
    session_id: i32,
    plan: PlanModel,
    visible: Seq<bool>,
    found: Seq<Datum>,
    floats: Seq<FloatTextModel>,
    at: int,
    lower_end: Option<Seq<char>>,
    upper_end: Option<Seq<char>>,
    other: LockModel,
)
    requires
        plan matches PlanModel::InsertRows { database_name, schema_name, schema, rows, .. } && {
            &&& 0 <= at < rows.len()
            &&& is_on(
                other,
                TablePlace { database_name, schema_name, table_name: schema.table_name },
            )
            &&& other.kind == (KindModel::Gap { lower: lower_end, upper: upper_end }) || other.kind
                == (KindModel::NextKey { lower: lower_end, upper: upper_end })
            &&& rows[at].dom().contains(schema.primary_key)
            &&& in_range(
                lower_end,
                upper_end,
                value_form(rows[at][schema.primary_key], floats),
            )
        },
    ensures
        plan_locks(contents, session_id, plan, false, visible, found, floats) matches Ok(locks)
            ==> some_conflicts(locks, other),
{
    if let PlanModel::InsertRows { database_name, schema_name, schema, rows, .. } = plan {
        let target = TargetModel {
            session_id,
            database_name,
            schema_name,
            table_name: schema.table_name,
            floats,
        };
        let result = plan_locks(contents, session_id, plan, false, visible, found, floats);
        if let Ok(locks) = result {
            let indexes = crate::catalog::model::indexes_listed(contents, schema.table_id)->Ok_0;
            let form = value_form(rows[at][schema.primary_key], floats);
            let kind = KindModel::InsertIntention(form);
            let own = row_insert_locks(target, schema.primary_key, rows[at], indexes);
            assert(is_on(own[0], place_of(target)) && own[0].kind == kind);
            lemma_row_is_locked(target, schema.primary_key, rows, indexes, at, kind);
            let all = rows_insert_locks(target, schema.primary_key, rows, indexes);
            let i = choose|i: int|
                0 <= i < all.len() && is_on(#[trigger] all[i], place_of(target)) && all[i].kind
                    == kind;
            assert(locks[i] == all[i]);
            assert(locks_conflict(locks[i], other));
        }
    }
}

/// The same is so of a range of an index that the entry of the row falls into.
pub proof fn law_insertions_respect_index_ranges(
    contents: Contents,
    session_id: i32,
    plan: PlanModel,
    visible: Seq<bool>,
    found: Seq<Datum>,
    floats: Seq<FloatTextModel>,
    indexes: Seq<IndexModel>,
    at: int,
    number: int,
    lower_end: Option<Seq<char>>,
    upper_end: Option<Seq<char>>,
    other: LockModel,
)
    requires
        plan matches PlanModel::InsertRows { database_name, schema_name, schema, rows, .. } && {
            &&& crate::catalog::model::indexes_listed(contents, schema.table_id) == Ok::<
                Seq<IndexModel>,
                Report,
            >(indexes)
            &&& 0 <= at < rows.len()
            &&& 0 <= number < indexes.len()
            &&& is_on(
                other,
                TablePlace { database_name, schema_name, table_name: schema.table_name },
            )
            &&& other.kind == (KindModel::IndexGap {
                index_name: lower(indexes[number].index_name),
                lower: lower_end,
                upper: upper_end,
            }) || other.kind == (KindModel::IndexNextKey {
                index_name: lower(indexes[number].index_name),
                lower: lower_end,
                upper: upper_end,
            })
            &&& in_range(
                lower_end,
                upper_end,
                lower(indexes[number].index_name) + "="@ + value_form(
                    indexed(rows[at], indexes[number].column_names),
                    floats,
                ),
            )
        },
    ensures
        plan_locks(contents, session_id, plan, false, visible, found, floats) matches Ok(locks)
            && some_conflicts(locks, other),
{
    if let PlanModel::InsertRows { database_name, schema_name, schema, rows, .. } = plan {
        let target = TargetModel {
            session_id,
            database_name,
            schema_name,
            table_name: schema.table_name,
            floats,
        };
        let locks = plan_locks(contents, session_id, plan, false, visible, found, floats)->Ok_0;
        let name = lower(indexes[number].index_name);
        let form = index_value_form(
            indexes[number].index_name,
            indexed(rows[at], indexes[number].column_names),
            floats,
        );
        let kind = KindModel::IndexInsertIntention { index_name: name, value: form };
        let entry = index_insert_locks(target, rows[at], indexes[number]);
        assert(is_on(entry[0], place_of(target)) && entry[0].kind == kind);
        lemma_entry_is_locked(target, rows[at], indexes, number, kind);
        let own = row_insert_locks(target, schema.primary_key, rows[at], indexes);
        let behind = indexes_insert_locks(target, rows[at], indexes);
        let front = own.take(own.len() - behind.len());
        assert(own =~= front + behind);
        lemma_more_have(front, behind, place_of(target), kind);
        lemma_row_is_locked(target, schema.primary_key, rows, indexes, at, kind);
        let all = rows_insert_locks(target, schema.primary_key, rows, indexes);
        let i = choose|i: int|
            0 <= i < all.len() && is_on(#[trigger] all[i], place_of(target)) && all[i].kind == kind;
        assert(locks[i] == all[i]);
        assert(form.take((name + "="@).len() as int) =~= name + "="@);
        assert(locks_conflict(locks[i], other));
    }
}

/// A lock on the whole table stands against every lock on rows of it.
pub proof fn law_table_locks_are_exclusive(a: LockModel, b: LockModel, place: TablePlace)
    requires
        is_on(a, place),
        is_on(b, place),
        a.kind is Table,
        !(b.kind is MetadataRead),
    ensures
        locks_conflict(a, b),
        locks_conflict(b, a),
{
}

/// Sessions read a description at a time, and while others work on rows.
pub proof fn law_descriptions_are_read_together(a: LockModel, b: LockModel)
    requires
        a.kind is MetadataRead,
        !(b.kind is MetadataWrite),
    ensures
        !locks_conflict(a, b),
        !locks_conflict(b, a),
{
}

/// Locks on objects that have nothing to do with each other do not meet: other databases, other
/// schemas, other objects of a schema.
pub proof fn law_other_objects_stay_free(a: LockModel, b: LockModel)
    requires
        ({
            ||| a.database_name != b.database_name
            ||| a.scope != MySqlLockScope::Database && b.scope != MySqlLockScope::Database
                && a.schema_name != b.schema_name
            ||| a.scope != MySqlLockScope::Database && b.scope != MySqlLockScope::Database
                && a.scope != MySqlLockScope::Schema && b.scope != MySqlLockScope::Schema && (
            a.scope != b.scope || a.table_name != b.table_name)
        }),
    ensures
        !locks_conflict(a, b),
{
}

/// Whether a kind of lock is on rows.
pub open spec fn is_on_rows(kind: KindModel) -> bool {
    !(kind is MetadataRead || kind is MetadataWrite || kind is Table)
}

/// Whether a lock on rows has a place among the keys of a table, where `index` is none, or among
/// the values of an index.
pub open spec fn has_place(kind: KindModel, index: Option<Seq<char>>, value: Seq<char>) -> bool {
    match kind {
        KindModel::Record(own) => index is None && value == own,
        KindModel::InsertIntention(own) => index is None && value == own,
        KindModel::Gap { lower, upper } => index is None && in_range(lower, upper, value),
        KindModel::NextKey { lower, upper } => index is None && in_range(lower, upper, value),
        KindModel::IndexRecord { index_name, value: own } => index == Some(index_name) && value
            == own,
        KindModel::IndexInsertIntention { index_name, value: own } => index == Some(index_name)
            && value == own,
        KindModel::IndexGap { index_name, lower, upper } => index == Some(index_name) && begins(
            value,
            index_name + "="@,
        ) && in_range(lower, upper, value),
        KindModel::IndexNextKey { index_name, lower, upper } => index == Some(index_name) && begins(
            value,
            index_name + "="@,
        ) && in_range(lower, upper, value),
        _ => false,
    }
}

/// Whether a lock is one that inserts.
pub open spec fn inserts(kind: KindModel) -> bool {
    kind is InsertIntention || kind is IndexInsertIntention
}

/// Whether a lock is on a single place.
pub open spec fn is_single(kind: KindModel) -> bool {
    inserts(kind) || kind is Record || kind is IndexRecord
}

/// Two locks on rows of a table that have a place in common stand against each other, unless
/// both are on just that place and one of them inserts there.
pub proof fn law_rows_in_common_conflict(
    a: LockModel,
    b: LockModel,
    place: TablePlace,
    index: Option<Seq<char>>,
    value: Seq<char>,
)
    requires
        is_on(a, place),
        is_on(b, place),
        has_place(a.kind, index, value),
        has_place(b.kind, index, value),
        !(is_single(a.kind) && is_single(b.kind) && (inserts(a.kind) || inserts(b.kind))),
    ensures
        locks_conflict(a, b),
{
    match (a.kind, b.kind) {
        (KindModel::Gap { lower, upper }, KindModel::Gap { lower: c, upper: d }) => {
            law_ranges_overlap_where_they_meet(lower, upper, c, d);
        },
        (KindModel::Gap { lower, upper }, KindModel::NextKey { lower: c, upper: d }) => {
            law_ranges_overlap_where_they_meet(lower, upper, c, d);
        },
        (KindModel::NextKey { lower, upper }, KindModel::Gap { lower: c, upper: d }) => {
            law_ranges_overlap_where_they_meet(lower, upper, c, d);
        },
        (KindModel::NextKey { lower, upper }, KindModel::NextKey { lower: c, upper: d }) => {
            law_ranges_overlap_where_they_meet(lower, upper, c, d);
        },
        (
            KindModel::IndexGap { index_name, lower, upper },
            KindModel::IndexGap { index_name: n, lower: c, upper: d },
        ) => {
            law_ranges_overlap_where_they_meet(lower, upper, c, d);
        },
        (
            KindModel::IndexGap { index_name, lower, upper },
            KindModel::IndexNextKey { index_name: n, lower: c, upper: d },
        ) => {
            law_ranges_overlap_where_they_meet(lower, upper, c, d);
        },
        (
            KindModel::IndexNextKey { index_name, lower, upper },
            KindModel::IndexGap { index_name: n, lower: c, upper: d },
        ) => {
            law_ranges_overlap_where_they_meet(lower, upper, c, d);
        },
        (
            KindModel::IndexNextKey { index_name, lower, upper },
            KindModel::IndexNextKey { index_name: n, lower: c, upper: d },
        ) => {
            law_ranges_overlap_where_they_meet(lower, upper, c, d);
        },
        _ => {},
    }
}

/// Locks on rows of which one is on a single place stand against each other only where the other
/// has that place too.
pub proof fn law_rows_apart_do_not_conflict(a: LockModel, b: LockModel)
    requires
        is_on_rows(a.kind),
        is_on_rows(b.kind),
        is_single(a.kind),
        locks_conflict(a, b) || locks_conflict(b, a),
    ensures
        exists|index: Option<Seq<char>>, value: Seq<char>|
            has_place(a.kind, index, value) && #[trigger] has_place(b.kind, index, value),
{
    let (index, value) = match a.kind {
        KindModel::Record(own) => (None, own),
        KindModel::InsertIntention(own) => (None, own),
        KindModel::IndexRecord { index_name, value } => (Some(index_name), value),
        KindModel::IndexInsertIntention { index_name, value } => (Some(index_name), value),
        _ => (None, seq![]),
    };
    assert(has_place(a.kind, index, value) && has_place(b.kind, index, value));
}

/// Whether a lock of another session stands against one of a request.
pub open spec fn is_held_against(
    locks: Seq<LockModel>,
    session_id: i32,
    requested: Seq<LockModel>,
) -> bool {
    exists|i: int, j: int|
        0 <= i < locks.len() && 0 <= j < requested.len() && (#[trigger] locks[i]).owner
            != session_id && locks_conflict(locks[i], #[trigger] requested[j])
}

proof fn lemma_holder_of(locks: Seq<LockModel>, session_id: i32, lock: LockModel)
    ensures
        match holder_of(locks, session_id, lock) {
            Some(owner) => exists|i: int|
                0 <= i < locks.len() && (#[trigger] locks[i]).owner == owner && owner != session_id
                    && locks_conflict(locks[i], lock),
            None => forall|i: int|
                0 <= i < locks.len() && (#[trigger] locks[i]).owner != session_id
                    ==> !locks_conflict(locks[i], lock),
        },
    decreases locks.len(),
{
    if locks.len() > 0 {
        let rest = locks.skip(1);
        lemma_holder_of(rest, session_id, lock);
        if !(locks[0].owner != session_id && locks_conflict(locks[0], lock)) {
            match holder_of(rest, session_id, lock) {
                Some(owner) => {
                    let i = choose|i: int|
                        0 <= i < rest.len() && (#[trigger] rest[i]).owner == owner && owner
                            != session_id && locks_conflict(rest[i], lock);
                    assert(locks[i + 1] == rest[i]);
                },
                None => {
                    assert forall|i: int|
                        0 <= i < locks.len() && (#[trigger] locks[i]).owner
                            != session_id implies !locks_conflict(locks[i], lock) by {
                        if i > 0 {
                            assert(rest[i - 1] == locks[i]);
                        }
                    }
                },
            }
        } else {
            assert(locks[0].owner == locks[0].owner);
        }
    }
}

proof fn lemma_holder(locks: Seq<LockModel>, session_id: i32, requested: Seq<LockModel>)
    ensures
        holder(locks, session_id, requested) is Some <==> is_held_against(
            locks,
            session_id,
            requested,
        ),
        holder(locks, session_id, requested) matches Some(owner) ==> owner != session_id && exists|
            i: int,
            j: int,
        |
            0 <= i < locks.len() && 0 <= j < requested.len() && (#[trigger] locks[i]).owner == owner
                && locks_conflict(locks[i], #[trigger] requested[j]),
    decreases requested.len(),
{
    if requested.len() > 0 {
        let rest = requested.skip(1);
        lemma_holder_of(locks, session_id, requested[0]);
        lemma_holder(locks, session_id, rest);
        match holder_of(locks, session_id, requested[0]) {
            Some(owner) => {
                let i = choose|i: int|
                    0 <= i < locks.len() && (#[trigger] locks[i]).owner == owner && owner
                        != session_id && locks_conflict(locks[i], requested[0]);
                assert(locks_conflict(locks[i], requested[0]));
            },
            None => {
                if is_held_against(locks, session_id, requested) {
                    let (i, j) = choose|i: int, j: int|
                        0 <= i < locks.len() && 0 <= j < requested.len() && (
                        #[trigger] locks[i]).owner != session_id && locks_conflict(
                            locks[i],
                            #[trigger] requested[j],
                        );
                    assert(rest[j - 1] == requested[j]);
                    assert(is_held_against(locks, session_id, rest));
                }
                if let Some(owner) = holder(locks, session_id, rest) {
                    let (i, j) = choose|i: int, j: int|
                        0 <= i < locks.len() && 0 <= j < rest.len() && (#[trigger] locks[i]).owner
                            == owner && locks_conflict(locks[i], #[trigger] rest[j]);
                    assert(requested[j + 1] == rest[j]);
                    assert(locks_conflict(locks[i], requested[j + 1]));
                }
            },
        }
    }
}

/// Whether somebody in the queue, ahead of where a session stands or would stand, goes first and
/// asks for something that stands against a request: those that change descriptions pass by the
/// others.
pub open spec fn is_queued_against(
    queue: Seq<WaiterModel>,
    session_id: i32,
    requested: Seq<LockModel>,
) -> bool {
    exists|i: int| #[trigger] goes_first(queue, session_id, requested, i)
}

/// Whether the one at a place in the queue goes first and asks for something that stands against
/// a request.
pub open spec fn goes_first(
    queue: Seq<WaiterModel>,
    session_id: i32,
    requested: Seq<LockModel>,
    i: int,
) -> bool {
    &&& 0 <= i < queue.len()
    &&& forall|k: int| 0 <= k <= i ==> (#[trigger] queue[k]).session_id != session_id
    &&& any_conflict(queue[i].locks, requested)
    &&& !(changes_description(requested) && queue[i].priority is Normal)
}

proof fn lemma_goes_first(
    queue: Seq<WaiterModel>,
    session_id: i32,
    requested: Seq<LockModel>,
    i: int,
)
    requires
        queue.len() > 0,
        queue[0].session_id != session_id,
    ensures
        goes_first(queue.skip(1), session_id, requested, i) ==> goes_first(
            queue,
            session_id,
            requested,
            i + 1,
        ),
        i > 0 && goes_first(queue, session_id, requested, i) ==> goes_first(
            queue.skip(1),
            session_id,
            requested,
            i - 1,
        ),
{
    let rest = queue.skip(1);
    if goes_first(rest, session_id, requested, i) {
        assert(queue[i + 1] == rest[i]);
        assert forall|k: int| 0 <= k <= i + 1 implies (#[trigger] queue[k]).session_id
            != session_id by {
            if k > 0 {
                assert(rest[k - 1] == queue[k]);
            }
        }
    }
    if i > 0 && goes_first(queue, session_id, requested, i) {
        assert(rest[i - 1] == queue[i]);
        assert forall|k: int| 0 <= k <= i - 1 implies (#[trigger] rest[k]).session_id
            != session_id by {
            assert(rest[k] == queue[k + 1]);
        }
    }
}

/// Whether a request is one of a statement that changes a description.
pub open spec fn changes_description(requested: Seq<LockModel>) -> bool {
    exists|i: int| 0 <= i < requested.len() && (#[trigger] requested[i]).kind is MetadataWrite
}

proof fn lemma_queue(queue: Seq<WaiterModel>, session_id: i32, requested: Seq<LockModel>) -> (at:
    int)
    ensures
        queue_blocker(queue, session_id, priority_of(requested), requested) is Some
            <==> is_queued_against(queue, session_id, requested),
        queue_blocker(queue, session_id, priority_of(requested), requested) matches Some(owner)
            ==> owner != session_id && 0 <= at < queue.len() && queue[at].session_id == owner,
    decreases queue.len(),
{
    if queue.len() == 0 {
        assert forall|i: int| !#[trigger] goes_first(queue, session_id, requested, i) by {}
        0
    } else if queue[0].session_id == session_id {
        assert forall|i: int| !#[trigger] goes_first(queue, session_id, requested, i) by {
            if goes_first(queue, session_id, requested, i) {
                assert(queue[0].session_id != session_id);
            }
        }
        0
    } else if !(changes_description(requested) && queue[0].priority is Normal) && any_conflict(
        queue[0].locks,
        requested,
    ) {
        assert(goes_first(queue, session_id, requested, 0));
        0
    } else {
        let rest = queue.skip(1);
        let at = lemma_queue(rest, session_id, requested);
        if is_queued_against(queue, session_id, requested) {
            let i = choose|i: int| #[trigger] goes_first(queue, session_id, requested, i);
            lemma_goes_first(queue, session_id, requested, i);
            assert(goes_first(rest, session_id, requested, i - 1));
        }
        if is_queued_against(rest, session_id, requested) {
            let i = choose|i: int| #[trigger] goes_first(rest, session_id, requested, i);
            lemma_goes_first(queue, session_id, requested, i);
            assert(goes_first(queue, session_id, requested, i + 1));
        }
        at + 1
    }
}

/// A request gets its locks just where no lock of another session stands against them and nobody
/// goes first; it then has them all, nobody loses one, and its session waits no longer. Else it
/// waits for a session that holds or asks for something against it, or is refused, and no lock
/// changes hands.
pub proof fn law_requests_get_their_locks_when_free(
    state: LockState,
    session_id: i32,
    requested: Seq<LockModel>,
)
    requires
        requested.len() > 0,
    ensures
        tried(state, session_id, requested).0 is Granted <==> !is_held_against(
            state.locks,
            session_id,
            requested,
        ) && !is_queued_against(state.queue, session_id, requested),
        tried(state, session_id, requested).0 is Granted ==> {
            let next = tried(state, session_id, requested).1;
            &&& forall|lock: LockModel| #[trigger]
                next.locks.contains(lock) <==> state.locks.contains(lock) || requested.contains(
                    lock,
                )
            &&& !next.waits.dom().contains(session_id)
            &&& forall|i: int|
                0 <= i < next.queue.len() ==> (#[trigger] next.queue[i]).session_id != session_id
        },
        !(tried(state, session_id, requested).0 is Granted) ==> tried(
            state,
            session_id,
            requested,
        ).1.locks == state.locks,
        tried(state, session_id, requested).0 is Waits ==> {
            let next = tried(state, session_id, requested).1;
            &&& next.queue == state.queue
            &&& next.waits.dom().contains(session_id)
            &&& next.waits[session_id] != session_id
            &&& (exists|i: int|
                0 <= i < state.locks.len() && (#[trigger] state.locks[i]).owner
                    == next.waits[session_id]) || (exists|i: int|
                0 <= i < state.queue.len() && (#[trigger] state.queue[i]).session_id
                    == next.waits[session_id])
        },
{
    lemma_holder(state.locks, session_id, requested);
    let at = lemma_queue(state.queue, session_id, requested);
    lemma_with_locks(state.locks, requested);
    lemma_kept_where(state.queue, waiting_others(session_id));
    let next = tried(state, session_id, requested).1;
    if tried(state, session_id, requested).0 is Granted {
        assert forall|i: int| 0 <= i < next.queue.len() implies (
        #[trigger] next.queue[i]).session_id != session_id by {
            assert(waiting_others(session_id)(next.queue[i]));
        }
    }
    if let Some(owner) = holder(state.locks, session_id, requested) {
        let (i, j) = choose|i: int, j: int|
            0 <= i < state.locks.len() && 0 <= j < requested.len() && (
            #[trigger] state.locks[i]).owner == owner && locks_conflict(
                state.locks[i],
                #[trigger] requested[j],
            );
        assert(state.locks[i].owner == owner);
    }
}

proof fn lemma_with_locks(locks: Seq<LockModel>, requested: Seq<LockModel>)
    ensures
        forall|lock: LockModel| #[trigger]
            with_locks(locks, requested).contains(lock) <==> locks.contains(lock)
                || requested.contains(lock),
    decreases requested.len(),
{
    if requested.len() > 0 {
        let init = requested.drop_last();
        lemma_with_locks(locks, init);
        let before = with_locks(locks, init);
        let next = with_locks(locks, requested);
        assert forall|lock: LockModel| #[trigger]
            next.contains(lock) <==> locks.contains(lock) || requested.contains(lock) by {
            assert(before.contains(lock) <==> locks.contains(lock) || init.contains(lock));
            if before.contains(lock) {
                let i = choose|i: int| 0 <= i < before.len() && before[i] == lock;
                assert(next[i] == lock);
            }
            if init.contains(lock) {
                let i = choose|i: int| 0 <= i < init.len() && init[i] == lock;
                assert(requested[i] == lock);
            }
            if requested.contains(lock) && !init.contains(lock) {
                let i = choose|i: int| 0 <= i < requested.len() && requested[i] == lock;
                if i < init.len() {
                    assert(init[i] == lock);
                }
                assert(lock == requested.last());
                if !before.contains(lock) {
                    assert(next[before.len() as int] == lock);
                }
            }
            if next.contains(lock) && !before.contains(lock) {
                let i = choose|i: int| 0 <= i < next.len() && next[i] == lock;
                if i < before.len() {
                    assert(before[i] == lock);
                }
                assert(requested[requested.len() - 1] == lock);
            }
        }
    }
}

/// A request that waits stands at the end of the queue, once, with what it asks for; everybody
/// ahead of it stays there.
pub proof fn law_requests_queue_once(
    state: LockState,
    session_id: i32,
    requested: Seq<LockModel>,
)
    requires
        requested.len() > 0,
    ensures
        ({
            let next = enqueued(state, session_id, requested);
            &&& next.locks == state.locks && next.waits == state.waits
            &&& exists|i: int|
                0 <= i < next.queue.len() && (#[trigger] next.queue[i]).session_id == session_id
            &&& next.queue.len() >= state.queue.len() && next.queue.take(state.queue.len() as int)
                == state.queue
            &&& enqueued(next, session_id, requested) == next
            &&& next.queue.len() > state.queue.len() ==> next.queue.len() == state.queue.len() + 1
                && next.queue.last().session_id == session_id && next.queue.last().locks
                == requested
        }),
{
    let next = enqueued(state, session_id, requested);
    assert(next.queue.take(state.queue.len() as int) =~= state.queue);
    if !is_queued(state.queue, session_id) {
        assert(next.queue[state.queue.len() as int].session_id == session_id);
    } else {
        let i = choose|i: int|
            0 <= i < state.queue.len() && (#[trigger] state.queue[i]).session_id == session_id;
        assert(next.queue[i].session_id == session_id);
    }
    assert(is_queued(next.queue, session_id));
}

/// The end of a statement lets go of the locks that its session holds for the statement alone:
/// those of other sessions, and those that last to the end of the transaction, stay.
pub proof fn law_statements_let_go_of_their_own(state: LockState, session_id: i32, lock: LockModel)
    ensures
        statement_released(state, session_id).locks.contains(lock) <==> state.locks.contains(lock)
            && (lock.owner != session_id || lock.duration == MySqlLockDuration::Transaction),
        statement_released(state, session_id).queue == state.queue,
        statement_released(state, session_id).waits == state.waits,
{
    lemma_kept_where(state.locks, outlasting(session_id));
    let kept = kept_where(state.locks, outlasting(session_id));
    if state.locks.contains(lock) {
        let i = choose|i: int| 0 <= i < state.locks.len() && state.locks[i] == lock;
        if lock.owner != session_id || lock.duration == MySqlLockDuration::Transaction {
            assert(outlasting(session_id)(state.locks[i]));
        }
    }
    if kept.contains(lock) {
        let i = choose|i: int| 0 <= i < kept.len() && kept[i] == lock;
        assert(outlasting(session_id)(kept[i]));
    }
}

/// A session waits for a lock as many seconds as its setting says, where that is a number.
pub proof fn law_waits_last_as_set(digits: Seq<char>)
    requires
        digits.len() > 0,
        all_digits(digits),
        digits_value(digits) <= u64::MAX,
    ensures
        wait_seconds(Some(digits)) == digits_value(digits),
        wait_seconds(None) == 50,
{
    assert(is_digit(digits[0]));
}

proof fn lemma_form_ends(value: Datum, floats: Seq<FloatTextModel>)
    ensures
        value_form(value, floats).len() > 0,
        value_form(value, floats).last() == ')' || value_form(value, floats).last() == 'l',
{
    reveal_strlit(")");
    reveal_strlit("])");
    reveal_strlit("Null");
    assert("])"@.last() == ')');
}

/// What is looked up stands in the range from its own form to that form with the next character as
/// its last.
proof fn lemma_form_in_range(form: Seq<char>)
    requires
        form.len() > 0,
        form.last() == ')' || form.last() == 'l',
    ensures
        in_range(Some(form), upper_form(form), form),
{
    let raised = upper_form(form)->0;
    let init = encode_utf8(form.drop_last());
    lemma_ascii_end(form);
    lemma_ascii_end(raised);
    assert(raised.drop_last() =~= form.drop_last());
    let a = seq![form.last() as u8];
    let b = seq![raised.last() as u8];
    assert(encode_utf8(form) =~= init + a);
    assert(encode_utf8(raised) =~= init + b);
    lemma_bytes_less_prefix(init, a, b);
    lemma_bytes_less_total(encode_utf8(form), encode_utf8(form));
}

/// Whether a statement looks for the row under a key, to change it or to read it with a lock, and
/// does not find it.
pub open spec fn misses(plan: PlanModel, locking_read: bool, visible: Seq<bool>, key: Datum) -> bool {
    match plan {
        PlanModel::UpdateRows { access, .. } => access == (WriteModel::PointLookup { key })
            && !(visible.len() > 0 && visible[0]),
        PlanModel::DeleteRows { access, .. } => access == (WriteModel::PointLookup { key })
            && !(visible.len() > 0 && visible[0]),
        PlanModel::SelectRows { access, .. } => locking_read && match access {
            ReadModel::PointLookup { key: wanted } => wanted == key && !(visible.len() > 0
                && visible[0]),
            ReadModel::PrimaryKeyInLookup { keys } => exists|i: int|
                0 <= i < keys.len() && #[trigger] keys[i] == key && !(i < visible.len()
                    && visible[i]),
            _ => false,
        },
        _ => false,
    }
}

/// A row that a statement has looked for and not found stays away: another session that wants to
/// insert it finds one of the statement's locks in its way.
pub proof fn law_missing_rows_stay_away(
    contents: Contents,
    session_id: i32,
    plan: PlanModel,
    locking_read: bool,
    visible: Seq<bool>,
    found: Seq<Datum>,
    floats: Seq<FloatTextModel>,
    key: Datum,
    other: LockModel,
)
    requires
        misses(plan, locking_read, visible, key),
        table_of_rows(plan, locking_read) matches Some(place) && is_on(other, place),
        other.kind == KindModel::InsertIntention(value_form(key, floats)),
    ensures
        plan_locks(contents, session_id, plan, locking_read, visible, found, floats) matches Ok(
            locks,
        ) && some_conflicts(locks, other),
{
    let locks = plan_locks(contents, session_id, plan, locking_read, visible, found, floats)->Ok_0;
    let form = value_form(key, floats);
    lemma_form_ends(key, floats);
    lemma_form_in_range(form);
    let i = match plan {
        PlanModel::SelectRows { access: ReadModel::PrimaryKeyInLookup { keys }, .. } => choose|i: int|
            0 <= i < keys.len() && #[trigger] keys[i] == key && !(i < visible.len() && visible[i]),
        _ => 0,
    };
    assert(locks[i].kind == (KindModel::Gap { lower: Some(form), upper: upper_form(form) }));
    assert(locks_conflict(locks[i], other));
}

/// Whether a statement looks up a value in an index, to change the rows with it or to read them
/// with locks.
pub open spec fn looks_up(
    plan: PlanModel,
    locking_read: bool,
    index_name: Seq<char>,
    value: Datum,
) -> bool {
    match plan {
        PlanModel::UpdateRows {
            access: WriteModel::SecondaryIndexLookup { index_name: name, key, .. },
            ..
        } => name == index_name && key == value,
        PlanModel::DeleteRows {
            access: WriteModel::SecondaryIndexLookup { index_name: name, key, .. },
            ..
        } => name == index_name && key == value,
        PlanModel::SelectRows {
            access: ReadModel::SecondaryIndexLookup { index_name: name, key, .. },
            ..
        } => locking_read && name == index_name && key == value,
        _ => false,
    }
}

/// The rows with a value that a statement has looked up in an index stay as they are: another
/// session that wants to insert one with that value finds one of the statement's locks in its
/// way, whether the look-up has found rows or not.
pub proof fn law_looked_up_values_get_no_rows(
    contents: Contents,
    session_id: i32,
    plan: PlanModel,
    locking_read: bool,
    visible: Seq<bool>,
    found: Seq<Datum>,
    floats: Seq<FloatTextModel>,
    index_name: Seq<char>,
    value: Datum,
    other: LockModel,
)
    requires
        looks_up(plan, locking_read, index_name, value),
        table_of_rows(plan, locking_read) matches Some(place) && is_on(other, place),
        other.kind == (KindModel::IndexInsertIntention {
            index_name: lower(index_name),
            value: index_value_form(index_name, value, floats),
        }),
    ensures
        plan_locks(contents, session_id, plan, locking_read, visible, found, floats) matches Ok(
            locks,
        ) && some_conflicts(locks, other),
{
    let locks = plan_locks(contents, session_id, plan, locking_read, visible, found, floats)->Ok_0;
    let form = index_value_form(index_name, value, floats);
    lemma_form_ends(value, floats);
    lemma_form_in_range(form);
    let start = lower(index_name) + "="@;
    assert(form.take(start.len() as int) =~= start);
    assert(locks_conflict(locks[0], other));
}

} // verus!
