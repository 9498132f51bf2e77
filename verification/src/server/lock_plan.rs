//! Which locks a plan needs.
use vstd::prelude::*;
use vstd::utf8::{
    decode_utf8, encode_utf8, encode_utf8_decode_utf8, encode_utf8_valid_utf8, is_ascii_chars,
    is_ascii_chars_encode_utf8, valid_utf8,
};

use crate::bytes::{next_key_prefix, next_prefix};
use crate::catalog::model::{
    bootstrapped, database_found, index_found, indexes_listed, law_bootstrap_is_stable,
    schema_found,
};
use crate::catalog::types::{DatabaseModel, IndexCatalog, IndexModel};
use crate::error::{not_internal, Report, UserError};
use crate::mem_store::{Contents, KvStore};
use crate::row::{RowMap, RowModel};
use crate::schema::{option_view, seen_all, views};
use crate::server::gateway::{only_opened, GatewayServer};
use crate::server::literals::{FloatText, FloatTextModel};
use crate::server::locks::{
    add_metadata_read_lock, ddl_lock, index_value_form, mysql_database_lock, mysql_index_lock,
    mysql_lock, mysql_schema_lock, mysql_sequence_lock, mysql_statement_lock, mysql_view_lock,
    normalize_mysql_index_lock_value, normalize_mysql_lock_value, table_lock, value_form, KindModel,
    LockModel, MySqlLock, MySqlLockKind, MySqlLockScope,
};
use crate::server::plan::{
    Bound, BoundModel, PlanModel, QualifiedModel, QualifiedName, QueryPlan, ReadAccess, ReadModel,
    ScopedModel, ScopedTable, WriteAccess, WriteModel,
};
use crate::server::rows::{indexed, indexed_value};
use crate::text::{lemma_utf8_concat, lower, lower_text, utf8_bytes};
use crate::types::{ColumnValue, Datum};

verus! {

/// What `String::from_utf8_lossy` makes of bytes.
pub uninterp spec fn lossy_text(bytes: Seq<u8>) -> Seq<char>;

/// `String::from_utf8_lossy`: the text of the bytes, where they are UTF-8; else a text that is a
/// function of them.
#[verifier::external_body]
pub(crate) fn lossy_string(bytes: &[u8]) -> (text: String)
    ensures
        text@ == lossy_text(bytes@),
        valid_utf8(bytes@) ==> text@ == decode_utf8(bytes@),
{
    String::from_utf8_lossy(bytes).into_owned()
}

/// The upper end of the range that starts with a value and holds what starts with its form. The
/// form of a value ends in a bracket, or is `Null`: the next character stands in place of its last
/// one.
pub open spec fn upper_form(form: Seq<char>) -> Option<Seq<char>> {
    if form.len() > 0 && form.last() == ')' {
        Some(form.drop_last().push('*'))
    } else if form.len() > 0 && form.last() == 'l' {
        Some(form.drop_last().push('m'))
    } else {
        match next_prefix(encode_utf8(form)) {
            Some(bytes) => Some(lossy_text(bytes)),
            None => None,
        }
    }
}

/// A text that ends in an ASCII character has that character as its last byte.
pub proof fn lemma_ascii_end(form: Seq<char>)
    requires
        form.len() > 0,
        '\0' <= form.last() <= '\u{7f}',
    ensures
        encode_utf8(form) == encode_utf8(form.drop_last()).push(form.last() as u8),
{
    let last = form.last();
    let end = seq![last];
    assert(form =~= form.drop_last() + end);
    lemma_utf8_concat(form.drop_last(), end);
    assert(is_ascii_chars(end));
    is_ascii_chars_encode_utf8(end);
    assert(encode_utf8(end)[0] == end[0] as u8);
    assert(encode_utf8(end) =~= seq![last as u8]);
    assert(encode_utf8(form) =~= encode_utf8(form.drop_last()).push(last as u8));
}

fn upper_form_of(form: &str) -> (upper: Option<String>)
    ensures
        option_view(upper) == upper_form(form@),
{
    let bytes = utf8_bytes(form);
    proof {
        if form@.len() > 0 && (form@.last() == ')' || form@.last() == 'l') {
            let raised = upper_form(form@)->0;
            lemma_ascii_end(form@);
            lemma_ascii_end(raised);
            assert(raised.drop_last() =~= form@.drop_last());
            let init = encode_utf8(form@.drop_last());
            assert(bytes@.drop_last() =~= init);
            assert(next_prefix(bytes@) == Some(init.push((bytes@.last() + 1) as u8)));
            assert(next_prefix(bytes@) == Some(encode_utf8(raised)));
            encode_utf8_valid_utf8(raised);
            encode_utf8_decode_utf8(raised);
        }
    }
    match next_key_prefix(bytes.as_slice()) {
        Some(next) => Some(lossy_string(next.as_slice())),
        None => None,
    }
}

/// The table that locks are asked on, and by whom, with the texts of the floating-point numbers
/// that stand in the locks.
pub struct LockTarget<'a> {
    pub session_id: i32,
    pub database_name: &'a str,
    pub schema_name: &'a str,
    pub table_name: &'a str,
    pub floats: &'a Vec<FloatText>,
}

/// What a [`LockTarget`] says.
pub struct TargetModel {
    pub session_id: i32,
    pub database_name: Seq<char>,
    pub schema_name: Seq<char>,
    pub table_name: Seq<char>,
    pub floats: Seq<FloatTextModel>,
}

impl<'a> View for LockTarget<'a> {
    type V = TargetModel;

    open spec fn view(&self) -> TargetModel {
        TargetModel {
            session_id: self.session_id,
            database_name: self.database_name@,
            schema_name: self.schema_name@,
            table_name: self.table_name@,
            floats: views(self.floats@),
        }
    }
}

/// A lock of a kind on a target.
pub open spec fn lock_for(target: TargetModel, kind: KindModel) -> LockModel {
    table_lock(
        target.session_id,
        target.database_name,
        target.schema_name,
        target.table_name,
        kind,
    )
}

fn lock_of(target: &LockTarget, kind: MySqlLockKind) -> (lock: MySqlLock)
    ensures
        lock@ == lock_for(target@, kind@),
{
    mysql_lock(
        target.session_id,
        target.database_name,
        target.schema_name,
        target.table_name,
        kind,
    )
}

/// The lock on a key: on its row, where there is one, else on the gap where it would stand.
pub open spec fn key_lock(target: TargetModel, key: Datum, visible: bool) -> LockModel {
    lock_for(
        target,
        if visible {
            KindModel::Record(value_form(key, target.floats))
        } else {
            KindModel::Gap {
                lower: Some(value_form(key, target.floats)),
                upper: upper_form(value_form(key, target.floats)),
            }
        },
    )
}

/// The lock on a key: on its row, where there is one, else on the gap where it would stand.
pub fn primary_key_record_or_gap_lock(target: &LockTarget, key: &ColumnValue, visible: bool) -> (lock:
    MySqlLock)
    ensures
        lock@ == key_lock(target@, key@, visible),
{
    let value = normalize_mysql_lock_value(key, target.floats);
    let kind = if visible {
        MySqlLockKind::Record(value)
    } else {
        let upper = upper_form_of(value.as_str());
        MySqlLockKind::Gap { lower: Some(value), upper }
    };
    lock_of(target, kind)
}

/// The locks on the rows with some keys.
pub open spec fn record_locks(target: TargetModel, keys: Seq<Datum>) -> Seq<LockModel> {
    keys.map_values(|key: Datum| lock_for(target, KindModel::Record(value_form(key, target.floats))))
}

fn add_record_locks(locks: &mut Vec<MySqlLock>, target: &LockTarget, keys: &Vec<ColumnValue>)
    ensures
        views(final(locks)@) == views(old(locks)@) + record_locks(target@, views(keys@)),
{
    let ghost before = views(locks@);
    let ghost added = record_locks(target@, views(keys@));
    let mut i: usize = 0;
    assert(views(locks@) =~= before + added.take(0));
    while i < keys.len()
        invariant
            i <= keys@.len(),
            added == record_locks(target@, views(keys@)),
            views(locks@) == before + added.take(i as int),
        decreases keys@.len() - i,
    {
        assert(views(keys@)[i as int] == keys@[i as int]@);
        let lock = lock_of(target, MySqlLockKind::Record(normalize_mysql_lock_value(&keys[i], target.floats)));
        let ghost model = lock@;
        assert(model == added[i as int]);
        let ghost done = views(locks@);
        locks.push(lock);
        assert(views(locks@) =~= done.push(model));
        assert(added.take(i + 1) =~= added.take(i as int).push(model));
        assert(views(locks@) =~= before + added.take(i + 1));
        i += 1;
    }
    assert(added.take(i as int) =~= added);
}

/// The locks of a look-up in an index: on the place of the value, a gap where nothing is there,
/// and on the rows that it finds.
pub open spec fn index_locks(
    target: TargetModel,
    index_name: Seq<char>,
    value: Datum,
    found: Seq<Datum>,
) -> Seq<LockModel> {
    let form = index_value_form(index_name, value, target.floats);
    let kind = if found.len() == 0 {
        KindModel::IndexGap {
            index_name: lower(index_name),
            lower: Some(form),
            upper: upper_form(form),
        }
    } else {
        KindModel::IndexNextKey {
            index_name: lower(index_name),
            lower: Some(form),
            upper: upper_form(form),
        }
    };
    seq![lock_for(target, kind)] + record_locks(target, found)
}

/// The locks of a look-up in an index, which has found the rows with some keys.
pub fn secondary_index_locks(
    target: &LockTarget,
    index_name: &str,
    index_value: &ColumnValue,
    found: &Vec<ColumnValue>,
) -> (locks: Vec<MySqlLock>)
    ensures
        views(locks@) == index_locks(target@, index_name@, index_value@, views(found@)),
{
    let value = normalize_mysql_index_lock_value(index_name, index_value, target.floats);
    let upper = upper_form_of(value.as_str());
    let kind = if found.len() == 0 {
        MySqlLockKind::IndexGap {
            index_name: lower_text(index_name),
            lower: Some(value),
            upper,
        }
    } else {
        MySqlLockKind::IndexNextKey {
            index_name: lower_text(index_name),
            lower: Some(value),
            upper,
        }
    };
    let mut locks: Vec<MySqlLock> = Vec::new();
    locks.push(lock_of(target, kind));
    assert(views(locks@) =~= seq![locks@[0]@]);
    add_record_locks(&mut locks, target, found);
    locks
}

/// The form of an end of a range.
pub open spec fn bound_form(bound: Option<BoundModel>, floats: Seq<FloatTextModel>) -> Option<
    Seq<char>,
> {
    match bound {
        Some(end) => Some(value_form(end.value, floats)),
        None => None,
    }
}

/// The form of an end of a range in an index.
pub open spec fn index_bound_form(
    index_name: Seq<char>,
    bound: Option<BoundModel>,
    floats: Seq<FloatTextModel>,
) -> Option<Seq<char>> {
    match bound {
        Some(end) => Some(index_value_form(index_name, end.value, floats)),
        None => None,
    }
}

fn bound_form_of(bound: &Option<Bound>, floats: &Vec<FloatText>) -> (form: Option<String>)
    ensures
        option_view(form) == bound_form(option_view(*bound), views(floats@)),
{
    match bound {
        Some(end) => Some(normalize_mysql_lock_value(&end.value, floats)),
        None => None,
    }
}

fn index_bound_form_of(index_name: &str, bound: &Option<Bound>, floats: &Vec<FloatText>) -> (form:
    Option<String>)
    ensures
        option_view(form) == index_bound_form(index_name@, option_view(*bound), views(floats@)),
{
    match bound {
        Some(end) => Some(normalize_mysql_index_lock_value(index_name, &end.value, floats)),
        None => None,
    }
}

/// The locks of a scan of a range of an index: on the range, and on the rows that it finds.
pub open spec fn index_range_locks(
    target: TargetModel,
    index_name: Seq<char>,
    lower_end: Option<BoundModel>,
    upper_end: Option<BoundModel>,
    found: Seq<Datum>,
) -> Seq<LockModel> {
    seq![
        lock_for(
            target,
            KindModel::IndexNextKey {
                index_name: lower(index_name),
                lower: index_bound_form(index_name, lower_end, target.floats),
                upper: index_bound_form(index_name, upper_end, target.floats),
            },
        ),
    ] + record_locks(target, found)
}

/// The locks of a scan of a range of an index, which has found the rows with some keys.
pub fn secondary_index_range_locks(
    target: &LockTarget,
    index_name: &str,
    lower_end: &Option<Bound>,
    upper_end: &Option<Bound>,
    found: &Vec<ColumnValue>,
) -> (locks: Vec<MySqlLock>)
    ensures
        views(locks@) == index_range_locks(
            target@,
            index_name@,
            option_view(*lower_end),
            option_view(*upper_end),
            views(found@),
        ),
{
    let kind = MySqlLockKind::IndexNextKey {
        index_name: lower_text(index_name),
        lower: index_bound_form_of(index_name, lower_end, target.floats),
        upper: index_bound_form_of(index_name, upper_end, target.floats),
    };
    let mut locks: Vec<MySqlLock> = Vec::new();
    locks.push(lock_of(target, kind));
    assert(views(locks@) =~= seq![locks@[0]@]);
    add_record_locks(&mut locks, target, found);
    locks
}

/// The locks that the insertion of a row needs on an index: to insert its value, and on it.
pub open spec fn index_insert_locks(
    target: TargetModel,
    row: RowModel,
    index: IndexModel,
) -> Seq<LockModel> {
    let form = index_value_form(
        index.index_name,
        indexed(row, index.column_names),
        target.floats,
    );
    let name = lower(index.index_name);
    seq![
        lock_for(target, KindModel::IndexInsertIntention { index_name: name, value: form }),
        lock_for(target, KindModel::IndexRecord { index_name: name, value: form }),
    ]
}

/// The locks that the insertion of a row needs on the indexes of its table.
pub open spec fn indexes_insert_locks(
    target: TargetModel,
    row: RowModel,
    indexes: Seq<IndexModel>,
) -> Seq<LockModel>
    decreases indexes.len(),
{
    if indexes.len() == 0 {
        seq![]
    } else {
        indexes_insert_locks(target, row, indexes.drop_last()) + index_insert_locks(
            target,
            row,
            indexes.last(),
        )
    }
}

/// The locks that the insertion of a row needs: on its key, where it has one, and on the
/// indexes.
pub open spec fn row_insert_locks(
    target: TargetModel,
    primary_key: Seq<char>,
    row: RowModel,
    indexes: Seq<IndexModel>,
) -> Seq<LockModel> {
    let key_locks = if row.dom().contains(primary_key) {
        let form = value_form(row[primary_key], target.floats);
        seq![
            lock_for(target, KindModel::InsertIntention(form)),
            lock_for(target, KindModel::Record(form)),
        ]
    } else {
        seq![]
    };
    key_locks + indexes_insert_locks(target, row, indexes)
}

/// The locks that the insertion of rows needs.
pub open spec fn rows_insert_locks(
    target: TargetModel,
    primary_key: Seq<char>,
    rows: Seq<RowModel>,
    indexes: Seq<IndexModel>,
) -> Seq<LockModel>
    decreases rows.len(),
{
    if rows.len() == 0 {
        seq![]
    } else {
        rows_insert_locks(target, primary_key, rows.drop_last(), indexes) + row_insert_locks(
            target,
            primary_key,
            rows.last(),
            indexes,
        )
    }
}

fn add_row_insert_locks(
    locks: &mut Vec<MySqlLock>,
    target: &LockTarget,
    primary_key: &str,
    row: &RowMap,
    indexes: &Vec<IndexCatalog>,
)
    ensures
        views(final(locks)@) == views(old(locks)@) + row_insert_locks(
            target@,
            primary_key@,
            row@,
            views(indexes@),
        ),
{
    let ghost before = views(locks@);
    let ghost all = views(indexes@);
    if let Some(key) = row.get(primary_key) {
        let first = lock_of(
            target,
            MySqlLockKind::InsertIntention(normalize_mysql_lock_value(key, target.floats)),
        );
        let second = lock_of(target, MySqlLockKind::Record(normalize_mysql_lock_value(key, target.floats)));
        let ghost a = first@;
        let ghost b = second@;
        locks.push(first);
        locks.push(second);
        assert(views(locks@) =~= before + seq![a, b]);
    }
    let ghost keyed = views(locks@);
    let mut i: usize = 0;
    assert(all.take(0) =~= Seq::<IndexModel>::empty());
    assert(keyed =~= keyed + indexes_insert_locks(target@, row@, all.take(0)));
    while i < indexes.len()
        invariant
            i <= indexes@.len(),
            all == views(indexes@),
            views(locks@) == keyed + indexes_insert_locks(target@, row@, all.take(i as int)),
        decreases indexes@.len() - i,
    {
        let index = &indexes[i];
        assert(all.take(i + 1).drop_last() =~= all.take(i as int));
        assert(all.take(i + 1).last() == index@);
        let ghost done = views(locks@);
        let value = indexed_value(row, index);
        let form = normalize_mysql_index_lock_value(
            index.index_name.as_str(),
            &value,
            target.floats,
        );
        let first = lock_of(
            target,
            MySqlLockKind::IndexInsertIntention {
                index_name: lower_text(index.index_name.as_str()),
                value: form.clone(),
            },
        );
        let second = lock_of(
            target,
            MySqlLockKind::IndexRecord {
                index_name: lower_text(index.index_name.as_str()),
                value: form,
            },
        );
        let ghost a = first@;
        let ghost b = second@;
        locks.push(first);
        locks.push(second);
        assert(views(locks@) =~= done + seq![a, b]);
        assert(seq![a, b] =~= index_insert_locks(target@, row@, index@));
        assert(views(locks@) =~= keyed + indexes_insert_locks(target@, row@, all.take(i + 1)));
        i += 1;
    }
    assert(all.take(i as int) =~= all);
    assert(views(locks@) =~= before + row_insert_locks(target@, primary_key@, row@, all));
}

/// The locks that the insertion of rows needs.
pub fn insert_row_locks(
    target: &LockTarget,
    primary_key: &str,
    rows: &Vec<RowMap>,
    indexes: &Vec<IndexCatalog>,
) -> (locks: Vec<MySqlLock>)
    ensures
        views(locks@) == rows_insert_locks(
            target@,
            primary_key@,
            views(rows@),
            views(indexes@),
        ),
{
    let ghost all = views(rows@);
    let mut locks: Vec<MySqlLock> = Vec::new();
    let mut i: usize = 0;
    assert(all.take(0) =~= Seq::<RowModel>::empty());
    assert(views(locks@) =~= rows_insert_locks(
        target@,
        primary_key@,
        all.take(0),
        views(indexes@),
    ));
    while i < rows.len()
        invariant
            i <= rows@.len(),
            all == views(rows@),
            views(locks@) == rows_insert_locks(
                target@,
                primary_key@,
                all.take(i as int),
                views(indexes@),
            ),
        decreases rows@.len() - i,
    {
        assert(all.take(i + 1).drop_last() =~= all.take(i as int));
        assert(all.take(i + 1).last() == rows@[i as int]@);
        add_row_insert_locks(&mut locks, target, primary_key, &rows[i], indexes);
        i += 1;
    }
    assert(all.take(i as int) =~= all);
    locks
}

/// The locks on some keys; `visible` says of each whether its row is there.
pub open spec fn key_locks(
    target: TargetModel,
    keys: Seq<Datum>,
    visible: Seq<bool>,
) -> Seq<LockModel> {
    Seq::new(
        keys.len(),
        |i: int| key_lock(target, keys[i], i < visible.len() && visible[i]),
    )
}

fn key_locks_of(target: &LockTarget, keys: &Vec<ColumnValue>, visible: &Vec<bool>) -> (locks: Vec<
    MySqlLock,
>)
    ensures
        views(locks@) == key_locks(target@, views(keys@), visible@),
{
    let mut locks: Vec<MySqlLock> = Vec::new();
    let mut i: usize = 0;
    while i < keys.len()
        invariant
            i <= keys@.len(),
            locks@.len() == i,
            forall|k: int|
                0 <= k < i ==> (#[trigger] locks@[k])@ == key_locks(
                    target@,
                    views(keys@),
                    visible@,
                )[k],
        decreases keys@.len() - i,
    {
        assert(views(keys@)[i as int] == keys@[i as int]@);
        let there = i < visible.len() && visible[i];
        locks.push(primary_key_record_or_gap_lock(target, &keys[i], there));
        i += 1;
    }
    assert(views(locks@) =~= key_locks(target@, views(keys@), visible@));
    locks
}

/// The locks of a read; `visible` says of each key that it looks up whether its row is there,
/// `found` gives the keys of the rows that an index leads to.
pub open spec fn read_locks(
    target: TargetModel,
    access: ReadModel,
    visible: Seq<bool>,
    found: Seq<Datum>,
) -> Seq<LockModel> {
    match access {
        ReadModel::PointLookup { key } => key_locks(target, seq![key], visible),
        ReadModel::PrimaryKeyInLookup { keys } => key_locks(target, keys, visible),
        ReadModel::PrimaryKeyRangeScan { lower, upper, filter } => seq![
            lock_for(
                target,
                KindModel::NextKey {
                    lower: bound_form(lower, target.floats),
                    upper: bound_form(upper, target.floats),
                },
            ),
        ],
        ReadModel::SecondaryIndexLookup { index_name, column_name, key, filter } => index_locks(
            target,
            index_name,
            key,
            found,
        ),
        ReadModel::SecondaryIndexRangeScan { index_name, column_name, lower, upper, filter } => {
            index_range_locks(target, index_name, lower, upper, found)
        },
        ReadModel::PrefixScan { filter } => seq![lock_for(target, KindModel::Table)],
    }
}

/// The locks of a write, likewise.
pub open spec fn write_locks(
    target: TargetModel,
    access: WriteModel,
    visible: Seq<bool>,
    found: Seq<Datum>,
) -> Seq<LockModel> {
    match access {
        WriteModel::PointLookup { key } => key_locks(target, seq![key], visible),
        WriteModel::PrimaryKeyRangeScan { lower, upper, filter } => seq![
            lock_for(
                target,
                KindModel::NextKey {
                    lower: bound_form(lower, target.floats),
                    upper: bound_form(upper, target.floats),
                },
            ),
        ],
        WriteModel::SecondaryIndexLookup { index_name, key, filter } => index_locks(
            target,
            index_name,
            key,
            found,
        ),
        WriteModel::SecondaryIndexRangeScan { index_name, lower, upper, filter } => {
            index_range_locks(target, index_name, lower, upper, found)
        },
        WriteModel::PrefixScan { filter } => seq![lock_for(target, KindModel::Table)],
    }
}

fn one_lock(lock: MySqlLock) -> (locks: Vec<MySqlLock>)
    ensures
        views(locks@) == seq![lock@],
{
    let mut locks: Vec<MySqlLock> = Vec::new();
    locks.push(lock);
    assert(views(locks@) =~= seq![lock@]);
    locks
}

fn range_lock(target: &LockTarget, lower_end: &Option<Bound>, upper_end: &Option<Bound>) -> (locks:
    Vec<MySqlLock>)
    ensures
        views(locks@) == seq![
            lock_for(
                target@,
                KindModel::NextKey {
                    lower: bound_form(option_view(*lower_end), views(target.floats@)),
                    upper: bound_form(option_view(*upper_end), views(target.floats@)),
                },
            ),
        ],
{
    one_lock(
        lock_of(
            target,
            MySqlLockKind::NextKey {
                lower: bound_form_of(lower_end, target.floats),
                upper: bound_form_of(upper_end, target.floats),
            },
        ),
    )
}

fn point_lock(target: &LockTarget, key: &ColumnValue, visible: &Vec<bool>) -> (locks: Vec<MySqlLock>)
    ensures
        views(locks@) == key_locks(target@, seq![key@], visible@),
{
    let there = visible.len() > 0 && visible[0];
    let locks = one_lock(primary_key_record_or_gap_lock(target, key, there));
    assert(views(locks@) =~= key_locks(target@, seq![key@], visible@));
    locks
}

/// The locks of a read.
pub fn read_access_locks(
    target: &LockTarget,
    access: &ReadAccess,
    visible: &Vec<bool>,
    found: &Vec<ColumnValue>,
) -> (locks: Vec<MySqlLock>)
    ensures
        views(locks@) == read_locks(target@, access@, visible@, views(found@)),
{
    match access {
        ReadAccess::PointLookup { key } => point_lock(target, key, visible),
        ReadAccess::PrimaryKeyInLookup { keys } => key_locks_of(target, keys, visible),
        ReadAccess::PrimaryKeyRangeScan { lower, upper, filter } => range_lock(
            target,
            lower,
            upper,
        ),
        ReadAccess::SecondaryIndexLookup { index_name, column_name, key, filter } => {
            secondary_index_locks(target, index_name.as_str(), key, found)
        },
        ReadAccess::SecondaryIndexRangeScan { index_name, column_name, lower, upper, filter } => {
            secondary_index_range_locks(target, index_name.as_str(), lower, upper, found)
        },
        ReadAccess::PrefixScan { filter } => one_lock(lock_of(target, MySqlLockKind::Table)),
    }
}

/// The locks of a write.
pub fn write_access_locks(
    target: &LockTarget,
    access: &WriteAccess,
    visible: &Vec<bool>,
    found: &Vec<ColumnValue>,
) -> (locks: Vec<MySqlLock>)
    ensures
        views(locks@) == write_locks(target@, access@, visible@, views(found@)),
{
    match access {
        WriteAccess::PointLookup { key } => point_lock(target, key, visible),
        WriteAccess::PrimaryKeyRangeScan { lower, upper, filter } => range_lock(
            target,
            lower,
            upper,
        ),
        WriteAccess::SecondaryIndexLookup { index_name, key, filter } => secondary_index_locks(
            target,
            index_name.as_str(),
            key,
            found,
        ),
        WriteAccess::SecondaryIndexRangeScan { index_name, lower, upper, filter } => {
            secondary_index_range_locks(target, index_name.as_str(), lower, upper, found)
        },
        WriteAccess::PrefixScan { filter } => one_lock(lock_of(target, MySqlLockKind::Table)),
    }
}

/// The locks on objects of schemas that a statement changes.
pub open spec fn object_locks(
    session_id: i32,
    scope: MySqlLockScope,
    database_name: Seq<char>,
    names: Seq<QualifiedModel>,
) -> Seq<LockModel> {
    names.map_values(
        |name: QualifiedModel|
            ddl_lock(session_id, scope, database_name, name.schema_name, name.name),
    )
}

fn object_locks_of(
    session_id: i32,
    scope: MySqlLockScope,
    database_name: &str,
    names: &Vec<QualifiedName>,
) -> (locks: Vec<MySqlLock>)
    ensures
        views(locks@) == object_locks(session_id, scope, database_name@, views(names@)),
{
    let mut locks: Vec<MySqlLock> = Vec::new();
    let mut i: usize = 0;
    while i < names.len()
        invariant
            i <= names@.len(),
            locks@.len() == i,
            forall|k: int|
                0 <= k < i ==> (#[trigger] locks@[k])@ == ddl_lock(
                    session_id,
                    scope,
                    database_name@,
                    views(names@)[k].schema_name,
                    views(names@)[k].name,
                ),
        decreases names@.len() - i,
    {
        assert(views(names@)[i as int] == names@[i as int]@);
        locks.push(
            crate::server::locks::mysql_lock_with_duration(
                session_id,
                scope,
                crate::server::locks::MySqlLockDuration::Statement,
                database_name,
                names[i].schema_name.as_str(),
                names[i].name.as_str(),
                MySqlLockKind::MetadataWrite,
            ),
        );
        i += 1;
    }
    assert(views(locks@) =~= object_locks(session_id, scope, database_name@, views(names@)));
    locks
}

/// The locks of a statement that drops indexes: on each index and, where it is there, on its
/// table.
pub open spec fn drop_index_locks(
    contents: Contents,
    session_id: i32,
    database_name: Seq<char>,
    database: Option<DatabaseModel>,
    indexes: Seq<QualifiedModel>,
) -> Result<Seq<LockModel>, Report>
    decreases indexes.len(),
{
    if indexes.len() == 0 {
        Ok(seq![])
    } else {
        match drop_index_locks(
            contents,
            session_id,
            database_name,
            database,
            indexes.drop_last(),
        ) {
            Err(e) => Err(e),
            Ok(before) => {
                let name = indexes.last();
                let locks = before.push(
                    ddl_lock(
                        session_id,
                        MySqlLockScope::Index,
                        database_name,
                        name.schema_name,
                        name.name,
                    ),
                );
                match database {
                    None => Ok(locks),
                    Some(database) => match schema_found(
                        contents,
                        database.database_id,
                        name.schema_name,
                    ) {
                        Err(e) => Err(e),
                        Ok(None) => Ok(locks),
                        Ok(Some(schema)) => match index_found(
                            contents,
                            database.database_id,
                            schema.schema_id,
                            name.name,
                        ) {
                            Err(e) => Err(e),
                            Ok(None) => Ok(locks),
                            Ok(Some(index)) => Ok(
                                locks.push(
                                    ddl_lock(
                                        session_id,
                                        MySqlLockScope::Table,
                                        database_name,
                                        name.schema_name,
                                        index.table_name,
                                    ),
                                ),
                            ),
                        },
                    },
                }
            },
        }
    }
}

/// The lock of a statement that reads the description of a table.
pub open spec fn read_lock(target: TargetModel) -> LockModel {
    lock_for(target, KindModel::MetadataRead)
}

/// The locks that a plan needs. Statements that change descriptions lock the objects;
/// statements that change rows, and reads that lock, lock rows and read descriptions.
pub open spec fn plan_locks(
    contents: Contents,
    session_id: i32,
    plan: PlanModel,
    locking_read: bool,
    visible: Seq<bool>,
    found: Seq<Datum>,
    floats: Seq<FloatTextModel>,
) -> Result<Seq<LockModel>, Report> {
    match plan {
        PlanModel::CreateDatabase { database_name, if_not_exists } => Ok(
            seq![
                ddl_lock(session_id, MySqlLockScope::Database, database_name, seq![], seq![]),
            ],
        ),
        PlanModel::CreateSchema { database_name, schema_name, if_not_exists } => Ok(
            seq![
                ddl_lock(session_id, MySqlLockScope::Schema, database_name, schema_name, seq![]),
            ],
        ),
        PlanModel::CreateSequence {
            database_name,
            schema_name,
            sequence_name,
            if_not_exists,
            start,
            increment,
        } => Ok(
            seq![
                ddl_lock(
                    session_id,
                    MySqlLockScope::Sequence,
                    database_name,
                    schema_name,
                    sequence_name,
                ),
            ],
        ),
        PlanModel::CreateView {
            database_name,
            schema_name,
            view_name,
            definition,
            or_replace,
            if_not_exists,
        } => Ok(
            seq![
                ddl_lock(session_id, MySqlLockScope::View, database_name, schema_name, view_name),
            ],
        ),
        PlanModel::CreateTable {
            database_name,
            schema_name,
            schema,
            auto_increment_start,
            indexes,
        } => Ok(
            seq![
                ddl_lock(
                    session_id,
                    MySqlLockScope::Table,
                    database_name,
                    schema_name,
                    schema.table_name,
                ),
            ],
        ),
        PlanModel::CreateTableAs { database_name, schema_name, schema, rows } => Ok(
            seq![
                ddl_lock(
                    session_id,
                    MySqlLockScope::Table,
                    database_name,
                    schema_name,
                    schema.table_name,
                ),
            ],
        ),
        PlanModel::InsertRows {
            database_name,
            schema_name,
            schema,
            rows,
            on_conflict,
            returning,
        } => {
            let target = TargetModel {
                session_id,
                database_name,
                schema_name,
                table_name: schema.table_name,
                floats,
            };
            match indexes_listed(contents, schema.table_id) {
                Err(e) => Err(e),
                Ok(indexes) => Ok(
                    rows_insert_locks(target, schema.primary_key, rows, indexes).push(
                        read_lock(target),
                    ),
                ),
            }
        },
        PlanModel::SelectRows {
            database_name,
            schema_name,
            schema,
            projection,
            access,
            limit,
            offset,
        } => if locking_read {
            let target = TargetModel {
                session_id,
                database_name,
                schema_name,
                table_name: schema.table_name,
                floats,
            };
            Ok(read_locks(target, access, visible, found).push(read_lock(target)))
        } else {
            Ok(seq![])
        },
        PlanModel::UpdateRows {
            database_name,
            schema_name,
            schema,
            assignments,
            access,
            limit,
            order_by_primary_key,
            returning,
        } => {
            let target = TargetModel {
                session_id,
                database_name,
                schema_name,
                table_name: schema.table_name,
                floats,
            };
            Ok(write_locks(target, access, visible, found).push(read_lock(target)))
        },
        PlanModel::DeleteRows {
            database_name,
            schema_name,
            schema,
            access,
            limit,
            order_by_primary_key,
            returning,
        } => {
            let target = TargetModel {
                session_id,
                database_name,
                schema_name,
                table_name: schema.table_name,
                floats,
            };
            Ok(write_locks(target, access, visible, found).push(read_lock(target)))
        },
        PlanModel::AlterTableAddPrimaryKey {
            database_name,
            schema_name,
            table_name,
            column_name,
        } => Ok(
            seq![
                ddl_lock(
                    session_id,
                    MySqlLockScope::Table,
                    database_name,
                    schema_name,
                    table_name,
                ),
            ],
        ),
        PlanModel::AlterTable { database_name, schema_name, table_name, operations } => Ok(
            seq![
                ddl_lock(
                    session_id,
                    MySqlLockScope::Table,
                    database_name,
                    schema_name,
                    table_name,
                ),
            ],
        ),
        PlanModel::CreateIndex {
            database_name,
            schema_name,
            table_name,
            index_name,
            column_names,
            unique,
            if_not_exists,
        } => Ok(
            seq![
                ddl_lock(
                    session_id,
                    MySqlLockScope::Table,
                    database_name,
                    schema_name,
                    table_name,
                ),
                ddl_lock(
                    session_id,
                    MySqlLockScope::Index,
                    database_name,
                    schema_name,
                    index_name,
                ),
            ],
        ),
        PlanModel::DropTables { database_name, tables, if_exists } => Ok(
            object_locks(session_id, MySqlLockScope::Table, database_name, tables),
        ),
        PlanModel::DropIndexes { database_name, indexes, if_exists } => match database_found(
            contents,
            database_name,
        ) {
            Err(e) => Err(e),
            Ok(database) => drop_index_locks(
                contents,
                session_id,
                database_name,
                database,
                indexes,
            ),
        },
        PlanModel::DropSequences { database_name, sequences, if_exists } => Ok(
            object_locks(session_id, MySqlLockScope::Sequence, database_name, sequences),
        ),
        PlanModel::DropViews { database_name, views, if_exists } => Ok(
            object_locks(session_id, MySqlLockScope::View, database_name, views),
        ),
        PlanModel::DropSchemas { database_name, schemas, if_exists } => Ok(
            schemas.map_values(
                |name: Seq<char>|
                    ddl_lock(session_id, MySqlLockScope::Schema, database_name, name, seq![]),
            ),
        ),
        PlanModel::DropDatabases { databases, if_exists } => Ok(
            databases.map_values(
                |name: Seq<char>|
                    ddl_lock(session_id, MySqlLockScope::Database, name, seq![], seq![]),
            ),
        ),
        PlanModel::TruncateTables { database_name, tables } => Ok(
            tables.map_values(
                |table: ScopedModel|
                    ddl_lock(
                        session_id,
                        MySqlLockScope::Table,
                        database_name,
                        table.schema_name,
                        table.schema.table_name,
                    ),
            ),
        ),
        _ => Ok(seq![]),
    }
}

impl<S: KvStore> GatewayServer<S> {
    fn drop_index_lock_targets(
        &mut self,
        session_id: i32,
        database_name: &str,
        indexes: &Vec<QualifiedName>,
    ) -> (result: Result<Vec<MySqlLock>, UserError>)
        ensures
            final(self).reliable() == old(self).reliable(),
            final(self).same_sessions(old(self)),
            not_internal(result) || old(self).reliable() ==> only_opened(
                old(self).contents(),
                final(self).contents(),
            ) && seen_all(result) == (match database_found(
                bootstrapped(old(self).contents()),
                database_name@,
            ) {
                Err(e) => Err(e),
                Ok(database) => drop_index_locks(
                    bootstrapped(old(self).contents()),
                    session_id,
                    database_name@,
                    database,
                    views(indexes@),
                ),
            }),
    {
        let ghost opened = bootstrapped(self.contents());
        proof {
            law_bootstrap_is_stable(self.contents());
        }
        let database = match self.catalog.get_database(database_name) {
            Err(e) => {
                return Err(e);
            },
            Ok(database) => database,
        };
        let ghost model = option_view(database);
        let ghost all = views(indexes@);
        let mut locks: Vec<MySqlLock> = Vec::new();
        let mut i: usize = 0;
        assert(all.take(0) =~= Seq::<QualifiedModel>::empty());
        assert(views(locks@) =~= Seq::<LockModel>::empty());
        assert(all.take(all.len() as int) =~= all);
        while i < indexes.len()
            invariant
                i <= indexes@.len(),
                all == views(indexes@),
                all.take(all.len() as int) == all,
                model == option_view(database),
                opened == bootstrapped(old(self).contents()),
                opened == bootstrapped(opened),
                self.reliable() == old(self).reliable(),
                self.same_sessions(old(self)),
                self.contents() == opened,
                database_found(opened, database_name@) == Ok::<Option<DatabaseModel>, Report>(
                    model,
                ),
                drop_index_locks(
                    opened,
                    session_id,
                    database_name@,
                    model,
                    all.take(i as int),
                ) == Ok::<Seq<LockModel>, Report>(views(locks@)),
            decreases indexes@.len() - i,
        {
            let name = &indexes[i];
            assert(all.take(i + 1).drop_last() =~= all.take(i as int));
            assert(all.take(i + 1).last() == name@);
            proof {
                lemma_error_stays(opened, session_id, database_name@, model, all, i + 1);
            }
            let ghost done = views(locks@);
            let lock = mysql_index_lock(
                session_id,
                database_name,
                name.schema_name.as_str(),
                name.name.as_str(),
                MySqlLockKind::MetadataWrite,
            );
            let ghost lock_model = lock@;
            locks.push(lock);
            let ghost with_index = done.push(lock_model);
            assert(views(locks@) =~= with_index);
            if let Some(database) = &database {
                match self.catalog.get_schema(database.database_id, name.schema_name.as_str()) {
                    Err(e) => {
                        return Err(e);
                    },
                    Ok(None) => {},
                    Ok(Some(schema)) => {
                        match self.catalog.get_index(
                            database.database_id,
                            schema.schema_id,
                            name.name.as_str(),
                        ) {
                            Err(e) => {
                                return Err(e);
                            },
                            Ok(None) => {},
                            Ok(Some(index)) => {
                                let table_lock = mysql_statement_lock(
                                    session_id,
                                    database_name,
                                    name.schema_name.as_str(),
                                    index.table_name.as_str(),
                                    MySqlLockKind::MetadataWrite,
                                );
                                let ghost table_model = table_lock@;
                                locks.push(table_lock);
                                assert(views(locks@) =~= with_index.push(table_model));
                            },
                        }
                    },
                }
            }
            i += 1;
        }
        Ok(locks)
    }

    /// The locks that a plan needs; `visible` says of each key that it looks up whether its row
    /// is there, `found` gives the keys of the rows that an index leads to, `floats` the texts of
    /// the floating-point numbers in all of these. Only insertions and dropped indexes have the
    /// catalog read.
    #[verifier::rlimit(60)]
    #[verifier::spinoff_prover]
    pub fn plan_lock_targets(
        &mut self,
        session_id: i32,
        plan: &QueryPlan,
        locking_read: bool,
        visible: &Vec<bool>,
        found: &Vec<ColumnValue>,
        floats: &Vec<FloatText>,
    ) -> (result: Result<Vec<MySqlLock>, UserError>)
        ensures
            final(self).reliable() == old(self).reliable(),
            final(self).same_sessions(old(self)),
            not_internal(result) || old(self).reliable() ==> only_opened(
                old(self).contents(),
                final(self).contents(),
            ) && seen_all(result) == plan_locks(
                bootstrapped(old(self).contents()),
                session_id,
                plan@,
                locking_read,
                visible@,
                views(found@),
                views(floats@),
            ),
            !(plan@ is InsertRows || plan@ is DropIndexes) ==> result is Ok
                && final(self).contents() == old(self).contents(),
    {
        match plan {
            QueryPlan::CreateDatabase { database_name, if_not_exists } => Ok(
                one_lock(
                    mysql_database_lock(
                        session_id,
                        database_name.as_str(),
                        MySqlLockKind::MetadataWrite,
                    ),
                ),
            ),
            QueryPlan::CreateSchema { database_name, schema_name, if_not_exists } => Ok(
                one_lock(
                    mysql_schema_lock(
                        session_id,
                        database_name.as_str(),
                        schema_name.as_str(),
                        MySqlLockKind::MetadataWrite,
                    ),
                ),
            ),
            QueryPlan::CreateSequence {
                database_name,
                schema_name,
                sequence_name,
                if_not_exists,
                start,
                increment,
            } => Ok(
                one_lock(
                    mysql_sequence_lock(
                        session_id,
                        database_name.as_str(),
                        schema_name.as_str(),
                        sequence_name.as_str(),
                        MySqlLockKind::MetadataWrite,
                    ),
                ),
            ),
            QueryPlan::CreateView {
                database_name,
                schema_name,
                view_name,
                definition,
                or_replace,
                if_not_exists,
            } => Ok(
                one_lock(
                    mysql_view_lock(
                        session_id,
                        database_name.as_str(),
                        schema_name.as_str(),
                        view_name.as_str(),
                        MySqlLockKind::MetadataWrite,
                    ),
                ),
            ),
            QueryPlan::CreateTable {
                database_name,
                schema_name,
                schema,
                auto_increment_start,
                indexes,
            } => Ok(
                one_lock(
                    mysql_statement_lock(
                        session_id,
                        database_name.as_str(),
                        schema_name.as_str(),
                        schema.table_name.as_str(),
                        MySqlLockKind::MetadataWrite,
                    ),
                ),
            ),
            QueryPlan::CreateTableAs { database_name, schema_name, schema, rows } => Ok(
                one_lock(
                    mysql_statement_lock(
                        session_id,
                        database_name.as_str(),
                        schema_name.as_str(),
                        schema.table_name.as_str(),
                        MySqlLockKind::MetadataWrite,
                    ),
                ),
            ),
            QueryPlan::InsertRows {
                database_name,
                schema_name,
                schema,
                rows,
                on_conflict,
                returning,
            } => {
                let indexes = match self.catalog.list_indexes_for_table(schema.table_id) {
                    Err(e) => {
                        return Err(e);
                    },
                    Ok(indexes) => indexes,
                };
                let target = LockTarget {
                    session_id,
                    database_name: database_name.as_str(),
                    schema_name: schema_name.as_str(),
                    table_name: schema.table_name.as_str(),
                    floats,
                };
                let mut locks = insert_row_locks(
                    &target,
                    schema.primary_key.as_str(),
                    rows,
                    &indexes,
                );
                add_metadata_read_lock(
                    &mut locks,
                    session_id,
                    database_name.as_str(),
                    schema_name.as_str(),
                    schema.table_name.as_str(),
                );
                Ok(locks)
            },
            QueryPlan::SelectRows {
                database_name,
                schema_name,
                schema,
                projection,
                access,
                limit,
                offset,
            } => {
                if !locking_read {
                    let none: Vec<MySqlLock> = Vec::new();
                    assert(views(none@) =~= Seq::<LockModel>::empty());
                    return Ok(none);
                }
                let target = LockTarget {
                    session_id,
                    database_name: database_name.as_str(),
                    schema_name: schema_name.as_str(),
                    table_name: schema.table_name.as_str(),
                    floats,
                };
                let mut locks = read_access_locks(&target, access, visible, found);
                add_metadata_read_lock(
                    &mut locks,
                    session_id,
                    database_name.as_str(),
                    schema_name.as_str(),
                    schema.table_name.as_str(),
                );
                Ok(locks)
            },
            QueryPlan::UpdateRows {
                database_name,
                schema_name,
                schema,
                assignments,
                access,
                limit,
                order_by_primary_key,
                returning,
            } => {
                let target = LockTarget {
                    session_id,
                    database_name: database_name.as_str(),
                    schema_name: schema_name.as_str(),
                    table_name: schema.table_name.as_str(),
                    floats,
                };
                let mut locks = write_access_locks(&target, access, visible, found);
                add_metadata_read_lock(
                    &mut locks,
                    session_id,
                    database_name.as_str(),
                    schema_name.as_str(),
                    schema.table_name.as_str(),
                );
                Ok(locks)
            },
            QueryPlan::DeleteRows {
                database_name,
                schema_name,
                schema,
                access,
                limit,
                order_by_primary_key,
                returning,
            } => {
                let target = LockTarget {
                    session_id,
                    database_name: database_name.as_str(),
                    schema_name: schema_name.as_str(),
                    table_name: schema.table_name.as_str(),
                    floats,
                };
                let mut locks = write_access_locks(&target, access, visible, found);
                add_metadata_read_lock(
                    &mut locks,
                    session_id,
                    database_name.as_str(),
                    schema_name.as_str(),
                    schema.table_name.as_str(),
                );
                Ok(locks)
            },
            QueryPlan::AlterTableAddPrimaryKey {
                database_name,
                schema_name,
                table_name,
                column_name,
            } => Ok(
                one_lock(
                    mysql_statement_lock(
                        session_id,
                        database_name.as_str(),
                        schema_name.as_str(),
                        table_name.as_str(),
                        MySqlLockKind::MetadataWrite,
                    ),
                ),
            ),
            QueryPlan::AlterTable { database_name, schema_name, table_name, operations } => Ok(
                one_lock(
                    mysql_statement_lock(
                        session_id,
                        database_name.as_str(),
                        schema_name.as_str(),
                        table_name.as_str(),
                        MySqlLockKind::MetadataWrite,
                    ),
                ),
            ),
            QueryPlan::CreateIndex {
                database_name,
                schema_name,
                table_name,
                index_name,
                column_names,
                unique,
                if_not_exists,
            } => {
                let first = mysql_statement_lock(
                    session_id,
                    database_name.as_str(),
                    schema_name.as_str(),
                    table_name.as_str(),
                    MySqlLockKind::MetadataWrite,
                );
                let second = mysql_index_lock(
                    session_id,
                    database_name.as_str(),
                    schema_name.as_str(),
                    index_name.as_str(),
                    MySqlLockKind::MetadataWrite,
                );
                let ghost a = first@;
                let ghost b = second@;
                let mut locks: Vec<MySqlLock> = Vec::new();
                locks.push(first);
                locks.push(second);
                assert(views(locks@) =~= seq![a, b]);
                Ok(locks)
            },
            QueryPlan::DropTables { database_name, tables, if_exists } => Ok(
                object_locks_of(session_id, MySqlLockScope::Table, database_name.as_str(), tables),
            ),
            QueryPlan::DropIndexes { database_name, indexes, if_exists } => {
                self.drop_index_lock_targets(session_id, database_name.as_str(), indexes)
            },
            QueryPlan::DropSequences { database_name, sequences, if_exists } => Ok(
                object_locks_of(
                    session_id,
                    MySqlLockScope::Sequence,
                    database_name.as_str(),
                    sequences,
                ),
            ),
            QueryPlan::DropViews { database_name, views, if_exists } => Ok(
                object_locks_of(session_id, MySqlLockScope::View, database_name.as_str(), views),
            ),
            QueryPlan::DropSchemas { database_name, schemas, if_exists } => Ok(
                schema_locks_of(session_id, database_name.as_str(), schemas),
            ),
            QueryPlan::DropDatabases { databases, if_exists } => Ok(
                database_locks_of(session_id, databases),
            ),
            QueryPlan::TruncateTables { database_name, tables } => Ok(
                truncate_locks_of(session_id, database_name.as_str(), tables),
            ),
            _ => {
                let none: Vec<MySqlLock> = Vec::new();
                assert(views(none@) =~= Seq::<LockModel>::empty());
                Ok(none)
            },
        }
    }
}

proof fn lemma_error_stays(
    contents: Contents,
    session_id: i32,
    database_name: Seq<char>,
    database: Option<DatabaseModel>,
    indexes: Seq<QualifiedModel>,
    from: int,
)
    requires
        0 <= from <= indexes.len(),
    ensures
        drop_index_locks(contents, session_id, database_name, database, indexes.take(from)) is Err
            ==> drop_index_locks(contents, session_id, database_name, database, indexes)
            == drop_index_locks(contents, session_id, database_name, database, indexes.take(from)),
    decreases indexes.len() - from,
{
    if from == indexes.len() {
        assert(indexes.take(from) =~= indexes);
    } else {
        lemma_error_stays(contents, session_id, database_name, database, indexes, from + 1);
        assert(indexes.take(from + 1).drop_last() =~= indexes.take(from));
    }
}

fn schema_locks_of(session_id: i32, database_name: &str, schemas: &Vec<String>) -> (locks: Vec<
    MySqlLock,
>)
    ensures
        views(locks@) == views(schemas@).map_values(
            |name: Seq<char>|
                ddl_lock(session_id, MySqlLockScope::Schema, database_name@, name, seq![]),
        ),
{
    let ghost names = views(schemas@);
    let mut locks: Vec<MySqlLock> = Vec::new();
    let mut i: usize = 0;
    while i < schemas.len()
        invariant
            i <= schemas@.len(),
            names == views(schemas@),
            locks@.len() == i,
            forall|k: int|
                0 <= k < i ==> (#[trigger] locks@[k])@ == ddl_lock(
                    session_id,
                    MySqlLockScope::Schema,
                    database_name@,
                    names[k],
                    seq![],
                ),
        decreases schemas@.len() - i,
    {
        assert(names[i as int] == schemas@[i as int]@);
        locks.push(
            mysql_schema_lock(
                session_id,
                database_name,
                schemas[i].as_str(),
                MySqlLockKind::MetadataWrite,
            ),
        );
        i += 1;
    }
    assert(views(locks@) =~= names.map_values(
        |name: Seq<char>|
            ddl_lock(session_id, MySqlLockScope::Schema, database_name@, name, seq![]),
    ));
    locks
}

fn database_locks_of(session_id: i32, databases: &Vec<String>) -> (locks: Vec<MySqlLock>)
    ensures
        views(locks@) == views(databases@).map_values(
            |name: Seq<char>| ddl_lock(session_id, MySqlLockScope::Database, name, seq![], seq![]),
        ),
{
    let ghost names = views(databases@);
    let mut locks: Vec<MySqlLock> = Vec::new();
    let mut i: usize = 0;
    while i < databases.len()
        invariant
            i <= databases@.len(),
            names == views(databases@),
            locks@.len() == i,
            forall|k: int|
                0 <= k < i ==> (#[trigger] locks@[k])@ == ddl_lock(
                    session_id,
                    MySqlLockScope::Database,
                    names[k],
                    seq![],
                    seq![],
                ),
        decreases databases@.len() - i,
    {
        assert(names[i as int] == databases@[i as int]@);
        locks.push(
            mysql_database_lock(session_id, databases[i].as_str(), MySqlLockKind::MetadataWrite),
        );
        i += 1;
    }
    assert(views(locks@) =~= names.map_values(
        |name: Seq<char>| ddl_lock(session_id, MySqlLockScope::Database, name, seq![], seq![]),
    ));
    locks
}

fn truncate_locks_of(session_id: i32, database_name: &str, tables: &Vec<ScopedTable>) -> (locks:
    Vec<MySqlLock>)
    ensures
        views(locks@) == views(tables@).map_values(
            |table: ScopedModel|
                ddl_lock(
                    session_id,
                    MySqlLockScope::Table,
                    database_name@,
                    table.schema_name,
                    table.schema.table_name,
                ),
        ),
{
    let ghost all = views(tables@);
    let mut locks: Vec<MySqlLock> = Vec::new();
    let mut i: usize = 0;
    while i < tables.len()
        invariant
            i <= tables@.len(),
            all == views(tables@),
            locks@.len() == i,
            forall|k: int|
                0 <= k < i ==> (#[trigger] locks@[k])@ == ddl_lock(
                    session_id,
                    MySqlLockScope::Table,
                    database_name@,
                    all[k].schema_name,
                    all[k].schema.table_name,
                ),
        decreases tables@.len() - i,
    {
        assert(all[i as int] == tables@[i as int]@);
        locks.push(
            mysql_statement_lock(
                session_id,
                database_name,
                tables[i].schema_name.as_str(),
                tables[i].schema.table_name.as_str(),
                MySqlLockKind::MetadataWrite,
            ),
        );
        i += 1;
    }
    assert(views(locks@) =~= all.map_values(
        |table: ScopedModel|
            ddl_lock(
                session_id,
                MySqlLockScope::Table,
                database_name@,
                table.schema_name,
                table.schema.table_name,
            ),
    ));
    locks
}

} // verus!
