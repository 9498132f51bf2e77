//! Locks of MySQL sessions: which of them conflict, who waits for whom, and when a wait
//! would never end.
use vstd::prelude::*;
use vstd::utf8::encode_utf8;

use crate::schema::{duplicate_option, option_view, views, Duplicate};
use crate::server::literals::{float_form, float_form_of, FloatText, FloatTextModel};
use crate::sorting::{is_text_less, law_text_order_is_strict, order_of, text_less};
use crate::text::{begins, begins_with, chars_of, decimal, lower, lower_text};
use crate::text::{push_decimal, signed_decimal, signed_decimal_text, three_texts};
use crate::types::{ColumnValue, Datum};

verus! {

/// What kind of object a lock is on.
#[derive(Debug, Clone, Copy, PartialEq, Eq, Structural)]
pub enum MySqlLockScope {
    Database,
    Schema,
    Table,
    Index,
    View,
    Sequence,
}

/// How long a lock is held.
#[derive(Debug, Clone, Copy, PartialEq, Eq, Structural)]
pub enum MySqlLockDuration {
    Statement,
    Transaction,
}

/// Who goes first in the queue.
#[derive(Debug, Clone, Copy, PartialEq, Eq, Structural)]
pub enum MySqlLockPriority {
    Normal,
    High,
}

/// What a lock protects. A range holds its lower bound and not its upper one.
#[derive(Debug)]
pub enum MySqlLockKind {
    MetadataRead,
    MetadataWrite,
    Table,
    Record(String),
    Gap { lower: Option<String>, upper: Option<String> },
    NextKey { lower: Option<String>, upper: Option<String> },
    InsertIntention(String),
    IndexRecord { index_name: String, value: String },
    IndexGap { index_name: String, lower: Option<String>, upper: Option<String> },
    IndexNextKey { index_name: String, lower: Option<String>, upper: Option<String> },
    IndexInsertIntention { index_name: String, value: String },
}

/// What a [`MySqlLockKind`] says.
pub enum KindModel {
    MetadataRead,
    MetadataWrite,
    Table,
    Record(Seq<char>),
    Gap { lower: Option<Seq<char>>, upper: Option<Seq<char>> },
    NextKey { lower: Option<Seq<char>>, upper: Option<Seq<char>> },
    InsertIntention(Seq<char>),
    IndexRecord { index_name: Seq<char>, value: Seq<char> },
    IndexGap { index_name: Seq<char>, lower: Option<Seq<char>>, upper: Option<Seq<char>> },
    IndexNextKey { index_name: Seq<char>, lower: Option<Seq<char>>, upper: Option<Seq<char>> },
    IndexInsertIntention { index_name: Seq<char>, value: Seq<char> },
}

impl View for MySqlLockKind {
    type V = KindModel;

    open spec fn view(&self) -> KindModel {
        match *self {
            MySqlLockKind::MetadataRead => KindModel::MetadataRead,
            MySqlLockKind::MetadataWrite => KindModel::MetadataWrite,
            MySqlLockKind::Table => KindModel::Table,
            MySqlLockKind::Record(value) => KindModel::Record(value@),
            MySqlLockKind::Gap { lower, upper } => KindModel::Gap {
                lower: option_view(lower),
                upper: option_view(upper),
            },
            MySqlLockKind::NextKey { lower, upper } => KindModel::NextKey {
                lower: option_view(lower),
                upper: option_view(upper),
            },
            MySqlLockKind::InsertIntention(value) => KindModel::InsertIntention(value@),
            MySqlLockKind::IndexRecord { index_name, value } => KindModel::IndexRecord {
                index_name: index_name@,
                value: value@,
            },
            MySqlLockKind::IndexGap { index_name, lower, upper } => KindModel::IndexGap {
                index_name: index_name@,
                lower: option_view(lower),
                upper: option_view(upper),
            },
            MySqlLockKind::IndexNextKey { index_name, lower, upper } => KindModel::IndexNextKey {
                index_name: index_name@,
                lower: option_view(lower),
                upper: option_view(upper),
            },
            MySqlLockKind::IndexInsertIntention { index_name, value } => {
                KindModel::IndexInsertIntention { index_name: index_name@, value: value@ }
            },
        }
    }
}

impl Duplicate for MySqlLockKind {
    fn duplicate(&self) -> (copy: Self) {
        match self {
            MySqlLockKind::MetadataRead => MySqlLockKind::MetadataRead,
            MySqlLockKind::MetadataWrite => MySqlLockKind::MetadataWrite,
            MySqlLockKind::Table => MySqlLockKind::Table,
            MySqlLockKind::Record(value) => MySqlLockKind::Record(value.clone()),
            MySqlLockKind::Gap { lower, upper } => MySqlLockKind::Gap {
                lower: duplicate_option(lower),
                upper: duplicate_option(upper),
            },
            MySqlLockKind::NextKey { lower, upper } => MySqlLockKind::NextKey {
                lower: duplicate_option(lower),
                upper: duplicate_option(upper),
            },
            MySqlLockKind::InsertIntention(value) => MySqlLockKind::InsertIntention(value.clone()),
            MySqlLockKind::IndexRecord { index_name, value } => MySqlLockKind::IndexRecord {
                index_name: index_name.clone(),
                value: value.clone(),
            },
            MySqlLockKind::IndexGap { index_name, lower, upper } => MySqlLockKind::IndexGap {
                index_name: index_name.clone(),
                lower: duplicate_option(lower),
                upper: duplicate_option(upper),
            },
            MySqlLockKind::IndexNextKey { index_name, lower, upper } => {
                MySqlLockKind::IndexNextKey {
                    index_name: index_name.clone(),
                    lower: duplicate_option(lower),
                    upper: duplicate_option(upper),
                }
            },
            MySqlLockKind::IndexInsertIntention { index_name, value } => {
                MySqlLockKind::IndexInsertIntention {
                    index_name: index_name.clone(),
                    value: value.clone(),
                }
            },
        }
    }
}

/// A lock that a session holds or asks for.
#[derive(Debug)]
pub struct MySqlLock {
    pub owner: i32,
    pub scope: MySqlLockScope,
    pub duration: MySqlLockDuration,
    pub database_name: String,
    pub schema_name: String,
    pub table_name: String,
    pub kind: MySqlLockKind,
}

/// What a [`MySqlLock`] says.
pub struct LockModel {
    pub owner: i32,
    pub scope: MySqlLockScope,
    pub duration: MySqlLockDuration,
    pub database_name: Seq<char>,
    pub schema_name: Seq<char>,
    pub table_name: Seq<char>,
    pub kind: KindModel,
}

impl View for MySqlLock {
    type V = LockModel;

    open spec fn view(&self) -> LockModel {
        LockModel {
            owner: self.owner,
            scope: self.scope,
            duration: self.duration,
            database_name: self.database_name@,
            schema_name: self.schema_name@,
            table_name: self.table_name@,
            kind: self.kind@,
        }
    }
}

impl Duplicate for MySqlLock {
    fn duplicate(&self) -> (copy: Self) {
        MySqlLock {
            owner: self.owner,
            scope: self.scope,
            duration: self.duration,
            database_name: self.database_name.clone(),
            schema_name: self.schema_name.clone(),
            table_name: self.table_name.clone(),
            kind: self.kind.duplicate(),
        }
    }
}

/// A session in the queue, with the locks it asks for.
#[derive(Debug)]
pub struct MySqlLockWaiter {
    pub session_id: i32,
    pub priority: MySqlLockPriority,
    pub locks: Vec<MySqlLock>,
}

/// What a [`MySqlLockWaiter`] says.
pub struct WaiterModel {
    pub session_id: i32,
    pub priority: MySqlLockPriority,
    pub locks: Seq<LockModel>,
}

impl View for MySqlLockWaiter {
    type V = WaiterModel;

    open spec fn view(&self) -> WaiterModel {
        WaiterModel {
            session_id: self.session_id,
            priority: self.priority,
            locks: views(self.locks@),
        }
    }
}

/// What the `Debug` form of `str` is: the text in double quotes, with escapes.
pub uninterp spec fn debug_text(text: Seq<char>) -> Seq<char>;

/// The `Debug` form of `str`, which `format!("{:?}")` writes; it is a function of the text.
#[verifier::external_body]
fn write_debug(text: &str) -> (form: String)
    ensures
        form@ == debug_text(text@),
{
    format!("{:?}", text)
}

/// Numbers in brackets, with commas between them.
pub open spec fn byte_list(bytes: Seq<u8>) -> Seq<char>
    decreases bytes.len(),
{
    if bytes.len() == 0 {
        seq![]
    } else if bytes.len() == 1 {
        decimal(bytes[0] as nat)
    } else {
        byte_list(bytes.drop_last()) + ", "@ + decimal(bytes.last() as nat)
    }
}

/// The forms of values, with commas between them.
pub open spec fn value_list(values: Seq<Datum>, floats: Seq<FloatTextModel>) -> Seq<char>
    decreases values,
{
    if values.len() == 0 {
        seq![]
    } else if values.len() == 1 {
        value_form(values[0], floats)
    } else {
        value_list(values.drop_last(), floats) + ", "@ + value_form(values.last(), floats)
    }
}

/// The form that a value has in locks: the name of its kind with its contents in brackets. The
/// floating-point numbers come with the text that each is written by.
pub open spec fn value_form(value: Datum, floats: Seq<FloatTextModel>) -> Seq<char>
    decreases value,
{
    match value {
        Datum::Null => "Null"@,
        Datum::Int16(v) => "Int16("@ + signed_decimal(v as int) + ")"@,
        Datum::Int32(v) => "Int32("@ + signed_decimal(v as int) + ")"@,
        Datum::Int64(v) => "Int64("@ + signed_decimal(v as int) + ")"@,
        Datum::Float32(v) => "Float32("@ + float_form(floats, v as u64, true) + ")"@,
        Datum::Float64(v) => "Float64("@ + float_form(floats, v, false) + ")"@,
        Datum::Numeric(v) => "Numeric("@ + debug_text(v) + ")"@,
        Datum::Text(v) => "Text("@ + debug_text(v) + ")"@,
        Datum::Date(v) => "Date("@ + debug_text(v) + ")"@,
        Datum::Timestamp(v) => "Timestamp("@ + debug_text(v) + ")"@,
        Datum::TimestampTz(v) => "TimestampTz("@ + debug_text(v) + ")"@,
        Datum::Uuid(v) => "Uuid("@ + debug_text(v) + ")"@,
        Datum::Json(v) => "Json("@ + debug_text(v) + ")"@,
        Datum::Jsonb(v) => "Jsonb("@ + debug_text(v) + ")"@,
        Datum::Bytea(v) => "Bytea(["@ + byte_list(v) + "])"@,
        Datum::Boolean(v) => "Boolean("@ + (if v {
            "true"@
        } else {
            "false"@
        }) + ")"@,
        Datum::Array(items) => "Array(["@ + value_list(items, floats) + "])"@,
    }
}

fn byte_list_text(bytes: &Vec<u8>) -> (text: String)
    ensures
        text@ == byte_list(bytes@),
{
    let mut text = String::new();
    let mut i: usize = 0;
    assert(bytes@.take(0) =~= Seq::<u8>::empty());
    assert(text@ =~= byte_list(bytes@.take(0)));
    while i < bytes.len()
        invariant
            i <= bytes@.len(),
            text@ == byte_list(bytes@.take(i as int)),
        decreases bytes@.len() - i,
    {
        let ghost before = text@;
        assert(bytes@.take(i + 1).drop_last() =~= bytes@.take(i as int));
        if i > 0 {
            text.push_str(", ");
        }
        push_decimal(&mut text, bytes[i] as u64);
        proof {
            if i == 0 {
                assert(text@ =~= decimal(bytes@[0] as nat));
            }
        }
        i += 1;
    }
    assert(bytes@.take(i as int) =~= bytes@);
    text
}

/// The form that a value has in locks; `floats` holds the texts of floating-point numbers.
pub fn normalize_mysql_lock_value(value: &ColumnValue, floats: &Vec<FloatText>) -> (form: String)
    ensures
        form@ == value_form(value@, views(floats@)),
    decreases value,
{
    match value {
        ColumnValue::Null => "Null".to_string(),
        ColumnValue::Int16(v) => three_texts("Int16(", signed_decimal_text(*v as i64).as_str(), ")"),
        ColumnValue::Int32(v) => three_texts("Int32(", signed_decimal_text(*v as i64).as_str(), ")"),
        ColumnValue::Int64(v) => three_texts("Int64(", signed_decimal_text(*v).as_str(), ")"),
        ColumnValue::Float32(v) => three_texts(
            "Float32(",
            float_form_of(floats, *v as u64, true).as_str(),
            ")",
        ),
        ColumnValue::Float64(v) => three_texts(
            "Float64(",
            float_form_of(floats, *v, false).as_str(),
            ")",
        ),
        ColumnValue::Numeric(v) => three_texts("Numeric(", write_debug(v.as_str()).as_str(), ")"),
        ColumnValue::Text(v) => three_texts("Text(", write_debug(v.as_str()).as_str(), ")"),
        ColumnValue::Date(v) => three_texts("Date(", write_debug(v.as_str()).as_str(), ")"),
        ColumnValue::Timestamp(v) => three_texts(
            "Timestamp(",
            write_debug(v.as_str()).as_str(),
            ")",
        ),
        ColumnValue::TimestampTz(v) => three_texts(
            "TimestampTz(",
            write_debug(v.as_str()).as_str(),
            ")",
        ),
        ColumnValue::Uuid(v) => three_texts("Uuid(", write_debug(v.as_str()).as_str(), ")"),
        ColumnValue::Json(v) => three_texts("Json(", write_debug(v.as_str()).as_str(), ")"),
        ColumnValue::Jsonb(v) => three_texts("Jsonb(", write_debug(v.as_str()).as_str(), ")"),
        ColumnValue::Bytea(v) => three_texts("Bytea([", byte_list_text(v).as_str(), "])"),
        ColumnValue::Boolean(v) => if *v {
            three_texts("Boolean(", "true", ")")
        } else {
            three_texts("Boolean(", "false", ")")
        },
        ColumnValue::Array(items) => {
            let mut text = String::new();
            let ghost all = value@->Array_0;
            let mut i: usize = 0;
            assert(all.take(0) =~= Seq::<Datum>::empty());
            assert(text@ =~= value_list(all.take(0), views(floats@)));
            while i < items.len()
                invariant
                    i <= items@.len(),
                    value is Array,
                    *items == value->Array_0,
                    all == value@->Array_0,
                    text@ == value_list(all.take(i as int), views(floats@)),
                decreases items@.len() - i,
            {
                assert(all.take(i + 1).drop_last() =~= all.take(i as int));
                assert(all[i as int] == items@[i as int]@);
                if i > 0 {
                    text.push_str(", ");
                }
                text.push_str(normalize_mysql_lock_value(&items[i], floats).as_str());
                proof {
                    if i == 0 {
                        assert(text@ =~= value_form(all[0], views(floats@)));
                    }
                }
                i += 1;
            }
            assert(all.take(i as int) =~= all);
            three_texts("Array([", text.as_str(), "])")
        },
    }
}

/// The form that a value has in locks on an index.
pub open spec fn index_value_form(
    index_name: Seq<char>,
    value: Datum,
    floats: Seq<FloatTextModel>,
) -> Seq<char> {
    lower(index_name) + "="@ + value_form(value, floats)
}

/// The form that a value has in locks on an index.
pub fn normalize_mysql_index_lock_value(
    index_name: &str,
    value: &ColumnValue,
    floats: &Vec<FloatText>,
) -> (form: String)
    ensures
        form@ == index_value_form(index_name@, value@, views(floats@)),
{
    three_texts(
        lower_text(index_name).as_str(),
        "=",
        normalize_mysql_lock_value(value, floats).as_str(),
    )
}

/// Whether a value stands in a range.
pub open spec fn in_range(
    lower: Option<Seq<char>>,
    upper: Option<Seq<char>>,
    value: Seq<char>,
) -> bool {
    &&& lower matches Some(bound) ==> !text_less(value, bound)
    &&& upper matches Some(bound) ==> text_less(value, bound)
}

/// Whether a value stands in a range.
pub fn mysql_range_contains_value(
    lower: &Option<String>,
    upper: &Option<String>,
    value: &str,
) -> (answer: bool)
    ensures
        answer == in_range(option_view(*lower), option_view(*upper), value@),
{
    let above = match lower {
        Some(bound) => !is_text_less(value, bound.as_str()),
        None => true,
    };
    let below = match upper {
        Some(bound) => is_text_less(value, bound.as_str()),
        None => true,
    };
    above && below
}

/// Whether a range ends before another one starts.
pub open spec fn ends_before(upper: Option<Seq<char>>, lower: Option<Seq<char>>) -> bool {
    match (upper, lower) {
        (Some(upper), Some(lower)) => !text_less(lower, upper),
        _ => false,
    }
}

/// Whether neither of two ranges ends before the other one starts.
pub open spec fn ranges_overlap(
    left_lower: Option<Seq<char>>,
    left_upper: Option<Seq<char>>,
    right_lower: Option<Seq<char>>,
    right_upper: Option<Seq<char>>,
) -> bool {
    !ends_before(left_upper, right_lower) && !ends_before(right_upper, left_lower)
}

proof fn lemma_text_order(a: Seq<char>, b: Seq<char>, c: Seq<char>)
    ensures
        text_less(a, b) && text_less(b, c) ==> text_less(a, c),
        !text_less(b, a) && text_less(b, c) ==> text_less(a, c),
        text_less(a, b) && !text_less(c, b) ==> text_less(a, c),
        !(text_less(a, b) && text_less(b, a)),
        !text_less(a, a),
{
    law_text_order_is_strict();
    let before = order_of::<String>();
    assert(before(a, b) == text_less(a, b));
    assert(before(b, a) == text_less(b, a));
    assert(before(b, c) == text_less(b, c));
    assert(before(a, c) == text_less(a, c));
    assert(before(c, b) == text_less(c, b));
    assert(before(a, a) == text_less(a, a));
    assert(before(c, a) == text_less(c, a));
}

/// Whether a range holds anything.
pub open spec fn holds_any(lower: Option<Seq<char>>, upper: Option<Seq<char>>) -> bool {
    exists|value: Seq<char>| in_range(lower, upper, value)
}

/// The least text that stands above an end.
spec fn least_above(lower: Option<Seq<char>>) -> Seq<char> {
    match lower {
        Some(bound) => bound,
        None => seq![],
    }
}

proof fn lemma_least_in_range(lower: Option<Seq<char>>, upper: Option<Seq<char>>)
    requires
        holds_any(lower, upper),
    ensures
        in_range(lower, upper, least_above(lower)),
{
    let value = choose|value: Seq<char>| in_range(lower, upper, value);
    let least = least_above(lower);
    lemma_text_order(least, least, least);
    if let Some(bound) = upper {
        lemma_text_order(least, value, bound);
        assert(encode_utf8(Seq::<char>::empty()).len() == 0);
    }
}

/// Two ranges that hold anything overlap exactly where they have a value in common.
pub proof fn law_ranges_overlap_where_they_meet(
    left_lower: Option<Seq<char>>,
    left_upper: Option<Seq<char>>,
    right_lower: Option<Seq<char>>,
    right_upper: Option<Seq<char>>,
)
    requires
        holds_any(left_lower, left_upper),
        holds_any(right_lower, right_upper),
    ensures
        ranges_overlap(left_lower, left_upper, right_lower, right_upper) <==> exists|
            value: Seq<char>,
        | #[trigger]
            in_range(left_lower, left_upper, value) && in_range(right_lower, right_upper, value),
{
    if exists|value: Seq<char>| #[trigger]
        in_range(left_lower, left_upper, value) && in_range(right_lower, right_upper, value) {
        let value = choose|value: Seq<char>| #[trigger]
            in_range(left_lower, left_upper, value) && in_range(right_lower, right_upper, value);
        lemma_text_order(least_above(right_lower), value, least_above(left_upper));
        lemma_text_order(least_above(left_lower), value, least_above(right_upper));
    }
    if ranges_overlap(left_lower, left_upper, right_lower, right_upper) {
        lemma_least_in_range(left_lower, left_upper);
        lemma_least_in_range(right_lower, right_upper);
        let left = least_above(left_lower);
        let right = least_above(right_lower);
        lemma_text_order(left, right, left);
        assert(encode_utf8(Seq::<char>::empty()).len() == 0);
        if text_less(left, right) {
            if let Some(bound) = left_upper {
                lemma_text_order(left, right, bound);
            }
            assert(in_range(left_lower, left_upper, right));
        } else {
            assert(in_range(right_lower, right_upper, left));
        }
    }
}

fn does_end_before(upper: &Option<String>, lower: &Option<String>) -> (answer: bool)
    ensures
        answer == ends_before(option_view(*upper), option_view(*lower)),
{
    match (upper, lower) {
        (Some(upper), Some(lower)) => !is_text_less(lower.as_str(), upper.as_str()),
        _ => false,
    }
}

/// Whether two ranges overlap.
pub fn mysql_ranges_overlap(
    left_lower: &Option<String>,
    left_upper: &Option<String>,
    right_lower: &Option<String>,
    right_upper: &Option<String>,
) -> (answer: bool)
    ensures
        answer == ranges_overlap(
            option_view(*left_lower),
            option_view(*left_upper),
            option_view(*right_lower),
            option_view(*right_upper),
        ),
{
    !does_end_before(left_upper, right_lower) && !does_end_before(right_upper, left_lower)
}

/// Whether a value of an index stands in a range of it.
pub open spec fn index_in_range(
    index_name: Seq<char>,
    value: Seq<char>,
    lower: Option<Seq<char>>,
    upper: Option<Seq<char>>,
) -> bool {
    begins(value, index_name + "="@) && in_range(lower, upper, value)
}

/// Whether a value of an index stands in a range of it.
pub fn mysql_index_value_in_range(
    index_name: &str,
    value: &str,
    lower: &Option<String>,
    upper: &Option<String>,
) -> (answer: bool)
    ensures
        answer == index_in_range(index_name@, value@, option_view(*lower), option_view(*upper)),
{
    let start = three_texts(index_name, "=", "");
    proof {
        reveal_strlit("");
        assert(start@ =~= index_name@ + "="@);
    }
    let chars = chars_of(value);
    begins_with(chars.as_slice(), start.as_str()) && mysql_range_contains_value(lower, upper, value)
}

/// Whether two locks are on one object, or one of them is on what holds the other's.
pub open spec fn scopes_overlap(a: LockModel, b: LockModel) -> bool {
    &&& a.database_name == b.database_name
    &&& a.scope == MySqlLockScope::Database || b.scope == MySqlLockScope::Database || (
    a.schema_name == b.schema_name && (a.scope == MySqlLockScope::Schema || b.scope
        == MySqlLockScope::Schema || (a.scope == b.scope && a.table_name == b.table_name)))
}

/// Whether two locks are on one object, or one of them is on what holds the other's.
pub fn mysql_object_scopes_overlap(existing: &MySqlLock, requested: &MySqlLock) -> (answer: bool)
    ensures
        answer == scopes_overlap(existing@, requested@),
{
    if existing.database_name != requested.database_name {
        return false;
    }
    if existing.scope == MySqlLockScope::Database || requested.scope == MySqlLockScope::Database {
        return true;
    }
    if existing.schema_name != requested.schema_name {
        return false;
    }
    if existing.scope == MySqlLockScope::Schema || requested.scope == MySqlLockScope::Schema {
        return true;
    }
    existing.scope == requested.scope && existing.table_name == requested.table_name
}

/// Where in a table a lock on rows stands.
pub enum Spot {
    Held(Seq<char>),
    Insert(Seq<char>),
    Range(Option<Seq<char>>, Option<Seq<char>>),
}

/// The rows that a lock on rows is on: in an index, where it names one.
pub open spec fn place(kind: KindModel) -> (Option<Seq<char>>, Spot) {
    match kind {
        KindModel::Record(value) => (None, Spot::Held(value)),
        KindModel::InsertIntention(value) => (None, Spot::Insert(value)),
        KindModel::Gap { lower, upper } => (None, Spot::Range(lower, upper)),
        KindModel::NextKey { lower, upper } => (None, Spot::Range(lower, upper)),
        KindModel::IndexRecord { index_name, value } => (Some(index_name), Spot::Held(value)),
        KindModel::IndexInsertIntention { index_name, value } => (
            Some(index_name),
            Spot::Insert(value),
        ),
        KindModel::IndexGap { index_name, lower, upper } => (
            Some(index_name),
            Spot::Range(lower, upper),
        ),
        KindModel::IndexNextKey { index_name, lower, upper } => (
            Some(index_name),
            Spot::Range(lower, upper),
        ),
        _ => (None, Spot::Range(None, None)),
    }
}

/// Whether a value stands in a range of the table or of one of its indexes.
pub open spec fn value_in_range(
    index: Option<Seq<char>>,
    value: Seq<char>,
    lower: Option<Seq<char>>,
    upper: Option<Seq<char>>,
) -> bool {
    match index {
        Some(index_name) => index_in_range(index_name, value, lower, upper),
        None => in_range(lower, upper, value),
    }
}

/// Whether two places have rows in common that both may not have: one row held twice, a row
/// in a range, two ranges that overlap. Two sessions may insert at one place.
pub open spec fn places_conflict(
    a: (Option<Seq<char>>, Spot),
    b: (Option<Seq<char>>, Spot),
) -> bool {
    a.0 == b.0 && match (a.1, b.1) {
        (Spot::Held(x), Spot::Held(y)) => x == y,
        (Spot::Range(x, y), Spot::Range(v, w)) => ranges_overlap(x, y, v, w),
        (Spot::Range(x, y), Spot::Held(v)) => value_in_range(a.0, v, x, y),
        (Spot::Range(x, y), Spot::Insert(v)) => value_in_range(a.0, v, x, y),
        (Spot::Held(v), Spot::Range(x, y)) => value_in_range(a.0, v, x, y),
        (Spot::Insert(v), Spot::Range(x, y)) => value_in_range(a.0, v, x, y),
        _ => false,
    }
}

/// Whether a kind of lock stands in the way of another on one object. Reading the description
/// of a table only stands against writing it; writing it, and locking the whole table, stands
/// against everything else.
pub open spec fn kinds_conflict(a: KindModel, b: KindModel) -> bool {
    if a is MetadataRead {
        b is MetadataWrite
    } else if b is MetadataRead {
        a is MetadataWrite
    } else if a is MetadataWrite || b is MetadataWrite || a is Table || b is Table {
        true
    } else {
        places_conflict(place(a), place(b))
    }
}

/// Whether two locks cannot be held by two sessions at a time.
pub open spec fn locks_conflict(a: LockModel, b: LockModel) -> bool {
    scopes_overlap(a, b) && kinds_conflict(a.kind, b.kind)
}

/// Conflict goes both ways.
pub proof fn law_conflict_is_symmetric(a: LockModel, b: LockModel)
    ensures
        locks_conflict(a, b) == locks_conflict(b, a),
{
}

/// Locks that insert never stand in each other's way.
pub proof fn law_insertions_do_not_conflict(a: LockModel, b: LockModel)
    requires
        a.kind is InsertIntention || a.kind is IndexInsertIntention,
        b.kind is InsertIntention || b.kind is IndexInsertIntention,
    ensures
        !locks_conflict(a, b),
{
}

/// A lock that writes the description of an object stands against every lock on it.
pub proof fn law_metadata_write_is_exclusive(a: LockModel, b: LockModel)
    requires
        a.kind is MetadataWrite,
        scopes_overlap(a, b),
    ensures
        locks_conflict(a, b),
        locks_conflict(b, a),
{
}

/// Where a lock on rows stands.
enum SpotRef<'a> {
    Held(&'a String),
    Insert(&'a String),
    Range(&'a Option<String>, &'a Option<String>),
}

spec fn spot_view(spot: SpotRef) -> Spot {
    match spot {
        SpotRef::Held(v) => Spot::Held(v@),
        SpotRef::Insert(v) => Spot::Insert(v@),
        SpotRef::Range(x, y) => Spot::Range(option_view(*x), option_view(*y)),
    }
}

spec fn index_view(index: Option<&String>) -> Option<Seq<char>> {
    match index {
        Some(name) => Some(name@),
        None => None,
    }
}

fn place_of<'a>(kind: &'a MySqlLockKind) -> (found: Option<(Option<&'a String>, SpotRef<'a>)>)
    ensures
        found is None <==> kind@ is MetadataRead || kind@ is MetadataWrite || kind@ is Table,
        found matches Some(p) ==> place(kind@) == (index_view(p.0), spot_view(p.1)),
{
    match kind {
        MySqlLockKind::Record(value) => Some((None, SpotRef::Held(value))),
        MySqlLockKind::InsertIntention(value) => Some((None, SpotRef::Insert(value))),
        MySqlLockKind::Gap { lower, upper } => Some((None, SpotRef::Range(lower, upper))),
        MySqlLockKind::NextKey { lower, upper } => Some((None, SpotRef::Range(lower, upper))),
        MySqlLockKind::IndexRecord { index_name, value } => Some(
            (Some(index_name), SpotRef::Held(value)),
        ),
        MySqlLockKind::IndexInsertIntention { index_name, value } => Some(
            (Some(index_name), SpotRef::Insert(value)),
        ),
        MySqlLockKind::IndexGap { index_name, lower, upper } => Some(
            (Some(index_name), SpotRef::Range(lower, upper)),
        ),
        MySqlLockKind::IndexNextKey { index_name, lower, upper } => Some(
            (Some(index_name), SpotRef::Range(lower, upper)),
        ),
        _ => None,
    }
}

fn is_value_in_range(
    index: Option<&String>,
    value: &String,
    lower: &Option<String>,
    upper: &Option<String>,
) -> (answer: bool)
    ensures
        answer == value_in_range(
            index_view(index),
            value@,
            option_view(*lower),
            option_view(*upper),
        ),
{
    match index {
        Some(name) => mysql_index_value_in_range(name.as_str(), value.as_str(), lower, upper),
        None => mysql_range_contains_value(lower, upper, value.as_str()),
    }
}

/// Whether two locks cannot be held by two sessions at a time.
pub fn mysql_locks_conflict(existing: &MySqlLock, requested: &MySqlLock) -> (answer: bool)
    ensures
        answer == locks_conflict(existing@, requested@),
{
    if !mysql_object_scopes_overlap(existing, requested) {
        return false;
    }
    match (&existing.kind, &requested.kind) {
        (MySqlLockKind::MetadataRead, MySqlLockKind::MetadataWrite) => {
            return true;
        },
        (MySqlLockKind::MetadataRead, _) => {
            return false;
        },
        (MySqlLockKind::MetadataWrite, MySqlLockKind::MetadataRead) => {
            return true;
        },
        (_, MySqlLockKind::MetadataRead) => {
            return false;
        },
        _ => {},
    }
    let (held, asked) = match (place_of(&existing.kind), place_of(&requested.kind)) {
        (Some(held), Some(asked)) => (held, asked),
        _ => {
            return true;
        },
    };
    let same_index = match (held.0, asked.0) {
        (Some(a), Some(b)) => *a == *b,
        (None, None) => true,
        _ => false,
    };
    same_index && match (held.1, asked.1) {
        (SpotRef::Held(a), SpotRef::Held(b)) => *a == *b,
        (SpotRef::Range(a, b), SpotRef::Range(c, d)) => mysql_ranges_overlap(a, b, c, d),
        (SpotRef::Range(a, b), SpotRef::Held(v)) => is_value_in_range(held.0, v, a, b),
        (SpotRef::Range(a, b), SpotRef::Insert(v)) => is_value_in_range(held.0, v, a, b),
        (SpotRef::Held(v), SpotRef::Range(a, b)) => is_value_in_range(held.0, v, a, b),
        (SpotRef::Insert(v), SpotRef::Range(a, b)) => is_value_in_range(held.0, v, a, b),
        _ => false,
    }
}

/// A lock on an object of a schema, with names in small letters.
pub open spec fn lock_on(
    session_id: i32,
    scope: MySqlLockScope,
    duration: MySqlLockDuration,
    database_name: Seq<char>,
    schema_name: Seq<char>,
    object_name: Seq<char>,
    kind: KindModel,
) -> LockModel {
    LockModel {
        owner: session_id,
        scope,
        duration,
        database_name: lower(database_name),
        schema_name: lower(schema_name),
        table_name: lower(object_name),
        kind,
    }
}

/// A lock on a table that is held to the end of the transaction.
pub open spec fn table_lock(
    session_id: i32,
    database_name: Seq<char>,
    schema_name: Seq<char>,
    table_name: Seq<char>,
    kind: KindModel,
) -> LockModel {
    lock_on(
        session_id,
        MySqlLockScope::Table,
        MySqlLockDuration::Transaction,
        database_name,
        schema_name,
        table_name,
        kind,
    )
}

/// A lock that a statement holds while it changes the description of an object.
pub open spec fn ddl_lock(
    session_id: i32,
    scope: MySqlLockScope,
    database_name: Seq<char>,
    schema_name: Seq<char>,
    object_name: Seq<char>,
) -> LockModel {
    lock_on(
        session_id,
        scope,
        MySqlLockDuration::Statement,
        database_name,
        schema_name,
        object_name,
        KindModel::MetadataWrite,
    )
}

/// A lock on an object of a schema.
pub fn mysql_lock_with_duration(
    session_id: i32,
    scope: MySqlLockScope,
    duration: MySqlLockDuration,
    database_name: &str,
    schema_name: &str,
    object_name: &str,
    kind: MySqlLockKind,
) -> (lock: MySqlLock)
    ensures
        lock@ == lock_on(
            session_id,
            scope,
            duration,
            database_name@,
            schema_name@,
            object_name@,
            kind@,
        ),
{
    MySqlLock {
        owner: session_id,
        scope,
        duration,
        database_name: lower_text(database_name),
        schema_name: lower_text(schema_name),
        table_name: lower_text(object_name),
        kind,
    }
}

/// A lock on a table, held to the end of the transaction.
pub fn mysql_lock(
    session_id: i32,
    database_name: &str,
    schema_name: &str,
    table_name: &str,
    kind: MySqlLockKind,
) -> (lock: MySqlLock)
    ensures
        lock@ == table_lock(session_id, database_name@, schema_name@, table_name@, kind@),
{
    mysql_lock_with_duration(
        session_id,
        MySqlLockScope::Table,
        MySqlLockDuration::Transaction,
        database_name,
        schema_name,
        table_name,
        kind,
    )
}

/// A lock on a table, held to the end of the statement.
pub fn mysql_statement_lock(
    session_id: i32,
    database_name: &str,
    schema_name: &str,
    table_name: &str,
    kind: MySqlLockKind,
) -> (lock: MySqlLock)
    ensures
        lock@ == lock_on(
            session_id,
            MySqlLockScope::Table,
            MySqlLockDuration::Statement,
            database_name@,
            schema_name@,
            table_name@,
            kind@,
        ),
{
    mysql_lock_with_duration(
        session_id,
        MySqlLockScope::Table,
        MySqlLockDuration::Statement,
        database_name,
        schema_name,
        table_name,
        kind,
    )
}

/// A lock on a schema.
pub fn mysql_schema_lock(
    session_id: i32,
    database_name: &str,
    schema_name: &str,
    kind: MySqlLockKind,
) -> (lock: MySqlLock)
    ensures
        lock@ == lock_on(
            session_id,
            MySqlLockScope::Schema,
            MySqlLockDuration::Statement,
            database_name@,
            schema_name@,
            seq![],
            kind@,
        ),
{
    let lock = MySqlLock {
        owner: session_id,
        scope: MySqlLockScope::Schema,
        duration: MySqlLockDuration::Statement,
        database_name: lower_text(database_name),
        schema_name: lower_text(schema_name),
        table_name: String::new(),
        kind,
    };
    assert(lock@.table_name =~= lower(seq![]));
    lock
}

/// A lock on a database.
pub fn mysql_database_lock(session_id: i32, database_name: &str, kind: MySqlLockKind) -> (lock:
    MySqlLock)
    ensures
        lock@ == lock_on(
            session_id,
            MySqlLockScope::Database,
            MySqlLockDuration::Statement,
            database_name@,
            seq![],
            seq![],
            kind@,
        ),
{
    let lock = MySqlLock {
        owner: session_id,
        scope: MySqlLockScope::Database,
        duration: MySqlLockDuration::Statement,
        database_name: lower_text(database_name),
        schema_name: String::new(),
        table_name: String::new(),
        kind,
    };
    assert(lock@.table_name =~= lower(seq![]));
    assert(lock@.schema_name =~= lower(seq![]));
    lock
}

/// A lock on an index.
pub fn mysql_index_lock(
    session_id: i32,
    database_name: &str,
    schema_name: &str,
    index_name: &str,
    kind: MySqlLockKind,
) -> (lock: MySqlLock)
    ensures
        lock@ == lock_on(
            session_id,
            MySqlLockScope::Index,
            MySqlLockDuration::Statement,
            database_name@,
            schema_name@,
            index_name@,
            kind@,
        ),
{
    mysql_lock_with_duration(
        session_id,
        MySqlLockScope::Index,
        MySqlLockDuration::Statement,
        database_name,
        schema_name,
        index_name,
        kind,
    )
}

/// A lock on a view.
pub fn mysql_view_lock(
    session_id: i32,
    database_name: &str,
    schema_name: &str,
    view_name: &str,
    kind: MySqlLockKind,
) -> (lock: MySqlLock)
    ensures
        lock@ == lock_on(
            session_id,
            MySqlLockScope::View,
            MySqlLockDuration::Statement,
            database_name@,
            schema_name@,
            view_name@,
            kind@,
        ),
{
    mysql_lock_with_duration(
        session_id,
        MySqlLockScope::View,
        MySqlLockDuration::Statement,
        database_name,
        schema_name,
        view_name,
        kind,
    )
}

/// A lock on a sequence.
pub fn mysql_sequence_lock(
    session_id: i32,
    database_name: &str,
    schema_name: &str,
    sequence_name: &str,
    kind: MySqlLockKind,
) -> (lock: MySqlLock)
    ensures
        lock@ == lock_on(
            session_id,
            MySqlLockScope::Sequence,
            MySqlLockDuration::Statement,
            database_name@,
            schema_name@,
            sequence_name@,
            kind@,
        ),
{
    mysql_lock_with_duration(
        session_id,
        MySqlLockScope::Sequence,
        MySqlLockDuration::Statement,
        database_name,
        schema_name,
        sequence_name,
        kind,
    )
}

/// Adds the lock of a statement that reads the description of a table.
pub fn add_metadata_read_lock(
    locks: &mut Vec<MySqlLock>,
    session_id: i32,
    database_name: &str,
    schema_name: &str,
    table_name: &str,
)
    ensures
        views(final(locks)@) == views(old(locks)@).push(
            table_lock(
                session_id,
                database_name@,
                schema_name@,
                table_name@,
                KindModel::MetadataRead,
            ),
        ),
{
    let ghost before = views(locks@);
    let lock = mysql_lock(
        session_id,
        database_name,
        schema_name,
        table_name,
        MySqlLockKind::MetadataRead,
    );
    let ghost model = lock@;
    locks.push(lock);
    assert(views(locks@) =~= before.push(model));
}

} // verus!
