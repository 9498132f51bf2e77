//! The order of values: kinds in their order, and within a kind by contents.
use vstd::prelude::*;
use vstd::utf8::*;

use crate::bytes::{bytes_less, is_bytes_less};
use crate::bytes::{lemma_bytes_less_total, lemma_bytes_less_transitive};
use crate::sorting::{is_text_less, text_less};
use crate::types::{data_eq, datum_eq, f32_is_nan, f64_is_nan, ColumnValue, Datum};

verus! {

/// The place of a value's kind among the kinds.
pub open spec fn kind_rank(value: Datum) -> int {
    match value {
        Datum::Null => 0,
        Datum::Int16(_) => 1,
        Datum::Int32(_) => 2,
        Datum::Int64(_) => 3,
        Datum::Float32(_) => 4,
        Datum::Float64(_) => 5,
        Datum::Numeric(_) => 6,
        Datum::Text(_) => 7,
        Datum::Date(_) => 8,
        Datum::Timestamp(_) => 9,
        Datum::TimestampTz(_) => 10,
        Datum::Uuid(_) => 11,
        Datum::Json(_) => 12,
        Datum::Jsonb(_) => 13,
        Datum::Bytea(_) => 14,
        Datum::Boolean(_) => 15,
        Datum::Array(_) => 16,
    }
}

/// Whether one single-precision number, given by its bits, is less than another.
pub open spec fn f32_less(a: u32, b: u32) -> bool {
    let place = |bits: u32|
        if bits < 0x8000_0000 {
            bits as int
        } else {
            0x8000_0000 - bits
        };
    !f32_is_nan(a) && !f32_is_nan(b) && place(a) < place(b)
}

/// Whether one double-precision number, given by its bits, is less than another.
pub open spec fn f64_less(a: u64, b: u64) -> bool {
    let place = |bits: u64|
        if bits < 0x8000_0000_0000_0000 {
            bits as int
        } else {
            0x8000_0000_0000_0000 - bits
        };
    !f64_is_nan(a) && !f64_is_nan(b) && place(a) < place(b)
}

/// Whether one value comes before another.
pub open spec fn datum_less(a: Datum, b: Datum) -> bool
    decreases a,
{
    match (a, b) {
        (Datum::Int16(x), Datum::Int16(y)) => x < y,
        (Datum::Int32(x), Datum::Int32(y)) => x < y,
        (Datum::Int64(x), Datum::Int64(y)) => x < y,
        (Datum::Float32(x), Datum::Float32(y)) => f32_less(x, y),
        (Datum::Float64(x), Datum::Float64(y)) => f64_less(x, y),
        (Datum::Numeric(x), Datum::Numeric(y)) => text_less(x, y),
        (Datum::Text(x), Datum::Text(y)) => text_less(x, y),
        (Datum::Date(x), Datum::Date(y)) => text_less(x, y),
        (Datum::Timestamp(x), Datum::Timestamp(y)) => text_less(x, y),
        (Datum::TimestampTz(x), Datum::TimestampTz(y)) => text_less(x, y),
        (Datum::Uuid(x), Datum::Uuid(y)) => text_less(x, y),
        (Datum::Json(x), Datum::Json(y)) => text_less(x, y),
        (Datum::Jsonb(x), Datum::Jsonb(y)) => text_less(x, y),
        (Datum::Bytea(x), Datum::Bytea(y)) => bytes_less(x, y),
        (Datum::Boolean(x), Datum::Boolean(y)) => !x && y,
        (Datum::Array(x), Datum::Array(y)) => data_less(x, y),
        _ => kind_rank(a) < kind_rank(b),
    }
}

/// Whether one list of values comes before another: by the first items that differ, a list
/// before those that it starts.
pub open spec fn data_less(a: Seq<Datum>, b: Seq<Datum>) -> bool
    decreases a,
{
    if b.len() == 0 {
        false
    } else if a.len() == 0 {
        true
    } else {
        datum_less(a[0], b[0]) || (datum_eq(a[0], b[0]) && data_less(
            a.subrange(1, a.len() as int),
            b.subrange(1, b.len() as int),
        ))
    }
}

fn less_f32(a: u32, b: u32) -> (less: bool)
    ensures
        less == f32_less(a, b),
{
    let x: i64 = if a < 0x8000_0000 {
        a as i64
    } else {
        0x8000_0000i64 - a as i64
    };
    let y: i64 = if b < 0x8000_0000 {
        b as i64
    } else {
        0x8000_0000i64 - b as i64
    };
    a % 0x8000_0000 <= 0x7f80_0000 && b % 0x8000_0000 <= 0x7f80_0000 && x < y
}

fn less_f64(a: u64, b: u64) -> (less: bool)
    ensures
        less == f64_less(a, b),
{
    let x: i128 = if a < 0x8000_0000_0000_0000 {
        a as i128
    } else {
        0x8000_0000_0000_0000i128 - a as i128
    };
    let y: i128 = if b < 0x8000_0000_0000_0000 {
        b as i128
    } else {
        0x8000_0000_0000_0000i128 - b as i128
    };
    a % 0x8000_0000_0000_0000 <= 0x7ff0_0000_0000_0000 && b % 0x8000_0000_0000_0000
        <= 0x7ff0_0000_0000_0000 && x < y
}

fn rank_of(value: &ColumnValue) -> (rank: u8)
    ensures
        rank == kind_rank(value@),
{
    match value {
        ColumnValue::Null => 0,
        ColumnValue::Int16(_) => 1,
        ColumnValue::Int32(_) => 2,
        ColumnValue::Int64(_) => 3,
        ColumnValue::Float32(_) => 4,
        ColumnValue::Float64(_) => 5,
        ColumnValue::Numeric(_) => 6,
        ColumnValue::Text(_) => 7,
        ColumnValue::Date(_) => 8,
        ColumnValue::Timestamp(_) => 9,
        ColumnValue::TimestampTz(_) => 10,
        ColumnValue::Uuid(_) => 11,
        ColumnValue::Json(_) => 12,
        ColumnValue::Jsonb(_) => 13,
        ColumnValue::Bytea(_) => 14,
        ColumnValue::Boolean(_) => 15,
        ColumnValue::Array(_) => 16,
    }
}

/// Whether one value comes before another.
pub fn value_less(a: &ColumnValue, b: &ColumnValue) -> (less: bool)
    ensures
        less == datum_less(a@, b@),
    decreases a,
{
    match (a, b) {
        (ColumnValue::Int16(x), ColumnValue::Int16(y)) => *x < *y,
        (ColumnValue::Int32(x), ColumnValue::Int32(y)) => *x < *y,
        (ColumnValue::Int64(x), ColumnValue::Int64(y)) => *x < *y,
        (ColumnValue::Float32(x), ColumnValue::Float32(y)) => less_f32(*x, *y),
        (ColumnValue::Float64(x), ColumnValue::Float64(y)) => less_f64(*x, *y),
        (ColumnValue::Numeric(x), ColumnValue::Numeric(y)) => is_text_less(x.as_str(), y.as_str()),
        (ColumnValue::Text(x), ColumnValue::Text(y)) => is_text_less(x.as_str(), y.as_str()),
        (ColumnValue::Date(x), ColumnValue::Date(y)) => is_text_less(x.as_str(), y.as_str()),
        (ColumnValue::Timestamp(x), ColumnValue::Timestamp(y)) => is_text_less(
            x.as_str(),
            y.as_str(),
        ),
        (ColumnValue::TimestampTz(x), ColumnValue::TimestampTz(y)) => is_text_less(
            x.as_str(),
            y.as_str(),
        ),
        (ColumnValue::Uuid(x), ColumnValue::Uuid(y)) => is_text_less(x.as_str(), y.as_str()),
        (ColumnValue::Json(x), ColumnValue::Json(y)) => is_text_less(x.as_str(), y.as_str()),
        (ColumnValue::Jsonb(x), ColumnValue::Jsonb(y)) => is_text_less(x.as_str(), y.as_str()),
        (ColumnValue::Bytea(x), ColumnValue::Bytea(y)) => is_bytes_less(x.as_slice(), y.as_slice()),
        (ColumnValue::Boolean(x), ColumnValue::Boolean(y)) => !*x && *y,
        (ColumnValue::Array(x), ColumnValue::Array(y)) => {
            let ghost left = a@->Array_0;
            let ghost right = b@->Array_0;
            let mut i: usize = 0;
            assert(left.subrange(0, left.len() as int) =~= left);
            assert(right.subrange(0, right.len() as int) =~= right);
            while i < x.len() && i < y.len()
                invariant
                    a is Array,
                    b is Array,
                    *x == a->Array_0,
                    *y == b->Array_0,
                    left == a@->Array_0,
                    right == b@->Array_0,
                    i <= x@.len(),
                    i <= y@.len(),
                    data_less(left, right) == data_less(
                        left.subrange(i as int, left.len() as int),
                        right.subrange(i as int, right.len() as int),
                    ),
                decreases x@.len() - i,
            {
                let ghost rest = left.subrange(i as int, left.len() as int);
                let ghost others = right.subrange(i as int, right.len() as int);
                assert(rest[0] == x@[i as int]@);
                assert(others[0] == y@[i as int]@);
                assert(rest.subrange(1, rest.len() as int) =~= left.subrange(
                    i + 1,
                    left.len() as int,
                ));
                assert(others.subrange(1, others.len() as int) =~= right.subrange(
                    i + 1,
                    right.len() as int,
                ));
                if value_less(&x[i], &y[i]) {
                    return true;
                }
                if !x[i].equals(&y[i]) {
                    return false;
                }
                i += 1;
            }
            i < y.len()
        },
        _ => rank_of(a) < rank_of(b),
    }
}

/// Whether no number in a value is one that is not a number.
pub open spec fn without_nan(value: Datum) -> bool
    decreases value,
{
    match value {
        Datum::Float32(bits) => !f32_is_nan(bits),
        Datum::Float64(bits) => !f64_is_nan(bits),
        Datum::Array(items) => forall|i: int|
            0 <= i < items.len() ==> without_nan(#[trigger] items[i]),
        _ => true,
    }
}

spec fn all_without_nan(values: Seq<Datum>) -> bool {
    forall|i: int| 0 <= i < values.len() ==> without_nan(#[trigger] values[i])
}

proof fn lemma_texts_compare(a: Seq<char>, b: Seq<char>, c: Seq<char>)
    ensures
        text_less(a, b) || text_less(b, a) || a == b,
        !(text_less(a, b) && text_less(b, a)),
        !text_less(a, a),
        text_less(a, b) && text_less(b, c) ==> text_less(a, c),
{
    encode_utf8_decode_utf8(a);
    encode_utf8_decode_utf8(b);
    lemma_bytes_less_total(encode_utf8(a), encode_utf8(b));
    if text_less(a, b) && text_less(b, c) {
        lemma_bytes_less_transitive(encode_utf8(a), encode_utf8(b), encode_utf8(c));
    }
}

proof fn lemma_tails(a: Seq<Datum>)
    requires
        all_without_nan(a),
        a.len() > 0,
    ensures
        all_without_nan(a.subrange(1, a.len() as int)),
        without_nan(a[0]),
{
    let tail = a.subrange(1, a.len() as int);
    assert forall|i: int| 0 <= i < tail.len() implies without_nan(#[trigger] tail[i]) by {
        assert(tail[i] == a[i + 1]);
    }
}

/// Lists are equal where their first items and the rest are.
proof fn lemma_equal_lists(a: Seq<Datum>, b: Seq<Datum>)
    requires
        a.len() > 0,
        b.len() > 0,
    ensures
        data_eq(a, b) <==> datum_eq(a[0], b[0]) && data_eq(
            a.subrange(1, a.len() as int),
            b.subrange(1, b.len() as int),
        ),
{
    let x = a.subrange(1, a.len() as int);
    let y = b.subrange(1, b.len() as int);
    if data_eq(a, b) {
        assert forall|i: int| 0 <= i < x.len() implies datum_eq(#[trigger] x[i], y[i]) by {
            assert(datum_eq(a[i + 1], b[i + 1]));
        }
        assert(data_eq(x, y));
    }
    if datum_eq(a[0], b[0]) && data_eq(x, y) {
        assert forall|i: int| 0 <= i < a.len() implies datum_eq(#[trigger] a[i], b[i]) by {
            if i > 0 {
                assert(datum_eq(x[i - 1], y[i - 1]));
            }
        }
        assert(data_eq(a, b));
    }
}

/// Of two values one comes first, or they are equal.
proof fn lemma_one_of_three(a: Datum, b: Datum)
    requires
        without_nan(a),
        without_nan(b),
    ensures
        datum_less(a, b) || datum_less(b, a) || datum_eq(a, b),
        !(datum_less(a, b) && datum_less(b, a)),
        datum_eq(a, b) ==> !datum_less(a, b) && !datum_less(b, a),
    decreases a,
{
    match (a, b) {
        (Datum::Numeric(x), Datum::Numeric(y)) | (Datum::Text(x), Datum::Text(y)) | (
            Datum::Date(x),
            Datum::Date(y),
        ) | (Datum::Timestamp(x), Datum::Timestamp(y)) | (
            Datum::TimestampTz(x),
            Datum::TimestampTz(y),
        ) | (Datum::Uuid(x), Datum::Uuid(y)) | (Datum::Json(x), Datum::Json(y)) | (
            Datum::Jsonb(x),
            Datum::Jsonb(y),
        ) => {
            lemma_texts_compare(x, y, x);
        },
        (Datum::Bytea(x), Datum::Bytea(y)) => {
            lemma_bytes_less_total(x, y);
        },
        (Datum::Array(x), Datum::Array(y)) => {
            assert(all_without_nan(x));
            assert(all_without_nan(y));
            lemma_lists_one_of_three(x, y);
            assert(datum_eq(a, b) == data_eq(x, y));
        },
        _ => {},
    }
}

proof fn lemma_lists_one_of_three(a: Seq<Datum>, b: Seq<Datum>)
    requires
        all_without_nan(a),
        all_without_nan(b),
    ensures
        data_less(a, b) || data_less(b, a) || data_eq(a, b),
        !(data_less(a, b) && data_less(b, a)),
        data_eq(a, b) ==> !data_less(a, b) && !data_less(b, a),
    decreases a,
{
    if a.len() > 0 && b.len() > 0 {
        lemma_tails(a);
        lemma_tails(b);
        lemma_one_of_three(a[0], b[0]);
        lemma_equal_swapped(a[0], b[0]);
        lemma_lists_one_of_three(a.subrange(1, a.len() as int), b.subrange(1, b.len() as int));
        lemma_equal_lists(a, b);
    }
}

proof fn lemma_equal_swapped(a: Datum, b: Datum)
    ensures
        datum_eq(a, b) == datum_eq(b, a),
    decreases a,
{
    if let (Datum::Array(x), Datum::Array(y)) = (a, b) {
        if x.len() == y.len() {
            assert forall|i: int| 0 <= i < x.len() implies datum_eq(#[trigger] x[i], y[i])
                == datum_eq(y[i], x[i]) by {
                lemma_equal_swapped(x[i], y[i]);
            }
            if datum_eq(a, b) {
                assert forall|i: int| 0 <= i < y.len() implies datum_eq(#[trigger] y[i], x[i]) by {
                    assert(datum_eq(x[i], y[i]));
                }
            }
            if datum_eq(b, a) {
                assert forall|i: int| 0 <= i < x.len() implies datum_eq(#[trigger] x[i], y[i]) by {
                    assert(datum_eq(y[i], x[i]));
                }
            }
        }
    }
}

/// What comes before a value comes before what follows it or equals it, and likewise behind.
proof fn lemma_steps(a: Datum, b: Datum, c: Datum)
    requires
        without_nan(a),
        without_nan(b),
        without_nan(c),
    ensures
        datum_less(a, b) && datum_less(b, c) ==> datum_less(a, c),
        datum_less(a, b) && datum_eq(b, c) ==> datum_less(a, c),
        datum_eq(a, b) && datum_less(b, c) ==> datum_less(a, c),
        datum_eq(a, b) && datum_eq(b, c) ==> datum_eq(a, c),
    decreases a,
{
    match (a, b, c) {
        (Datum::Numeric(x), Datum::Numeric(y), Datum::Numeric(z)) | (
            Datum::Text(x),
            Datum::Text(y),
            Datum::Text(z),
        ) | (Datum::Date(x), Datum::Date(y), Datum::Date(z)) | (
            Datum::Timestamp(x),
            Datum::Timestamp(y),
            Datum::Timestamp(z),
        ) | (Datum::TimestampTz(x), Datum::TimestampTz(y), Datum::TimestampTz(z)) | (
            Datum::Uuid(x),
            Datum::Uuid(y),
            Datum::Uuid(z),
        ) | (Datum::Json(x), Datum::Json(y), Datum::Json(z)) | (
            Datum::Jsonb(x),
            Datum::Jsonb(y),
            Datum::Jsonb(z),
        ) => {
            lemma_texts_compare(x, y, z);
        },
        (Datum::Bytea(x), Datum::Bytea(y), Datum::Bytea(z)) => {
            if bytes_less(x, y) && bytes_less(y, z) {
                lemma_bytes_less_transitive(x, y, z);
            }
        },
        (Datum::Array(x), Datum::Array(y), Datum::Array(z)) => {
            assert(all_without_nan(x));
            assert(all_without_nan(y));
            assert(all_without_nan(z));
            lemma_list_steps(x, y, z);
            assert(datum_eq(a, b) == data_eq(x, y));
            assert(datum_eq(b, c) == data_eq(y, z));
            assert(datum_eq(a, c) == data_eq(x, z));
        },
        _ => {},
    }
}

proof fn lemma_list_steps(a: Seq<Datum>, b: Seq<Datum>, c: Seq<Datum>)
    requires
        all_without_nan(a),
        all_without_nan(b),
        all_without_nan(c),
    ensures
        data_less(a, b) && data_less(b, c) ==> data_less(a, c),
        data_less(a, b) && data_eq(b, c) ==> data_less(a, c),
        data_eq(a, b) && data_less(b, c) ==> data_less(a, c),
        data_eq(a, b) && data_eq(b, c) ==> data_eq(a, c),
    decreases a,
{
    if a.len() > 0 && b.len() > 0 && c.len() > 0 {
        lemma_tails(a);
        lemma_tails(b);
        lemma_tails(c);
        lemma_steps(a[0], b[0], c[0]);
        lemma_list_steps(
            a.subrange(1, a.len() as int),
            b.subrange(1, b.len() as int),
            c.subrange(1, c.len() as int),
        );
        lemma_equal_lists(a, b);
        lemma_equal_lists(b, c);
        lemma_equal_lists(a, c);
    }
}

/// Values without a number that is not one are in a strict order, in which only equal values
/// stand in no order to each other.
pub proof fn law_values_are_ordered(a: Datum, b: Datum, c: Datum)
    requires
        without_nan(a),
        without_nan(b),
        without_nan(c),
    ensures
        !(datum_less(a, b) && datum_less(b, a)),
        datum_less(a, b) && datum_less(b, c) ==> datum_less(a, c),
        datum_less(a, b) && !datum_less(c, b) ==> datum_less(a, c),
        datum_eq(a, b) <==> !datum_less(a, b) && !datum_less(b, a),
{
    lemma_one_of_three(a, b);
    lemma_one_of_three(b, c);
    lemma_equal_swapped(b, c);
    lemma_steps(a, b, c);
}

} // verus!
