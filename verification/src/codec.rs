//! How values and keys are laid out as bytes.
use vstd::prelude::*;
use vstd::utf8::*;

use crate::bytes::{be_bytes, be_value, bytes_less, starts_with};
use crate::bytes::{bytes_of, has_prefix, push_all, push_be, read_be};
use crate::bytes::{lemma_be_order, lemma_be_roundtrip, lemma_be_widths, lemma_bytes_less_prefix};
use crate::error::{report, user_error, user_error_text, Report, UserError};
use crate::text::{lemma_utf8_concat, string_from_utf8, utf8_bytes, utf8_error};
use crate::types::{datum, ColumnValue, DataType, Datum, MySqlIntKind};

verus! {

/// What the keys of table descriptors start with.
pub const SCHEMA_PREFIX: &'static str = "__schema__:";

const TABLE_DATA_PREFIX: &'static str = "__table__";

const INDEX_DATA_PREFIX: &'static str = "__index__";

const ROW_MARKER_COLUMN: &'static str = "__row__";

/// How a type's values are laid out.
pub enum Form {
    Int2,
    Int4,
    Int8,
    Float4,
    Float8,
    Text(TextForm),
    Bool,
    Bytes,
    List,
}

/// Which kind of value a text stands for.
#[derive(Clone, Copy)]
pub enum TextForm {
    Text,
    Numeric,
    Date,
    Timestamp,
    TimestampTz,
    Uuid,
    Json,
    Jsonb,
}

/// The layout of a MySQL integer: small unsigned ones take the next wider form, the
/// largest unsigned one is a number in text.
pub open spec fn mysql_int_form(kind: MySqlIntKind, unsigned: bool) -> Form {
    match (kind, unsigned) {
        (MySqlIntKind::Tiny, false) | (MySqlIntKind::Small, false) => Form::Int2,
        (MySqlIntKind::Int, true) | (MySqlIntKind::Big, false) => Form::Int8,
        (MySqlIntKind::Big, true) => Form::Text(TextForm::Numeric),
        _ => Form::Int4,
    }
}

/// The layout of a type's values.
pub open spec fn form(data_type: DataType) -> Form {
    match data_type {
        DataType::MySqlInt { kind, unsigned } => mysql_int_form(kind, unsigned),
        DataType::Int16 => Form::Int2,
        DataType::Year | DataType::Int32 => Form::Int4,
        DataType::Bit(_) | DataType::Int64 => Form::Int8,
        DataType::Float32 | DataType::MySqlFloat { .. } => Form::Float4,
        DataType::Float64 | DataType::MySqlDouble { .. } => Form::Float8,
        DataType::Numeric { .. } => Form::Text(TextForm::Numeric),
        DataType::Date => Form::Text(TextForm::Date),
        DataType::Timestamp | DataType::MySqlDateTime { .. } | DataType::MySqlTimestamp {
            ..
        } => Form::Text(TextForm::Timestamp),
        DataType::TimestampTz => Form::Text(TextForm::TimestampTz),
        DataType::Uuid => Form::Text(TextForm::Uuid),
        DataType::Json => Form::Text(TextForm::Json),
        DataType::Jsonb => Form::Text(TextForm::Jsonb),
        DataType::Boolean => Form::Bool,
        DataType::Bytea | DataType::Binary(_) | DataType::VarBinary(_) | DataType::Blob {
            ..
        } => Form::Bytes,
        DataType::Array(_) => Form::List,
        _ => Form::Text(TextForm::Text),
    }
}

/// The datum of a text of the given kind.
pub open spec fn text_datum(kind: TextForm, text: Seq<char>) -> Datum {
    match kind {
        TextForm::Text => Datum::Text(text),
        TextForm::Numeric => Datum::Numeric(text),
        TextForm::Date => Datum::Date(text),
        TextForm::Timestamp => Datum::Timestamp(text),
        TextForm::TimestampTz => Datum::TimestampTz(text),
        TextForm::Uuid => Datum::Uuid(text),
        TextForm::Json => Datum::Json(text),
        TextForm::Jsonb => Datum::Jsonb(text),
    }
}

/// The text that a datum holds.
pub open spec fn datum_text(value: Datum) -> Option<Seq<char>> {
    match value {
        Datum::Text(s) | Datum::Numeric(s) | Datum::Date(s) | Datum::Timestamp(s)
        | Datum::TimestampTz(s) | Datum::Uuid(s) | Datum::Json(s) | Datum::Jsonb(s) => Some(s),
        _ => None,
    }
}

/// Two's complement: a negative number is counted back from the limit.
pub open spec fn wrapped(value: int, limit: int) -> nat {
    if value < 0 {
        (value + limit) as nat
    } else {
        value as nat
    }
}

/// The number that a two's complement pattern stands for.
pub open spec fn unwrapped(pattern: nat, limit: int) -> int {
    if pattern < limit / 2 {
        pattern as int
    } else {
        pattern - limit
    }
}

/// Bytes behind their length in four bytes.
pub open spec fn block(bytes: Seq<u8>) -> Seq<u8> {
    be_bytes(bytes.len() % 0x1_0000_0000, 4) + bytes
}

/// The cells of a list, one block each.
pub open spec fn list_blocks(items: Seq<Datum>) -> Seq<u8>
    decreases items, 2nat,
{
    if items.len() == 0 {
        seq![]
    } else {
        list_blocks(items.drop_last()) + block(cell_bytes(items.last()))
    }
}

/// The bytes of a value that is not null.
pub open spec fn value_bytes(value: Datum) -> Seq<u8>
    decreases value, 0nat,
{
    match value {
        Datum::Null => seq![],
        Datum::Int16(v) => be_bytes(wrapped(v as int, 0x1_0000), 2),
        Datum::Int32(v) => be_bytes(wrapped(v as int, 0x1_0000_0000), 4),
        Datum::Int64(v) => be_bytes(wrapped(v as int, 0x1_0000_0000_0000_0000), 8),
        Datum::Float32(bits) => be_bytes(bits as nat, 4),
        Datum::Float64(bits) => be_bytes(bits as nat, 8),
        Datum::Numeric(s) | Datum::Text(s) | Datum::Date(s) | Datum::Timestamp(s)
        | Datum::TimestampTz(s) | Datum::Uuid(s) | Datum::Json(s) | Datum::Jsonb(s) => block(
            encode_utf8(s),
        ),
        Datum::Bytea(b) => block(b),
        Datum::Boolean(b) => seq![
            if b {
                1u8
            } else {
                0u8
            },
        ],
        Datum::Array(items) => be_bytes(items.len() % 0x1_0000_0000, 4) + list_blocks(items),
    }
}

/// The bytes of a cell: a mark for null or not, and the value.
pub open spec fn cell_bytes(value: Datum) -> Seq<u8>
    decreases value, 1nat,
{
    if value is Null {
        seq![0u8]
    } else {
        seq![1u8] + value_bytes(value)
    }
}

/// Appends a block.
fn push_bytes(buf: &mut Vec<u8>, bytes: &[u8])
    ensures
        final(buf)@ == old(buf)@ + block(bytes@),
{
    let length: u64 = (bytes.len() as u64) % 0x1_0000_0000;
    push_be(buf, length, 4);
    push_all(buf, bytes);
    assert(buf@ =~= old(buf)@ + block(bytes@));
}

fn wrap16(v: i16) -> (pattern: u64)
    ensures
        pattern == wrapped(v as int, 0x1_0000),
{
    if v < 0 {
        (v as i64 + 0x1_0000) as u64
    } else {
        v as u64
    }
}

fn wrap32(v: i32) -> (pattern: u64)
    ensures
        pattern == wrapped(v as int, 0x1_0000_0000),
{
    if v < 0 {
        (v as i64 + 0x1_0000_0000) as u64
    } else {
        v as u64
    }
}

fn wrap64(v: i64) -> (pattern: u64)
    ensures
        pattern == wrapped(v as int, 0x1_0000_0000_0000_0000),
{
    if v < 0 {
        (v as i128 + 0x1_0000_0000_0000_0000) as u64
    } else {
        v as u64
    }
}

/// Appends the bytes of a value; a null has none.
fn encode_non_null_column_value(buf: &mut Vec<u8>, value: &ColumnValue)
    ensures
        final(buf)@ == old(buf)@ + value_bytes(value@),
    decreases value, 0nat,
{
    match value {
        ColumnValue::Int16(v) => push_be(buf, wrap16(*v), 2),
        ColumnValue::Int32(v) => push_be(buf, wrap32(*v), 4),
        ColumnValue::Int64(v) => push_be(buf, wrap64(*v), 8),
        ColumnValue::Float32(bits) => push_be(buf, *bits as u64, 4),
        ColumnValue::Float64(bits) => push_be(buf, *bits, 8),
        ColumnValue::Numeric(v) => push_bytes(buf, v.as_str().as_bytes()),
        ColumnValue::Text(v) => push_bytes(buf, v.as_str().as_bytes()),
        ColumnValue::Date(v) => push_bytes(buf, v.as_str().as_bytes()),
        ColumnValue::Timestamp(v) => push_bytes(buf, v.as_str().as_bytes()),
        ColumnValue::TimestampTz(v) => push_bytes(buf, v.as_str().as_bytes()),
        ColumnValue::Uuid(v) => push_bytes(buf, v.as_str().as_bytes()),
        ColumnValue::Json(v) => push_bytes(buf, v.as_str().as_bytes()),
        ColumnValue::Jsonb(v) => push_bytes(buf, v.as_str().as_bytes()),
        ColumnValue::Bytea(v) => push_bytes(buf, v.as_slice()),
        ColumnValue::Boolean(v) => {
            buf.push(if *v {
                1u8
            } else {
                0u8
            });
            assert(buf@ =~= old(buf)@ + value_bytes(value@));
        },
        ColumnValue::Array(values) => {
            let count: u64 = (values.len() as u64) % 0x1_0000_0000;
            push_be(buf, count, 4);
            let ghost items = value@->Array_0;
            let ghost start = old(buf)@ + be_bytes(items.len() % 0x1_0000_0000, 4);
            let mut i: usize = 0;
            assert(start + list_blocks(items.take(0)) =~= start);
            while i < values.len()
                invariant
                    i <= values@.len(),
                    value is Array,
                    *values == value->Array_0,
                    items == value@->Array_0,
                    items.len() == values@.len(),
                    buf@ == start + list_blocks(items.take(i as int)),
                decreases values@.len() - i,
            {
                let encoded = encode_cell_value(&values[i]);
                assert(encoded@ == cell_bytes(items[i as int]));
                let ghost before = buf@;
                push_bytes(buf, encoded.as_slice());
                assert(items.take(i + 1).drop_last() =~= items.take(i as int));
                assert(items.take(i + 1).last() == items[i as int]);
                assert(list_blocks(items.take(i + 1)) == list_blocks(items.take(i as int)) + block(
                    encoded@,
                ));
                assert(buf@ =~= start + list_blocks(items.take(i + 1)));
                i += 1;
            }
            assert(items.take(i as int) =~= items);
            assert(buf@ =~= old(buf)@ + value_bytes(value@));
        },
        ColumnValue::Null => {
            assert(buf@ =~= old(buf)@ + value_bytes(value@));
        },
    }
}

/// The bytes under which a cell is stored.
pub fn encode_cell_value(value: &ColumnValue) -> (bytes: Vec<u8>)
    ensures
        bytes@ == cell_bytes(value@),
    decreases value, 1nat,
{
    let mut buf: Vec<u8> = Vec::new();
    match value {
        ColumnValue::Null => {
            buf.push(0);
        },
        other => {
            buf.push(1);
            encode_non_null_column_value(&mut buf, other);
        },
    }
    assert(buf@ =~= cell_bytes(value@));
    buf
}

/// The message for a value that ends too early.
pub open spec fn truncated_message(data_type: DataType) -> Seq<char> {
    match data_type {
        DataType::MySqlInt { .. } => "truncated MySQL integer value"@,
        DataType::Bit(_) => "truncated BIT value"@,
        DataType::Year => "truncated YEAR value"@,
        _ => match form(data_type) {
            Form::Int2 => "truncated INT2 value"@,
            Form::Int4 => "truncated INT4 value"@,
            Form::Int8 => "truncated INT8 value"@,
            Form::Float4 => "truncated FLOAT4 value"@,
            Form::Float8 => "truncated FLOAT8 value"@,
            Form::Bool => "truncated BOOL value"@,
            _ => "truncated ARRAY length"@,
        },
    }
}

/// How many bytes a value takes at least.
pub open spec fn least_width(form: Form) -> nat {
    match form {
        Form::Int2 => 2,
        Form::Int4 | Form::Float4 | Form::List => 4,
        Form::Int8 | Form::Float8 => 8,
        Form::Bool => 1,
        _ => 0,
    }
}

/// An internal error.
pub open spec fn internal(message: Seq<char>) -> Report {
    report("XX000"@, message)
}

/// Reads a block: its bytes and how many bytes it takes.
pub open spec fn read_block(bytes: Seq<u8>) -> Result<(Seq<u8>, nat), Report> {
    if bytes.len() < 4 {
        Err(internal("truncated value length"@))
    } else {
        let len = be_value(bytes.take(4));
        if bytes.len() < 4 + len {
            Err(internal("truncated value bytes"@))
        } else {
            Ok((bytes.subrange(4, 4 + len as int), 4 + len))
        }
    }
}

/// The text that bytes encode; `context` starts the message where they encode none.
pub open spec fn read_utf8(bytes: Seq<u8>, context: Seq<char>) -> Result<Seq<char>, Report> {
    if valid_utf8(bytes) {
        Ok(decode_utf8(bytes))
    } else {
        Err(internal(context + utf8_error(bytes)))
    }
}

/// The type of an array's items.
pub open spec fn item_type(data_type: DataType) -> DataType {
    match data_type {
        DataType::Array(inner) => *inner,
        _ => data_type,
    }
}

/// Reads `count` cells, each in a block, from `offset` on.
pub open spec fn read_list(
    inner: DataType,
    bytes: Seq<u8>,
    offset: nat,
    count: nat,
    done: Seq<Datum>,
) -> Result<(Seq<Datum>, nat), Report>
    decreases inner, 2nat, count,
{
    if count == 0 {
        Ok((done, offset))
    } else {
        match read_block(bytes.skip(offset as int)) {
            Err(e) => Err(e),
            Ok((cell, taken)) => match read_cell(inner, cell) {
                Err(e) => Err(e),
                Ok(value) => read_list(
                    inner,
                    bytes,
                    offset + taken,
                    (count - 1) as nat,
                    done.push(value),
                ),
            },
        }
    }
}

/// Reads a value that is not null: the value and how many bytes it takes.
pub open spec fn read_value(data_type: DataType, bytes: Seq<u8>) -> Result<(Datum, nat), Report>
    decreases data_type, 0nat, 0nat,
{
    if bytes.len() < least_width(form(data_type)) {
        Err(internal(truncated_message(data_type)))
    } else {
        match form(data_type) {
            Form::Int2 => Ok(
                (Datum::Int16(unwrapped(be_value(bytes.take(2)), 0x1_0000) as i16), 2),
            ),
            Form::Int4 => Ok(
                (Datum::Int32(unwrapped(be_value(bytes.take(4)), 0x1_0000_0000) as i32), 4),
            ),
            Form::Int8 => Ok(
                (
                    Datum::Int64(
                        unwrapped(be_value(bytes.take(8)), 0x1_0000_0000_0000_0000) as i64,
                    ),
                    8,
                ),
            ),
            Form::Float4 => Ok((Datum::Float32(be_value(bytes.take(4)) as u32), 4)),
            Form::Float8 => Ok((Datum::Float64(be_value(bytes.take(8)) as u64), 8)),
            Form::Bool => Ok((Datum::Boolean(bytes[0] != 0), 1)),
            Form::Bytes => match read_block(bytes) {
                Err(e) => Err(e),
                Ok((content, taken)) => Ok((Datum::Bytea(content), taken)),
            },
            Form::Text(kind) => match read_block(bytes) {
                Err(e) => Err(e),
                Ok((content, taken)) => match read_utf8(content, "invalid UTF-8: "@) {
                    Err(e) => Err(e),
                    Ok(text) => Ok((text_datum(kind, text), taken)),
                },
            },
            Form::List => match data_type {
                DataType::Array(inner) => match read_list(
                    *inner,
                    bytes,
                    4,
                    be_value(bytes.take(4)),
                    seq![],
                ) {
                    Err(e) => Err(e),
                    Ok((items, taken)) => Ok((Datum::Array(items), taken)),
                },
                _ => Err(internal(truncated_message(data_type))),
            },
        }
    }
}

/// Reads a cell; a value has to fill it.
pub open spec fn read_cell(data_type: DataType, bytes: Seq<u8>) -> Result<Datum, Report>
    decreases data_type, 1nat, 0nat,
{
    if bytes.len() == 0 {
        Err(internal("empty cell data"@))
    } else if bytes[0] == 0 {
        Ok(Datum::Null)
    } else {
        match read_value(data_type, bytes.skip(1)) {
            Err(e) => Err(e),
            Ok((value, taken)) => if taken + 1 == bytes.len() {
                Ok(value)
            } else {
                Err(internal("malformed cell data"@))
            },
        }
    }
}

/// What is seen of a decoded value.
pub open spec fn seen_value(result: Result<ColumnValue, UserError>) -> Result<Datum, Report> {
    match result {
        Ok(value) => Ok(value@),
        Err(error) => Err(error@),
    }
}

spec fn seen_taken(result: Result<(ColumnValue, usize), UserError>) -> Result<(Datum, nat), Report> {
    match result {
        Ok((value, taken)) => Ok((value@, taken as nat)),
        Err(error) => Err(error@),
    }
}

spec fn seen_block(result: Result<(Vec<u8>, usize), UserError>) -> Result<(Seq<u8>, nat), Report> {
    match result {
        Ok((content, taken)) => Ok((content@, taken as nat)),
        Err(error) => Err(error@),
    }
}

/// The layout of a type's values.
fn form_of(data_type: &DataType) -> (result: Form)
    ensures
        result == form(*data_type),
{
    match data_type {
        DataType::MySqlInt { kind, unsigned } => match (*kind, *unsigned) {
            (MySqlIntKind::Tiny, false) | (MySqlIntKind::Small, false) => Form::Int2,
            (MySqlIntKind::Int, true) | (MySqlIntKind::Big, false) => Form::Int8,
            (MySqlIntKind::Big, true) => Form::Text(TextForm::Numeric),
            _ => Form::Int4,
        },
        DataType::Int16 => Form::Int2,
        DataType::Year | DataType::Int32 => Form::Int4,
        DataType::Bit(_) | DataType::Int64 => Form::Int8,
        DataType::Float32 | DataType::MySqlFloat { .. } => Form::Float4,
        DataType::Float64 | DataType::MySqlDouble { .. } => Form::Float8,
        DataType::Numeric { .. } => Form::Text(TextForm::Numeric),
        DataType::Date => Form::Text(TextForm::Date),
        DataType::Timestamp | DataType::MySqlDateTime { .. } | DataType::MySqlTimestamp {
            ..
        } => Form::Text(TextForm::Timestamp),
        DataType::TimestampTz => Form::Text(TextForm::TimestampTz),
        DataType::Uuid => Form::Text(TextForm::Uuid),
        DataType::Json => Form::Text(TextForm::Json),
        DataType::Jsonb => Form::Text(TextForm::Jsonb),
        DataType::Boolean => Form::Bool,
        DataType::Bytea | DataType::Binary(_) | DataType::VarBinary(_) | DataType::Blob {
            ..
        } => Form::Bytes,
        DataType::Array(_) => Form::List,
        _ => Form::Text(TextForm::Text),
    }
}

fn truncated(data_type: &DataType) -> (error: UserError)
    ensures
        error@ == internal(truncated_message(*data_type)),
{
    let message = match data_type {
        DataType::MySqlInt { .. } => "truncated MySQL integer value",
        DataType::Bit(_) => "truncated BIT value",
        DataType::Year => "truncated YEAR value",
        _ => match form_of(data_type) {
            Form::Int2 => "truncated INT2 value",
            Form::Int4 => "truncated INT4 value",
            Form::Int8 => "truncated INT8 value",
            Form::Float4 => "truncated FLOAT4 value",
            Form::Float8 => "truncated FLOAT8 value",
            Form::Bool => "truncated BOOL value",
            _ => "truncated ARRAY length",
        },
    };
    user_error("XX000", message)
}

fn width_of(form: &Form) -> (width: usize)
    ensures
        width == least_width(*form),
{
    match form {
        Form::Int2 => 2,
        Form::Int4 | Form::Float4 | Form::List => 4,
        Form::Int8 | Form::Float8 => 8,
        Form::Bool => 1,
        _ => 0,
    }
}

fn text_value(kind: TextForm, text: String) -> (value: ColumnValue)
    ensures
        value@ == text_datum(kind, text@),
{
    match kind {
        TextForm::Text => ColumnValue::Text(text),
        TextForm::Numeric => ColumnValue::Numeric(text),
        TextForm::Date => ColumnValue::Date(text),
        TextForm::Timestamp => ColumnValue::Timestamp(text),
        TextForm::TimestampTz => ColumnValue::TimestampTz(text),
        TextForm::Uuid => ColumnValue::Uuid(text),
        TextForm::Json => ColumnValue::Json(text),
        TextForm::Jsonb => ColumnValue::Jsonb(text),
    }
}

fn read_bytes(bytes: &[u8]) -> (result: Result<(Vec<u8>, usize), UserError>)
    ensures
        seen_block(result) == read_block(bytes@),
{
    if bytes.len() < 4 {
        return Err(user_error("XX000", "truncated value length"));
    }
    let head = vstd::slice::slice_subrange(bytes, 0, 4);
    assert(head@ =~= bytes@.take(4));
    let len: u64 = read_be(head);
    if ((bytes.len() - 4) as u64) < len {
        return Err(user_error("XX000", "truncated value bytes"));
    }
    let end: usize = 4 + len as usize;
    let content = vstd::slice::slice_subrange(bytes, 4, end);
    Ok((bytes_of(content), end))
}

fn utf8_text(bytes: Vec<u8>, context: &str) -> (result: Result<String, UserError>)
    ensures
        match result {
            Ok(text) => read_utf8(bytes@, context@) == Ok::<Seq<char>, Report>(text@),
            Err(error) => read_utf8(bytes@, context@) == Err::<Seq<char>, Report>(error@),
        },
{
    match string_from_utf8(bytes) {
        Ok(text) => Ok(text),
        Err(reason) => {
            let mut message = context.to_string();
            message.push_str(reason.as_str());
            Err(user_error_text("XX000", message))
        },
    }
}

fn signed16(pattern: u64) -> (v: i16)
    requires
        pattern < 0x1_0000,
    ensures
        v == unwrapped(pattern as nat, 0x1_0000),
{
    if pattern < 0x8000 {
        pattern as i16
    } else {
        (pattern as i64 - 0x1_0000) as i16
    }
}

fn signed32(pattern: u64) -> (v: i32)
    requires
        pattern < 0x1_0000_0000,
    ensures
        v == unwrapped(pattern as nat, 0x1_0000_0000),
{
    if pattern < 0x8000_0000 {
        pattern as i32
    } else {
        (pattern as i64 - 0x1_0000_0000) as i32
    }
}

fn signed64(pattern: u64) -> (v: i64)
    ensures
        v == unwrapped(pattern as nat, 0x1_0000_0000_0000_0000),
{
    if pattern < 0x8000_0000_0000_0000 {
        pattern as i64
    } else {
        (pattern as i128 - 0x1_0000_0000_0000_0000) as i64
    }
}

/// Reads a value that is not null: the value and how many bytes it takes.
fn decode_non_null_column_value(data_type: &DataType, bytes: &[u8]) -> (result: Result<
    (ColumnValue, usize),
    UserError,
>)
    ensures
        seen_taken(result) == read_value(*data_type, bytes@),
    decreases data_type, 0nat,
{
    let form = form_of(data_type);
    let width = width_of(&form);
    if bytes.len() < width {
        return Err(truncated(data_type));
    }
    match form {
        Form::Int2 | Form::Int4 | Form::Int8 | Form::Float4 | Form::Float8 => {
            let head = vstd::slice::slice_subrange(bytes, 0, width);
            assert(head@ =~= bytes@.take(width as int));
            let pattern: u64 = read_be(head);
            let value = match form {
                Form::Int2 => ColumnValue::Int16(signed16(pattern)),
                Form::Int4 => ColumnValue::Int32(signed32(pattern)),
                Form::Int8 => ColumnValue::Int64(signed64(pattern)),
                Form::Float4 => ColumnValue::Float32(pattern as u32),
                _ => ColumnValue::Float64(pattern),
            };
            Ok((value, width))
        },
        Form::Bool => Ok((ColumnValue::Boolean(bytes[0] != 0), 1)),
        Form::Bytes => match read_bytes(bytes) {
            Err(e) => Err(e),
            Ok((content, taken)) => Ok((ColumnValue::Bytea(content), taken)),
        },
        Form::Text(kind) => match read_bytes(bytes) {
            Err(e) => Err(e),
            Ok((content, taken)) => match utf8_text(content, "invalid UTF-8: ") {
                Err(e) => Err(e),
                Ok(text) => Ok((text_value(kind, text), taken)),
            },
        },
        Form::List => match data_type {
            DataType::Array(inner) => decode_list(inner, bytes),
            _ => Err(truncated(data_type)),
        },
    }
}

fn decode_list(inner: &DataType, bytes: &[u8]) -> (result: Result<(ColumnValue, usize), UserError>)
    requires
        bytes@.len() >= 4,
    ensures
        match read_list(*inner, bytes@, 4, be_value(bytes@.take(4)), seq![]) {
            Ok((items, taken)) => seen_taken(result) == Ok::<(Datum, nat), Report>(
                (Datum::Array(items), taken),
            ),
            Err(e) => seen_taken(result) == Err::<(Datum, nat), Report>(e),
        },
    decreases inner, 2nat,
{
    let head = vstd::slice::slice_subrange(bytes, 0, 4);
    assert(head@ =~= bytes@.take(4));
    let count: u64 = read_be(head);
    let mut values: Vec<ColumnValue> = Vec::new();
    let mut offset: usize = 4;
    let mut left: u64 = count;
    let ghost whole = read_list(*inner, bytes@, 4, count as nat, seq![]);
    let ghost mut done: Seq<Datum> = seq![];
    while left > 0
        invariant
            offset <= bytes@.len(),
            done.len() == values@.len(),
            forall|i: int| 0 <= i < values@.len() ==> datum(#[trigger] values@[i]) == done[i],
            whole == read_list(*inner, bytes@, offset as nat, left as nat, done),
            whole == read_list(*inner, bytes@, 4, be_value(bytes@.take(4)), seq![]),
        decreases left,
    {
        let rest = vstd::slice::slice_subrange(bytes, offset, bytes.len());
        assert(rest@ =~= bytes@.skip(offset as int));
        match read_bytes(rest) {
            Err(e) => {
                return Err(e);
            },
            Ok((cell, taken)) => {
                match decode_cell_value(inner, cell.as_slice()) {
                    Err(e) => {
                        return Err(e);
                    },
                    Ok(value) => {
                        proof {
                            done = done.push(value@);
                        }
                        values.push(value);
                        offset = offset + taken;
                        left = left - 1;
                    },
                }
            },
        }
    }
    let value = ColumnValue::Array(values);
    assert(value@->Array_0 =~= done);
    Ok((value, offset))
}

/// Reads a stored cell of a column of the given type.
pub fn decode_cell_value(data_type: &DataType, bytes: &[u8]) -> (result: Result<
    ColumnValue,
    UserError,
>)
    ensures
        seen_value(result) == read_cell(*data_type, bytes@),
    decreases data_type, 1nat,
{
    if bytes.len() == 0 {
        return Err(user_error("XX000", "empty cell data"));
    }
    if bytes[0] == 0 {
        return Ok(ColumnValue::Null);
    }
    let rest = vstd::slice::slice_subrange(bytes, 1, bytes.len());
    assert(rest@ =~= bytes@.skip(1));
    match decode_non_null_column_value(data_type, rest) {
        Err(e) => Err(e),
        Ok((value, taken)) => {
            if taken == bytes.len() - 1 {
                Ok(value)
            } else {
                Err(user_error("XX000", "malformed cell data"))
            }
        },
    }
}

/// Names in a row, each closed by a colon.
pub open spec fn key_path(names: Seq<Seq<char>>) -> Seq<char>
    decreases names.len(),
{
    if names.len() == 0 {
        seq![]
    } else {
        key_path(names.drop_last()) + names.last() + seq![':']
    }
}

/// Appends a name and a colon.
fn push_name(path: &mut String, name: &str)
    ensures
        forall|names: Seq<Seq<char>>|
            old(path)@ == #[trigger] key_path(names) ==> final(path)@ == key_path(
                names.push(name@),
            ),
{
    let ghost before = path@;
    path.push_str(name);
    path.push(':');
    assert forall|names: Seq<Seq<char>>| before == #[trigger] key_path(names) implies path@
        == key_path(names.push(name@)) by {
        assert(names.push(name@).drop_last() =~= names);
        assert(path@ =~= key_path(names.push(name@)));
    }
}

/// The path of names that a table's keys start with, under a common head.
fn table_path(head: &str, database_name: &str, schema_name: &str, table_name: &str) -> (path:
    String)
    ensures
        path@ == key_path(seq![head@, database_name@, schema_name@, table_name@]),
{
    let mut path = String::new();
    assert(path@ =~= key_path(seq![]));
    push_name(&mut path, head);
    assert(Seq::<Seq<char>>::empty().push(head@) =~= seq![head@]);
    push_name(&mut path, database_name);
    assert(seq![head@].push(database_name@) =~= seq![head@, database_name@]);
    push_name(&mut path, schema_name);
    assert(seq![head@, database_name@].push(schema_name@) =~= seq![
        head@,
        database_name@,
        schema_name@,
    ]);
    push_name(&mut path, table_name);
    assert(seq![head@, database_name@, schema_name@].push(table_name@) =~= seq![
        head@,
        database_name@,
        schema_name@,
        table_name@,
    ]);
    path
}

/// The start of all keys of a table's rows.
pub open spec fn table_prefix(
    database_name: Seq<char>,
    schema_name: Seq<char>,
    table_name: Seq<char>,
) -> Seq<u8> {
    encode_utf8(key_path(seq!["__table__"@, database_name, schema_name, table_name]))
}

/// The start of all keys of one column's cells.
pub open spec fn column_prefix(
    database_name: Seq<char>,
    schema_name: Seq<char>,
    table_name: Seq<char>,
    column_name: Seq<char>,
) -> Seq<u8> {
    encode_utf8(key_path(seq!["__table__"@, database_name, schema_name, table_name, column_name]))
}

/// The start of all keys of a table's index entries.
pub open spec fn indexes_prefix(
    database_name: Seq<char>,
    schema_name: Seq<char>,
    table_name: Seq<char>,
) -> Seq<u8> {
    encode_utf8(key_path(seq!["__index__"@, database_name, schema_name, table_name]))
}

/// The start of all keys of one index's entries.
pub open spec fn index_prefix(
    database_name: Seq<char>,
    schema_name: Seq<char>,
    table_name: Seq<char>,
    index_name: Seq<char>,
) -> Seq<u8> {
    encode_utf8(key_path(seq!["__index__"@, database_name, schema_name, table_name, index_name]))
}

/// The start of all keys of the entries with one value.
pub open spec fn entry_prefix(
    database_name: Seq<char>,
    schema_name: Seq<char>,
    table_name: Seq<char>,
    index_name: Seq<char>,
    value: Datum,
) -> Seq<u8> {
    index_prefix(database_name, schema_name, table_name, index_name) + cell_bytes(value)
        + seq![58u8]
}

/// The start of all keys of a table's rows.
pub fn table_data_prefix(database_name: &str, schema_name: &str, table_name: &str) -> (key: Vec<u8>)
    ensures
        key@ == table_prefix(database_name@, schema_name@, table_name@),
{
    utf8_bytes(table_path(TABLE_DATA_PREFIX, database_name, schema_name, table_name).as_str())
}

/// The start of the keys of a table's row markers.
pub fn row_marker_prefix(database_name: &str, schema_name: &str, table_name: &str) -> (key: Vec<u8>)
    ensures
        key@ == column_prefix(database_name@, schema_name@, table_name@, "__row__"@),
{
    cell_prefix(database_name, schema_name, table_name, ROW_MARKER_COLUMN)
}

/// The start of the keys of one column's cells.
pub fn cell_prefix(
    database_name: &str,
    schema_name: &str,
    table_name: &str,
    column_name: &str,
) -> (key: Vec<u8>)
    ensures
        key@ == column_prefix(database_name@, schema_name@, table_name@, column_name@),
{
    let mut path = table_path(TABLE_DATA_PREFIX, database_name, schema_name, table_name);
    let ghost names = seq!["__table__"@, database_name@, schema_name@, table_name@];
    push_name(&mut path, column_name);
    assert(names.push(column_name@) =~= seq![
        "__table__"@,
        database_name@,
        schema_name@,
        table_name@,
        column_name@,
    ]);
    utf8_bytes(path.as_str())
}

/// Whether a value can stand in a key.
pub open spec fn keyable(value: Datum) -> bool {
    !(value is Null || value is Boolean || value is Array)
}

/// The bytes of a number pattern moved so that unsigned order is the number's order:
/// patterns without the sign bit go up by half the range, the others are mirrored.
pub open spec fn float_rank(bits: nat, limit: nat) -> nat {
    if bits < limit / 2 {
        bits + limit / 2
    } else {
        (limit - 1 - bits) as nat
    }
}

/// The bytes of a value in a key: fixed-width numbers so that bytes order like numbers,
/// texts and byte strings closed by a zero byte.
pub open spec fn key_segment(value: Datum) -> Seq<u8> {
    match value {
        Datum::Int16(v) => be_bytes((v + 0x8000) as nat, 2),
        Datum::Int32(v) => be_bytes((v + 0x8000_0000) as nat, 4),
        Datum::Int64(v) => be_bytes((v + 0x8000_0000_0000_0000) as nat, 8),
        Datum::Float32(bits) => be_bytes(float_rank(bits as nat, 0x1_0000_0000), 4),
        Datum::Float64(bits) => be_bytes(float_rank(bits as nat, 0x1_0000_0000_0000_0000), 8),
        Datum::Bytea(b) => b.push(0),
        _ => match datum_text(value) {
            Some(text) => encode_utf8(text).push(0),
            None => seq![],
        },
    }
}

fn closed_bytes(bytes: &[u8]) -> (segment: Vec<u8>)
    ensures
        segment@ == bytes@.push(0),
{
    let mut segment = bytes_of(bytes);
    segment.push(0);
    segment
}

fn encode_ordered_f32(bits: u32) -> (segment: Vec<u8>)
    ensures
        segment@ == be_bytes(float_rank(bits as nat, 0x1_0000_0000), 4),
{
    let ordered: u32 = if bits < 0x8000_0000 {
        bits + 0x8000_0000
    } else {
        0xffff_ffff - bits
    };
    let mut segment: Vec<u8> = Vec::new();
    push_be(&mut segment, ordered as u64, 4);
    assert(segment@ =~= be_bytes(ordered as nat, 4));
    segment
}

fn encode_ordered_f64(bits: u64) -> (segment: Vec<u8>)
    ensures
        segment@ == be_bytes(float_rank(bits as nat, 0x1_0000_0000_0000_0000), 8),
{
    let ordered: u64 = if bits < 0x8000_0000_0000_0000 {
        bits + 0x8000_0000_0000_0000
    } else {
        0xffff_ffff_ffff_ffff - bits
    };
    let mut segment: Vec<u8> = Vec::new();
    push_be(&mut segment, ordered, 8);
    assert(segment@ =~= be_bytes(ordered as nat, 8));
    segment
}

/// The bytes of a value in a key.
pub fn encode_primary_key_segment(pk_value: &ColumnValue) -> (segment: Vec<u8>)
    requires
        keyable(pk_value@),
    ensures
        segment@ == key_segment(pk_value@),
{
    let mut segment: Vec<u8> = Vec::new();
    match pk_value {
        ColumnValue::Int32(v) => {
            push_be(&mut segment, (*v as i64 + 0x8000_0000) as u64, 4);
        },
        ColumnValue::Int16(v) => {
            push_be(&mut segment, (*v as i64 + 0x8000) as u64, 2);
        },
        ColumnValue::Int64(v) => {
            push_be(&mut segment, (*v as i128 + 0x8000_0000_0000_0000) as u64, 8);
        },
        ColumnValue::Float32(bits) => {
            return encode_ordered_f32(*bits);
        },
        ColumnValue::Float64(bits) => {
            return encode_ordered_f64(*bits);
        },
        ColumnValue::Text(v) => {
            return closed_bytes(v.as_str().as_bytes());
        },
        ColumnValue::Numeric(v) => {
            return closed_bytes(v.as_str().as_bytes());
        },
        ColumnValue::Date(v) => {
            return closed_bytes(v.as_str().as_bytes());
        },
        ColumnValue::Timestamp(v) => {
            return closed_bytes(v.as_str().as_bytes());
        },
        ColumnValue::TimestampTz(v) => {
            return closed_bytes(v.as_str().as_bytes());
        },
        ColumnValue::Uuid(v) => {
            return closed_bytes(v.as_str().as_bytes());
        },
        ColumnValue::Json(v) => {
            return closed_bytes(v.as_str().as_bytes());
        },
        ColumnValue::Jsonb(v) => {
            return closed_bytes(v.as_str().as_bytes());
        },
        ColumnValue::Bytea(v) => {
            return closed_bytes(v.as_slice());
        },
        _ => {},
    }
    assert(segment@ =~= key_segment(pk_value@));
    segment
}

/// The key of a row's marker.
pub fn row_marker_key(
    database_name: &str,
    schema_name: &str,
    table_name: &str,
    pk_value: &ColumnValue,
) -> (key: Vec<u8>)
    requires
        keyable(pk_value@),
    ensures
        key@ == column_prefix(database_name@, schema_name@, table_name@, "__row__"@) + key_segment(
            pk_value@,
        ),
{
    let mut key = row_marker_prefix(database_name, schema_name, table_name);
    let segment = encode_primary_key_segment(pk_value);
    push_all(&mut key, segment.as_slice());
    key
}

/// The key of a cell.
pub fn cell_key(
    database_name: &str,
    schema_name: &str,
    table_name: &str,
    column_name: &str,
    pk_value: &ColumnValue,
) -> (key: Vec<u8>)
    requires
        keyable(pk_value@),
    ensures
        key@ == column_prefix(database_name@, schema_name@, table_name@, column_name@)
            + key_segment(pk_value@),
{
    let mut key = cell_prefix(database_name, schema_name, table_name, column_name);
    let segment = encode_primary_key_segment(pk_value);
    push_all(&mut key, segment.as_slice());
    key
}

/// The start of the keys of the index entries with one value.
pub fn index_entry_prefix(
    database_name: &str,
    schema_name: &str,
    table_name: &str,
    index_name: &str,
    index_value: &ColumnValue,
) -> (key: Vec<u8>)
    ensures
        key@ == entry_prefix(
            database_name@,
            schema_name@,
            table_name@,
            index_name@,
            index_value@,
        ),
{
    let mut path = table_path(INDEX_DATA_PREFIX, database_name, schema_name, table_name);
    let ghost names = seq!["__index__"@, database_name@, schema_name@, table_name@];
    push_name(&mut path, index_name);
    assert(names.push(index_name@) =~= seq![
        "__index__"@,
        database_name@,
        schema_name@,
        table_name@,
        index_name@,
    ]);
    let mut key = utf8_bytes(path.as_str());
    let segment = encode_cell_value(index_value);
    push_all(&mut key, segment.as_slice());
    key.push(58);
    assert(key@ =~= entry_prefix(
        database_name@,
        schema_name@,
        table_name@,
        index_name@,
        index_value@,
    ));
    key
}

/// The start of all keys of a table's index entries.
pub fn index_table_prefix(database_name: &str, schema_name: &str, table_name: &str) -> (key: Vec<
    u8,
>)
    ensures
        key@ == indexes_prefix(database_name@, schema_name@, table_name@),
{
    utf8_bytes(table_path(INDEX_DATA_PREFIX, database_name, schema_name, table_name).as_str())
}

/// The key of an index entry.
pub fn index_entry_key(
    database_name: &str,
    schema_name: &str,
    table_name: &str,
    index_name: &str,
    index_value: &ColumnValue,
    pk_value: &ColumnValue,
) -> (key: Vec<u8>)
    requires
        keyable(pk_value@),
    ensures
        key@ == entry_prefix(database_name@, schema_name@, table_name@, index_name@, index_value@)
            + key_segment(pk_value@),
{
    let mut key = index_entry_prefix(
        database_name,
        schema_name,
        table_name,
        index_name,
        index_value,
    );
    let segment = encode_primary_key_segment(pk_value);
    push_all(&mut key, segment.as_slice());
    key
}

/// The key of a table's descriptor.
pub fn schema_key(table_name: &str) -> (key: String)
    ensures
        key@ == "__schema__:"@ + table_name@,
{
    let mut key = SCHEMA_PREFIX.to_string();
    key.push_str(table_name);
    key
}

/// The message for a key segment that no value of the layout has.
pub open spec fn malformed_key_message(form: Form) -> Seq<char> {
    match form {
        Form::Int2 => "malformed INT2 primary key segment"@,
        Form::Int4 => "malformed INT4 primary key segment"@,
        Form::Int8 => "malformed INT8 primary key segment"@,
        Form::Float4 => "malformed FLOAT4 primary key segment"@,
        Form::Float8 => "malformed FLOAT8 primary key segment"@,
        Form::Text(_) => "malformed TEXT primary key segment"@,
        Form::Bytes => "malformed BYTEA primary key segment"@,
        _ => "primary key type is not supported for key encoding"@,
    }
}

/// Whether a key segment has the shape of the layout: the width of a number, or a zero
/// byte at the end.
pub open spec fn key_shape(form: Form, bytes: Seq<u8>) -> bool {
    match form {
        Form::Int2 => bytes.len() == 2,
        Form::Int4 | Form::Float4 => bytes.len() == 4,
        Form::Int8 | Form::Float8 => bytes.len() == 8,
        Form::Text(_) | Form::Bytes => bytes.len() > 0 && bytes.last() == 0,
        _ => false,
    }
}

/// Reads the value of a key segment.
pub open spec fn read_key(data_type: DataType, bytes: Seq<u8>) -> Result<Datum, Report> {
    if !key_shape(form(data_type), bytes) {
        Err(internal(malformed_key_message(form(data_type))))
    } else {
        match form(data_type) {
            Form::Int2 => Ok(Datum::Int16((be_value(bytes) - 0x8000) as i16)),
            Form::Int4 => Ok(Datum::Int32((be_value(bytes) - 0x8000_0000) as i32)),
            Form::Int8 => Ok(Datum::Int64((be_value(bytes) - 0x8000_0000_0000_0000) as i64)),
            Form::Float4 => Ok(
                Datum::Float32(float_bits(be_value(bytes), 0x1_0000_0000) as u32),
            ),
            Form::Float8 => Ok(
                Datum::Float64(float_bits(be_value(bytes), 0x1_0000_0000_0000_0000) as u64),
            ),
            Form::Bytes => Ok(Datum::Bytea(bytes.drop_last())),
            Form::Text(kind) => match read_utf8(bytes.drop_last(), "invalid UTF-8 in key: "@) {
                Ok(text) => Ok(text_datum(kind, text)),
                Err(e) => Err(e),
            },
            _ => Err(internal(malformed_key_message(form(data_type)))),
        }
    }
}

/// The pattern with the given rank.
pub open spec fn float_bits(rank: nat, limit: nat) -> nat {
    if rank >= limit / 2 {
        (rank - limit / 2) as nat
    } else {
        (limit - 1 - rank) as nat
    }
}

fn decode_ordered_f32(ordered: u32) -> (bits: u32)
    ensures
        bits == float_bits(ordered as nat, 0x1_0000_0000),
{
    if ordered >= 0x8000_0000 {
        ordered - 0x8000_0000
    } else {
        0xffff_ffff - ordered
    }
}

fn decode_ordered_f64(ordered: u64) -> (bits: u64)
    ensures
        bits == float_bits(ordered as nat, 0x1_0000_0000_0000_0000),
{
    if ordered >= 0x8000_0000_0000_0000 {
        ordered - 0x8000_0000_0000_0000
    } else {
        0xffff_ffff_ffff_ffff - ordered
    }
}

fn malformed_key(form: &Form) -> (error: UserError)
    ensures
        error@ == internal(malformed_key_message(*form)),
{
    let message = match form {
        Form::Int2 => "malformed INT2 primary key segment",
        Form::Int4 => "malformed INT4 primary key segment",
        Form::Int8 => "malformed INT8 primary key segment",
        Form::Float4 => "malformed FLOAT4 primary key segment",
        Form::Float8 => "malformed FLOAT8 primary key segment",
        Form::Text(_) => "malformed TEXT primary key segment",
        Form::Bytes => "malformed BYTEA primary key segment",
        _ => "primary key type is not supported for key encoding",
    };
    user_error("XX000", message)
}

fn decode_primary_key_segment(data_type: &DataType, bytes: &[u8]) -> (result: Result<
    ColumnValue,
    UserError,
>)
    ensures
        seen_value(result) == read_key(*data_type, bytes@),
{
    let form = form_of(data_type);
    match form {
        Form::Int2 | Form::Int4 | Form::Int8 | Form::Float4 | Form::Float8 => {
            let width = width_of(&form);
            if bytes.len() != width {
                return Err(malformed_key(&form));
            }
            let pattern: u64 = read_be(bytes);
            match form {
                Form::Int2 => Ok(ColumnValue::Int16((pattern as i64 - 0x8000) as i16)),
                Form::Int4 => Ok(ColumnValue::Int32((pattern as i64 - 0x8000_0000) as i32)),
                Form::Int8 => Ok(
                    ColumnValue::Int64((pattern as i128 - 0x8000_0000_0000_0000) as i64),
                ),
                Form::Float4 => Ok(ColumnValue::Float32(decode_ordered_f32(pattern as u32))),
                _ => Ok(ColumnValue::Float64(decode_ordered_f64(pattern))),
            }
        },
        Form::Text(kind) => {
            let len = bytes.len();
            if len == 0 || bytes[len - 1] != 0 {
                return Err(malformed_key(&form));
            }
            let content = vstd::slice::slice_subrange(bytes, 0, len - 1);
            assert(content@ =~= bytes@.drop_last());
            match utf8_text(bytes_of(content), "invalid UTF-8 in key: ") {
                Ok(text) => Ok(text_value(kind, text)),
                Err(e) => Err(e),
            }
        },
        Form::Bytes => {
            let len = bytes.len();
            if len == 0 || bytes[len - 1] != 0 {
                return Err(malformed_key(&form));
            }
            let content = vstd::slice::slice_subrange(bytes, 0, len - 1);
            assert(content@ =~= bytes@.drop_last());
            Ok(ColumnValue::Bytea(bytes_of(content)))
        },
        _ => Err(malformed_key(&form)),
    }
}

/// Reads the value behind a known start of a key.
pub open spec fn read_key_behind(
    key: Seq<u8>,
    start: Seq<u8>,
    missing: Seq<char>,
    data_type: DataType,
) -> Result<Datum, Report> {
    if starts_with(key, start) {
        read_key(data_type, key.skip(start.len() as int))
    } else {
        Err(internal(missing))
    }
}

fn decode_behind(key: &[u8], start: &[u8], missing: &str, data_type: &DataType) -> (result: Result<
    ColumnValue,
    UserError,
>)
    ensures
        seen_value(result) == read_key_behind(key@, start@, missing@, *data_type),
{
    if has_prefix(key, start) {
        let suffix = vstd::slice::slice_subrange(key, start.len(), key.len());
        assert(suffix@ =~= key@.skip(start@.len() as int));
        decode_primary_key_segment(data_type, suffix)
    } else {
        Err(user_error("XX000", missing))
    }
}

/// Reads the primary key back from a row marker's key.
pub fn decode_pk_from_row_marker_key(
    key: &[u8],
    database_name: &str,
    schema_name: &str,
    table_name: &str,
    data_type: &DataType,
) -> (result: Result<ColumnValue, UserError>)
    ensures
        seen_value(result) == read_key_behind(
            key@,
            column_prefix(database_name@, schema_name@, table_name@, "__row__"@),
            "row marker key missing expected prefix"@,
            *data_type,
        ),
{
    let start = row_marker_prefix(database_name, schema_name, table_name);
    decode_behind(key, start.as_slice(), "row marker key missing expected prefix", data_type)
}

/// Reads the primary key back from a cell's key.
pub fn decode_pk_from_cell_key(
    key: &[u8],
    database_name: &str,
    schema_name: &str,
    table_name: &str,
    column_name: &str,
    data_type: &DataType,
) -> (result: Result<ColumnValue, UserError>)
    ensures
        seen_value(result) == read_key_behind(
            key@,
            column_prefix(database_name@, schema_name@, table_name@, column_name@),
            "cell key missing expected prefix"@,
            *data_type,
        ),
{
    let start = cell_prefix(database_name, schema_name, table_name, column_name);
    decode_behind(key, start.as_slice(), "cell key missing expected prefix", data_type)
}

/// Reads the primary key back from an index entry's key.
pub fn decode_pk_from_index_entry_key(
    key: &[u8],
    database_name: &str,
    schema_name: &str,
    table_name: &str,
    index_name: &str,
    index_value: &ColumnValue,
    pk_data_type: &DataType,
) -> (result: Result<ColumnValue, UserError>)
    ensures
        seen_value(result) == read_key_behind(
            key@,
            entry_prefix(database_name@, schema_name@, table_name@, index_name@, index_value@),
            "index entry key missing expected prefix"@,
            *pk_data_type,
        ),
{
    let start = index_entry_prefix(
        database_name,
        schema_name,
        table_name,
        index_name,
        index_value,
    );
    decode_behind(key, start.as_slice(), "index entry key missing expected prefix", pk_data_type)
}

/// Whether a type's values have the kind of the given value.
pub open spec fn holds(form: Form, value: Datum) -> bool {
    match form {
        Form::Int2 => value is Int16,
        Form::Int4 => value is Int32,
        Form::Int8 => value is Int64,
        Form::Float4 => value is Float32,
        Form::Float8 => value is Float64,
        Form::Bool => value is Boolean,
        Form::Bytes => value is Bytea,
        Form::Text(kind) => datum_text(value) is Some && value == text_datum(
            kind,
            datum_text(value)->0,
        ),
        Form::List => value is Array,
    }
}

/// Whether a value is one of the type, with every length within four bytes.
pub open spec fn storable(data_type: DataType, value: Datum) -> bool
    decreases value,
{
    value is Null || {
        &&& holds(form(data_type), value)
        &&& match value {
            Datum::Bytea(b) => b.len() < 0x1_0000_0000,
            Datum::Array(items) => items.len() < 0x1_0000_0000 && forall|i: int|
                0 <= i < items.len() ==> storable(item_type(data_type), #[trigger] items[i])
                    && cell_bytes(items[i]).len() < 0x1_0000_0000,
            _ => match datum_text(value) {
                Some(text) => encode_utf8(text).len() < 0x1_0000_0000,
                None => true,
            },
        }
    }
}

proof fn lemma_block_roundtrip(content: Seq<u8>, rest: Seq<u8>)
    requires
        content.len() < 0x1_0000_0000,
    ensures
        read_block(block(content) + rest) == Ok::<(Seq<u8>, nat), Report>(
            (content, (4 + content.len()) as nat),
        ),
        block(content).len() == 4 + content.len(),
{
    lemma_be_widths();
    lemma_be_roundtrip(content.len(), 4);
    let bytes = block(content) + rest;
    assert(bytes.take(4) =~= be_bytes(content.len(), 4));
    assert(bytes.subrange(4, 4 + content.len() as int) =~= content);
}

#[verifier::rlimit(40)]
proof fn lemma_list_roundtrip(inner: DataType, head: Seq<u8>, items: Seq<Datum>, count: nat)
    requires
        count <= items.len(),
        head.len() == 4,
        forall|i: int|
            0 <= i < items.len() ==> storable(inner, #[trigger] items[i]) && cell_bytes(
                items[i],
            ).len() < 0x1_0000_0000,
    ensures
        read_list(
            inner,
            head + list_blocks(items),
            (4 + list_blocks(items.take(items.len() - count)).len()) as nat,
            count,
            items.take(items.len() - count),
        ) == Ok::<(Seq<Datum>, nat), Report>((items, (4 + list_blocks(items).len()) as nat)),
    decreases items, 2nat, count,
{
    let bytes = head + list_blocks(items);
    let k = items.len() - count;
    if count == 0 {
        assert(items.take(k) =~= items);
    } else {
        let before = list_blocks(items.take(k));
        lemma_list_split(items, k);
        let rest = bytes.skip(4 + before.len() as int);
        lemma_list_split(items, k + 1);
        assert(items.take(k + 1).drop_last() =~= items.take(k));
        assert(items.take(k + 1).last() == items[k]);
        let tail = list_blocks(items).skip(list_blocks(items.take(k + 1)).len() as int);
        assert(list_blocks(items.take(k + 1)) == before + block(cell_bytes(items[k])));
        assert(list_blocks(items) =~= list_blocks(items.take(k + 1)) + tail);
        assert(rest =~= block(cell_bytes(items[k])) + tail);
        lemma_block_roundtrip(cell_bytes(items[k]), tail);
        lemma_cell_roundtrip(inner, items[k]);
        assert(items.take(k).push(items[k]) =~= items.take(k + 1));
        lemma_list_roundtrip(inner, head, items, (count - 1) as nat);
    }
}

proof fn lemma_list_split(items: Seq<Datum>, k: int)
    requires
        0 <= k <= items.len(),
    ensures
        list_blocks(items.take(k)).len() <= list_blocks(items).len(),
        list_blocks(items).take(list_blocks(items.take(k)).len() as int) == list_blocks(
            items.take(k),
        ),
    decreases items.len(),
{
    if k == items.len() {
        assert(items.take(k) =~= items);
        assert(list_blocks(items).take(list_blocks(items).len() as int) =~= list_blocks(items));
    } else {
        assert(items.drop_last().take(k) =~= items.take(k));
        lemma_list_split(items.drop_last(), k);
        let part = list_blocks(items.take(k));
        assert(list_blocks(items).take(part.len() as int) =~= list_blocks(items.drop_last()).take(
            part.len() as int,
        ));
    }
}

#[verifier::rlimit(40)]
#[verifier::spinoff_prover]
proof fn lemma_value_roundtrip(data_type: DataType, value: Datum)
    requires
        storable(data_type, value),
        !(value is Null),
    ensures
        read_value(data_type, value_bytes(value)) == Ok::<(Datum, nat), Report>(
            (value, value_bytes(value).len()),
        ),
    decreases value, 0nat, 0nat,
{
    broadcast use encode_utf8_valid_utf8, encode_utf8_decode_utf8;

    lemma_be_widths();
    let bytes = value_bytes(value);
    match value {
        Datum::Int16(v) => {
            lemma_be_roundtrip(wrapped(v as int, 0x1_0000), 2);
            assert(bytes.take(2) =~= bytes);
        },
        Datum::Int32(v) => {
            lemma_be_roundtrip(wrapped(v as int, 0x1_0000_0000), 4);
            assert(bytes.take(4) =~= bytes);
        },
        Datum::Int64(v) => {
            lemma_be_roundtrip(wrapped(v as int, 0x1_0000_0000_0000_0000), 8);
            assert(bytes.take(8) =~= bytes);
        },
        Datum::Float32(v) => {
            lemma_be_roundtrip(v as nat, 4);
            assert(bytes.take(4) =~= bytes);
        },
        Datum::Float64(v) => {
            lemma_be_roundtrip(v as nat, 8);
            assert(bytes.take(8) =~= bytes);
        },
        Datum::Boolean(_) => {},
        Datum::Bytea(b) => {
            lemma_block_roundtrip(b, seq![]);
            assert(block(b) + Seq::<u8>::empty() =~= bytes);
        },
        Datum::Array(items) => {
            lemma_be_roundtrip(items.len(), 4);
            let head = be_bytes(items.len(), 4);
            assert(bytes.take(4) =~= head);
            lemma_list_roundtrip(item_type(data_type), head, items, items.len());
            assert(items.take(0) =~= Seq::<Datum>::empty());
        },
        _ => {
            let text = datum_text(value)->0;
            lemma_block_roundtrip(encode_utf8(text), seq![]);
            assert(block(encode_utf8(text)) + Seq::<u8>::empty() =~= bytes);
        },
    }
}

proof fn lemma_cell_roundtrip(data_type: DataType, value: Datum)
    requires
        storable(data_type, value),
    ensures
        read_cell(data_type, cell_bytes(value)) == Ok::<Datum, Report>(value),
    decreases value, 1nat, 0nat,
{
    if !(value is Null) {
        lemma_value_roundtrip(data_type, value);
        assert(cell_bytes(value).skip(1) =~= value_bytes(value));
    }
}

/// What was stored as a cell is read back from it, for every value of the column's type
/// whose lengths fit into four bytes.
pub proof fn law_cell_roundtrip(data_type: DataType, value: Datum)
    requires
        storable(data_type, value),
    ensures
        read_cell(data_type, cell_bytes(value)) == Ok::<Datum, Report>(value),
{
    lemma_cell_roundtrip(data_type, value);
}

/// What was put into a key is read back from it behind the key's start, for every value
/// of the key's type.
pub proof fn law_key_roundtrip(start: Seq<u8>, missing: Seq<char>, data_type: DataType, value: Datum)
    requires
        keyable(value),
        holds(form(data_type), value),
    ensures
        read_key_behind(start + key_segment(value), start, missing, data_type) == Ok::<
            Datum,
            Report,
        >(value),
{
    broadcast use encode_utf8_valid_utf8, encode_utf8_decode_utf8;

    lemma_be_widths();
    let key = start + key_segment(value);
    let segment = key_segment(value);
    assert(key.take(start.len() as int) =~= start);
    assert(key.skip(start.len() as int) =~= segment);
    match value {
        Datum::Int16(v) => {
            lemma_be_roundtrip((v + 0x8000) as nat, 2);
        },
        Datum::Int32(v) => {
            lemma_be_roundtrip((v + 0x8000_0000) as nat, 4);
        },
        Datum::Int64(v) => {
            lemma_be_roundtrip((v + 0x8000_0000_0000_0000) as nat, 8);
        },
        Datum::Float32(bits) => {
            lemma_be_roundtrip(float_rank(bits as nat, 0x1_0000_0000), 4);
        },
        Datum::Float64(bits) => {
            lemma_be_roundtrip(float_rank(bits as nat, 0x1_0000_0000_0000_0000), 8);
        },
        Datum::Bytea(b) => {
            assert(segment.drop_last() =~= b);
        },
        _ => {
            let text = datum_text(value)->0;
            assert(segment.drop_last() =~= encode_utf8(text));
        },
    }
}

/// The order of values of one kind that keys keep: that of numbers, of floating-point
/// numbers by sign and magnitude, and of byte strings.
pub open spec fn key_order(a: Datum, b: Datum) -> bool {
    match (a, b) {
        (Datum::Int16(x), Datum::Int16(y)) => x < y,
        (Datum::Int32(x), Datum::Int32(y)) => x < y,
        (Datum::Int64(x), Datum::Int64(y)) => x < y,
        (Datum::Float32(x), Datum::Float32(y)) => magnitude(x as nat, 0x1_0000_0000) < magnitude(
            y as nat,
            0x1_0000_0000,
        ),
        (Datum::Float64(x), Datum::Float64(y)) => magnitude(x as nat, 0x1_0000_0000_0000_0000)
            < magnitude(y as nat, 0x1_0000_0000_0000_0000),
        (Datum::Bytea(x), Datum::Bytea(y)) => bytes_less(x, y),
        _ => datum_text(a) matches Some(x) && datum_text(b) matches Some(y) && bytes_less(
            encode_utf8(x),
            encode_utf8(y),
        ),
    }
}

/// A floating-point pattern as a signed magnitude.
pub open spec fn magnitude(bits: nat, limit: nat) -> int {
    if bits < limit / 2 {
        bits as int
    } else {
        -(bits - limit / 2)
    }
}

proof fn lemma_closed_order(a: Seq<u8>, b: Seq<u8>)
    requires
        bytes_less(a, b),
    ensures
        bytes_less(a.push(0), b.push(0)),
    decreases a.len(),
{
    if a.len() == 0 {
        assert(a.push(0).skip(1) =~= seq![]);
        assert(b.push(0)[0] == b[0]);
        assert(bytes_less(a.push(0).skip(1), b.push(0).skip(1)));
    } else {
        assert(a.push(0)[0] == a[0]);
        assert(b.push(0)[0] == b[0]);
        if a[0] == b[0] {
            lemma_closed_order(a.skip(1), b.skip(1));
            assert(a.push(0).skip(1) =~= a.skip(1).push(0));
            assert(b.push(0).skip(1) =~= b.skip(1).push(0));
        }
    }
}

/// Keys with one start are ordered like the values that they hold.
pub proof fn law_keys_keep_order(start: Seq<u8>, a: Datum, b: Datum)
    requires
        key_order(a, b),
    ensures
        bytes_less(start + key_segment(a), start + key_segment(b)),
{
    lemma_be_widths();
    match (a, b) {
        (Datum::Int16(x), Datum::Int16(y)) => {
            lemma_be_order((x + 0x8000) as nat, (y + 0x8000) as nat, 2);
        },
        (Datum::Int32(x), Datum::Int32(y)) => {
            lemma_be_order((x + 0x8000_0000) as nat, (y + 0x8000_0000) as nat, 4);
        },
        (Datum::Int64(x), Datum::Int64(y)) => {
            lemma_be_order(
                (x + 0x8000_0000_0000_0000) as nat,
                (y + 0x8000_0000_0000_0000) as nat,
                8,
            );
        },
        (Datum::Float32(x), Datum::Float32(y)) => {
            lemma_be_order(
                float_rank(x as nat, 0x1_0000_0000),
                float_rank(y as nat, 0x1_0000_0000),
                4,
            );
        },
        (Datum::Float64(x), Datum::Float64(y)) => {
            lemma_be_order(
                float_rank(x as nat, 0x1_0000_0000_0000_0000),
                float_rank(y as nat, 0x1_0000_0000_0000_0000),
                8,
            );
        },
        (Datum::Bytea(x), Datum::Bytea(y)) => {
            lemma_closed_order(x, y);
        },
        _ => {
            lemma_closed_order(encode_utf8(datum_text(a)->0), encode_utf8(datum_text(b)->0));
        },
    }
    lemma_bytes_less_prefix(start, key_segment(a), key_segment(b));
}

/// The keys of every column of a table, its row markers among them, start with the
/// table's prefix.
pub proof fn law_column_keys_are_table_keys(
    database_name: Seq<char>,
    schema_name: Seq<char>,
    table_name: Seq<char>,
    column_name: Seq<char>,
    value: Datum,
)
    ensures
        starts_with(
            column_prefix(database_name, schema_name, table_name, column_name) + key_segment(value),
            table_prefix(database_name, schema_name, table_name),
        ),
{
    let names = seq!["__table__"@, database_name, schema_name, table_name];
    let longer = seq!["__table__"@, database_name, schema_name, table_name, column_name];
    assert(longer.drop_last() =~= names);
    assert(key_path(longer) =~= key_path(names) + (column_name + seq![':']));
    lemma_utf8_concat(key_path(names), column_name + seq![':']);
    let start = table_prefix(database_name, schema_name, table_name);
    assert((column_prefix(database_name, schema_name, table_name, column_name) + key_segment(
        value,
    )).take(start.len() as int) =~= start);
}

/// The keys of every index entry of a table start with the prefix of the table's indexes.
pub proof fn law_index_keys_are_table_index_keys(
    database_name: Seq<char>,
    schema_name: Seq<char>,
    table_name: Seq<char>,
    index_name: Seq<char>,
    value: Datum,
    pk: Datum,
)
    ensures
        starts_with(
            entry_prefix(database_name, schema_name, table_name, index_name, value) + key_segment(
                pk,
            ),
            indexes_prefix(database_name, schema_name, table_name),
        ),
{
    let names = seq!["__index__"@, database_name, schema_name, table_name];
    let longer = seq!["__index__"@, database_name, schema_name, table_name, index_name];
    assert(longer.drop_last() =~= names);
    assert(key_path(longer) =~= key_path(names) + (index_name + seq![':']));
    lemma_utf8_concat(key_path(names), index_name + seq![':']);
    let start = indexes_prefix(database_name, schema_name, table_name);
    assert((entry_prefix(database_name, schema_name, table_name, index_name, value) + key_segment(
        pk,
    )).take(start.len() as int) =~= start);
}

} // verus!
