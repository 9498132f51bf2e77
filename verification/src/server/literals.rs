//! Values as SQL writes them.
use vstd::prelude::*;

use crate::schema::views;
use crate::text::{chars_of, decimal, decimal_text, signed_decimal, signed_decimal_text};
use crate::types::{data, ColumnValue, Datum};

verus! {

/// A text in which every occurrence of a mark stands twice.
pub open spec fn doubled(text: Seq<char>, mark: char) -> Seq<char>
    decreases text.len(),
{
    if text.len() == 0 {
        seq![]
    } else if text.last() == mark {
        doubled(text.drop_last(), mark).push(mark).push(mark)
    } else {
        doubled(text.drop_last(), mark).push(text.last())
    }
}

/// A text in which every pair of marks is one mark.
pub open spec fn halved(text: Seq<char>, mark: char) -> Seq<char>
    decreases text.len(),
{
    if text.len() == 0 {
        seq![]
    } else if text.len() >= 2 && text.last() == mark && text[text.len() - 2] == mark {
        halved(text.take(text.len() - 2), mark).push(mark)
    } else {
        halved(text.drop_last(), mark).push(text.last())
    }
}

/// Pairs of marks, read as one mark each, give the text back.
pub proof fn law_halved_undoes_doubled(text: Seq<char>, mark: char)
    ensures
        halved(doubled(text, mark), mark) == text,
    decreases text.len(),
{
    if text.len() > 0 {
        let rest = text.drop_last();
        law_halved_undoes_doubled(rest, mark);
        let start = doubled(rest, mark);
        let full = doubled(text, mark);
        if text.last() == mark {
            assert(full.take(full.len() - 2) =~= start);
        } else {
            assert(full.drop_last() =~= start);
        }
        assert(rest.push(text.last()) =~= text);
    }
}

/// A text as a literal of SQL.
pub open spec fn quoted_literal(text: Seq<char>) -> Seq<char> {
    "'"@ + doubled(text, '\'') + "'"@
}

/// Doubles every occurrence of a mark.
pub fn double_mark(text: &str, mark: char) -> (out: String)
    ensures
        out@ == doubled(text@, mark),
{
    let chars = chars_of(text);
    let mut out = String::new();
    let mut i: usize = 0;
    assert(text@.take(0) =~= Seq::<char>::empty());
    assert(out@ =~= doubled(text@.take(0), mark));
    while i < chars.len()
        invariant
            i <= chars@.len(),
            chars@ == text@,
            out@ == doubled(text@.take(i as int), mark),
        decreases chars@.len() - i,
    {
        assert(text@.take(i + 1).drop_last() =~= text@.take(i as int));
        assert(text@.take(i + 1).last() == chars@[i as int]);
        if chars[i] == mark {
            out.push(mark);
            out.push(mark);
        } else {
            out.push(chars[i]);
        }
        i += 1;
    }
    assert(text@.take(i as int) =~= text@);
    out
}

/// A text as a literal of SQL.
pub fn quote_sql_literal(value: &str) -> (literal: String)
    ensures
        literal@ == quoted_literal(value@),
{
    let mut literal = "'".to_string();
    let inner = double_mark(value, '\'');
    literal.push_str(inner.as_str());
    literal.push_str("'");
    literal
}

/// The hexadecimal digit of a number below sixteen.
pub open spec fn hex_char(n: nat) -> char {
    if n == 0 {
        '0'
    } else if n == 1 {
        '1'
    } else if n == 2 {
        '2'
    } else if n == 3 {
        '3'
    } else if n == 4 {
        '4'
    } else if n == 5 {
        '5'
    } else if n == 6 {
        '6'
    } else if n == 7 {
        '7'
    } else if n == 8 {
        '8'
    } else if n == 9 {
        '9'
    } else if n == 10 {
        'a'
    } else if n == 11 {
        'b'
    } else if n == 12 {
        'c'
    } else if n == 13 {
        'd'
    } else if n == 14 {
        'e'
    } else {
        'f'
    }
}

/// Bytes as pairs of hexadecimal digits.
pub open spec fn hex(bytes: Seq<u8>) -> Seq<char>
    decreases bytes.len(),
{
    if bytes.len() == 0 {
        seq![]
    } else {
        hex(bytes.drop_last()).push(hex_char((bytes.last() / 16) as nat)).push(
            hex_char((bytes.last() % 16) as nat),
        )
    }
}

fn hex_digit(n: u8) -> (ch: char)
    requires
        n < 16,
    ensures
        ch == hex_char(n as nat),
{
    match n {
        0 => '0',
        1 => '1',
        2 => '2',
        3 => '3',
        4 => '4',
        5 => '5',
        6 => '6',
        7 => '7',
        8 => '8',
        9 => '9',
        10 => 'a',
        11 => 'b',
        12 => 'c',
        13 => 'd',
        14 => 'e',
        _ => 'f',
    }
}

/// Bytes as pairs of hexadecimal digits.
pub fn postgres_explain_hex(bytes: &Vec<u8>) -> (text: String)
    ensures
        text@ == hex(bytes@),
{
    let mut text = String::new();
    let mut i: usize = 0;
    assert(bytes@.take(0) =~= Seq::<u8>::empty());
    assert(text@ =~= hex(bytes@.take(0)));
    while i < bytes.len()
        invariant
            i <= bytes@.len(),
            text@ == hex(bytes@.take(i as int)),
        decreases bytes@.len() - i,
    {
        assert(bytes@.take(i + 1).drop_last() =~= bytes@.take(i as int));
        text.push(hex_digit(bytes[i] / 16));
        text.push(hex_digit(bytes[i] % 16));
        i += 1;
    }
    assert(bytes@.take(i as int) =~= bytes@);
    text
}

/// How a floating-point number is written: `single` tells numbers of 32 bits from those of 64.
#[derive(Debug)]
pub struct FloatText {
    pub bits: u64,
    pub single: bool,
    pub text: String,
}

/// What a [`FloatText`] says.
pub struct FloatTextModel {
    pub bits: u64,
    pub single: bool,
    pub text: Seq<char>,
}

impl View for FloatText {
    type V = FloatTextModel;

    open spec fn view(&self) -> FloatTextModel {
        FloatTextModel { bits: self.bits, single: self.single, text: self.text@ }
    }
}

/// How a floating-point number is written, as far as it is among those that are known.
pub open spec fn float_text(floats: Seq<FloatTextModel>, bits: u64, single: bool) -> Option<
    Seq<char>,
>
    decreases floats.len(),
{
    if floats.len() == 0 {
        None
    } else if floats[0].bits == bits && floats[0].single == single {
        Some(floats[0].text)
    } else {
        float_text(floats.skip(1), bits, single)
    }
}

/// How a floating-point number is written.
pub fn find_float_text(floats: &Vec<FloatText>, bits: u64, single: bool) -> (text: Option<String>)
    ensures
        crate::schema::option_view(text) == float_text(views(floats@), bits, single),
{
    let ghost all = views(floats@);
    let mut i: usize = 0;
    assert(all.skip(0) =~= all);
    while i < floats.len()
        invariant
            i <= floats@.len(),
            all == views(floats@),
            float_text(all, bits, single) == float_text(all.skip(i as int), bits, single),
        decreases floats@.len() - i,
    {
        assert(all.skip(i as int)[0] == floats@[i as int]@);
        assert(all.skip(i as int).skip(1) =~= all.skip(i + 1));
        if floats[i].bits == bits && floats[i].single == single {
            return Some(floats[i].text.clone());
        }
        i += 1;
    }
    None
}

/// How a floating-point number is written: by its bits, where nothing else is known of it.
pub open spec fn float_form(floats: Seq<FloatTextModel>, bits: u64, single: bool) -> Seq<char> {
    match float_text(floats, bits, single) {
        Some(text) => text,
        None => decimal(bits as nat),
    }
}

/// How a floating-point number is written, whether it is among those that are known or not.
pub fn float_form_of(floats: &Vec<FloatText>, bits: u64, single: bool) -> (text: String)
    ensures
        text@ == float_form(views(floats@), bits, single),
{
    match find_float_text(floats, bits, single) {
        Some(text) => text,
        None => decimal_text(bits),
    }
}

/// A value as the description of a scan gives it.
pub open spec fn explained(value: Datum, floats: Seq<FloatTextModel>) -> Seq<char>
    decreases value,
{
    match value {
        Datum::Null => "NULL"@,
        Datum::Int16(v) => signed_decimal(v as int),
        Datum::Int32(v) => signed_decimal(v as int),
        Datum::Int64(v) => signed_decimal(v as int),
        Datum::Float32(v) => float_form(floats, v as u64, true),
        Datum::Float64(v) => float_form(floats, v, false),
        Datum::Numeric(v) => quoted_literal(v),
        Datum::Text(v) => quoted_literal(v),
        Datum::Date(v) => quoted_literal(v),
        Datum::Timestamp(v) => quoted_literal(v),
        Datum::TimestampTz(v) => quoted_literal(v),
        Datum::Uuid(v) => quoted_literal(v),
        Datum::Json(v) => quoted_literal(v),
        Datum::Jsonb(v) => quoted_literal(v),
        Datum::Bytea(v) => "'\\x"@ + hex(v) + "'"@,
        Datum::Boolean(v) => if v {
            "true"@
        } else {
            "false"@
        },
        Datum::Array(items) => "{"@ + explained_list(items, floats) + "}"@,
    }
}

/// Values, with commas between them, as the description of a scan gives them.
pub open spec fn explained_list(items: Seq<Datum>, floats: Seq<FloatTextModel>) -> Seq<char>
    decreases items,
{
    if items.len() == 0 {
        seq![]
    } else if items.len() == 1 {
        explained(items[0], floats)
    } else {
        explained_list(items.drop_last(), floats) + ", "@ + explained(items.last(), floats)
    }
}

/// A value as the description of a scan gives it.
pub fn postgres_explain_value(value: &ColumnValue, floats: &Vec<FloatText>) -> (text: String)
    ensures
        text@ == explained(value@, views(floats@)),
    decreases value,
{
    match value {
        ColumnValue::Null => "NULL".to_string(),
        ColumnValue::Int16(v) => signed_decimal_text(*v as i64),
        ColumnValue::Int32(v) => signed_decimal_text(*v as i64),
        ColumnValue::Int64(v) => signed_decimal_text(*v),
        ColumnValue::Float32(v) => float_form_of(floats, *v as u64, true),
        ColumnValue::Float64(v) => float_form_of(floats, *v, false),
        ColumnValue::Numeric(v) => quote_sql_literal(v.as_str()),
        ColumnValue::Text(v) => quote_sql_literal(v.as_str()),
        ColumnValue::Date(v) => quote_sql_literal(v.as_str()),
        ColumnValue::Timestamp(v) => quote_sql_literal(v.as_str()),
        ColumnValue::TimestampTz(v) => quote_sql_literal(v.as_str()),
        ColumnValue::Uuid(v) => quote_sql_literal(v.as_str()),
        ColumnValue::Json(v) => quote_sql_literal(v.as_str()),
        ColumnValue::Jsonb(v) => quote_sql_literal(v.as_str()),
        ColumnValue::Bytea(v) => {
            let mut text = "'\\x".to_string();
            text.push_str(postgres_explain_hex(v).as_str());
            text.push_str("'");
            text
        },
        ColumnValue::Boolean(v) => {
            if *v {
                "true".to_string()
            } else {
                "false".to_string()
            }
        },
        ColumnValue::Array(items) => {
            let ghost all = value@->Array_0;
            assert(all =~= data(items@));
            let mut text = "{".to_string();
            let ghost start = text@;
            let mut i: usize = 0;
            assert(all.take(0) =~= Seq::<Datum>::empty());
            assert(start + Seq::<char>::empty() =~= start);
            while i < items.len()
                invariant
                    i <= items@.len(),
                    value is Array,
                    *items == value->Array_0,
                    all == data(items@),
                    text@ == start + explained_list(all.take(i as int), views(floats@)),
                decreases items@.len() - i,
            {
                assert(all.take(i + 1).drop_last() =~= all.take(i as int));
                assert(all.take(i + 1).last() == items@[i as int]@);
                let ghost so_far = explained_list(all.take(i as int), views(floats@));
                if i > 0 {
                    text.push_str(", ");
                }
                let one = postgres_explain_value(&items[i], floats);
                text.push_str(one.as_str());
                assert(text@ =~= start + explained_list(all.take(i + 1), views(floats@)));
                i += 1;
            }
            assert(all.take(i as int) =~= all);
            text.push_str("}");
            text
        },
    }
}

/// Values, with commas between them, as the description of a scan gives them.
pub fn explain_values(values: &Vec<ColumnValue>, floats: &Vec<FloatText>) -> (text: String)
    ensures
        text@ == explained_list(views(values@), views(floats@)),
{
    let ghost all = views(values@);
    let mut text = String::new();
    let mut i: usize = 0;
    assert(all.take(0) =~= Seq::<Datum>::empty());
    assert(text@ =~= explained_list(all.take(0), views(floats@)));
    while i < values.len()
        invariant
            i <= values@.len(),
            all == views(values@),
            text@ == explained_list(all.take(i as int), views(floats@)),
        decreases values@.len() - i,
    {
        assert(all.take(i + 1).drop_last() =~= all.take(i as int));
        assert(all.take(i + 1).last() == values@[i as int]@);
        if i > 0 {
            text.push_str(", ");
        }
        let one = postgres_explain_value(&values[i], floats);
        text.push_str(one.as_str());
        assert(text@ =~= explained_list(all.take(i + 1), views(floats@)));
        i += 1;
    }
    assert(all.take(i as int) =~= all);
    text
}

} // verus!
