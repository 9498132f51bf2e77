//! What copied data are for: each field becomes the value of its own column, in the form that
//! the type of the column has, and each row is written with its entries in the indexes.
use vstd::prelude::*;
use vstd::utf8::{encode_utf8, encode_utf8_decode_utf8, encode_utf8_valid_utf8};

use crate::catalog::types::IndexModel;
use crate::error::Report;
use crate::row::RowModel;
use crate::schema::{column_position, TableModel};
use crate::server::copy::{
    copied_row, entries_added, entry_added, field_value, law_entries_come_last, line_read,
    row_added, stored_elsewhere, CopyModel, FactsModel, LineModel, WriteModel,
};
use crate::server::copy_text::{csv_fields, line_fields, with_option, CopyOptionModel, OptionsModel};
use crate::server::load_data::{literal, literal_rest};
use crate::server::rows::{has_null, indexed};
use crate::text::{
    all_digits, decimal, digits_value, is_digit, lemma_decimal_shape, lower, signed_decimal, split,
};
use crate::types::{lemma_plain_type_codes, type_code, DataType, Datum};

verus! {

/// The words for true, in small letters.
pub open spec fn is_true_word(text: Seq<char>) -> bool {
    lower(text) == "t"@ || lower(text) == "true"@ || lower(text) == "1"@
}

/// The words for false, in small letters.
pub open spec fn is_false_word(text: Seq<char>) -> bool {
    lower(text) == "f"@ || lower(text) == "false"@ || lower(text) == "0"@
}

/// A field of a boolean column is true where it is a word for true, false where it is a word for
/// false, whatever its case, and refused where it is neither.
pub proof fn law_booleans_are_read(
    raw: Seq<char>,
    options: OptionsModel,
    parsed: Result<Datum, Report>,
)
    requires
        raw != options.null,
    ensures
        !(is_true_word(raw) && is_false_word(raw)),
        is_true_word(raw) ==> field_value(raw, type_code(DataType::Boolean), options, parsed)
            == Ok::<Datum, Report>(Datum::Boolean(true)),
        is_false_word(raw) ==> field_value(raw, type_code(DataType::Boolean), options, parsed)
            == Ok::<Datum, Report>(Datum::Boolean(false)),
        !is_true_word(raw) && !is_false_word(raw) ==> (field_value(
            raw,
            type_code(DataType::Boolean),
            options,
            parsed,
        ) matches Err(e) && e.code == "22P02"@),
{
    lemma_plain_type_codes(DataType::Boolean);
    reveal_strlit("t");
    reveal_strlit("true");
    reveal_strlit("1");
    reveal_strlit("f");
    reveal_strlit("false");
    reveal_strlit("0");
    assert("t"@[0] == 't' && "true"@[0] == 't' && "1"@[0] == '1');
    assert("f"@[0] == 'f' && "false"@[0] == 'f' && "0"@[0] == '0');
}

/// The text that stands for a boolean in each of its usual forms, capitals or not, is read back
/// as that boolean.
pub proof fn law_written_booleans_are_read_back(
    value: bool,
    options: OptionsModel,
    parsed: Result<Datum, Report>,
)
    ensures
        ({
            let code = type_code(DataType::Boolean);
            let said = Ok::<Datum, Report>(Datum::Boolean(value));
            let short = if value {
                seq!['t']
            } else {
                seq!['f']
            };
            let long = if value {
                seq!['t', 'r', 'u', 'e']
            } else {
                seq!['f', 'a', 'l', 's', 'e']
            };
            let digit = if value {
                seq!['1']
            } else {
                seq!['0']
            };
            &&& options.null != short ==> field_value(short, code, options, parsed) == said
            &&& options.null != long ==> field_value(long, code, options, parsed) == said
            &&& options.null != digit ==> field_value(digit, code, options, parsed) == said
        }),
{
    reveal_strlit("t");
    reveal_strlit("true");
    reveal_strlit("1");
    reveal_strlit("f");
    reveal_strlit("false");
    reveal_strlit("0");
    let short = if value {
        seq!['t']
    } else {
        seq!['f']
    };
    let long = if value {
        seq!['t', 'r', 'u', 'e']
    } else {
        seq!['f', 'a', 'l', 's', 'e']
    };
    let digit = if value {
        seq!['1']
    } else {
        seq!['0']
    };
    assert(lower(short) =~= short);
    assert(lower(long) =~= long);
    assert(lower(digit) =~= digit);
    if value {
        assert(short =~= "t"@);
        assert(long =~= "true"@);
        assert(digit =~= "1"@);
    } else {
        assert(short =~= "f"@);
        assert(long =~= "false"@);
        assert(digit =~= "0"@);
    }
    if options.null != short {
        law_booleans_are_read(short, options, parsed);
    }
    if options.null != long {
        law_booleans_are_read(long, options, parsed);
    }
    if options.null != digit {
        law_booleans_are_read(digit, options, parsed);
    }
}

/// A whole number of a type, as a value of it.
pub open spec fn number_value(data_type: DataType, number: int) -> Datum {
    match data_type {
        DataType::Int16 => Datum::Int16(number as i16),
        DataType::Int32 => Datum::Int32(number as i32),
        _ => Datum::Int64(number as i64),
    }
}

/// Whether a whole number fits a type.
pub open spec fn number_fits(data_type: DataType, number: int) -> bool {
    match data_type {
        DataType::Int16 => i16::MIN <= number <= i16::MAX,
        DataType::Int32 => i32::MIN <= number <= i32::MAX,
        DataType::Int64 => i64::MIN <= number <= i64::MAX,
        _ => false,
    }
}

/// Digits, with a sign or without, are read as the number that they stand for where it fits the
/// column, and refused where it does not.
pub proof fn law_numbers_are_read(
    digits: Seq<char>,
    sign: Option<char>,
    data_type: DataType,
    options: OptionsModel,
    parsed: Result<Datum, Report>,
)
    requires
        digits.len() > 0,
        all_digits(digits),
        sign is None || sign == Some('+') || sign == Some('-'),
        data_type is Int16 || data_type is Int32 || data_type is Int64,
    ensures
        ({
            let raw = (match sign {
                Some(mark) => seq![mark],
                None => seq![],
            }) + digits;
            let number = if sign == Some('-') {
                -(digits_value(digits) as int)
            } else {
                digits_value(digits) as int
            };
            raw != options.null ==> match field_value(raw, type_code(data_type), options, parsed) {
                Ok(value) => number_fits(data_type, number) && value == number_value(
                    data_type,
                    number,
                ),
                Err(e) => !number_fits(data_type, number) && e.code == "22P02"@,
            }
        }),
{
    lemma_plain_type_codes(data_type);
    let front = match sign {
        Some(mark) => seq![mark],
        None => seq![],
    };
    let raw = front + digits;
    assert(is_digit(digits[0]));
    if sign is None {
        assert(raw =~= digits);
    } else {
        assert(raw.skip(1) =~= digits);
    }
}

/// A number as it is written in decimal is read back as itself.
pub proof fn law_written_numbers_are_read_back(
    number: int,
    data_type: DataType,
    options: OptionsModel,
    parsed: Result<Datum, Report>,
)
    requires
        number_fits(data_type, number),
        signed_decimal(number) != options.null,
    ensures
        field_value(signed_decimal(number), type_code(data_type), options, parsed) == Ok::<
            Datum,
            Report,
        >(number_value(data_type, number)),
{
    let size = (if number < 0 {
        -number
    } else {
        number
    }) as nat;
    lemma_decimal_shape(size);
    if number < 0 {
        law_numbers_are_read(decimal(size), Some('-'), data_type, options, parsed);
    } else {
        law_numbers_are_read(decimal(size), None, data_type, options, parsed);
        assert(Seq::<char>::empty() + decimal(size) =~= decimal(size));
    }
}

/// What is no number is refused for a column of numbers.
pub proof fn law_other_texts_are_no_numbers(
    raw: Seq<char>,
    data_type: DataType,
    options: OptionsModel,
    parsed: Result<Datum, Report>,
)
    requires
        data_type is Int16 || data_type is Int32 || data_type is Int64,
        raw != options.null,
        raw.len() == 0 || !all_digits(raw),
        raw.len() <= 1 || !all_digits(raw.skip(1)) || raw[0] != '+' && raw[0] != '-',
    ensures
        field_value(raw, type_code(data_type), options, parsed) matches Err(e) && e.code
            == "22P02"@,
{
    lemma_plain_type_codes(data_type);
}

/// The null text is null in every column; every other field of a column of another type is what
/// was read for it by that type.
pub proof fn law_nulls_and_others(
    raw: Seq<char>,
    data_type: DataType,
    options: OptionsModel,
    parsed: Result<Datum, Report>,
)
    ensures
        raw == options.null ==> field_value(raw, type_code(data_type), options, parsed) == Ok::<
            Datum,
            Report,
        >(Datum::Null),
        raw != options.null && !(data_type is Int16 || data_type is Int32 || data_type is Int64
            || data_type is Boolean) ==> field_value(raw, type_code(data_type), options, parsed)
            == parsed,
{
    lemma_plain_type_codes(data_type);
}

/// Each field of a line becomes the value of its own column, by the type of that column, and the
/// row has no other values.
pub proof fn law_fields_go_to_their_columns(
    table: TableModel,
    columns: Seq<Seq<char>>,
    fields: Seq<Seq<char>>,
    options: OptionsModel,
    parsed: Seq<Result<Datum, Report>>,
)
    requires
        fields.len() == columns.len(),
        parsed.len() == columns.len(),
        columns.no_duplicates(),
    ensures
        copied_row(table, columns, fields, options, parsed) matches Ok(row) ==> {
            &&& forall|name: Seq<char>| #[trigger]
                row.dom().contains(name) <==> columns.contains(name)
            &&& forall|i: int|
                0 <= i < columns.len() ==> {
                    &&& column_position(table.columns, #[trigger] columns[i]) is Some
                    &&& field_value(
                        fields[i],
                        table.columns[column_position(table.columns, columns[i])->0 as int].data_type,
                        options,
                        parsed[i],
                    ) == Ok::<Datum, Report>(row[columns[i]])
                }
        },
    decreases columns.len(),
{
    if columns.len() > 0 {
        let init = columns.drop_last();
        law_fields_go_to_their_columns(
            table,
            init,
            fields.drop_last(),
            options,
            parsed.drop_last(),
        );
        if let Ok(row) = copied_row(table, columns, fields, options, parsed) {
            let before = copied_row(
                table,
                init,
                fields.drop_last(),
                options,
                parsed.drop_last(),
            )->Ok_0;
            assert forall|name: Seq<char>| #[trigger]
                row.dom().contains(name) <==> columns.contains(name) by {
                if columns.contains(name) {
                    let i = choose|i: int| 0 <= i < columns.len() && columns[i] == name;
                    if i < init.len() {
                        assert(init[i] == name);
                    }
                }
                if init.contains(name) {
                    let i = choose|i: int| 0 <= i < init.len() && init[i] == name;
                    assert(columns[i] == name);
                }
                assert(before.dom().contains(name) <==> init.contains(name));
                assert(columns[columns.len() - 1] == columns.last());
            }
            assert forall|i: int| 0 <= i < columns.len() implies {
                &&& column_position(table.columns, #[trigger] columns[i]) is Some
                &&& field_value(
                    fields[i],
                    table.columns[column_position(table.columns, columns[i])->0 as int].data_type,
                    options,
                    parsed[i],
                ) == Ok::<Datum, Report>(row[columns[i]])
            } by {
                if i < init.len() {
                    assert(init[i] == columns[i]);
                    assert(columns[i] != columns.last());
                    assert(row[columns[i]] == before[columns[i]]);
                }
            }
        }
    }
}

/// A row cannot be made where a column is not the table's or a field is no value of its type.
pub proof fn law_bad_fields_are_refused(
    table: TableModel,
    columns: Seq<Seq<char>>,
    fields: Seq<Seq<char>>,
    options: OptionsModel,
    parsed: Seq<Result<Datum, Report>>,
    i: int,
)
    requires
        fields.len() == columns.len(),
        parsed.len() == columns.len(),
        0 <= i < columns.len(),
        match column_position(table.columns, columns[i]) {
            None => true,
            Some(n) => field_value(
                fields[i],
                table.columns[n as int].data_type,
                options,
                parsed[i],
            ) is Err,
        },
    ensures
        copied_row(table, columns, fields, options, parsed) is Err,
    decreases columns.len(),
{
    if i < columns.len() - 1 {
        law_bad_fields_are_refused(
            table,
            columns.drop_last(),
            fields.drop_last(),
            options,
            parsed.drop_last(),
            i,
        );
    }
}

/// Fields with a mark between them.
pub open spec fn text_line(fields: Seq<Seq<char>>, mark: char) -> Seq<char>
    decreases fields.len(),
{
    if fields.len() == 0 {
        seq![]
    } else if fields.len() == 1 {
        fields[0]
    } else {
        text_line(fields.drop_last(), mark) + seq![mark] + fields.last()
    }
}

proof fn lemma_plain_piece(text: Seq<char>, mark: char)
    requires
        !text.contains(mark),
    ensures
        split(text, mark) == seq![text],
    decreases text.len(),
{
    if text.len() > 0 {
        assert(text[text.len() - 1] == text.last());
        assert(!text.drop_last().contains(mark)) by {
            if text.drop_last().contains(mark) {
                let i = choose|i: int|
                    0 <= i < text.drop_last().len() && text.drop_last()[i] == mark;
                assert(text[i] == mark);
            }
        }
        lemma_plain_piece(text.drop_last(), mark);
        assert(text.drop_last().push(text.last()) =~= text);
        assert(split(text, mark) =~= seq![text]);
    } else {
        assert(text =~= seq![]);
    }
}

proof fn lemma_last_piece(front: Seq<char>, mark: char, piece: Seq<char>)
    requires
        !piece.contains(mark),
    ensures
        split(front + seq![mark] + piece, mark) == split(front, mark).push(piece),
    decreases piece.len(),
{
    let text = front + seq![mark] + piece;
    if piece.len() == 0 {
        assert(text.drop_last() =~= front);
        assert(piece =~= seq![]);
    } else {
        assert(piece[piece.len() - 1] == piece.last());
        assert(text.drop_last() =~= front + seq![mark] + piece.drop_last());
        assert(!piece.drop_last().contains(mark)) by {
            if piece.drop_last().contains(mark) {
                let i = choose|i: int|
                    0 <= i < piece.drop_last().len() && piece.drop_last()[i] == mark;
                assert(piece[i] == mark);
            }
        }
        lemma_last_piece(front, mark, piece.drop_last());
        let before = split(text.drop_last(), mark);
        assert(before.drop_last() =~= split(front, mark));
        assert(piece.drop_last().push(piece.last()) =~= piece);
    }
}

/// A line of fields with the delimiter between them is split into just these fields.
pub proof fn law_plain_fields_come_back(fields: Seq<Seq<char>>, options: OptionsModel)
    requires
        fields.len() > 0,
        options.format is Text,
        forall|i: int|
            0 <= i < fields.len() ==> !(#[trigger] fields[i]).contains(options.delimiter),
    ensures
        line_fields(text_line(fields, options.delimiter), options) == Ok::<
            Seq<Seq<char>>,
            Report,
        >(fields),
    decreases fields.len(),
{
    if fields.len() == 1 {
        assert(!fields[0].contains(options.delimiter));
        lemma_plain_piece(fields[0], options.delimiter);
        assert(fields =~= seq![fields[0]]);
    } else {
        let init = fields.drop_last();
        assert forall|i: int| 0 <= i < init.len() implies !(#[trigger] init[i]).contains(
            options.delimiter,
        ) by {
            assert(init[i] == fields[i]);
        }
        law_plain_fields_come_back(init, options);
        assert(!fields[fields.len() - 1].contains(options.delimiter));
        lemma_last_piece(
            text_line(init, options.delimiter),
            options.delimiter,
            fields.last(),
        );
        assert(init.push(fields.last()) =~= fields);
    }
}

/// A line gives its fields where there are as many as the table expects, and is refused where
/// there are not; the line with the names of the columns is passed over, once, and so are empty
/// lines and the mark that ends the data.
pub proof fn law_lines_are_read(text: Seq<char>, options: OptionsModel, expected: nat)
    requires
        text.len() > 0,
        encode_utf8(text).last() != 13,
        encode_utf8(text) != seq![92u8, 46u8],
    ensures
        options.header_pending ==> {
            &&& line_read(encode_utf8(text), options, expected).0 == Ok::<LineModel, Report>(
                LineModel::Skip,
            )
            &&& !line_read(encode_utf8(text), options, expected).1.header_pending
        },
        !options.header_pending ==> {
            &&& line_read(encode_utf8(text), options, expected).1 == options
            &&& match line_fields(text, options) {
                Err(e) => line_read(encode_utf8(text), options, expected).0 == Err::<
                    LineModel,
                    Report,
                >(e),
                Ok(fields) => if fields.len() == expected {
                    line_read(encode_utf8(text), options, expected).0 == Ok::<LineModel, Report>(
                        LineModel::Fields { fields },
                    )
                } else {
                    line_read(encode_utf8(text), options, expected).0 matches Err(e) && e.code
                        == "22P04"@
                },
            }
        },
        line_read(seq![], options, expected) == (
            Ok::<LineModel, Report>(LineModel::Skip),
            options,
        ),
        line_read(seq![92u8, 46u8], options, expected) == (
            Ok::<LineModel, Report>(LineModel::Skip),
            options,
        ),
        line_read(encode_utf8(text) + seq![13u8], options, expected) == line_read(
            encode_utf8(text),
            options,
            expected,
        ),
{
    encode_utf8_decode_utf8(text);
    encode_utf8_valid_utf8(text);
    let bytes = encode_utf8(text);
    assert(bytes.len() > 0);
    assert((bytes + seq![13u8]).drop_last() =~= bytes);
    assert((bytes + seq![13u8]).last() == 13);
}

/// An option changes what it names, and a format what goes with it; nothing else.
pub proof fn law_options_change_what_they_name(
    options: OptionsModel,
    mark: char,
    null: Seq<char>,
    header: bool,
)
    ensures
        with_option(options, CopyOptionModel::Delimiter { delimiter: mark }) == Ok::<
            OptionsModel,
            Report,
        >(OptionsModel { delimiter: mark, ..options }),
        with_option(options, CopyOptionModel::Null { null }) == Ok::<OptionsModel, Report>(
            OptionsModel { null, ..options },
        ),
        with_option(options, CopyOptionModel::Header { header }) == Ok::<OptionsModel, Report>(
            OptionsModel { header, ..options },
        ),
        with_option(options, CopyOptionModel::Quote { quote: mark }) == Ok::<OptionsModel, Report>(
            OptionsModel { quote: mark, ..options },
        ),
        with_option(options, CopyOptionModel::Escape { escape: mark }) == Ok::<
            OptionsModel,
            Report,
        >(OptionsModel { escape: mark, ..options }),
        with_option(options, CopyOptionModel::Format { name: "csv"@ }) matches Ok(csv)
            && csv.format is Csv && csv.delimiter == ',' && csv.null.len() == 0 && csv.quote
            == options.quote && csv.escape == options.escape && csv.header == options.header,
        with_option(options, CopyOptionModel::Format { name: "text"@ }) matches Ok(text)
            && text.format is Text && text.delimiter == '\t' && text.null == options.null,
        with_option(options, CopyOptionModel::Format { name: "binary"@ }) is Err,
{
    reveal_strlit("csv");
    reveal_strlit("text");
    reveal_strlit("binary");
    assert(lower("csv"@).len() == 3 && lower("text"@).len() == 4 && lower("binary"@).len() == 6);
}

/// A row that is taken is written, with an entry in each index; it counts for one more row that
/// waits.
pub proof fn law_copied_rows_are_written(
    target: CopyModel,
    row: RowModel,
    key: Datum,
    row_write: WriteModel,
    facts: Seq<FactsModel>,
    max_rows: nat,
    max_entries: nat,
    i: int,
)
    requires
        facts.len() == target.indexes.len(),
        target.pending_rows < usize::MAX,
        0 <= i < facts.len(),
    ensures
        ({
            let (next, outcome) = row_added(
                target,
                row,
                key,
                row_write,
                facts,
                max_rows,
                max_entries,
            );
            &&& next.pending_writes.len() > target.pending_writes.len()
            &&& next.pending_writes[target.pending_writes.len() as int] == row_write
            &&& forall|k: int|
                0 <= k < target.pending_writes.len() ==> #[trigger] next.pending_writes[k]
                    == target.pending_writes[k]
            &&& outcome matches Ok(due) ==> {
                &&& next.pending_rows == target.pending_rows + 1
                &&& due <==> next.pending_rows >= max_rows || next.pending_writes.len()
                    >= max_entries
                &&& exists|k: int|
                    0 <= k < next.pending_writes.len() && (#[trigger] next.pending_writes[k]).key
                        == facts[i].key && next.pending_writes[k].value == seq![1u8]
            }
        }),
{
    let writes = target.pending_writes.push(row_write);
    law_entries_come_last(target, writes, row, key, target.indexes, facts);
    let added = entries_added(target, writes, row, key, target.indexes, facts);
    assert(added.0.take(writes.len() as int)[target.pending_writes.len() as int] == row_write);
    assert forall|k: int| 0 <= k < target.pending_writes.len() implies #[trigger] added.0[k]
        == target.pending_writes[k] by {
        assert(added.0.take(writes.len() as int)[k] == writes[k]);
    }
    if added.1 is None {
        lemma_entry_is_put(target, writes, row, key, target.indexes, facts, i);
    }
}

proof fn lemma_entry_is_put(
    target: CopyModel,
    writes: Seq<WriteModel>,
    row: RowModel,
    key: Datum,
    indexes: Seq<IndexModel>,
    facts: Seq<FactsModel>,
    i: int,
)
    requires
        facts.len() == indexes.len(),
        0 <= i < facts.len(),
        entries_added(target, writes, row, key, indexes, facts).1 is None,
    ensures
        exists|k: int|
            0 <= k < entries_added(target, writes, row, key, indexes, facts).0.len() && (
            #[trigger] entries_added(target, writes, row, key, indexes, facts).0[k]).key
                == facts[i].key && entries_added(
                target,
                writes,
                row,
                key,
                indexes,
                facts,
            ).0[k].value == seq![1u8],
    decreases indexes.len(),
{
    let before = entries_added(
        target,
        writes,
        row,
        key,
        indexes.drop_last(),
        facts.drop_last(),
    );
    let added = entries_added(target, writes, row, key, indexes, facts);
    if i < facts.len() - 1 {
        lemma_entry_is_put(
            target,
            writes,
            row,
            key,
            indexes.drop_last(),
            facts.drop_last(),
            i,
        );
        let k = choose|k: int|
            0 <= k < before.0.len() && (#[trigger] before.0[k]).key == facts.drop_last()[i].key
                && before.0[k].value == seq![1u8];
        assert(added.0[k] == before.0[k]);
    } else {
        assert(added.0[before.0.len() as int].key == facts[i].key);
    }
}

/// A unique index refuses a row whose value another row has, be that stored or waiting; a null
/// is never refused, and an index that is not unique refuses nothing.
pub proof fn law_unique_indexes_refuse_copies(
    target: CopyModel,
    writes: Seq<WriteModel>,
    row: RowModel,
    key: Datum,
    index: IndexModel,
    facts: FactsModel,
)
    ensures
        index.unique && !has_null(indexed(row, index.column_names)) && stored_elsewhere(
            facts.stored,
            key,
        ) ==> (entry_added(target, writes, row, key, index, facts).1 matches Some(e) && e.code
            == "23505"@),
        index.unique && !has_null(indexed(row, index.column_names)) && facts.old_entry_found ==> (
        entry_added(target, writes, row, key, index, facts).1 matches Some(e) && e.code
            == "23505"@),
        index.unique && !has_null(indexed(row, index.column_names)) ==> forall|i: int|
            0 <= i < writes.len() && (#[trigger] writes[i]).key != facts.key && (
            facts.prefix.len() <= writes[i].key.len() && writes[i].key.take(
                facts.prefix.len() as int,
            ) == facts.prefix) ==> entry_added(target, writes, row, key, index, facts).1 is Some,
        !index.unique || has_null(indexed(row, index.column_names)) ==> entry_added(
            target,
            writes,
            row,
            key,
            index,
            facts,
        ).1 is None,
{
}

/// How a character is written between quotes: a backslash, a quote and some other characters by
/// two.
pub open spec fn written_char(ch: char, quote: char) -> Seq<char> {
    if ch == '\\' {
        seq!['\\', '\\']
    } else if ch == quote {
        seq![quote, quote]
    } else if ch == '\n' {
        seq!['\\', 'n']
    } else if ch == '\t' {
        seq!['\\', 't']
    } else if ch == '\r' {
        seq!['\\', 'r']
    } else if ch == '\0' {
        seq!['\\', '0']
    } else {
        seq![ch]
    }
}

/// How a text is written between quotes.
pub open spec fn written(text: Seq<char>, quote: char) -> Seq<char>
    decreases text.len(),
{
    if text.len() == 0 {
        seq![]
    } else {
        written_char(text[0], quote) + written(text.skip(1), quote)
    }
}

proof fn lemma_literal_read(
    sql: Seq<char>,
    at: int,
    quote: char,
    value: Seq<char>,
    text: Seq<char>,
)
    requires
        quote == '\'' || quote == '"',
        0 <= at,
        at + written(text, quote).len() < sql.len(),
        sql.subrange(at, at + written(text, quote).len()) == written(text, quote),
        sql[at + written(text, quote).len()] == quote,
        at + written(text, quote).len() + 1 < sql.len() ==> sql[at + written(text, quote).len() + 1]
            != quote,
    ensures
        literal_rest(sql, at, quote, value) == Some(
            (value + text, at + written(text, quote).len() + 1),
        ),
    decreases text.len(),
{
    let all = written(text, quote);
    if text.len() == 0 {
        assert(value + text =~= value);
    } else {
        let first = written_char(text[0], quote);
        let rest = written(text.skip(1), quote);
        assert(all == first + rest);
        assert forall|k: int| 0 <= k < all.len() implies sql[at + k] == all[k] by {
            assert(sql.subrange(at, at + all.len())[k] == sql[at + k]);
        }
        assert(sql[at] == first[0]) by {
            assert(all[0] == first[0]);
        }
        if first.len() == 2 {
            assert(all[1] == first[1]);
            assert(sql[at + 1] == first[1]);
        }
        let behind = at + first.len();
        assert(sql.subrange(behind, behind + rest.len()) =~= rest) by {
            assert forall|k: int| 0 <= k < rest.len() implies sql[behind + k] == rest[k] by {
                assert(all[first.len() + k] == rest[k]);
            }
        }
        lemma_literal_read(sql, behind, quote, value.push(text[0]), text.skip(1));
        assert(value.push(text[0]) + text.skip(1) =~= value + text);
    }
}

/// A text that is written between quotes is read back, whatever it holds, up to its closing
/// quote.
pub proof fn law_literals_come_back(text: Seq<char>, quote: char, rest: Seq<char>)
    requires
        quote == '\'' || quote == '"',
        rest.len() > 0 ==> rest[0] != quote,
    ensures
        literal(seq![quote] + written(text, quote) + seq![quote] + rest) == Some((text, rest)),
{
    let body = written(text, quote);
    let sql = seq![quote] + body + seq![quote] + rest;
    assert(sql.subrange(1, 1 + body.len() as int) =~= body);
    lemma_literal_read(sql, 1, quote, seq![], text);
    assert(Seq::<char>::empty() + text =~= text);
    assert(sql.skip(body.len() as int + 2) =~= rest);
}

/// How a text is written between quotes where another character stands before each quote in it.
pub open spec fn escaped_text(text: Seq<char>, options: OptionsModel) -> Seq<char>
    decreases text.len(),
{
    if text.len() == 0 {
        seq![]
    } else if text[0] == options.quote {
        seq![options.escape, options.quote] + escaped_text(text.skip(1), options)
    } else {
        seq![text[0]] + escaped_text(text.skip(1), options)
    }
}

proof fn lemma_escaped_read(
    line: Seq<char>,
    at: int,
    options: OptionsModel,
    value: Seq<char>,
    text: Seq<char>,
)
    requires
        options.escape != options.quote,
        text.len() > 0 ==> text.last() != options.escape,
        0 <= at,
        at + escaped_text(text, options).len() < line.len(),
        line.subrange(at, at + escaped_text(text, options).len()) == escaped_text(text, options),
        line[at + escaped_text(text, options).len()] == options.quote,
    ensures
        csv_fields(line, options, at, true, value) == csv_fields(
            line,
            options,
            at + escaped_text(text, options).len() + 1,
            false,
            value + text,
        ),
    decreases text.len(),
{
    let all = escaped_text(text, options);
    if text.len() == 0 {
        assert(value + text =~= value);
    } else {
        let rest = escaped_text(text.skip(1), options);
        let width: int = all.len() - rest.len();
        assert forall|k: int| 0 <= k < all.len() implies line[at + k] == all[k] by {
            assert(line.subrange(at, at + all.len())[k] == line[at + k]);
        }
        let behind = at + width;
        assert(line.subrange(behind, behind + rest.len()) =~= rest) by {
            assert forall|k: int| 0 <= k < rest.len() implies line[behind + k] == rest[k] by {
                assert(all[width + k] == rest[k]);
            }
        }
        assert(line[at] == all[0]);
        if text[0] == options.quote {
            assert(line[at + 1] == all[1]);
            assert(all[0] == options.escape && all[1] == options.quote);
        } else {
            assert(all[0] == text[0]);
            if text.len() > 1 {
                assert(rest.len() > 0 && rest[0] == (if text.skip(1)[0] == options.quote {
                    options.escape
                } else {
                    text.skip(1)[0]
                }));
                assert(line[at + 1] == all[1] && all[1] == rest[0]);
                assert(line[at + 1] != options.quote);
            } else {
                assert(text.last() == text[0]);
            }
        }
        if text.len() > 1 {
            assert(text.skip(1).last() == text.last());
        }
        lemma_escaped_read(line, behind, options, value.push(text[0]), text.skip(1));
        assert(value.push(text[0]) + text.skip(1) =~= value + text);
    }
}

/// Where quotes are marked by another character, a quoted field is read back too, unless it ends
/// in that character.
pub proof fn law_escaped_fields_come_back(text: Seq<char>, options: OptionsModel)
    requires
        options.escape != options.quote,
        text.len() > 0 ==> text.last() != options.escape,
    ensures
        csv_fields(
            seq![options.quote] + escaped_text(text, options) + seq![options.quote],
            options,
            0,
            false,
            seq![],
        ) == Ok::<Seq<Seq<char>>, Report>(seq![text]),
{
    let body = escaped_text(text, options);
    let line = seq![options.quote] + body + seq![options.quote];
    assert(line.subrange(1, 1 + body.len() as int) =~= body);
    lemma_escaped_read(line, 1, options, seq![], text);
    assert(Seq::<char>::empty() + text =~= text);
}

} // verus!
