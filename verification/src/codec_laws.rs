//! Which cells are refused, and which keys stay apart.
use vstd::prelude::*;
use vstd::utf8::*;

use crate::bytes::starts_with;
use crate::codec::{
    cell_bytes, column_prefix, entry_prefix, form, holds, index_prefix, indexes_prefix, key_path,
    key_segment, keyable, read_block, read_cell, read_key_behind, read_list, read_value, storable,
    table_prefix, value_bytes,
};
use crate::codec::{law_cell_roundtrip, law_key_roundtrip};
use crate::error::Report;
use crate::text::lemma_utf8_concat;
use crate::types::{DataType, Datum};

verus! {

proof fn lemma_longer_block(bytes: Seq<u8>, tail: Seq<u8>)
    requires
        read_block(bytes) is Ok,
    ensures
        read_block(bytes)->Ok_0.1 <= bytes.len(),
        read_block(bytes + tail) == read_block(bytes),
{
    let len = crate::bytes::be_value(bytes.take(4));
    assert((bytes + tail).take(4) =~= bytes.take(4));
    assert((bytes + tail).subrange(4, 4 + len as int) =~= bytes.subrange(4, 4 + len as int));
}

proof fn lemma_longer_list(
    inner: DataType,
    bytes: Seq<u8>,
    tail: Seq<u8>,
    offset: nat,
    count: nat,
    done: Seq<Datum>,
)
    requires
        offset <= bytes.len(),
        read_list(inner, bytes, offset, count, done) is Ok,
    ensures
        read_list(inner, bytes, offset, count, done)->Ok_0.1 <= bytes.len(),
        read_list(inner, bytes + tail, offset, count, done) == read_list(
            inner,
            bytes,
            offset,
            count,
            done,
        ),
    decreases count,
{
    if count > 0 {
        let rest = bytes.skip(offset as int);
        lemma_longer_block(rest, tail);
        assert((bytes + tail).skip(offset as int) =~= rest + tail);
        let (cell, taken) = read_block(rest)->Ok_0;
        let value = read_cell(inner, cell)->Ok_0;
        lemma_longer_list(
            inner,
            bytes,
            tail,
            offset + taken,
            (count - 1) as nat,
            done.push(value),
        );
    }
}

/// What follows a value is not read.
proof fn lemma_longer_value(data_type: DataType, bytes: Seq<u8>, tail: Seq<u8>)
    requires
        read_value(data_type, bytes) is Ok,
    ensures
        read_value(data_type, bytes)->Ok_0.1 <= bytes.len(),
        read_value(data_type, bytes + tail) == read_value(data_type, bytes),
{
    let longer = bytes + tail;
    if bytes.len() >= 2 {
        assert(longer.take(2) =~= bytes.take(2));
    }
    if bytes.len() >= 4 {
        assert(longer.take(4) =~= bytes.take(4));
    }
    if bytes.len() >= 8 {
        assert(longer.take(8) =~= bytes.take(8));
    }
    if read_block(bytes) is Ok {
        lemma_longer_block(bytes, tail);
    }
    if let DataType::Array(inner) = data_type {
        lemma_longer_list(
            *inner,
            bytes,
            tail,
            4,
            crate::bytes::be_value(bytes.take(4)),
            seq![],
        );
    }
}

proof fn lemma_list_errors(
    inner: DataType,
    bytes: Seq<u8>,
    offset: nat,
    count: nat,
    done: Seq<Datum>,
)
    ensures
        read_list(inner, bytes, offset, count, done) matches Err(e) ==> e.code == "XX000"@,
    decreases inner, 2nat, count,
{
    if count > 0 {
        if let Ok((cell, taken)) = read_block(bytes.skip(offset as int)) {
            lemma_cell_errors(inner, cell);
            if let Ok(value) = read_cell(inner, cell) {
                lemma_list_errors(
                    inner,
                    bytes,
                    offset + taken,
                    (count - 1) as nat,
                    done.push(value),
                );
            }
        }
    }
}

proof fn lemma_value_errors(data_type: DataType, bytes: Seq<u8>)
    ensures
        read_value(data_type, bytes) matches Err(e) ==> e.code == "XX000"@,
    decreases data_type, 0nat, 0nat,
{
    if let DataType::Array(inner) = data_type {
        lemma_list_errors(
            *inner,
            bytes,
            4,
            crate::bytes::be_value(bytes.take(4)),
            seq![],
        );
    }
}

proof fn lemma_cell_errors(data_type: DataType, bytes: Seq<u8>)
    ensures
        read_cell(data_type, bytes) matches Err(e) ==> e.code == "XX000"@,
    decreases data_type, 1nat, 0nat,
{
    if bytes.len() > 0 {
        lemma_value_errors(data_type, bytes.skip(1));
    }
}

/// Behind the mark of a cell, the value is read in full length.
proof fn lemma_whole_value(data_type: DataType, value: Datum)
    requires
        storable(data_type, value),
        !(value is Null),
    ensures
        read_value(data_type, value_bytes(value)) == Ok::<(Datum, nat), Report>(
            (value, value_bytes(value).len()),
        ),
{
    law_cell_roundtrip(data_type, value);
    assert(cell_bytes(value).skip(1) =~= value_bytes(value));
}

/// A cell that was cut short is refused as an internal error, down to the empty one,
/// unless it is null.
pub proof fn law_cut_cells_are_refused(data_type: DataType, value: Datum, length: int)
    requires
        storable(data_type, value),
        !(value is Null),
        0 <= length < cell_bytes(value).len(),
    ensures
        read_cell(data_type, cell_bytes(value).take(length)) matches Err(e) && e.code == "XX000"@,
{
    let cut = cell_bytes(value).take(length);
    lemma_cell_errors(data_type, cut);
    if read_cell(data_type, cut) is Ok {
        lemma_whole_value(data_type, value);
        let tail = cell_bytes(value).skip(length);
        lemma_longer_value(data_type, cut.skip(1), tail);
        assert(cut.skip(1) + tail =~= value_bytes(value));
    }
}

/// A cell with bytes behind its value is refused as an internal error, unless it is null.
pub proof fn law_long_cells_are_refused(data_type: DataType, value: Datum, tail: Seq<u8>)
    requires
        storable(data_type, value),
        !(value is Null),
        tail.len() > 0,
    ensures
        read_cell(data_type, cell_bytes(value) + tail) matches Err(e) && e.code == "XX000"@,
{
    let long = cell_bytes(value) + tail;
    lemma_cell_errors(data_type, long);
    lemma_whole_value(data_type, value);
    lemma_longer_value(data_type, value_bytes(value), tail);
    assert(long.skip(1) =~= value_bytes(value) + tail);
}

/// Whether a name has no colon.
pub open spec fn plain_name(name: Seq<char>) -> bool {
    !name.contains(':')
}

/// A character other than the colon has no byte of the colon.
proof fn lemma_plain_bytes(name: Seq<char>)
    requires
        plain_name(name),
    ensures
        !encode_utf8(name).contains(58u8),
    decreases name.len(),
{
    if name.len() > 0 {
        let rest = name.drop_first();
        assert(plain_name(rest)) by {
            assert forall|i: int| 0 <= i < rest.len() implies rest[i] != ':' by {
                assert(name[i + 1] == rest[i]);
            }
        }
        lemma_plain_bytes(rest);
        let first = seq![name[0]];
        assert(name =~= first + rest);
        lemma_utf8_concat(first, rest);
        lemma_plain_character(name[0]);
    }
}

proof fn lemma_plain_character(c: char)
    requires
        c != ':',
    ensures
        !encode_utf8(seq![c]).contains(58u8),
{
    let bytes = encode_utf8(seq![c]);
    let scalar = c as u32;
    char_is_scalar(c);
    encode_utf8_first_scalar(seq![c]);
    assert(seq![c].drop_first() =~= Seq::<char>::empty());
    assert(encode_utf8(seq![c].drop_first()) =~= Seq::<u8>::empty());
    assert(bytes =~= encode_scalar(scalar));
    if has_width_1_encoding(scalar) {
        assert((scalar & 0x7f) as u8 == scalar) by (bit_vector)
            requires
                scalar <= 0x7f,
        ;
        assert(bytes[0] != 58);
    } else {
        assert forall|i: int| 0 <= i < bytes.len() implies bytes[i] >= 0x80 by {
            assert(!is_leading_byte_width_1(bytes[0]));
        }
    }
}

proof fn lemma_colon()
    ensures
        encode_utf8(seq![':']) == seq![58u8],
{
    let colon = seq![':'];
    assert(is_ascii_chars(colon));
    is_ascii_chars_encode_utf8(colon);
    assert(encode_utf8(colon)[0] == colon[0] as u8);
    assert(encode_utf8(colon) =~= seq![58u8]);
}

proof fn lemma_path_front(names: Seq<Seq<char>>)
    requires
        names.len() > 0,
    ensures
        key_path(names) == names[0] + seq![':'] + key_path(names.skip(1)),
    decreases names.len(),
{
    let init = names.drop_last();
    if init.len() == 0 {
        assert(names.skip(1) =~= seq![]);
        assert(key_path(init) =~= seq![]);
        assert(key_path(names) =~= names[0] + seq![':'] + key_path(names.skip(1)));
    } else {
        lemma_path_front(init);
        assert(names.skip(1).drop_last() =~= init.skip(1));
        assert(names.skip(1).last() == names.last());
        assert(key_path(names) =~= names[0] + seq![':'] + key_path(names.skip(1)));
    }
}

/// The bytes of a path: those of the first name, a colon and the rest.
proof fn lemma_path_bytes(names: Seq<Seq<char>>)
    requires
        names.len() > 0,
    ensures
        encode_utf8(key_path(names)) == encode_utf8(names[0]) + seq![58u8] + encode_utf8(
            key_path(names.skip(1)),
        ),
{
    lemma_path_front(names);
    lemma_colon();
    lemma_utf8_concat(names[0], seq![':']);
    lemma_utf8_concat(names[0] + seq![':'], key_path(names.skip(1)));
}

/// Byte strings that are closed by their first colon differ as soon as they differ.
proof fn lemma_closed_apart(a: Seq<u8>, x: Seq<u8>, b: Seq<u8>, y: Seq<u8>)
    requires
        !a.contains(58u8),
        !b.contains(58u8),
        starts_with(b + seq![58u8] + y, a + seq![58u8] + x),
    ensures
        a == b,
        starts_with(y, x),
{
    let short = a + seq![58u8] + x;
    let long = b + seq![58u8] + y;
    assert(long.take(short.len() as int) == short);
    assert forall|i: int| 0 <= i < short.len() implies long[i] == short[i] by {
        assert(long.take(short.len() as int)[i] == long[i]);
    }
    assert(long[a.len() as int] == 58);
    if a.len() < b.len() {
        assert(b[a.len() as int] == 58);
    }
    if b.len() < a.len() {
        assert(long[b.len() as int] == 58);
        assert(short[b.len() as int] == a[b.len() as int]);
    }
    assert forall|i: int| 0 <= i < a.len() implies a[i] == b[i] by {
        assert(short[i] == a[i] && long[i] == b[i]);
    }
    assert(a =~= b);
    assert forall|i: int| 0 <= i < x.len() implies y[i] == x[i] by {
        assert(short[a.len() + 1 + i] == x[i]);
        assert(long[a.len() + 1 + i] == y[i]);
    }
    assert(y.take(x.len() as int) =~= x);
}

/// Paths of as many names, followed by other bytes, start alike only where the names are
/// the same.
proof fn lemma_paths_apart(a: Seq<Seq<char>>, x: Seq<u8>, b: Seq<Seq<char>>, y: Seq<u8>)
    requires
        a.len() == b.len(),
        forall|i: int| 0 <= i < a.len() ==> plain_name(#[trigger] a[i]),
        forall|i: int| 0 <= i < b.len() ==> plain_name(#[trigger] b[i]),
        starts_with(encode_utf8(key_path(b)) + y, encode_utf8(key_path(a)) + x),
    ensures
        a == b,
        starts_with(y, x),
    decreases a.len(),
{
    broadcast use encode_utf8_decode_utf8;

    if a.len() == 0 {
        assert(encode_utf8(key_path(a)) + x =~= x);
        assert(encode_utf8(key_path(b)) + y =~= y);
        assert(a =~= b);
    } else {
        lemma_path_bytes(a);
        lemma_path_bytes(b);
        lemma_plain_bytes(a[0]);
        lemma_plain_bytes(b[0]);
        let behind_a = encode_utf8(key_path(a.skip(1))) + x;
        let behind_b = encode_utf8(key_path(b.skip(1))) + y;
        assert(encode_utf8(key_path(a)) + x =~= encode_utf8(a[0]) + seq![58u8] + behind_a);
        assert(encode_utf8(key_path(b)) + y =~= encode_utf8(b[0]) + seq![58u8] + behind_b);
        lemma_closed_apart(encode_utf8(a[0]), behind_a, encode_utf8(b[0]), behind_b);
        assert(decode_utf8(encode_utf8(a[0])) == decode_utf8(encode_utf8(b[0])));
        assert forall|i: int| 0 <= i < a.skip(1).len() implies plain_name(
            #[trigger] a.skip(1)[i],
        ) by {
            assert(plain_name(a[i + 1]));
        }
        assert forall|i: int| 0 <= i < b.skip(1).len() implies plain_name(
            #[trigger] b.skip(1)[i],
        ) by {
            assert(plain_name(b[i + 1]));
        }
        lemma_paths_apart(a.skip(1), x, b.skip(1), y);
        assert forall|i: int| 0 <= i < a.len() implies a[i] == b[i] by {
            if i > 0 {
                assert(a.skip(1)[i - 1] == b.skip(1)[i - 1]);
            }
        }
        assert(a =~= b);
    }
}

proof fn lemma_heads()
    ensures
        plain_name("__table__"@),
        plain_name("__index__"@),
        "__table__"@ != "__index__"@,
{
    reveal_strlit("__table__");
    reveal_strlit("__index__");
    assert("__table__"@[2] == 't');
    assert("__index__"@[2] == 'i');
}

/// The prefix of one table starts another table's prefix only where it is the same table,
/// for names without a colon: a scan of one table never meets another's keys.
pub proof fn law_table_prefixes_stay_apart(
    first: (Seq<char>, Seq<char>, Seq<char>),
    second: (Seq<char>, Seq<char>, Seq<char>),
)
    requires
        plain_name(first.0),
        plain_name(first.1),
        plain_name(first.2),
        plain_name(second.0),
        plain_name(second.1),
        plain_name(second.2),
    ensures
        starts_with(
            table_prefix(second.0, second.1, second.2),
            table_prefix(first.0, first.1, first.2),
        ) <==> first == second,
{
    let a = seq!["__table__"@, first.0, first.1, first.2];
    let b = seq!["__table__"@, second.0, second.1, second.2];
    let prefix = encode_utf8(key_path(a));
    lemma_heads();
    assert(prefix.take(prefix.len() as int) =~= prefix);
    if starts_with(encode_utf8(key_path(b)), prefix) {
        assert(prefix + Seq::<u8>::empty() =~= prefix);
        assert(encode_utf8(key_path(b)) + Seq::<u8>::empty() =~= encode_utf8(key_path(b)));
        lemma_paths_apart(a, seq![], b, seq![]);
        assert(a[1] == b[1] && a[2] == b[2] && a[3] == b[3]);
    }
}

/// Whether two values are of one kind.
pub open spec fn same_kind(a: Datum, b: Datum) -> bool {
    match a {
        Datum::Null => b is Null,
        Datum::Int16(_) => b is Int16,
        Datum::Int32(_) => b is Int32,
        Datum::Int64(_) => b is Int64,
        Datum::Float32(_) => b is Float32,
        Datum::Float64(_) => b is Float64,
        Datum::Numeric(_) => b is Numeric,
        Datum::Text(_) => b is Text,
        Datum::Date(_) => b is Date,
        Datum::Timestamp(_) => b is Timestamp,
        Datum::TimestampTz(_) => b is TimestampTz,
        Datum::Uuid(_) => b is Uuid,
        Datum::Json(_) => b is Json,
        Datum::Jsonb(_) => b is Jsonb,
        Datum::Bytea(_) => b is Bytea,
        Datum::Boolean(_) => b is Boolean,
        Datum::Array(_) => b is Array,
    }
}

/// A type whose values are of the given kind.
spec fn kind_type(value: Datum) -> DataType {
    match value {
        Datum::Int16(_) => DataType::Int16,
        Datum::Int32(_) => DataType::Int32,
        Datum::Int64(_) => DataType::Int64,
        Datum::Float32(_) => DataType::Float32,
        Datum::Float64(_) => DataType::Float64,
        Datum::Numeric(_) => DataType::Numeric { precision: None, scale: None },
        Datum::Date(_) => DataType::Date,
        Datum::Timestamp(_) => DataType::Timestamp,
        Datum::TimestampTz(_) => DataType::TimestampTz,
        Datum::Uuid(_) => DataType::Uuid,
        Datum::Json(_) => DataType::Json,
        Datum::Jsonb(_) => DataType::Jsonb,
        Datum::Bytea(_) => DataType::Bytea,
        _ => DataType::Text,
    }
}

/// Different values of one kind stand in keys by different bytes.
pub proof fn law_key_segments_differ(a: Datum, b: Datum)
    requires
        keyable(a),
        same_kind(a, b),
    ensures
        key_segment(a) == key_segment(b) <==> a == b,
{
    if key_segment(a) == key_segment(b) {
        let data_type = kind_type(a);
        assert(holds(form(data_type), a));
        assert(holds(form(data_type), b));
        law_key_roundtrip(seq![], seq![], data_type, a);
        law_key_roundtrip(seq![], seq![], data_type, b);
        assert(read_key_behind(seq![] + key_segment(a), seq![], seq![], data_type)
            == read_key_behind(seq![] + key_segment(b), seq![], seq![], data_type));
    }
}

/// Different cells have different keys, for names without a colon and primary keys of one
/// kind. The row markers are the cells of a column of their own.
pub proof fn law_cell_keys_differ(
    first: (Seq<char>, Seq<char>, Seq<char>, Seq<char>),
    first_key: Datum,
    second: (Seq<char>, Seq<char>, Seq<char>, Seq<char>),
    second_key: Datum,
)
    requires
        plain_name(first.0),
        plain_name(first.1),
        plain_name(first.2),
        plain_name(first.3),
        plain_name(second.0),
        plain_name(second.1),
        plain_name(second.2),
        plain_name(second.3),
        keyable(first_key),
        same_kind(first_key, second_key),
    ensures
        column_prefix(first.0, first.1, first.2, first.3) + key_segment(first_key)
            == column_prefix(second.0, second.1, second.2, second.3) + key_segment(second_key)
            <==> first == second && first_key == second_key,
{
    let a = seq!["__table__"@, first.0, first.1, first.2, first.3];
    let b = seq!["__table__"@, second.0, second.1, second.2, second.3];
    let x = key_segment(first_key);
    let y = key_segment(second_key);
    let key = encode_utf8(key_path(a)) + x;
    if key == encode_utf8(key_path(b)) + y {
        lemma_heads();
        assert(key.take(key.len() as int) =~= key);
        lemma_paths_apart(a, x, b, y);
        lemma_paths_apart(b, y, a, x);
        assert(a[1] == b[1] && a[2] == b[2] && a[3] == b[3] && a[4] == b[4]);
        assert(x.take(y.len() as int) == y);
        assert(x =~= y);
        law_key_segments_differ(first_key, second_key);
    }
}

proof fn lemma_common_start(start: Seq<u8>, x: Seq<u8>, y: Seq<u8>)
    ensures
        starts_with(start + y, start + x) <==> starts_with(y, x),
{
    let short = start + x;
    let long = start + y;
    if starts_with(long, short) {
        assert forall|i: int| 0 <= i < x.len() implies y[i] == x[i] by {
            assert(long.take(short.len() as int)[start.len() + i] == long[start.len() + i]);
        }
        assert(y.take(x.len() as int) =~= x);
    }
    if starts_with(y, x) {
        assert forall|i: int| 0 <= i < short.len() implies long[i] == short[i] by {
            if i >= start.len() {
                assert(y.take(x.len() as int)[i - start.len()] == y[i - start.len()]);
            }
        }
        assert(long.take(short.len() as int) =~= short);
    }
}

#[verifier::spinoff_prover]
proof fn lemma_closed_cells_apart(data_type: DataType, first: Datum, second: Datum)
    requires
        storable(data_type, first),
        storable(data_type, second),
        starts_with(cell_bytes(second) + seq![58u8], cell_bytes(first) + seq![58u8]),
    ensures
        first == second,
{
    let short = cell_bytes(first) + seq![58u8];
    let long = cell_bytes(second) + seq![58u8];
    assert(long.take(short.len() as int)[0] == long[0]);
    assert(long[0] == cell_bytes(second)[0]);
    assert(short[0] == cell_bytes(first)[0]);
    if !(first is Null) {
        let tail = long.skip(short.len() as int);
        let behind = long.skip(1);
        lemma_whole_value(data_type, first);
        lemma_whole_value(data_type, second);
        lemma_longer_value(data_type, value_bytes(first), seq![58u8] + tail);
        lemma_longer_value(data_type, value_bytes(second), seq![58u8]);
        assert(behind =~= value_bytes(second) + seq![58u8]);
        assert(long =~= short + tail);
        assert((short + tail).skip(1) =~= value_bytes(first) + (seq![58u8] + tail));
    }
}

/// The entries of one value of an index start like those of another only where the values
/// are the same, for values of one type whose lengths fit into four bytes: a scan for one
/// value never meets the entries of another, nulls among them.
pub proof fn law_entry_prefixes_stay_apart(
    database_name: Seq<char>,
    schema_name: Seq<char>,
    table_name: Seq<char>,
    index_name: Seq<char>,
    data_type: DataType,
    first: Datum,
    second: Datum,
)
    requires
        storable(data_type, first),
        storable(data_type, second),
    ensures
        starts_with(
            entry_prefix(database_name, schema_name, table_name, index_name, second),
            entry_prefix(database_name, schema_name, table_name, index_name, first),
        ) <==> first == second,
{
    let start = index_prefix(database_name, schema_name, table_name, index_name);
    let short = cell_bytes(first) + seq![58u8];
    let long = cell_bytes(second) + seq![58u8];
    lemma_common_start(start, short, long);
    assert(entry_prefix(database_name, schema_name, table_name, index_name, first) =~= start
        + short);
    assert(entry_prefix(database_name, schema_name, table_name, index_name, second) =~= start
        + long);
    if starts_with(long, short) {
        lemma_closed_cells_apart(data_type, first, second);
    }
    assert(short.take(short.len() as int) =~= short);
}

/// No key of a row marker or a cell starts with a prefix of index entries, and no key of
/// an index entry with a prefix of rows, whatever the tables.
pub proof fn law_rows_and_indexes_stay_apart(
    table: (Seq<char>, Seq<char>, Seq<char>),
    column_name: Seq<char>,
    other: (Seq<char>, Seq<char>, Seq<char>),
    index_name: Seq<char>,
    value: Datum,
    key: Datum,
)
    ensures
        !starts_with(
            column_prefix(table.0, table.1, table.2, column_name) + key_segment(key),
            indexes_prefix(other.0, other.1, other.2),
        ),
        !starts_with(
            entry_prefix(other.0, other.1, other.2, index_name, value) + key_segment(key),
            table_prefix(table.0, table.1, table.2),
        ),
{
    broadcast use encode_utf8_decode_utf8;

    lemma_heads();
    lemma_plain_bytes("__table__"@);
    lemma_plain_bytes("__index__"@);
    let row_head = encode_utf8("__table__"@);
    let index_head = encode_utf8("__index__"@);
    assert(decode_utf8(row_head) != decode_utf8(index_head));
    let columns = seq!["__table__"@, table.0, table.1, table.2, column_name];
    let indexes = seq!["__index__"@, other.0, other.1, other.2];
    lemma_path_bytes(columns);
    lemma_path_bytes(indexes);
    let row_key = column_prefix(table.0, table.1, table.2, column_name) + key_segment(key);
    let row_rest = encode_utf8(key_path(columns.skip(1))) + key_segment(key);
    assert(row_key =~= row_head + seq![58u8] + row_rest);
    if starts_with(row_key, indexes_prefix(other.0, other.1, other.2)) {
        lemma_closed_apart(
            index_head,
            encode_utf8(key_path(indexes.skip(1))),
            row_head,
            row_rest,
        );
    }
    let entries = seq!["__index__"@, other.0, other.1, other.2, index_name];
    let rows = seq!["__table__"@, table.0, table.1, table.2];
    lemma_path_bytes(entries);
    lemma_path_bytes(rows);
    let entry_key = entry_prefix(other.0, other.1, other.2, index_name, value) + key_segment(key);
    let entry_rest = encode_utf8(key_path(entries.skip(1))) + cell_bytes(value) + seq![58u8]
        + key_segment(key);
    assert(entry_key =~= index_head + seq![58u8] + entry_rest);
    if starts_with(entry_key, table_prefix(table.0, table.1, table.2)) {
        lemma_closed_apart(
            row_head,
            encode_utf8(key_path(rows.skip(1))),
            index_head,
            entry_rest,
        );
    }
}

} // verus!
