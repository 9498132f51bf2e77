//! Data that clients send for tables: how a line becomes a row, and which entries a row writes.
use std::collections::HashMap;
use vstd::prelude::*;
use vstd::utf8::{decode_utf8, valid_utf8};

use crate::bytes::{bytes_of, has_prefix, push_all, starts_with};
use crate::catalog::model::{bootstrapped, indexes_listed, law_bootstrap_is_stable};
use crate::catalog::types::{IndexCatalog, IndexModel};
use crate::codec::{entry_prefix, index_entry_key, index_entry_prefix, key_segment, keyable};
use crate::error::{not_internal, report, user_error, user_error_text, Report, UserError};
use crate::mem_store::{Contents, KvStore};
use crate::names::{object_name, object_name_to_string, ObjectName};
use crate::row::{RowMap, RowModel};
use crate::schema::{column_position, names_of, seen, views, Duplicate, TableModel, TableSchema};
use crate::server::alter::{no_column, no_column_error};
use crate::server::copy_text::{
    buffered_lines, data_lines, drop_buffered_lines, line_fields, line_seqs, split_copy_fields,
    unfinished, CopyInOptions, OptionsModel,
};
use crate::server::ddl_columns::two_texts;
use crate::server::exec_rows::{insert_key, key_for_insert, require_columns, unknown_column};
use crate::server::gateway::{
    is_misnamed, is_misreferred, only_opened, table_required, GatewayServer,
};
use crate::server::load_data::{last_mark, load_request, parse_mysql_load_data_local};
use crate::server::rows::{
    constraint_error, has_null, index_value_has_null, indexed, indexed_value,
    validate_row_constraints, CheckVerdict,
};
use crate::server::statements::{SessionCatalog, SessionScope};
use crate::text::{
    chars_of, decimal, decimal_text, integer_within, lower, lower_text, parse_integer, same_text,
    string_from_utf8, string_of, three_texts, utf8_error,
};
use crate::types::{datum_eq, lemma_plain_type_codes, type_code, ColumnValue, DataType, Datum};

verus! {

broadcast use vstd::std_specs::hash::group_hash_axioms;

/// A key with the value that is to be written there.
#[derive(Debug)]
pub struct PendingWrite {
    pub key: Vec<u8>,
    pub value: Vec<u8>,
}

/// What a [`PendingWrite`] says.
pub struct WriteModel {
    pub key: Seq<u8>,
    pub value: Seq<u8>,
}

impl View for PendingWrite {
    type V = WriteModel;

    open spec fn view(&self) -> WriteModel {
        WriteModel {
            key: self.key@,
            value: self.value@,
        }
    }
}

/// Data that a client is sending for a table.
#[derive(Debug)]
pub struct CopyInState {
    pub session_id: i32,
    pub use_session_transaction: bool,
    pub database_name: String,
    pub schema_name: String,
    pub schema: TableSchema,
    pub indexes: Vec<IndexCatalog>,
    pub columns: Vec<String>,
    pub options: CopyInOptions,
    pub buffer: Vec<u8>,
    pub pending_writes: Vec<PendingWrite>,
    pub pending_rows: usize,
    pub inserted_rows: usize,
}

/// What a [`CopyInState`] says.
pub struct CopyModel {
    pub session_id: i32,
    pub use_session_transaction: bool,
    pub database_name: Seq<char>,
    pub schema_name: Seq<char>,
    pub schema: TableModel,
    pub indexes: Seq<IndexModel>,
    pub columns: Seq<Seq<char>>,
    pub options: OptionsModel,
    pub buffer: Seq<u8>,
    pub pending_writes: Seq<WriteModel>,
    pub pending_rows: usize,
    pub inserted_rows: usize,
}

impl View for CopyInState {
    type V = CopyModel;

    open spec fn view(&self) -> CopyModel {
        CopyModel {
            session_id: self.session_id,
            use_session_transaction: self.use_session_transaction,
            database_name: self.database_name@,
            schema_name: self.schema_name@,
            schema: self.schema@,
            indexes: views(self.indexes@),
            columns: views(self.columns@),
            options: self.options@,
            buffer: self.buffer@,
            pending_writes: views(self.pending_writes@),
            pending_rows: self.pending_rows,
            inserted_rows: self.inserted_rows,
        }
    }
}

/// What a line of data comes to.
#[derive(Debug)]
pub enum CopyLine {
    /// Nothing is to be done with it.
    Skip,
    /// It has these fields.
    Fields { fields: Vec<String> },
}

/// What a [`CopyLine`] says.
pub enum LineModel {
    Skip,
    Fields { fields: Seq<Seq<char>> },
}

impl View for CopyLine {
    type V = LineModel;

    open spec fn view(&self) -> LineModel {
        match *self {
            CopyLine::Skip => LineModel::Skip,
            CopyLine::Fields { fields } => LineModel::Fields {
                fields: views(fields@),
            },
        }
    }
}

/// What is known of the entry of a row in an index: its key and that of all entries with the same
/// value, the keys of the rows that are stored with this value, and whether an entry of the old
/// form is stored for it.
#[derive(Debug)]
pub struct IndexFacts {
    pub key: Vec<u8>,
    pub prefix: Vec<u8>,
    pub stored: Vec<ColumnValue>,
    pub old_entry_found: bool,
}

/// What a [`IndexFacts`] says.
pub struct FactsModel {
    pub key: Seq<u8>,
    pub prefix: Seq<u8>,
    pub stored: Seq<Datum>,
    pub old_entry_found: bool,
}

impl View for IndexFacts {
    type V = FactsModel;

    open spec fn view(&self) -> FactsModel {
        FactsModel {
            key: self.key@,
            prefix: self.prefix@,
            stored: views(self.stored@),
            old_entry_found: self.old_entry_found,
        }
    }
}

/// The message of the error that reading a text as an `i16` gives.
pub uninterp spec fn int16_error(text: Seq<char>) -> Seq<char>;

/// `str::parse` to an `i16`, for the message of its error, which is a function of the text; there
/// is none for a text that is read.
#[verifier::external_body]
fn int16_message(text: &str) -> (message: String)
    ensures
        message@ == int16_error(text@),
{
    text.parse::<i16>().err().map(|e| e.to_string()).unwrap_or_default()
}

/// The message of the error that reading a text as an `i32` gives.
pub uninterp spec fn int32_error(text: Seq<char>) -> Seq<char>;

/// `str::parse` to an `i32`, for the message of its error, which is a function of the text; there
/// is none for a text that is read.
#[verifier::external_body]
fn int32_message(text: &str) -> (message: String)
    ensures
        message@ == int32_error(text@),
{
    text.parse::<i32>().err().map(|e| e.to_string()).unwrap_or_default()
}

/// The message of the error that reading a text as an `i64` gives.
pub uninterp spec fn int64_error(text: Seq<char>) -> Seq<char>;

/// `str::parse` to an `i64`, for the message of its error, which is a function of the text; there
/// is none for a text that is read.
#[verifier::external_body]
fn int64_message(text: &str) -> (message: String)
    ensures
        message@ == int64_error(text@),
{
    text.parse::<i64>().err().map(|e| e.to_string()).unwrap_or_default()
}

/// The error of a text that is no number of a kind.
pub open spec fn not_a_number(kind: Seq<char>, raw: Seq<char>, message: Seq<char>) -> Report {
    report("22P02"@, "invalid "@ + kind + " value '"@ + (raw + "': "@ + message))
}

fn not_a_number_error(kind: &str, raw: &str, message: &str) -> (error: UserError)
    ensures
        error@ == not_a_number(kind@, raw@, message@),
{
    let behind = three_texts(raw, "': ", message);
    let front = three_texts("invalid ", kind, " value '");
    user_error_text("22P02", two_texts(front.as_str(), behind.as_str()))
}

/// The value that a field stands for in a column. `parsed` is what the text comes to where the
/// column has none of the plain types.
pub open spec fn field_value(
    raw: Seq<char>,
    data_type: Seq<char>,
    options: OptionsModel,
    parsed: Result<Datum, Report>,
) -> Result<Datum, Report> {
    if raw == options.null {
        Ok(Datum::Null)
    } else if data_type == type_code(DataType::Int16) {
        match integer_within(raw, 0x8000, 0x7fff) {
            Some(n) => Ok(Datum::Int16(n as i16)),
            None => Err(not_a_number("INT2"@, raw, int16_error(raw))),
        }
    } else if data_type == type_code(DataType::Int32) {
        match integer_within(raw, 0x8000_0000, 0x7fff_ffff) {
            Some(n) => Ok(Datum::Int32(n as i32)),
            None => Err(not_a_number("INT4"@, raw, int32_error(raw))),
        }
    } else if data_type == type_code(DataType::Int64) {
        match integer_within(raw, 0x8000_0000_0000_0000, 0x7fff_ffff_ffff_ffff) {
            Some(n) => Ok(Datum::Int64(n as i64)),
            None => Err(not_a_number("INT8"@, raw, int64_error(raw))),
        }
    } else if data_type == type_code(DataType::Boolean) {
        let small = lower(raw);
        if small == "t"@ || small == "true"@ || small == "1"@ {
            Ok(Datum::Boolean(true))
        } else if small == "f"@ || small == "false"@ || small == "0"@ {
            Ok(Datum::Boolean(false))
        } else {
            Err(report("22P02"@, "invalid BOOL value '"@ + raw + "'"@))
        }
    } else {
        parsed
    }
}

/// The value that a field stands for in a column.
pub fn decode_copy_field(
    raw: &str,
    data_type: &DataType,
    options: &CopyInOptions,
    parsed: &Result<ColumnValue, UserError>,
) -> (result: Result<ColumnValue, UserError>)
    ensures
        seen(result) == field_value(raw@, type_code(*data_type), options@, seen(*parsed)),
{
    if same_text(raw, options.null.as_str()) {
        return Ok(ColumnValue::Null);
    }
    proof {
        lemma_plain_type_codes(*data_type);
    }
    match data_type {
        DataType::Int16 => match parse_integer(chars_of(raw).as_slice(), 0x8000, 0x7fff) {
            Some(n) => Ok(ColumnValue::Int16(n as i16)),
            None => Err(not_a_number_error("INT2", raw, int16_message(raw).as_str())),
        },
        DataType::Int32 => match parse_integer(chars_of(raw).as_slice(), 0x8000_0000, 0x7fff_ffff) {
            Some(n) => Ok(ColumnValue::Int32(n as i32)),
            None => Err(not_a_number_error("INT4", raw, int32_message(raw).as_str())),
        },
        DataType::Int64 => match parse_integer(
            chars_of(raw).as_slice(),
            0x8000_0000_0000_0000,
            0x7fff_ffff_ffff_ffff,
        ) {
            Some(n) => Ok(ColumnValue::Int64(n as i64)),
            None => Err(not_a_number_error("INT8", raw, int64_message(raw).as_str())),
        },
        DataType::Boolean => {
            let small = lower_text(raw);
            let word = small.as_str();
            if same_text(word, "t") || same_text(word, "true") || same_text(word, "1") {
                Ok(ColumnValue::Boolean(true))
            } else if same_text(word, "f") || same_text(word, "false") || same_text(word, "0") {
                Ok(ColumnValue::Boolean(false))
            } else {
                Err(user_error_text("22P02", three_texts("invalid BOOL value '", raw, "'")))
            }
        },
        _ => match parsed {
            Ok(value) => Ok(value.copied()),
            Err(e) => Err(e.duplicate()),
        },
    }
}

/// A line without the carriage return that it may end with.
pub open spec fn without_return(line: Seq<u8>) -> Seq<u8> {
    if line.len() > 0 && line.last() == 13 {
        line.drop_last()
    } else {
        line
    }
}

/// What a line comes to for a table of which some columns are expected, and whether the line
/// with the names of columns is still to come.
pub open spec fn line_read(line: Seq<u8>, options: OptionsModel, expected: nat) -> (
    Result<LineModel, Report>,
    OptionsModel,
) {
    let bytes = without_return(line);
    if line.len() == 0 || bytes == seq![92u8, 46u8] {
        (Ok(LineModel::Skip), options)
    } else if !valid_utf8(bytes) {
        (
            Err(report("22021"@, "COPY input is not valid UTF-8: "@ + utf8_error(bytes))),
            options,
        )
    } else if options.header_pending {
        (Ok(LineModel::Skip), OptionsModel { header_pending: false, ..options })
    } else {
        match line_fields(decode_utf8(bytes), options) {
            Err(e) => (Err(e), options),
            Ok(fields) => if fields.len() != expected {
                (
                    Err(
                        report(
                            "22P04"@,
                            "COPY row has "@ + decimal(fields.len())
                                + " fields but target expects "@ + decimal(expected),
                        ),
                    ),
                    options,
                )
            } else {
                (Ok(LineModel::Fields { fields }), options)
            },
        }
    }
}

/// The values of a row that a line gives.
pub open spec fn copied_row(
    table: TableModel,
    columns: Seq<Seq<char>>,
    fields: Seq<Seq<char>>,
    options: OptionsModel,
    parsed: Seq<Result<Datum, Report>>,
) -> Result<RowModel, Report>
    decreases columns.len(),
{
    if columns.len() == 0 {
        Ok(Map::empty())
    } else {
        match copied_row(
            table,
            columns.drop_last(),
            fields.drop_last(),
            options,
            parsed.drop_last(),
        ) {
            Err(e) => Err(e),
            Ok(row) => match column_position(table.columns, columns.last()) {
                None => Err(no_column(columns.last())),
                Some(n) => match field_value(
                    fields.last(),
                    table.columns[n as int].data_type,
                    options,
                    parsed.last(),
                ) {
                    Err(e) => Err(e),
                    Ok(value) => Ok(row.insert(columns.last(), value)),
                },
            },
        }
    }
}

/// What the first fields fail with, all of them fail with.
proof fn lemma_copied_row_fails(
    table: TableModel,
    columns: Seq<Seq<char>>,
    fields: Seq<Seq<char>>,
    options: OptionsModel,
    parsed: Seq<Result<Datum, Report>>,
    n: int,
)
    requires
        0 <= n <= columns.len(),
        fields.len() == columns.len(),
        parsed.len() == columns.len(),
        copied_row(table, columns.take(n), fields.take(n), options, parsed.take(n)) is Err,
    ensures
        copied_row(table, columns, fields, options, parsed) == copied_row(
            table,
            columns.take(n),
            fields.take(n),
            options,
            parsed.take(n),
        ),
    decreases columns.len() - n,
{
    if n == columns.len() {
        assert(columns.take(n) =~= columns);
        assert(fields.take(n) =~= fields);
        assert(parsed.take(n) =~= parsed);
    } else {
        assert(columns.take(n + 1).drop_last() =~= columns.take(n));
        assert(fields.take(n + 1).drop_last() =~= fields.take(n));
        assert(parsed.take(n + 1).drop_last() =~= parsed.take(n));
        lemma_copied_row_fails(table, columns, fields, options, parsed, n + 1);
    }
}

/// What is seen of the values that texts come to.
pub open spec fn seen_values(parsed: Seq<Result<ColumnValue, UserError>>) -> Seq<
    Result<Datum, Report>,
> {
    parsed.map_values(|value: Result<ColumnValue, UserError>| seen(value))
}

/// Whether some write goes to a key with a prefix, but not to a given key.
pub open spec fn written_elsewhere(
    writes: Seq<WriteModel>,
    prefix: Seq<u8>,
    key: Seq<u8>,
) -> bool {
    exists|i: int|
        0 <= i < writes.len() && starts_with((#[trigger] writes[i]).key, prefix) && writes[i].key
            != key
}

fn is_written_elsewhere(writes: &Vec<PendingWrite>, prefix: &Vec<u8>, key: &Vec<u8>) -> (answer:
    bool)
    ensures
        answer == written_elsewhere(views(writes@), prefix@, key@),
{
    let ghost all = views(writes@);
    let mut i: usize = 0;
    while i < writes.len()
        invariant
            i <= writes@.len(),
            all == views(writes@),
            forall|k: int|
                0 <= k < i ==> !(starts_with((#[trigger] all[k]).key, prefix@) && all[k].key
                    != key@),
        decreases writes@.len() - i,
    {
        assert(all[i as int] == writes@[i as int]@);
        if has_prefix(writes[i].key.as_slice(), prefix.as_slice()) && !same_bytes(
            &writes[i].key,
            key,
        ) {
            return true;
        }
        i += 1;
    }
    false
}

fn same_bytes(a: &Vec<u8>, b: &Vec<u8>) -> (same: bool)
    ensures
        same == (a@ == b@),
{
    if a.len() != b.len() {
        return false;
    }
    let answer = has_prefix(a.as_slice(), b.as_slice());
    assert(a@.take(a@.len() as int) =~= a@);
    answer
}

/// Whether rows with other keys are stored.
pub open spec fn stored_elsewhere(stored: Seq<Datum>, key: Datum) -> bool {
    exists|i: int| 0 <= i < stored.len() && !datum_eq(#[trigger] stored[i], key)
}

fn is_stored_elsewhere(stored: &Vec<ColumnValue>, key: &ColumnValue) -> (answer: bool)
    ensures
        answer == stored_elsewhere(views(stored@), key@),
{
    let ghost all = views(stored@);
    let mut i: usize = 0;
    while i < stored.len()
        invariant
            i <= stored@.len(),
            all == views(stored@),
            forall|k: int| 0 <= k < i ==> datum_eq(#[trigger] all[k], key@),
        decreases stored@.len() - i,
    {
        assert(all[i as int] == stored@[i as int]@);
        if !stored[i].equals(key) {
            return true;
        }
        i += 1;
    }
    false
}

/// The value of an index entry.
pub open spec fn present() -> Seq<u8> {
    seq![1u8]
}

/// The writes with those of a row's entry in an index, where a unique index has no entry with
/// the same value for another row; also the error where it has one.
pub open spec fn entry_added(
    target: CopyModel,
    writes: Seq<WriteModel>,
    row: RowModel,
    key: Datum,
    index: IndexModel,
    facts: FactsModel,
) -> (Seq<WriteModel>, Option<Report>) {
    let value = indexed(row, index.column_names);
    let prefix = entry_prefix(
        target.database_name,
        target.schema_name,
        target.schema.table_name,
        index.index_name,
        value,
    );
    let old_key = prefix + key_segment(key);
    if index.unique && !has_null(value) && (stored_elsewhere(facts.stored, key)
        || written_elsewhere(writes, facts.prefix, facts.key) || written_elsewhere(
        writes,
        prefix,
        old_key,
    ) || facts.old_entry_found) {
        (
            writes,
            Some(
                report(
                    "23505"@,
                    "duplicate key value violates unique constraint '"@ + index.index_name + "'"@,
                ),
            ),
        )
    } else {
        (
            writes.push(WriteModel { key: facts.key, value: present() }).push(
                WriteModel { key: old_key, value: present() },
            ),
            None,
        )
    }
}

/// The writes with those of a row's entries in all indexes, up to the first that refuses it.
pub open spec fn entries_added(
    target: CopyModel,
    writes: Seq<WriteModel>,
    row: RowModel,
    key: Datum,
    indexes: Seq<IndexModel>,
    facts: Seq<FactsModel>,
) -> (Seq<WriteModel>, Option<Report>)
    decreases indexes.len(),
{
    if indexes.len() == 0 || facts.len() == 0 {
        (writes, None)
    } else {
        let before = entries_added(
            target,
            writes,
            row,
            key,
            indexes.drop_last(),
            facts.drop_last(),
        );
        if before.1 is Some {
            before
        } else {
            entry_added(target, before.0, row, key, indexes.last(), facts.last())
        }
    }
}

/// What the first indexes refuse, all of them refuse.
proof fn lemma_entries_refused(
    target: CopyModel,
    writes: Seq<WriteModel>,
    row: RowModel,
    key: Datum,
    indexes: Seq<IndexModel>,
    facts: Seq<FactsModel>,
    n: int,
)
    requires
        0 <= n <= indexes.len(),
        indexes.len() == facts.len(),
        entries_added(target, writes, row, key, indexes.take(n), facts.take(n)).1 is Some,
    ensures
        entries_added(target, writes, row, key, indexes, facts) == entries_added(
            target,
            writes,
            row,
            key,
            indexes.take(n),
            facts.take(n),
        ),
    decreases indexes.len() - n,
{
    if n == indexes.len() {
        assert(indexes.take(n) =~= indexes);
        assert(facts.take(n) =~= facts);
    } else {
        assert(indexes.take(n + 1).drop_last() =~= indexes.take(n));
        assert(facts.take(n + 1).drop_last() =~= facts.take(n));
        lemma_entries_refused(target, writes, row, key, indexes, facts, n + 1);
    }
}

/// The entries of a row come behind the writes that were there, none of which is lost, and a row
/// that no index refuses has two entries for each index.
pub proof fn law_entries_come_last(
    target: CopyModel,
    writes: Seq<WriteModel>,
    row: RowModel,
    key: Datum,
    indexes: Seq<IndexModel>,
    facts: Seq<FactsModel>,
)
    requires
        indexes.len() == facts.len(),
    ensures
        ({
            let added = entries_added(target, writes, row, key, indexes, facts);
            added.0.len() >= writes.len() && added.0.take(writes.len() as int) == writes && (
            added.1 is None ==> added.0.len() == writes.len() + 2 * indexes.len())
        }),
    decreases indexes.len(),
{
    let added = entries_added(target, writes, row, key, indexes, facts);
    if indexes.len() == 0 {
        assert(added.0.take(writes.len() as int) =~= writes);
    } else {
        law_entries_come_last(
            target,
            writes,
            row,
            key,
            indexes.drop_last(),
            facts.drop_last(),
        );
        let before = entries_added(
            target,
            writes,
            row,
            key,
            indexes.drop_last(),
            facts.drop_last(),
        );
        assert(added.0.take(writes.len() as int) =~= before.0.take(writes.len() as int));
    }
}

/// What a row makes of the data for a table, and whether it is time to write; also the error of
/// an index that refuses the row.
pub open spec fn row_added(
    target: CopyModel,
    row: RowModel,
    key: Datum,
    row_write: WriteModel,
    facts: Seq<FactsModel>,
    max_rows: nat,
    max_entries: nat,
) -> (CopyModel, Result<bool, Report>) {
    let added = entries_added(
        target,
        target.pending_writes.push(row_write),
        row,
        key,
        target.indexes,
        facts,
    );
    match added.1 {
        Some(e) => (CopyModel { pending_writes: added.0, ..target }, Err(e)),
        None => (
            CopyModel {
                pending_writes: added.0,
                pending_rows: (target.pending_rows + 1) as usize,
                ..target
            },
            Ok(target.pending_rows + 1 >= max_rows || added.0.len() >= max_entries),
        ),
    }
}

impl CopyInState {
    /// Takes data that have come.
    pub fn receive(&mut self, data: &[u8])
        ensures
            final(self)@ == (CopyModel { buffer: old(self)@.buffer + data@, ..old(self)@ }),
    {
        push_all(&mut self.buffer, data);
    }

    /// The lines that can be read by now; at the end of all data also the last one.
    pub fn lines(&self, is_end: bool) -> (lines: Vec<Vec<u8>>)
        ensures
            line_seqs(lines@) == data_lines(self@.buffer, is_end),
    {
        buffered_lines(&self.buffer, is_end)
    }

    /// Forgets the lines that were read.
    pub fn drop_lines(&mut self, is_end: bool)
        ensures
            final(self)@ == (CopyModel {
                buffer: if is_end {
                    seq![]
                } else {
                    unfinished(old(self)@.buffer)
                },
                ..old(self)@
            }),
    {
        drop_buffered_lines(&mut self.buffer, is_end);
    }

    /// Reads a line.
    pub fn read_line(&mut self, line: &Vec<u8>) -> (result: Result<CopyLine, UserError>)
        ensures
            (seen(result), final(self)@.options) == line_read(
                line@,
                old(self)@.options,
                old(self)@.columns.len(),
            ),
            final(self)@ == (CopyModel { options: final(self)@.options, ..old(self)@ }),
    {
        if line.len() == 0 {
            return Ok(CopyLine::Skip);
        }
        let mut bytes = bytes_of(line.as_slice());
        if bytes[bytes.len() - 1] == 13 {
            bytes.pop();
            assert(bytes@ =~= line@.drop_last());
        }
        assert(bytes@ == without_return(line@));
        if bytes.len() == 2 && bytes[0] == 92 && bytes[1] == 46 {
            assert(bytes@ =~= seq![92u8, 46u8]);
            return Ok(CopyLine::Skip);
        }
        let text = match string_from_utf8(bytes) {
            Err(message) => {
                return Err(
                    user_error_text(
                        "22021",
                        two_texts("COPY input is not valid UTF-8: ", message.as_str()),
                    ),
                );
            },
            Ok(text) => text,
        };
        if self.options.header_pending {
            self.options.header_pending = false;
            return Ok(CopyLine::Skip);
        }
        let fields = match split_copy_fields(text.as_str(), &self.options) {
            Err(e) => {
                return Err(e);
            },
            Ok(fields) => fields,
        };
        if fields.len() != self.columns.len() {
            let front = two_texts("COPY row has ", decimal_text(fields.len() as u64).as_str());
            let message = three_texts(
                front.as_str(),
                " fields but target expects ",
                decimal_text(self.columns.len() as u64).as_str(),
            );
            return Err(user_error_text("22P04", message));
        }
        Ok(CopyLine::Fields { fields })
    }

    /// The row that the fields of a line give. `parsed` says of each field what its text comes
    /// to where its column has none of the plain types.
    pub fn row_of_fields(
        &self,
        fields: &Vec<String>,
        parsed: &Vec<Result<ColumnValue, UserError>>,
    ) -> (result: Result<RowMap, UserError>)
        requires
            fields@.len() == self.columns@.len(),
            parsed@.len() == self.columns@.len(),
        ensures
            seen(result) == copied_row(
                self@.schema,
                self@.columns,
                views(fields@),
                self@.options,
                seen_values(parsed@),
            ),
    {
        let ghost table = self@.schema;
        let ghost columns = self@.columns;
        let ghost texts = views(fields@);
        let ghost values = seen_values(parsed@);
        let mut row = RowMap::new();
        let mut i: usize = 0;
        while i < self.columns.len()
            invariant
                i <= self.columns@.len(),
                fields@.len() == self.columns@.len(),
                parsed@.len() == self.columns@.len(),
                table == self@.schema,
                columns == self@.columns,
                texts == views(fields@),
                values == seen_values(parsed@),
                copied_row(
                    table,
                    columns.take(i as int),
                    texts.take(i as int),
                    self@.options,
                    values.take(i as int),
                ) == Ok::<RowModel, Report>(row@),
            decreases self.columns@.len() - i,
        {
            let ghost n = i + 1;
            proof {
                assert(columns.take(n).drop_last() =~= columns.take(i as int));
                assert(texts.take(n).drop_last() =~= texts.take(i as int));
                assert(values.take(n).drop_last() =~= values.take(i as int));
                assert(columns.take(n).last() == self.columns@[i as int]@);
                assert(texts.take(n).last() == fields@[i as int]@);
                assert(values.take(n).last() == seen(parsed@[i as int]));
            }
            let column = match self.schema.find_column(self.columns[i].as_str()) {
                None => {
                    proof {
                        lemma_copied_row_fails(table, columns, texts, self@.options, values, n);
                    }
                    return Err(no_column_error(self.columns[i].as_str()));
                },
                Some(column) => column,
            };
            let value = match decode_copy_field(
                fields[i].as_str(),
                &column.data_type,
                &self.options,
                &parsed[i],
            ) {
                Err(e) => {
                    proof {
                        lemma_copied_row_fails(table, columns, texts, self@.options, values, n);
                    }
                    return Err(e);
                },
                Ok(value) => value,
            };
            row.insert(self.columns[i].clone(), value);
            i += 1;
        }
        assert(columns.take(i as int) =~= columns);
        assert(texts.take(i as int) =~= texts);
        assert(values.take(i as int) =~= values);
        Ok(row)
    }

    /// The key of a row that meets the constraints of the table. `row_id` is the identifier that
    /// was taken for it, and `verdicts` says of each check constraint what it came to.
    pub fn key_of_row(
        &self,
        row: &RowMap,
        row_id: &ColumnValue,
        verdicts: Vec<CheckVerdict>,
    ) -> (result: Result<ColumnValue, UserError>)
        requires
            verdicts@.len() == self.schema.check_constraints@.len(),
        ensures
            seen(result) == (if key_for_insert(self@.schema, row@, row_id@) == Datum::Null {
                Err(
                    report(
                        "23502"@,
                        "null value for primary key '"@ + self@.schema.primary_key + "'"@,
                    ),
                )
            } else {
                match constraint_error(self@.schema, row@, views(verdicts@)) {
                    Some(e) => Err(e),
                    None => Ok(key_for_insert(self@.schema, row@, row_id@)),
                }
            }),
    {
        let key = match insert_key(&self.schema, row, row_id) {
            Err(e) => {
                return Err(e);
            },
            Ok(key) => key,
        };
        match validate_row_constraints(&self.schema, row, &verdicts) {
            Err(e) => Err(e),
            Ok(_) => Ok(key),
        }
    }

    /// Adds a row to what is to be written, with its entries in all indexes; says whether it is
    /// time to write. `facts` says of each index what is known of the row's entry.
    pub fn add_row(
        &mut self,
        row: &RowMap,
        key: &ColumnValue,
        row_write: PendingWrite,
        facts: &Vec<IndexFacts>,
        max_rows: usize,
        max_entries: usize,
    ) -> (result: Result<bool, UserError>)
        requires
            facts@.len() == old(self).indexes@.len(),
            old(self).indexes@.len() == 0 || keyable(key@),
            old(self).pending_rows < usize::MAX,
        ensures
            (final(self)@, match result {
                Ok(due) => Ok(due),
                Err(e) => Err(e@),
            }) == row_added(
                old(self)@,
                row@,
                key@,
                row_write@,
                views(facts@),
                max_rows as nat,
                max_entries as nat,
            ),
    {
        let ghost target = self@;
        let ghost indexes = self@.indexes;
        let ghost known = views(facts@);
        let ghost first = row_write@;
        let ghost start = self@.pending_writes.push(first);
        self.pending_writes.push(row_write);
        assert(self@.pending_writes =~= start);
        let mut i: usize = 0;
        while i < self.indexes.len()
            invariant
                i <= self.indexes@.len(),
                facts@.len() == self.indexes@.len(),
                keyable(key@) || self.indexes@.len() == 0,
                target == old(self)@,
                first == row_write@,
                start == target.pending_writes.push(first),
                indexes == target.indexes,
                known == views(facts@),
                self@ == (CopyModel { pending_writes: self@.pending_writes, ..target }),
                entries_added(
                    target,
                    start,
                    row@,
                    key@,
                    indexes.take(i as int),
                    known.take(i as int),
                ) == (self@.pending_writes, None::<Report>),
            decreases self.indexes@.len() - i,
        {
            let ghost writes = self@.pending_writes;
            proof {
                assert(indexes.take(i + 1).drop_last() =~= indexes.take(i as int));
                assert(known.take(i + 1).drop_last() =~= known.take(i as int));
                assert(indexes.take(i + 1).last() == self.indexes@[i as int]@);
                assert(known.take(i + 1).last() == facts@[i as int]@);
            }
            let index = &self.indexes[i];
            let fact = &facts[i];
            let value = indexed_value(row, index);
            let old_key = index_entry_key(
                self.database_name.as_str(),
                self.schema_name.as_str(),
                self.schema.table_name.as_str(),
                index.index_name.as_str(),
                &value,
                key,
            );
            if index.unique && !index_value_has_null(&value) {
                let prefix = index_entry_prefix(
                    self.database_name.as_str(),
                    self.schema_name.as_str(),
                    self.schema.table_name.as_str(),
                    index.index_name.as_str(),
                    &value,
                );
                if is_stored_elsewhere(&fact.stored, key) || is_written_elsewhere(
                    &self.pending_writes,
                    &fact.prefix,
                    &fact.key,
                ) || is_written_elsewhere(&self.pending_writes, &prefix, &old_key)
                    || fact.old_entry_found {
                    proof {
                        lemma_entries_refused(
                            target,
                            start,
                            row@,
                            key@,
                            indexes,
                            known,
                            i + 1,
                        );
                    }
                    return Err(
                        user_error_text(
                            "23505",
                            three_texts(
                                "duplicate key value violates unique constraint '",
                                index.index_name.as_str(),
                                "'",
                            ),
                        ),
                    );
                }
            }
            let ghost added = WriteModel { key: fact.key@, value: present() };
            let ghost old_added = WriteModel { key: old_key@, value: present() };
            let entry = PendingWrite { key: bytes_of(fact.key.as_slice()), value: vec![1u8] };
            let old_entry = PendingWrite { key: old_key, value: vec![1u8] };
            assert(entry.value@ =~= present());
            assert(old_entry.value@ =~= present());
            self.pending_writes.push(entry);
            self.pending_writes.push(old_entry);
            assert(self@.pending_writes =~= writes.push(added).push(old_added));
            i += 1;
        }
        assert(indexes.take(i as int) =~= indexes);
        assert(known.take(i as int) =~= known);
        self.pending_rows += 1;
        Ok(self.pending_rows >= max_rows || self.pending_writes.len() >= max_entries)
    }

    /// Counts a row that is in.
    pub fn count_row(&mut self)
        requires
            old(self).inserted_rows < usize::MAX,
        ensures
            final(self)@ == (CopyModel {
                inserted_rows: (old(self)@.inserted_rows + 1) as usize,
                ..old(self)@
            }),
    {
        self.inserted_rows += 1;
    }

    /// Hands out what is to be written.
    pub fn take_writes(&mut self) -> (writes: Vec<PendingWrite>)
        ensures
            views(writes@) == old(self)@.pending_writes,
            final(self)@ == (if old(self)@.pending_writes.len() == 0 {
                old(self)@
            } else {
                CopyModel { pending_writes: seq![], pending_rows: 0, ..old(self)@ }
            }),
    {
        let mut writes: Vec<PendingWrite> = Vec::new();
        if self.pending_writes.len() == 0 {
            assert(views(writes@) =~= self@.pending_writes);
            return writes;
        }
        std::mem::swap(&mut writes, &mut self.pending_writes);
        self.pending_rows = 0;
        assert(self@.pending_writes =~= Seq::<WriteModel>::empty());
        writes
    }
}

/// The name behind the last dot.
pub open spec fn last_part(name: Seq<char>) -> Seq<char> {
    match last_mark(name, '.') {
        Some(n) => name.skip(n + 1),
        None => name,
    }
}

fn last_part_of(name: &str) -> (part: String)
    ensures
        part@ == last_part(name@),
{
    let chars = chars_of(name);
    let mut end: usize = chars.len();
    assert(name@.take(end as int) =~= name@);
    while end > 0
        invariant
            end <= chars@.len(),
            chars@ == name@,
            last_mark(name@, '.') == last_mark(name@.take(end as int), '.'),
        decreases end,
    {
        if chars[end - 1] == '.' {
            let rest = crate::text::part(chars.as_slice(), end, chars.len());
            assert(rest@ =~= name@.skip(end as int));
            return string_of(rest);
        }
        assert(name@.take(end as int).drop_last() =~= name@.take(end - 1));
        end -= 1;
    }
    name.to_string()
}

/// The data for a table at the start, or the error where the table or a column is not there.
pub open spec fn copy_begun(
    contents: Contents,
    session_id: i32,
    use_session_transaction: bool,
    scope: SessionScope,
    table_name: Seq<char>,
    columns: Seq<Seq<char>>,
    options: OptionsModel,
) -> Result<CopyModel, Report> {
    match table_required(contents, scope.database_name, scope.search_path, table_name) {
        Err(e) => Err(e),
        Ok((schema_name, schema)) => {
            let named = if columns.len() == 0 {
                names_of(schema.columns)
            } else {
                columns
            };
            match unknown_column(schema.columns, named) {
                Some(name) => Err(no_column(name)),
                None => match indexes_listed(contents, schema.table_id) {
                    Err(e) => Err(e),
                    Ok(indexes) => Ok(
                        CopyModel {
                            session_id,
                            use_session_transaction,
                            database_name: scope.database_name,
                            schema_name,
                            schema,
                            indexes,
                            columns: named,
                            options: OptionsModel { header_pending: options.header, ..options },
                            buffer: seq![],
                            pending_writes: seq![],
                            pending_rows: 0,
                            inserted_rows: 0,
                        },
                    ),
                },
            }
        },
    }
}

impl<S: KvStore> GatewayServer<S> {
    fn begin_copy(
        &mut self,
        session_id: i32,
        use_session_transaction: bool,
        session: &SessionCatalog,
        table_name: &str,
        columns: Vec<String>,
        options: CopyInOptions,
    ) -> (result: Result<CopyInState, UserError>)
        ensures
            final(self).reliable() == old(self).reliable(),
            final(self).same_sessions(old(self)),
            is_misreferred(table_name@) ==> final(self).contents() == old(self).contents(),
            not_internal(result) || old(self).reliable() || is_misreferred(table_name@) ==> only_opened(
                old(self).contents(),
                final(self).contents(),
            ) && seen(result) == copy_begun(
                bootstrapped(old(self).contents()),
                session_id,
                use_session_transaction,
                session@,
                table_name@,
                views(columns@),
                options@,
            ),
    {
        proof {
            law_bootstrap_is_stable(self.contents());
        }
        let (schema_name, schema) = match self.require_table(
            session.database_name.as_str(),
            &session.search_path,
            table_name,
        ) {
            Err(e) => {
                return Err(e);
            },
            Ok(found) => found,
        };
        let ghost given = columns@;
        let named = if columns.len() == 0 {
            schema.column_names()
        } else {
            columns
        };
        match require_columns(&schema, &named) {
            Err(e) => {
                return Err(e);
            },
            Ok(_) => {},
        }
        let indexes = match self.catalog.list_indexes_for_table(schema.table_id) {
            Err(e) => {
                return Err(e);
            },
            Ok(indexes) => indexes,
        };
        let mut options = options;
        options.header_pending = options.header;
        let state = CopyInState {
            session_id,
            use_session_transaction,
            database_name: session.database_name.clone(),
            schema_name,
            schema,
            indexes,
            columns: named,
            options,
            buffer: Vec::new(),
            pending_writes: Vec::new(),
            pending_rows: 0,
            inserted_rows: 0,
        };
        assert(state@.pending_writes =~= Seq::<WriteModel>::empty());
        assert(state@.buffer =~= Seq::<u8>::empty());
        Ok(state)
    }

    /// Starts to take data for a table.
    pub fn begin_copy_from_stdin(
        &mut self,
        session_id: i32,
        session: &SessionCatalog,
        table_name: &ObjectName,
        columns: Vec<String>,
        options: CopyInOptions,
        use_session_transaction: bool,
    ) -> (result: Result<CopyInState, UserError>)
        ensures
            final(self).reliable() == old(self).reliable(),
            final(self).same_sessions(old(self)),
            is_misnamed(table_name@) ==> final(self).contents() == old(self).contents(),
            not_internal(result) || old(self).reliable() || object_name(table_name@) is Err
                ==> only_opened(
                old(self).contents(),
                final(self).contents(),
            ) && seen(result) == (match object_name(table_name@) {
                Err(e) => Err(e),
                Ok(name) => copy_begun(
                    bootstrapped(old(self).contents()),
                    session_id,
                    use_session_transaction,
                    session@,
                    name,
                    views(columns@),
                    options@,
                ),
            }),
    {
        let name = match object_name_to_string(table_name) {
            Err(e) => {
                return Err(e);
            },
            Ok(name) => name,
        };
        self.begin_copy(
            session_id,
            use_session_transaction,
            session,
            name.as_str(),
            columns,
            options,
        )
    }

    /// Starts to take the data of a file of the client for a table.
    pub fn begin_mysql_load_data_local(
        &mut self,
        session_id: i32,
        session: &SessionCatalog,
        query: &str,
        use_session_transaction: bool,
    ) -> (result: Result<CopyInState, UserError>)
        ensures
            final(self).reliable() == old(self).reliable(),
            final(self).same_sessions(old(self)),
            load_request(query@) is Err ==> final(self).contents() == old(self).contents(),
            not_internal(result) || old(self).reliable() || load_request(query@) is Err
                ==> only_opened(
                old(self).contents(),
                final(self).contents(),
            ) && seen(result) == (match load_request(query@) {
                Err(e) => Err(e),
                Ok(request) => copy_begun(
                    bootstrapped(old(self).contents()),
                    session_id,
                    use_session_transaction,
                    session@,
                    last_part(request.table_name),
                    request.columns,
                    request.options,
                ),
            }),
    {
        let request = match parse_mysql_load_data_local(query) {
            Err(e) => {
                return Err(e);
            },
            Ok(request) => request,
        };
        let table_name = last_part_of(request.table_name.as_str());
        self.begin_copy(
            session_id,
            use_session_transaction,
            session,
            table_name.as_str(),
            request.columns,
            request.options,
        )
    }
}

/// The data that clients are sending, by their sessions.
#[derive(Debug)]
pub struct CopySessions {
    pub states: HashMap<i32, CopyInState>,
}

impl View for CopySessions {
    type V = Map<i32, CopyModel>;

    open spec fn view(&self) -> Map<i32, CopyModel> {
        self.states@.map_values(|state: CopyInState| state@)
    }
}

impl CopySessions {
    /// No data yet.
    pub fn new() -> (sessions: CopySessions)
        ensures
            sessions@ == Map::<i32, CopyModel>::empty(),
    {
        let sessions = CopySessions { states: HashMap::new() };
        assert(sessions@ =~= Map::<i32, CopyModel>::empty());
        sessions
    }

    /// Keeps the data of a session.
    pub fn keep(&mut self, session_id: i32, state: CopyInState)
        ensures
            final(self)@ == old(self)@.insert(session_id, state@),
    {
        let ghost model = state@;
        self.states.insert(session_id, state);
        assert(self@ =~= old(self)@.insert(session_id, model));
    }

    fn take(&mut self, session_id: i32, message: &str) -> (result: Result<CopyInState, UserError>)
        ensures
            final(self)@ == old(self)@.remove(session_id),
            seen(result) == (if old(self)@.dom().contains(session_id) {
                Ok(old(self)@[session_id])
            } else {
                Err(report("XX000"@, message@))
            }),
    {
        let found = self.states.remove(&session_id);
        assert(self@ =~= old(self)@.remove(session_id));
        match found {
            Some(state) => Ok(state),
            None => Err(user_error("XX000", message)),
        }
    }

    /// Hands out the data of a session that copies.
    pub fn take_copy(&mut self, session_id: i32) -> (result: Result<CopyInState, UserError>)
        ensures
            final(self)@ == old(self)@.remove(session_id),
            seen(result) == (if old(self)@.dom().contains(session_id) {
                Ok(old(self)@[session_id])
            } else {
                Err(report("XX000"@, "COPY IN state not initialized"@))
            }),
    {
        self.take(session_id, "COPY IN state not initialized")
    }

    /// Hands out the data of a session that loads a file.
    pub fn take_load(&mut self, session_id: i32) -> (result: Result<CopyInState, UserError>)
        ensures
            final(self)@ == old(self)@.remove(session_id),
            seen(result) == (if old(self)@.dom().contains(session_id) {
                Ok(old(self)@[session_id])
            } else {
                Err(report("XX000"@, "LOAD DATA LOCAL state not initialized"@))
            }),
    {
        self.take(session_id, "LOAD DATA LOCAL state not initialized")
    }

    /// Forgets the data of a session whose client gave up.
    pub fn on_copy_fail(&mut self, session_id: i32, message: &str) -> (error: UserError)
        ensures
            final(self)@ == old(self)@.remove(session_id),
            error@ == report("XX000"@, "COPY IN terminated by client: "@ + message@),
    {
        self.states.remove(&session_id);
        assert(self@ =~= old(self)@.remove(session_id));
        user_error_text("XX000", two_texts("COPY IN terminated by client: ", message))
    }
}

} // verus!
