//! What answers are for: a client gets the columns that it asked for, of the rows in its window,
//! and is told how many rows were written; and a name leads to the first object that has it.
use vstd::prelude::*;

use crate::catalog::model::table_found;
use crate::error::Report;
use crate::mem_store::Contents;
use crate::mode::GatewayMode;
use crate::names::PartModel;
use crate::response::{
    encoded_row, has_binary_form, returned_fields, returned_response, rows_response, text_rows,
    FieldFormat, ResponseModel, TypeModel,
};
use crate::row::{field, RowModel};
use crate::schema::{column_position, law_normalized_keeps_columns, ColumnModel, TableModel};
use crate::server::conflict::{conflict_resolved, OnInsertModel};
use crate::server::dml_insert::{
    declared_columns, inferred_table, insert_columns, insert_planned, InsertTargetModel,
};
use crate::server::exec_rows::{insert_answer, scan_has_window, windowed, InsertCounts};
use crate::server::gateway::{table_required, table_resolved, table_searched};
use crate::server::plan::{ConflictModel, ReadModel, ReturningModel};
use crate::text::{mark_at, signed_decimal};
use crate::types::{type_code, DataType, Datum};

verus! {

/// The answer to a query has a field for each column that was asked for, in its order, with its
/// name and the type of the column, and a row for each row, with the values of these columns.
pub proof fn law_answers_have_what_was_asked_for(
    rows: Seq<RowModel>,
    table: TableModel,
    projection: Seq<Seq<char>>,
    r: int,
    c: int,
)
    requires
        0 <= c < projection.len(),
    ensures
        rows_response(rows, table, projection, FieldFormat::Text) matches ResponseModel::Query {
            fields,
            rows: told,
        } && {
            &&& fields.len() == projection.len()
            &&& fields[c].name == projection[c]
            &&& fields[c].format == FieldFormat::Text
            &&& column_position(table.columns, projection[c]) matches Some(place)
                ==> fields[c].field_type == TypeModel::Column(table.columns[place as int].data_type)
            &&& column_position(table.columns, projection[c]) is None ==> fields[c].field_type
                == TypeModel::Text
            &&& told.len() == rows.len()
            &&& 0 <= r < rows.len() ==> (told[r] matches Ok(values) && values.len()
                == projection.len() && values[c] == field(rows[r], projection[c]))
        },
{
}

/// Values that have no binary form are refused where it is asked for, and only then.
pub proof fn law_values_are_sent_or_refused(values: Seq<Datum>, format: FieldFormat)
    ensures
        encoded_row(values, FieldFormat::Text) == Ok::<Seq<Datum>, Report>(values),
        encoded_row(values, format) matches Ok(sent) ==> sent == values,
        encoded_row(values, FieldFormat::Binary) is Ok <==> forall|i: int|
            0 <= i < values.len() ==> has_binary_form(#[trigger] values[i]),
{
}

/// Whole numbers, texts, booleans and bytes have a binary form; nulls too.
pub proof fn law_plain_values_have_a_binary_form(value: Datum)
    ensures
        value is Null || value is Int16 || value is Int32 || value is Int64 || value is Text
            || value is Boolean || value is Bytea ==> has_binary_form(value),
        value is Numeric || value is Date || value is Timestamp || value is TimestampTz
            || value is Uuid || value is Json || value is Jsonb || value is Array
            ==> !has_binary_form(value),
{
}

/// What a statement gives back has a field for each thing that was asked for: all columns of the
/// table for a star, a column by its name, an expression by the name that it was given.
pub proof fn law_returned_fields_are_as_asked_for(
    table: TableModel,
    projection: Seq<ReturningModel>,
    format: FieldFormat,
    name: Seq<char>,
    expr: Seq<char>,
)
    ensures
        ({
            let before = returned_fields(table, projection, format);
            &&& returned_fields(
                table,
                projection.push(ReturningModel::Column { name }),
                format,
            ).drop_last() == before
            &&& returned_fields(
                table,
                projection.push(ReturningModel::Column { name }),
                format,
            ).last().name == name
            &&& returned_fields(
                table,
                projection.push(ReturningModel::Expr { expr, output_name: name }),
                format,
            ).drop_last() == before
            &&& returned_fields(
                table,
                projection.push(ReturningModel::Expr { expr, output_name: name }),
                format,
            ).last().name == name
            &&& returned_fields(
                table,
                projection.push(ReturningModel::Wildcard),
                format,
            ).len() == before.len() + table.columns.len()
            &&& returned_fields(
                table,
                projection.push(ReturningModel::Wildcard),
                format,
            ).take(before.len() as int) == before
            &&& forall|i: int|
                0 <= i < table.columns.len() ==> (#[trigger] returned_fields(
                    table,
                    projection.push(ReturningModel::Wildcard),
                    format,
                )[before.len() + i]).name == table.columns[i].name
        }),
{
    let before = returned_fields(table, projection, format);
    let column = ReturningModel::Column { name };
    let computed = ReturningModel::Expr { expr, output_name: name };
    let star = ReturningModel::Wildcard;
    assert(projection.push(column).drop_last() =~= projection);
    assert(projection.push(computed).drop_last() =~= projection);
    assert(projection.push(star).drop_last() =~= projection);
    assert(returned_fields(table, projection.push(column), format).drop_last() =~= before);
    assert(returned_fields(table, projection.push(computed), format).drop_last() =~= before);
    assert(returned_fields(table, projection.push(star), format).take(before.len() as int)
        =~= before);
}

/// A statement gives back a row for each row that it wrote, with its values.
pub proof fn law_returned_rows_are_told(
    rows: Seq<Seq<Datum>>,
    table: TableModel,
    projection: Seq<ReturningModel>,
    r: int,
)
    requires
        0 <= r < rows.len(),
    ensures
        returned_response(rows, table, projection, FieldFormat::Text) matches ResponseModel::Query {
            fields,
            rows: told,
        } && told.len() == rows.len() && told[r] == Ok::<Seq<Datum>, Report>(rows[r]) && fields
            == returned_fields(table, projection, FieldFormat::Text),
{
}

/// Rows of texts are told as they are, with a null where there is no text, under their names.
pub proof fn law_texts_are_told(
    names: Seq<Seq<char>>,
    rows: Seq<Seq<Option<Seq<char>>>>,
    r: int,
    c: int,
)
    requires
        0 <= r < rows.len(),
        0 <= c < rows[r].len(),
        c < names.len(),
    ensures
        text_rows(names, rows) matches ResponseModel::Query { fields, rows: told } && {
            &&& fields.len() == names.len() && fields[c].name == names[c]
            &&& told.len() == rows.len()
            &&& told[r] matches Ok(values) && values.len() == rows[r].len() && values[c]
                == match rows[r][c] {
                Some(text) => Datum::Text(text),
                None => Datum::Null,
            }
        },
{
}

/// A window has the rows behind its offset, in their order, as many as there are and its limit
/// allows.
pub proof fn law_windows_have_their_rows<V>(rows: Seq<V>, limit: Option<usize>, offset: usize)
    ensures
        ({
            let window = windowed(rows, limit, offset);
            let rest = if offset < rows.len() {
                rows.len() - offset
            } else {
                0
            };
            &&& window.len() == if limit is Some && limit->0 < rest {
                limit->0 as int
            } else {
                rest
            }
            &&& forall|i: int| 0 <= i < window.len() ==> #[trigger] window[i] == rows[offset + i]
        }),
{
}

/// The window of a query is cut once: by a scan of rows, where the query has a window, else from
/// the rows that were found.
pub proof fn law_windows_are_cut_once(access: ReadModel, limit: Option<usize>, offset: usize)
    ensures
        scan_has_window(access, limit, offset) <==> (access is PrimaryKeyRangeScan
            || access is PrefixScan) && (limit is Some || offset > 0),
{
}

/// MySQL clients are told how many rows count and the first number that was given out, PostgreSQL
/// clients how many rows were written.
pub proof fn law_insertions_are_told(counts: InsertCounts)
    ensures
        insert_answer(GatewayMode::MySql, counts) matches ResponseModel::Execution { tag, count }
            && count == Some(counts.affected_rows) && tag == "INSERT "@ + signed_decimal(
            if counts.first_insert_id is Some {
                counts.first_insert_id->0 as int
            } else {
                0
            },
        ),
        insert_answer(GatewayMode::Postgres, counts) matches ResponseModel::Execution { tag, count }
            && count == Some(counts.inserted) && tag == "INSERT 0"@,
{
}

/// The plan of an insertion is for its table, with its rows in their order, what becomes of rows
/// that clash, and what it gives back.
pub proof fn law_insert_plans_keep_the_request(
    contents: Contents,
    database_name: Seq<char>,
    target: InsertTargetModel,
    by_assignments: bool,
    by_source: bool,
    rows: Seq<RowModel>,
    on: Option<OnInsertModel>,
    ignore: bool,
    replace_into: bool,
    returning: Option<Seq<ReturningModel>>,
)
    ensures
        insert_planned(
            contents,
            database_name,
            target,
            by_assignments,
            by_source,
            Ok(rows),
            on,
            ignore,
            replace_into,
            Ok(returning),
        ) matches Ok(plan) ==> plan is InsertRows && {
            &&& plan->InsertRows_database_name == database_name
            &&& plan->InsertRows_schema_name == target.schema_name
            &&& plan->InsertRows_schema == target.schema
            &&& plan->InsertRows_rows == rows
            &&& plan->InsertRows_returning == returning
            &&& conflict_resolved(contents, target.schema, on, ignore, replace_into) == Ok::<
                Option<ConflictModel>,
                Report,
            >(plan->InsertRows_on_conflict)
            &&& by_assignments || by_source
        },
        (by_source && !by_assignments || by_assignments && !by_source && target.columns.len()
            == 0) && conflict_resolved(contents, target.schema, on, ignore, replace_into) is Ok
            ==> insert_planned(
            contents,
            database_name,
            target,
            by_assignments,
            by_source,
            Ok(rows),
            on,
            ignore,
            replace_into,
            Ok(returning),
        ) is Ok,
{
}

/// Whether what is written is a plain name.
pub open spec fn is_named(parts: Seq<PartModel>, name: Seq<char>) -> bool {
    parts.len() == 1 && (parts[0] matches PartModel::Identifier(ident) && ident.value == name)
}

/// The columns that an insertion names are taken in their order, each by its own name.
pub proof fn law_insertions_name_their_columns(names: Seq<Seq<PartModel>>)
    ensures
        insert_columns(names) matches Ok(found) ==> found.len() == names.len() && forall|i: int|
            0 <= i < names.len() ==> is_named(names[i], #[trigger] found[i]),
    decreases names.len(),
{
    if names.len() > 0 {
        let init = names.drop_last();
        law_insertions_name_their_columns(init);
        if let Ok(found) = insert_columns(names) {
            let before = insert_columns(init)->Ok_0;
            assert forall|i: int| 0 <= i < names.len() implies is_named(
                names[i],
                #[trigger] found[i],
            ) by {
                if i < init.len() {
                    assert(init[i] == names[i]);
                    assert(found[i] == before[i]);
                }
            }
        }
    }
}

/// A table that an insertion makes has the columns that it names, as texts, with `id` for its key.
pub proof fn law_inferred_tables_have_their_columns(
    table_id: u32,
    table_name: Seq<char>,
    columns: Seq<Seq<char>>,
    i: int,
)
    requires
        0 <= i < columns.len(),
    ensures
        ({
            let table = inferred_table(table_id, table_name, columns);
            &&& table.table_name == table_name && table.table_id == table_id
            &&& table.primary_key == "id"@
            &&& table.columns.len() == columns.len()
            &&& table.columns[i].name == columns[i]
            &&& table.columns[i].data_type == type_code(DataType::Text)
            &&& table.columns[i].primary_key <==> columns[i] == "id"@
            &&& table.columns[i].nullable <==> columns[i] != "id"@
        }),
        declared_columns(columns, 0) == columns,
{
    let base = TableModel {
        table_name,
        table_id,
        schema_version: 1,
        table_epoch: 1,
        primary_key: "id"@,
        check_constraints: seq![],
        unique_constraints: seq![],
        foreign_keys: seq![],
        columns: Seq::new(
            columns.len(),
            |i: int|
                ColumnModel {
                    column_id: crate::server::ddl_columns::low_bits((i + 1) as nat),
                    name: columns[i],
                    data_type: type_code(DataType::Text),
                    primary_key: columns[i] == "id"@,
                    nullable: columns[i] != "id"@,
                    default: None,
                    on_update: None,
                    character_set: None,
                    collation: None,
                },
        ),
    };
    law_normalized_keeps_columns(base);
    assert(inferred_table(table_id, table_name, columns) == crate::schema::normalized(base));
}

/// Whether a schema has a table of a name.
pub open spec fn has_table(
    contents: Contents,
    database_name: Seq<char>,
    schema_name: Seq<char>,
    table_name: Seq<char>,
) -> bool {
    table_found(contents, database_name, schema_name, table_name) matches Ok(Some(_))
}

proof fn lemma_searched(
    contents: Contents,
    database_name: Seq<char>,
    search_path: Seq<Seq<char>>,
    from: int,
    table_name: Seq<char>,
)
    requires
        0 <= from <= search_path.len(),
    ensures
        table_searched(
            contents,
            database_name,
            search_path,
            from,
            table_name,
        ) matches Ok(found) ==> match found.1 {
            Some(table) => exists|i: int|
                from <= i < search_path.len() && #[trigger] search_path[i] == found.0
                    && (table_found(contents, database_name, found.0, table_name) matches Ok(
                    Some(entry),
                ) && entry.schema == table) && forall|k: int|
                    from <= k < i ==> !has_table(
                        contents,
                        database_name,
                        #[trigger] search_path[k],
                        table_name,
                    ),
            None => forall|k: int|
                from <= k < search_path.len() ==> !has_table(
                    contents,
                    database_name,
                    #[trigger] search_path[k],
                    table_name,
                ),
        },
    decreases search_path.len() - from,
{
    if from < search_path.len() {
        if let Ok(None) = table_found(contents, database_name, search_path[from], table_name) {
            lemma_searched(contents, database_name, search_path, from + 1, table_name);
        } else if let Ok(Some(_)) = table_found(
            contents,
            database_name,
            search_path[from],
            table_name,
        ) {
            assert(search_path[from] == search_path[from]);
        }
    }
}

/// A table without a schema in its name is the one in the first schema of the search path that has
/// one of that name; where none has, it is not there, and would stand in the first schema.
pub proof fn law_tables_are_found_in_order(
    contents: Contents,
    database_name: Seq<char>,
    search_path: Seq<Seq<char>>,
    table_name: Seq<char>,
)
    requires
        mark_at(table_name, '.') is None,
        search_path.len() > 0,
    ensures
        table_resolved(
            contents,
            database_name,
            search_path,
            table_name,
        ) matches Ok(found) ==> match found.1 {
            Some(table) => exists|i: int|
                0 <= i < search_path.len() && #[trigger] search_path[i] == found.0 && (table_found(
                    contents,
                    database_name,
                    found.0,
                    table_name,
                ) matches Ok(Some(entry)) && entry.schema == table) && forall|k: int|
                    0 <= k < i ==> !has_table(
                        contents,
                        database_name,
                        #[trigger] search_path[k],
                        table_name,
                    ),
            None => found.0 == search_path[0] && forall|k: int|
                0 <= k < search_path.len() ==> !has_table(
                    contents,
                    database_name,
                    #[trigger] search_path[k],
                    table_name,
                ),
        },
{
    lemma_searched(contents, database_name, search_path, 0, table_name);
    lemma_searched_place(contents, database_name, search_path, 0, table_name);
}

proof fn lemma_searched_place(
    contents: Contents,
    database_name: Seq<char>,
    search_path: Seq<Seq<char>>,
    from: int,
    table_name: Seq<char>,
)
    requires
        0 <= from <= search_path.len(),
        search_path.len() > 0,
    ensures
        table_searched(
            contents,
            database_name,
            search_path,
            from,
            table_name,
        ) matches Ok(found) ==> found.1 is None ==> found.0 == search_path[0],
    decreases search_path.len() - from,
{
    if from < search_path.len() {
        lemma_searched_place(contents, database_name, search_path, from + 1, table_name);
    }
}

/// A table that is required is the one that its name leads to; where it leads to none, the client
/// is told so.
pub proof fn law_required_tables_are_there(
    contents: Contents,
    database_name: Seq<char>,
    search_path: Seq<Seq<char>>,
    table_name: Seq<char>,
)
    ensures
        match table_required(contents, database_name, search_path, table_name) {
            Ok(found) => table_resolved(contents, database_name, search_path, table_name) == Ok::<
                (Seq<char>, Option<TableModel>),
                Report,
            >((found.0, Some(found.1))),
            Err(e) => match table_resolved(contents, database_name, search_path, table_name) {
                Ok(found) => found.1 is None && e.code == "42P01"@,
                Err(why) => e == why,
            },
        },
{
}

} // verus!
