//! Responses to clients: rows with their fields, or the tag of a command.
use vstd::prelude::*;

use crate::error::{unsupported, unsupported_report, Report, UserError};
use crate::row::{field, RowMap, RowModel};
use crate::schema::{
    column_position, names_of, option_view, views, Duplicate, TableModel, TableSchema,
};
use crate::server::plan::{ReturningModel, ReturningProjection, TextRow};
use crate::server::rows::{fields as row_fields, foreign_key_values};
use crate::text::same_text;
use crate::types::{type_code, ColumnValue, DataType, Datum};

verus! {

/// How the values of a field are sent.
#[derive(Debug, Clone, Copy, PartialEq, Eq, Structural)]
pub enum FieldFormat {
    Text,
    Binary,
}

/// The type that a field is announced with.
#[derive(Debug)]
pub enum FieldType {
    Text,
    Int4,
    Int8,
    Column(DataType),
}

/// What a [`FieldType`] says; the type of a column is given by its catalog code.
pub enum TypeModel {
    Text,
    Int4,
    Int8,
    Column(Seq<char>),
}

impl View for FieldType {
    type V = TypeModel;

    open spec fn view(&self) -> TypeModel {
        match *self {
            FieldType::Text => TypeModel::Text,
            FieldType::Int4 => TypeModel::Int4,
            FieldType::Int8 => TypeModel::Int8,
            FieldType::Column(data_type) => TypeModel::Column(type_code(data_type)),
        }
    }
}

/// A field of the rows of a response.
#[derive(Debug)]
pub struct FieldInfo {
    pub name: String,
    pub field_type: FieldType,
    pub format: FieldFormat,
}

/// What a [`FieldInfo`] says.
pub struct FieldModel {
    pub name: Seq<char>,
    pub field_type: TypeModel,
    pub format: FieldFormat,
}

impl View for FieldInfo {
    type V = FieldModel;

    open spec fn view(&self) -> FieldModel {
        FieldModel {
            name: self.name@,
            field_type: self.field_type@,
            format: self.format,
        }
    }
}

/// A row of a response: its values, or why it cannot be sent.
#[derive(Debug)]
pub struct DataRow {
    pub cells: Result<Vec<ColumnValue>, UserError>,
}

impl View for DataRow {
    type V = Result<Seq<Datum>, Report>;

    open spec fn view(&self) -> Result<Seq<Datum>, Report> {
        match self.cells {
            Ok(values) => Ok(views(values@)),
            Err(error) => Err(error@),
        }
    }
}

/// A response to a client.
#[derive(Debug)]
pub enum Response {
    /// Rows.
    Query { fields: Vec<FieldInfo>, rows: Vec<DataRow> },
    /// The tag of a command, with the number of rows that it is about where there is one.
    Execution { tag: String, count: Option<usize> },
}

/// What a [`Response`] says.
pub enum ResponseModel {
    Query { fields: Seq<FieldModel>, rows: Seq<Result<Seq<Datum>, Report>> },
    Execution { tag: Seq<char>, count: Option<usize> },
}

impl View for Response {
    type V = ResponseModel;

    open spec fn view(&self) -> ResponseModel {
        match *self {
            Response::Query { fields, rows } => ResponseModel::Query {
                fields: views(fields@),
                rows: views(rows@),
            },
            Response::Execution { tag, count } => ResponseModel::Execution { tag: tag@, count },
        }
    }
}

/// The response without fields and rows.
pub open spec fn empty_response() -> ResponseModel {
    ResponseModel::Query { fields: seq![], rows: seq![] }
}

/// The response without fields and rows.
pub fn empty_query_response() -> (response: Response)
    ensures
        response@ == empty_response(),
{
    let response = Response::Query { fields: Vec::new(), rows: Vec::new() };
    assert(response@->fields =~= Seq::<FieldModel>::empty());
    assert(response@->rows =~= Seq::<Result<Seq<Datum>, Report>>::empty());
    response
}

/// The response of a command.
pub open spec fn completed(tag: Seq<char>) -> ResponseModel {
    ResponseModel::Execution { tag, count: None }
}

/// The response of a command about rows.
pub open spec fn completed_rows(tag: Seq<char>, rows: usize) -> ResponseModel {
    ResponseModel::Execution { tag, count: Some(rows) }
}

/// The response of a command.
pub fn command_complete(tag: &str) -> (response: Response)
    ensures
        response@ == completed(tag@),
{
    Response::Execution { tag: tag.to_string(), count: None }
}

/// The response of a command about rows.
pub fn command_complete_rows(tag: &str, rows: usize) -> (response: Response)
    ensures
        response@ == completed_rows(tag@, rows),
{
    Response::Execution { tag: tag.to_string(), count: Some(rows) }
}

/// The response with one row of one field.
pub open spec fn single_row(name: Seq<char>, field_type: TypeModel, value: Datum) -> ResponseModel {
    ResponseModel::Query {
        fields: seq![FieldModel { name, field_type, format: FieldFormat::Text }],
        rows: seq![Ok(seq![value])],
    }
}

fn single_response(name: &str, field_type: FieldType, value: ColumnValue) -> (responses: Vec<
    Response,
>)
    ensures
        views(responses@) == seq![single_row(name@, field_type@, value@)],
{
    let field = FieldInfo { name: name.to_string(), field_type, format: FieldFormat::Text };
    let ghost field_model = field@;
    let ghost datum = value@;
    let mut cells: Vec<ColumnValue> = Vec::new();
    cells.push(value);
    assert(views(cells@) =~= seq![datum]);
    let mut fields: Vec<FieldInfo> = Vec::new();
    fields.push(field);
    assert(views(fields@) =~= seq![field_model]);
    let mut rows: Vec<DataRow> = Vec::new();
    rows.push(DataRow { cells: Ok(cells) });
    assert(views(rows@) =~= seq![Ok::<Seq<Datum>, Report>(seq![datum])]);
    let response = Response::Query { fields, rows };
    let ghost model = response@;
    let mut responses: Vec<Response> = Vec::new();
    responses.push(response);
    assert(views(responses@) =~= seq![model]);
    responses
}

/// The response with one text.
pub fn single_text_row_response(column_name: &str, value: &str) -> (result: Result<
    Vec<Response>,
    UserError,
>)
    ensures
        result matches Ok(responses) && views(responses@) == seq![
            single_row(column_name@, TypeModel::Text, Datum::Text(value@)),
        ],
{
    Ok(single_response(column_name, FieldType::Text, ColumnValue::Text(value.to_string())))
}

/// The response with one number of 32 bits.
pub fn single_int4_row_response(column_name: &str, value: i32) -> (result: Result<
    Vec<Response>,
    UserError,
>)
    ensures
        result matches Ok(responses) && views(responses@) == seq![
            single_row(column_name@, TypeModel::Int4, Datum::Int32(value)),
        ],
{
    Ok(single_response(column_name, FieldType::Int4, ColumnValue::Int32(value)))
}

/// The response with one number of 64 bits.
pub fn single_int8_row_response(column_name: &str, value: i64) -> (result: Result<
    Vec<Response>,
    UserError,
>)
    ensures
        result matches Ok(responses) && views(responses@) == seq![
            single_row(column_name@, TypeModel::Int8, Datum::Int64(value)),
        ],
{
    Ok(single_response(column_name, FieldType::Int8, ColumnValue::Int64(value)))
}

/// The answer to a query for a value that every session has.
pub open spec fn scalar_answer(sql: Seq<char>) -> Option<(Seq<char>, Seq<char>)> {
    if sql == "select version()"@ || sql == "select version();"@ {
        Some(("version"@, "PostgreSQL 14.0 (pg_gateway)"@))
    } else if sql == "select current_schema()"@ || sql == "select current_schema();"@ {
        Some(("current_schema"@, "public"@))
    } else if sql == "select current_database()"@ || sql == "select current_database();"@ {
        Some(("current_database"@, "defaultdb"@))
    } else if sql == "select current_user"@ || sql == "select current_user;"@ {
        Some(("current_user"@, "postgres"@))
    } else if sql == "select session_user"@ || sql == "select session_user;"@ {
        Some(("session_user"@, "postgres"@))
    } else {
        None
    }
}

/// The answer to a query for a value that every session has.
pub fn spoofed_scalar_response(normalized_sql: &str) -> (answer: Option<
    Result<Vec<Response>, UserError>,
>)
    ensures
        match answer {
            Some(result) => scalar_answer(normalized_sql@) matches Some(pair) && (
            result matches Ok(responses) && views(responses@) == seq![
                single_row(pair.0, TypeModel::Text, Datum::Text(pair.1)),
            ]),
            None => scalar_answer(normalized_sql@) is None,
        },
{
    if same_text(normalized_sql, "select version()") || same_text(
        normalized_sql,
        "select version();",
    ) {
        Some(single_text_row_response("version", "PostgreSQL 14.0 (pg_gateway)"))
    } else if same_text(normalized_sql, "select current_schema()") || same_text(
        normalized_sql,
        "select current_schema();",
    ) {
        Some(single_text_row_response("current_schema", "public"))
    } else if same_text(normalized_sql, "select current_database()") || same_text(
        normalized_sql,
        "select current_database();",
    ) {
        Some(single_text_row_response("current_database", "defaultdb"))
    } else if same_text(normalized_sql, "select current_user") || same_text(
        normalized_sql,
        "select current_user;",
    ) {
        Some(single_text_row_response("current_user", "postgres"))
    } else if same_text(normalized_sql, "select session_user") || same_text(
        normalized_sql,
        "select session_user;",
    ) {
        Some(single_text_row_response("session_user", "postgres"))
    } else {
        None
    }
}

/// A field of texts.
pub open spec fn text_field(name: Seq<char>) -> FieldModel {
    FieldModel { name, field_type: TypeModel::Text, format: FieldFormat::Text }
}

/// The value of a text that may be null.
pub open spec fn text_datum(cell: Option<Seq<char>>) -> Datum {
    match cell {
        Some(text) => Datum::Text(text),
        None => Datum::Null,
    }
}

/// The response with rows of texts.
pub open spec fn text_rows(
    names: Seq<Seq<char>>,
    rows: Seq<Seq<Option<Seq<char>>>>,
) -> ResponseModel {
    ResponseModel::Query {
        fields: names.map_values(|name: Seq<char>| text_field(name)),
        rows: rows.map_values(
            |row: Seq<Option<Seq<char>>>|
                Ok::<Seq<Datum>, Report>(
                    row.map_values(|cell: Option<Seq<char>>| text_datum(cell)),
                ),
        ),
    }
}

fn text_row(row: &TextRow) -> (data_row: DataRow)
    ensures
        data_row@ == Ok::<Seq<Datum>, Report>(
            row@.map_values(|cell: Option<Seq<char>>| text_datum(cell)),
        ),
{
    let mut cells: Vec<ColumnValue> = Vec::new();
    let mut i: usize = 0;
    while i < row.cells.len()
        invariant
            i <= row.cells@.len(),
            cells@.len() == i,
            forall|k: int| 0 <= k < i ==> (#[trigger] cells@[k])@ == text_datum(row@[k]),
        decreases row.cells@.len() - i,
    {
        assert(row@[i as int] == option_view(row.cells@[i as int]));
        match &row.cells[i] {
            Some(text) => cells.push(ColumnValue::Text(text.clone())),
            None => cells.push(ColumnValue::Null),
        }
        i += 1;
    }
    assert(views(cells@) =~= row@.map_values(|cell: Option<Seq<char>>| text_datum(cell)));
    DataRow { cells: Ok(cells) }
}

/// The response with rows of texts.
pub fn multi_text_row_response(column_names: &Vec<String>, rows: &Vec<TextRow>) -> (result: Result<
    Vec<Response>,
    UserError,
>)
    ensures
        result matches Ok(responses) && views(responses@) == seq![
            text_rows(views(column_names@), views(rows@)),
        ],
{
    let ghost names = views(column_names@);
    let ghost all = views(rows@);
    let mut fields: Vec<FieldInfo> = Vec::new();
    let mut i: usize = 0;
    while i < column_names.len()
        invariant
            i <= column_names@.len(),
            names == views(column_names@),
            fields@.len() == i,
            forall|k: int| 0 <= k < i ==> (#[trigger] fields@[k])@ == text_field(names[k]),
        decreases column_names@.len() - i,
    {
        assert(names[i as int] == column_names@[i as int]@);
        fields.push(
            FieldInfo {
                name: column_names[i].clone(),
                field_type: FieldType::Text,
                format: FieldFormat::Text,
            },
        );
        i += 1;
    }
    let mut data_rows: Vec<DataRow> = Vec::new();
    let mut j: usize = 0;
    while j < rows.len()
        invariant
            j <= rows@.len(),
            all == views(rows@),
            data_rows@.len() == j,
            forall|k: int|
                0 <= k < j ==> (#[trigger] data_rows@[k])@ == Ok::<Seq<Datum>, Report>(
                    all[k].map_values(|cell: Option<Seq<char>>| text_datum(cell)),
                ),
        decreases rows@.len() - j,
    {
        assert(all[j as int] == rows@[j as int]@);
        data_rows.push(text_row(&rows[j]));
        j += 1;
    }
    let response = Response::Query { fields, rows: data_rows };
    let ghost model = text_rows(names, all);
    proof {
        assert(response@->fields =~= model->fields);
        assert(response@->rows =~= model->rows);
    }
    let mut responses: Vec<Response> = Vec::new();
    responses.push(response);
    assert(views(responses@) =~= seq![model]);
    Ok(responses)
}

/// The field of a column: with its type, where the table has it, else a text.
pub open spec fn column_field(table: TableModel, name: Seq<char>, format: FieldFormat) -> FieldModel {
    FieldModel {
        name,
        field_type: match column_position(table.columns, name) {
            Some(place) => TypeModel::Column(table.columns[place as int].data_type),
            None => TypeModel::Text,
        },
        format,
    }
}

fn column_field_info(schema: &TableSchema, name: &str, format: FieldFormat) -> (info: FieldInfo)
    ensures
        info@ == column_field(schema@, name@, format),
{
    let field_type = match schema.find_column(name) {
        Some(column) => {
            proof {
                let place = column_position(schema@.columns, name@)->0 as int;
                assert(schema@.columns[place] == schema.columns@[place]@);
            }
            FieldType::Column(column.data_type.copied())
        },
        None => FieldType::Text,
    };
    FieldInfo { name: name.to_string(), field_type, format }
}

/// The fields of some columns.
pub open spec fn projected_fields(
    table: TableModel,
    projection: Seq<Seq<char>>,
    format: FieldFormat,
) -> Seq<FieldModel> {
    projection.map_values(|name: Seq<char>| column_field(table, name, format))
}

/// The fields of some columns.
pub fn field_infos_for_projection(
    schema: &TableSchema,
    projection: &Vec<String>,
    format: FieldFormat,
) -> (fields: Vec<FieldInfo>)
    ensures
        views(fields@) == projected_fields(schema@, views(projection@), format),
{
    let ghost names = views(projection@);
    let mut fields: Vec<FieldInfo> = Vec::new();
    let mut i: usize = 0;
    while i < projection.len()
        invariant
            i <= projection@.len(),
            names == views(projection@),
            fields@.len() == i,
            forall|k: int|
                0 <= k < i ==> (#[trigger] fields@[k])@ == column_field(
                    schema@,
                    names[k],
                    format,
                ),
        decreases projection@.len() - i,
    {
        assert(names[i as int] == projection@[i as int]@);
        fields.push(column_field_info(schema, projection[i].as_str(), format));
        i += 1;
    }
    assert(views(fields@) =~= projected_fields(schema@, names, format));
    fields
}

/// The fields of what a statement gives back of the rows that it wrote.
pub open spec fn returned_fields(
    table: TableModel,
    projection: Seq<ReturningModel>,
    format: FieldFormat,
) -> Seq<FieldModel>
    decreases projection.len(),
{
    if projection.len() == 0 {
        seq![]
    } else {
        returned_fields(table, projection.drop_last(), format) + (match projection.last() {
            ReturningModel::Wildcard => projected_fields(table, names_of(table.columns), format),
            ReturningModel::Column { name } => seq![column_field(table, name, format)],
            ReturningModel::Expr { expr, output_name } => seq![
                FieldModel { name: output_name, field_type: TypeModel::Text, format },
            ],
        })
    }
}

/// The fields of what a statement gives back of the rows that it wrote.
pub fn field_infos_for_returning_projection(
    schema: &TableSchema,
    projection: &Vec<ReturningProjection>,
    format: FieldFormat,
) -> (fields: Vec<FieldInfo>)
    ensures
        views(fields@) == returned_fields(schema@, views(projection@), format),
{
    let ghost all = views(projection@);
    let mut fields: Vec<FieldInfo> = Vec::new();
    let mut i: usize = 0;
    assert(views(fields@) =~= returned_fields(schema@, all.take(0), format));
    while i < projection.len()
        invariant
            i <= projection@.len(),
            all == views(projection@),
            views(fields@) == returned_fields(schema@, all.take(i as int), format),
        decreases projection@.len() - i,
    {
        assert(all.take(i + 1).drop_last() =~= all.take(i as int));
        assert(all.take(i + 1).last() == projection@[i as int]@);
        let ghost done = views(fields@);
        match &projection[i] {
            ReturningProjection::Wildcard => {
                let names = schema.column_names();
                let mut more = field_infos_for_projection(schema, &names, format);
                let ghost added = views(more@);
                fields.append(&mut more);
                assert(views(fields@) =~= done + added);
            },
            ReturningProjection::Column { name } => {
                let info = column_field_info(schema, name.as_str(), format);
                let ghost added = info@;
                fields.push(info);
                assert(views(fields@) =~= done + seq![added]);
            },
            ReturningProjection::Expr { expr, output_name } => {
                let info = FieldInfo {
                    name: output_name.clone(),
                    field_type: FieldType::Text,
                    format,
                };
                let ghost added = info@;
                fields.push(info);
                assert(views(fields@) =~= done + seq![added]);
            },
        }
        i += 1;
    }
    assert(all.take(i as int) =~= all);
    fields
}

/// Whether a value can be sent in binary form.
pub open spec fn has_binary_form(value: Datum) -> bool {
    match value {
        Datum::Numeric(_) => false,
        Datum::Date(_) => false,
        Datum::Timestamp(_) => false,
        Datum::TimestampTz(_) => false,
        Datum::Uuid(_) => false,
        Datum::Json(_) => false,
        Datum::Jsonb(_) => false,
        Datum::Array(_) => false,
        _ => true,
    }
}

/// The row with some values, where all of them can be sent.
pub open spec fn encoded_row(values: Seq<Datum>, format: FieldFormat) -> Result<
    Seq<Datum>,
    Report,
> {
    if format == FieldFormat::Binary && exists|i: int|
        0 <= i < values.len() && !has_binary_form(#[trigger] values[i]) {
        Err(
            unsupported_report(
                "binary result format is not supported for this column type yet"@,
            ),
        )
    } else {
        Ok(values)
    }
}

fn can_be_binary(value: &ColumnValue) -> (answer: bool)
    ensures
        answer == has_binary_form(value@),
{
    match value {
        ColumnValue::Numeric(_) => false,
        ColumnValue::Date(_) => false,
        ColumnValue::Timestamp(_) => false,
        ColumnValue::TimestampTz(_) => false,
        ColumnValue::Uuid(_) => false,
        ColumnValue::Json(_) => false,
        ColumnValue::Jsonb(_) => false,
        ColumnValue::Array(_) => false,
        _ => true,
    }
}

fn encode_row(values: Vec<ColumnValue>, format: FieldFormat) -> (row: DataRow)
    ensures
        row@ == encoded_row(views(values@), format),
{
    if format == FieldFormat::Binary {
        let mut i: usize = 0;
        while i < values.len()
            invariant
                i <= values@.len(),
                format == FieldFormat::Binary,
                forall|k: int| 0 <= k < i ==> has_binary_form(#[trigger] views(values@)[k]),
            decreases values@.len() - i,
        {
            assert(views(values@)[i as int] == values@[i as int]@);
            if !can_be_binary(&values[i]) {
                return DataRow {
                    cells: Err(
                        unsupported(
                            "binary result format is not supported for this column type yet",
                        ),
                    ),
                };
            }
            i += 1;
        }
    }
    DataRow { cells: Ok(values) }
}

/// The response with some columns of rows.
pub open spec fn rows_response(
    rows: Seq<RowModel>,
    table: TableModel,
    projection: Seq<Seq<char>>,
    format: FieldFormat,
) -> ResponseModel {
    ResponseModel::Query {
        fields: projected_fields(table, projection, format),
        rows: rows.map_values(
            |row: RowModel| encoded_row(row_fields(row, projection), format),
        ),
    }
}

/// The response with some columns of rows, as texts.
pub fn build_pg_response(rows: Vec<RowMap>, schema: &TableSchema, projection: &Vec<String>) -> (result:
    Result<Response, UserError>)
    ensures
        result matches Ok(response) && response@ == rows_response(
            views(rows@),
            schema@,
            views(projection@),
            FieldFormat::Text,
        ),
{
    build_pg_response_with_format(rows, schema, projection, FieldFormat::Text)
}

/// The response with some columns of rows.
pub fn build_pg_response_with_format(
    rows: Vec<RowMap>,
    schema: &TableSchema,
    projection: &Vec<String>,
    format: FieldFormat,
) -> (result: Result<Response, UserError>)
    ensures
        result matches Ok(response) && response@ == rows_response(
            views(rows@),
            schema@,
            views(projection@),
            format,
        ),
{
    let ghost all = views(rows@);
    let ghost names = views(projection@);
    let fields = field_infos_for_projection(schema, projection, format);
    let mut data_rows: Vec<DataRow> = Vec::new();
    let mut i: usize = 0;
    while i < rows.len()
        invariant
            i <= rows@.len(),
            all == views(rows@),
            names == views(projection@),
            data_rows@.len() == i,
            forall|k: int|
                0 <= k < i ==> (#[trigger] data_rows@[k])@ == encoded_row(
                    row_fields(all[k], names),
                    format,
                ),
        decreases rows@.len() - i,
    {
        assert(all[i as int] == rows@[i as int]@);
        let values = foreign_key_values(&rows[i], projection);
        data_rows.push(encode_row(values, format));
        i += 1;
    }
    let response = Response::Query { fields, rows: data_rows };
    assert(response@->rows =~= rows_response(all, schema@, names, format)->rows);
    Ok(response)
}

/// The response with what a statement gives back of the rows that it wrote.
pub open spec fn returned_response(
    rows: Seq<Seq<Datum>>,
    table: TableModel,
    projection: Seq<ReturningModel>,
    format: FieldFormat,
) -> ResponseModel {
    ResponseModel::Query {
        fields: returned_fields(table, projection, format),
        rows: rows.map_values(|row: Seq<Datum>| encoded_row(row, format)),
    }
}

/// The values of rows.
pub open spec fn value_rows(rows: Seq<Vec<ColumnValue>>) -> Seq<Seq<Datum>> {
    rows.map_values(|row: Vec<ColumnValue>| views(row@))
}

/// The response with what a statement gives back of the rows that it wrote.
pub fn build_pg_returning_response(
    rows: Vec<Vec<ColumnValue>>,
    schema: &TableSchema,
    projection: &Vec<ReturningProjection>,
    format: FieldFormat,
) -> (result: Result<Response, UserError>)
    ensures
        result matches Ok(response) && response@ == returned_response(
            value_rows(rows@),
            schema@,
            views(projection@),
            format,
        ),
{
    let ghost all = value_rows(rows@);
    let fields = field_infos_for_returning_projection(schema, projection, format);
    let mut data_rows: Vec<DataRow> = Vec::new();
    let mut i: usize = 0;
    while i < rows.len()
        invariant
            i <= rows@.len(),
            all == value_rows(rows@),
            data_rows@.len() == i,
            forall|k: int|
                0 <= k < i ==> (#[trigger] data_rows@[k])@ == encoded_row(all[k], format),
        decreases rows@.len() - i,
    {
        let values = crate::schema::duplicate_all(&rows[i]);
        assert(all[i as int] == views(values@));
        data_rows.push(encode_row(values, format));
        i += 1;
    }
    let response = Response::Query { fields, rows: data_rows };
    assert(response@->rows =~= returned_response(
        all,
        schema@,
        views(projection@),
        format,
    )->rows);
    Ok(response)
}

} // verus!
