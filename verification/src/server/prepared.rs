//! Prepared statements and the parameters that they are run with.
use vstd::prelude::*;
use vstd::utf8::{decode_utf8, valid_utf8};

use crate::error::{is_unsupported_error, report, user_error_text, Report, UserError};
use crate::names::seen_text;
use crate::response::{
    field_infos_for_projection, field_infos_for_returning_projection, projected_fields,
    returned_fields, FieldFormat, FieldInfo, FieldModel, FieldType, Response, ResponseModel,
    TypeModel,
};
use crate::schema::{seen, views, Duplicate};
use crate::server::ddl_columns::two_texts;
use crate::server::ddl_plan::{each_resolved, lemma_each_fails};
use crate::server::literals::{quote_sql_literal, quoted_literal};
use crate::server::placeholders::{replace_pg_parameter_placeholders, replaced};
use crate::server::plan::{PlanModel, QueryPlan};
use crate::text::{
    decimal, decimal_text, lower, lower_text, same_but_for_case, same_text, signed_decimal,
    signed_decimal_text, string_from_utf8, three_texts, utf8_error,
};

verus! {

/// The type of a parameter, as far as the form of its literal depends on it.
#[derive(Clone, Copy, Debug, PartialEq, Eq, Structural)]
pub enum ParameterType {
    Int2,
    Int4,
    Int8,
    Oid,
    Float4,
    Float8,
    Numeric,
    Bool,
    Other,
}

/// Whether the literals of a type stand without quotes.
pub open spec fn is_unquoted(parameter_type: ParameterType) -> bool {
    parameter_type != ParameterType::Other
}

/// Whether the literals of a type stand without quotes.
pub fn type_prefers_unquoted_literal(parameter_type: ParameterType) -> (answer: bool)
    ensures
        answer == is_unquoted(parameter_type),
{
    parameter_type != ParameterType::Other
}

/// A value that came in the form of its type.
#[derive(Debug)]
pub enum BinaryValue {
    Null,
    Integer(i64),
    /// A floating-point number, by its text.
    Float(String),
    Boolean(bool),
    Text(String),
}

/// A parameter as it came.
#[derive(Debug)]
pub enum PortalParameter {
    Null,
    /// In the form of text.
    Text(Vec<u8>),
    /// In the form of its type: its value, or why it has none.
    Binary(Result<BinaryValue, UserError>),
}

/// A text, in quotes unless its type has none.
pub open spec fn rendered_text(raw: Seq<u8>, parameter_type: ParameterType) -> Result<
    Seq<char>,
    Report,
> {
    if !valid_utf8(raw) {
        Err(report("22021"@, "parameter is not valid UTF-8: "@ + utf8_error(raw)))
    } else if is_unquoted(parameter_type) {
        Ok(decode_utf8(raw))
    } else {
        Ok(quoted_literal(decode_utf8(raw)))
    }
}

/// A text, in quotes unless its type has none.
pub fn render_text_parameter(raw: &Vec<u8>, parameter_type: ParameterType) -> (result: Result<
    String,
    UserError,
>)
    ensures
        seen_text(result) == rendered_text(raw@, parameter_type),
{
    match string_from_utf8(raw.clone()) {
        Err(message) => Err(
            user_error_text("22021", two_texts("parameter is not valid UTF-8: ", message.as_str())),
        ),
        Ok(value) => {
            if type_prefers_unquoted_literal(parameter_type) {
                Ok(value)
            } else {
                Ok(quote_sql_literal(value.as_str()))
            }
        },
    }
}

/// The literal of a value.
pub open spec fn rendered_value(value: BinaryValue) -> Seq<char> {
    match value {
        BinaryValue::Null => "NULL"@,
        BinaryValue::Integer(n) => signed_decimal(n as int),
        BinaryValue::Float(text) => text@,
        BinaryValue::Boolean(b) => if b {
            "true"@
        } else {
            "false"@
        },
        BinaryValue::Text(text) => quoted_literal(text@),
    }
}

/// The literal of a value.
pub fn render_binary_parameter(value: &BinaryValue) -> (literal: String)
    ensures
        literal@ == rendered_value(*value),
{
    match value {
        BinaryValue::Null => "NULL".to_string(),
        BinaryValue::Integer(n) => signed_decimal_text(*n),
        BinaryValue::Float(text) => text.clone(),
        BinaryValue::Boolean(b) => {
            if *b {
                "true".to_string()
            } else {
                "false".to_string()
            }
        },
        BinaryValue::Text(text) => quote_sql_literal(text.as_str()),
    }
}

/// The type of a parameter, which may not be known.
pub open spec fn type_at(types: Seq<Option<ParameterType>>, idx: int) -> ParameterType {
    if 0 <= idx < types.len() && types[idx] is Some {
        types[idx]->0
    } else {
        ParameterType::Other
    }
}

/// The literal of a parameter, which has to be there.
pub open spec fn rendered_parameter(
    parameters: Seq<PortalParameter>,
    types: Seq<Option<ParameterType>>,
    idx: int,
) -> Result<Seq<char>, Report> {
    if idx >= parameters.len() {
        Err(report("08P01"@, "missing bind parameter $"@ + decimal((idx + 1) as nat)))
    } else {
        match parameters[idx] {
            PortalParameter::Null => Ok("NULL"@),
            PortalParameter::Text(raw) => rendered_text(raw@, type_at(types, idx)),
            PortalParameter::Binary(Ok(value)) => Ok(rendered_value(value)),
            PortalParameter::Binary(Err(e)) => Err(e@),
        }
    }
}

/// The literal of a parameter, which has to be there.
pub fn render_portal_parameter(
    parameters: &Vec<PortalParameter>,
    types: &Vec<Option<ParameterType>>,
    idx: usize,
) -> (result: Result<String, UserError>)
    requires
        idx < usize::MAX,
    ensures
        seen_text(result) == rendered_parameter(parameters@, types@, idx as int),
{
    if idx >= parameters.len() {
        let number: usize = idx + 1;
        return Err(
            user_error_text(
                "08P01",
                two_texts("missing bind parameter $", decimal_text(number as u64).as_str()),
            ),
        );
    }
    let parameter_type = if idx < types.len() {
        match types[idx] {
            Some(parameter_type) => parameter_type,
            None => ParameterType::Other,
        }
    } else {
        ParameterType::Other
    };
    match &parameters[idx] {
        PortalParameter::Null => Ok("NULL".to_string()),
        PortalParameter::Text(raw) => render_text_parameter(raw, parameter_type),
        PortalParameter::Binary(value) => match value {
            Ok(value) => Ok(render_binary_parameter(value)),
            Err(e) => Err(e.duplicate()),
        },
    }
}

/// The literals of parameters.
pub open spec fn rendered_parameters(
    parameters: Seq<PortalParameter>,
    types: Seq<Option<ParameterType>>,
) -> Result<Seq<Seq<char>>, Report> {
    each_resolved(
        Seq::new(parameters.len(), |i: int| i),
        |i: int| rendered_parameter(parameters, types, i),
    )
}

/// A statement with its parameters.
pub open spec fn bound_sql(
    statement: Seq<char>,
    parameters: Seq<PortalParameter>,
    types: Seq<Option<ParameterType>>,
) -> Result<Seq<char>, Report> {
    if parameters.len() == 0 {
        Ok(statement)
    } else {
        match rendered_parameters(parameters, types) {
            Err(e) => Err(e),
            Ok(literals) => Ok(replaced(statement, literals, 0)),
        }
    }
}

/// A statement with its parameters.
pub fn bind_portal_sql(
    statement: &str,
    parameters: &Vec<PortalParameter>,
    types: &Vec<Option<ParameterType>>,
) -> (result: Result<String, UserError>)
    ensures
        seen_text(result) == bound_sql(statement@, parameters@, types@),
{
    if parameters.len() == 0 {
        return Ok(statement.to_string());
    }
    let ghost all = Seq::new(parameters@.len(), |i: int| i);
    let ghost render = |i: int| rendered_parameter(parameters@, types@, i);
    let mut literals: Vec<String> = Vec::new();
    let mut i: usize = 0;
    assert(all.take(0) =~= Seq::<int>::empty());
    assert(views(literals@) =~= Seq::<Seq<char>>::empty());
    while i < parameters.len()
        invariant
            i <= parameters@.len(),
            parameters@.len() > 0,
            all == Seq::new(parameters@.len(), |i: int| i),
            render == (|i: int| rendered_parameter(parameters@, types@, i)),
            each_resolved(all.take(i as int), render) == Ok::<Seq<Seq<char>>, Report>(
                views(literals@),
            ),
        decreases parameters@.len() - i,
    {
        assert(all.take(i + 1).drop_last() =~= all.take(i as int));
        assert(all.take(i + 1).last() == i as int);
        match render_portal_parameter(parameters, types, i) {
            Err(e) => {
                proof {
                    lemma_each_fails(all, render, i + 1);
                }
                return Err(e);
            },
            Ok(literal) => {
                let ghost before = views(literals@);
                let ghost added = literal@;
                literals.push(literal);
                assert(views(literals@) =~= before.push(added));
            },
        }
        i += 1;
    }
    assert(all.take(i as int) =~= all);
    Ok(replace_pg_parameter_placeholders(statement, &literals))
}

/// The forms that a client asks for results in.
#[derive(Debug)]
pub enum ResultFormat {
    UnifiedText,
    UnifiedBinary,
    Individual(Vec<FieldFormat>),
}

/// The form of the results of a portal: the one for all columns, or that of the first.
pub fn portal_result_format(format: &ResultFormat) -> (found: FieldFormat)
    ensures
        found == (match *format {
            ResultFormat::UnifiedText => FieldFormat::Text,
            ResultFormat::UnifiedBinary => FieldFormat::Binary,
            ResultFormat::Individual(formats) => if formats@.len() > 0 {
                formats@[0]
            } else {
                FieldFormat::Text
            },
        }),
{
    match format {
        ResultFormat::UnifiedText => FieldFormat::Text,
        ResultFormat::UnifiedBinary => FieldFormat::Binary,
        ResultFormat::Individual(formats) => {
            if formats.len() > 0 {
                formats[0]
            } else {
                FieldFormat::Text
            }
        },
    }
}

/// A parameter of an `EXECUTE` statement.
#[derive(Debug)]
pub enum ExecuteParameter {
    /// A text in quotes.
    Quoted(String),
    Null,
    /// An identifier: its value and how it is written.
    Identifier { value: String, text: String },
    /// Any other expression, as it is written.
    Other(String),
}

/// The literal of a parameter of an `EXECUTE` statement.
pub open spec fn execute_literal(parameter: ExecuteParameter) -> Seq<char> {
    match parameter {
        ExecuteParameter::Quoted(value) => quoted_literal(value@),
        ExecuteParameter::Null => "NULL"@,
        ExecuteParameter::Identifier { value, text } => if lower(value@) == lower("null"@) {
            "NULL"@
        } else {
            text@
        },
        ExecuteParameter::Other(text) => text@,
    }
}

/// The literal of a parameter of an `EXECUTE` statement.
pub fn render_execute_parameter(parameter: &ExecuteParameter) -> (literal: String)
    ensures
        literal@ == execute_literal(*parameter),
{
    match parameter {
        ExecuteParameter::Quoted(value) => quote_sql_literal(value.as_str()),
        ExecuteParameter::Null => "NULL".to_string(),
        ExecuteParameter::Identifier { value, text } => {
            if same_but_for_case(value.as_str(), "null") {
                "NULL".to_string()
            } else {
                text.clone()
            }
        },
        ExecuteParameter::Other(text) => text.clone(),
    }
}

/// A statement that a session prepared.
#[derive(Debug)]
pub struct PreparedSqlStatement {
    pub session_id: i32,
    pub name: String,
    pub sql: String,
}

/// The statements that sessions prepared.
#[derive(Debug)]
pub struct PreparedStatements {
    pub statements: Vec<PreparedSqlStatement>,
}

/// What is run for an `EXECUTE` statement.
#[derive(Debug)]
pub enum PreparedSqlExecution {
    /// The statement as it was prepared.
    Statement(String),
    /// The statement with its parameters.
    Sql(String),
}

/// What a [`PreparedSqlExecution`] says.
pub enum ExecutionModel {
    Statement(Seq<char>),
    Sql(Seq<char>),
}

impl View for PreparedSqlExecution {
    type V = ExecutionModel;

    open spec fn view(&self) -> ExecutionModel {
        match *self {
            PreparedSqlExecution::Statement(sql) => ExecutionModel::Statement(sql@),
            PreparedSqlExecution::Sql(sql) => ExecutionModel::Sql(sql@),
        }
    }
}

/// The statement that a session prepared under a name.
pub open spec fn prepared_under(
    statements: Seq<PreparedSqlStatement>,
    session_id: i32,
    name: Seq<char>,
) -> Option<Seq<char>>
    decreases statements.len(),
{
    if statements.len() == 0 {
        None
    } else if statements.last().session_id == session_id && statements.last().name@ == name {
        Some(statements.last().sql@)
    } else {
        prepared_under(statements.drop_last(), session_id, name)
    }
}

impl PreparedStatements {
    /// The statement that a session prepared under a name, whatever its case.
    pub open spec fn prepared(&self, session_id: i32, name: Seq<char>) -> Option<Seq<char>> {
        prepared_under(self.statements@, session_id, lower(name))
    }

    /// No statement.
    pub fn new() -> (statements: PreparedStatements)
        ensures
            forall|session_id: i32, name: Seq<char>|
                #[trigger] statements.prepared(session_id, name) is None,
    {
        PreparedStatements { statements: Vec::new() }
    }

    /// Keeps the statements of other sessions, or of other names.
    fn keep_others(&mut self, session_id: i32, name: Option<&str>)
        ensures
            forall|session: i32, key: Seq<char>|
                #[trigger] prepared_under(final(self).statements@, session, key) == (if session
                    == session_id && (name matches Some(text) ==> text@ == key) {
                    None
                } else {
                    prepared_under(old(self).statements@, session, key)
                }),
    {
        let mut kept: Vec<PreparedSqlStatement> = Vec::new();
        let mut i: usize = 0;
        let ghost all = self.statements@;
        assert(all.take(0) =~= Seq::<PreparedSqlStatement>::empty());
        while i < self.statements.len()
            invariant
                i <= self.statements@.len(),
                all == self.statements@,
                all == old(self).statements@,
                forall|session: i32, key: Seq<char>|
                    #[trigger] prepared_under(kept@, session, key) == (if session == session_id && (
                    name matches Some(text) ==> text@ == key) {
                        None
                    } else {
                        prepared_under(all.take(i as int), session, key)
                    }),
            decreases self.statements@.len() - i,
        {
            assert(all.take(i + 1).drop_last() =~= all.take(i as int));
            assert(all.take(i + 1).last() == all[i as int]);
            let one = &self.statements[i];
            let named = match name {
                Some(text) => same_text(one.name.as_str(), text),
                None => true,
            };
            if !(one.session_id == session_id && named) {
                let ghost before = kept@;
                let copy = PreparedSqlStatement {
                    session_id: one.session_id,
                    name: one.name.clone(),
                    sql: one.sql.clone(),
                };
                kept.push(copy);
                assert(kept@.drop_last() =~= before);
                assert(forall|session: i32, key: Seq<char>|
                    #[trigger] prepared_under(kept@, session, key) == (if session
                        == all[i as int].session_id && key == all[i as int].name@ {
                        Some(all[i as int].sql@)
                    } else {
                        prepared_under(before, session, key)
                    }));
            }
            assert(forall|session: i32, key: Seq<char>|
                #[trigger] prepared_under(all.take(i + 1), session, key) == (if session
                    == all[i as int].session_id && key == all[i as int].name@ {
                    Some(all[i as int].sql@)
                } else {
                    prepared_under(all.take(i as int), session, key)
                }));
            i += 1;
        }
        assert(all.take(i as int) =~= all);
        self.statements = kept;
    }

    /// Keeps a statement for a session under a name; one that was there under it goes.
    pub fn prepare_sql_statement(&mut self, session_id: i32, name: &str, sql: &str)
        ensures
            forall|session: i32, key: Seq<char>|
                #[trigger] final(self).prepared(session, key) == (if session == session_id && lower(
                    key,
                ) == lower(name@) {
                    Some(sql@)
                } else {
                    old(self).prepared(session, key)
                }),
    {
        let small = lower_text(name);
        self.keep_others(session_id, Some(small.as_str()));
        let ghost before = self.statements@;
        self.statements.push(
            PreparedSqlStatement { session_id, name: small, sql: sql.to_string() },
        );
        assert(self.statements@.drop_last() =~= before);
        assert forall|session: i32, key: Seq<char>|
            #[trigger] self.prepared(session, key) == (if session == session_id && lower(key)
                == lower(name@) {
                Some(sql@)
            } else {
                old(self).prepared(session, key)
            }) by {
            assert(prepared_under(before, session, lower(key)) == (if session == session_id
                && lower(name@) == lower(key) {
                None
            } else {
                prepared_under(old(self).statements@, session, lower(key))
            }));
        }
    }

    /// Forgets the statement that a session prepared under a name, or all of them.
    pub fn deallocate_sql_statement(&mut self, session_id: i32, name: &str)
        ensures
            forall|session: i32, key: Seq<char>|
                #[trigger] final(self).prepared(session, key) == (if session == session_id && (lower(
                    name@,
                ) == lower("all"@) || lower(key) == lower(name@)) {
                    None
                } else {
                    old(self).prepared(session, key)
                }),
    {
        if same_but_for_case(name, "all") {
            self.keep_others(session_id, None);
        } else {
            let small = lower_text(name);
            self.keep_others(session_id, Some(small.as_str()));
        }
    }

    /// What is run for an `EXECUTE` statement.
    pub fn prepare_sql_execution(
        &self,
        session_id: i32,
        name: &str,
        parameters: &Vec<ExecuteParameter>,
    ) -> (result: Result<PreparedSqlExecution, UserError>)
        ensures
            seen(result) == (match self.prepared(session_id, name@) {
                None => Err(
                    report("26000"@, "prepared statement '"@ + name@ + "' does not exist"@),
                ),
                Some(sql) => if parameters@.len() == 0 {
                    Ok(ExecutionModel::Statement(sql))
                } else {
                    Ok(
                        ExecutionModel::Sql(
                            replaced(
                                sql,
                                parameters@.map_values(
                                    |parameter: ExecuteParameter| execute_literal(parameter),
                                ),
                                0,
                            ),
                        ),
                    )
                },
            }),
    {
        let small = lower_text(name);
        let ghost all = self.statements@;
        let mut i: usize = self.statements.len();
        let mut found: Option<String> = None;
        assert(all.take(i as int) =~= all);
        while i > 0 && found.is_none()
            invariant
                i <= self.statements@.len(),
                all == self.statements@,
                small@ == lower(name@),
                match found {
                    Some(sql) => prepared_under(all, session_id, small@) == Some(sql@),
                    None => prepared_under(all, session_id, small@) == prepared_under(
                        all.take(i as int),
                        session_id,
                        small@,
                    ),
                },
            decreases i,
        {
            assert(all.take(i as int).drop_last() =~= all.take(i - 1));
            assert(all.take(i as int).last() == all[i - 1]);
            let one = &self.statements[i - 1];
            if one.session_id == session_id && same_text(one.name.as_str(), small.as_str()) {
                found = Some(one.sql.clone());
            }
            i -= 1;
        }
        let sql = match found {
            None => {
                return Err(
                    user_error_text(
                        "26000",
                        three_texts("prepared statement '", name, "' does not exist"),
                    ),
                );
            },
            Some(sql) => sql,
        };
        if parameters.len() == 0 {
            return Ok(PreparedSqlExecution::Statement(sql));
        }
        let ghost expected = parameters@.map_values(
            |parameter: ExecuteParameter| execute_literal(parameter),
        );
        let mut literals: Vec<String> = Vec::new();
        let mut j: usize = 0;
        while j < parameters.len()
            invariant
                j <= parameters@.len(),
                literals@.len() == j,
                forall|k: int|
                    0 <= k < j ==> (#[trigger] literals@[k])@ == execute_literal(parameters@[k]),
            decreases parameters@.len() - j,
        {
            literals.push(render_execute_parameter(&parameters[j]));
            j += 1;
        }
        assert(views(literals@) =~= expected);
        Ok(
            PreparedSqlExecution::Sql(
                replace_pg_parameter_placeholders(sql.as_str(), &literals),
            ),
        )
    }
}

/// A stand-in for a parameter that is not known yet.
pub open spec fn placeholder_default(parameter_type: Option<ParameterType>) -> Seq<char> {
    match parameter_type {
        Some(ParameterType::Bool) => "false"@,
        Some(known) => if is_unquoted(known) {
            "0"@
        } else {
            "NULL"@
        },
        None => "NULL"@,
    }
}

/// Stand-ins for parameters that are not known yet.
pub fn placeholder_defaults(types: &Vec<Option<ParameterType>>) -> (defaults: Vec<String>)
    ensures
        views(defaults@) == types@.map_values(
            |parameter_type: Option<ParameterType>| placeholder_default(parameter_type),
        ),
{
    let mut defaults: Vec<String> = Vec::new();
    let mut i: usize = 0;
    while i < types.len()
        invariant
            i <= types@.len(),
            defaults@.len() == i,
            forall|k: int|
                0 <= k < i ==> (#[trigger] defaults@[k])@ == placeholder_default(types@[k]),
        decreases types@.len() - i,
    {
        let text = match types[i] {
            Some(known) => {
                if known == ParameterType::Bool {
                    "false"
                } else if type_prefers_unquoted_literal(known) {
                    "0"
                } else {
                    "NULL"
                }
            },
            None => "NULL",
        };
        defaults.push(text.to_string());
        i += 1;
    }
    assert(views(defaults@) =~= types@.map_values(
        |parameter_type: Option<ParameterType>| placeholder_default(parameter_type),
    ));
    defaults
}

/// The fields of the first response with rows.
pub open spec fn response_fields(responses: Seq<ResponseModel>) -> Seq<FieldModel>
    decreases responses.len(),
{
    if responses.len() == 0 {
        seq![]
    } else {
        match responses[0] {
            ResponseModel::Query { fields, rows } => fields,
            ResponseModel::Execution { tag, count } => response_fields(responses.skip(1)),
        }
    }
}

fn copy_fields(fields: &Vec<FieldInfo>) -> (copies: Vec<FieldInfo>)
    ensures
        views(copies@) == views(fields@),
{
    let mut copies: Vec<FieldInfo> = Vec::new();
    let mut i: usize = 0;
    while i < fields.len()
        invariant
            i <= fields@.len(),
            copies@.len() == i,
            forall|k: int| 0 <= k < i ==> (#[trigger] copies@[k])@ == fields@[k]@,
        decreases fields@.len() - i,
    {
        let field_type = match &fields[i].field_type {
            FieldType::Text => FieldType::Text,
            FieldType::Int4 => FieldType::Int4,
            FieldType::Int8 => FieldType::Int8,
            FieldType::Column(data_type) => FieldType::Column(data_type.copied()),
        };
        copies.push(
            FieldInfo { name: fields[i].name.clone(), field_type, format: fields[i].format },
        );
        i += 1;
    }
    assert(views(copies@) =~= views(fields@));
    copies
}

/// The fields of the first response with rows.
pub fn describe_fields_from_responses(responses: &Vec<Response>) -> (fields: Vec<FieldInfo>)
    ensures
        views(fields@) == response_fields(views(responses@)),
{
    let ghost all = views(responses@);
    let mut i: usize = 0;
    assert(all.skip(0) =~= all);
    while i < responses.len()
        invariant
            i <= responses@.len(),
            all == views(responses@),
            response_fields(all) == response_fields(all.skip(i as int)),
        decreases responses@.len() - i,
    {
        assert(all.skip(i as int)[0] == responses@[i as int]@);
        assert(all.skip(i as int).skip(1) =~= all.skip(i + 1));
        match &responses[i] {
            Response::Query { fields, rows } => {
                return copy_fields(fields);
            },
            Response::Execution { tag, count } => {},
        }
        i += 1;
    }
    let none: Vec<FieldInfo> = Vec::new();
    assert(views(none@) =~= Seq::<FieldModel>::empty());
    none
}

/// Fields of text with given names.
pub open spec fn text_fields(names: Seq<Seq<char>>, format: FieldFormat) -> Seq<FieldModel> {
    names.map_values(
        |name: Seq<char>| FieldModel { name, field_type: TypeModel::Text, format },
    )
}

fn add_text_field(fields: &mut Vec<FieldInfo>, name: &str, format: FieldFormat)
    ensures
        views(final(fields)@) == views(old(fields)@).push(
            FieldModel { name: name@, field_type: TypeModel::Text, format },
        ),
{
    let ghost before = views(fields@);
    fields.push(FieldInfo { name: name.to_string(), field_type: FieldType::Text, format });
    assert(views(fields@) =~= before.push(
        FieldModel { name: name@, field_type: TypeModel::Text, format },
    ));
}

/// The names of the fields by which a MySQL client is told of a plan.
pub open spec fn mysql_explain_names() -> Seq<Seq<char>> {
    seq![
        "id"@,
        "select_type"@,
        "table"@,
        "partitions"@,
        "type"@,
        "possible_keys"@,
        "key"@,
        "key_len"@,
        "ref"@,
        "rows"@,
        "filtered"@,
        "Extra"@,
    ]
}

/// The fields of the rows that a plan gives.
pub open spec fn plan_fields(plan: PlanModel, format: FieldFormat) -> Seq<FieldModel> {
    match plan {
        PlanModel::SelectRows {
            database_name,
            schema_name,
            schema,
            projection,
            access,
            limit,
            offset,
        } => projected_fields(schema, projection, format),
        PlanModel::InsertRows {
            database_name,
            schema_name,
            schema,
            rows,
            on_conflict,
            returning,
        } => match returning {
            Some(items) => returned_fields(schema, items, format),
            None => seq![],
        },
        PlanModel::UpdateRows {
            database_name,
            schema_name,
            schema,
            assignments,
            access,
            limit,
            order_by_primary_key,
            returning,
        } => match returning {
            Some(items) => returned_fields(schema, items, format),
            None => seq![],
        },
        PlanModel::DeleteRows {
            database_name,
            schema_name,
            schema,
            access,
            limit,
            order_by_primary_key,
            returning,
        } => match returning {
            Some(items) => returned_fields(schema, items, format),
            None => seq![],
        },
        PlanModel::ExplainRows { rows } => text_fields(mysql_explain_names(), format),
        PlanModel::PostgresExplainRows { rows } => text_fields(seq!["QUERY PLAN"@], format),
        PlanModel::TableMaintenanceRows { rows } => text_fields(
            seq!["Table"@, "Op"@, "Msg_type"@, "Msg_text"@],
            format,
        ),
        _ => seq![],
    }
}

/// The fields of the rows that a plan gives.
#[verifier::rlimit(40)]
pub fn describe_fields_from_plan(plan: &QueryPlan, format: FieldFormat) -> (fields: Vec<FieldInfo>)
    ensures
        views(fields@) == plan_fields(plan@, format),
{
    let mut fields: Vec<FieldInfo> = Vec::new();
    assert(views(fields@) =~= Seq::<FieldModel>::empty());
    match plan {
        QueryPlan::SelectRows {
            database_name,
            schema_name,
            schema,
            projection,
            access,
            limit,
            offset,
        } => {
            return field_infos_for_projection(schema, projection, format);
        },
        QueryPlan::InsertRows {
            database_name,
            schema_name,
            schema,
            rows,
            on_conflict,
            returning,
        } => match returning {
            Some(items) => {
                return field_infos_for_returning_projection(schema, items, format);
            },
            None => {},
        },
        QueryPlan::UpdateRows {
            database_name,
            schema_name,
            schema,
            assignments,
            access,
            limit,
            order_by_primary_key,
            returning,
        } => match returning {
            Some(items) => {
                return field_infos_for_returning_projection(schema, items, format);
            },
            None => {},
        },
        QueryPlan::DeleteRows {
            database_name,
            schema_name,
            schema,
            access,
            limit,
            order_by_primary_key,
            returning,
        } => match returning {
            Some(items) => {
                return field_infos_for_returning_projection(schema, items, format);
            },
            None => {},
        },
        QueryPlan::ExplainRows { rows } => {
            add_text_field(&mut fields, "id", format);
            add_text_field(&mut fields, "select_type", format);
            add_text_field(&mut fields, "table", format);
            add_text_field(&mut fields, "partitions", format);
            add_text_field(&mut fields, "type", format);
            add_text_field(&mut fields, "possible_keys", format);
            add_text_field(&mut fields, "key", format);
            add_text_field(&mut fields, "key_len", format);
            add_text_field(&mut fields, "ref", format);
            add_text_field(&mut fields, "rows", format);
            add_text_field(&mut fields, "filtered", format);
            add_text_field(&mut fields, "Extra", format);
            assert(views(fields@) =~= text_fields(mysql_explain_names(), format));
        },
        QueryPlan::PostgresExplainRows { rows } => {
            add_text_field(&mut fields, "QUERY PLAN", format);
            assert(views(fields@) =~= text_fields(seq!["QUERY PLAN"@], format));
        },
        QueryPlan::TableMaintenanceRows { rows } => {
            add_text_field(&mut fields, "Table", format);
            add_text_field(&mut fields, "Op", format);
            add_text_field(&mut fields, "Msg_type", format);
            add_text_field(&mut fields, "Msg_text", format);
            assert(views(fields@) =~= text_fields(
                seq!["Table"@, "Op"@, "Msg_type"@, "Msg_text"@],
                format,
            ));
        },
        _ => {},
    }
    fields
}

/// How the fields of a statement are found, once it was planned.
pub enum DescribeStep {
    Fields(Vec<FieldInfo>),
    /// By running the query.
    Run,
}

/// How the fields of a statement are found: from its plan; where it has none because it is not
/// supported, by running it if it is a query, and else it has none.
pub fn describe_step(
    planned: Result<QueryPlan, UserError>,
    is_query: bool,
    format: FieldFormat,
) -> (result: Result<DescribeStep, UserError>)
    ensures
        match seen(planned) {
            Ok(plan) => result matches Ok(DescribeStep::Fields(fields)) && views(fields@)
                == plan_fields(plan, format),
            Err(e) => if e.code == "0A000"@ {
                if is_query {
                    result matches Ok(DescribeStep::Run)
                } else {
                    result matches Ok(DescribeStep::Fields(fields)) && fields@.len() == 0
                }
            } else {
                result matches Err(error) && error@ == e
            },
        },
{
    match planned {
        Ok(plan) => Ok(DescribeStep::Fields(describe_fields_from_plan(&plan, format))),
        Err(e) => {
            if !is_unsupported_error(&e) {
                return Err(e);
            }
            if is_query {
                return Ok(DescribeStep::Run);
            }
            Ok(DescribeStep::Fields(Vec::new()))
        },
    }
}

} // verus!
