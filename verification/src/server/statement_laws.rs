//! What statements are for: each is planned as what it is, parameters come to stand where they
//! belong and mean what they are, and a session is told what holds of it.
use vstd::prelude::*;
use vstd::utf8::{encode_utf8, encode_utf8_decode_utf8, encode_utf8_valid_utf8};

use crate::catalog::model::{bootstrapped, index_found, scope_found, without_index};
use crate::catalog::types::{DatabaseModel, IndexModel, SchemaModel};
use crate::error::Report;
use crate::mem_store::Contents;
use crate::mode::GatewayMode;
use crate::names::{joined, name_text, object_name, part_text, IdentModel, PartModel, QuoteStyle};
use crate::schema::ColumnModel;
use crate::server::ddl_laws::law_each_name_is_resolved;
use crate::server::exec::ActionModel;
use crate::server::exec_rows::index_to_rename;
use crate::server::literals::{doubled, halved, law_halved_undoes_doubled, quoted_literal};
use crate::server::plan::PlanModel;
use crate::server::prepared::{
    bound_sql, execute_literal, rendered_parameter, rendered_parameters, rendered_text,
    rendered_value, BinaryValue, ExecuteParameter, ParameterType, PortalParameter,
};
use crate::server::placeholders::replaced;
use crate::server::rename::{rename_advanced, RenameModel, RenameStage};
use crate::server::sequences::{auto_increment_column, is_auto_increment};
use crate::server::session::{scope_of, ClientModel};
use crate::server::spoofed::session_value;
use crate::server::statements::{
    drop_planned, statement_planned, ObjectType, SessionScope, Statement, StatementPlanModel,
};
use crate::text::signed_decimal;

verus! {

/// Whether a plan drops objects of a kind.
pub open spec fn drops(plan: PlanModel, object_type: ObjectType) -> bool {
    match object_type {
        ObjectType::Table => plan is DropTables,
        ObjectType::Index => plan is DropIndexes,
        ObjectType::Sequence => plan is DropSequences,
        ObjectType::View => plan is DropViews,
        ObjectType::Schema => plan is DropSchemas,
        ObjectType::Role => plan is DropDatabases && plan->databases.len() == 0,
        ObjectType::Other => false,
    }
}

/// A statement that drops objects is planned for objects of that kind and no other, in the
/// database of the session, one for each name.
pub proof fn law_drops_are_of_their_kind(
    contents: Contents,
    scope: SessionScope,
    object_type: ObjectType,
    names: Seq<Seq<PartModel>>,
    if_exists: bool,
)
    ensures
        drop_planned(contents, scope, object_type, names, if_exists) matches Ok(plan) ==> {
            &&& drops(plan, object_type)
            &&& plan matches PlanModel::DropTables { database_name, tables, if_exists: flag }
                ==> database_name == scope.database_name && flag == if_exists && tables.len()
                == names.len()
            &&& plan matches PlanModel::DropIndexes { database_name, indexes, if_exists: flag }
                ==> database_name == scope.database_name && flag == if_exists && indexes.len()
                == names.len()
            &&& plan matches PlanModel::DropViews { database_name, views, if_exists: flag }
                ==> database_name == scope.database_name && flag == if_exists && views.len()
                == names.len()
            &&& plan matches PlanModel::DropSequences { database_name, sequences, if_exists: flag }
                ==> database_name == scope.database_name && flag == if_exists && sequences.len()
                == names.len()
            &&& plan matches PlanModel::DropSchemas { database_name, schemas, if_exists: flag }
                ==> database_name == scope.database_name && flag == if_exists && schemas.len()
                == names.len()
        },
        object_type == ObjectType::Other ==> drop_planned(
            contents,
            scope,
            object_type,
            names,
            if_exists,
        ) is Err,
{
    law_each_name_is_resolved(
        names,
        |name: Seq<PartModel>|
            crate::server::ddl_plan::table_to_drop(
                contents,
                scope.database_name,
                scope.search_path,
                name,
                if_exists,
            ),
    );
    law_each_name_is_resolved(
        names,
        |name: Seq<PartModel>| crate::server::ddl_plan::object_to_drop(scope.schema_name, name),
    );
    law_each_name_is_resolved(names, |name: Seq<PartModel>| object_name(name));
    if let Ok(Some(database)) = crate::catalog::model::database_found(
        contents,
        scope.database_name,
    ) {
        law_each_name_is_resolved(
            names,
            |name: Seq<PartModel>|
                crate::server::ddl_plan::index_to_drop(
                    contents,
                    database.database_id,
                    scope.search_path,
                    name,
                    if_exists,
                ),
        );
    }
}

/// A statement is planned as what it is: one that makes a database, a schema, a view, a sequence,
/// a table or an index by a plan that makes one, one that changes a table by a plan on that, and
/// one that empties tables by a plan that does.
pub proof fn law_statements_are_planned_as_they_are(
    contents: Contents,
    mode: GatewayMode,
    scope: SessionScope,
    statement: Statement,
    floats: Seq<crate::server::literals::FloatTextModel>,
)
    ensures
        statement_planned(contents, mode, scope, statement, floats).0 matches Ok(
            StatementPlanModel::Planned(plan),
        ) ==> match statement {
            Statement::CreateDatabase { name, if_not_exists } => plan matches PlanModel::CreateDatabase {
                database_name,
                if_not_exists: flag,
            } && object_name(name@) == Ok::<Seq<char>, Report>(database_name) && flag
                == if_not_exists,
            Statement::CreateSchema { name, if_not_exists } => plan matches PlanModel::CreateSchema {
                database_name,
                schema_name,
                if_not_exists: flag,
            } && database_name == scope.database_name && flag == if_not_exists,
            Statement::CreateView { materialized, definition, or_replace, if_not_exists, .. } => {
                !materialized && (plan matches PlanModel::CreateView {
                    database_name,
                    definition: text,
                    or_replace: replaces,
                    if_not_exists: flag,
                    ..
                } && database_name == scope.database_name && text == definition@ && replaces
                    == or_replace && flag == if_not_exists)
            },
            Statement::CreateSequence { temporary, .. } => !temporary && plan is CreateSequence,
            Statement::CreateTable { .. } => plan is CreateTable || plan is Noop,
            Statement::CreateIndex { .. } => plan is CreateIndex,
            Statement::AlterTable { .. } => plan is AlterTable || plan is AlterTableAddPrimaryKey
                || plan is Noop,
            Statement::Truncate { .. } => plan is TruncateTables,
            Statement::Drop { object_type, .. } => drops(plan, object_type),
            Statement::Analyze { .. } => if mode == GatewayMode::MySql {
                plan is TableMaintenanceRows
            } else {
                plan is AnalyzeTables
            },
            Statement::Vacuum => mode != GatewayMode::MySql && plan is Noop,
            Statement::OptimizeTable { .. } => mode == GatewayMode::MySql
                && plan is TableMaintenanceRows,
            Statement::Explain { .. } => plan is ExplainRows || plan is PostgresExplainRows,
            _ => false,
        },
        statement is Grant || statement is Revoke || statement is CreateRole || statement is Other
            ==> (statement_planned(contents, mode, scope, statement, floats).0 matches Err(e)
            && e.code == "0A000"@),
{
    if let Statement::Drop { object_type, if_exists, names } = statement {
        law_drops_are_of_their_kind(
            contents,
            scope,
            object_type,
            crate::schema::views(names@),
            if_exists,
        );
    }
}

/// A text that is given for a parameter is quoted, whatever it holds, so that it is read back as
/// it was; a number or a boolean stands as it is.
pub proof fn law_text_parameters_are_quoted(text: Seq<char>, parameter_type: ParameterType)
    ensures
        parameter_type == ParameterType::Other ==> rendered_text(encode_utf8(text), parameter_type)
            == Ok::<Seq<char>, Report>(quoted_literal(text)),
        parameter_type != ParameterType::Other ==> rendered_text(encode_utf8(text), parameter_type)
            == Ok::<Seq<char>, Report>(text),
        quoted_literal(text).len() >= 2,
        quoted_literal(text)[0] == '\'' && quoted_literal(text).last() == '\'',
        halved(
            quoted_literal(text).subrange(1, quoted_literal(text).len() - 1),
            '\'',
        ) == text,
{
    encode_utf8_decode_utf8(text);
    encode_utf8_valid_utf8(text);
    reveal_strlit("'");
    law_halved_undoes_doubled(text, '\'');
    assert(quoted_literal(text).subrange(1, quoted_literal(text).len() - 1) =~= doubled(
        text,
        '\'',
    ));
}

/// A value that is given for a parameter in its own form is written as its literal.
pub proof fn law_values_are_written_as_literals(n: i64, b: bool, text: String)
    ensures
        rendered_value(BinaryValue::Null) == "NULL"@,
        rendered_value(BinaryValue::Integer(n)) == signed_decimal(n as int),
        rendered_value(BinaryValue::Boolean(b)) == if b {
            "true"@
        } else {
            "false"@
        },
        rendered_value(BinaryValue::Text(text)) == quoted_literal(text@),
        execute_literal(ExecuteParameter::Null) == "NULL"@,
        execute_literal(ExecuteParameter::Quoted(text)) == quoted_literal(text@),
        execute_literal(ExecuteParameter::Other(text)) == text@,
{
}

/// Each parameter is written by its own value and type, in its place; one that is missing is an
/// error.
pub proof fn law_parameters_are_written_in_place(
    parameters: Seq<PortalParameter>,
    types: Seq<Option<ParameterType>>,
    statement: Seq<char>,
)
    ensures
        rendered_parameters(parameters, types) matches Ok(literals) ==> {
            &&& literals.len() == parameters.len()
            &&& forall|i: int|
                0 <= i < parameters.len() ==> rendered_parameter(parameters, types, i) == Ok::<
                    Seq<char>,
                    Report,
                >(#[trigger] literals[i])
            &&& parameters.len() > 0 ==> bound_sql(statement, parameters, types) == Ok::<
                Seq<char>,
                Report,
            >(replaced(statement, literals, 0))
        },
        parameters.len() == 0 ==> bound_sql(statement, parameters, types) == Ok::<
            Seq<char>,
            Report,
        >(statement),
        rendered_parameter(parameters, types, parameters.len() as int) is Err,
{
    let places = Seq::new(parameters.len(), |i: int| i);
    let resolve = |i: int| rendered_parameter(parameters, types, i);
    law_each_name_is_resolved(places, resolve);
    if let Ok(literals) = rendered_parameters(parameters, types) {
        assert forall|i: int| 0 <= i < parameters.len() implies rendered_parameter(
            parameters,
            types,
            i,
        ) == Ok::<Seq<char>, Report>(#[trigger] literals[i]) by {
            assert(places[i] == i);
            assert(resolve(places[i]) == Ok::<Seq<char>, Report>(literals[i]));
        }
    }
}

/// A parameter that is null is written as such, whatever its type.
pub proof fn law_null_parameters_are_null(
    parameters: Seq<PortalParameter>,
    types: Seq<Option<ParameterType>>,
    i: int,
)
    requires
        0 <= i < parameters.len(),
        parameters[i] is Null,
    ensures
        rendered_parameter(parameters, types, i) == Ok::<Seq<char>, Report>("NULL"@),
{
}

/// A session that asks is told the schema and the database that it is in, and the search path and
/// the isolation that it has set.
pub proof fn law_sessions_are_told_what_holds(mode: GatewayMode, client: ClientModel, set: Seq<char>)
    ensures
        session_value(mode, client, "select current_schema()"@) matches Some(told) && told.1
            == scope_of(client).schema_name,
        session_value(mode, client, "select current_database()"@) matches Some(told) && told.1
            == scope_of(client).database_name,
        client.search_path == Some(set) ==> (session_value(
            mode,
            client,
            "show search_path"@,
        ) matches Some(told) && told.1 == set),
        client.isolation == Some(set) ==> (session_value(
            mode,
            client,
            "show transaction_isolation"@,
        ) matches Some(told) && told.1 == set),
        client.user == Some(set) ==> (session_value(
            mode,
            client,
            "select current_user"@,
        ) matches Some(told) && told.1 == set),
{
    reveal_strlit("select version()");
    reveal_strlit("select version();");
    reveal_strlit("select current_schema()");
    reveal_strlit("select current_schema();");
    reveal_strlit("select current_database()");
    reveal_strlit("select current_database();");
    reveal_strlit("select current_user");
    reveal_strlit("select current_user();");
    reveal_strlit("select session_user");
    reveal_strlit("select session_user;");
    reveal_strlit("show search_path");
    reveal_strlit("show search_path;");
    reveal_strlit("show transaction isolation level");
    reveal_strlit("show transaction isolation level;");
    reveal_strlit("show transaction_isolation");
    assert("select version()"@.len() == 16);
    assert("select version();"@.len() == 17);
    assert("select current_schema()"@.len() == 23);
    assert("select current_schema();"@.len() == 24);
    assert("select current_database()"@.len() == 25);
    assert("select current_database();"@.len() == 26);
    assert("select current_user"@.len() == 19);
    assert("select current_user();"@.len() == 22);
    assert("select session_user"@.len() == 19);
    assert("select session_user;"@.len() == 20);
    assert("show search_path"@.len() == 16);
    assert("show search_path;"@.len() == 17);
    assert("show transaction_isolation"@.len() == 26);
    assert("show search_path"@[1] == 'h');
    assert("select version()"@[1] == 'e');
    assert("show transaction_isolation"@[1] == 'h');
    assert("select current_database();"@[1] == 'e');
}

/// The name of an object is its parts with dots between them; a part without quotes is its own
/// text.
pub proof fn law_names_are_their_parts(
    parts: Seq<PartModel>,
    value: Seq<char>,
    first: Seq<char>,
)
    ensures
        part_text(PartModel::Identifier(IdentModel { value, quote_style: QuoteStyle::Bare }))
            == value,
        parts.len() > 0 ==> object_name(parts) == Ok::<Seq<char>, Report>(name_text(parts)),
        parts.len() == 0 ==> object_name(parts) is Err,
        parts.len() > 0 ==> name_text(
            parts.push(
                PartModel::Identifier(IdentModel { value, quote_style: QuoteStyle::Bare }),
            ),
        ) == name_text(parts) + seq!['.'] + value,
        name_text(
            seq![PartModel::Identifier(IdentModel { value, quote_style: QuoteStyle::Bare })],
        ) == value,
{
    let part = PartModel::Identifier(IdentModel { value, quote_style: QuoteStyle::Bare });
    assert(parts.push(part).drop_last() =~= parts);
}

/// Texts are joined in their order, with the mark between any two.
pub proof fn law_texts_are_joined_in_order(names: Seq<Seq<char>>, name: Seq<char>, mark: Seq<char>)
    ensures
        joined(seq![], mark).len() == 0,
        joined(seq![name], mark) == name,
        names.len() > 0 ==> joined(names.push(name), mark) == joined(names, mark) + mark + name,
{
    assert(names.push(name).drop_last() =~= names);
}

/// A column that numbers rows is the first of the table that takes its values from a sequence.
pub proof fn law_counting_columns_are_found(columns: Seq<ColumnModel>)
    ensures
        match auto_increment_column(columns) {
            Some(column) => exists|i: int|
                0 <= i < columns.len() && #[trigger] columns[i] == column && is_auto_increment(
                    column,
                ) && forall|k: int| 0 <= k < i ==> !is_auto_increment(#[trigger] columns[k]),
            None => forall|k: int|
                0 <= k < columns.len() ==> !is_auto_increment(#[trigger] columns[k]),
        },
    decreases columns.len(),
{
    if columns.len() > 0 {
        if is_auto_increment(columns[0]) {
            assert(columns[0] == columns[0]);
        } else {
            let rest = columns.skip(1);
            law_counting_columns_are_found(rest);
            match auto_increment_column(rest) {
                Some(column) => {
                    let i = choose|i: int|
                        0 <= i < rest.len() && #[trigger] rest[i] == column && is_auto_increment(
                            column,
                        ) && forall|k: int| 0 <= k < i ==> !is_auto_increment(#[trigger] rest[k]);
                    assert(columns[i + 1] == rest[i]);
                    assert forall|k: int| 0 <= k < i + 1 implies !is_auto_increment(
                        #[trigger] columns[k],
                    ) by {
                        if k > 0 {
                            assert(rest[k - 1] == columns[k]);
                        }
                    }
                },
                None => {
                    assert forall|k: int| 0 <= k < columns.len() implies !is_auto_increment(
                        #[trigger] columns[k],
                    ) by {
                        if k > 0 {
                            assert(rest[k - 1] == columns[k]);
                        }
                    }
                },
            }
        }
    }
}

/// An index that gets another name is made anew under it, on the same columns, unique as it was,
/// before the old one goes; and it is the entries of the old one that are cleared then.
pub proof fn law_renamed_indexes_stay_the_same(contents: Contents, rename: RenameModel)
    ensures
        rename.stage == RenameStage::Making ==> match index_to_rename(
            contents,
            rename.table_id,
            rename.old_name,
        ) {
            Ok(index) => rename_advanced(contents, rename).0 matches Ok(
                Some(
                    ActionModel::CreateIndex {
                        database_name,
                        schema_name,
                        table_name,
                        index: plan,
                        if_not_exists,
                    },
                ),
            ) && {
                &&& plan.index_name == rename.new_name
                &&& plan.column_names == index.column_names && plan.unique == index.unique
                &&& table_name == rename.table_name && schema_name == rename.schema_name
                    && database_name == rename.database_name
                &&& !if_not_exists
                &&& rename_advanced(contents, rename).1 == contents
            },
            Err(e) => rename_advanced(contents, rename).0 == Err::<Option<ActionModel>, Report>(e),
        },
        rename.stage == RenameStage::Dropping ==> (rename_advanced(contents, rename).0 matches Ok(
            Some(action),
        ) ==> action is ClearIndex && rename_advanced(contents, rename).2 == RenameStage::Done),
        rename.stage == RenameStage::Done ==> rename_advanced(contents, rename).0 == Ok::<
            Option<ActionModel>,
            Report,
        >(None),
{
}

/// A renamed index is gone under its old name, and its entries with it.
pub proof fn law_old_names_of_indexes_are_cleared(
    contents: Contents,
    rename: RenameModel,
    scope: (DatabaseModel, SchemaModel),
    index: IndexModel,
)
    requires
        rename.stage == RenameStage::Dropping,
        scope_found(contents, rename.database_name, rename.schema_name) == Ok::<
            (DatabaseModel, SchemaModel),
            Report,
        >(scope),
        index_found(
            bootstrapped(contents),
            scope.0.database_id,
            scope.1.schema_id,
            rename.old_name,
        ) == Ok::<Option<IndexModel>, Report>(Some(index)),
    ensures
        rename_advanced(contents, rename).0 == Ok::<Option<ActionModel>, Report>(
            Some(ActionModel::ClearIndex { index_id: index.index_id }),
        ),
        rename_advanced(contents, rename).1 == without_index(bootstrapped(contents), index),
        rename_advanced(contents, rename).2 == RenameStage::Done,
{
}

} // verus!
