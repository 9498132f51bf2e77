//! What clients and the statements around rows get: lists of what the catalog holds, the start of
//! insertions and copies, the fields of answers, and the statements about transactions.
use vstd::prelude::*;

use crate::catalog::model::{
    bootstrapped, database_dropped, databases_listed, index_found, indexes_listed, scope_found,
    table_dropped, table_found, tables_listed, view_dropped, view_found,
};
use crate::catalog::types::{DatabaseModel, IndexModel, SchemaModel, TableEntry, ViewModel};
use crate::error::Report;
use crate::mem_store::Contents;
use crate::mode::GatewayMode;
use crate::names::{joined, object_name, PartModel};
use crate::response::{returned_fields, scalar_answer, FieldFormat, FieldModel, ResponseModel};
use crate::schema::{has_column, names_of, ColumnModel, TableModel};
use crate::server::commands::{
    autocommit_value, begin_command, behind_mark, kill_target, lock_wait_seconds, savepoint_name,
    CommandModel,
};
use crate::server::copy::copy_begun;
use crate::server::copy_text::OptionsModel;
use crate::server::ddl_plan::{index_searched, index_to_drop, new_index_name};
use crate::server::ddl_tables::place_for_query;
use crate::server::dml_insert::{analyze_planned, insert_begun, insert_columns, InsertTargetModel};
use crate::server::dml_select::view_searched;
use crate::server::exec::{
    member_table_dropped, member_view_dropped, one_database_dropped, ActionModel, Progress,
};
use crate::server::exec_rows::{table_index_dropped, unknown_column};
use crate::server::gateway::{scoped_name, table_required, table_resolved};
use crate::server::literals::{explained, quoted_literal, FloatTextModel};
use crate::server::load_data::{load_clause, load_clauses, LoadProgress};
use crate::server::mysql_metadata::{
    backquoted, create_statement, extra_words, key_line, table_lines,
};
use crate::server::plan::{PlanModel, QualifiedModel, ReturningModel};
use crate::server::prepared::{
    placeholder_default, plan_fields, prepared_under, response_fields, ParameterType,
    PreparedSqlStatement,
};
use crate::server::query_flow::{
    defines, normalized_sql, transaction_action, vacuum_step_of, word_at, StatementKind,
    TransactionActionModel, VacuumModel,
};
use crate::server::request_laws::{is_bare, lemma_bare};
use crate::server::rows::{first_malformed, first_other, new_check, value_for, VerdictModel};
use crate::server::sequences::nextval_name;
use crate::server::session::{isolation_named, scope_of, ClientModel};
use crate::server::spoofed::{
    asks_for_databases, asks_for_tables, catalog_answer, noop_set, user_of,
};
use crate::server::statements::SessionScope;
use crate::text::{
    begins, contains_text, is_space, lower, mark_at, signed_decimal, signed_number, trim, trim_end,
    trim_end_of, trim_of, trim_start, trim_start_of, unsigned_number, words,
};
use crate::types::Datum;

verus! {

/// A client that asks for the databases gets each of them, in their order, with its name and the
/// client's own as that of the owner.
pub proof fn law_databases_are_answered(
    contents: Contents,
    client: ClientModel,
    sql: Seq<char>,
    databases: Seq<DatabaseModel>,
    i: int,
)
    requires
        asks_for_databases(normalized_sql(sql)),
        databases_listed(contents) == Ok::<Seq<DatabaseModel>, Report>(databases),
        0 <= i < databases.len(),
    ensures
        catalog_answer(contents, client, sql) matches Some(Ok(answers)) && {
            &&& answers.len() == 1
            &&& answers[0] matches ResponseModel::Query { fields, rows } && {
                &&& fields[0].name == "Name"@ && fields[1].name == "Owner"@
                &&& rows.len() == databases.len()
                &&& rows[i] matches Ok(row) && row.len() == fields.len() && row[0] == Datum::Text(
                    databases[i].database_name,
                ) && row[1] == Datum::Text(user_of(client))
            }
        },
{
}

/// A client that asks for the tables gets each table of its database, in their order, with its
/// schema, its name and the client's own name as that of the owner.
pub proof fn law_tables_are_answered(
    contents: Contents,
    client: ClientModel,
    sql: Seq<char>,
    tables: Seq<TableEntry>,
    i: int,
)
    requires
        !asks_for_databases(normalized_sql(sql)),
        asks_for_tables(normalized_sql(sql)),
        tables_listed(contents, scope_of(client).database_name) == Ok::<Seq<TableEntry>, Report>(
            tables,
        ),
        0 <= i < tables.len(),
    ensures
        catalog_answer(contents, client, sql) matches Some(Ok(answers)) && {
            &&& answers.len() == 1
            &&& answers[0] matches ResponseModel::Query { fields, rows } && {
                &&& fields[0].name == "Schema"@ && fields[1].name == "Name"@ && fields[2].name
                    == "Type"@ && fields[3].name == "Owner"@
                &&& rows.len() == tables.len()
                &&& rows[i] == Ok::<Seq<Datum>, Report>(
                    seq![
                        Datum::Text(tables[i].schema_name),
                        Datum::Text(tables[i].table_name),
                        Datum::Text("table"@),
                        Datum::Text(user_of(client)),
                    ],
                )
            }
        },
{
    let answers = catalog_answer(contents, client, sql)->0->Ok_0;
    if let ResponseModel::Query { fields, rows } = answers[0] {
        assert(rows[i]->Ok_0 =~= seq![
            Datum::Text(tables[i].schema_name),
            Datum::Text(tables[i].table_name),
            Datum::Text("table"@),
            Datum::Text(user_of(client)),
        ]);
    }
}

/// Only those who ask for databases or tables are answered from the catalog.
pub proof fn law_other_queries_are_not_answered(contents: Contents, client: ClientModel, sql: Seq<char>)
    ensures
        catalog_answer(contents, client, sql) is Some == (asks_for_databases(normalized_sql(sql))
            || asks_for_tables(normalized_sql(sql))),
{
}

proof fn lemma_unknown_column(columns: Seq<ColumnModel>, names: Seq<Seq<char>>)
    ensures
        unknown_column(columns, names) is None == (forall|i: int|
            0 <= i < names.len() ==> has_column(columns, #[trigger] names[i])),
        unknown_column(columns, names) matches Some(name) ==> names.contains(name) && !has_column(
            columns,
            name,
        ),
    decreases names.len(),
{
    if names.len() > 0 && has_column(columns, names[0]) {
        let rest = names.skip(1);
        lemma_unknown_column(columns, rest);
        if unknown_column(columns, rest) is None {
            assert forall|i: int| 0 <= i < names.len() implies has_column(
                columns,
                #[trigger] names[i],
            ) by {
                if i > 0 {
                    assert(rest[i - 1] == names[i]);
                }
            }
        } else {
            let name = unknown_column(columns, rest)->0;
            let k = choose|k: int| 0 <= k < rest.len() && rest[k] == name;
            assert(names[k + 1] == name);
        }
    }
}

/// A copy goes into the table that it names, into the columns that it names, or into all of them
/// where it names none; each has to be there. It starts with nothing read and nothing written, and
/// passes over a heading where it is told that there is one.
pub proof fn law_copies_start_as_asked(
    contents: Contents,
    session_id: i32,
    use_session_transaction: bool,
    scope: SessionScope,
    table_name: Seq<char>,
    columns: Seq<Seq<char>>,
    options: OptionsModel,
)
    ensures
        match copy_begun(
            contents,
            session_id,
            use_session_transaction,
            scope,
            table_name,
            columns,
            options,
        ) {
            Ok(copy) => {
                &&& table_required(contents, scope.database_name, scope.search_path, table_name)
                    == Ok::<(Seq<char>, TableModel), Report>((copy.schema_name, copy.schema))
                &&& indexes_listed(contents, copy.schema.table_id) == Ok::<Seq<IndexModel>, Report>(
                    copy.indexes,
                )
                &&& copy.database_name == scope.database_name
                &&& copy.session_id == session_id
                &&& copy.use_session_transaction == use_session_transaction
                &&& columns.len() > 0 ==> copy.columns == columns
                &&& columns.len() == 0 ==> copy.columns.len() == copy.schema.columns.len()
                    && forall|i: int|
                    0 <= i < copy.columns.len() ==> #[trigger] copy.columns[i]
                        == copy.schema.columns[i].name
                &&& forall|i: int|
                    0 <= i < copy.columns.len() ==> has_column(
                        copy.schema.columns,
                        #[trigger] copy.columns[i],
                    )
                &&& copy.options.header_pending == options.header && copy.options.header
                    == options.header && copy.options.format == options.format
                    && copy.options.delimiter == options.delimiter && copy.options.null
                    == options.null && copy.options.quote == options.quote && copy.options.escape
                    == options.escape
                &&& copy.buffer.len() == 0 && copy.pending_writes.len() == 0 && copy.pending_rows
                    == 0 && copy.inserted_rows == 0
            },
            Err(_) => match table_required(
                contents,
                scope.database_name,
                scope.search_path,
                table_name,
            ) {
                Err(_) => true,
                Ok((_, table)) => indexes_listed(contents, table.table_id) is Err || exists|i: int|
                    0 <= i < columns.len() && !has_column(table.columns, #[trigger] columns[i]),
            },
        },
{
    if let Ok((schema_name, table)) = table_required(
        contents,
        scope.database_name,
        scope.search_path,
        table_name,
    ) {
        let named = if columns.len() == 0 {
            names_of(table.columns)
        } else {
            columns
        };
        lemma_unknown_column(table.columns, named);
        if columns.len() == 0 {
            assert forall|i: int| 0 <= i < named.len() implies has_column(
                table.columns,
                #[trigger] named[i],
            ) by {
                assert(table.columns[i].name == named[i]);
            }
        }
    }
}

/// An insertion goes into the table that it names, where there is one, and changes nothing of the
/// catalog then. A table that is not there is made up from the columns of the insertion, one of
/// which has to be `id`.
pub proof fn law_insertions_find_their_table(
    contents: Contents,
    database_name: Seq<char>,
    search_path: Seq<Seq<char>>,
    table_name: Seq<char>,
    columns: Seq<Seq<PartModel>>,
    width: nat,
    ignore: bool,
    replace_into: bool,
    schema_name: Seq<char>,
    table: TableModel,
    names: Seq<Seq<char>>,
)
    requires
        insert_columns(columns) == Ok::<Seq<Seq<char>>, Report>(names),
        !(ignore && replace_into),
        table_resolved(contents, database_name, search_path, table_name) == Ok::<
            (Seq<char>, Option<TableModel>),
            Report,
        >((schema_name, Some(table))),
    ensures
        insert_begun(
            contents,
            database_name,
            search_path,
            Some(table_name),
            columns,
            width,
            ignore,
            replace_into,
        ) == (
            Ok::<InsertTargetModel, Report>(
                InsertTargetModel { schema_name, schema: table, columns: names },
            ),
            contents,
        ),
{
}

/// An insertion is refused, and changes nothing, where it says both to pass over clashing rows and
/// to replace them, where it names no table, and where there is no table and none of its columns
/// is called `id`.
pub proof fn law_insertions_are_refused(
    contents: Contents,
    database_name: Seq<char>,
    search_path: Seq<Seq<char>>,
    table: Option<Seq<char>>,
    columns: Seq<Seq<PartModel>>,
    width: nat,
    ignore: bool,
    replace_into: bool,
)
    requires
        table is None || (ignore && replace_into) || insert_columns(columns) is Err || (
        table_resolved(contents, database_name, search_path, table->0) matches Ok((_, None)) && (
        insert_columns(columns) matches Ok(names) && names.len() > 0 && !names.contains("id"@))),
    ensures
        insert_begun(
            contents,
            database_name,
            search_path,
            table,
            columns,
            width,
            ignore,
            replace_into,
        ) matches (Err(_), after) && after == contents,
{
}

/// The answer to a statement that is only described has the fields of what it gives rows of: of
/// each column that is asked for, by its name, and none where nothing is asked for.
pub proof fn law_described_fields_are_those_asked_for(
    plan: PlanModel,
    format: FieldFormat,
)
    ensures
        plan matches PlanModel::SelectRows { projection, .. } ==> {
            &&& plan_fields(plan, format).len() == projection.len()
            &&& forall|i: int|
                0 <= i < projection.len() ==> (#[trigger] plan_fields(plan, format)[i]).name
                    == projection[i] && plan_fields(plan, format)[i].format == format
        },
        (plan matches PlanModel::InsertRows { returning, .. } && returning is None)
            ==> plan_fields(plan, format).len() == 0,
        (plan matches PlanModel::UpdateRows { returning, .. } && returning is None)
            ==> plan_fields(plan, format).len() == 0,
        (plan matches PlanModel::DeleteRows { returning, .. } && returning is None)
            ==> plan_fields(plan, format).len() == 0,
        (plan is CreateTable || plan is DropTables || plan is TruncateTables || plan is CreateIndex)
            ==> plan_fields(plan, format).len() == 0,
        plan is PostgresExplainRows ==> plan_fields(plan, format).len() == 1 && plan_fields(
            plan,
            format,
        )[0].name == "QUERY PLAN"@,
{
}

/// The columns that a statement gives back of its rows are those of its answer, one by one.
pub proof fn law_returned_columns_are_described(
    plan: PlanModel,
    format: FieldFormat,
    items: Seq<ReturningModel>,
    i: int,
)
    requires
        match plan {
            PlanModel::InsertRows { returning, .. } => returning == Some(items),
            PlanModel::UpdateRows { returning, .. } => returning == Some(items),
            PlanModel::DeleteRows { returning, .. } => returning == Some(items),
            _ => false,
        },
        0 <= i < items.len(),
        forall|k: int| 0 <= k < items.len() ==> !(#[trigger] items[k] is Wildcard),
    ensures
        plan_fields(plan, format).len() == items.len(),
        plan_fields(plan, format)[i].name == (match items[i] {
            ReturningModel::Column { name } => name,
            ReturningModel::Expr { output_name, .. } => output_name,
            ReturningModel::Wildcard => seq![],
        }),
        plan_fields(plan, format)[i].format == format,
{
    match plan {
        PlanModel::InsertRows { schema, .. } => lemma_returned_fields(schema, items, format, i),
        PlanModel::UpdateRows { schema, .. } => lemma_returned_fields(schema, items, format, i),
        PlanModel::DeleteRows { schema, .. } => lemma_returned_fields(schema, items, format, i),
        _ => {},
    }
}

proof fn lemma_returned_fields(
    table: TableModel,
    items: Seq<ReturningModel>,
    format: FieldFormat,
    i: int,
)
    requires
        0 <= i < items.len(),
        forall|k: int| 0 <= k < items.len() ==> !(#[trigger] items[k] is Wildcard),
    ensures
        returned_fields(table, items, format).len() == items.len(),
        returned_fields(table, items, format)[i].name == (match items[i] {
            ReturningModel::Column { name } => name,
            ReturningModel::Expr { output_name, .. } => output_name,
            ReturningModel::Wildcard => seq![],
        }),
        returned_fields(table, items, format)[i].format == format,
    decreases items.len(),
{
    let before = items.drop_last();
    assert forall|k: int| 0 <= k < before.len() implies !(#[trigger] before[k] is Wildcard) by {
        assert(before[k] == items[k]);
    }
    assert(!(items[items.len() - 1] is Wildcard));
    if before.len() == 0 {
        assert(returned_fields(table, before, format).len() == 0);
    } else if i < before.len() {
        lemma_returned_fields(table, before, format, i);
    } else {
        lemma_returned_fields(table, before, format, 0);
    }
}

/// Of several answers, the first with rows has the fields.
pub proof fn law_the_first_rows_have_the_fields(
    responses: Seq<ResponseModel>,
    at: int,
    found: Seq<FieldModel>,
)
    requires
        0 <= at < responses.len(),
        responses[at] matches ResponseModel::Query { fields, .. } && fields == found,
        forall|i: int| 0 <= i < at ==> (#[trigger] responses[i]) is Execution,
    ensures
        response_fields(responses) == found,
    decreases at,
{
    if at > 0 {
        let rest = responses.skip(1);
        assert(responses[0] is Execution);
        assert forall|i: int| 0 <= i < at - 1 implies (#[trigger] rest[i]) is Execution by {
            assert(rest[i] == responses[i + 1]);
        }
        law_the_first_rows_have_the_fields(rest, at - 1, found);
    }
}

/// A parameter whose value is not known yet is a falsehood, a zero or a null, by its type.
pub proof fn law_stand_ins_fit_their_type(parameter_type: ParameterType)
    ensures
        placeholder_default(None) == "NULL"@,
        placeholder_default(Some(parameter_type)) == (match parameter_type {
            ParameterType::Bool => "false"@,
            ParameterType::Other => "NULL"@,
            _ => "0"@,
        }),
{
}

/// An index that a table has is gone from the catalog when it is dropped, and its entries go with
/// it; one that is not there is an error unless the statement allows for it.
pub proof fn law_dropped_table_indexes_are_cleared(
    contents: Contents,
    database_name: Seq<char>,
    schema_name: Seq<char>,
    table_name: Seq<char>,
    index_name: Seq<char>,
    if_exists: bool,
    scope: (DatabaseModel, SchemaModel),
)
    requires
        scope_found(bootstrapped(contents), database_name, schema_name) == Ok::<
            (DatabaseModel, SchemaModel),
            Report,
        >(scope),
    ensures
        match index_found(
            bootstrapped(bootstrapped(contents)),
            scope.0.database_id,
            scope.1.schema_id,
            index_name,
        ) {
            Err(e) => table_index_dropped(
                contents,
                database_name,
                schema_name,
                table_name,
                index_name,
                if_exists,
            ).0 is Err,
            Ok(None) => match table_index_dropped(
                contents,
                database_name,
                schema_name,
                table_name,
                index_name,
                if_exists,
            ).0 {
                Ok(actions) => if_exists && actions.len() == 0,
                Err(_) => !if_exists,
            },
            Ok(Some(index)) => table_index_dropped(
                contents,
                database_name,
                schema_name,
                table_name,
                index_name,
                if_exists,
            ).0 matches Ok(actions) && actions.contains(
                ActionModel::ClearIndex { index_id: index.index_id },
            ),
        },
{
    let dropped = table_index_dropped(
        contents,
        database_name,
        schema_name,
        table_name,
        index_name,
        if_exists,
    );
    if let Ok(actions) = dropped.0 {
        if actions.len() > 0 {
            assert(actions.contains(actions[0]));
        }
    }
}

/// A table that is made from a query gets the place that its name says, unless a table is there.
pub proof fn law_places_for_queries_are_free(
    contents: Contents,
    database_name: Seq<char>,
    default_schema: Seq<char>,
    name: Seq<PartModel>,
    if_not_exists: bool,
    text: Seq<char>,
    schema_name: Seq<char>,
    table_name: Seq<char>,
)
    requires
        object_name(name) == Ok::<Seq<char>, Report>(text),
        scoped_name(default_schema, text) == Ok::<(Seq<char>, Seq<char>), Report>(
            (schema_name, table_name),
        ),
    ensures
        match table_found(contents, database_name, schema_name, table_name) {
            Ok(None) => place_for_query(
                contents,
                database_name,
                default_schema,
                name,
                if_not_exists,
            ) == Ok::<Option<(Seq<char>, Seq<char>)>, Report>(Some((schema_name, table_name))),
            Ok(Some(_)) => match place_for_query(
                contents,
                database_name,
                default_schema,
                name,
                if_not_exists,
            ) {
                Ok(place) => if_not_exists && place is None,
                Err(_) => !if_not_exists,
            },
            Err(_) => place_for_query(
                contents,
                database_name,
                default_schema,
                name,
                if_not_exists,
            ) is Err,
        },
{
}

/// A statement about transactions asks for what it says, with the savepoint that it names; other
/// statements ask for nothing of the kind.
pub proof fn law_transaction_statements_ask_for_what_they_say(kind: StatementKind, name: String)
    ensures
        transaction_action(StatementKind::StartTransaction) == Some(TransactionActionModel::Begin),
        transaction_action(StatementKind::Commit) == Some(TransactionActionModel::Commit),
        transaction_action(StatementKind::Rollback(None)) == Some(TransactionActionModel::Rollback),
        transaction_action(StatementKind::Rollback(Some(name))) == Some(
            TransactionActionModel::RollbackTo(name@),
        ),
        transaction_action(StatementKind::Savepoint(name)) == Some(
            TransactionActionModel::Savepoint(name@),
        ),
        transaction_action(StatementKind::ReleaseSavepoint(name)) == Some(
            TransactionActionModel::Release(name@),
        ),
        defines(kind) || kind is Query || kind is Other ==> transaction_action(kind) is None,
        transaction_action(kind) is None ==> defines(kind) || kind is Query || kind is Other,
{
}

/// The answer to a query for what every session has is the same with a semicolon behind it; what
/// it is called stands in the query.
pub proof fn law_session_answers_bear_their_names(sql: Seq<char>)
    requires
        sql.len() > 0 ==> sql.last() != ';',
    ensures
        scalar_answer(sql + seq![';']) == scalar_answer(sql),
        scalar_answer(sql) matches Some((name, value)) ==> value.len() > 0 && exists|tail: Seq<char>|
            #![trigger name + tail]
            sql == "select "@ + (name + tail) && (tail.len() == 0 || tail == seq!['(', ')']),
{
    let call = seq!['(', ')'];
    reveal_strlit("select ");
    reveal_strlit("PostgreSQL 14.0 (pg_gateway)");
    reveal_strlit("public");
    reveal_strlit("defaultdb");
    reveal_strlit("postgres");
    reveal_strlit("select version()");
    reveal_strlit("select version();");
    reveal_strlit("version");
    assert("select version();"@ =~= "select version()"@ + seq![';']);
    lemma_one_word(sql, "select version()"@, "select version();"@);
    assert("select version()"@ =~= "select "@ + ("version"@ + call));
    reveal_strlit("select current_schema()");
    reveal_strlit("select current_schema();");
    reveal_strlit("current_schema");
    assert("select current_schema();"@ =~= "select current_schema()"@ + seq![';']);
    lemma_one_word(sql, "select current_schema()"@, "select current_schema();"@);
    assert("select current_schema()"@ =~= "select "@ + ("current_schema"@ + call));
    reveal_strlit("select current_database()");
    reveal_strlit("select current_database();");
    reveal_strlit("current_database");
    assert("select current_database();"@ =~= "select current_database()"@ + seq![';']);
    lemma_one_word(sql, "select current_database()"@, "select current_database();"@);
    assert("select current_database()"@ =~= "select "@ + ("current_database"@ + call));
    reveal_strlit("select current_user");
    reveal_strlit("select current_user;");
    reveal_strlit("current_user");
    assert("select current_user;"@ =~= "select current_user"@ + seq![';']);
    lemma_one_word(sql, "select current_user"@, "select current_user;"@);
    assert("select current_user"@ =~= "select "@ + ("current_user"@ + Seq::<char>::empty()));
    reveal_strlit("select session_user");
    reveal_strlit("select session_user;");
    reveal_strlit("session_user");
    assert("select session_user;"@ =~= "select session_user"@ + seq![';']);
    lemma_one_word(sql, "select session_user"@, "select session_user;"@);
    assert("select session_user"@ =~= "select "@ + ("session_user"@ + Seq::<char>::empty()));
    assert("PostgreSQL 14.0 (pg_gateway)"@.len() > 0 && "public"@.len() > 0 && "defaultdb"@.len() > 0
        && "postgres"@.len() > 0);
    if let Some((name, value)) = scalar_answer(sql) {
        let none = Seq::<char>::empty();
        assert(sql == "select "@ + (name + call) || sql == "select "@ + (name + none));
    }
}

proof fn lemma_one_word(sql: Seq<char>, word: Seq<char>, marked: Seq<char>)
    requires
        sql.len() > 0 ==> sql.last() != ';',
        word.len() > 0,
        word.last() != ';',
        marked == word + seq![';'],
    ensures
        (sql + seq![';'] == marked) == (sql == word),
        sql != marked,
        sql + seq![';'] != word,
{
    let longer = sql + seq![';'];
    assert(longer.drop_last() =~= sql);
    assert(marked.drop_last() =~= word);
    assert(longer.last() == ';');
    assert(marked.last() == ';');
}

/// The verdict on a new check is that of the first row that does not meet it.
pub proof fn law_new_checks_look_at_every_row(alone: Seq<VerdictModel>, over_rows: Seq<VerdictModel>)
    requires
        forall|i: int| 0 <= i < alone.len() ==> !(#[trigger] alone[i] is Malformed),
    ensures
        new_check(alone, over_rows) is Holds == (forall|i: int|
            0 <= i < over_rows.len() ==> #[trigger] over_rows[i] is Holds),
        !(new_check(alone, over_rows) is Holds) ==> over_rows.contains(new_check(alone, over_rows)),
{
    lemma_none_malformed(alone);
    lemma_first_other(over_rows);
}

/// A check that cannot be read is refused, whatever rows there are.
pub proof fn law_malformed_checks_are_refused(
    alone: Seq<VerdictModel>,
    over_rows: Seq<VerdictModel>,
    at: int,
)
    requires
        0 <= at < alone.len(),
        alone[at] is Malformed,
    ensures
        new_check(alone, over_rows) is Malformed,
    decreases at,
{
    if at > 0 && !(alone[0] is Malformed) {
        law_malformed_checks_are_refused(alone.skip(1), over_rows, at - 1);
    }
}

proof fn lemma_none_malformed(alone: Seq<VerdictModel>)
    requires
        forall|i: int| 0 <= i < alone.len() ==> !(#[trigger] alone[i] is Malformed),
    ensures
        first_malformed(alone) is None,
    decreases alone.len(),
{
    if alone.len() > 0 {
        let rest = alone.skip(1);
        assert(!(alone[0] is Malformed));
        assert forall|i: int| 0 <= i < rest.len() implies !(#[trigger] rest[i] is Malformed) by {
            assert(rest[i] == alone[i + 1]);
        }
        lemma_none_malformed(rest);
    }
}

proof fn lemma_first_other(verdicts: Seq<VerdictModel>)
    ensures
        first_other(verdicts) is Holds == (forall|i: int|
            0 <= i < verdicts.len() ==> #[trigger] verdicts[i] is Holds),
        !(first_other(verdicts) is Holds) ==> verdicts.contains(first_other(verdicts)),
    decreases verdicts.len(),
{
    if verdicts.len() > 0 && verdicts[0] is Holds {
        let rest = verdicts.skip(1);
        lemma_first_other(rest);
        if first_other(rest) is Holds {
            assert forall|i: int| 0 <= i < verdicts.len() implies #[trigger] verdicts[i] is Holds by {
                if i > 0 {
                    assert(rest[i - 1] == verdicts[i]);
                }
            }
        } else {
            let k = choose|k: int| 0 <= k < rest.len() && rest[k] == first_other(rest);
            assert(verdicts[k + 1] == first_other(verdicts));
        }
    }
}

/// The value of an index on one column is that of the column; on more, it has all of theirs.
pub proof fn law_indexes_hold_their_columns(values: Seq<Datum>)
    ensures
        values.len() == 1 ==> value_for(values) == values[0],
        values.len() != 1 ==> value_for(values) == Datum::Array(values),
{
}

/// The statement that makes a table names it and has a line for each of its columns and indexes,
/// with commas between them.
pub proof fn law_create_statements_have_every_line(
    table: TableModel,
    indexes: Seq<IndexModel>,
    type_names: Seq<Seq<char>>,
)
    ensures
        exists|tail: Seq<char>|
            create_statement(table, indexes, type_names) == "CREATE TABLE "@ + backquoted(
                table.table_name,
            ) + " (\n"@ + #[trigger] (joined(table_lines(table, indexes, type_names), ",\n"@)
                + tail),
{
    let tail = "\n) ENGINE=UniDB DEFAULT CHARSET=utf8mb4 COLLATE=utf8mb4_0900_ai_ci"@;
    assert(create_statement(table, indexes, type_names) == "CREATE TABLE "@ + backquoted(
        table.table_name,
    ) + " (\n"@ + (joined(table_lines(table, indexes, type_names), ",\n"@) + tail));
}

/// The clauses of a load count one after the other, to the last; one that cannot be read has the
/// whole refused.
pub proof fn law_every_clause_of_a_load_counts(before: LoadProgress)
    ensures
        before.rest.len() == 0 ==> load_clauses(before) == Ok::<LoadProgress, Report>(before),
        before.rest.len() > 0 ==> match load_clause(before) {
            Err(e) => load_clauses(before) == Err::<LoadProgress, Report>(e),
            Ok(next) => next.rest.len() < before.rest.len() ==> load_clauses(before)
                == load_clauses(next),
        },
{
}

/// Only PostgreSQL clients ask for space to be given back, and only where they ask for statistics
/// too is there anything to do.
pub proof fn law_vacuum_is_for_statistics(mode: GatewayMode, query: Seq<char>)
    ensures
        mode == GatewayMode::MySql ==> vacuum_step_of(mode, query) == VacuumModel::NotVacuum,
        vacuum_step_of(mode, query) is Analyze ==> exists|at: int|
            word_at(trim(trim_end_of(normalized_sql(query), ';')), "analyze"@, at),
        mode == GatewayMode::Postgres && begins(
            trim(trim_end_of(normalized_sql(query), ';')),
            "vacuum"@,
        ) ==> !(vacuum_step_of(mode, query) is NotVacuum),
{
}

/// What a session prepared under a name is what it gave last under that name, whatever other
/// sessions prepared.
pub proof fn law_prepared_statements_belong_to_their_session(
    statements: Seq<PreparedSqlStatement>,
    session_id: i32,
    name: Seq<char>,
    at: int,
)
    requires
        0 <= at < statements.len(),
        statements[at].session_id == session_id && statements[at].name@ == name,
        forall|i: int|
            at < i < statements.len() ==> (#[trigger] statements[i]).session_id != session_id
                || statements[i].name@ != name,
    ensures
        prepared_under(statements, session_id, name) == Some(statements[at].sql@),
    decreases statements.len(),
{
    if at < statements.len() - 1 {
        let before = statements.drop_last();
        assert(statements[statements.len() - 1].session_id != session_id || statements[statements.len()
            - 1].name@ != name);
        assert forall|i: int| at < i < before.len() implies (#[trigger] before[i]).session_id
            != session_id || before[i].name@ != name by {
            assert(before[i] == statements[i]);
        }
        law_prepared_statements_belong_to_their_session(before, session_id, name, at);
    }
}

/// A session that prepared nothing under a name has nothing there.
pub proof fn law_nothing_is_prepared_for_others(
    statements: Seq<PreparedSqlStatement>,
    session_id: i32,
    name: Seq<char>,
)
    requires
        forall|i: int|
            0 <= i < statements.len() ==> (#[trigger] statements[i]).session_id != session_id
                || statements[i].name@ != name,
    ensures
        prepared_under(statements, session_id, name) is None,
    decreases statements.len(),
{
    if statements.len() > 0 {
        let before = statements.drop_last();
        assert(statements[statements.len() - 1].session_id != session_id || statements[statements.len()
            - 1].name@ != name);
        assert forall|i: int| 0 <= i < before.len() implies (#[trigger] before[i]).session_id
            != session_id || before[i].name@ != name by {
            assert(before[i] == statements[i]);
        }
        law_nothing_is_prepared_for_others(before, session_id, name);
    }
}

/// What autocommit is set to is what stands behind the sign, in each of the forms of the
/// statement.
pub proof fn law_autocommit_is_set_to_its_value(text: Seq<char>, width: int, value: Seq<char>)
    requires
        (width == 14 && begins(lower(text), "set autocommit"@)) || (width == 22 && begins(
            lower(text),
            "set session autocommit"@,
        )) || (width == 16 && begins(lower(text), "set @@autocommit"@)) || (width == 24 && begins(
            lower(text),
            "set @@session.autocommit"@,
        )),
        trim(text.skip(width)) == seq!['='] + value,
    ensures
        autocommit_value(text) == Some(trim(value)),
{
    reveal_strlit("set autocommit");
    reveal_strlit("set session autocommit");
    reveal_strlit("set @@autocommit");
    reveal_strlit("set @@session.autocommit");
    let small = lower(text);
    assert("set autocommit"@[4] == 'a');
    assert("set session autocommit"@[4] == 's');
    assert("set @@autocommit"@[4] == '@' && "set @@autocommit"@[6] == 'a');
    assert("set @@session.autocommit"@[4] == '@' && "set @@session.autocommit"@[6] == 's');
    assert(begins(small, "set autocommit"@) ==> small[4] == 'a') by {
        if begins(small, "set autocommit"@) {
            assert(small.take(14)[4] == small[4]);
        }
    }
    assert(begins(small, "set session autocommit"@) ==> small[4] == 's') by {
        if begins(small, "set session autocommit"@) {
            assert(small.take(22)[4] == small[4]);
        }
    }
    assert(begins(small, "set @@autocommit"@) ==> small[4] == '@' && small[6] == 'a') by {
        if begins(small, "set @@autocommit"@) {
            assert(small.take(16)[4] == small[4] && small.take(16)[6] == small[6]);
        }
    }
    assert(begins(small, "set @@session.autocommit"@) ==> small[4] == '@' && small[6] == 's') by {
        if begins(small, "set @@session.autocommit"@) {
            assert(small.take(24)[4] == small[4] && small.take(24)[6] == small[6]);
        }
    }
    assert((seq!['='] + value).skip(1) =~= value);
}

/// Parameters of the session that nothing depends on can be set to anything.
pub proof fn law_idle_parameters_can_be_set(text: Seq<char>)
    requires
begins(text, "set application_name"@) || begins(text, "set client_encoding"@) || begins(text, "set standard_conforming_strings"@) || begins(text, "set extra_float_digits"@) || begins(text, "set datestyle"@) || begins(text, "set timezone"@) || begins(text, "set time zone"@) || begins(text, "set statement_timeout"@) || begins(text, "set lock_timeout"@) || begins(text, "set idle_in_transaction_session_timeout"@),
    ensures
        noop_set(text),
{
}

/// An index that is dropped by a name without a schema is the one that the search path leads to;
/// where it leads to none, it is an error, unless the statement allows for that.
pub proof fn law_dropped_indexes_are_searched_for(
    contents: Contents,
    database_id: u32,
    search_path: Seq<Seq<char>>,
    name: Seq<PartModel>,
    if_exists: bool,
    text: Seq<char>,
)
    requires
        object_name(name) == Ok::<Seq<char>, Report>(text),
        mark_at(text, '.') is None,
    ensures
        match index_searched(contents, database_id, search_path, text) {
            Err(_) => index_to_drop(contents, database_id, search_path, name, if_exists) is Err,
            Ok(Some(schema_name)) => index_to_drop(
                contents,
                database_id,
                search_path,
                name,
                if_exists,
            ) == Ok::<QualifiedModel, Report>(QualifiedModel { schema_name, name: text }),
            Ok(None) => if if_exists {
                index_to_drop(contents, database_id, search_path, name, if_exists) matches Ok(place)
                    && place.name == text && place.schema_name == search_path[0]
            } else {
                index_to_drop(contents, database_id, search_path, name, if_exists) is Err
            },
        },
{
}

/// A session is ended by its number, whether the statement says that it is a connection or a
/// query that ends.
pub proof fn law_sessions_are_ended_by_number(query: Seq<char>, kill: Seq<char>, word: Seq<char>, number: Seq<char>)
    requires
        lower(kill) == lower("kill"@),
        lower(word) == lower("connection"@) || lower(word) == lower("query"@),
    ensures
        words(trim_end_of(trim(query), ';')) == seq![kill, word, number] ==> kill_target(query)
            == signed_number(number),
        words(trim_end_of(trim(query), ';')) == seq![kill, number] && lower(number) != lower(
            "connection"@,
        ) && lower(number) != lower("query"@) ==> kill_target(query) == signed_number(number),
{
}

/// The name of a savepoint is what stands between the quotes around it, or the word itself.
pub proof fn law_savepoints_are_named_as_written(name: Seq<char>)
    requires
        is_bare(name),
    ensures
        savepoint_name(name) == Ok::<Seq<char>, Report>(name),
        savepoint_name(seq!['"'] + name + seq!['"']) == Ok::<Seq<char>, Report>(name),
        savepoint_name(seq!['`'] + name + seq!['`']) == Ok::<Seq<char>, Report>(name),
{
    lemma_bare(name);
    lemma_quoted(name, '"');
    lemma_quoted(name, '`');
    assert(name.last() == name[name.len() - 1]);
    assert(trim_of(name, '"') == name);
    assert(trim_of(name, '`') == name);
    let other = seq!['`'] + name + seq!['`'];
    assert(other[0] == '`' && other.last() == '`');
    assert(trim_of(other, '"') == other);
}

proof fn lemma_quoted(name: Seq<char>, quote: char)
    requires
        is_bare(name),
        quote == '"' || quote == '`',
    ensures
        trim(seq![quote] + name + seq![quote]) == seq![quote] + name + seq![quote],
        trim_of(seq![quote] + name + seq![quote], quote) == name,
{
    let text = seq![quote] + name + seq![quote];
    assert(text[0] == quote && text.last() == quote);
    assert(!is_space(quote));
    assert(trim_start(text) == text);
    assert(trim_end(text) == text);
    let rest = name.push(quote);
    assert(text.skip(1) =~= rest);
    assert(rest[0] == name[0]);
    reveal_with_fuel(trim_start_of, 2);
    assert(trim_start_of(text, quote) == rest);
    assert(rest.drop_last() =~= name);
    assert(name.last() == name[name.len() - 1]);
    reveal_with_fuel(trim_end_of, 2);
    assert(trim_end_of(rest, quote) == name);
}

/// Dropping a schema leaves the tables and views of other schemas alone, and takes its own out of
/// the catalog.
pub proof fn law_dropped_schemas_take_their_own(
    progress: Progress,
    database_name: Seq<char>,
    schema_name: Seq<char>,
    table: TableEntry,
    view: ViewModel,
)
    ensures
        table.schema_name != schema_name ==> member_table_dropped(
            progress,
            database_name,
            schema_name,
            table,
        ) == progress,
        view.schema_name != schema_name ==> member_view_dropped(
            progress,
            database_name,
            schema_name,
            view,
        ) == progress,
        table.schema_name == schema_name && member_table_dropped(
            progress,
            database_name,
            schema_name,
            table,
        ).error is None ==> exists|contents: Contents|
            {
                &&& (#[trigger] table_dropped(contents, database_name, schema_name, table.table_name)).0
                    is Ok
                &&& member_table_dropped(progress, database_name, schema_name, table).contents
                    == table_dropped(contents, database_name, schema_name, table.table_name).1
            },
        view.schema_name == schema_name && member_view_dropped(
            progress,
            database_name,
            schema_name,
            view,
        ).error is None ==> exists|contents: Contents|
            {
                &&& (#[trigger] view_dropped(contents, database_name, schema_name, view.view_name)).0
                    is Ok
                &&& member_view_dropped(progress, database_name, schema_name, view).contents
                    == view_dropped(contents, database_name, schema_name, view.view_name).1
            },
{
}

/// Where no table is named, statistics are taken of every table of the database.
pub proof fn law_statistics_are_taken_of_all(
    contents: Contents,
    database_name: Seq<char>,
    search_path: Seq<Seq<char>>,
    entries: Seq<TableEntry>,
    i: int,
)
    requires
        tables_listed(contents, database_name) == Ok::<Seq<TableEntry>, Report>(entries),
        0 <= i < entries.len(),
    ensures
        analyze_planned(contents, database_name, search_path, None) matches Ok(plan) && (plan
            matches PlanModel::AnalyzeTables { database_name: named, tables } && named
            == database_name && tables.len() == entries.len() && tables[i].schema_name
            == entries[i].schema_name && tables[i].schema == entries[i].schema),
{
}

/// A view is found in whichever schema of the path it stands.
pub proof fn law_views_are_found_along_the_path(
    contents: Contents,
    database_name: Seq<char>,
    schemas: Seq<Seq<char>>,
    name: Seq<char>,
)
    requires
        forall|i: int|
            0 <= i < schemas.len() ==> view_found(contents, database_name, #[trigger] schemas[i], name) is Ok,
    ensures
        view_searched(contents, database_name, schemas, name) == Ok::<bool, Report>(
            exists|i: int|
                0 <= i < schemas.len() && (view_found(
                    contents,
                    database_name,
                    #[trigger] schemas[i],
                    name,
                ) matches Ok(Some(_))),
        ),
    decreases schemas.len(),
{
    if schemas.len() > 0 {
        let rest = schemas.skip(1);
        assert(view_found(contents, database_name, schemas[0], name) is Ok);
        assert forall|i: int| 0 <= i < rest.len() implies view_found(
            contents,
            database_name,
            #[trigger] rest[i],
            name,
        ) is Ok by {
            assert(rest[i] == schemas[i + 1]);
        }
        law_views_are_found_along_the_path(contents, database_name, rest, name);
        if exists|i: int|
            0 <= i < schemas.len() && (view_found(
                contents,
                database_name,
                #[trigger] schemas[i],
                name,
            ) matches Ok(Some(_))) {
            let i = choose|i: int|
                0 <= i < schemas.len() && (view_found(
                    contents,
                    database_name,
                    #[trigger] schemas[i],
                    name,
                ) matches Ok(Some(_)));
            if i > 0 {
                assert(rest[i - 1] == schemas[i]);
            }
        }
        if exists|i: int|
            0 <= i < rest.len() && (view_found(
                contents,
                database_name,
                #[trigger] rest[i],
                name,
            ) matches Ok(Some(_))) {
            let i = choose|i: int|
                0 <= i < rest.len() && (view_found(
                    contents,
                    database_name,
                    #[trigger] rest[i],
                    name,
                ) matches Ok(Some(_)));
            assert(schemas[i + 1] == rest[i]);
        }
    }
}

/// An index without a name of its own is called after its table and columns; one with a name
/// keeps it.
pub proof fn law_new_indexes_have_their_names(
    parts: Seq<PartModel>,
    schema_name: Seq<char>,
    table_name: Seq<char>,
    column: Seq<char>,
    text: Seq<char>,
)
    ensures
        new_index_name(None, schema_name, table_name, seq![column]) == Ok::<Seq<char>, Report>(
            table_name + seq!['_'] + column + seq!['_', 'i', 'd', 'x'],
        ),
        object_name(parts) == Ok::<Seq<char>, Report>(text) && mark_at(text, '.') is None
            ==> new_index_name(Some(parts), schema_name, table_name, seq![column]) == Ok::<
            Seq<char>,
            Report,
        >(text),
{
    reveal_strlit("_");
    reveal_strlit("_idx");
    let name = new_index_name(None, schema_name, table_name, seq![column])->Ok_0;
    assert(name =~= table_name + seq!['_'] + column + seq!['_', 'i', 'd', 'x']);
}

/// A database that is not there cannot be dropped, unless the statement allows for that; one that
/// is there goes from the catalog.
pub proof fn law_missing_databases_are_told(
    progress: Progress,
    database_name: Seq<char>,
    if_exists: bool,
)
    requires
        progress.error is None,
    ensures
        match database_dropped(progress.contents, database_name).0 {
            Ok(None) => one_database_dropped(progress, database_name, if_exists).error is Some
                == !if_exists,
            Ok(Some(_)) => one_database_dropped(progress, database_name, if_exists).error is None,
            Err(e) => one_database_dropped(progress, database_name, if_exists).error == Some(e),
        },
        one_database_dropped(progress, database_name, if_exists).contents == database_dropped(
            progress.contents,
            database_name,
        ).1,
{
}

/// In descriptions of plans numbers stand as they are, truths by their names and texts in quotes.
pub proof fn law_values_are_explained(
    floats: Seq<FloatTextModel>,
    short: i16,
    number: i32,
    long: i64,
    text: Seq<char>,
)
    ensures
        explained(Datum::Null, floats) == "NULL"@,
        explained(Datum::Boolean(true), floats) == "true"@,
        explained(Datum::Boolean(false), floats) == "false"@,
        explained(Datum::Int16(short), floats) == signed_decimal(short as int),
        explained(Datum::Int32(number), floats) == signed_decimal(number as int),
        explained(Datum::Int64(long), floats) == signed_decimal(long as int),
        explained(Datum::Text(text), floats) == quoted_literal(text),
        explained(Datum::Numeric(text), floats) == quoted_literal(text),
        explained(Datum::Uuid(text), floats) == quoted_literal(text),
        explained(Datum::Date(text), floats) == quoted_literal(text),
        explained(Datum::Timestamp(text), floats) == quoted_literal(text),
{
}

/// Whether a column takes its values from a sequence.
pub open spec fn counts(column: ColumnModel) -> bool {
    column.default matches Some(text) && nextval_name(text) is Some
}

/// What else MySQL clients are told of a column: that it counts, and what it becomes on updates.
pub proof fn law_columns_tell_what_they_do(column: ColumnModel, value: Seq<char>)
    ensures
        column.on_update is None && !counts(column) ==> extra_words(column).len() == 0,
        column.on_update is None && counts(column) ==> extra_words(column)
            == "auto_increment"@,
        column.on_update == Some(value) && counts(column) ==> extra_words(column)
            == "auto_increment on update "@ + value,
        column.on_update == Some(value) && !counts(column) ==> extra_words(column)
            == "on update "@ + value,
{
}

/// A key is told with its name and its columns, in quotes.
pub proof fn law_keys_are_told_with_their_columns(
    words: Seq<char>,
    name: Seq<char>,
    column: Seq<char>,
)
    ensures
        key_line(words, name, seq![column]) == words + backquoted(name) + " ("@ + (backquoted(column)
            + ")"@),
{
    let quoted = seq![column].map_values(|name: Seq<char>| backquoted(name));
    assert(quoted =~= seq![backquoted(column)]);
}

/// The time to wait for locks is the number behind the sign, with or without quotes around it.
pub proof fn law_waits_are_set_to_their_value(text: Seq<char>, rest: Seq<char>, number: nat)
    requires
        behind_mark(text, '=') == Some(rest),
        unsigned_number(trim_of(trim_of(trim(rest), '\''), '"'), u64::MAX as nat) == Some(number),
        number <= u64::MAX,
    ensures
        lock_wait_seconds(text) == Ok::<CommandModel, Report>(
            CommandModel::LockWaitTimeout { seconds: number as u64 },
        ),
{
}

/// A transaction is read-only just where its first statement says so, and has the isolation that
/// it names.
pub proof fn law_transactions_begin_as_asked(small: Seq<char>)
    ensures
        !contains_text(small, "isolation level"@) ==> begin_command(small) == Ok::<
            CommandModel,
            Report,
        >(
            CommandModel::Begin {
                isolation: None,
                read_only: contains_text(small, "read only"@),
            },
        ),
        contains_text(small, "isolation level"@) ==> match isolation_named(small) {
            Some(isolation) => begin_command(small) == Ok::<CommandModel, Report>(
                CommandModel::Begin {
                    isolation: Some(isolation),
                    read_only: contains_text(small, "read only"@),
                },
            ),
            None => begin_command(small) is Err,
        },
{
}

} // verus!
