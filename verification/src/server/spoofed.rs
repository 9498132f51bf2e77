//! Queries that are answered without planning: what the session is, what the server is, and
//! lists that command line clients ask for.
use vstd::prelude::*;

use crate::catalog::model::{bootstrapped, databases_listed, law_bootstrap_is_stable, tables_listed};
use crate::catalog::types::{DatabaseCatalog, DatabaseModel, TableCatalog, TableEntry};
use crate::error::{not_internal, unsupported, unsupported_report, Report, UserError};
use crate::mem_store::{Contents, KvStore};
use crate::mode::GatewayMode;
use crate::response::{
    empty_query_response, empty_response, multi_text_row_response, single_int4_row_response,
    single_row, single_text_row_response, text_rows, Response, ResponseModel, TypeModel,
};
use crate::schema::{option_view, seen_all, views};
use crate::server::ddl_columns::two_texts;
use crate::server::gateway::{only_opened, GatewayServer};
use crate::server::plan::{cell_texts, TextRow};
use crate::server::query_flow::{
    is_word_char, is_word_letter, normalize_sql_whitespace, normalized_sql,
};
use crate::server::session::{
    default_isolation, default_transaction_isolation, isolation_name, scope_of, session_catalog,
    ClientModel, ClientState,
};
use crate::text::{
    begins, begins_with, chars_of, contains_text, has_text, lower, lower_text, part, same_text,
    trim, trim_text,
};
use crate::types::Datum;

verus! {

/// Whether a text names a relation of `pg_catalog` that can be read.
pub open spec fn names_pg_catalog(text: Seq<char>) -> bool {
    contains_text(text, "pg_catalog.pg_class"@)
        || contains_text(text, "pg_catalog.pg_attribute"@)
        || contains_text(text, "pg_catalog.pg_index"@)
        || contains_text(text, "pg_catalog.pg_constraint"@)
        || contains_text(text, "pg_catalog.pg_proc"@)
        || contains_text(text, "pg_catalog.pg_cast"@)
        || contains_text(text, "pg_catalog.pg_settings"@)
        || contains_text(text, "pg_catalog.pg_tables"@)
        || contains_text(text, "pg_catalog.pg_type"@)
        || contains_text(text, "pg_catalog.pg_authid"@)
        || contains_text(text, "pg_catalog.pg_auth_members"@)
        || contains_text(text, "pg_catalog.pg_roles"@)
        || contains_text(text, "pg_catalog.pg_user"@)
        || contains_text(text, "pg_catalog.pg_group"@)
        || contains_text(text, "pg_catalog.pg_attrdef"@)
        || contains_text(text, "pg_catalog.pg_depend"@)
        || contains_text(text, "pg_catalog.pg_description"@)
        || contains_text(text, "pg_catalog.pg_shdepend"@)
        || contains_text(text, "pg_catalog.pg_shdescription"@)
        || contains_text(text, "pg_catalog.pg_am"@)
        || contains_text(text, "pg_catalog.pg_opclass"@)
        || contains_text(text, "pg_catalog.pg_opfamily"@)
        || contains_text(text, "pg_catalog.pg_operator"@)
        || contains_text(text, "pg_catalog.pg_collation"@)
        || contains_text(text, "pg_catalog.pg_sequence"@)
        || contains_text(text, "pg_catalog.pg_sequences"@)
        || contains_text(text, "pg_catalog.pg_rewrite"@)
        || contains_text(text, "pg_catalog.pg_views"@)
        || contains_text(text, "pg_catalog.pg_trigger"@)
        || contains_text(text, "pg_catalog.pg_policy"@)
        || contains_text(text, "pg_catalog.pg_statistic"@)
        || contains_text(text, "pg_catalog.pg_stats"@)
        || contains_text(text, "pg_catalog.pg_statistic_ext"@)
        || contains_text(text, "pg_catalog.pg_statistic_ext_data"@)
        || contains_text(text, "pg_catalog.pg_stats_ext"@)
        || contains_text(text, "pg_catalog.pg_stats_ext_exprs"@)
        || contains_text(text, "pg_catalog.pg_indexes"@)
}

fn has_pg_catalog_name(text: &[char]) -> (answer: bool)
    ensures
        answer == names_pg_catalog(text@),
{
    has_text(text, "pg_catalog.pg_class")
        || has_text(text, "pg_catalog.pg_attribute")
        || has_text(text, "pg_catalog.pg_index")
        || has_text(text, "pg_catalog.pg_constraint")
        || has_text(text, "pg_catalog.pg_proc")
        || has_text(text, "pg_catalog.pg_cast")
        || has_text(text, "pg_catalog.pg_settings")
        || has_text(text, "pg_catalog.pg_tables")
        || has_text(text, "pg_catalog.pg_type")
        || has_text(text, "pg_catalog.pg_authid")
        || has_text(text, "pg_catalog.pg_auth_members")
        || has_text(text, "pg_catalog.pg_roles")
        || has_text(text, "pg_catalog.pg_user")
        || has_text(text, "pg_catalog.pg_group")
        || has_text(text, "pg_catalog.pg_attrdef")
        || has_text(text, "pg_catalog.pg_depend")
        || has_text(text, "pg_catalog.pg_description")
        || has_text(text, "pg_catalog.pg_shdepend")
        || has_text(text, "pg_catalog.pg_shdescription")
        || has_text(text, "pg_catalog.pg_am")
        || has_text(text, "pg_catalog.pg_opclass")
        || has_text(text, "pg_catalog.pg_opfamily")
        || has_text(text, "pg_catalog.pg_operator")
        || has_text(text, "pg_catalog.pg_collation")
        || has_text(text, "pg_catalog.pg_sequence")
        || has_text(text, "pg_catalog.pg_sequences")
        || has_text(text, "pg_catalog.pg_rewrite")
        || has_text(text, "pg_catalog.pg_views")
        || has_text(text, "pg_catalog.pg_trigger")
        || has_text(text, "pg_catalog.pg_policy")
        || has_text(text, "pg_catalog.pg_statistic")
        || has_text(text, "pg_catalog.pg_stats")
        || has_text(text, "pg_catalog.pg_statistic_ext")
        || has_text(text, "pg_catalog.pg_statistic_ext_data")
        || has_text(text, "pg_catalog.pg_stats_ext")
        || has_text(text, "pg_catalog.pg_stats_ext_exprs")
        || has_text(text, "pg_catalog.pg_indexes")
}

/// Whether a text names a relation of `information_schema` that can be read.
pub open spec fn names_information_schema(text: Seq<char>) -> bool {
    contains_text(text, "information_schema.tables"@)
        || contains_text(text, "information_schema.columns"@)
        || contains_text(text, "information_schema.schemata"@)
        || contains_text(text, "information_schema.table_constraints"@)
        || contains_text(text, "information_schema.key_column_usage"@)
        || contains_text(text, "information_schema.statistics"@)
        || contains_text(text, "information_schema.referential_constraints"@)
        || contains_text(text, "information_schema.constraint_column_usage"@)
        || contains_text(text, "information_schema.constraint_table_usage"@)
        || contains_text(text, "information_schema.column_privileges"@)
        || contains_text(text, "information_schema.table_privileges"@)
        || contains_text(text, "information_schema.views"@)
        || contains_text(text, "information_schema.engines"@)
        || contains_text(text, "information_schema.character_sets"@)
        || contains_text(text, "information_schema.collations"@)
        || contains_text(text, "information_schema.processlist"@)
        || contains_text(text, "information_schema.global_variables"@)
        || contains_text(text, "information_schema.session_variables"@)
        || contains_text(text, "information_schema.sequences"@)
        || contains_text(text, "information_schema.routines"@)
        || contains_text(text, "information_schema.parameters"@)
}

fn has_information_schema_name(text: &[char]) -> (answer: bool)
    ensures
        answer == names_information_schema(text@),
{
    has_text(text, "information_schema.tables")
        || has_text(text, "information_schema.columns")
        || has_text(text, "information_schema.schemata")
        || has_text(text, "information_schema.table_constraints")
        || has_text(text, "information_schema.key_column_usage")
        || has_text(text, "information_schema.statistics")
        || has_text(text, "information_schema.referential_constraints")
        || has_text(text, "information_schema.constraint_column_usage")
        || has_text(text, "information_schema.constraint_table_usage")
        || has_text(text, "information_schema.column_privileges")
        || has_text(text, "information_schema.table_privileges")
        || has_text(text, "information_schema.views")
        || has_text(text, "information_schema.engines")
        || has_text(text, "information_schema.character_sets")
        || has_text(text, "information_schema.collations")
        || has_text(text, "information_schema.processlist")
        || has_text(text, "information_schema.global_variables")
        || has_text(text, "information_schema.session_variables")
        || has_text(text, "information_schema.sequences")
        || has_text(text, "information_schema.routines")
        || has_text(text, "information_schema.parameters")
}

/// Whether a text sets a parameter of the session that has no effect.
pub open spec fn noop_set(text: Seq<char>) -> bool {
    begins(text, "set application_name"@)
        || begins(text, "set client_encoding"@)
        || begins(text, "set standard_conforming_strings"@)
        || begins(text, "set extra_float_digits"@)
        || begins(text, "set datestyle"@)
        || begins(text, "set timezone"@)
        || begins(text, "set time zone"@)
        || begins(text, "set statement_timeout"@)
        || begins(text, "set lock_timeout"@)
        || begins(text, "set idle_in_transaction_session_timeout"@)
}

/// Whether a text sets a parameter of the session that has no effect.
pub fn is_supported_noop_set(text: &[char]) -> (answer: bool)
    ensures
        answer == noop_set(text@),
{
    begins_with(text, "set application_name")
        || begins_with(text, "set client_encoding")
        || begins_with(text, "set standard_conforming_strings")
        || begins_with(text, "set extra_float_digits")
        || begins_with(text, "set datestyle")
        || begins_with(text, "set timezone")
        || begins_with(text, "set time zone")
        || begins_with(text, "set statement_timeout")
        || begins_with(text, "set lock_timeout")
        || begins_with(text, "set idle_in_transaction_session_timeout")
}

/// How many characters of a word a text starts with.
pub open spec fn word_length(text: Seq<char>) -> nat
    decreases text.len(),
{
    if text.len() > 0 && is_word_char(text[0]) {
        1 + word_length(text.skip(1))
    } else {
        0
    }
}

/// Whether a text starts with a call of a function.
pub open spec fn starts_with_call(text: Seq<char>) -> bool {
    let length = word_length(text) as int;
    length > 0 && length < text.len() && text[length] == '('
}

fn is_call(text: &[char]) -> (answer: bool)
    ensures
        answer == starts_with_call(text@),
{
    let mut length: usize = 0;
    assert(text@.skip(0) =~= text@);
    while length < text.len() && is_word_letter(text[length])
        invariant
            length <= text@.len(),
            word_length(text@) == length + word_length(text@.skip(length as int)),
        decreases text@.len() - length,
    {
        assert(text@.skip(length as int).skip(1) =~= text@.skip(length + 1));
        length += 1;
    }
    length > 0 && length < text.len() && text[length] == '('
}

/// Whether a text starts with a call of a function whose name is qualified by `pg_catalog`.
pub open spec fn starts_with_qualified_call(text: Seq<char>) -> bool {
    begins(lower(text), "pg_catalog."@) && starts_with_call(text.skip("pg_catalog."@.len() as int))
}

/// A text in which the names of functions are not qualified by `pg_catalog`.
pub open spec fn without_qualifiers(text: Seq<char>) -> Seq<char>
    decreases text.len(),
{
    if text.len() == 0 {
        seq![]
    } else if starts_with_qualified_call(text) && "pg_catalog."@.len() > 0 {
        without_qualifiers(text.skip("pg_catalog."@.len() as int))
    } else {
        seq![text[0]] + without_qualifiers(text.skip(1))
    }
}

/// A text that calls no function of `pg_catalog` by its qualified name stays as it is.
pub proof fn law_unqualified_text_stays(text: Seq<char>)
    requires
        forall|i: int| 0 <= i < text.len() ==> !starts_with_qualified_call(#[trigger] text.skip(i)),
    ensures
        without_qualifiers(text) == text,
    decreases text.len(),
{
    if text.len() > 0 {
        assert(text.skip(0) =~= text);
        let rest = text.skip(1);
        assert forall|i: int| 0 <= i < rest.len() implies !starts_with_qualified_call(
            #[trigger] rest.skip(i),
        ) by {
            assert(rest.skip(i) =~= text.skip(i + 1));
        }
        law_unqualified_text_stays(rest);
        assert(seq![text[0]] + rest =~= text);
    } else {
        assert(without_qualifiers(text) =~= text);
    }
}

/// A statement in which the names of functions are not qualified by `pg_catalog`.
pub fn strip_pg_catalog_function_qualifiers(sql: &str) -> (text: String)
    ensures
        text@ == without_qualifiers(sql@),
{
    let chars = chars_of(sql);
    let end: usize = chars.len();
    let small = chars_of(lower_text(sql).as_str());
    proof {
        reveal_strlit("pg_catalog.");
        assert("pg_catalog."@.len() == 11);
    }
    let mut text = String::new();
    let mut i: usize = 0;
    assert(sql@.skip(0) =~= sql@);
    assert(text@ + without_qualifiers(sql@) =~= without_qualifiers(sql@));
    while i < end
        invariant
            i <= end,
            end == chars@.len(),
            chars@ == sql@,
            small@ == lower(sql@),
            "pg_catalog."@.len() == 11,
            without_qualifiers(sql@) == text@ + without_qualifiers(sql@.skip(i as int)),
        decreases end - i,
    {
        let ghost rest = sql@.skip(i as int);
        let here = part(small.as_slice(), i, end);
        assert(here@ =~= lower(rest));
        if begins_with(here, "pg_catalog.") {
            assert(rest.len() >= 11);
            let name = part(chars.as_slice(), i + 11, end);
            assert(name@ =~= rest.skip(11));
            if is_call(name) {
                assert(sql@.skip(i + 11) =~= rest.skip(11));
                i += 11;
                continue;
            }
        }
        assert(rest.skip(1) =~= sql@.skip(i + 1));
        let ghost before = text@;
        text.push(chars[i]);
        assert(before + (seq![rest[0]] + without_qualifiers(rest.skip(1))) =~= before.push(rest[0])
            + without_qualifiers(rest.skip(1)));
        i += 1;
    }
    assert(without_qualifiers(sql@.skip(i as int)) =~= Seq::<char>::empty());
    assert(text@ + Seq::<char>::empty() =~= text@);
    text
}

/// The user of a client.
pub open spec fn user_of(client: ClientModel) -> Seq<char> {
    match client.user {
        Some(user) => user,
        None => "postgres"@,
    }
}

fn client_user(client: &ClientState) -> (user: String)
    ensures
        user@ == user_of(client@),
{
    match &client.user {
        Some(user) => user.clone(),
        None => "postgres".to_string(),
    }
}

/// The column and the value that answer a query for a value of the session or of the server.
pub open spec fn session_value(mode: GatewayMode, client: ClientModel, text: Seq<char>) -> Option<
    (Seq<char>, Seq<char>),
> {
    if text == "select version()"@ || text == "select version();"@ {
        Some(("version"@, "PostgreSQL 14.0 (pg_gateway)"@))
    } else if text == "select current_schema()"@ || text == "select current_schema();"@ {
        Some(("current_schema"@, scope_of(client).schema_name))
    } else if text == "select current_database()"@ || text == "select current_database();"@ {
        Some(("current_database"@, scope_of(client).database_name))
    } else if text == "select current_user"@ || text == "select current_user();"@ {
        Some(("current_user"@, user_of(client)))
    } else if text == "select session_user"@ || text == "select session_user;"@ {
        Some(("session_user"@, user_of(client)))
    } else if text == "show search_path"@ || text == "show search_path;"@ {
        Some(
            (
                "search_path"@,
                match client.search_path {
                    Some(path) => path,
                    None => scope_of(client).schema_name,
                },
            ),
        )
    } else if text == "show transaction isolation level"@ || text
        == "show transaction isolation level;"@ || text == "show transaction_isolation"@ || text
        == "show transaction_isolation;"@ {
        Some(
            (
                "transaction_isolation"@,
                match client.isolation {
                    Some(name) => name,
                    None => isolation_name(default_isolation(mode)),
                },
            ),
        )
    } else if text == "show standard_conforming_strings"@ || text
        == "show standard_conforming_strings;"@ {
        Some(("standard_conforming_strings"@, "on"@))
    } else if text == "show server_version"@ || text == "show server_version;"@ {
        Some(("server_version"@, "14.0"@))
    } else if text == "show server_version_num"@ || text == "show server_version_num;"@ {
        Some(("server_version_num"@, "140000"@))
    } else if text == "show client_encoding"@ || text == "show client_encoding;"@ {
        Some(("client_encoding"@, "UTF8"@))
    } else if text == "show timezone"@ || text == "show timezone;"@ || text == "show time zone"@
        || text == "show time zone;"@ {
        Some(("TimeZone"@, "UTC"@))
    } else {
        None
    }
}

fn is_one_of(text: &str, first: &str, second: &str) -> (answer: bool)
    ensures
        answer == (text@ == first@ || text@ == second@),
{
    same_text(text, first) || same_text(text, second)
}

fn value_for_session(mode: GatewayMode, client: &ClientState, text: &str) -> (found: Option<
    (String, String),
>)
    ensures
        match found {
            Some((column, value)) => session_value(mode, client@, text@) == Some(
                (column@, value@),
            ),
            None => session_value(mode, client@, text@) is None,
        },
{
    let session = session_catalog(client);
    let (column, value) = if is_one_of(text, "select version()", "select version();") {
        ("version", "PostgreSQL 14.0 (pg_gateway)".to_string())
    } else if is_one_of(text, "select current_schema()", "select current_schema();") {
        ("current_schema", session.schema_name)
    } else if is_one_of(text, "select current_database()", "select current_database();") {
        ("current_database", session.database_name)
    } else if is_one_of(text, "select current_user", "select current_user();") {
        ("current_user", client_user(client))
    } else if is_one_of(text, "select session_user", "select session_user;") {
        ("session_user", client_user(client))
    } else if is_one_of(text, "show search_path", "show search_path;") {
        (
            "search_path",
            match &client.search_path {
                Some(path) => path.clone(),
                None => session.schema_name,
            },
        )
    } else if is_one_of(
        text,
        "show transaction isolation level",
        "show transaction isolation level;",
    ) || is_one_of(text, "show transaction_isolation", "show transaction_isolation;") {
        (
            "transaction_isolation",
            match &client.isolation {
                Some(name) => name.clone(),
                None => default_transaction_isolation(mode).as_pg_str().to_string(),
            },
        )
    } else if is_one_of(
        text,
        "show standard_conforming_strings",
        "show standard_conforming_strings;",
    ) {
        ("standard_conforming_strings", "on".to_string())
    } else if is_one_of(text, "show server_version", "show server_version;") {
        ("server_version", "14.0".to_string())
    } else if is_one_of(text, "show server_version_num", "show server_version_num;") {
        ("server_version_num", "140000".to_string())
    } else if is_one_of(text, "show client_encoding", "show client_encoding;") {
        ("client_encoding", "UTF8".to_string())
    } else if is_one_of(text, "show timezone", "show timezone;") || is_one_of(
        text,
        "show time zone",
        "show time zone;",
    ) {
        ("TimeZone", "UTC".to_string())
    } else {
        return None;
    };
    Some((column.to_string(), value))
}

/// What is seen of an answer that may not be given.
pub open spec fn seen_answer(answer: Option<Result<Vec<Response>, UserError>>) -> Option<
    Result<Seq<ResponseModel>, Report>,
> {
    match answer {
        Some(result) => Some(seen_all(result)),
        None => None,
    }
}

/// The answer to a statement that needs no plan.
pub open spec fn spoofed(mode: GatewayMode, client: ClientModel, sql: Seq<char>) -> Option<
    Result<Seq<ResponseModel>, Report>,
> {
    let text = lower(trim(without_qualifiers(sql)));
    if text == "select 1"@ || text == "select 1;"@ {
        Some(Ok(seq![single_row("?column?"@, TypeModel::Int4, Datum::Int32(1))]))
    } else if session_value(mode, client, text) is Some {
        let found = session_value(mode, client, text)->0;
        Some(Ok(seq![single_row(found.0, TypeModel::Text, Datum::Text(found.1))]))
    } else if begins(text, "set "@) {
        if noop_set(text) {
            Some(Ok(seq![empty_response()]))
        } else {
            Some(
                Err(unsupported_report("session parameter is not supported yet: "@ + sql)),
            )
        }
    } else if (contains_text(text, "pg_class"@) || contains_text(text, "information_schema"@)) && !(
    names_pg_catalog(text) || names_information_schema(text)) {
        Some(Ok(seq![empty_response()]))
    } else {
        None
    }
}

/// The answer to a statement that needs no plan.
pub fn spoofed_response(mode: GatewayMode, client: &ClientState, sql: &str) -> (answer: Option<
    Result<Vec<Response>, UserError>,
>)
    ensures
        seen_answer(answer) == spoofed(mode, client@, sql@),
{
    let stripped = strip_pg_catalog_function_qualifiers(sql);
    let trimmed = trim_text(stripped.as_str());
    let text = lower_text(trimmed.as_str());
    if is_one_of(text.as_str(), "select 1", "select 1;") {
        return Some(single_int4_row_response("?column?", 1));
    }
    if let Some((column, value)) = value_for_session(mode, client, text.as_str()) {
        return Some(single_text_row_response(column.as_str(), value.as_str()));
    }
    let chars = chars_of(text.as_str());
    let chars = chars.as_slice();
    if begins_with(chars, "set ") {
        if is_supported_noop_set(chars) {
            return Some(Ok(one_empty_response()));
        }
        let message = two_texts("session parameter is not supported yet: ", sql);
        return Some(Err(unsupported(message.as_str())));
    }
    if (has_text(chars, "pg_class") || has_text(chars, "information_schema")) && !(
    has_pg_catalog_name(chars) || has_information_schema_name(chars)) {
        return Some(Ok(one_empty_response()));
    }
    None
}

fn one_empty_response() -> (responses: Vec<Response>)
    ensures
        views(responses@) == seq![empty_response()],
{
    let mut responses: Vec<Response> = Vec::new();
    responses.push(empty_query_response());
    assert(views(responses@) =~= seq![empty_response()]);
    responses
}

/// Capitals and the white space around a statement do not change the answer that it gets.
pub proof fn law_spacing_and_capitals_do_not_matter(
    mode: GatewayMode,
    client: ClientModel,
    first: Seq<char>,
    second: Seq<char>,
)
    requires
        lower(trim(without_qualifiers(first))) == lower(trim(without_qualifiers(second))),
        spoofed(mode, client, first) matches Some(Ok(_)),
    ensures
        spoofed(mode, client, first) == spoofed(mode, client, second),
{
}

/// Whether a query asks for the list of databases, as a command line client does.
pub open spec fn asks_for_databases(text: Seq<char>) -> bool {
    contains_text(text, "from pg_catalog.pg_database"@) && contains_text(text, "pg_get_userbyid"@)
        && contains_text(text, "pg_encoding_to_char"@)
}

/// Whether a query asks for the list of tables, as a command line client does.
pub open spec fn asks_for_tables(text: Seq<char>) -> bool {
    contains_text(text, "from pg_catalog.pg_class c"@) && contains_text(
        text,
        "pg_catalog.pg_namespace n"@,
    ) && contains_text(text, "pg_catalog.pg_get_userbyid(c.relowner)"@) && contains_text(
        text,
        "case c.relkind"@,
    )
}

/// The names of the columns of the list of databases.
pub open spec fn database_headings() -> Seq<Seq<char>> {
    seq![
        "Name"@,
        "Owner"@,
        "Encoding"@,
        "Collate"@,
        "Ctype"@,
        "ICU Locale"@,
        "Locale Provider"@,
        "Access privileges"@,
    ]
}

/// The line of a database in the list of databases.
pub open spec fn database_line(database: DatabaseModel, owner: Seq<char>) -> Seq<
    Option<Seq<char>>,
> {
    seq![
        Some(database.database_name),
        Some(owner),
        Some("UTF8"@),
        Some("C.UTF-8"@),
        Some("C.UTF-8"@),
        None,
        Some("libc"@),
        None,
    ]
}

/// The names of the columns of the list of tables.
pub open spec fn table_headings() -> Seq<Seq<char>> {
    seq!["Schema"@, "Name"@, "Type"@, "Owner"@]
}

/// The line of a table in the list of tables.
pub open spec fn table_line(table: TableEntry, owner: Seq<char>) -> Seq<Option<Seq<char>>> {
    seq![Some(table.schema_name), Some(table.table_name), Some("table"@), Some(owner)]
}

/// The answer to a query for a list of databases or of tables.
pub open spec fn catalog_answer(contents: Contents, client: ClientModel, sql: Seq<char>) -> Option<
    Result<Seq<ResponseModel>, Report>,
> {
    let text = normalized_sql(sql);
    let owner = user_of(client);
    if asks_for_databases(text) {
        match databases_listed(contents) {
            Err(e) => Some(Err(e)),
            Ok(databases) => Some(
                Ok(
                    seq![
                        text_rows(
                            database_headings(),
                            databases.map_values(
                                |database: DatabaseModel| database_line(database, owner),
                            ),
                        ),
                    ],
                ),
            ),
        }
    } else if asks_for_tables(text) {
        match tables_listed(contents, scope_of(client).database_name) {
            Err(e) => Some(Err(e)),
            Ok(tables) => Some(
                Ok(
                    seq![
                        text_rows(
                            table_headings(),
                            tables.map_values(|table: TableEntry| table_line(table, owner)),
                        ),
                    ],
                ),
            ),
        }
    } else {
        None
    }
}

fn text_of(text: &str) -> (cell: Option<String>)
    ensures
        option_view(cell) == Some(text@),
{
    Some(text.to_string())
}

fn database_rows(databases: &Vec<DatabaseCatalog>, owner: &str) -> (rows: Vec<TextRow>)
    ensures
        views(rows@) == views(databases@).map_values(
            |database: DatabaseModel| database_line(database, owner@),
        ),
{
    let ghost lines = views(databases@).map_values(
        |database: DatabaseModel| database_line(database, owner@),
    );
    let mut rows: Vec<TextRow> = Vec::new();
    let mut i: usize = 0;
    while i < databases.len()
        invariant
            i <= databases@.len(),
            lines == views(databases@).map_values(
                |database: DatabaseModel| database_line(database, owner@),
            ),
            rows@.len() == i,
            forall|k: int| 0 <= k < i ==> (#[trigger] rows@[k])@ == lines[k],
        decreases databases@.len() - i,
    {
        let mut cells: Vec<Option<String>> = Vec::new();
        cells.push(text_of(databases[i].database_name.as_str()));
        cells.push(text_of(owner));
        cells.push(text_of("UTF8"));
        cells.push(text_of("C.UTF-8"));
        cells.push(text_of("C.UTF-8"));
        cells.push(None);
        cells.push(text_of("libc"));
        cells.push(None);
        assert(cell_texts(cells@) =~= lines[i as int]);
        rows.push(TextRow { cells });
        i += 1;
    }
    assert(views(rows@) =~= lines);
    rows
}

fn table_rows(tables: &Vec<TableCatalog>, owner: &str) -> (rows: Vec<TextRow>)
    ensures
        views(rows@) == views(tables@).map_values(|table: TableEntry| table_line(table, owner@)),
{
    let ghost lines = views(tables@).map_values(|table: TableEntry| table_line(table, owner@));
    let mut rows: Vec<TextRow> = Vec::new();
    let mut i: usize = 0;
    while i < tables.len()
        invariant
            i <= tables@.len(),
            lines == views(tables@).map_values(|table: TableEntry| table_line(table, owner@)),
            rows@.len() == i,
            forall|k: int| 0 <= k < i ==> (#[trigger] rows@[k])@ == lines[k],
        decreases tables@.len() - i,
    {
        let mut cells: Vec<Option<String>> = Vec::new();
        cells.push(text_of(tables[i].schema_name.as_str()));
        cells.push(text_of(tables[i].table_name.as_str()));
        cells.push(text_of("table"));
        cells.push(text_of(owner));
        assert(cell_texts(cells@) =~= lines[i as int]);
        rows.push(TextRow { cells });
        i += 1;
    }
    assert(views(rows@) =~= lines);
    rows
}

impl<S: KvStore> GatewayServer<S> {
    /// The answer to a query for a list of databases or of tables.
    pub fn catalog_query_response(&mut self, client: &ClientState, sql: &str) -> (answer: Option<
        Result<Vec<Response>, UserError>,
    >)
        ensures
            final(self).reliable() == old(self).reliable(),
            final(self).same_sessions(old(self)),
            (answer matches Some(result) ==> not_internal(result)) || old(self).reliable()
                ==> only_opened(old(self).contents(), final(self).contents()) && seen_answer(answer)
                == catalog_answer(bootstrapped(old(self).contents()), client@, sql@),
    {
        proof {
            law_bootstrap_is_stable(self.contents());
        }
        let text = normalize_sql_whitespace(sql);
        let chars = chars_of(text.as_str());
        let chars = chars.as_slice();
        let owner = client_user(client);
        if has_text(chars, "from pg_catalog.pg_database") && has_text(chars, "pg_get_userbyid")
            && has_text(chars, "pg_encoding_to_char") {
            let databases = match self.catalog.list_databases() {
                Err(e) => {
                    return Some(Err(e));
                },
                Ok(databases) => databases,
            };
            let headings = vec![
                "Name".to_string(),
                "Owner".to_string(),
                "Encoding".to_string(),
                "Collate".to_string(),
                "Ctype".to_string(),
                "ICU Locale".to_string(),
                "Locale Provider".to_string(),
                "Access privileges".to_string(),
            ];
            assert(views(headings@) =~= database_headings());
            let rows = database_rows(&databases, owner.as_str());
            return Some(multi_text_row_response(&headings, &rows));
        }
        if has_text(chars, "from pg_catalog.pg_class c") && has_text(
            chars,
            "pg_catalog.pg_namespace n",
        ) && has_text(chars, "pg_catalog.pg_get_userbyid(c.relowner)") && has_text(
            chars,
            "case c.relkind",
        ) {
            let session = session_catalog(client);
            let tables = match self.catalog.list_tables(session.database_name.as_str()) {
                Err(e) => {
                    return Some(Err(e));
                },
                Ok(tables) => tables,
            };
            let headings = vec![
                "Schema".to_string(),
                "Name".to_string(),
                "Type".to_string(),
                "Owner".to_string(),
            ];
            assert(views(headings@) =~= table_headings());
            let rows = table_rows(&tables, owner.as_str());
            return Some(multi_text_row_response(&headings, &rows));
        }
        None
    }
}

} // verus!
