use pg_gateway::catalog::types::{IndexCatalog, ViewCatalog};
use pg_gateway::error::UserError;
use pg_gateway::mem_store::MemoryKvStore;
use pg_gateway::mode::GatewayMode;
use pg_gateway::names::{object_name_to_string, Ident, ObjectName, ObjectNamePart, QuoteStyle};
use pg_gateway::response::{FieldFormat, Response};
use pg_gateway::schema::{ColumnSchema, TableSchema, UniqueConstraintSchema};
use pg_gateway::server::gateway::GatewayServer;
use pg_gateway::server::literals::{
    explain_values, postgres_explain_hex, postgres_explain_value, quote_sql_literal, FloatText,
};
use pg_gateway::server::mysql_metadata::{
    mysql_column_extra, mysql_create_statement, mysql_describe_columns, mysql_escape_identifier,
};
use pg_gateway::server::placeholders::{
    dollar_quote_tag_len, replace_pg_parameter_placeholders,
};
use pg_gateway::server::prepared::{
    bind_portal_sql, placeholder_defaults, portal_result_format, render_binary_parameter,
    render_execute_parameter, render_portal_parameter, render_text_parameter, BinaryValue,
    ExecuteParameter, ParameterType, PortalParameter, PreparedSqlExecution, PreparedStatements,
    ResultFormat,
};
use pg_gateway::server::qualify::{
    is_pg_catalog_relation_name, statement_table_names, JoinTree, QueryTree, SetTree,
    StatementTree, TableTree,
};
use pg_gateway::server::session::ClientState;
use pg_gateway::server::slow_path::{
    arrow_type_to_gateway_type, datafusion_rows_for_schema, expand_views,
    replace_relation_after_keyword, ArrowType, QueryBatch, QueryRow,
};
use pg_gateway::server::spoofed::{
    is_supported_noop_set, spoofed_response, strip_pg_catalog_function_qualifiers,
};
use pg_gateway::types::{ColumnValue, DataType};

fn chars(text: &str) -> Vec<char> {
    text.chars().collect()
}

fn failed<T>(result: Result<T, UserError>) -> UserError {
    match result {
        Ok(_) => panic!("the call went through"),
        Err(error) => error,
    }
}

fn column(name: &str, data_type: DataType, primary_key: bool) -> ColumnSchema {
    ColumnSchema {
        column_id: 0,
        name: name.to_string(),
        data_type,
        primary_key,
        nullable: !primary_key,
        default: None,
        on_update: None,
        character_set: None,
        collation: None,
    }
}

fn table() -> TableSchema {
    TableSchema {
        table_name: "t".to_string(),
        table_id: 4,
        schema_version: 1,
        table_epoch: 1,
        primary_key: "id".to_string(),
        check_constraints: Vec::new(),
        unique_constraints: Vec::new(),
        foreign_keys: Vec::new(),
        columns: vec![
            column("id", DataType::Int32, true),
            column("name", DataType::Text, false),
        ],
    }
}

fn name(text: &str) -> ObjectName {
    ObjectName(
        text.split('.')
            .map(|part| {
                ObjectNamePart::Identifier(Ident {
                    value: part.to_string(),
                    quote_style: QuoteStyle::Bare,
                })
            })
            .collect(),
    )
}

#[test]
fn literals_are_quoted() {
    assert_eq!(quote_sql_literal("it's"), "'it''s'");
    assert_eq!(postgres_explain_hex(&vec![0, 171]), "00ab");
    assert_eq!(postgres_explain_value(&ColumnValue::Null, &vec![]), "NULL");
    assert_eq!(postgres_explain_value(&ColumnValue::Int32(-3), &vec![]), "-3");
    assert_eq!(postgres_explain_value(&ColumnValue::Boolean(true), &vec![]), "true");
    assert_eq!(
        postgres_explain_value(&ColumnValue::Bytea(vec![16]), &vec![]),
        "'\\x10'"
    );
    let bits = 1.5f64.to_bits();
    let floats = vec![FloatText { bits, single: false, text: "1.5".to_string() }];
    assert_eq!(postgres_explain_value(&ColumnValue::Float64(bits), &floats), "1.5");
    assert_eq!(
        explain_values(&vec![ColumnValue::Int16(1), ColumnValue::Int16(2)], &vec![]),
        "1, 2"
    );
}

#[test]
fn parameters_are_put_in_their_places() {
    let values = vec!["1".to_string(), "'x'".to_string()];
    assert_eq!(
        replace_pg_parameter_placeholders("select $1, $2, $10, $1", &values),
        "select 1, 'x', $10, 1"
    );
    assert_eq!(
        replace_pg_parameter_placeholders("select '$1', \"$1\" -- $1\n, $1", &values),
        "select '$1', \"$1\" -- $1\n, 1"
    );
    assert_eq!(
        replace_pg_parameter_placeholders("select $tag$ $1 $tag$, $2 /* $1 */", &values),
        "select $tag$ $1 $tag$, 'x' /* $1 */"
    );
    assert_eq!(
        replace_pg_parameter_placeholders("select $1, 'it''s $1 -- /* $2' , $2", &values),
        "select 1, 'it''s $1 -- /* $2' , 'x'"
    );
    assert_eq!(dollar_quote_tag_len(&chars("$a$"), 0), Some(3));
    assert_eq!(dollar_quote_tag_len(&chars("$1"), 0), None);
}

#[test]
fn parameters_are_written_as_literals() {
    assert_eq!(
        render_text_parameter(&b"7".to_vec(), ParameterType::Int4).unwrap(),
        "7"
    );
    assert_eq!(
        render_text_parameter(&b"it's".to_vec(), ParameterType::Other).unwrap(),
        "'it''s'"
    );
    let error = failed(render_text_parameter(&vec![0xc3], ParameterType::Other));
    assert_eq!(error.code, "22021");
    assert_eq!(render_binary_parameter(&BinaryValue::Null), "NULL");
    assert_eq!(render_binary_parameter(&BinaryValue::Integer(-2)), "-2");
    assert_eq!(render_binary_parameter(&BinaryValue::Text("a".to_string())), "'a'");
    let error = failed(render_portal_parameter(&vec![], &vec![], 0));
    assert_eq!(error.code, "08P01");
    let sql = bind_portal_sql(
        "select $1, $2",
        &vec![PortalParameter::Null, PortalParameter::Text(b"x".to_vec())],
        &vec![None, None],
    )
    .unwrap();
    assert_eq!(sql, "select NULL, 'x'");
    assert!(matches!(
        portal_result_format(&ResultFormat::UnifiedBinary),
        FieldFormat::Binary
    ));
    assert_eq!(
        placeholder_defaults(&vec![Some(ParameterType::Int4), None]).len(),
        2
    );
}

#[test]
fn prepared_statements_are_kept_by_session_and_name() {
    let mut statements = PreparedStatements::new();
    statements.prepare_sql_statement(1, "p", "select $1");
    let given = vec![ExecuteParameter::Quoted("a".to_string())];
    match statements.prepare_sql_execution(1, "p", &given) {
        Ok(PreparedSqlExecution::Sql(sql)) => assert_eq!(sql, "select 'a'"),
        Ok(PreparedSqlExecution::Statement(sql)) => assert_eq!(sql, "select 'a'"),
        Err(error) => panic!("{}", error.message),
    }
    let error = failed(statements.prepare_sql_execution(2, "p", &vec![]));
    assert_eq!(error.code, "26000");
    statements.deallocate_sql_statement(1, "p");
    assert!(statements.prepare_sql_execution(1, "p", &vec![]).is_err());
    assert_eq!(render_execute_parameter(&ExecuteParameter::Null), "NULL");
}

#[test]
fn some_statements_are_answered_from_memory() {
    let mut client = ClientState::new(1);
    client.user = Some("ann".to_string());
    let answer = spoofed_response(GatewayMode::Postgres, &client, " SELECT Version(); ");
    match answer {
        Some(Ok(responses)) => match &responses[0] {
            Response::Query { fields, rows } => {
                assert_eq!(fields[0].name, "version");
                assert_eq!(
                    rows[0].cells.as_ref().unwrap()[0],
                    ColumnValue::Text("PostgreSQL 14.0 (pg_gateway)".to_string())
                );
            }
            _ => panic!("no rows came back"),
        },
        _ => panic!("the version was not told"),
    }
    assert!(spoofed_response(GatewayMode::Postgres, &client, "select a from b").is_none());
    assert!(is_supported_noop_set(&chars("set timezone = 'utc'")));
    assert!(!is_supported_noop_set(&chars("set other = 1")));
}

#[test]
fn qualifiers_of_calls_are_dropped() {
    assert_eq!(
        strip_pg_catalog_function_qualifiers("select pg_catalog.now(), pg_catalog.pg_class.x"),
        "select now(), pg_catalog.pg_class.x"
    );
    assert_eq!(strip_pg_catalog_function_qualifiers("select now()"), "select now()");
}

#[test]
fn views_stand_in_for_their_queries() {
    assert_eq!(
        replace_relation_after_keyword("select * FROM v where v.a", "from", "v", "(q) AS v"),
        "select * FROM (q) AS v where v.a"
    );
    assert_eq!(
        replace_relation_after_keyword("select * from vx", "from", "v", "(q) AS v"),
        "select * from vx"
    );
    let views = vec![ViewCatalog {
        view_id: 1,
        database_id: 1,
        schema_id: 1,
        schema_name: "public".to_string(),
        view_name: "v".to_string(),
        definition: "select 1".to_string(),
    }];
    assert_eq!(
        expand_views("select * from v join public.v", &views),
        "select * from (select 1) AS v join (select 1) AS v"
    );
}

#[test]
fn arrow_types_have_column_types() {
    assert!(matches!(arrow_type_to_gateway_type(ArrowType::UInt8), DataType::Int32));
    assert!(matches!(arrow_type_to_gateway_type(ArrowType::UInt32), DataType::Int64));
    assert!(matches!(arrow_type_to_gateway_type(ArrowType::Date64), DataType::Date));
    assert!(matches!(arrow_type_to_gateway_type(ArrowType::Other), DataType::Text));
}

#[test]
fn rows_of_a_query_fill_a_table() {
    let batch = QueryBatch {
        width: 1,
        rows: vec![QueryRow { values: vec![Ok(ColumnValue::Int32(5))] }],
    };
    let defaults = vec![Ok(ColumnValue::Null), Ok(ColumnValue::Text("d".to_string()))];
    let rows =
        datafusion_rows_for_schema(&vec![batch], &table(), &vec!["id".to_string()], &defaults)
            .unwrap();
    assert_eq!(rows[0].value_or_null("id"), ColumnValue::Int32(5));
    assert_eq!(rows[0].value_or_null("name"), ColumnValue::Text("d".to_string()));
    let wide = QueryBatch { width: 2, rows: vec![] };
    let error = failed(datafusion_rows_for_schema(
        &vec![wide],
        &table(),
        &vec!["id".to_string()],
        &defaults,
    ));
    assert_eq!(error.code, "42601");
    assert_eq!(error.message, "INSERT has 1 target columns but query returns 2 columns");
}

#[test]
fn the_tables_of_a_statement_are_found() {
    let inner = QueryTree {
        ctes: vec![],
        body: SetTree::Select {
            from: vec![JoinTree {
                relation: TableTree::Named { name: name("b") },
                joins: vec![],
            }],
        },
    };
    let statement = StatementTree::Query {
        query: QueryTree {
            ctes: vec![],
            body: SetTree::Select {
                from: vec![JoinTree {
                    relation: TableTree::Named { name: name("a") },
                    joins: vec![TableTree::Derived { query: Box::new(inner) }],
                }],
            },
        },
    };
    let found: Vec<String> = statement_table_names(&statement)
        .iter()
        .map(|name| object_name_to_string(name).unwrap())
        .collect();
    assert_eq!(found, vec!["a", "b"]);
    assert!(is_pg_catalog_relation_name("pg_class"));
    assert!(!is_pg_catalog_relation_name("users"));
}

#[test]
fn names_take_the_schema_where_their_table_is() {
    let mut server = GatewayServer::new(MemoryKvStore::new());
    server.catalog.store_table("defaultdb", "public", &table()).unwrap();
    let path = vec!["public".to_string()];
    assert_eq!(
        server
            .qualify_object_name_for_search_path(&name("t"), "defaultdb", &path)
            .unwrap(),
        Some("public.t".to_string())
    );
    assert_eq!(
        server
            .qualify_object_name_for_search_path(&name("public.t"), "defaultdb", &path)
            .unwrap(),
        None
    );
}

fn index() -> IndexCatalog {
    IndexCatalog {
        index_id: 9,
        database_id: 1,
        schema_id: 1,
        table_id: 4,
        schema_name: "public".to_string(),
        table_name: "t".to_string(),
        index_name: "by_name".to_string(),
        column_name: "name".to_string(),
        column_names: vec!["name".to_string()],
        unique: false,
    }
}

#[test]
fn a_table_is_described() {
    let types = vec!["int".to_string(), "text".to_string()];
    let rows = mysql_describe_columns(&table(), &vec![index()], &types);
    assert_eq!(rows[0].field, "id");
    assert_eq!(rows[0].key, "PRI");
    assert_eq!(rows[0].nullable, "NO");
    assert_eq!(rows[1].key, "MUL");
    assert_eq!(rows[1].nullable, "YES");
    assert_eq!(mysql_escape_identifier("a`b"), "a``b");
    let mut stamped = column("at", DataType::Timestamp, false);
    stamped.on_update = Some("CURRENT_TIMESTAMP".to_string());
    assert_eq!(mysql_column_extra(&stamped), "on update CURRENT_TIMESTAMP");
}

#[test]
fn a_table_is_written_as_a_statement() {
    let mut schema = table();
    schema.unique_constraints.push(UniqueConstraintSchema {
        name: "u".to_string(),
        columns: vec!["name".to_string()],
        primary_key: false,
    });
    let types = vec!["int".to_string(), "text".to_string()];
    assert_eq!(
        mysql_create_statement(&schema, &vec![index()], &types),
        "CREATE TABLE `t` (\n  `id` int NOT NULL,\n  `name` text,\n  PRIMARY KEY (`id`),\n  \
         UNIQUE KEY `u` (`name`),\n  KEY `by_name` (`name`)\n) ENGINE=UniDB DEFAULT \
         CHARSET=utf8mb4 COLLATE=utf8mb4_0900_ai_ci"
    );
}

#[test]
fn tables_and_databases_are_listed() {
    let mut server = GatewayServer::with_mode(MemoryKvStore::new(), GatewayMode::MySql);
    server.catalog.store_table("defaultdb", "public", &table()).unwrap();
    assert_eq!(server.mysql_show_tables("defaultdb").unwrap(), vec!["t"]);
    assert!(server
        .mysql_show_databases()
        .unwrap()
        .contains(&"defaultdb".to_string()));
    let (schema, indexes) = server.mysql_describe_table("defaultdb", "t").unwrap();
    assert_eq!(schema.table_name, "t");
    assert!(indexes.is_empty());
    assert!(server.mysql_describe_table("defaultdb", "x").is_err());
}
