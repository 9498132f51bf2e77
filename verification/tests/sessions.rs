use pg_gateway::error::{user_error, UserError};
use pg_gateway::execution::{ExecutionEngine, GatewayFactory};
use pg_gateway::mem_store::MemoryKvStore;
use pg_gateway::mode::GatewayMode;
use pg_gateway::response::{command_complete, Response};
use pg_gateway::server::command_steps::CommandStep;
use pg_gateway::server::commands::{
    parse_mysql_autocommit_assignment, parse_mysql_kill_target, parse_nextval_query,
    parse_savepoint_identifier, session_command, SessionCommand,
};
use pg_gateway::server::gateway::GatewayServer;
use pg_gateway::server::plan::QueryPlan;
use pg_gateway::server::query_flow::{
    after_planning, handle_transaction_statement, is_mysql_ddl_implicit_commit_statement,
    is_mysql_locking_read_statement, is_write_plan, needs_implicit_transaction,
    normalize_sql_whitespace, vacuum_analyze_table_name, vacuum_step, PlannedStep, StatementKind,
    TransactionAction, VacuumStep,
};
use pg_gateway::server::query_run::{
    entry_step, EntryStatement, EntryStep, QueryRun, RunStep,
};
use pg_gateway::server::session::{
    default_transaction_isolation, mysql_autocommit_disabled, parse_search_path,
    parse_transaction_isolation, session_catalog, BeginStep, ClientState, EndStep,
    TransactionIsolation, TransactionStatus,
};
use pg_gateway::server::startup::{
    check_password, is_offered_mechanism, single_response, startup_step, GatewayAuthMethod,
    StartupStep,
};

fn chars(text: &str) -> Vec<char> {
    text.chars().collect()
}

fn failed<T>(result: Result<T, UserError>) -> UserError {
    match result {
        Ok(_) => panic!("the call went through"),
        Err(error) => error,
    }
}

fn server(mode: GatewayMode) -> GatewayServer<MemoryKvStore> {
    GatewayServer::with_mode(MemoryKvStore::new(), mode)
}

fn tag(response: &Response) -> String {
    match response {
        Response::Execution { tag, .. } => tag.clone(),
        Response::Query { .. } => panic!("rows came back"),
    }
}

#[test]
fn a_session_starts_in_the_default_schema() {
    let client = ClientState::new(1);
    let session = session_catalog(&client);
    assert_eq!(session.database_name, "defaultdb");
    assert_eq!(session.schema_name, "public");
    assert_eq!(session.search_path, vec!["public"]);
}

#[test]
fn a_search_path_is_split_into_schemas() {
    assert_eq!(parse_search_path("\"App\", public"), vec!["App", "public"]);
    let mut client = ClientState::new(1);
    client.set_search_path("app", "app, public");
    let session = session_catalog(&client);
    assert_eq!(session.schema_name, "app");
    assert_eq!(session.search_path, vec!["app", "public"]);
    client.set_session_schema("other");
    assert_eq!(session_catalog(&client).schema_name, "other");
}

#[test]
fn isolation_levels_have_names() {
    assert_eq!(
        parse_transaction_isolation("read committed"),
        Some(TransactionIsolation::ReadCommitted)
    );
    assert_eq!(
        parse_transaction_isolation("SERIALIZABLE"),
        Some(TransactionIsolation::Serializable)
    );
    assert_eq!(parse_transaction_isolation("none"), None);
    assert_eq!(TransactionIsolation::RepeatableRead.as_pg_str(), "repeatable read");
    assert_eq!(
        default_transaction_isolation(GatewayMode::Postgres),
        TransactionIsolation::ReadCommitted
    );
    assert_eq!(
        default_transaction_isolation(GatewayMode::MySql),
        TransactionIsolation::RepeatableRead
    );
}

#[test]
fn autocommit_can_be_switched_off() {
    let mut client = ClientState::new(1);
    assert!(!mysql_autocommit_disabled(GatewayMode::MySql, &client));
    client.set_autocommit(false);
    assert!(mysql_autocommit_disabled(GatewayMode::MySql, &client));
    assert!(!mysql_autocommit_disabled(GatewayMode::Postgres, &client));
    client.set_autocommit(true);
    assert!(!mysql_autocommit_disabled(GatewayMode::MySql, &client));
}

#[test]
fn a_transaction_is_opened_once() {
    let mut server = server(GatewayMode::Postgres);
    let mut client = ClientState::new(4);
    assert!(matches!(
        server.begin_session_transaction(&mut client, false),
        BeginStep::Open
    ));
    server.transaction_opened(&mut client, None, false, 17);
    assert!(server.has_active_transaction(4));
    assert!(!server.is_active_transaction_read_only(4));
    assert!(matches!(client.status, TransactionStatus::Transaction));
    assert!(matches!(
        server.begin_session_transaction(&mut client, false),
        BeginStep::Joined
    ));
    assert!(server.end_session_transaction(4));
    assert!(!server.has_active_transaction(4));
    assert!(!server.end_session_transaction(4));
    assert!(matches!(server.finish_commit(&mut client, Ok(())), Ok(EndStep::Done)));
    assert!(matches!(client.status, TransactionStatus::Idle));
}

#[test]
fn a_transaction_may_be_read_only() {
    let mut server = server(GatewayMode::Postgres);
    let mut client = ClientState::new(4);
    server.begin_session_transaction(&mut client, true);
    server.transaction_opened(&mut client, Some(TransactionIsolation::Serializable), true, 3);
    assert!(server.is_active_transaction_read_only(4));
    assert_eq!(
        server.sessions.isolations.get(&4),
        Some(&TransactionIsolation::Serializable)
    );
}

#[test]
fn a_new_transaction_of_a_mysql_session_commits_the_open_one() {
    let mut server = server(GatewayMode::MySql);
    let mut client = ClientState::new(4);
    server.begin_session_transaction(&mut client, false);
    server.transaction_opened(&mut client, None, false, 3);
    assert!(matches!(
        server.begin_session_transaction(&mut client, false),
        BeginStep::CommitFirst
    ));
}

#[test]
fn a_commit_that_fails_is_reported() {
    let mut server = server(GatewayMode::Postgres);
    let mut client = ClientState::new(4);
    server.begin_session_transaction(&mut client, false);
    server.transaction_opened(&mut client, None, false, 3);
    server.end_session_transaction(4);
    let error = failed(server.finish_commit(&mut client, Err("conflict".to_string())));
    assert_eq!(error.message, "conflict");
    assert!(matches!(server.finish_rollback(&mut client, Ok(())), Ok(EndStep::Done)));
}

#[test]
fn a_cancelled_session_stops_once() {
    let mut server = server(GatewayMode::Postgres);
    assert!(server.check_cancelled(2).is_ok());
    server.mark_cancelled(2);
    assert!(server.check_cancelled(3).is_ok());
    let error = failed(server.check_cancelled(2));
    assert_eq!(error.code, "57014");
    assert!(server.check_cancelled(2).is_ok());
}

#[test]
fn commands_are_read() {
    assert!(matches!(
        session_command("BEGIN READ ONLY"),
        Ok(Some(SessionCommand::Begin { isolation: None, read_only: true }))
    ));
    assert!(matches!(session_command("commit;"), Ok(Some(SessionCommand::Commit))));
    assert!(matches!(session_command("ROLLBACK"), Ok(Some(SessionCommand::Rollback))));
    assert!(matches!(
        session_command("SAVEPOINT a"),
        Ok(Some(SessionCommand::Savepoint { name })) if name == "a"
    ));
    assert!(matches!(
        session_command("ROLLBACK TO SAVEPOINT a"),
        Ok(Some(SessionCommand::RollbackTo { name })) if name == "a"
    ));
    assert!(matches!(
        session_command("RELEASE SAVEPOINT a"),
        Ok(Some(SessionCommand::Release { name })) if name == "a"
    ));
    assert!(matches!(
        session_command("SET autocommit = 0"),
        Ok(Some(SessionCommand::Autocommit { enabled: false }))
    ));
    assert!(matches!(
        session_command("SET innodb_lock_wait_timeout = 9"),
        Ok(Some(SessionCommand::LockWaitTimeout { seconds: 9 }))
    ));
    assert!(matches!(
        session_command("SET search_path TO app, public"),
        Ok(Some(SessionCommand::SearchPath { schemas, .. })) if schemas == vec!["app", "public"]
    ));
    assert!(matches!(
        session_command("select nextval('s')"),
        Ok(Some(SessionCommand::NextValue { sequence })) if sequence == "s"
    ));
    assert!(matches!(session_command("select 1"), Ok(None)));
}

#[test]
fn parts_of_commands_are_read() {
    assert_eq!(parse_mysql_kill_target(&chars("KILL 12")), Some(12));
    assert_eq!(parse_mysql_kill_target(&chars("KILL QUERY 13;")), Some(13));
    assert_eq!(parse_mysql_kill_target(&chars("select 1")), None);
    assert_eq!(
        parse_nextval_query(&chars("select nextval('a.b')")),
        Some("a.b".to_string())
    );
    assert_eq!(parse_savepoint_identifier(&chars(" sp1 ")).unwrap(), "sp1");
    assert!(parse_savepoint_identifier(&chars("")).is_err());
    assert_eq!(
        parse_mysql_autocommit_assignment(&chars("set autocommit = 1")),
        Some("1".to_string())
    );
}

#[test]
fn a_command_is_answered_or_handed_on() {
    let mut server = server(GatewayMode::Postgres);
    let mut client = ClientState::new(1);
    assert!(matches!(
        server.handle_session_command(&mut client, "BEGIN"),
        Ok(Some(CommandStep::Begin { .. }))
    ));
    assert!(matches!(
        server.handle_session_command(&mut client, "COMMIT"),
        Ok(Some(CommandStep::Commit { .. }))
    ));
    assert!(matches!(
        server.handle_session_command(&mut client, "select 1"),
        Ok(None)
    ));
    match server.handle_session_command(&mut client, "SET search_path TO public") {
        Ok(Some(CommandStep::Answer { response })) => {
            assert!(matches!(response, Response::Query { rows, .. } if rows.is_empty()))
        }
        _ => panic!("the search path was not set"),
    }
    let error = failed(server.handle_session_command(&mut client, "SET search_path TO nowhere"));
    assert_eq!(error.code, "3F000");
}

#[test]
fn statements_that_control_transactions_are_told_apart() {
    assert!(matches!(
        handle_transaction_statement(&StatementKind::StartTransaction),
        Some(TransactionAction::Begin)
    ));
    assert!(matches!(
        handle_transaction_statement(&StatementKind::Rollback(Some("a".to_string()))),
        Some(TransactionAction::RollbackTo(name)) if name == "a"
    ));
    assert!(handle_transaction_statement(&StatementKind::Other).is_none());
    let two = vec![StatementKind::Other, StatementKind::Other];
    assert!(needs_implicit_transaction(&two, false));
    assert!(!needs_implicit_transaction(&two, true));
    assert!(!needs_implicit_transaction(&vec![StatementKind::Other], false));
    let own = vec![StatementKind::StartTransaction, StatementKind::Other];
    assert!(!needs_implicit_transaction(&own, false));
}

fn noop() -> QueryPlan {
    QueryPlan::Noop { tag: "OK".to_string() }
}

fn creation() -> QueryPlan {
    QueryPlan::CreateDatabase { database_name: "d".to_string(), if_not_exists: false }
}

#[test]
fn a_read_only_transaction_refuses_writes() {
    assert!(!is_write_plan(&noop()));
    assert!(is_write_plan(&creation()));
    match after_planning(
        GatewayMode::Postgres,
        &StatementKind::CreateDatabase,
        Ok(creation()),
        true,
        true,
        false,
    ) {
        PlannedStep::Fail { error, .. } => assert_eq!(error.code, "25006"),
        _ => panic!("the write was let through"),
    }
    assert!(matches!(
        after_planning(
            GatewayMode::Postgres,
            &StatementKind::Other,
            Ok(noop()),
            false,
            false,
            false
        ),
        PlannedStep::Run { .. }
    ));
}

#[test]
fn statements_on_objects_commit_by_themselves() {
    let defining = [
        StatementKind::CreateDatabase,
        StatementKind::CreateSchema,
        StatementKind::CreateTable,
        StatementKind::CreateSequence,
        StatementKind::CreateView,
        StatementKind::AlterTable,
        StatementKind::CreateIndex,
        StatementKind::Drop,
        StatementKind::Truncate,
        StatementKind::Analyze,
        StatementKind::OptimizeTable,
    ];
    assert!(defining.iter().all(is_mysql_ddl_implicit_commit_statement));
    let others = [
        StatementKind::Commit,
        StatementKind::Query { has_locks: true, has_for_clause: false },
        StatementKind::Other,
    ];
    assert!(!others.iter().any(is_mysql_ddl_implicit_commit_statement));
    let query = |has_locks: bool, has_for_clause: bool| {
        is_mysql_locking_read_statement(&StatementKind::Query { has_locks, has_for_clause })
    };
    assert!(query(true, false) && query(false, true) && !query(false, false));
    assert!(!is_mysql_locking_read_statement(&StatementKind::Drop));
}

#[test]
fn what_has_no_plan_goes_the_general_way() {
    assert!(matches!(
        after_planning(
            GatewayMode::Postgres,
            &StatementKind::Query { has_locks: false, has_for_clause: false },
            Err(user_error("0A000", "not here")),
            false,
            false,
            false
        ),
        PlannedStep::General
    ));
    match after_planning(
        GatewayMode::Postgres,
        &StatementKind::Other,
        Err(user_error("42P01", "no table")),
        true,
        false,
        true,
    ) {
        PlannedStep::Fail { error, roll_back, .. } => {
            assert_eq!(error.message, "no table");
            assert!(roll_back);
        }
        _ => panic!("the error was lost"),
    }
}

#[test]
fn vacuum_statements_are_told_apart() {
    assert!(matches!(vacuum_step(GatewayMode::Postgres, "select 1"), VacuumStep::NotVacuum));
    assert!(matches!(vacuum_step(GatewayMode::Postgres, "VACUUM"), VacuumStep::Done));
    assert!(matches!(
        vacuum_step(GatewayMode::Postgres, "VACUUM ANALYZE t"),
        VacuumStep::Analyze(Some(name)) if name == "t"
    ));
    assert_eq!(vacuum_analyze_table_name("vacuum analyze"), None);
    assert_eq!(normalize_sql_whitespace(" a \n\t b "), "a b");
}

#[test]
fn every_statement_of_a_query_is_answered() {
    let kinds = vec![StatementKind::Other, StatementKind::Other];
    let mut run = QueryRun::start(GatewayMode::Postgres, kinds, false);
    assert!(run.implicit);
    assert!(matches!(run.next_step(), RunStep::Statement { number: 0 }));
    let step = run.statement_step(true);
    assert!(!step.commit_first);
    assert!(step.transaction.is_none());
    run.answer(command_complete("ONE"));
    assert!(matches!(run.next_step(), RunStep::Statement { number: 1 }));
    assert!(run.executed(Ok(command_complete("TWO"))).is_ok());
    assert!(matches!(run.next_step(), RunStep::Commit | RunStep::Done));
    let responses = run.finish();
    assert_eq!(responses.len(), 2);
    assert_eq!(tag(&responses[0]), "ONE");
    assert_eq!(tag(&responses[1]), "TWO");
}

#[test]
fn a_copy_stands_alone() {
    assert!(matches!(
        entry_step(&vec![EntryStatement::CopyIn { has_values: false }]),
        Ok(EntryStep::Copy)
    ));
    let error = failed(entry_step(&vec![EntryStatement::CopyIn { has_values: true }]));
    assert_eq!(error.code, "0A000");
    assert_eq!(error.message, "COPY FROM STDIN VALUES is not supported yet");
    assert!(matches!(entry_step(&vec![EntryStatement::Prepare]), Ok(EntryStep::Prepare)));
    assert!(matches!(
        entry_step(&vec![EntryStatement::Other, EntryStatement::Other]),
        Ok(EntryStep::Run)
    ));
}

#[test]
fn a_client_shows_who_it_is() {
    assert!(matches!(startup_step(GatewayAuthMethod::Trust), StartupStep::Finish));
    assert!(matches!(
        startup_step(GatewayAuthMethod::Cleartext),
        StartupStep::AskPassword
    ));
    assert!(matches!(startup_step(GatewayAuthMethod::Md5), StartupStep::AskDigest));
    assert!(matches!(startup_step(GatewayAuthMethod::Scram), StartupStep::AskSasl));
    let user = Some("ann".to_string());
    assert!(check_password("x", &Some("x".to_string()), &user).is_ok());
    assert!(check_password("y", &Some("x".to_string()), &user).is_err());
    assert!(check_password("x", &None, &user).is_err());
    assert!(is_offered_mechanism("SCRAM-SHA-256"));
    assert!(!is_offered_mechanism("PLAIN"));
}

#[test]
fn one_answer_is_expected_of_a_portal() {
    assert_eq!(tag(&single_response(vec![command_complete("A")]).unwrap()), "A");
    assert!(single_response(vec![command_complete("A"), command_complete("B")]).is_err());
}

#[test]
fn the_database_of_a_session_has_to_be_there() {
    let mut server = server(GatewayMode::Postgres);
    assert_eq!(server.resolve_startup_database(None, &None).unwrap(), "defaultdb");
    let error = failed(server.resolve_startup_database(Some("nowhere".to_string()), &None));
    assert_eq!(error.code, "3D000");
    let mut client = ClientState::new(1);
    client.database = Some("defaultdb".to_string());
    server.post_startup(&mut client).unwrap();
    assert_eq!(session_catalog(&client).database_name, "defaultdb");
    assert!(server
        .check_search_path("defaultdb", &vec!["public".to_string()])
        .is_ok());
}

#[test]
fn an_engine_serves_its_mode() {
    let engine = ExecutionEngine::new(MemoryKvStore::new());
    assert!(matches!(engine.server.mode, GatewayMode::Postgres));
    let engine = ExecutionEngine::with_mode(MemoryKvStore::new(), GatewayMode::MySql);
    assert!(matches!(engine.into_server().mode, GatewayMode::MySql));
    let factory = GatewayFactory::new(MemoryKvStore::new(), GatewayMode::MySql);
    assert!(matches!(factory.handler.mode, GatewayMode::MySql));
}
