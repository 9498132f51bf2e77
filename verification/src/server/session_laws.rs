//! What sessions are for: what a client sets holds for what it does afterwards, transactions are
//! its own, and a statement is run, refused or passed on as its session allows.
use vstd::prelude::*;

use crate::catalog::model::{database_found, schema_found};
use crate::catalog::types::{DEFAULT_DATABASE_NAME, DEFAULT_SCHEMA_NAME};
use crate::error::Report;
use crate::lists::kept_where;
use crate::mem_store::Contents;
use crate::mode::GatewayMode;
use crate::server::command_steps::{command_taken, StepModel};
use crate::server::commands::{command_of, CommandModel};
use crate::server::copy_laws::{law_plain_fields_come_back, text_line};
use crate::server::copy_text::{default_options, OptionsModel};
use crate::server::lock_table::wait_seconds;
use crate::server::plan::PlanModel;
use crate::server::query_flow::{
    controls_transactions, is_implicit, locks_what_it_reads, step_of_plan, writes, PlannedModel,
    StatementKind,
};
use crate::server::session::{
    begun, chosen_isolation, ended, isolation_name, isolation_named, schemas_verdict, scope_of,
    search_path_of, search_path_verdict, startup_database, unquoted_name, waits_for_commit,
    ClientModel, SessionsModel, TransactionIsolation,
};
use crate::text::{
    bare_statement, contains_text, decimal, is_digit, lemma_decimal_shape, lower, occurs_at, split,
    trim,
};

verus! {

proof fn lemma_names_are_small()
    ensures
        lower("read uncommitted"@) == "read uncommitted"@,
        lower("read committed"@) == "read committed"@,
        lower("repeatable read"@) == "repeatable read"@,
        lower("serializable"@) == "serializable"@,
{
    reveal_strlit("read uncommitted");
    reveal_strlit("read committed");
    reveal_strlit("repeatable read");
    reveal_strlit("serializable");
    assert(lower("read uncommitted"@) =~= "read uncommitted"@);
    assert(lower("read committed"@) =~= "read committed"@);
    assert(lower("repeatable read"@) =~= "repeatable read"@);
    assert(lower("serializable"@) =~= "serializable"@);
}

proof fn lemma_names_apart()
    ensures
        !contains_text("read committed"@, "read uncommitted"@),
        !contains_text("repeatable read"@, "read uncommitted"@),
        !contains_text("repeatable read"@, "read committed"@),
        !contains_text("serializable"@, "read uncommitted"@),
        !contains_text("serializable"@, "read committed"@),
        !contains_text("serializable"@, "repeatable read"@),
{
    reveal_strlit("read uncommitted");
    reveal_strlit("read committed");
    reveal_strlit("repeatable read");
    reveal_strlit("serializable");
    let text = "repeatable read"@;
    let piece = "read committed"@;
    assert forall|at: int| !#[trigger] occurs_at(text, piece, at) by {
        if occurs_at(text, piece, at) {
            assert(at == 0 || at == 1);
            assert(text.subrange(at, at + piece.len())[0] == text[at]);
            assert(text.subrange(at, at + piece.len())[2] == text[at + 2]);
            assert(piece[0] == 'r' && piece[2] == 'a');
            assert(text[0] == 'r' && text[1] == 'e' && text[2] == 'p');
        }
    }
}

proof fn lemma_contains_itself(text: Seq<char>)
    ensures
        contains_text(text, text),
{
    assert(text.subrange(0, text.len() as int) =~= text);
    assert(occurs_at(text, text, 0));
}

/// Each isolation is known by its own name, whatever the case.
pub proof fn law_isolations_are_known_by_name(isolation: TransactionIsolation, text: Seq<char>)
    requires
        lower(text) == isolation_name(isolation),
    ensures
        isolation_named(text) == Some(isolation),
        isolation_named(isolation_name(isolation)) == Some(isolation),
{
    lemma_names_are_small();
    lemma_names_apart();
    lemma_contains_itself(isolation_name(isolation));
}

/// A transaction has the isolation that it asks for; else the one that its client has set; else
/// MySQL clients read one state throughout, and PostgreSQL clients what was committed last.
pub proof fn law_transactions_have_their_isolation(
    mode: GatewayMode,
    client: ClientModel,
    asked: TransactionIsolation,
    set: TransactionIsolation,
)
    ensures
        chosen_isolation(mode, client, Some(asked)) == asked,
        client.isolation == Some(isolation_name(set)) ==> chosen_isolation(mode, client, None)
            == set,
        client.isolation is None ==> chosen_isolation(mode, client, None) == if mode
            == GatewayMode::MySql {
            TransactionIsolation::RepeatableRead
        } else {
            TransactionIsolation::ReadCommitted
        },
{
    lemma_names_are_small();
    law_isolations_are_known_by_name(set, isolation_name(set));
}

/// A new transaction reads from its own snapshot, with the isolation and the right to write that
/// it was begun with, and once it has ended nothing is left of it; others are not touched.
pub proof fn law_transactions_keep_what_they_begin_with(
    sessions: SessionsModel,
    session_id: i32,
    snapshot: u64,
    isolation: TransactionIsolation,
    read_only: bool,
    other: i32,
)
    ensures
        ({
            let after = begun(sessions, session_id, snapshot, isolation, read_only);
            &&& after.active.contains(session_id)
            &&& after.snapshots.dom().contains(session_id) && after.snapshots[session_id]
                == snapshot
            &&& after.isolations.dom().contains(session_id) && after.isolations[session_id]
                == isolation
            &&& after.read_only.contains(session_id) == read_only
            &&& other != session_id ==> {
                &&& after.active.contains(other) == sessions.active.contains(other)
                &&& after.snapshots.dom().contains(other) == sessions.snapshots.dom().contains(
                    other,
                )
                &&& after.snapshots[other] == sessions.snapshots[other]
                &&& after.isolations[other] == sessions.isolations[other]
                &&& after.read_only.contains(other) == sessions.read_only.contains(other)
            }
        }),
        ({
            let after = ended(sessions, session_id);
            &&& !after.active.contains(session_id)
            &&& !after.snapshots.dom().contains(session_id)
            &&& !after.isolations.dom().contains(session_id)
            &&& !after.read_only.contains(session_id)
            &&& !after.current_reads.contains(session_id)
            &&& other != session_id ==> {
                &&& after.active.contains(other) == sessions.active.contains(other)
                &&& after.snapshots.dom().contains(other) == sessions.snapshots.dom().contains(
                    other,
                )
                &&& after.snapshots[other] == sessions.snapshots[other]
                &&& after.isolations[other] == sessions.isolations[other]
                &&& after.read_only.contains(other) == sessions.read_only.contains(other)
                &&& after.current_reads.contains(other) == sessions.current_reads.contains(other)
            }
        }),
{
}

/// What a client sets holds from then on: commits by itself or not, the isolation of its
/// transactions, how long it waits for locks, where it looks for objects.
pub proof fn law_settings_hold_afterwards(
    contents: Contents,
    active: bool,
    client: ClientModel,
    mode: GatewayMode,
    enabled: bool,
    isolation: TransactionIsolation,
    seconds: u64,
)
    ensures
        waits_for_commit(
            GatewayMode::MySql,
            command_taken(contents, active, client, CommandModel::Autocommit { enabled }).0,
        ) == !enabled,
        !waits_for_commit(GatewayMode::Postgres, client),
        client.autocommit is None ==> !waits_for_commit(mode, client),
        chosen_isolation(
            mode,
            command_taken(contents, active, client, CommandModel::Isolation { isolation }).0,
            None,
        ) == isolation,
        wait_seconds(
            command_taken(
                contents,
                active,
                client,
                CommandModel::LockWaitTimeout { seconds },
            ).0.lock_wait_timeout,
        ) == seconds,
{
    reveal_strlit("0");
    reveal_strlit("1");
    reveal_strlit("off");
    assert("0"@[0] == '0' && "1"@[0] == '1');
    assert(lower("1"@).len() == 1 && lower("off"@).len() == 3);
    let set = command_taken(contents, active, client, CommandModel::Isolation { isolation }).0;
    law_transactions_have_their_isolation(mode, set, isolation, isolation);
    lemma_decimal_shape(seconds as nat);
    assert(is_digit(decimal(seconds as nat)[0]));
}

/// Turning commits by itself on commits an open transaction, turning it off begins one where
/// there is none; otherwise nothing is begun or ended.
pub proof fn law_autocommit_begins_and_commits(
    contents: Contents,
    active: bool,
    client: ClientModel,
    enabled: bool,
)
    ensures
        command_taken(
            contents,
            active,
            client,
            CommandModel::Autocommit { enabled },
        ).1 matches Ok(step) && {
            &&& step is Commit <==> enabled && active
            &&& step is Begin <==> !enabled && !active
            &&& step is Answer <==> enabled != active
        },
{
}

/// A client looks for objects in the schemas that it set, in their order, once they are there; a
/// schema that is not there is refused, and then nothing changes.
pub proof fn law_search_paths_hold_afterwards(
    contents: Contents,
    active: bool,
    client: ClientModel,
    text: Seq<char>,
    schemas: Seq<Seq<char>>,
)
    requires
        schemas.len() > 0,
        search_path_of(text) == schemas,
    ensures
        ({
            let (next, outcome) = command_taken(
                contents,
                active,
                client,
                CommandModel::SearchPath { text, schemas },
            );
            match search_path_verdict(contents, scope_of(client).database_name, schemas) {
                Ok(_) => {
                    &&& outcome is Ok
                    &&& scope_of(next).search_path == schemas
                    &&& scope_of(next).schema_name == schemas[0]
                    &&& scope_of(next).database_name == scope_of(client).database_name
                },
                Err(e) => outcome == Err::<StepModel, Report>(e) && next == client,
            }
        }),
{
}

proof fn lemma_all_kept(names: Seq<Seq<char>>)
    requires
        forall|i: int| 0 <= i < names.len() ==> (#[trigger] names[i]).len() > 0,
    ensures
        kept_where(names, |name: Seq<char>| name.len() > 0) == names,
    decreases names.len(),
{
    if names.len() > 0 {
        let init = names.drop_last();
        assert forall|i: int| 0 <= i < init.len() implies (#[trigger] init[i]).len() > 0 by {
            assert(init[i] == names[i]);
        }
        lemma_all_kept(init);
        assert(names[names.len() - 1].len() > 0);
        assert(init.push(names.last()) =~= names);
    }
}

/// A search path that is written as names with commas between them has just these names, in their
/// order.
pub proof fn law_search_paths_list_their_schemas(names: Seq<Seq<char>>)
    requires
        names.len() > 0,
        forall|i: int|
            0 <= i < names.len() ==> (#[trigger] names[i]).len() > 0 && !names[i].contains(',')
                && unquoted_name(names[i]) == names[i],
    ensures
        search_path_of(text_line(names, ',')) == names,
{
    let options = OptionsModel { delimiter: ',', ..default_options() };
    assert forall|i: int| 0 <= i < names.len() implies !(#[trigger] names[i]).contains(
        options.delimiter,
    ) by {}
    law_plain_fields_come_back(names, options);
    let pieces = split(text_line(names, ','), ',');
    assert(pieces == names);
    assert(pieces.map_values(|piece: Seq<char>| unquoted_name(piece)) =~= names);
    lemma_all_kept(names);
}

/// A client is in the database and the schema that it set, or else in the default ones; without a
/// search path it looks in its schema alone.
pub proof fn law_clients_have_a_scope(client: ClientModel, name: Seq<char>)
    ensures
        client.database == Some(name) ==> scope_of(client).database_name == name,
        client.database is None ==> scope_of(client).database_name == DEFAULT_DATABASE_NAME@,
        client.current_schema == Some(name) ==> scope_of(client).schema_name == name,
        client.current_schema is None && client.search_path is None ==> scope_of(
            client,
        ).schema_name == DEFAULT_SCHEMA_NAME@,
        client.search_path is None ==> scope_of(client).search_path == seq![
            scope_of(client).schema_name,
        ],
{
}

/// The schemas of a search path are accepted just where all of them are there.
pub proof fn law_search_paths_name_schemas(
    contents: Contents,
    database_id: u32,
    schemas: Seq<Seq<char>>,
)
    ensures
        schemas_verdict(contents, database_id, schemas) is Ok <==> forall|i: int|
            0 <= i < schemas.len() ==> (schema_found(
                contents,
                database_id,
                #[trigger] schemas[i],
            ) matches Ok(Some(_))),
    decreases schemas.len(),
{
    if schemas.len() > 0 {
        let rest = schemas.skip(1);
        law_search_paths_name_schemas(contents, database_id, rest);
        if schemas_verdict(contents, database_id, schemas) is Ok {
            assert forall|i: int| 0 <= i < schemas.len() implies (schema_found(
                contents,
                database_id,
                #[trigger] schemas[i],
            ) matches Ok(Some(_))) by {
                if i > 0 {
                    assert(rest[i - 1] == schemas[i]);
                }
            }
        } else if schema_found(contents, database_id, schemas[0]) matches Ok(Some(_)) {
            let i = choose|i: int|
                0 <= i < rest.len() && !(schema_found(
                    contents,
                    database_id,
                    #[trigger] rest[i],
                ) matches Ok(Some(_)));
            assert(schemas[i + 1] == rest[i]);
        }
    }
}

/// A client is connected to the database that it asks for, where there is one of that name, and
/// to the default one where it asks for none; a name that is not there, and is not its own, is
/// refused.
pub proof fn law_clients_connect_to_what_they_ask_for(
    contents: Contents,
    name: Seq<char>,
    user: Option<Seq<char>>,
)
    requires
        trim(name).len() > 0,
    ensures
        startup_database(contents, None, user) == Ok::<Seq<char>, Report>(DEFAULT_DATABASE_NAME@),
        database_found(contents, name) matches Ok(Some(_)) ==> startup_database(
            contents,
            Some(name),
            user,
        ) == Ok::<Seq<char>, Report>(name),
        (database_found(contents, name) matches Ok(None)) && name != DEFAULT_DATABASE_NAME@ && user
            != Some(name) ==> startup_database(contents, Some(name), user) is Err,
        (database_found(contents, name) matches Ok(None)) && user == Some(name)
            ==> startup_database(contents, Some(name), user) == Ok::<Seq<char>, Report>(
            DEFAULT_DATABASE_NAME@,
        ),
{
}

/// Statements that change rows or descriptions write; those that only tell something do not.
pub proof fn law_plans_that_change_something_write(plan: PlanModel)
    ensures
        plan is InsertRows || plan is UpdateRows || plan is DeleteRows || plan is TruncateTables
            ==> writes(plan),
        plan is CreateTable || plan is CreateTableAs || plan is CreateIndex || plan is CreateView
            || plan is CreateDatabase || plan is CreateSchema || plan is CreateSequence ==> writes(
            plan,
        ),
        plan is AlterTable || plan is AlterTableAddPrimaryKey || plan is DropTables
            || plan is DropIndexes || plan is DropViews || plan is DropSchemas
            || plan is DropDatabases || plan is DropSequences ==> writes(plan),
        plan is SelectRows || plan is ExplainRows || plan is PostgresExplainRows || plan is Noop
            ==> !writes(plan),
{
}

/// A statement that was planned runs as planned, unless it writes where nothing may be written;
/// MySQL clients lock what they write or ask to lock, others lock nothing, and locks are kept in
/// a transaction.
pub proof fn law_planned_statements_run(
    mode: GatewayMode,
    kind: StatementKind,
    plan: PlanModel,
    active: bool,
    read_only: bool,
    implicit: bool,
)
    ensures
        match step_of_plan(mode, kind, Ok(plan), active, read_only, implicit) {
            PlannedModel::Run { plan: run, take_locks, keep_locks } => {
                &&& !(read_only && writes(plan))
                &&& run == plan
                &&& keep_locks == active
                &&& take_locks == (mode == GatewayMode::MySql && (writes(plan)
                    || locks_what_it_reads(kind)))
            },
            PlannedModel::Fail { error, fail_transaction, .. } => read_only && writes(plan)
                && error.code == "25006"@ && fail_transaction,
            PlannedModel::General => false,
        },
{
}

/// A statement that cannot be planned here goes to the general engine only where it can run there:
/// by itself, or as a query of an open transaction. Any other error is the client's, and fails its
/// transaction.
pub proof fn law_unplanned_statements_are_passed_on_or_fail(
    mode: GatewayMode,
    kind: StatementKind,
    error: Report,
    active: bool,
    read_only: bool,
    implicit: bool,
)
    ensures
        step_of_plan(mode, kind, Err(error), active, read_only, implicit) is General
            <==> error.code == "0A000"@ && !implicit && (!active || kind is Query),
        !(step_of_plan(mode, kind, Err(error), active, read_only, implicit) is Run),
        error.code != "0A000"@ ==> (step_of_plan(
            mode,
            kind,
            Err(error),
            active,
            read_only,
            implicit,
        ) matches PlannedModel::Fail { error: told, fail_transaction, roll_back } && told == error
            && fail_transaction == (active || implicit) && roll_back == implicit),
        step_of_plan(
            mode,
            kind,
            Err(error),
            active,
            read_only,
            implicit,
        ) matches PlannedModel::Fail { error: told, fail_transaction, roll_back } ==> told.code
            == error.code && (roll_back <==> implicit),
{
}

/// Several statements that came together are one transaction, unless one is open or they handle
/// transactions themselves; a single one never is.
pub proof fn law_statements_together_are_one_transaction(
    kinds: Seq<StatementKind>,
    in_transaction: bool,
    i: int,
)
    ensures
        kinds.len() <= 1 || in_transaction ==> !is_implicit(kinds, in_transaction),
        0 <= i < kinds.len() && controls_transactions(kinds[i]) ==> !is_implicit(
            kinds,
            in_transaction,
        ),
        kinds.len() > 1 && !in_transaction && (forall|k: int|
            0 <= k < kinds.len() ==> !controls_transactions(#[trigger] kinds[k])) ==> is_implicit(
            kinds,
            in_transaction,
        ),
{
}

/// Whether a statement, without what is around it, is a given one in any case.
pub open spec fn says(query: Seq<char>, words: Seq<char>) -> bool {
    lower(bare_statement(query)) == words
}

/// The plain statements about transactions are taken for what they say, in any case.
pub proof fn law_transaction_statements_are_known(query: Seq<char>)
    ensures
        says(query, "begin"@) || says(query, "start transaction"@) ==> command_of(query) == Ok::<
            Option<CommandModel>,
            Report,
        >(Some(CommandModel::Begin { isolation: None, read_only: false })),
        says(query, "commit"@) || says(query, "end"@) ==> command_of(query) == Ok::<
            Option<CommandModel>,
            Report,
        >(Some(CommandModel::Commit)),
        says(query, "rollback"@) ==> command_of(query) == Ok::<Option<CommandModel>, Report>(
            Some(CommandModel::Rollback),
        ),
{
    reveal_strlit("begin");
    reveal_strlit("start transaction");
    reveal_strlit("commit");
    reveal_strlit("end");
    reveal_strlit("rollback");
    assert("begin"@.len() == 5 && "start transaction"@.len() == 17 && "commit"@.len() == 6
        && "end"@.len() == 3 && "rollback"@.len() == 8);
}

/// What a client asks for is done: a transaction begins with what it asks for, and ends as it
/// says.
pub proof fn law_commands_are_carried_out(
    contents: Contents,
    active: bool,
    client: ClientModel,
    isolation: Option<TransactionIsolation>,
    read_only: bool,
    name: Seq<char>,
    target: i32,
)
    ensures
        command_taken(
            contents,
            active,
            client,
            CommandModel::Begin { isolation, read_only },
        ).1 matches Ok(StepModel::Begin { isolation: i, read_only: r, .. }) && i == isolation && r
            == read_only,
        command_taken(contents, active, client, CommandModel::Commit).1 matches Ok(
            StepModel::Commit { .. },
        ),
        command_taken(contents, active, client, CommandModel::Rollback).1 matches Ok(
            StepModel::Rollback,
        ),
        command_taken(
            contents,
            active,
            client,
            CommandModel::Savepoint { name },
        ).1 matches Ok(StepModel::Savepoint { name: n }) && n == name,
        command_taken(
            contents,
            active,
            client,
            CommandModel::RollbackTo { name },
        ).1 matches Ok(StepModel::RollbackTo { name: n }) && n == name,
        command_taken(contents, active, client, CommandModel::Release { name }).1 matches Ok(
            StepModel::Release { name: n },
        ) && n == name,
        command_taken(contents, active, client, CommandModel::Kill { target }).1 matches Ok(
            StepModel::Kill { target: t, .. },
        ) && t == target,
        command_taken(
            contents,
            active,
            client,
            CommandModel::NextValue { sequence: name },
        ).1 matches Ok(StepModel::NextValue { sequence: n, database_name, schema_name }) && n
            == name && database_name == scope_of(client).database_name && schema_name == scope_of(
            client,
        ).schema_name,
{
}

} // verus!
