//! Statements about the session: what they change at once, and what is left to be done.
use vstd::prelude::*;

use crate::catalog::model::bootstrapped;
use crate::error::{not_internal, Report, UserError};
use crate::mem_store::{Contents, KvStore};
use crate::response::{
    command_complete, completed, empty_query_response, empty_response, Response, ResponseModel,
};
use crate::schema::{option_view, seen_option, views};
use crate::server::commands::{command_of, session_command, CommandModel, SessionCommand};
use crate::server::gateway::{only_opened, GatewayServer};
use crate::server::session::{
    isolation_name, mysql_autocommit_disabled, scope_of, search_path_verdict, session_catalog,
    waits_for_commit, ClientModel, ClientState, TransactionIsolation,
};
use crate::text::decimal;

verus! {

/// What is left to be done for a statement about the session.
#[derive(Debug)]
#[allow(inconsistent_fields)]
pub enum CommandStep {
    /// Nothing: the client is answered.
    Answer { response: Response },
    /// A transaction begins; then the client is told of it, or answered.
    Begin {
        isolation: Option<TransactionIsolation>,
        read_only: bool,
        response: Option<Response>,
    },
    /// The transaction is committed; then the client is told of it, or answered.
    Commit { response: Option<Response> },
    Rollback,
    Savepoint { name: String },
    RollbackTo { name: String },
    Release { name: String },
    /// The transaction of another session is rolled back; then the client is answered.
    Kill { target: i32, response: Response },
    /// A sequence is asked for its next value.
    NextValue { database_name: String, schema_name: String, sequence: String },
}

/// What a [`CommandStep`] says.
#[allow(inconsistent_fields)]
pub enum StepModel {
    Answer { response: ResponseModel },
    Begin {
        isolation: Option<TransactionIsolation>,
        read_only: bool,
        response: Option<ResponseModel>,
    },
    Commit { response: Option<ResponseModel> },
    Rollback,
    Savepoint { name: Seq<char> },
    RollbackTo { name: Seq<char> },
    Release { name: Seq<char> },
    Kill { target: i32, response: ResponseModel },
    NextValue { database_name: Seq<char>, schema_name: Seq<char>, sequence: Seq<char> },
}

impl View for CommandStep {
    type V = StepModel;

    open spec fn view(&self) -> StepModel {
        match *self {
            CommandStep::Answer { response } => StepModel::Answer { response: response@ },
            CommandStep::Begin { isolation, read_only, response } => StepModel::Begin {
                isolation,
                read_only,
                response: option_view(response),
            },
            CommandStep::Commit { response } => StepModel::Commit {
                response: option_view(response),
            },
            CommandStep::Rollback => StepModel::Rollback,
            CommandStep::Savepoint { name } => StepModel::Savepoint { name: name@ },
            CommandStep::RollbackTo { name } => StepModel::RollbackTo { name: name@ },
            CommandStep::Release { name } => StepModel::Release { name: name@ },
            CommandStep::Kill { target, response } => StepModel::Kill {
                target,
                response: response@,
            },
            CommandStep::NextValue { database_name, schema_name, sequence } => StepModel::NextValue {
                database_name: database_name@,
                schema_name: schema_name@,
                sequence: sequence@,
            },
        }
    }
}

/// What a command makes of the client, and what is left to be done, in a session that has a
/// transaction or not.
pub open spec fn command_taken(
    contents: Contents,
    active: bool,
    client: ClientModel,
    command: CommandModel,
) -> (ClientModel, Result<StepModel, Report>) {
    let set_answer = completed("SET"@);
    match command {
        CommandModel::Begin { isolation, read_only } => (
            client,
            Ok(StepModel::Begin { isolation, read_only, response: None }),
        ),
        CommandModel::Commit => (client, Ok(StepModel::Commit { response: None })),
        CommandModel::Rollback => (client, Ok(StepModel::Rollback)),
        CommandModel::Autocommit { enabled } => (
            ClientModel {
                autocommit: Some(
                    if enabled {
                        "1"@
                    } else {
                        "0"@
                    },
                ),
                ..client
            },
            Ok(
                if enabled && active {
                    StepModel::Commit { response: Some(set_answer) }
                } else if !enabled && !active {
                    StepModel::Begin {
                        isolation: None,
                        read_only: false,
                        response: Some(set_answer),
                    }
                } else {
                    StepModel::Answer { response: set_answer }
                },
            ),
        ),
        CommandModel::LockWaitTimeout { seconds } => (
            ClientModel { lock_wait_timeout: Some(decimal(seconds as nat)), ..client },
            Ok(StepModel::Answer { response: set_answer }),
        ),
        CommandModel::Isolation { isolation } => (
            ClientModel { isolation: Some(isolation_name(isolation)), ..client },
            Ok(StepModel::Answer { response: set_answer }),
        ),
        CommandModel::Savepoint { name } => (client, Ok(StepModel::Savepoint { name })),
        CommandModel::RollbackTo { name } => (client, Ok(StepModel::RollbackTo { name })),
        CommandModel::Release { name } => (client, Ok(StepModel::Release { name })),
        CommandModel::Kill { target } => (
            client,
            Ok(StepModel::Kill { target, response: completed("KILL"@) }),
        ),
        CommandModel::NextValue { sequence } => (
            client,
            Ok(
                StepModel::NextValue {
                    database_name: scope_of(client).database_name,
                    schema_name: scope_of(client).schema_name,
                    sequence,
                },
            ),
        ),
        CommandModel::SearchPath { text, schemas } => match search_path_verdict(
            contents,
            scope_of(client).database_name,
            schemas,
        ) {
            Err(e) => (client, Err(e)),
            Ok(_) => (
                ClientModel {
                    current_schema: Some(schemas[0]),
                    search_path: Some(text),
                    ..client
                },
                Ok(StepModel::Answer { response: empty_response() }),
            ),
        },
    }
}

/// What a statement about the session makes of the client, and what is left to be done; none for
/// any other statement.
pub open spec fn command_handled(
    contents: Contents,
    active: bool,
    client: ClientModel,
    query: Seq<char>,
) -> (ClientModel, Result<Option<StepModel>, Report>) {
    match command_of(query) {
        Err(e) => (client, Err(e)),
        Ok(None) => (client, Ok(None)),
        Ok(Some(command)) => {
            let taken = command_taken(contents, active, client, command);
            (
                taken.0,
                match taken.1 {
                    Err(e) => Err(e),
                    Ok(step) => Ok(Some(step)),
                },
            )
        },
    }
}

/// Whether a statement sets the search path.
pub open spec fn sets_search_path(query: Seq<char>) -> bool {
    command_of(query) matches Ok(Some(CommandModel::SearchPath { text, schemas }))
}

/// A command for a path always names a schema.
pub proof fn law_search_path_commands_name_a_schema(query: Seq<char>)
    ensures
        command_of(query) matches Ok(Some(CommandModel::SearchPath { text, schemas }))
            ==> schemas.len() > 0,
{
}

impl<S: KvStore> GatewayServer<S> {
    /// Takes a statement about the session, as far as nothing outside has to be done for it. Only
    /// a search path has the catalog read; a client whose statement is refused stays as it was.
    pub fn handle_session_command(&mut self, client: &mut ClientState, query: &str) -> (result: Result<
        Option<CommandStep>,
        UserError,
    >)
        ensures
            final(self).reliable() == old(self).reliable(),
            final(self).same_sessions(old(self)),
            result is Err ==> *final(client) == *old(client),
            !sets_search_path(query@) ==> final(self).contents() == old(self).contents(),
            not_internal(result) || old(self).reliable() || !sets_search_path(query@) ==> only_opened(
                old(self).contents(),
                final(self).contents(),
            ) && (final(client)@, seen_option(result)) == command_handled(
                bootstrapped(old(self).contents()),
                old(self).sessions@.active.contains(old(client).session_id),
                old(client)@,
                query@,
            ),
    {
        proof {
            law_search_path_commands_name_a_schema(query@);
        }
        let command = match session_command(query) {
            Err(e) => {
                return Err(e);
            },
            Ok(None) => {
                return Ok(None);
            },
            Ok(Some(command)) => command,
        };
        let active = self.has_active_transaction(client.session_id);
        let step = match command {
            SessionCommand::Begin { isolation, read_only } => CommandStep::Begin {
                isolation,
                read_only,
                response: None,
            },
            SessionCommand::Commit => CommandStep::Commit { response: None },
            SessionCommand::Rollback => CommandStep::Rollback,
            SessionCommand::Autocommit { enabled } => {
                client.set_autocommit(enabled);
                if enabled && active {
                    CommandStep::Commit { response: Some(command_complete("SET")) }
                } else if !enabled && !active {
                    CommandStep::Begin {
                        isolation: None,
                        read_only: false,
                        response: Some(command_complete("SET")),
                    }
                } else {
                    CommandStep::Answer { response: command_complete("SET") }
                }
            },
            SessionCommand::LockWaitTimeout { seconds } => {
                client.set_lock_wait_timeout(seconds);
                CommandStep::Answer { response: command_complete("SET") }
            },
            SessionCommand::Isolation { isolation } => {
                client.isolation = Some(isolation.as_pg_str().to_string());
                CommandStep::Answer { response: command_complete("SET") }
            },
            SessionCommand::Savepoint { name } => CommandStep::Savepoint { name },
            SessionCommand::RollbackTo { name } => CommandStep::RollbackTo { name },
            SessionCommand::Release { name } => CommandStep::Release { name },
            SessionCommand::Kill { target } => CommandStep::Kill {
                target,
                response: command_complete("KILL"),
            },
            SessionCommand::NextValue { sequence } => {
                let session = session_catalog(client);
                CommandStep::NextValue {
                    database_name: session.database_name,
                    schema_name: session.schema_name,
                    sequence,
                }
            },
            SessionCommand::SearchPath { text, schemas } => {
                let session = session_catalog(client);
                match self.check_search_path(session.database_name.as_str(), &schemas) {
                    Err(e) => {
                        return Err(e);
                    },
                    Ok(_) => {},
                }
                assert(views(schemas@)[0] == schemas@[0]@);
                client.set_search_path(schemas[0].as_str(), text.as_str());
                CommandStep::Answer { response: empty_query_response() }
            },
        };
        Ok(Some(step))
    }

    /// Whether a session that waits for commits is to begin a transaction at once.
    pub fn restart_mysql_autocommit_transaction(&self, client: &ClientState) -> (begins: bool)
        ensures
            begins == waits_for_commit(self.mode, client@),
    {
        mysql_autocommit_disabled(self.mode, client)
    }
}

} // verus!
