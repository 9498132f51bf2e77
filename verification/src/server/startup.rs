//! How a connection starts: what the client is asked for, whether its password is right, and which
//! database and schema it works in.
use vstd::prelude::*;

use crate::catalog::model::{bootstrapped, opened};
use crate::catalog::types::DEFAULT_SCHEMA_NAME;
use crate::error::{not_internal, unsupported, unsupported_report, UserError};
use crate::mem_store::KvStore;
use crate::response::Response;
use crate::schema::{duplicate_option, option_view, seen, views};
use crate::server::gateway::{only_opened, GatewayServer};
use crate::server::session::{
    parse_search_path, search_path_of, startup_database, ClientModel, ClientState,
};
use crate::text::same_text;

verus! {

/// How clients show who they are.
#[derive(Clone, Copy, Debug, PartialEq, Eq, Structural)]
pub enum GatewayAuthMethod {
    Trust,
    Cleartext,
    Md5,
    Scram,
}

/// What is done with a client that wants to connect.
#[derive(Clone, Copy, Debug, PartialEq, Eq, Structural)]
pub enum StartupStep {
    /// Let the client in.
    Finish,
    /// Ask for the password as it is.
    AskPassword,
    /// Ask for the password's digest.
    AskDigest,
    /// Ask for a SASL exchange.
    AskSasl,
}

/// What is done with a client that wants to connect.
pub fn startup_step(method: GatewayAuthMethod) -> (step: StartupStep)
    ensures
        step == (match method {
            GatewayAuthMethod::Trust => StartupStep::Finish,
            GatewayAuthMethod::Cleartext => StartupStep::AskPassword,
            GatewayAuthMethod::Md5 => StartupStep::AskDigest,
            GatewayAuthMethod::Scram => StartupStep::AskSasl,
        }),
{
    match method {
        GatewayAuthMethod::Trust => StartupStep::Finish,
        GatewayAuthMethod::Cleartext => StartupStep::AskPassword,
        GatewayAuthMethod::Md5 => StartupStep::AskDigest,
        GatewayAuthMethod::Scram => StartupStep::AskSasl,
    }
}

/// Whether a client that sent a password is let in; else the name that is told of it.
pub open spec fn password_verdict(
    given: Seq<char>,
    expected: Option<Seq<char>>,
    user: Option<Seq<char>>,
) -> Result<(), Seq<char>> {
    if expected == Some(given) {
        Ok(())
    } else {
        Err(
            match user {
                Some(name) => name,
                None => seq![],
            },
        )
    }
}

/// Whether a client that sent a password is let in; else the name that is told of it. Nothing is
/// expected before the client was asked.
pub fn check_password(given: &str, expected: &Option<String>, user: &Option<String>) -> (verdict: Result<
    (),
    String,
>)
    ensures
        (match verdict {
            Ok(_) => Ok(()),
            Err(name) => Err(name@),
        }) == password_verdict(given@, option_view(*expected), option_view(*user)),
{
    let right = match expected {
        Some(text) => same_text(text.as_str(), given),
        None => false,
    };
    if right {
        return Ok(());
    }
    match user {
        Some(name) => Err(name.clone()),
        None => {
            let none = String::new();
            assert(none@ =~= Seq::<char>::empty());
            Err(none)
        },
    }
}

/// Whether a SASL exchange goes by the one mechanism that is offered.
pub fn is_offered_mechanism(name: &str) -> (answer: bool)
    ensures
        answer == (name@ == "SCRAM-SHA-256"@),
{
    same_text(name, "SCRAM-SHA-256")
}

/// The schema that a client starts in.
pub open spec fn startup_schema(client: ClientModel) -> Seq<char> {
    match client.search_path {
        Some(text) => if search_path_of(text).len() > 0 {
            search_path_of(text)[0]
        } else {
            DEFAULT_SCHEMA_NAME@
        },
        None => DEFAULT_SCHEMA_NAME@,
    }
}

/// A client in its database and, where it had none yet, in a schema.
pub open spec fn client_started(client: ClientModel, database: Seq<char>) -> ClientModel {
    let connected = ClientModel { database: Some(database), ..client };
    if client.current_schema is Some {
        connected
    } else {
        ClientModel {
            current_schema: Some(startup_schema(client)),
            search_path: Some(startup_schema(client)),
            ..connected
        }
    }
}

fn start_client(client: &mut ClientState, database: String)
    ensures
        final(client)@ == client_started(old(client)@, database@),
{
    client.database = Some(database);
    if client.current_schema.is_none() {
        let schema_name = match &client.search_path {
            Some(text) => {
                let listed = parse_search_path(text.as_str());
                if listed.len() > 0 {
                    assert(views(listed@)[0] == listed@[0]@);
                    listed[0].clone()
                } else {
                    DEFAULT_SCHEMA_NAME.to_string()
                }
            },
            None => DEFAULT_SCHEMA_NAME.to_string(),
        };
        client.set_session_schema(schema_name.as_str());
    }
}

impl<S: KvStore> GatewayServer<S> {
    /// Opens the catalog for a client, and puts the client into its database and a schema.
    pub fn post_startup(&mut self, client: &mut ClientState) -> (result: Result<(), UserError>)
        ensures
            final(self).reliable() == old(self).reliable(),
            final(self).same_sessions(old(self)),
            not_internal(result) || old(self).reliable() ==> {
                let begun = opened(old(self).contents(), old(self).mode);
                only_opened(begun.1, final(self).contents()) && match begun.0 {
                    Err(e) => result matches Err(error) && error@ == e && *final(client) == *old(
                        client,
                    ),
                    Ok(_) => match startup_database(
                        bootstrapped(begun.1),
                        old(client)@.database,
                        old(client)@.user,
                    ) {
                        Err(e) => result matches Err(error) && error@ == e && *final(client)
                            == *old(client),
                        Ok(database) => result is Ok && final(client)@ == client_started(
                            old(client)@,
                            database,
                        ),
                    },
                }
            },
    {
        match self.catalog.ensure_bootstrap_for_mode(self.mode) {
            Err(e) => {
                return Err(e);
            },
            Ok(_) => {},
        }
        let requested = duplicate_option(&client.database);
        match self.resolve_startup_database(requested, &client.user) {
            Err(e) => Err(e),
            Ok(database) => {
                start_client(client, database);
                Ok(())
            },
        }
    }
}

/// The response of a prepared statement, which has to be one.
pub fn single_response(responses: Vec<Response>) -> (result: Result<Response, UserError>)
    ensures
        seen(result) == (if responses@.len() == 1 {
            Ok(responses@[0]@)
        } else {
            Err(
                unsupported_report(
                    "extended query protocol supports one statement per prepared query"@,
                ),
            )
        }),
{
    let mut waiting = responses;
    if waiting.len() != 1 {
        return Err(
            unsupported("extended query protocol supports one statement per prepared query"),
        );
    }
    Ok(waiting.remove(0))
}

} // verus!
