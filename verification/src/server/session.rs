//! Sessions: what is known of a client, its transaction, and statements about the session.
use std::collections::{HashMap, HashSet};
use vstd::prelude::*;

use crate::catalog::model::{
    bootstrapped, database_found, law_bootstrap_is_stable, no_database, no_schema, schema_found,
};
use crate::catalog::types::{DEFAULT_DATABASE_NAME, DEFAULT_SCHEMA_NAME};
use crate::error::{not_internal, report, user_error, user_error_text, Report, UserError};
use crate::lists::kept_where;
use crate::mem_store::{Contents, KvStore};
use crate::mode::GatewayMode;
use crate::names::seen_text;
use crate::schema::{option_view, views};
use crate::server::gateway::{only_opened, GatewayServer};
use crate::server::lock_table::released;
use crate::server::statements::{SessionCatalog, SessionScope};
use crate::text::{
    chars_of, contains_text, decimal, decimal_text, has_text, lower, lower_text, same_but_for_case,
    same_text, split, split_text, string_of, texts, three_texts, trim, trim_chars, trim_mark,
    trim_of,
};

verus! {

broadcast use vstd::std_specs::hash::group_hash_axioms;

/// Where the transaction of a client stands.
#[derive(Clone, Copy, Debug, PartialEq, Eq, Structural)]
pub enum TransactionStatus {
    Idle,
    Transaction,
    Error,
}

/// How far a transaction is kept apart from others.
#[derive(Clone, Copy, Debug, PartialEq, Eq, Structural)]
pub enum TransactionIsolation {
    ReadUncommitted,
    ReadCommitted,
    RepeatableRead,
    Serializable,
}

/// What is known of a client.
#[derive(Debug)]
pub struct ClientState {
    pub session_id: i32,
    pub user: Option<String>,
    pub database: Option<String>,
    pub current_schema: Option<String>,
    pub search_path: Option<String>,
    pub isolation: Option<String>,
    pub autocommit: Option<String>,
    pub lock_wait_timeout: Option<String>,
    pub status: TransactionStatus,
}

/// What a [`ClientState`] says.
pub struct ClientModel {
    pub session_id: i32,
    pub user: Option<Seq<char>>,
    pub database: Option<Seq<char>>,
    pub current_schema: Option<Seq<char>>,
    pub search_path: Option<Seq<char>>,
    pub isolation: Option<Seq<char>>,
    pub autocommit: Option<Seq<char>>,
    pub lock_wait_timeout: Option<Seq<char>>,
    pub status: TransactionStatus,
}

impl View for ClientState {
    type V = ClientModel;

    open spec fn view(&self) -> ClientModel {
        ClientModel {
            session_id: self.session_id,
            user: option_view(self.user),
            database: option_view(self.database),
            current_schema: option_view(self.current_schema),
            search_path: option_view(self.search_path),
            isolation: option_view(self.isolation),
            autocommit: option_view(self.autocommit),
            lock_wait_timeout: option_view(self.lock_wait_timeout),
            status: self.status,
        }
    }
}

/// The name of an isolation.
pub open spec fn isolation_name(isolation: TransactionIsolation) -> Seq<char> {
    match isolation {
        TransactionIsolation::ReadUncommitted => "read uncommitted"@,
        TransactionIsolation::ReadCommitted => "read committed"@,
        TransactionIsolation::RepeatableRead => "repeatable read"@,
        TransactionIsolation::Serializable => "serializable"@,
    }
}

/// The isolation that a text names, in any case.
pub open spec fn isolation_named(text: Seq<char>) -> Option<TransactionIsolation> {
    let small = lower(text);
    if contains_text(small, "read uncommitted"@) {
        Some(TransactionIsolation::ReadUncommitted)
    } else if contains_text(small, "read committed"@) {
        Some(TransactionIsolation::ReadCommitted)
    } else if contains_text(small, "repeatable read"@) {
        Some(TransactionIsolation::RepeatableRead)
    } else if contains_text(small, "serializable"@) {
        Some(TransactionIsolation::Serializable)
    } else {
        None
    }
}

impl TransactionIsolation {
    /// The name of an isolation.
    pub fn as_pg_str(&self) -> (name: &'static str)
        ensures
            name@ == isolation_name(*self),
    {
        match self {
            TransactionIsolation::ReadUncommitted => "read uncommitted",
            TransactionIsolation::ReadCommitted => "read committed",
            TransactionIsolation::RepeatableRead => "repeatable read",
            TransactionIsolation::Serializable => "serializable",
        }
    }
}

/// The isolation that a text names.
pub fn parse_transaction_isolation(text: &str) -> (isolation: Option<TransactionIsolation>)
    ensures
        isolation == isolation_named(text@),
{
    let small = lower_text(text);
    let chars = chars_of(small.as_str());
    if has_text(chars.as_slice(), "read uncommitted") {
        Some(TransactionIsolation::ReadUncommitted)
    } else if has_text(chars.as_slice(), "read committed") {
        Some(TransactionIsolation::ReadCommitted)
    } else if has_text(chars.as_slice(), "repeatable read") {
        Some(TransactionIsolation::RepeatableRead)
    } else if has_text(chars.as_slice(), "serializable") {
        Some(TransactionIsolation::Serializable)
    } else {
        None
    }
}

/// The isolation of transactions that ask for none.
pub open spec fn default_isolation(mode: GatewayMode) -> TransactionIsolation {
    if mode == GatewayMode::MySql {
        TransactionIsolation::RepeatableRead
    } else {
        TransactionIsolation::ReadCommitted
    }
}

/// The isolation of transactions that ask for none.
pub fn default_transaction_isolation(mode: GatewayMode) -> (isolation: TransactionIsolation)
    ensures
        isolation == default_isolation(mode),
{
    if mode == GatewayMode::MySql {
        TransactionIsolation::RepeatableRead
    } else {
        TransactionIsolation::ReadCommitted
    }
}

/// A name without the white space and quotes around it.
pub open spec fn unquoted_name(text: Seq<char>) -> Seq<char> {
    trim_of(trim_of(trim(text), '"'), '\'')
}

/// The schemas that a text lists, with commas between them.
pub open spec fn search_path_of(text: Seq<char>) -> Seq<Seq<char>> {
    kept_where(
        split(text, ',').map_values(|piece: Seq<char>| unquoted_name(piece)),
        |name: Seq<char>| name.len() > 0,
    )
}

/// The schemas that a text lists, with commas between them.
pub fn parse_search_path(text: &str) -> (schemas: Vec<String>)
    ensures
        views(schemas@) == search_path_of(text@),
{
    let pieces = split_text(text, ',');
    let ghost names = split(text@, ',').map_values(|piece: Seq<char>| unquoted_name(piece));
    let ghost keep = |name: Seq<char>| name.len() > 0;
    let mut schemas: Vec<String> = Vec::new();
    let mut i: usize = 0;
    assert(names.take(0) =~= Seq::<Seq<char>>::empty());
    assert(views(schemas@) =~= Seq::<Seq<char>>::empty());
    while i < pieces.len()
        invariant
            i <= pieces@.len(),
            texts(pieces@) == split(text@, ','),
            names == split(text@, ',').map_values(|piece: Seq<char>| unquoted_name(piece)),
            keep == (|name: Seq<char>| name.len() > 0),
            views(schemas@) == kept_where(names.take(i as int), keep),
        decreases pieces@.len() - i,
    {
        assert(names.take(i + 1).drop_last() =~= names.take(i as int));
        assert(split(text@, ',')[i as int] == pieces@[i as int]@) by {
            assert(texts(pieces@)[i as int] == pieces@[i as int]@);
        }
        let chars = chars_of(pieces[i].as_str());
        let name = trim_mark(trim_mark(trim_chars(chars.as_slice()), '"'), '\'');
        assert(names.take(i + 1).last() == name@);
        if name.len() > 0 {
            let ghost before = views(schemas@);
            let ghost added = name@;
            schemas.push(string_of(name));
            assert(views(schemas@) =~= before.push(added));
        }
        i += 1;
    }
    assert(names.take(i as int) =~= names);
    schemas
}

/// Where a client looks for objects.
pub open spec fn scope_of(client: ClientModel) -> SessionScope {
    let listed = match client.search_path {
        Some(text) => search_path_of(text),
        None => seq![],
    };
    let schema_name = match client.current_schema {
        Some(schema) => schema,
        None => if listed.len() > 0 {
            listed[0]
        } else {
            DEFAULT_SCHEMA_NAME@
        },
    };
    SessionScope {
        database_name: match client.database {
            Some(database) => database,
            None => DEFAULT_DATABASE_NAME@,
        },
        schema_name,
        search_path: if listed.len() > 0 {
            listed
        } else {
            seq![schema_name]
        },
    }
}

/// A client always has a schema to look in.
pub proof fn law_search_path_is_not_empty(client: ClientModel)
    ensures
        scope_of(client).search_path.len() > 0,
{
}

/// Where a client looks for objects.
pub fn session_catalog(client: &ClientState) -> (session: SessionCatalog)
    ensures
        session@ == scope_of(client@),
        session.search_path@.len() > 0,
{
    let database_name = match &client.database {
        Some(database) => database.clone(),
        None => DEFAULT_DATABASE_NAME.to_string(),
    };
    let listed = match &client.search_path {
        Some(text) => parse_search_path(text.as_str()),
        None => {
            let none: Vec<String> = Vec::new();
            assert(views(none@) =~= Seq::<Seq<char>>::empty());
            none
        },
    };
    let schema_name = match &client.current_schema {
        Some(schema) => schema.clone(),
        None => {
            if listed.len() > 0 {
                assert(views(listed@)[0] == listed@[0]@);
                listed[0].clone()
            } else {
                DEFAULT_SCHEMA_NAME.to_string()
            }
        },
    };
    let search_path = if listed.len() > 0 {
        listed
    } else {
        let mut path: Vec<String> = Vec::new();
        path.push(schema_name.clone());
        assert(views(path@) =~= seq![schema_name@]);
        path
    };
    SessionCatalog { database_name, schema_name, search_path }
}

impl ClientState {
    /// A client of which nothing is known but its session.
    pub fn new(session_id: i32) -> (client: ClientState)
        ensures
            client@ == (ClientModel {
                session_id,
                user: None,
                database: None,
                current_schema: None,
                search_path: None,
                isolation: None,
                autocommit: None,
                lock_wait_timeout: None,
                status: TransactionStatus::Idle,
            }),
    {
        ClientState {
            session_id,
            user: None,
            database: None,
            current_schema: None,
            search_path: None,
            isolation: None,
            autocommit: None,
            lock_wait_timeout: None,
            status: TransactionStatus::Idle,
        }
    }

    /// Makes a schema the one that the client looks in.
    pub fn set_session_schema(&mut self, schema_name: &str)
        ensures
            final(self)@ == (ClientModel {
                current_schema: Some(schema_name@),
                search_path: Some(schema_name@),
                ..old(self)@
            }),
    {
        self.current_schema = Some(schema_name.to_string());
        self.search_path = Some(schema_name.to_string());
    }

    /// Makes the client look in the schemas of a text, the first of which is named.
    pub fn set_search_path(&mut self, schema_name: &str, text: &str)
        ensures
            final(self)@ == (ClientModel {
                current_schema: Some(schema_name@),
                search_path: Some(text@),
                ..old(self)@
            }),
    {
        self.current_schema = Some(schema_name.to_string());
        self.search_path = Some(text.to_string());
    }

    /// Lets statements commit by themselves, or not.
    pub fn set_autocommit(&mut self, enabled: bool)
        ensures
            final(self)@ == (ClientModel {
                autocommit: Some(
                    if enabled {
                        "1"@
                    } else {
                        "0"@
                    },
                ),
                ..old(self)@
            }),
    {
        let text = if enabled {
            "1"
        } else {
            "0"
        };
        self.autocommit = Some(text.to_string());
    }

    /// Sets how long the client waits for locks.
    pub fn set_lock_wait_timeout(&mut self, seconds: u64)
        ensures
            final(self)@ == (ClientModel {
                lock_wait_timeout: Some(decimal(seconds as nat)),
                ..old(self)@
            }),
    {
        self.lock_wait_timeout = Some(decimal_text(seconds));
    }
}

/// Whether the statements of a client wait for a commit.
pub open spec fn waits_for_commit(mode: GatewayMode, client: ClientModel) -> bool {
    mode == GatewayMode::MySql && (client.autocommit matches Some(value) && (value == "0"@ || lower(
        value,
    ) == lower("off"@)))
}

/// Whether the statements of a client wait for a commit.
pub fn mysql_autocommit_disabled(mode: GatewayMode, client: &ClientState) -> (answer: bool)
    ensures
        answer == waits_for_commit(mode, client@),
{
    if mode != GatewayMode::MySql {
        return false;
    }
    match &client.autocommit {
        Some(value) => same_text(value.as_str(), "0") || same_but_for_case(value.as_str(), "off"),
        None => false,
    }
}

/// The transactions of sessions.
#[derive(Debug)]
pub struct Sessions {
    pub active: HashSet<i32>,
    pub snapshots: HashMap<i32, u64>,
    pub isolations: HashMap<i32, TransactionIsolation>,
    pub read_only: HashSet<i32>,
    pub current_reads: HashSet<i32>,
    pub cancelled: HashSet<i32>,
}

/// What [`Sessions`] say.
#[verifier::ext_equal]
pub struct SessionsModel {
    pub active: Set<i32>,
    pub snapshots: Map<i32, u64>,
    pub isolations: Map<i32, TransactionIsolation>,
    pub read_only: Set<i32>,
    pub current_reads: Set<i32>,
    pub cancelled: Set<i32>,
}

impl View for Sessions {
    type V = SessionsModel;

    open spec fn view(&self) -> SessionsModel {
        SessionsModel {
            active: self.active@,
            snapshots: self.snapshots@,
            isolations: self.isolations@,
            read_only: self.read_only@,
            current_reads: self.current_reads@,
            cancelled: self.cancelled@,
        }
    }
}

/// No session at all.
pub open spec fn no_sessions() -> SessionsModel {
    SessionsModel {
        active: Set::empty(),
        snapshots: Map::empty(),
        isolations: Map::empty(),
        read_only: Set::empty(),
        current_reads: Set::empty(),
        cancelled: Set::empty(),
    }
}

/// The transactions of sessions, but for that of one.
pub open spec fn ended(sessions: SessionsModel, session_id: i32) -> SessionsModel {
    SessionsModel {
        active: sessions.active.remove(session_id),
        snapshots: sessions.snapshots.remove(session_id),
        isolations: sessions.isolations.remove(session_id),
        read_only: sessions.read_only.remove(session_id),
        current_reads: sessions.current_reads.remove(session_id),
        cancelled: sessions.cancelled,
    }
}

/// The transactions of sessions, with a new one.
pub open spec fn begun(
    sessions: SessionsModel,
    session_id: i32,
    snapshot: u64,
    isolation: TransactionIsolation,
    read_only: bool,
) -> SessionsModel {
    SessionsModel {
        active: sessions.active.insert(session_id),
        snapshots: sessions.snapshots.insert(session_id, snapshot),
        isolations: sessions.isolations.insert(session_id, isolation),
        read_only: if read_only {
            sessions.read_only.insert(session_id)
        } else {
            sessions.read_only.remove(session_id)
        },
        ..sessions
    }
}

/// Whether just the sessions with a transaction have a snapshot and an isolation, and whether
/// only these are kept from writing.
pub open spec fn consistent(sessions: SessionsModel) -> bool {
    &&& sessions.snapshots.dom() == sessions.active
    &&& sessions.isolations.dom() == sessions.active
    &&& sessions.read_only.subset_of(sessions.active)
}

/// A session that begins a transaction has a snapshot and an isolation from then on, and one
/// that ends it has neither; so it stays for the other sessions.
pub proof fn law_transactions_stay_consistent(
    sessions: SessionsModel,
    session_id: i32,
    snapshot: u64,
    isolation: TransactionIsolation,
    read_only: bool,
)
    requires
        consistent(sessions),
    ensures
        consistent(no_sessions()),
        consistent(begun(sessions, session_id, snapshot, isolation, read_only)),
        consistent(ended(sessions, session_id)),
        !ended(sessions, session_id).active.contains(session_id),
        begun(sessions, session_id, snapshot, isolation, read_only).active.contains(session_id),
{
    assert(no_sessions().snapshots.dom() =~= no_sessions().active);
    assert(no_sessions().isolations.dom() =~= no_sessions().active);
    let more = begun(sessions, session_id, snapshot, isolation, read_only);
    assert(more.snapshots.dom() =~= more.active);
    assert(more.isolations.dom() =~= more.active);
    let fewer = ended(sessions, session_id);
    assert(fewer.snapshots.dom() =~= fewer.active);
    assert(fewer.isolations.dom() =~= fewer.active);
}

/// A transaction that begins and ends leaves the other sessions as they were.
pub proof fn law_transactions_leave_others_alone(
    sessions: SessionsModel,
    session_id: i32,
    other: i32,
    snapshot: u64,
    isolation: TransactionIsolation,
    read_only: bool,
)
    requires
        other != session_id,
    ensures
        ({
            let after = ended(
                begun(sessions, session_id, snapshot, isolation, read_only),
                session_id,
            );
            &&& after.active.contains(other) == sessions.active.contains(other)
            &&& after.snapshots.contains_key(other) == sessions.snapshots.contains_key(other)
            &&& after.snapshots[other] == sessions.snapshots[other]
            &&& after.isolations[other] == sessions.isolations[other]
            &&& after.read_only.contains(other) == sessions.read_only.contains(other)
        }),
{
}

impl Sessions {
    /// No session at all.
    pub fn new() -> (sessions: Sessions)
        ensures
            sessions@ == no_sessions(),
    {
        let sessions = Sessions {
            active: HashSet::new(),
            snapshots: HashMap::new(),
            isolations: HashMap::new(),
            read_only: HashSet::new(),
            current_reads: HashSet::new(),
            cancelled: HashSet::new(),
        };
        assert(sessions@ =~= no_sessions());
        sessions
    }

    /// Forgets the transaction of a session; says whether it had one.
    fn end(&mut self, session_id: i32) -> (had: bool)
        ensures
            had == old(self)@.active.contains(session_id),
            final(self)@ == ended(old(self)@, session_id),
    {
        let had = self.active.remove(&session_id);
        self.snapshots.remove(&session_id);
        self.isolations.remove(&session_id);
        self.read_only.remove(&session_id);
        self.current_reads.remove(&session_id);
        assert(self@ =~= ended(old(self)@, session_id));
        had
    }

    /// Begins the transaction of a session.
    fn begin(
        &mut self,
        session_id: i32,
        snapshot: u64,
        isolation: TransactionIsolation,
        read_only: bool,
    )
        ensures
            final(self)@ == begun(old(self)@, session_id, snapshot, isolation, read_only),
    {
        self.active.insert(session_id);
        self.snapshots.insert(session_id, snapshot);
        self.isolations.insert(session_id, isolation);
        if read_only {
            self.read_only.insert(session_id);
        } else {
            self.read_only.remove(&session_id);
        }
        assert(self@ =~= begun(old(self)@, session_id, snapshot, isolation, read_only));
    }
}

/// What comes next when a transaction is to begin.
#[derive(Clone, Copy, Debug, PartialEq, Eq, Structural)]
pub enum BeginStep {
    /// The session has one, which goes on.
    Joined,
    /// The session had one, which is to be committed before another is opened.
    CommitFirst,
    /// One is to be opened.
    Open,
}

/// What comes next when a transaction has ended.
#[derive(Clone, Copy, Debug, PartialEq, Eq, Structural)]
pub enum EndStep {
    Done,
    /// Another is to begin at once.
    BeginAnother,
}

impl<S: KvStore> GatewayServer<S> {
    /// Lets the next statement of a session fail.
    pub fn mark_cancelled(&mut self, session_id: i32)
        ensures
            final(self).catalog == old(self).catalog,
            final(self).mode == old(self).mode,
            final(self).locks == old(self).locks,
            final(self).sessions@ == (SessionsModel {
                cancelled: old(self).sessions@.cancelled.insert(session_id),
                ..old(self).sessions@
            }),
    {
        self.sessions.cancelled.insert(session_id);
    }

    /// Fails once for a session that was cancelled.
    pub fn check_cancelled(&mut self, session_id: i32) -> (result: Result<(), UserError>)
        ensures
            final(self).catalog == old(self).catalog,
            final(self).mode == old(self).mode,
            final(self).locks == old(self).locks,
            final(self).sessions@ == (SessionsModel {
                cancelled: old(self).sessions@.cancelled.remove(session_id),
                ..old(self).sessions@
            }),
            match result {
                Ok(_) => !old(self).sessions@.cancelled.contains(session_id),
                Err(e) => old(self).sessions@.cancelled.contains(session_id) && e@ == report(
                    "57014"@,
                    "canceling statement due to user request"@,
                ),
            },
    {
        if self.sessions.cancelled.remove(&session_id) {
            return Err(user_error("57014", "canceling statement due to user request"));
        }
        Ok(())
    }

    /// Whether a session has a transaction.
    pub fn has_active_transaction(&self, session_id: i32) -> (answer: bool)
        ensures
            answer == self.sessions@.active.contains(session_id),
    {
        self.sessions.active.contains(&session_id)
    }

    /// Whether the transaction of a session may not write.
    pub fn is_active_transaction_read_only(&self, session_id: i32) -> (answer: bool)
        ensures
            answer == self.sessions@.read_only.contains(session_id),
    {
        self.sessions.read_only.contains(&session_id)
    }

    /// Lets a session read what others have committed.
    pub fn enter_mysql_current_read(&mut self, session_id: i32)
        ensures
            final(self).catalog == old(self).catalog,
            final(self).mode == old(self).mode,
            final(self).locks == old(self).locks,
            final(self).sessions@ == (SessionsModel {
                current_reads: old(self).sessions@.current_reads.insert(session_id),
                ..old(self).sessions@
            }),
    {
        self.sessions.current_reads.insert(session_id);
    }

    /// Lets a session read what its transaction sees.
    pub fn exit_mysql_current_read(&mut self, session_id: i32)
        ensures
            final(self).catalog == old(self).catalog,
            final(self).mode == old(self).mode,
            final(self).locks == old(self).locks,
            final(self).sessions@ == (SessionsModel {
                current_reads: old(self).sessions@.current_reads.remove(session_id),
                ..old(self).sessions@
            }),
    {
        self.sessions.current_reads.remove(&session_id);
    }

    /// Decides how a transaction begins. A session with one stays in it where it speaks
    /// PostgreSQL; where it speaks MySQL its transaction ends, with its locks.
    pub fn begin_session_transaction(&mut self, client: &mut ClientState, read_only: bool) -> (step:
        BeginStep)
        ensures
            final(self).catalog == old(self).catalog,
            final(self).mode == old(self).mode,
            ({
                let id = old(client).session_id;
                let before = old(self).sessions@;
                if !before.active.contains(id) {
                    &&& step == BeginStep::Open
                    &&& final(self).sessions@ == before
                    &&& final(self).locks@ == old(self).locks@
                    &&& final(client)@ == old(client)@
                } else if old(self).mode == GatewayMode::MySql {
                    &&& step == BeginStep::CommitFirst
                    &&& final(self).sessions@ == ended(before, id)
                    &&& final(self).locks@ == released(old(self).locks@, id)
                    &&& final(client)@ == old(client)@
                } else {
                    &&& step == BeginStep::Joined
                    &&& final(self).sessions@ == (SessionsModel {
                        read_only: if read_only {
                            before.read_only.insert(id)
                        } else {
                            before.read_only
                        },
                        ..before
                    })
                    &&& final(self).locks@ == old(self).locks@
                    &&& final(client)@ == (ClientModel {
                        status: TransactionStatus::Transaction,
                        ..old(client)@
                    })
                }
            }),
    {
        let id: i32 = client.session_id;
        if !self.sessions.active.contains(&id) {
            return BeginStep::Open;
        }
        if self.mode == GatewayMode::MySql {
            self.sessions.end(id);
            self.locks.release_session_table_locks(id);
            return BeginStep::CommitFirst;
        }
        if read_only {
            self.sessions.read_only.insert(id);
        }
        client.status = TransactionStatus::Transaction;
        BeginStep::Joined
    }

    /// Takes the outcome of the commit that comes before a transaction.
    pub fn committed_first(&self, client: &mut ClientState, outcome: Result<(), String>) -> (result:
        Result<(), UserError>)
        ensures
            match outcome {
                Ok(_) => result is Ok && final(client)@ == (ClientModel {
                    status: TransactionStatus::Idle,
                    ..old(client)@
                }),
                Err(message) => result matches Err(e) && e@ == report("40001"@, message@)
                    && final(client)@ == old(client)@,
            },
    {
        match outcome {
            Ok(_) => {
                client.status = TransactionStatus::Idle;
                Ok(())
            },
            Err(message) => Err(user_error_text("40001", message)),
        }
    }

    /// Takes up a transaction that was opened: with the isolation that is asked for, or that of
    /// the client, or the usual one.
    pub fn transaction_opened(
        &mut self,
        client: &mut ClientState,
        isolation: Option<TransactionIsolation>,
        read_only: bool,
        snapshot: u64,
    )
        ensures
            final(self).catalog == old(self).catalog,
            final(self).mode == old(self).mode,
            final(self).locks == old(self).locks,
            ({
                let chosen = chosen_isolation(old(self).mode, old(client)@, isolation);
                &&& final(self).sessions@ == begun(
                    old(self).sessions@,
                    old(client).session_id,
                    snapshot,
                    chosen,
                    read_only,
                )
                &&& final(client)@ == (ClientModel {
                    isolation: Some(isolation_name(chosen)),
                    status: TransactionStatus::Transaction,
                    ..old(client)@
                })
            }),
    {
        let chosen = match isolation {
            Some(isolation) => isolation,
            None => {
                let known = match &client.isolation {
                    Some(text) => parse_transaction_isolation(text.as_str()),
                    None => None,
                };
                match known {
                    Some(isolation) => isolation,
                    None => default_transaction_isolation(self.mode),
                }
            },
        };
        self.sessions.begin(client.session_id, snapshot, chosen, read_only);
        client.isolation = Some(chosen.as_pg_str().to_string());
        client.status = TransactionStatus::Transaction;
    }

    /// Ends the transaction of a session, with its locks; says whether it had one.
    pub fn end_session_transaction(&mut self, session_id: i32) -> (had: bool)
        ensures
            final(self).catalog == old(self).catalog,
            final(self).mode == old(self).mode,
            had == old(self).sessions@.active.contains(session_id),
            final(self).sessions@ == ended(old(self).sessions@, session_id),
            final(self).locks@ == released(old(self).locks@, session_id),
    {
        let had = self.sessions.end(session_id);
        self.locks.release_session_table_locks(session_id);
        had
    }

    /// Takes the outcome of a commit; with none to commit it is a success.
    pub fn finish_commit(&self, client: &mut ClientState, outcome: Result<(), String>) -> (result:
        Result<EndStep, UserError>)
        ensures
            match outcome {
                Ok(_) => final(client)@ == (ClientModel {
                    status: TransactionStatus::Idle,
                    ..old(client)@
                }) && result == Ok::<EndStep, UserError>(
                    if waits_for_commit(self.mode, old(client)@) {
                        EndStep::BeginAnother
                    } else {
                        EndStep::Done
                    },
                ),
                Err(message) => final(client)@ == (ClientModel {
                    status: TransactionStatus::Error,
                    ..old(client)@
                }) && (result matches Err(e) && e@ == report("40001"@, message@)),
            },
    {
        match outcome {
            Ok(_) => {
                client.status = TransactionStatus::Idle;
                if mysql_autocommit_disabled(self.mode, client) {
                    return Ok(EndStep::BeginAnother);
                }
                Ok(EndStep::Done)
            },
            Err(message) => {
                client.status = TransactionStatus::Error;
                Err(user_error_text("40001", message))
            },
        }
    }

    /// Takes the outcome of a rollback; with nothing to roll back it is a success.
    pub fn finish_rollback(&self, client: &mut ClientState, outcome: Result<(), String>) -> (result:
        Result<EndStep, UserError>)
        ensures
            match outcome {
                Ok(_) => final(client)@ == (ClientModel {
                    status: TransactionStatus::Idle,
                    ..old(client)@
                }) && result == Ok::<EndStep, UserError>(
                    if waits_for_commit(self.mode, old(client)@) {
                        EndStep::BeginAnother
                    } else {
                        EndStep::Done
                    },
                ),
                Err(message) => final(client)@ == old(client)@ && (result matches Err(e) && e@
                    == report("XX000"@, message@)),
            },
    {
        match outcome {
            Ok(_) => {
                client.status = TransactionStatus::Idle;
                if mysql_autocommit_disabled(self.mode, client) {
                    return Ok(EndStep::BeginAnother);
                }
                Ok(EndStep::Done)
            },
            Err(message) => Err(user_error_text("XX000", message)),
        }
    }

    /// The database that a client is connected to.
    pub fn resolve_startup_database(&mut self, requested: Option<String>, user: &Option<String>) -> (
        result: Result<String, UserError>)
        ensures
            final(self).reliable() == old(self).reliable(),
            final(self).same_sessions(old(self)),
            not_internal(result) || old(self).reliable() ==> only_opened(
                old(self).contents(),
                final(self).contents(),
            ) && seen_text(result) == startup_database(
                bootstrapped(old(self).contents()),
                option_view(requested),
                option_view(*user),
            ),
    {
        let name = match requested {
            None => {
                return Ok(DEFAULT_DATABASE_NAME.to_string());
            },
            Some(name) => name,
        };
        let chars = chars_of(name.as_str());
        if trim_chars(chars.as_slice()).len() == 0 {
            return Ok(DEFAULT_DATABASE_NAME.to_string());
        }
        match self.catalog.get_database(name.as_str()) {
            Err(e) => {
                return Err(e);
            },
            Ok(Some(_)) => {
                return Ok(name);
            },
            Ok(None) => {},
        }
        let is_user = match user {
            Some(user) => same_text(user.as_str(), name.as_str()),
            None => false,
        };
        if same_text(name.as_str(), DEFAULT_DATABASE_NAME) || is_user {
            return Ok(DEFAULT_DATABASE_NAME.to_string());
        }
        Err(
            user_error_text("3D000", three_texts("database '", name.as_str(), "' does not exist")),
        )
    }

    /// Makes sure that the schemas of a search path are there.
    pub fn check_search_path(&mut self, database_name: &str, schemas: &Vec<String>) -> (result: Result<
        (),
        UserError,
    >)
        ensures
            final(self).reliable() == old(self).reliable(),
            final(self).same_sessions(old(self)),
            not_internal(result) || old(self).reliable() ==> only_opened(
                old(self).contents(),
                final(self).contents(),
            ) && crate::error::outcome(result) == search_path_verdict(
                bootstrapped(old(self).contents()),
                database_name@,
                views(schemas@),
            ),
    {
        let ghost opened = bootstrapped(self.contents());
        proof {
            law_bootstrap_is_stable(self.contents());
        }
        let database = match self.catalog.get_database(database_name) {
            Err(e) => {
                return Err(e);
            },
            Ok(None) => {
                return Err(
                    user_error_text(
                        "3D000",
                        three_texts("database '", database_name, "' does not exist"),
                    ),
                );
            },
            Ok(Some(database)) => database,
        };
        let ghost model = database@;
        let ghost all = views(schemas@);
        let mut i: usize = 0;
        assert(all.skip(0) =~= all);
        while i < schemas.len()
            invariant
                i <= schemas@.len(),
                all == views(schemas@),
                opened == bootstrapped(old(self).contents()),
                opened == bootstrapped(opened),
                database@ == model,
                self.reliable() == old(self).reliable(),
                self.same_sessions(old(self)),
                only_opened(old(self).contents(), self.contents()),
                bootstrapped(self.contents()) == opened,
                search_path_verdict(opened, database_name@, all) == schemas_verdict(
                    opened,
                    model.database_id,
                    all.skip(i as int),
                ),
            decreases schemas@.len() - i,
        {
            assert(all.skip(i as int)[0] == schemas@[i as int]@);
            assert(all.skip(i as int).skip(1) =~= all.skip(i + 1));
            match self.catalog.get_schema(database.database_id, schemas[i].as_str()) {
                Err(e) => {
                    return Err(e);
                },
                Ok(None) => {
                    return Err(
                        user_error_text(
                            "3F000",
                            three_texts("schema '", schemas[i].as_str(), "' does not exist"),
                        ),
                    );
                },
                Ok(Some(_)) => {},
            }
            i += 1;
        }
        Ok(())
    }
}

/// The isolation of a new transaction.
pub open spec fn chosen_isolation(
    mode: GatewayMode,
    client: ClientModel,
    isolation: Option<TransactionIsolation>,
) -> TransactionIsolation {
    match isolation {
        Some(asked) => asked,
        None => match client.isolation {
            Some(text) => match isolation_named(text) {
                Some(known) => known,
                None => default_isolation(mode),
            },
            None => default_isolation(mode),
        },
    }
}

/// The database that a client is connected to: the one that it asks for; where there is none of
/// that name, the default one for a client that asks for it or for its own name.
pub open spec fn startup_database(
    contents: Contents,
    requested: Option<Seq<char>>,
    user: Option<Seq<char>>,
) -> Result<Seq<char>, Report> {
    match requested {
        None => Ok(DEFAULT_DATABASE_NAME@),
        Some(name) => if trim(name).len() == 0 {
            Ok(DEFAULT_DATABASE_NAME@)
        } else {
            match database_found(contents, name) {
                Err(e) => Err(e),
                Ok(Some(database)) => Ok(name),
                Ok(None) => if name == DEFAULT_DATABASE_NAME@ || user == Some(name) {
                    Ok(DEFAULT_DATABASE_NAME@)
                } else {
                    Err(no_database(name))
                },
            }
        },
    }
}

/// Whether the schemas of a database are there.
pub open spec fn schemas_verdict(contents: Contents, database_id: u32, schemas: Seq<Seq<char>>) -> Result<
    (),
    Report,
>
    decreases schemas.len(),
{
    if schemas.len() == 0 {
        Ok(())
    } else {
        match schema_found(contents, database_id, schemas[0]) {
            Err(e) => Err(e),
            Ok(None) => Err(no_schema(schemas[0])),
            Ok(Some(schema)) => schemas_verdict(contents, database_id, schemas.skip(1)),
        }
    }
}

/// Whether the schemas of a search path are there.
pub open spec fn search_path_verdict(
    contents: Contents,
    database_name: Seq<char>,
    schemas: Seq<Seq<char>>,
) -> Result<(), Report> {
    match database_found(contents, database_name) {
        Err(e) => Err(e),
        Ok(None) => Err(no_database(database_name)),
        Ok(Some(database)) => schemas_verdict(contents, database.database_id, schemas),
    }
}

} // verus!
