//! Ways to make a gateway over a store.
use vstd::prelude::*;

use crate::mem_store::KvStore;
use crate::mode::GatewayMode;
use crate::server::gateway::GatewayServer;
use crate::server::lock_table::LockState;
use crate::server::session::no_sessions;

verus! {

/// Whether a gateway over a store is new: nobody waits, holds a lock or has a transaction.
pub open spec fn is_new<S: KvStore>(server: GatewayServer<S>, store: S, mode: GatewayMode) -> bool {
    &&& server.catalog.store == store
    &&& server.mode == mode
    &&& server.locks@ == (LockState {
        locks: Seq::empty(),
        queue: Seq::empty(),
        waits: Map::empty(),
    })
    &&& server.sessions@ == no_sessions()
}

/// Runs plans by itself, without connections.
pub struct ExecutionEngine<S: KvStore> {
    pub server: GatewayServer<S>,
}

impl<S: KvStore> ExecutionEngine<S> {
    /// An engine for PostgreSQL clients over a store.
    pub fn new(store: S) -> (engine: Self)
        ensures
            is_new(engine.server, store, GatewayMode::Postgres),
    {
        Self::with_mode(store, GatewayMode::Postgres)
    }

    /// An engine for clients of one kind over a store.
    pub fn with_mode(store: S, mode: GatewayMode) -> (engine: Self)
        ensures
            is_new(engine.server, store, mode),
    {
        ExecutionEngine { server: GatewayServer::with_mode(store, mode) }
    }

    /// The gateway of the engine.
    pub fn into_server(self) -> (server: GatewayServer<S>)
        ensures
            server == self.server,
    {
        self.server
    }
}

/// Hands a gateway to connections.
pub struct GatewayFactory<S: KvStore> {
    pub handler: GatewayServer<S>,
}

impl<S: KvStore> GatewayFactory<S> {
    /// A factory for clients of one kind over a store.
    pub fn new(store: S, mode: GatewayMode) -> (factory: Self)
        ensures
            is_new(factory.handler, store, mode),
    {
        GatewayFactory { handler: GatewayServer::with_mode(store, mode) }
    }
}

} // verus!
