//! The state of the gateway, and how names of tables are resolved.
use vstd::prelude::*;

use crate::catalog::codec::{resolve_table_reference, table_reference};
use crate::catalog::model::{bootstrapped, law_bootstrap_is_stable, no_table, table_found};
use crate::catalog::types::{
    CatalogStore, DatabaseCatalog, DatabaseModel, SchemaModel, DEFAULT_SCHEMA_NAME,
};
use crate::error::{not_internal, user_error_text, Report, UserError};
use crate::mem_store::{Contents, KvStore};
use crate::mode::GatewayMode;
use crate::names::{object_name, object_name_to_string, ObjectName, PartModel};
use crate::schema::{option_view, seen_option, views, TableModel, TableSchema};
use crate::server::lock_table::{LockState, LockTable};
use crate::server::session::{no_sessions, Sessions};
use crate::text::{chars_of, find_mark, mark_at, three_texts};

verus! {

/// The gateway: its catalog, the dialect that it speaks, and the locks and transactions of its
/// sessions.
pub struct GatewayServer<S: KvStore> {
    pub catalog: CatalogStore<S>,
    pub mode: GatewayMode,
    pub locks: LockTable,
    pub sessions: Sessions,
}

/// Whether a store is as it was, or has just been given the default database.
pub open spec fn only_opened(before: Contents, after: Contents) -> bool {
    after == before || after == bootstrapped(before)
}

/// The first schema of a search path that has a table, with the table; else the first schema.
pub open spec fn table_searched(
    contents: Contents,
    database_name: Seq<char>,
    search_path: Seq<Seq<char>>,
    from: int,
    table_name: Seq<char>,
) -> Result<(Seq<char>, Option<TableModel>), Report>
    decreases search_path.len() - from,
{
    if from < 0 || from >= search_path.len() {
        Ok(
            (
                if search_path.len() > 0 {
                    search_path[0]
                } else {
                    "public"@
                },
                None,
            ),
        )
    } else {
        match table_found(contents, database_name, search_path[from], table_name) {
            Err(e) => Err(e),
            Ok(Some(table)) => Ok((search_path[from], Some(table.schema))),
            Ok(None) => table_searched(contents, database_name, search_path, from + 1, table_name),
        }
    }
}

/// Whether the name of a table has a dot and is still no schema and table, as is seen without a
/// look at any table.
pub open spec fn is_misreferred(table_name: Seq<char>) -> bool {
    mark_at(table_name, '.') is Some && table_reference(table_name) is Err
}

/// Whether what is written can be the name of no table.
pub open spec fn is_misnamed(name: Seq<PartModel>) -> bool {
    match object_name(name) {
        Err(_) => true,
        Ok(text) => is_misreferred(text),
    }
}

/// The schema of a name and the table that it names there, where there is one: a name with a
/// dot names its schema, any other is looked for along the search path.
pub open spec fn table_resolved(
    contents: Contents,
    database_name: Seq<char>,
    search_path: Seq<Seq<char>>,
    table_name: Seq<char>,
) -> Result<(Seq<char>, Option<TableModel>), Report> {
    if mark_at(table_name, '.') is Some {
        match table_reference(table_name) {
            Err(e) => Err(e),
            Ok((schema, table)) => match table_found(contents, database_name, schema, table) {
                Err(e) => Err(e),
                Ok(None) => Ok((schema, None)),
                Ok(Some(entry)) => Ok((schema, Some(entry.schema))),
            },
        }
    } else {
        table_searched(contents, database_name, search_path, 0, table_name)
    }
}

/// What is seen of a resolved table.
pub open spec fn seen_table(result: Result<(String, Option<TableSchema>), UserError>) -> Result<
    (Seq<char>, Option<TableModel>),
    Report,
> {
    match result {
        Ok(found) => Ok((found.0@, option_view(found.1))),
        Err(error) => Err(error@),
    }
}

/// A table that has to be there.
pub open spec fn table_required(
    contents: Contents,
    database_name: Seq<char>,
    search_path: Seq<Seq<char>>,
    table_name: Seq<char>,
) -> Result<(Seq<char>, TableModel), Report> {
    match table_resolved(contents, database_name, search_path, table_name) {
        Err(e) => Err(e),
        Ok((schema, None)) => Err(no_table(table_name)),
        Ok((schema, Some(table))) => Ok((schema, table)),
    }
}

/// What is seen of a table that was found.
pub open spec fn seen_found(result: Result<(String, TableSchema), UserError>) -> Result<
    (Seq<char>, TableModel),
    Report,
> {
    match result {
        Ok(found) => Ok((found.0@, found.1@)),
        Err(error) => Err(error@),
    }
}

/// The schema and the name of an object: from the name where it has a dot, else in a default
/// schema.
pub open spec fn scoped_name(default_schema: Seq<char>, name: Seq<char>) -> Result<
    (Seq<char>, Seq<char>),
    Report,
> {
    if mark_at(name, '.') is Some {
        table_reference(name)
    } else {
        Ok((default_schema, name))
    }
}

/// Whether a name has a dot.
pub fn has_dot(name: &str) -> (answer: bool)
    ensures
        answer == (mark_at(name@, '.') is Some),
{
    let chars = chars_of(name);
    find_mark(chars.as_slice(), '.').is_some()
}

/// The schema and the name of an object.
pub fn resolve_scoped_name(default_schema: &str, name: &str) -> (result: Result<
    (String, String),
    UserError,
>)
    ensures
        crate::catalog::codec::seen_names(result) == scoped_name(default_schema@, name@),
{
    if has_dot(name) {
        resolve_table_reference(name)
    } else {
        Ok((default_schema.to_string(), name.to_string()))
    }
}

/// A schema of a database, both of which have to be there.
pub open spec fn schema_required(
    contents: Contents,
    database_name: Seq<char>,
    schema_name: Seq<char>,
) -> Result<(DatabaseModel, SchemaModel), Report> {
    crate::catalog::model::scope_found(contents, database_name, schema_name)
}

impl<S: KvStore> GatewayServer<S> {
    /// What the store holds.
    pub open spec fn contents(&self) -> Contents {
        self.catalog.contents()
    }

    /// Whether the store fails at nothing.
    pub open spec fn reliable(&self) -> bool {
        self.catalog.reliable()
    }

    /// Whether two states differ in the store alone.
    pub open spec fn same_sessions(&self, other: &Self) -> bool {
        self.mode == other.mode && self.locks == other.locks && self.sessions == other.sessions
    }

    /// A gateway for PostgreSQL clients over a store.
    pub fn new(store: S) -> (server: Self)
        ensures
            server.catalog.store == store,
            server.mode == GatewayMode::Postgres,
            server.locks@ == (LockState {
                locks: Seq::empty(),
                queue: Seq::empty(),
                waits: Map::empty(),
            }),
            server.sessions@ == no_sessions(),
    {
        Self::with_mode(store, GatewayMode::Postgres)
    }

    /// A gateway for clients of one kind over a store.
    pub fn with_mode(store: S, mode: GatewayMode) -> (server: Self)
        ensures
            server.catalog.store == store,
            server.mode == mode,
            server.locks@ == (LockState {
                locks: Seq::empty(),
                queue: Seq::empty(),
                waits: Map::empty(),
            }),
            server.sessions@ == no_sessions(),
    {
        GatewayServer {
            catalog: CatalogStore::new(store),
            mode,
            locks: LockTable::new(),
            sessions: Sessions::new(),
        }
    }

    /// The schema of a name and the table that it names there, where there is one.
    pub fn resolve_table_schema(
        &mut self,
        database_name: &str,
        search_path: &Vec<String>,
        table_name: &str,
    ) -> (result: Result<(String, Option<TableSchema>), UserError>)
        ensures
            final(self).reliable() == old(self).reliable(),
            final(self).same_sessions(old(self)),
            is_misreferred(table_name@) ==> final(self).contents() == old(self).contents(),
            not_internal(result) || old(self).reliable() || is_misreferred(table_name@)
                ==> only_opened(
                old(self).contents(),
                final(self).contents(),
            ) && seen_table(result) == table_resolved(
                bootstrapped(old(self).contents()),
                database_name@,
                views(search_path@),
                table_name@,
            ),
    {
        let ghost opened = bootstrapped(self.contents());
        proof {
            law_bootstrap_is_stable(self.contents());
        }
        if has_dot(table_name) {
            return match resolve_table_reference(table_name) {
                Err(e) => Err(e),
                Ok((schema_name, name)) => match self.catalog.load_table(
                    database_name,
                    schema_name.as_str(),
                    name.as_str(),
                ) {
                    Err(e) => Err(e),
                    Ok(Some(table)) => Ok((schema_name, Some(table.schema))),
                    Ok(None) => Ok((schema_name, None)),
                },
            };
        }
        let ghost path = views(search_path@);
        let mut i: usize = 0;
        while i < search_path.len()
            invariant
                i <= search_path@.len(),
                path == views(search_path@),
                opened == bootstrapped(old(self).contents()),
                opened == bootstrapped(opened),
                self.reliable() == old(self).reliable(),
                self.same_sessions(old(self)),
                only_opened(old(self).contents(), self.contents()),
                bootstrapped(self.contents()) == opened,
                mark_at(table_name@, '.') is None,
                table_searched(opened, database_name@, path, 0, table_name@) == table_searched(
                    opened,
                    database_name@,
                    path,
                    i as int,
                    table_name@,
                ),
            decreases search_path@.len() - i,
        {
            assert(path[i as int] == search_path@[i as int]@);
            match self.catalog.load_table(database_name, search_path[i].as_str(), table_name) {
                Err(e) => {
                    return Err(e);
                },
                Ok(Some(table)) => {
                    return Ok((search_path[i].clone(), Some(table.schema)));
                },
                Ok(None) => {},
            }
            i += 1;
        }
        if search_path.len() > 0 {
            assert(path[0] == search_path@[0]@);
            Ok((search_path[0].clone(), None))
        } else {
            Ok((DEFAULT_SCHEMA_NAME.to_string(), None))
        }
    }

    /// A table that has to be there.
    pub fn require_table(
        &mut self,
        database_name: &str,
        search_path: &Vec<String>,
        table_name: &str,
    ) -> (result: Result<(String, TableSchema), UserError>)
        ensures
            final(self).reliable() == old(self).reliable(),
            final(self).same_sessions(old(self)),
            is_misreferred(table_name@) ==> final(self).contents() == old(self).contents(),
            not_internal(result) || old(self).reliable() || is_misreferred(table_name@)
                ==> only_opened(
                old(self).contents(),
                final(self).contents(),
            ) && seen_found(result) == table_required(
                bootstrapped(old(self).contents()),
                database_name@,
                views(search_path@),
                table_name@,
            ),
    {
        match self.resolve_table_schema(database_name, search_path, table_name) {
            Err(e) => Err(e),
            Ok((schema_name, Some(schema))) => Ok((schema_name, schema)),
            Ok((_, None)) => Err(
                user_error_text("42P01", three_texts("table '", table_name, "' does not exist")),
            ),
        }
    }

    /// A table that has to be there, by its name as it is written.
    pub fn resolve_existing_table_schema(
        &mut self,
        database_name: &str,
        search_path: &Vec<String>,
        name: &ObjectName,
    ) -> (result: Result<(String, TableSchema), UserError>)
        ensures
            final(self).reliable() == old(self).reliable(),
            final(self).same_sessions(old(self)),
            is_misnamed(name@) ==> final(self).contents() == old(self).contents(),
            not_internal(result) || old(self).reliable() || is_misnamed(name@) ==> only_opened(
                old(self).contents(),
                final(self).contents(),
            ) && seen_found(result) == existing_table(
                bootstrapped(old(self).contents()),
                database_name@,
                views(search_path@),
                name@,
            ),
    {
        match object_name_to_string(name) {
            Err(e) => Err(e),
            Ok(text) => self.require_table(database_name, search_path, text.as_str()),
        }
    }

    /// The name of a table with its schema, where the search path leads to one.
    pub fn resolve_table_name_for_search_path(
        &mut self,
        database_name: &str,
        search_path: &Vec<String>,
        table_name: &str,
    ) -> (result: Result<Option<String>, UserError>)
        ensures
            final(self).reliable() == old(self).reliable(),
            final(self).same_sessions(old(self)),
            is_misreferred(table_name@) ==> final(self).contents() == old(self).contents(),
            not_internal(result) || old(self).reliable() || is_misreferred(table_name@)
                ==> only_opened(
                old(self).contents(),
                final(self).contents(),
            ) && seen_option(result) == qualified_table(
                bootstrapped(old(self).contents()),
                database_name@,
                views(search_path@),
                table_name@,
            ),
    {
        match self.resolve_table_schema(database_name, search_path, table_name) {
            Err(e) => Err(e),
            Ok((_, None)) => Ok(None),
            Ok((schema_name, Some(table))) => Ok(
                Some(three_texts(schema_name.as_str(), ".", table.table_name.as_str())),
            ),
        }
    }

    /// Makes sure that a schema of a database is there.
    pub fn require_schema(&mut self, database_name: &str, schema_name: &str) -> (result: Result<
        DatabaseCatalog,
        UserError,
    >)
        ensures
            final(self).reliable() == old(self).reliable(),
            final(self).same_sessions(old(self)),
            not_internal(result) || old(self).reliable() ==> only_opened(
                old(self).contents(),
                final(self).contents(),
            ) && match result {
                Ok(database) => schema_required(
                    bootstrapped(old(self).contents()),
                    database_name@,
                    schema_name@,
                ) matches Ok(scope) && scope.0 == database@,
                Err(e) => schema_required(
                    bootstrapped(old(self).contents()),
                    database_name@,
                    schema_name@,
                ) == Err::<(DatabaseModel, SchemaModel), Report>(e@),
            },
    {
        proof {
            law_bootstrap_is_stable(self.contents());
        }
        let database = match self.catalog.get_database(database_name) {
            Err(e) => {
                return Err(e);
            },
            Ok(None) => {
                return Err(
                    user_error_text(
                        "3D000",
                        three_texts("database '", database_name, "' does not exist"),
                    ),
                );
            },
            Ok(Some(database)) => database,
        };
        match self.catalog.get_schema(database.database_id, schema_name) {
            Err(e) => Err(e),
            Ok(None) => Err(
                user_error_text("3F000", three_texts("schema '", schema_name, "' does not exist")),
            ),
            Ok(Some(_)) => Ok(database),
        }
    }
}

/// A table that has to be there, by its name as it is written.
pub open spec fn existing_table(
    contents: Contents,
    database_name: Seq<char>,
    search_path: Seq<Seq<char>>,
    name: Seq<PartModel>,
) -> Result<(Seq<char>, TableModel), Report> {
    match object_name(name) {
        Err(e) => Err(e),
        Ok(text) => table_required(contents, database_name, search_path, text),
    }
}

/// The name of a table with its schema, where the search path leads to one.
pub open spec fn qualified_table(
    contents: Contents,
    database_name: Seq<char>,
    search_path: Seq<Seq<char>>,
    table_name: Seq<char>,
) -> Result<Option<Seq<char>>, Report> {
    match table_resolved(contents, database_name, search_path, table_name) {
        Err(e) => Err(e),
        Ok((schema, None)) => Ok(None),
        Ok((schema, Some(table))) => Ok(Some(schema + "."@ + table.table_name)),
    }
}

} // verus!
