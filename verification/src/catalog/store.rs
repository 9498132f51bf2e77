//! Operations on the catalog.
use vstd::prelude::*;

use crate::bytes::{push_be, read_be};
use crate::catalog::codec::{
    database_by_name_key, database_members, decode_database_catalog, decode_index_catalog,
    decode_schema_catalog, decode_table_catalog, decode_u32, decode_view_catalog,
    encode_database_catalog, encode_index_catalog, encode_legacy_table_schema,
    encode_schema_catalog, encode_table_catalog, encode_view_catalog, id_key, index_by_name_key,
    index_by_table_key, index_by_table_prefix, index_members, schema_by_name_key, schema_members,
    stored_database, stored_index, stored_schema, stored_table, stored_view, table_by_name_key,
    table_indexes_path, view_by_name_key, view_members, DATABASES_BY_ID, INDEXES_BY_ID,
    SCHEMAS_BY_ID, TABLES_BY_ID, VIEWS_BY_ID,
};
use crate::catalog::model::{
    at, bootstrapped, counted, database_created, database_dropped, database_found, databases_listed,
    entries_under, entry_for, epoch_bumped, following, id_bytes, index_created, index_dropped,
    index_found, index_with_id, indexes_listed, is_default, is_known, kept, law_bootstrap_is_stable,
    legacy_added, legacy_path, mode_found, next_number, no_database, no_schema, no_table, opened,
    payload, schema_created, schema_dropped, schema_found, schemas_listed, scope_found,
    table_dropped, table_found, table_renamed, table_stored, tables_listed, view_dropped,
    view_found, view_stored, views_listed, with, with_database, with_index, with_schema, with_view,
    without, without_index, without_indexes,
};
use crate::catalog::laws::{
    law_counting_keeps_scopes, law_stored_table_is_found, law_stored_view_is_found,
    law_writing_a_schema_keeps_databases, law_written_database_is_found, law_written_index_is_found,
    law_written_schema_is_found,
};
use crate::catalog::types::{
    CatalogStore, DatabaseCatalog, DatabaseModel, IndexCatalog, IndexModel, SchemaCatalog,
    SchemaModel, TableCatalog, TableEntry, ViewCatalog, ViewModel, DEFAULT_DATABASE_NAME,
    DEFAULT_SCHEMA_NAME,
};
use crate::codec::{schema_key, SCHEMA_PREFIX};
use crate::error::{not_internal, user_error, user_error_text, Report, UserError};
use crate::json::object_text;
use crate::mem_store::{entry_views, Contents, KvStore};
use crate::mode::GatewayMode;
use crate::schema::{
    duplicate_all, law_normalized_is_stable, option_view, seen, seen_all, seen_option, views,
    Duplicate, TableSchema,
};
use crate::sorting::sort_items;
use crate::text::{same_text, string_from_utf8, three_texts};

verus! {

fn no_database_error(name: &str) -> (error: UserError)
    ensures
        error@ == no_database(name@),
{
    user_error_text("3D000", three_texts("database '", name, "' does not exist"))
}

fn no_schema_error(name: &str) -> (error: UserError)
    ensures
        error@ == no_schema(name@),
{
    user_error_text("3F000", three_texts("schema '", name, "' does not exist"))
}

fn no_table_error(name: &str) -> (error: UserError)
    ensures
        error@ == no_table(name@),
{
    user_error_text("42P01", three_texts("table '", name, "' does not exist"))
}

fn id_to_bytes(id: u32) -> (bytes: Vec<u8>)
    ensures
        bytes@ == id_bytes(id),
{
    let mut bytes: Vec<u8> = Vec::new();
    push_be(&mut bytes, id as u64, 4);
    assert(bytes@ =~= id_bytes(id));
    bytes
}

fn is_default_schema(database_name: &str, schema_name: &str) -> (answer: bool)
    ensures
        answer == is_default(database_name@, schema_name@),
{
    same_text(database_name, DEFAULT_DATABASE_NAME) && same_text(schema_name, DEFAULT_SCHEMA_NAME)
}

impl<S: KvStore> CatalogStore<S> {
    /// What the store holds.
    pub open spec fn contents(&self) -> Contents {
        self.store.contents()
    }

    /// Whether the store fails at nothing.
    pub open spec fn reliable(&self) -> bool {
        self.store.reliable()
    }

    /// A catalog over a store.
    pub fn new(store: S) -> (catalog: Self)
        ensures
            catalog.store == store,
    {
        CatalogStore { store }
    }

    fn read(&self, path: &str) -> (result: Result<Option<Vec<u8>>, UserError>)
        ensures
            not_internal(result) || self.reliable() ==> result is Ok && option_view(result->Ok_0) == at(
                self.contents(),
                path@,
            ),
    {
        match self.store.get(path.as_bytes()) {
            Ok(value) => Ok(value),
            Err(reason) => Err(user_error("XX000", reason.as_str())),
        }
    }

    fn write(&mut self, path: &str, value: &Vec<u8>) -> (result: Result<(), UserError>)
        ensures
            final(self).reliable() == old(self).reliable(),
            not_internal(result) || old(self).reliable() ==> result is Ok && final(self).contents() == with(
                old(self).contents(),
                path@,
                value@,
            ),
    {
        match self.store.put(path.as_bytes(), value.as_slice()) {
            Ok(_) => Ok(()),
            Err(reason) => Err(user_error("XX000", reason.as_str())),
        }
    }

    fn remove(&mut self, path: &str) -> (result: Result<(), UserError>)
        ensures
            final(self).reliable() == old(self).reliable(),
            not_internal(result) || old(self).reliable() ==> result is Ok && final(self).contents()
                == without(old(self).contents(), path@),
    {
        match self.store.delete(path.as_bytes()) {
            Ok(_) => Ok(()),
            Err(reason) => Err(user_error("XX000", reason.as_str())),
        }
    }

    fn entries(&self, path: &str) -> (result: Result<Vec<(Vec<u8>, Vec<u8>)>, UserError>)
        ensures
            not_internal(result) || self.reliable() ==> result is Ok && entry_views(result->Ok_0@)
                == entries_under(self.contents(), path@),
    {
        match self.store.scan_prefix(path.as_bytes()) {
            Ok(entries) => Ok(entries),
            Err(reason) => Err(user_error("XX000", reason.as_str())),
        }
    }

    /// Takes the next identifier of a counter.
    fn allocate_id(&mut self, counter: &str) -> (result: Result<u32, UserError>)
        ensures
            final(self).reliable() == old(self).reliable(),
            not_internal(result) || old(self).reliable() ==> result is Ok && result->Ok_0 == next_number(
                old(self).contents(),
                counter@,
            ) && final(self).contents() == counted(old(self).contents(), counter@),
    {
        let current = match self.read(counter) {
            Ok(current) => current,
            Err(e) => {
                return Err(e);
            },
        };
        let id: u32 = match current {
            Some(bytes) => if bytes.len() == 4 {
                read_be(bytes.as_slice()) as u32
            } else {
                1
            },
            None => 1,
        };
        let next: u32 = id.wrapping_add(1);
        assert(next == following(id));
        match self.write(counter, &id_to_bytes(next)) {
            Ok(_) => Ok(id),
            Err(e) => Err(e),
        }
    }

    fn write_database(&mut self, database: &DatabaseCatalog) -> (result: Result<(), UserError>)
        ensures
            final(self).reliable() == old(self).reliable(),
            not_internal(result) || old(self).reliable() ==> result is Ok && final(self).contents()
                == with_database(old(self).contents(), database@),
            stored_database(object_text(database_members(database@))) == Ok::<DatabaseModel, Report>(database@),
    {
        let payload = encode_database_catalog(database);
        let key = id_key(DATABASES_BY_ID, database.database_id);
        match self.write(key.as_str(), &payload) {
            Ok(_) => {},
            Err(e) => {
                return Err(e);
            },
        }
        let name = database_by_name_key(database.database_name.as_str());
        self.write(name.as_str(), &id_to_bytes(database.database_id))
    }

    fn write_schema(&mut self, schema: &SchemaCatalog) -> (result: Result<(), UserError>)
        ensures
            final(self).reliable() == old(self).reliable(),
            not_internal(result) || old(self).reliable() ==> result is Ok && final(self).contents()
                == with_schema(old(self).contents(), schema@),
            stored_schema(object_text(schema_members(schema@))) == Ok::<SchemaModel, Report>(schema@),
    {
        let payload = encode_schema_catalog(schema);
        let key = id_key(SCHEMAS_BY_ID, schema.schema_id);
        match self.write(key.as_str(), &payload) {
            Ok(_) => {},
            Err(e) => {
                return Err(e);
            },
        }
        let name = schema_by_name_key(schema.database_id, schema.schema_name.as_str());
        self.write(name.as_str(), &id_to_bytes(schema.schema_id))
    }

    fn write_index(&mut self, index: &IndexCatalog) -> (result: Result<(), UserError>)
        ensures
            final(self).reliable() == old(self).reliable(),
            not_internal(result) || old(self).reliable() ==> result is Ok && final(self).contents()
                == with_index(old(self).contents(), index@),
            stored_index(object_text(index_members(index@))) == Ok::<IndexModel, Report>(index@),
    {
        let payload = encode_index_catalog(index);
        let key = id_key(INDEXES_BY_ID, index.index_id);
        match self.write(key.as_str(), &payload) {
            Ok(_) => {},
            Err(e) => {
                return Err(e);
            },
        }
        let id = id_to_bytes(index.index_id);
        let name = index_by_name_key(index.database_id, index.schema_id, index.index_name.as_str());
        match self.write(name.as_str(), &id) {
            Ok(_) => {},
            Err(e) => {
                return Err(e);
            },
        }
        let table = index_by_table_key(index.table_id, index.index_id);
        self.write(table.as_str(), &id)
    }

    fn write_view(&mut self, view: &ViewCatalog) -> (result: Result<(), UserError>)
        ensures
            final(self).reliable() == old(self).reliable(),
            not_internal(result) || old(self).reliable() ==> result is Ok && final(self).contents()
                == with_view(old(self).contents(), view@),
            stored_view(object_text(view_members(view@))) == Ok::<ViewModel, Report>(view@),
    {
        let payload = encode_view_catalog(view);
        let key = id_key(VIEWS_BY_ID, view.view_id);
        match self.write(key.as_str(), &payload) {
            Ok(_) => {},
            Err(e) => {
                return Err(e);
            },
        }
        let name = view_by_name_key(view.database_id, view.schema_id, view.view_name.as_str());
        self.write(name.as_str(), &id_to_bytes(view.view_id))
    }

    fn drop_index_by_id(&mut self, index: &IndexCatalog) -> (result: Result<(), UserError>)
        ensures
            final(self).reliable() == old(self).reliable(),
            not_internal(result) || old(self).reliable() ==> result is Ok && final(self).contents()
                == without_index(old(self).contents(), index@),
    {
        let key = id_key(INDEXES_BY_ID, index.index_id);
        match self.remove(key.as_str()) {
            Ok(_) => {},
            Err(e) => {
                return Err(e);
            },
        }
        let name = index_by_name_key(index.database_id, index.schema_id, index.index_name.as_str());
        match self.remove(name.as_str()) {
            Ok(_) => {},
            Err(e) => {
                return Err(e);
            },
        }
        let table = index_by_table_key(index.table_id, index.index_id);
        self.remove(table.as_str())
    }

    /// Gives an unused store its default database and schema.
    pub fn ensure_bootstrap(&mut self) -> (result: Result<(), UserError>)
        ensures
            final(self).reliable() == old(self).reliable(),
            not_internal(result) || old(self).reliable() ==> result is Ok && final(self).contents()
                == bootstrapped(old(self).contents()),
    {
        let key = database_by_name_key(DEFAULT_DATABASE_NAME);
        match self.read(key.as_str()) {
            Ok(Some(_)) => {
                return Ok(());
            },
            Ok(None) => {},
            Err(e) => {
                return Err(e);
            },
        }
        match self.write("__catalog__/next_database_id", &id_to_bytes(2)) {
            Ok(_) => {},
            Err(e) => {
                return Err(e);
            },
        }
        match self.write("__catalog__/next_schema_id", &id_to_bytes(2)) {
            Ok(_) => {},
            Err(e) => {
                return Err(e);
            },
        }
        match self.write("__catalog__/next_table_id", &id_to_bytes(1)) {
            Ok(_) => {},
            Err(e) => {
                return Err(e);
            },
        }
        match self.write("__catalog__/next_index_id", &id_to_bytes(1)) {
            Ok(_) => {},
            Err(e) => {
                return Err(e);
            },
        }
        match self.write("__catalog__/next_view_id", &id_to_bytes(1)) {
            Ok(_) => {},
            Err(e) => {
                return Err(e);
            },
        }
        let database = DatabaseCatalog {
            database_id: 1,
            database_name: DEFAULT_DATABASE_NAME.to_string(),
        };
        match self.write_database(&database) {
            Ok(_) => {},
            Err(e) => {
                return Err(e);
            },
        }
        let schema = SchemaCatalog {
            schema_id: 1,
            database_id: 1,
            schema_name: DEFAULT_SCHEMA_NAME.to_string(),
        };
        self.write_schema(&schema)
    }

    /// The mode that the catalog was made in.
    pub fn compat_mode(&self) -> (result: Result<Option<GatewayMode>, UserError>)
        ensures
            not_internal(result) || self.reliable() ==> match result {
                Ok(mode) => mode_found(self.contents()) == Ok::<Option<GatewayMode>, Report>(mode),
                Err(e) => mode_found(self.contents()) == Err::<Option<GatewayMode>, Report>(e@),
            },
    {
        let bytes = match self.read("__catalog__/compat_mode") {
            Ok(Some(bytes)) => bytes,
            Ok(None) => {
                return Ok(None);
            },
            Err(e) => {
                return Err(e);
            },
        };
        match string_from_utf8(bytes) {
            Err(reason) => {
                let mut message = "catalog compat mode is malformed: ".to_string();
                message.push_str(reason.as_str());
                Err(user_error_text("XX000", message))
            },
            Ok(name) => match GatewayMode::parse(name.as_str()) {
                Some(mode) => Ok(Some(mode)),
                None => Err(
                    user_error_text(
                        "XX000",
                        three_texts("catalog compat mode '", name.as_str(), "' is not supported"),
                    ),
                ),
            },
        }
    }

    /// Opens the catalog in a mode.
    pub fn ensure_bootstrap_for_mode(&mut self, mode: GatewayMode) -> (result: Result<
        (),
        UserError,
    >)
        ensures
            final(self).reliable() == old(self).reliable(),
            not_internal(result) || old(self).reliable() ==> final(self).contents() == opened(
                old(self).contents(),
                mode,
            ).1 && match result {
                Ok(_) => opened(old(self).contents(), mode).0 is Ok,
                Err(e) => opened(old(self).contents(), mode).0 == Err::<(), Report>(e@),
            },
    {
        match self.ensure_bootstrap() {
            Ok(_) => {},
            Err(e) => {
                return Err(e);
            },
        }
        match self.compat_mode() {
            Err(e) => Err(e),
            Ok(Some(existing)) => {
                if existing == mode {
                    return Ok(());
                }
                let mut message = "catalog was created in ".to_string();
                message.push_str(existing.as_str());
                message.push_str(" mode and cannot be opened in ");
                message.push_str(mode.as_str());
                message.push_str(" mode");
                Err(user_error_text("XX000", message))
            },
            Ok(None) => {
                let name = crate::text::utf8_bytes(mode.as_str());
                self.write("__catalog__/compat_mode", &name)
            },
        }
    }

    /// The payload that a name leads to by way of an identifier.
    fn stored_payload(&self, name: &str, field: &str, head: &str, missing: &str) -> (result: Result<
        Option<Vec<u8>>,
        UserError,
    >)
        ensures
            not_internal(result) || self.reliable() ==> seen_option(result) == payload(
                self.contents(),
                name@,
                field@,
                head@,
                missing@,
            ),
    {
        let bytes = match self.read(name) {
            Ok(Some(bytes)) => bytes,
            Ok(None) => {
                return Ok(None);
            },
            Err(e) => {
                return Err(e);
            },
        };
        let id = match decode_u32(bytes.as_slice(), field) {
            Ok(id) => id,
            Err(e) => {
                return Err(e);
            },
        };
        let key = id_key(head, id);
        match self.read(key.as_str()) {
            Ok(Some(text)) => Ok(Some(text)),
            Ok(None) => Err(user_error("XX000", missing)),
            Err(e) => Err(e),
        }
    }

    fn find_database(&self, database_name: &str) -> (result: Result<Option<DatabaseCatalog>, UserError>)
        ensures
            not_internal(result) || self.reliable() ==> seen_option(result) == database_found(
                self.contents(),
                database_name@,
            ),
    {
        let key = database_by_name_key(database_name);
        match self.stored_payload(
            key.as_str(),
            "database id",
            DATABASES_BY_ID,
            "catalog database payload missing",
        ) {
            Err(e) => Err(e),
            Ok(None) => Ok(None),
            Ok(Some(text)) => match decode_database_catalog(text.as_slice()) {
                Ok(entry) => Ok(Some(entry)),
                Err(e) => Err(e),
            },
        }
    }

    fn find_schema(&self, database_id: u32, schema_name: &str) -> (result: Result<Option<SchemaCatalog>, UserError>)
        ensures
            not_internal(result) || self.reliable() ==> seen_option(result) == schema_found(
                self.contents(),
                database_id,
                schema_name@,
            ),
    {
        let key = schema_by_name_key(database_id, schema_name);
        match self.stored_payload(
            key.as_str(),
            "schema id",
            SCHEMAS_BY_ID,
            "catalog schema payload missing",
        ) {
            Err(e) => Err(e),
            Ok(None) => Ok(None),
            Ok(Some(text)) => match decode_schema_catalog(text.as_slice()) {
                Ok(entry) => Ok(Some(entry)),
                Err(e) => Err(e),
            },
        }
    }

    fn find_index(&self, database_id: u32, schema_id: u32, index_name: &str) -> (result: Result<Option<IndexCatalog>, UserError>)
        ensures
            not_internal(result) || self.reliable() ==> seen_option(result) == index_found(
                self.contents(),
                database_id,
                schema_id,
                index_name@,
            ),
    {
        let key = index_by_name_key(database_id, schema_id, index_name);
        match self.stored_payload(
            key.as_str(),
            "index id",
            INDEXES_BY_ID,
            "catalog index payload missing",
        ) {
            Err(e) => Err(e),
            Ok(None) => Ok(None),
            Ok(Some(text)) => match decode_index_catalog(text.as_slice()) {
                Ok(entry) => Ok(Some(entry)),
                Err(e) => Err(e),
            },
        }
    }

    fn find_table(&self, database_name: &str, schema_name: &str, table_name: &str) -> (result: Result<
        Option<TableCatalog>,
        UserError,
    >)
        ensures
            not_internal(result) || self.reliable() ==> seen_option(result) == table_found(
                self.contents(),
                database_name@,
                schema_name@,
                table_name@,
            ),
            result matches Ok(Some(table)) ==> table@.table_name == table@.schema.table_name,
    {
        let database = match self.find_database(database_name) {
            Ok(Some(database)) => database,
            Ok(None) => {
                return Ok(None);
            },
            Err(e) => {
                return Err(e);
            },
        };
        let schema = match self.find_schema(database.database_id, schema_name) {
            Ok(Some(schema)) => schema,
            Ok(None) => {
                return Ok(None);
            },
            Err(e) => {
                return Err(e);
            },
        };
        let key = table_by_name_key(database.database_id, schema.schema_id, table_name);
        if is_default_schema(database_name, schema_name) {
            match self.read(key.as_str()) {
                Ok(Some(_)) => {},
                Ok(None) => {
                    return self.load_legacy_default_table(table_name);
                },
                Err(e) => {
                    return Err(e);
                },
            }
        }
        match self.stored_payload(
            key.as_str(),
            "table id",
            TABLES_BY_ID,
            "catalog table payload missing",
        ) {
            Err(e) => Err(e),
            Ok(None) => Ok(None),
            Ok(Some(text)) => match decode_table_catalog(text.as_slice()) {
                Ok(entry) => Ok(Some(entry)),
                Err(e) => Err(e),
            },
        }
    }

    fn load_legacy_default_table(&self, table_name: &str) -> (result: Result<
        Option<TableCatalog>,
        UserError,
    >)
        ensures
            not_internal(result) || self.reliable() ==> seen_option(result) == match at(
                self.contents(),
                legacy_path(table_name@),
            ) {
                None => Ok::<Option<TableEntry>, Report>(None),
                Some(bytes) => match stored_table(bytes) {
                    Err(e) => Err::<Option<TableEntry>, Report>(e),
                    Ok(table) => Ok::<Option<TableEntry>, Report>(Some(table)),
                },
            },
            result matches Ok(Some(table)) ==> table@.table_name == table@.schema.table_name,
    {
        let key = schema_key(table_name);
        match self.read(key.as_str()) {
            Err(e) => Err(e),
            Ok(None) => Ok(None),
            Ok(Some(text)) => match decode_table_catalog(text.as_slice()) {
                Ok(entry) => Ok(Some(entry)),
                Err(e) => Err(e),
            },
        }
    }

    fn find_view(&self, database_name: &str, schema_name: &str, view_name: &str) -> (result: Result<
        Option<ViewCatalog>,
        UserError,
    >)
        ensures
            not_internal(result) || self.reliable() ==> seen_option(result) == view_found(
                self.contents(),
                database_name@,
                schema_name@,
                view_name@,
            ),
    {
        let database = match self.find_database(database_name) {
            Ok(Some(database)) => database,
            Ok(None) => {
                return Ok(None);
            },
            Err(e) => {
                return Err(e);
            },
        };
        let schema = match self.find_schema(database.database_id, schema_name) {
            Ok(Some(schema)) => schema,
            Ok(None) => {
                return Ok(None);
            },
            Err(e) => {
                return Err(e);
            },
        };
        let key = view_by_name_key(database.database_id, schema.schema_id, view_name);
        match self.stored_payload(
            key.as_str(),
            "view id",
            VIEWS_BY_ID,
            "catalog view payload missing",
        ) {
            Err(e) => Err(e),
            Ok(None) => Ok(None),
            Ok(Some(text)) => match decode_view_catalog(text.as_slice()) {
                Ok(entry) => Ok(Some(entry)),
                Err(e) => Err(e),
            },
        }
    }

    fn find_scope(&self, database_name: &str, schema_name: &str) -> (result: Result<
        (DatabaseCatalog, SchemaCatalog),
        UserError,
    >)
        ensures
            not_internal(result) || self.reliable() ==> match result {
                Ok((database, schema)) => scope_found(
                    self.contents(),
                    database_name@,
                    schema_name@,
                ) == Ok::<(DatabaseModel, SchemaModel), Report>((database@, schema@)),
                Err(e) => scope_found(self.contents(), database_name@, schema_name@) == Err::<
                    (DatabaseModel, SchemaModel),
                    Report,
                >(e@),
            },
    {
        let database = match self.find_database(database_name) {
            Ok(Some(database)) => database,
            Ok(None) => {
                return Err(no_database_error(database_name));
            },
            Err(e) => {
                return Err(e);
            },
        };
        match self.find_schema(database.database_id, schema_name) {
            Ok(Some(schema)) => Ok((database, schema)),
            Ok(None) => Err(no_schema_error(schema_name)),
            Err(e) => Err(e),
        }
    }

    /// The database with a name.
    pub fn get_database(&mut self, database_name: &str) -> (result: Result<Option<DatabaseCatalog>, UserError>)
        ensures
            final(self).reliable() == old(self).reliable(),
            not_internal(result) || old(self).reliable() ==> final(self).contents() == bootstrapped(
                old(self).contents(),
            ) && seen_option(result) == database_found(bootstrapped(old(self).contents()), database_name@),
    {
        match self.ensure_bootstrap() {
            Ok(_) => {},
            Err(e) => {
                return Err(e);
            },
        }
        self.find_database(database_name)
    }

    /// The schema of a database with a name.
    pub fn get_schema(&mut self, database_id: u32, schema_name: &str) -> (result: Result<Option<SchemaCatalog>, UserError>)
        ensures
            final(self).reliable() == old(self).reliable(),
            not_internal(result) || old(self).reliable() ==> final(self).contents() == bootstrapped(
                old(self).contents(),
            ) && seen_option(result) == schema_found(
                bootstrapped(old(self).contents()),
                database_id,
                schema_name@,
            ),
    {
        match self.ensure_bootstrap() {
            Ok(_) => {},
            Err(e) => {
                return Err(e);
            },
        }
        self.find_schema(database_id, schema_name)
    }

    /// The index of a schema with a name.
    pub fn get_index(&mut self, database_id: u32, schema_id: u32, index_name: &str) -> (result: Result<Option<IndexCatalog>, UserError>)
        ensures
            final(self).reliable() == old(self).reliable(),
            not_internal(result) || old(self).reliable() ==> final(self).contents() == bootstrapped(
                old(self).contents(),
            ) && seen_option(result) == index_found(
                bootstrapped(old(self).contents()),
                database_id,
                schema_id,
                index_name@,
            ),
    {
        match self.ensure_bootstrap() {
            Ok(_) => {},
            Err(e) => {
                return Err(e);
            },
        }
        self.find_index(database_id, schema_id, index_name)
    }

    /// The table of a schema with a name.
    pub fn load_table(&mut self, database_name: &str, schema_name: &str, table_name: &str) -> (result: Result<Option<TableCatalog>, UserError>)
        ensures
            final(self).reliable() == old(self).reliable(),
            not_internal(result) || old(self).reliable() ==> final(self).contents() == bootstrapped(
                old(self).contents(),
            ) && seen_option(result) == table_found(
                bootstrapped(old(self).contents()),
                database_name@,
                schema_name@,
                table_name@,
            ),
            result matches Ok(Some(table)) ==> table@.table_name == table@.schema.table_name,
    {
        match self.ensure_bootstrap() {
            Ok(_) => {},
            Err(e) => {
                return Err(e);
            },
        }
        self.find_table(database_name, schema_name, table_name)
    }

    /// The view of a schema with a name.
    pub fn load_view(&mut self, database_name: &str, schema_name: &str, view_name: &str) -> (result: Result<Option<ViewCatalog>, UserError>)
        ensures
            final(self).reliable() == old(self).reliable(),
            not_internal(result) || old(self).reliable() ==> final(self).contents() == bootstrapped(
                old(self).contents(),
            ) && seen_option(result) == view_found(
                bootstrapped(old(self).contents()),
                database_name@,
                schema_name@,
                view_name@,
            ),
    {
        match self.ensure_bootstrap() {
            Ok(_) => {},
            Err(e) => {
                return Err(e);
            },
        }
        self.find_view(database_name, schema_name, view_name)
    }

    /// Takes an identifier for a new table.
    pub fn allocate_table_id(&mut self) -> (result: Result<u32, UserError>)
        ensures
            final(self).reliable() == old(self).reliable(),
            not_internal(result) || old(self).reliable() ==> result is Ok && result->Ok_0 == next_number(
                bootstrapped(old(self).contents()),
                "__catalog__/next_table_id"@,
            ) && final(self).contents() == counted(
                bootstrapped(old(self).contents()),
                "__catalog__/next_table_id"@,
            ),
    {
        match self.ensure_bootstrap() {
            Ok(_) => {},
            Err(e) => {
                return Err(e);
            },
        }
        self.allocate_id("__catalog__/next_table_id")
    }

    /// Creates a database with its default schema.
    pub fn create_database(&mut self, database_name: &str, if_not_exists: bool) -> (result: Result<
        DatabaseCatalog,
        UserError,
    >)
        ensures
            final(self).reliable() == old(self).reliable(),
            not_internal(result) || old(self).reliable() ==> (seen(result), final(self).contents())
                == database_created(old(self).contents(), database_name@, if_not_exists),
            result matches Ok(database) ==> database_found(
                final(self).contents(),
                database_name@,
            ) == Ok::<Option<DatabaseModel>, Report>(Some(database@)),
    {
        match self.ensure_bootstrap() {
            Ok(_) => {},
            Err(e) => {
                return Err(e);
            },
        }
        match self.find_database(database_name) {
            Err(e) => {
                return Err(e);
            },
            Ok(Some(existing)) => {
                if if_not_exists {
                    return Ok(existing);
                }
                return Err(
                    user_error_text(
                        "42P04",
                        three_texts("database '", database_name, "' already exists"),
                    ),
                );
            },
            Ok(None) => {},
        }
        let database_id = match self.allocate_id("__catalog__/next_database_id") {
            Ok(id) => id,
            Err(e) => {
                return Err(e);
            },
        };
        let database = DatabaseCatalog { database_id, database_name: database_name.to_string() };
        let ghost named = self.contents();
        match self.write_database(&database) {
            Ok(_) => {},
            Err(e) => {
                return Err(e);
            },
        }
        let schema_id = match self.allocate_id("__catalog__/next_schema_id") {
            Ok(id) => id,
            Err(e) => {
                return Err(e);
            },
        };
        let schema = SchemaCatalog {
            schema_id,
            database_id,
            schema_name: DEFAULT_SCHEMA_NAME.to_string(),
        };
        let ghost made = self.contents();
        match self.write_schema(&schema) {
            Ok(_) => {
                proof {
                    law_written_database_is_found(named, database@);
                    law_counting_keeps_scopes(
                        with_database(named, database@),
                        "__catalog__/next_schema_id"@,
                        database_name@,
                        database_id,
                        schema@.schema_name,
                    );
                    law_writing_a_schema_keeps_databases(made, schema@, database_name@);
                }
                Ok(database)
            },
            Err(e) => Err(e),
        }
    }

    /// Creates a schema.
    pub fn create_schema(
        &mut self,
        database_name: &str,
        schema_name: &str,
        if_not_exists: bool,
    ) -> (result: Result<SchemaCatalog, UserError>)
        ensures
            final(self).reliable() == old(self).reliable(),
            not_internal(result) || old(self).reliable() ==> (seen(result), final(self).contents())
                == schema_created(
                old(self).contents(),
                database_name@,
                schema_name@,
                if_not_exists,
            ),
            result matches Ok(schema) ==> match database_found(
                bootstrapped(old(self).contents()),
                database_name@,
            ) {
                Ok(Some(database)) => schema_found(
                    final(self).contents(),
                    database.database_id,
                    schema_name@,
                ) == Ok::<Option<SchemaModel>, Report>(Some(schema@)),
                _ => false,
            },
    {
        match self.ensure_bootstrap() {
            Ok(_) => {},
            Err(e) => {
                return Err(e);
            },
        }
        let database = match self.find_database(database_name) {
            Err(e) => {
                return Err(e);
            },
            Ok(Some(database)) => database,
            Ok(None) => {
                return Err(no_database_error(database_name));
            },
        };
        match self.find_schema(database.database_id, schema_name) {
            Err(e) => {
                return Err(e);
            },
            Ok(Some(existing)) => {
                if if_not_exists {
                    return Ok(existing);
                }
                return Err(
                    user_error_text("42P06", three_texts("schema '", schema_name, "' already exists")),
                );
            },
            Ok(None) => {},
        }
        let schema_id = match self.allocate_id("__catalog__/next_schema_id") {
            Ok(id) => id,
            Err(e) => {
                return Err(e);
            },
        };
        let schema = SchemaCatalog {
            schema_id,
            database_id: database.database_id,
            schema_name: schema_name.to_string(),
        };
        let ghost before = self.contents();
        match self.write_schema(&schema) {
            Ok(_) => {
                proof {
                    law_written_schema_is_found(before, schema@);
                }
                Ok(schema)
            },
            Err(e) => Err(e),
        }
    }

    /// Stores a table's descriptor.
    pub fn store_table(&mut self, database_name: &str, schema_name: &str, schema: &TableSchema) -> (
    result: Result<(), UserError>)
        ensures
            final(self).reliable() == old(self).reliable(),
            not_internal(result) || old(self).reliable() ==> final(self).contents() == table_stored(
                old(self).contents(),
                database_name@,
                schema_name@,
                schema@,
            ).1 && match result {
                Ok(_) => table_stored(
                    old(self).contents(),
                    database_name@,
                    schema_name@,
                    schema@,
                ).0 is Ok,
                Err(e) => table_stored(
                    old(self).contents(),
                    database_name@,
                    schema_name@,
                    schema@,
                ).0 == Err::<(), Report>(e@),
            },
            result is Ok ==> match scope_found(
                bootstrapped(old(self).contents()),
                database_name@,
                schema_name@,
            ) {
                Ok((database, scope)) => table_found(
                    final(self).contents(),
                    database_name@,
                    schema_name@,
                    schema@.table_name,
                ) == Ok::<Option<TableEntry>, Report>(
                    Some(entry_for(database, scope, schema_name@, schema@)),
                ),
                Err(_) => false,
            },
    {
        match self.ensure_bootstrap() {
            Ok(_) => {},
            Err(e) => {
                return Err(e);
            },
        }
        let ghost start = self.contents();
        let (database, schema_meta) = match self.find_scope(database_name, schema_name) {
            Ok(scope) => scope,
            Err(e) => {
                return Err(e);
            },
        };
        let mut descriptor = schema.duplicate();
        descriptor.normalize_descriptor();
        let table = TableCatalog {
            database_id: database.database_id,
            schema_id: schema_meta.schema_id,
            schema_name: schema_name.to_string(),
            table_name: descriptor.table_name.clone(),
            schema: descriptor,
        };
        let payload = encode_table_catalog(&table);
        proof {
            law_normalized_is_stable(schema@);
            law_stored_table_is_found(
                start,
                database_name@,
                schema_name@,
                database@,
                schema_meta@,
                table@,
            );
        }
        let key = id_key(TABLES_BY_ID, table.schema.table_id);
        match self.write(key.as_str(), &payload) {
            Ok(_) => {},
            Err(e) => {
                return Err(e);
            },
        }
        let name = table_by_name_key(
            database.database_id,
            schema_meta.schema_id,
            table.table_name.as_str(),
        );
        match self.write(name.as_str(), &id_to_bytes(table.schema.table_id)) {
            Ok(_) => {},
            Err(e) => {
                return Err(e);
            },
        }
        if is_default_schema(database_name, schema_name) {
            let legacy = encode_legacy_table_schema(&table.schema);
            let old_key = schema_key(table.table_name.as_str());
            return self.write(old_key.as_str(), &legacy);
        }
        Ok(())
    }

    /// Stores a view; where there is one, it is replaced, left alone or an error.
    pub fn store_view(
        &mut self,
        database_name: &str,
        schema_name: &str,
        view_name: &str,
        definition: &str,
        or_replace: bool,
        if_not_exists: bool,
    ) -> (result: Result<Option<ViewCatalog>, UserError>)
        ensures
            final(self).reliable() == old(self).reliable(),
            not_internal(result) || old(self).reliable() ==> (seen_option(result), final(self).contents())
                == view_stored(
                old(self).contents(),
                database_name@,
                schema_name@,
                view_name@,
                definition@,
                or_replace,
                if_not_exists,
            ),
            result matches Ok(Some(view)) ==> (view_found(
                bootstrapped(old(self).contents()),
                database_name@,
                schema_name@,
                view_name@,
            ) == Ok::<Option<ViewModel>, Report>(None) ==> view_found(
                final(self).contents(),
                database_name@,
                schema_name@,
                view_name@,
            ) == Ok::<Option<ViewModel>, Report>(Some(view@))),
    {
        match self.ensure_bootstrap() {
            Ok(_) => {},
            Err(e) => {
                return Err(e);
            },
        }
        let (database, schema) = match self.find_scope(database_name, schema_name) {
            Ok(scope) => scope,
            Err(e) => {
                return Err(e);
            },
        };
        match self.find_table(database_name, schema_name, view_name) {
            Err(e) => {
                return Err(e);
            },
            Ok(Some(_)) => {
                return Err(
                    user_error_text("42P07", three_texts("relation '", view_name, "' already exists")),
                );
            },
            Ok(None) => {},
        }
        match self.find_view(database_name, schema_name, view_name) {
            Err(e) => {
                return Err(e);
            },
            Ok(Some(existing)) => {
                if if_not_exists {
                    return Ok(None);
                }
                if !or_replace {
                    return Err(
                        user_error_text("42P07", three_texts("view '", view_name, "' already exists")),
                    );
                }
                let view = ViewCatalog { definition: definition.to_string(), ..existing };
                return match self.write_view(&view) {
                    Ok(_) => Ok(Some(view)),
                    Err(e) => Err(e),
                };
            },
            Ok(None) => {},
        }
        let ghost start = self.contents();
        let view_id = match self.allocate_id("__catalog__/next_view_id") {
            Ok(id) => id,
            Err(e) => {
                return Err(e);
            },
        };
        let view = ViewCatalog {
            view_id,
            database_id: database.database_id,
            schema_id: schema.schema_id,
            schema_name: schema_name.to_string(),
            view_name: view_name.to_string(),
            definition: definition.to_string(),
        };
        let ghost before = self.contents();
        match self.write_view(&view) {
            Ok(_) => {
                proof {
                    law_counting_keeps_scopes(
                        start,
                        "__catalog__/next_view_id"@,
                        database_name@,
                        database@.database_id,
                        schema_name@,
                    );
                    law_stored_view_is_found(
                        before,
                        database_name@,
                        schema_name@,
                        database@,
                        schema@,
                        view@,
                    );
                }
                Ok(Some(view))
            },
            Err(e) => Err(e),
        }
    }

    /// Takes a view away.
    pub fn drop_view(&mut self, database_name: &str, schema_name: &str, view_name: &str) -> (result:
        Result<Option<ViewCatalog>, UserError>)
        ensures
            final(self).reliable() == old(self).reliable(),
            not_internal(result) || old(self).reliable() ==> (seen_option(result), final(self).contents())
                == view_dropped(
                old(self).contents(),
                database_name@,
                schema_name@,
                view_name@,
            ),
    {
        let view = match self.load_view(database_name, schema_name, view_name) {
            Ok(Some(view)) => view,
            Ok(None) => {
                return Ok(None);
            },
            Err(e) => {
                return Err(e);
            },
        };
        let key = id_key(VIEWS_BY_ID, view.view_id);
        match self.remove(key.as_str()) {
            Ok(_) => {},
            Err(e) => {
                return Err(e);
            },
        }
        let name = view_by_name_key(view.database_id, view.schema_id, view_name);
        match self.remove(name.as_str()) {
            Ok(_) => Ok(Some(view)),
            Err(e) => Err(e),
        }
    }

    /// Takes a schema away.
    pub fn drop_schema(&mut self, database_name: &str, schema_name: &str) -> (result: Result<
        Option<SchemaCatalog>,
        UserError,
    >)
        ensures
            final(self).reliable() == old(self).reliable(),
            not_internal(result) || old(self).reliable() ==> (seen_option(result), final(self).contents())
                == schema_dropped(old(self).contents(), database_name@, schema_name@),
    {
        let database = match self.get_database(database_name) {
            Ok(Some(database)) => database,
            Ok(None) => {
                return Ok(None);
            },
            Err(e) => {
                return Err(e);
            },
        };
        let schema = match self.find_schema(database.database_id, schema_name) {
            Ok(Some(schema)) => schema,
            Ok(None) => {
                return Ok(None);
            },
            Err(e) => {
                return Err(e);
            },
        };
        let key = id_key(SCHEMAS_BY_ID, schema.schema_id);
        match self.remove(key.as_str()) {
            Ok(_) => {},
            Err(e) => {
                return Err(e);
            },
        }
        let name = schema_by_name_key(database.database_id, schema_name);
        match self.remove(name.as_str()) {
            Ok(_) => Ok(Some(schema)),
            Err(e) => Err(e),
        }
    }

    /// Takes a database away.
    pub fn drop_database(&mut self, database_name: &str) -> (result: Result<
        Option<DatabaseCatalog>,
        UserError,
    >)
        ensures
            final(self).reliable() == old(self).reliable(),
            not_internal(result) || old(self).reliable() ==> (seen_option(result), final(self).contents())
                == database_dropped(old(self).contents(), database_name@),
    {
        let database = match self.get_database(database_name) {
            Ok(Some(database)) => database,
            Ok(None) => {
                return Ok(None);
            },
            Err(e) => {
                return Err(e);
            },
        };
        let key = id_key(DATABASES_BY_ID, database.database_id);
        match self.remove(key.as_str()) {
            Ok(_) => {},
            Err(e) => {
                return Err(e);
            },
        }
        let name = database_by_name_key(database_name);
        match self.remove(name.as_str()) {
            Ok(_) => Ok(Some(database)),
            Err(e) => Err(e),
        }
    }

    /// Gives a table another name.
    pub fn rename_table(
        &mut self,
        database_name: &str,
        schema_name: &str,
        old_table_name: &str,
        new_table_name: &str,
    ) -> (result: Result<TableCatalog, UserError>)
        ensures
            final(self).reliable() == old(self).reliable(),
            not_internal(result) || old(self).reliable() ==> (seen(result), final(self).contents())
                == table_renamed(
                old(self).contents(),
                database_name@,
                schema_name@,
                old_table_name@,
                new_table_name@,
            ),
    {
        match self.ensure_bootstrap() {
            Ok(_) => {},
            Err(e) => {
                return Err(e);
            },
        }
        let (database, schema) = match self.find_scope(database_name, schema_name) {
            Ok(scope) => scope,
            Err(e) => {
                return Err(e);
            },
        };
        match self.find_table(database_name, schema_name, new_table_name) {
            Err(e) => {
                return Err(e);
            },
            Ok(Some(_)) => {
                return Err(
                    user_error_text("42P07", three_texts("table '", new_table_name, "' already exists")),
                );
            },
            Ok(None) => {},
        }
        let mut table = match self.find_table(database_name, schema_name, old_table_name) {
            Ok(Some(table)) => table,
            Ok(None) => {
                return Err(no_table_error(old_table_name));
            },
            Err(e) => {
                return Err(e);
            },
        };
        let key = table_by_name_key(database.database_id, schema.schema_id, old_table_name);
        match self.remove(key.as_str()) {
            Ok(_) => {},
            Err(e) => {
                return Err(e);
            },
        }
        if is_default_schema(database_name, schema_name) {
            let legacy = schema_key(old_table_name);
            match self.remove(legacy.as_str()) {
                Ok(_) => {},
                Err(e) => {
                    return Err(e);
                },
            }
        }
        table.table_name = new_table_name.to_string();
        table.schema.table_name = new_table_name.to_string();
        match self.store_table(database_name, schema_name, &table.schema) {
            Ok(_) => Ok(table),
            Err(e) => Err(e),
        }
    }

    /// Starts a table's next epoch, in which it has no rows.
    pub fn bump_table_epoch(&mut self, database_name: &str, schema_name: &str, table_name: &str) -> (
    result: Result<TableCatalog, UserError>)
        ensures
            final(self).reliable() == old(self).reliable(),
            not_internal(result) || old(self).reliable() ==> (seen(result), final(self).contents())
                == epoch_bumped(
                old(self).contents(),
                database_name@,
                schema_name@,
                table_name@,
            ),
    {
        let mut table = match self.load_table(database_name, schema_name, table_name) {
            Ok(Some(table)) => table,
            Ok(None) => {
                return Err(no_table_error(table_name));
            },
            Err(e) => {
                return Err(e);
            },
        };
        proof {
            law_bootstrap_is_stable(old(self).contents());
        }
        table.schema.table_epoch = table.schema.table_epoch.saturating_add(1);
        if table.schema.schema_version == 0 {
            table.schema.schema_version = 1;
        }
        match self.store_table(database_name, schema_name, &table.schema) {
            Ok(_) => Ok(table),
            Err(e) => Err(e),
        }
    }

    /// Creates an index.
    pub fn create_index(
        &mut self,
        database_name: &str,
        schema_name: &str,
        table_name: &str,
        index_name: &str,
        column_names: &Vec<String>,
        unique: bool,
        if_not_exists: bool,
    ) -> (result: Result<Option<IndexCatalog>, UserError>)
        ensures
            final(self).reliable() == old(self).reliable(),
            not_internal(result) || old(self).reliable() ==> (seen_option(result), final(self).contents())
                == index_created(
                old(self).contents(),
                database_name@,
                schema_name@,
                table_name@,
                index_name@,
                views(column_names@),
                unique,
                if_not_exists,
            ),
            result matches Ok(Some(index)) ==> index_found(
                final(self).contents(),
                index@.database_id,
                index@.schema_id,
                index_name@,
            ) == Ok::<Option<IndexModel>, Report>(Some(index@)),
    {
        let table = match self.load_table(database_name, schema_name, table_name) {
            Ok(Some(table)) => table,
            Ok(None) => {
                return Err(no_table_error(table_name));
            },
            Err(e) => {
                return Err(e);
            },
        };
        match self.find_index(table.database_id, table.schema_id, index_name) {
            Err(e) => {
                return Err(e);
            },
            Ok(Some(_)) => {
                if if_not_exists {
                    return Ok(None);
                }
                return Err(
                    user_error_text("42P07", three_texts("relation '", index_name, "' already exists")),
                );
            },
            Ok(None) => {},
        }
        if column_names.len() == 0 {
            return Err(user_error("42601", "CREATE INDEX requires at least one column"));
        }
        let index_id = match self.allocate_id("__catalog__/next_index_id") {
            Ok(id) => id,
            Err(e) => {
                return Err(e);
            },
        };
        let index = IndexCatalog {
            index_id,
            database_id: table.database_id,
            schema_id: table.schema_id,
            table_id: table.schema.table_id,
            schema_name: schema_name.to_string(),
            table_name: table_name.to_string(),
            index_name: index_name.to_string(),
            column_name: column_names[0].clone(),
            column_names: duplicate_all(column_names),
            unique,
        };
        let ghost before = self.contents();
        match self.write_index(&index) {
            Ok(_) => {
                proof {
                    law_written_index_is_found(before, index@);
                }
                Ok(Some(index))
            },
            Err(e) => Err(e),
        }
    }

    /// Takes an index away.
    pub fn drop_index(&mut self, database_id: u32, schema_id: u32, index_name: &str) -> (result:
        Result<Option<IndexCatalog>, UserError>)
        ensures
            final(self).reliable() == old(self).reliable(),
            not_internal(result) || old(self).reliable() ==> (seen_option(result), final(self).contents())
                == index_dropped(old(self).contents(), database_id, schema_id, index_name@),
    {
        let index = match self.get_index(database_id, schema_id, index_name) {
            Ok(Some(index)) => index,
            Ok(None) => {
                return Ok(None);
            },
            Err(e) => {
                return Err(e);
            },
        };
        match self.drop_index_by_id(&index) {
            Ok(_) => Ok(Some(index)),
            Err(e) => Err(e),
        }
    }

    fn read_databases(entries: &Vec<(Vec<u8>, Vec<u8>)>) -> (result: Result<Vec<DatabaseCatalog>, UserError>)
        ensures
            seen_all(result) == kept(
                entry_views(entries@),
                |bytes: Seq<u8>| stored_database(bytes),
                |database: DatabaseModel| true,
                seq![],
            ),
    {
        let ghost all = entry_views(entries@);
        let ghost reader = |bytes: Seq<u8>| stored_database(bytes);
        let ghost wanted = |database: DatabaseModel| true;
        let mut done: Vec<DatabaseCatalog> = Vec::new();
        let mut i: usize = 0;
        assert(all.skip(0) =~= all);
        assert(views(done@) =~= seq![]);
        while i < entries.len()
            invariant
                i <= entries@.len(),
                all == entry_views(entries@),
                reader == (|bytes: Seq<u8>| stored_database(bytes)),
                wanted == (|database: DatabaseModel| true),
                kept(all, reader, wanted, seq![]) == kept(
                    all.skip(i as int),
                    reader,
                    wanted,
                    views(done@),
                ),
            decreases entries@.len() - i,
        {
            let ghost so_far = views(done@);
            assert(all.skip(i as int)[0].1 == entries@[i as int].1@);
            assert(all.skip(i as int).skip(1) =~= all.skip(i + 1));
            match decode_database_catalog(entries[i].1.as_slice()) {
                Err(e) => {
                    return Err(e);
                },
                Ok(entry) => {
                    done.push(entry);
                    assert(views(done@) =~= so_far.push(entry@));
                },
            }
            i += 1;
        }
        Ok(done)
    }

    fn read_schemas(entries: &Vec<(Vec<u8>, Vec<u8>)>, database_id: u32) -> (result: Result<Vec<SchemaCatalog>, UserError>)
        ensures
            seen_all(result) == kept(
                entry_views(entries@),
                |bytes: Seq<u8>| stored_schema(bytes),
                |schema: SchemaModel| schema.database_id == database_id,
                seq![],
            ),
    {
        let ghost all = entry_views(entries@);
        let ghost reader = |bytes: Seq<u8>| stored_schema(bytes);
        let ghost wanted = |schema: SchemaModel| schema.database_id == database_id;
        let mut done: Vec<SchemaCatalog> = Vec::new();
        let mut i: usize = 0;
        assert(all.skip(0) =~= all);
        assert(views(done@) =~= seq![]);
        while i < entries.len()
            invariant
                i <= entries@.len(),
                all == entry_views(entries@),
                reader == (|bytes: Seq<u8>| stored_schema(bytes)),
                wanted == (|schema: SchemaModel| schema.database_id == database_id),
                kept(all, reader, wanted, seq![]) == kept(
                    all.skip(i as int),
                    reader,
                    wanted,
                    views(done@),
                ),
            decreases entries@.len() - i,
        {
            let ghost so_far = views(done@);
            assert(all.skip(i as int)[0].1 == entries@[i as int].1@);
            assert(all.skip(i as int).skip(1) =~= all.skip(i + 1));
            match decode_schema_catalog(entries[i].1.as_slice()) {
                Err(e) => {
                    return Err(e);
                },
                Ok(entry) => {
                    if entry.database_id == database_id {
                        done.push(entry);
                        assert(views(done@) =~= so_far.push(entry@));
                    }
                },
            }
            i += 1;
        }
        Ok(done)
    }

    fn read_views(entries: &Vec<(Vec<u8>, Vec<u8>)>, database_id: u32) -> (result: Result<Vec<ViewCatalog>, UserError>)
        ensures
            seen_all(result) == kept(
                entry_views(entries@),
                |bytes: Seq<u8>| stored_view(bytes),
                |view: ViewModel| view.database_id == database_id,
                seq![],
            ),
    {
        let ghost all = entry_views(entries@);
        let ghost reader = |bytes: Seq<u8>| stored_view(bytes);
        let ghost wanted = |view: ViewModel| view.database_id == database_id;
        let mut done: Vec<ViewCatalog> = Vec::new();
        let mut i: usize = 0;
        assert(all.skip(0) =~= all);
        assert(views(done@) =~= seq![]);
        while i < entries.len()
            invariant
                i <= entries@.len(),
                all == entry_views(entries@),
                reader == (|bytes: Seq<u8>| stored_view(bytes)),
                wanted == (|view: ViewModel| view.database_id == database_id),
                kept(all, reader, wanted, seq![]) == kept(
                    all.skip(i as int),
                    reader,
                    wanted,
                    views(done@),
                ),
            decreases entries@.len() - i,
        {
            let ghost so_far = views(done@);
            assert(all.skip(i as int)[0].1 == entries@[i as int].1@);
            assert(all.skip(i as int).skip(1) =~= all.skip(i + 1));
            match decode_view_catalog(entries[i].1.as_slice()) {
                Err(e) => {
                    return Err(e);
                },
                Ok(entry) => {
                    if entry.database_id == database_id {
                        done.push(entry);
                        assert(views(done@) =~= so_far.push(entry@));
                    }
                },
            }
            i += 1;
        }
        Ok(done)
    }

    fn read_tables(entries: &Vec<(Vec<u8>, Vec<u8>)>, database_id: u32) -> (result: Result<Vec<TableCatalog>, UserError>)
        ensures
            seen_all(result) == kept(
                entry_views(entries@),
                |bytes: Seq<u8>| stored_table(bytes),
                |table: TableEntry| table.database_id == database_id,
                seq![],
            ),
    {
        let ghost all = entry_views(entries@);
        let ghost reader = |bytes: Seq<u8>| stored_table(bytes);
        let ghost wanted = |table: TableEntry| table.database_id == database_id;
        let mut done: Vec<TableCatalog> = Vec::new();
        let mut i: usize = 0;
        assert(all.skip(0) =~= all);
        assert(views(done@) =~= seq![]);
        while i < entries.len()
            invariant
                i <= entries@.len(),
                all == entry_views(entries@),
                reader == (|bytes: Seq<u8>| stored_table(bytes)),
                wanted == (|table: TableEntry| table.database_id == database_id),
                kept(all, reader, wanted, seq![]) == kept(
                    all.skip(i as int),
                    reader,
                    wanted,
                    views(done@),
                ),
            decreases entries@.len() - i,
        {
            let ghost so_far = views(done@);
            assert(all.skip(i as int)[0].1 == entries@[i as int].1@);
            assert(all.skip(i as int).skip(1) =~= all.skip(i + 1));
            match decode_table_catalog(entries[i].1.as_slice()) {
                Err(e) => {
                    return Err(e);
                },
                Ok(entry) => {
                    if entry.database_id == database_id {
                        done.push(entry);
                        assert(views(done@) =~= so_far.push(entry@));
                    }
                },
            }
            i += 1;
        }
        Ok(done)
    }

    /// Every database, by name.
    pub fn list_databases(&mut self) -> (result: Result<Vec<DatabaseCatalog>, UserError>)
        ensures
            final(self).reliable() == old(self).reliable(),
            not_internal(result) || old(self).reliable() ==> final(self).contents() == bootstrapped(
                old(self).contents(),
            ) && seen_all(result) == databases_listed(bootstrapped(old(self).contents())),
    {
        match self.ensure_bootstrap() {
            Ok(_) => {},
            Err(e) => {
                return Err(e);
            },
        }
        let entries = match self.entries(DATABASES_BY_ID) {
            Ok(entries) => entries,
            Err(e) => {
                return Err(e);
            },
        };
        match Self::read_databases(&entries) {
            Ok(databases) => Ok(sort_items(databases)),
            Err(e) => Err(e),
        }
    }

    /// The schemas of a database, by name.
    pub fn list_schemas(&mut self, database_name: &str) -> (result: Result<Vec<SchemaCatalog>, UserError>)
        ensures
            final(self).reliable() == old(self).reliable(),
            not_internal(result) || old(self).reliable() ==> final(self).contents() == bootstrapped(
                old(self).contents(),
            ) && seen_all(result) == schemas_listed(
                bootstrapped(old(self).contents()),
                database_name@,
            ),
    {
        let database = match self.get_database(database_name) {
            Ok(Some(database)) => database,
            Ok(None) => {
                let none: Vec<SchemaCatalog> = Vec::new();
                assert(views(none@) =~= seq![]);
                return Ok(none);
            },
            Err(e) => {
                return Err(e);
            },
        };
        let entries = match self.entries(SCHEMAS_BY_ID) {
            Ok(entries) => entries,
            Err(e) => {
                return Err(e);
            },
        };
        match Self::read_schemas(&entries, database.database_id) {
            Ok(schemas) => Ok(sort_items(schemas)),
            Err(e) => Err(e),
        }
    }

    /// The views of a database, by schema and name.
    pub fn list_views(&mut self, database_name: &str) -> (result: Result<Vec<ViewCatalog>, UserError>)
        ensures
            final(self).reliable() == old(self).reliable(),
            not_internal(result) || old(self).reliable() ==> final(self).contents() == bootstrapped(
                old(self).contents(),
            ) && seen_all(result) == views_listed(
                bootstrapped(old(self).contents()),
                database_name@,
            ),
    {
        let database = match self.get_database(database_name) {
            Ok(Some(database)) => database,
            Ok(None) => {
                let none: Vec<ViewCatalog> = Vec::new();
                assert(views(none@) =~= seq![]);
                return Ok(none);
            },
            Err(e) => {
                return Err(e);
            },
        };
        let entries = match self.entries(VIEWS_BY_ID) {
            Ok(entries) => entries,
            Err(e) => {
                return Err(e);
            },
        };
        match Self::read_views(&entries, database.database_id) {
            Ok(found) => Ok(sort_items(found)),
            Err(e) => Err(e),
        }
    }

    /// The tables of a database.
    pub fn list_tables(&mut self, database_name: &str) -> (result: Result<Vec<TableCatalog>, UserError>)
        ensures
            final(self).reliable() == old(self).reliable(),
            not_internal(result) || old(self).reliable() ==> final(self).contents() == bootstrapped(
                old(self).contents(),
            ) && seen_all(result) == tables_listed(
                bootstrapped(old(self).contents()),
                database_name@,
            ),
    {
        let database = match self.get_database(database_name) {
            Ok(Some(database)) => database,
            Ok(None) => {
                let none: Vec<TableCatalog> = Vec::new();
                assert(views(none@) =~= seq![]);
                return Ok(none);
            },
            Err(e) => {
                return Err(e);
            },
        };
        let entries = match self.entries(TABLES_BY_ID) {
            Ok(entries) => entries,
            Err(e) => {
                return Err(e);
            },
        };
        match Self::read_tables(&entries, database.database_id) {
            Ok(tables) => {
                if same_text(database_name, DEFAULT_DATABASE_NAME) {
                    self.append_legacy_default_tables(tables)
                } else {
                    Ok(tables)
                }
            },
            Err(e) => Err(e),
        }
    }

    fn append_legacy_default_tables(&self, tables: Vec<TableCatalog>) -> (result: Result<
        Vec<TableCatalog>,
        UserError,
    >)
        ensures
            not_internal(result) || self.reliable() ==> seen_all(result) == legacy_added(
                entries_under(self.contents(), "__schema__:"@),
                views(tables@),
            ),
    {
        let entries = match self.entries(SCHEMA_PREFIX) {
            Ok(entries) => entries,
            Err(e) => {
                return Err(e);
            },
        };
        let ghost all = entry_views(entries@);
        let mut known = tables;
        let mut i: usize = 0;
        assert(all.skip(0) =~= all);
        while i < entries.len()
            invariant
                i <= entries@.len(),
                all == entry_views(entries@),
                all == entries_under(self.contents(), "__schema__:"@),
                legacy_added(all, views(tables@)) == legacy_added(
                    all.skip(i as int),
                    views(known@),
                ),
            decreases entries@.len() - i,
        {
            let ghost so_far = views(known@);
            assert(all.skip(i as int)[0].1 == entries@[i as int].1@);
            assert(all.skip(i as int).skip(1) =~= all.skip(i + 1));
            match decode_table_catalog(entries[i].1.as_slice()) {
                Err(e) => {
                    return Err(e);
                },
                Ok(table) => {
                    if table.database_id == 1 && same_text(
                        table.schema_name.as_str(),
                        DEFAULT_SCHEMA_NAME,
                    ) && !Self::knows(&known, &table) {
                        known.push(table);
                        assert(views(known@) =~= so_far.push(table@));
                    }
                },
            }
            i += 1;
        }
        Ok(known)
    }

    fn knows(tables: &Vec<TableCatalog>, table: &TableCatalog) -> (answer: bool)
        ensures
            answer == is_known(views(tables@), table@),
    {
        let ghost all = views(tables@);
        let mut i: usize = 0;
        while i < tables.len()
            invariant
                i <= tables@.len(),
                all == views(tables@),
                forall|k: int|
                    0 <= k < i ==> (#[trigger] all[k]).schema.table_id != table@.schema.table_id
                        && all[k].table_name != table@.table_name,
            decreases tables@.len() - i,
        {
            assert(all[i as int] == tables@[i as int]@);
            if tables[i].schema.table_id == table.schema.table_id || tables[i].table_name
                == table.table_name {
                return true;
            }
            i += 1;
        }
        false
    }

    fn read_index(&self, bytes: &[u8]) -> (result: Result<IndexCatalog, UserError>)
        ensures
            not_internal(result) || self.reliable() ==> seen(result) == index_with_id(
                self.contents(),
                bytes@,
            ),
    {
        let id = match decode_u32(bytes, "index id") {
            Ok(id) => id,
            Err(e) => {
                return Err(e);
            },
        };
        let key = id_key(INDEXES_BY_ID, id);
        match self.read(key.as_str()) {
            Ok(Some(text)) => decode_index_catalog(text.as_slice()),
            Ok(None) => Err(user_error("XX000", "catalog index payload missing")),
            Err(e) => Err(e),
        }
    }

    /// The indexes of a table, by name.
    pub fn list_indexes_for_table(&mut self, table_id: u32) -> (result: Result<
        Vec<IndexCatalog>,
        UserError,
    >)
        ensures
            final(self).reliable() == old(self).reliable(),
            not_internal(result) || old(self).reliable() ==> final(self).contents() == bootstrapped(
                old(self).contents(),
            ) && seen_all(result) == indexes_listed(bootstrapped(old(self).contents()), table_id),
    {
        match self.ensure_bootstrap() {
            Ok(_) => {},
            Err(e) => {
                return Err(e);
            },
        }
        let path = index_by_table_prefix(table_id);
        let entries = match self.entries(path.as_str()) {
            Ok(entries) => entries,
            Err(e) => {
                return Err(e);
            },
        };
        let ghost contents = self.contents();
        let ghost all = entry_views(entries@);
        let ghost reader = |bytes: Seq<u8>| index_with_id(contents, bytes);
        let ghost wanted = |index: IndexModel| true;
        let mut done: Vec<IndexCatalog> = Vec::new();
        let mut i: usize = 0;
        assert(all.skip(0) =~= all);
        assert(views(done@) =~= seq![]);
        while i < entries.len()
            invariant
                i <= entries@.len(),
                contents == self.contents(),
                self.reliable() == old(self).reliable(),
                contents == bootstrapped(old(self).contents()),
                all == entry_views(entries@),
                all == entries_under(contents, table_indexes_path(table_id)),
                reader == (|bytes: Seq<u8>| index_with_id(contents, bytes)),
                wanted == (|index: IndexModel| true),
                kept(all, reader, wanted, seq![]) == kept(
                    all.skip(i as int),
                    reader,
                    wanted,
                    views(done@),
                ),
            decreases entries@.len() - i,
        {
            let ghost so_far = views(done@);
            assert(all.skip(i as int)[0].1 == entries@[i as int].1@);
            assert(all.skip(i as int).skip(1) =~= all.skip(i + 1));
            match self.read_index(entries[i].1.as_slice()) {
                Err(e) => {
                    return Err(e);
                },
                Ok(index) => {
                    done.push(index);
                    assert(views(done@) =~= so_far.push(index@));
                },
            }
            i += 1;
        }
        Ok(sort_items(done))
    }

    /// Takes a table and its indexes away.
    pub fn drop_table(&mut self, database_name: &str, schema_name: &str, table_name: &str) -> (
    result: Result<Option<TableCatalog>, UserError>)
        ensures
            final(self).reliable() == old(self).reliable(),
            not_internal(result) || old(self).reliable() ==> (seen_option(result), final(self).contents())
                == table_dropped(
                old(self).contents(),
                database_name@,
                schema_name@,
                table_name@,
            ),
    {
        let table = match self.load_table(database_name, schema_name, table_name) {
            Ok(Some(table)) => table,
            Ok(None) => {
                return Ok(None);
            },
            Err(e) => {
                return Err(e);
            },
        };
        let key = id_key(TABLES_BY_ID, table.schema.table_id);
        match self.remove(key.as_str()) {
            Ok(_) => {},
            Err(e) => {
                return Err(e);
            },
        }
        let name = table_by_name_key(table.database_id, table.schema_id, table_name);
        match self.remove(name.as_str()) {
            Ok(_) => {},
            Err(e) => {
                return Err(e);
            },
        }
        let indexes = match self.list_indexes_for_table(table.schema.table_id) {
            Ok(indexes) => indexes,
            Err(e) => {
                return Err(e);
            },
        };
        let ghost cleared = self.contents();
        let ghost all = views(indexes@);
        let mut i: usize = 0;
        assert(without_indexes(cleared, all.take(0)) == cleared);
        while i < indexes.len()
            invariant
                i <= indexes@.len(),
                all == views(indexes@),
                self.reliable() == old(self).reliable(),
                self.contents() == without_indexes(cleared, all.take(i as int)),
            decreases indexes@.len() - i,
        {
            assert(all.take(i + 1).drop_last() =~= all.take(i as int));
            assert(all.take(i + 1).last() == indexes@[i as int]@);
            match self.drop_index_by_id(&indexes[i]) {
                Ok(_) => {},
                Err(e) => {
                    return Err(e);
                },
            }
            i += 1;
        }
        assert(all.take(i as int) =~= all);
        if is_default_schema(database_name, schema_name) {
            let legacy = schema_key(table_name);
            match self.remove(legacy.as_str()) {
                Ok(_) => {},
                Err(e) => {
                    return Err(e);
                },
            }
        }
        Ok(Some(table))
    }
}

} // verus!
