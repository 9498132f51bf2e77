//! What the catalog keeps.
use vstd::prelude::*;

use crate::mem_store::KvStore;
use crate::schema::{duplicate_all, views, Duplicate, TableModel, TableSchema};
use crate::sorting::{is_text_less, text_less, Ordered};

verus! {

/// The database of clients that name none.
pub const DEFAULT_DATABASE_NAME: &'static str = "defaultdb";

/// The schema of names without one.
pub const DEFAULT_SCHEMA_NAME: &'static str = "public";

/// A database.
#[derive(Debug)]
pub struct DatabaseCatalog {
    pub database_id: u32,
    pub database_name: String,
}

/// What a [`DatabaseCatalog`] says.
pub struct DatabaseModel {
    pub database_id: u32,
    pub database_name: Seq<char>,
}

impl View for DatabaseCatalog {
    type V = DatabaseModel;

    open spec fn view(&self) -> DatabaseModel {
        DatabaseModel { database_id: self.database_id, database_name: self.database_name@ }
    }
}

/// A schema of a database.
#[derive(Debug)]
pub struct SchemaCatalog {
    pub schema_id: u32,
    pub database_id: u32,
    pub schema_name: String,
}

/// What a [`SchemaCatalog`] says.
pub struct SchemaModel {
    pub schema_id: u32,
    pub database_id: u32,
    pub schema_name: Seq<char>,
}

impl View for SchemaCatalog {
    type V = SchemaModel;

    open spec fn view(&self) -> SchemaModel {
        SchemaModel {
            schema_id: self.schema_id,
            database_id: self.database_id,
            schema_name: self.schema_name@,
        }
    }
}

/// A table of a schema.
#[derive(Debug)]
pub struct TableCatalog {
    pub database_id: u32,
    pub schema_id: u32,
    pub schema_name: String,
    pub table_name: String,
    pub schema: TableSchema,
}

/// What a [`TableCatalog`] says.
pub struct TableEntry {
    pub database_id: u32,
    pub schema_id: u32,
    pub schema_name: Seq<char>,
    pub table_name: Seq<char>,
    pub schema: TableModel,
}

impl View for TableCatalog {
    type V = TableEntry;

    open spec fn view(&self) -> TableEntry {
        TableEntry {
            database_id: self.database_id,
            schema_id: self.schema_id,
            schema_name: self.schema_name@,
            table_name: self.table_name@,
            schema: self.schema@,
        }
    }
}

/// An index of a table.
#[derive(Debug)]
pub struct IndexCatalog {
    pub index_id: u32,
    pub database_id: u32,
    pub schema_id: u32,
    pub table_id: u32,
    pub schema_name: String,
    pub table_name: String,
    pub index_name: String,
    pub column_name: String,
    pub column_names: Vec<String>,
    pub unique: bool,
}

/// What an [`IndexCatalog`] says.
pub struct IndexModel {
    pub index_id: u32,
    pub database_id: u32,
    pub schema_id: u32,
    pub table_id: u32,
    pub schema_name: Seq<char>,
    pub table_name: Seq<char>,
    pub index_name: Seq<char>,
    pub column_name: Seq<char>,
    pub column_names: Seq<Seq<char>>,
    pub unique: bool,
}

impl View for IndexCatalog {
    type V = IndexModel;

    open spec fn view(&self) -> IndexModel {
        IndexModel {
            index_id: self.index_id,
            database_id: self.database_id,
            schema_id: self.schema_id,
            table_id: self.table_id,
            schema_name: self.schema_name@,
            table_name: self.table_name@,
            index_name: self.index_name@,
            column_name: self.column_name@,
            column_names: views(self.column_names@),
            unique: self.unique,
        }
    }
}

impl Duplicate for IndexCatalog {
    fn duplicate(&self) -> (copy: Self) {
        IndexCatalog {
            index_id: self.index_id,
            database_id: self.database_id,
            schema_id: self.schema_id,
            table_id: self.table_id,
            schema_name: self.schema_name.clone(),
            table_name: self.table_name.clone(),
            index_name: self.index_name.clone(),
            column_name: self.column_name.clone(),
            column_names: duplicate_all(&self.column_names),
            unique: self.unique,
        }
    }
}

/// A view of a schema.
#[derive(Debug)]
pub struct ViewCatalog {
    pub view_id: u32,
    pub database_id: u32,
    pub schema_id: u32,
    pub schema_name: String,
    pub view_name: String,
    pub definition: String,
}

/// What a [`ViewCatalog`] says.
pub struct ViewModel {
    pub view_id: u32,
    pub database_id: u32,
    pub schema_id: u32,
    pub schema_name: Seq<char>,
    pub view_name: Seq<char>,
    pub definition: Seq<char>,
}

impl View for ViewCatalog {
    type V = ViewModel;

    open spec fn view(&self) -> ViewModel {
        ViewModel {
            view_id: self.view_id,
            database_id: self.database_id,
            schema_id: self.schema_id,
            schema_name: self.schema_name@,
            view_name: self.view_name@,
            definition: self.definition@,
        }
    }
}

/// The catalog over the store that keeps it.
pub struct CatalogStore<S: KvStore> {
    pub store: S,
}

impl Ordered for DatabaseCatalog {
    open spec fn before(a: DatabaseModel, b: DatabaseModel) -> bool {
        text_less(a.database_name, b.database_name)
    }

    fn comes_before(&self, other: &Self) -> (answer: bool) {
        is_text_less(self.database_name.as_str(), other.database_name.as_str())
    }
}

impl Ordered for SchemaCatalog {
    open spec fn before(a: SchemaModel, b: SchemaModel) -> bool {
        text_less(a.schema_name, b.schema_name)
    }

    fn comes_before(&self, other: &Self) -> (answer: bool) {
        is_text_less(self.schema_name.as_str(), other.schema_name.as_str())
    }
}

impl Ordered for IndexCatalog {
    open spec fn before(a: IndexModel, b: IndexModel) -> bool {
        text_less(a.index_name, b.index_name)
    }

    fn comes_before(&self, other: &Self) -> (answer: bool) {
        is_text_less(self.index_name.as_str(), other.index_name.as_str())
    }
}

impl Ordered for ViewCatalog {
    open spec fn before(a: ViewModel, b: ViewModel) -> bool {
        text_less(a.schema_name, b.schema_name) || (a.schema_name == b.schema_name && text_less(
            a.view_name,
            b.view_name,
        ))
    }

    fn comes_before(&self, other: &Self) -> (answer: bool) {
        is_text_less(self.schema_name.as_str(), other.schema_name.as_str()) || (self.schema_name
            == other.schema_name && is_text_less(
            self.view_name.as_str(),
            other.view_name.as_str(),
        ))
    }
}

} // verus!
