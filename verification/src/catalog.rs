//! The catalog: which databases, schemas, tables, indexes and views there are.
pub mod types;
pub mod codec;
pub mod model;
pub mod store;
pub mod laws;
pub mod change_laws;
pub mod index_laws;

pub use crate::catalog::codec::{decode_table_schema, resolve_table_reference};
pub use crate::catalog::types::{
    CatalogStore, DatabaseCatalog, IndexCatalog, SchemaCatalog, TableCatalog, ViewCatalog,
    DEFAULT_DATABASE_NAME, DEFAULT_SCHEMA_NAME,
};
pub use crate::names::{object_name_to_string, schema_name_to_string};
