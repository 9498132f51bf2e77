//! The logic of a SQL gateway that serves PostgreSQL and MySQL clients from a
//! key-value store: cell and key codecs, the catalog, planning, locking and the
//! rules that run between reading and writing rows.
pub mod error;
pub mod text;
pub mod bytes;
pub mod lists;
pub mod order;
pub mod row;
pub mod types;
pub mod schema;
pub mod codec;
pub mod codec_laws;
pub mod mode;
pub mod mem_store;
pub mod json;
pub mod sorting;
pub mod names;
pub mod catalog;
pub mod server;
pub mod response;
pub mod execution;
pub mod seed;
