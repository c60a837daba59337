//! Kelp: an embedded, object-oriented database.
//!
//! The library holds the object model (values, objects, schemas, models,
//! references, validation), the database over a storage backend with an
//! in-memory backend, the storage engine's byte-level logic (pages, slotted
//! pages, the write-ahead log, the binary record codec, the page cache and
//! the location index), and the rules of the shell and the HTTP API, each
//! with a contract proved by Verus.
pub mod error;
pub mod storage;
pub mod assoc;
pub mod text;
pub mod value;
pub mod object;
pub mod schema;
pub mod reference;
pub mod transaction;
pub mod model;
pub mod validation;
pub mod query;
pub mod database;
pub mod shell;
pub mod server;

pub use database::Database;
pub use error::{Error, Result};
pub use model::Model;
pub use object::Object;
pub use query::QueryResult;
pub use schema::{FieldDef, FieldType, ObjectType, Schema};
pub use shell::ShellConfig;
pub use value::Value;
