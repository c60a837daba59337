use crate::text::{join2, join3};
use vstd::prelude::*;

verus! {

/// Error types for Kelp operations.
#[derive(Debug)]
pub enum Error {
    TypeNotFound { typename: String },
    ObjectNotFound { typename: String, object_id: String },
    ValidationError { field: String, reason: String },
    RequiredFieldMissing { field: String },
    FieldNotNullable { field: String },
    TypeMismatch { field: String, expected: String, actual: String },
    InvalidReference { typename: String, object_id: String },
    CircularReference { path: String },
    SchemaError { reason: String },
    StorageError { reason: String },
    QueryError { reason: String },
    TransactionError { reason: String },
    ModelError { reason: String },
    IoError(String),
    JsonError(String),
    Internal(String),
}

/// Result type for Kelp operations.
pub type Result<T> = std::result::Result<T, Error>;

/// Builds a storage error carrying the given reason.
pub fn storage_error(reason: &str) -> (e: Error)
    ensures
        e matches Error::StorageError { reason: r } && r@ == reason@,
{
    Error::StorageError { reason: reason.to_owned() }
}

/// The message an error shows.
pub open spec fn error_message(e: Error) -> Seq<char> {
    match e {
        Error::TypeNotFound { typename } => "Object type '"@ + typename@ + "' not found"@,
        Error::ObjectNotFound { typename, object_id } => "Object '"@ + object_id@ + "' of type '"@
            + typename@ + "' not found"@,
        Error::ValidationError { field, reason } => "Validation failed for field '"@ + field@
            + "': "@ + reason@,
        Error::RequiredFieldMissing { field } => "Field '"@ + field@ + "' is required"@,
        Error::FieldNotNullable { field } => "Field '"@ + field@ + "' does not allow null"@,
        Error::TypeMismatch { field, expected, actual } => "Type mismatch for field '"@ + field@
            + "': expected "@ + expected@ + ", got "@ + actual@,
        Error::InvalidReference { typename, object_id } => "Reference to '"@ + typename@ + "/"@
            + object_id@ + "' is invalid"@,
        Error::CircularReference { path } => "Circular reference detected: "@ + path@,
        Error::SchemaError { reason } => "Schema error: "@ + reason@,
        Error::StorageError { reason } => "Storage error: "@ + reason@,
        Error::QueryError { reason } => "Query error: "@ + reason@,
        Error::TransactionError { reason } => "Transaction error: "@ + reason@,
        Error::ModelError { reason } => "Model error: "@ + reason@,
        Error::IoError(m) => "IO error: "@ + m@,
        Error::JsonError(m) => "JSON error: "@ + m@,
        Error::Internal(m) => "Internal error: "@ + m@,
    }
}

impl Error {
    /// The message this error shows.
    pub fn message(&self) -> (r: String)
        ensures
            r@ == error_message(*self),
    {
        match self {
            Error::TypeNotFound { typename } => join3("Object type '", typename.as_str(), "' not found"),
            Error::ObjectNotFound { typename, object_id } => {
                let head = join3("Object '", object_id.as_str(), "' of type '");
                let r = join3(head.as_str(), typename.as_str(), "' not found");
                assert(r@ =~= error_message(*self));
                r
            },
            Error::ValidationError { field, reason } => {
                let head = join3("Validation failed for field '", field.as_str(), "': ");
                join2(head.as_str(), reason.as_str())
            },
            Error::RequiredFieldMissing { field } => join3("Field '", field.as_str(), "' is required"),
            Error::FieldNotNullable { field } => join3(
                "Field '",
                field.as_str(),
                "' does not allow null",
            ),
            Error::TypeMismatch { field, expected, actual } => {
                let a = join3("Type mismatch for field '", field.as_str(), "': expected ");
                let b = join3(a.as_str(), expected.as_str(), ", got ");
                let r = join2(b.as_str(), actual.as_str());
                assert(r@ =~= error_message(*self));
                r
            },
            Error::InvalidReference { typename, object_id } => {
                let head = join3("Reference to '", typename.as_str(), "/");
                let r = join3(head.as_str(), object_id.as_str(), "' is invalid");
                assert(r@ =~= error_message(*self));
                r
            },
            Error::CircularReference { path } => join2("Circular reference detected: ", path.as_str()),
            Error::SchemaError { reason } => join2("Schema error: ", reason.as_str()),
            Error::StorageError { reason } => join2("Storage error: ", reason.as_str()),
            Error::QueryError { reason } => join2("Query error: ", reason.as_str()),
            Error::TransactionError { reason } => join2("Transaction error: ", reason.as_str()),
            Error::ModelError { reason } => join2("Model error: ", reason.as_str()),
            Error::IoError(m) => join2("IO error: ", m.as_str()),
            Error::JsonError(m) => join2("JSON error: ", m.as_str()),
            Error::Internal(m) => join2("Internal error: ", m.as_str()),
        }
    }
}

} // verus!
