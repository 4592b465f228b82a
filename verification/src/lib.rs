pub mod cells;
pub mod descriptor;
pub mod laws;
pub mod manager;
pub mod manifest;
pub mod sqlite;
pub mod text;

use vstd::prelude::*;

verus! {

/// An error arising from catalog, connection, or query operations.
#[derive(Debug, Clone, PartialEq)]
pub enum DatabaseError {
    /// The underlying engine could not open or decrypt the database.
    ConnectionFailed(String),
    /// No catalog entry or live connection exists for the given identity.
    NotFound(String),
    /// The descriptor is marked inaccessible.
    AccessDenied(String),
    /// The engine reported a failure while running SQL.
    Engine(String),
    /// The manifest text could not be interpreted.
    Parse(String),
}

/// The result type of every catalog, connection, and query operation.
pub type DatabaseResult<T> = Result<T, DatabaseError>;

impl DatabaseError {
    /// A readable description: a fixed heading for the kind, then the
    /// detail the error carries.
    pub fn message(&self) -> (r: String)
        ensures
            match self {
                DatabaseError::ConnectionFailed(d) => r@ == "Connection failed: "@ + d@,
                DatabaseError::NotFound(d) => r@ == "Database not found: "@ + d@,
                DatabaseError::AccessDenied(d) => r@ == "Access denied: "@ + d@,
                DatabaseError::Engine(d) => r@ == "Database engine error: "@ + d@,
                DatabaseError::Parse(d) => r@ == "Parse error: "@ + d@,
            },
    {
        match self {
            DatabaseError::ConnectionFailed(d) => {
                let mut s = String::from_str("Connection failed: ");
                s.append(d.as_str());
                s
            },
            DatabaseError::NotFound(d) => {
                let mut s = String::from_str("Database not found: ");
                s.append(d.as_str());
                s
            },
            DatabaseError::AccessDenied(d) => {
                let mut s = String::from_str("Access denied: ");
                s.append(d.as_str());
                s
            },
            DatabaseError::Engine(d) => {
                let mut s = String::from_str("Database engine error: ");
                s.append(d.as_str());
                s
            },
            DatabaseError::Parse(d) => {
                let mut s = String::from_str("Parse error: ");
                s.append(d.as_str());
                s
            },
        }
    }
}

} // verus!
