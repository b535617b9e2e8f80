//! Service configuration: which persistence backend to run against, and
//! the connection settings of the document store.  Loading these values
//! from files or the environment happens outside this crate; here they
//! are plain data.

use vstd::prelude::*;

verus! {

/// The persistence backend a service instance runs against.  Both
/// backends expose identical CRUD semantics.
#[allow(non_camel_case_types)]
#[derive(Clone, Copy, Debug, PartialEq, Eq, Structural)]
pub enum ServiceMode {
    MEMORY,
    MONGO,
}

/// Connection settings of the document-store backend.  The core never
/// interprets them; the adapter that owns the network connection does.
pub struct DbConfig {
    pub host: String,
    pub username: String,
    pub password: String,
    pub database: String,
    pub auth_source: String,
    pub replica_set: Option<String>,
}

/// Top-level configuration: the chosen backend, and the document-store
/// settings when that backend is chosen.
pub struct ServiceConfig {
    pub mode: ServiceMode,
    pub db: Option<DbConfig>,
}

impl Default for ServiceConfig {
    /// The default configuration runs on the in-memory backend.
    fn default() -> (res: Self)
        ensures
            res.mode == ServiceMode::MEMORY,
            res.db is None,
    {
        ServiceConfig { mode: ServiceMode::MEMORY, db: None }
    }
}

} // verus!
