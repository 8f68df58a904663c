use vstd::prelude::*;

verus! {

/// The settings the service starts with.
#[derive(Debug, Clone, PartialEq)]
pub struct AppEnv {
    /// The connection URL of the Postgres database.
    pub database_url: String,
    pub jwt_secret: String,
}

} // verus!
