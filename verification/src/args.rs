//! Tool arguments, and the effective processing limit derived from them.

use vstd::prelude::*;

verus! {

/// Tool arguments.
#[derive(Debug)]
pub struct Args {
    /// Hostname for the MongoDB instance.
    pub host: String,
    /// TCP port on which the MongoDB instance is listening.
    pub port: u16,
    /// Username to use for authentication.
    pub username: Option<String>,
    /// Password to use for authentication.
    pub password: Option<String>,
    /// Name of the database to use for authentication.
    pub auth_db: Option<String>,
    /// Maximal number of documents in the oplog to process.
    pub limit: Option<u64>,
    /// Print statistics every time `N` documents have been processed.
    pub print_after: Option<u64>,
}

/// Returns the document limit to use for querying the oplog and generating
/// statistics: the limit provided by the user when one was given, and the
/// estimated total number of documents in the oplog otherwise.
pub fn limit_to_use(user_limit: Option<u64>, oplog_document_count: u64) -> (r: u64)
    ensures
        (match user_limit {
            Some(l) => r == l,
            None => r == oplog_document_count,
        }),
{
    match user_limit {
        Some(l) => l,
        None => oplog_document_count,
    }
}

} // verus!
