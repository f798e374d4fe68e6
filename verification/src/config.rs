//! The secrets of a run, read once at startup and handed to the backends that
//! need them.

use vstd::prelude::*;
use vstd::string::StringExecFns;

verus! {

/// The connection string of the document store and the credential of the
/// relational store.
#[derive(Debug, PartialEq, Eq)]
pub struct Config {
    pub document_store_uri: String,
    pub relational_api_key: String,
}

impl Config {
    /// The configuration with these two secrets.
    pub fn new(document_store_uri: &str, relational_api_key: &str) -> (config: Config)
        ensures
            config.document_store_uri@ == document_store_uri@,
            config.relational_api_key@ == relational_api_key@,
    {
        Config {
            document_store_uri: String::from_str(document_store_uri),
            relational_api_key: String::from_str(relational_api_key),
        }
    }
}

} // verus!
