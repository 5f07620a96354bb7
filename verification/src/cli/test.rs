//! The command that checks whether a configuration document is valid.

use vstd::prelude::*;

use crate::errors::ConfigError;
use crate::http::serverinfo::parse_document;
use crate::http::serverinfo::ServerInfo;

verus! {

#[derive(Debug)]
pub struct TestCommand {
    pub config_file: String,
}

impl TestCommand {
    /// Decides whether the document is a valid configuration: succeeds
    /// exactly on documents that load.
    pub fn handle(&self, data: &str) -> (r: Result<(), ConfigError>)
        ensures
            r is Ok <==> parse_document(data@) is Some,
    {
        match ServerInfo::from_json_str(data) {
            Ok(_) => Ok(()),
            Err(e) => Err(e),
        }
    }
}

} // verus!
