//! The command that runs a mock server from a configuration file; the
//! surrounding application owns the socket and the process lifetime.

use vstd::prelude::*;

verus! {

#[derive(Debug)]
pub struct RunCommand {
    pub config_file: String,
    pub workers: Option<usize>,
    pub pid_file: String,
}

} // verus!
