//! The command line of the monitor.

use vstd::prelude::*;

verus! {

/// What the command line asks for: a remote board (with the account, port
/// and key to reach it) or the local one, and the refresh interval.
#[derive(Debug, Clone, PartialEq, Eq)]
pub struct Args {
    /// Remote board to read over SSH; the local board when absent.
    pub host: Option<String>,
    /// SSH user name.
    pub user: String,
    /// SSH port.
    pub port: u16,
    /// SSH private key file.
    pub key: Option<String>,
    /// Refresh interval in milliseconds.
    pub interval: u64,
}

} // verus!
