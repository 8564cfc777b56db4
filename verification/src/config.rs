//! Game configuration: the values the server is started with.
//!
//! The configuration is read from disk outside the library and handed in
//! as plain values.  Addresses are carried as integers (an IPv4 address
//! is its 32-bit value), paths and the bind address as strings.

use vstd::prelude::*;

verus! {

/// One competing team as named in the configuration file.
#[derive(Clone, Copy, PartialEq, Eq, Structural, Debug)]
pub struct TeamConfig {
    /// Externally assigned, stable team identifier.
    pub id: i32,
    /// IPv4 address of the competitor host, as its 32-bit value.
    pub ip: u32,
}

/// The server configuration.
#[derive(Clone)]
pub struct Config {
    /// Nominal flag round length in seconds.
    pub flag_period: u32,
    /// Check-up round length in seconds.
    pub check_period: u32,
    /// Upper bound (exclusive, unless zero) of the random per-subtask jitter, in seconds.
    pub delay: u64,
    /// Per-subprocess timeout in seconds.
    pub timeout_sec: u64,
    /// The competing teams.
    pub teams: Vec<TeamConfig>,
    /// Path of the database.
    pub db: String,
    /// Directory whose children are the registered services.
    pub services_dir: String,
    /// Names of service directories to skip.
    pub ignores: Vec<String>,
    /// Directory that receives per-invocation checker logs.
    pub log_directory: String,
    /// host:port the web front end binds to.
    pub bind_addr: String,
    /// Key of the keyed hash that derives flag tokens.
    pub secret_key: String,
}

/// Timeout applied to checker subprocesses when the configuration names none.
pub fn default_timeout_sec() -> (r: u64)
    ensures
        r == 15u64,
{
    15
}

} // verus!
