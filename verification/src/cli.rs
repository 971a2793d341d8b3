//! Command-line override records.
//!
//! Plain records of the overrides a node accepts on its command line; the
//! binary parses its arguments into these and hands them to the
//! configuration layer.  Paths travel as strings.

use vstd::prelude::*;

verus! {

/// Which logging backend to use.
#[derive(Clone, Debug, Default)]
pub enum LoggerBackendType {
    Gelf,
    File,
    #[default]
    Stdout,
    Stderr,
}

/// Logging overrides.
#[derive(Debug, Clone)]
pub struct LogArgs {
    /// Address for the Gelf backend
    pub log_addr: Option<String>,
    /// Directory for the File backend
    pub directory: Option<String>,
    /// Prefix for the File backend
    pub prefix: Option<String>,
    /// Backend type
    pub backend: Option<LoggerBackendType>,
    pub format: Option<String>,
    pub level: Option<String>,
}

/// Consensus overrides.
#[derive(Debug, Clone)]
pub struct CryptarchiaArgs {
    pub chain_start_time: Option<i64>,
    pub slot_duration: Option<u64>,
    pub note_secret_key: Option<String>,
    pub note_value: Option<u32>,
}

/// Metrics overrides.
#[derive(Debug, Clone)]
pub struct MetricsArgs {
    pub with_metrics: bool,
}

} // verus!
