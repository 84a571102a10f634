//! An onion-routing client core: cell codec, ntor key agreement and per-hop
//! AEAD state, consensus parsing and relay selection, circuit bookkeeping and
//! the SOCKS5 front end's protocol decisions.
pub mod canonical;
pub mod circuit;
pub mod crypto;
pub mod directory;
pub mod metrics;
pub mod network;
pub mod proxy;
pub mod security;
pub mod text;

pub use circuit::{CircuitError, CircuitId, CircuitManager};
pub use directory::{DirectoryClient, DirectoryError};

use vstd::prelude::*;

verus! {

/// The client's settings.
#[derive(Debug, Clone)]
pub struct TorConfig {
    pub data_directory: String,
    pub socks_port: u16,
    pub control_port: u16,
    pub directory_authorities: Vec<String>,
    pub entry_guards: Vec<String>,
}

/// Default SOCKS5 port.
pub const DEFAULT_SOCKS_PORT: u16 = 9050;

/// Default control port.
pub const DEFAULT_CONTROL_PORT: u16 = 9051;

impl Default for TorConfig {
    fn default() -> (r: Self)
        ensures
            r.data_directory@.len() == 0,
            r.socks_port == DEFAULT_SOCKS_PORT,
            r.control_port == DEFAULT_CONTROL_PORT,
            r.directory_authorities@.len() == 0,
            r.entry_guards@.len() == 0,
    {
        TorConfig {
            data_directory: String::new(),
            socks_port: DEFAULT_SOCKS_PORT,
            control_port: DEFAULT_CONTROL_PORT,
            directory_authorities: Vec::new(),
            entry_guards: Vec::new(),
        }
    }
}

impl TorConfig {
    /// Settings for tests: default ports, no directory sources (the built-in
    /// test network), no pinned guards.
    pub fn test_config() -> (r: Self)
        ensures
            r.data_directory@.len() == 0,
            r.socks_port == DEFAULT_SOCKS_PORT,
            r.control_port == DEFAULT_CONTROL_PORT,
            r.directory_authorities@.len() == 0,
            r.entry_guards@.len() == 0,
    {
        TorConfig {
            data_directory: String::new(),
            socks_port: DEFAULT_SOCKS_PORT,
            control_port: DEFAULT_CONTROL_PORT,
            directory_authorities: Vec::new(),
            entry_guards: Vec::new(),
        }
    }

    /// Whether the built-in test network stands in for directory sources.
    pub fn uses_mock_directory(&self) -> (r: bool)
        ensures
            r == (self.directory_authorities@.len() == 0),
    {
        self.directory_authorities.len() == 0
    }
}

#[derive(Debug)]
pub enum TorError {
    Circuit(CircuitError),
    Directory(DirectoryError),
    Proxy(crate::proxy::socks5::ProxyError),
    NotImplemented(String),
}

impl From<CircuitError> for TorError {
    fn from(err: CircuitError) -> (r: TorError) {
        TorError::Circuit(err)
    }
}

impl vstd::std_specs::convert::FromSpecImpl<CircuitError> for TorError {
    open spec fn obeys_from_spec() -> bool {
        true
    }

    open spec fn from_spec(v: CircuitError) -> TorError {
        TorError::Circuit(v)
    }
}

impl From<DirectoryError> for TorError {
    fn from(err: DirectoryError) -> (r: TorError) {
        TorError::Directory(err)
    }
}

impl vstd::std_specs::convert::FromSpecImpl<DirectoryError> for TorError {
    open spec fn obeys_from_spec() -> bool {
        true
    }

    open spec fn from_spec(v: DirectoryError) -> TorError {
        TorError::Directory(v)
    }
}

} // verus!
