//! Process configuration: where the service listens, which database it
//! uses, and which chain and contracts it watches.  Loading these from the
//! environment happens outside the library.

use vstd::prelude::*;

verus! {

/// The HTTP endpoint and database of the service.
#[derive(Debug)]
pub struct ServerConfig {
    pub host: String,
    pub port: u32,
    pub database_url: String,
}

/// The watched chain: its module contract addresses, its RPC endpoint, and
/// its id.
#[derive(Debug)]
pub struct ContractConfig {
    pub factory: String,
    pub router: String,
    pub rpc: String,
    pub chain_id: u32,
}

/// The whole process configuration.
#[derive(Debug)]
pub struct Config {
    pub server: ServerConfig,
    pub contract: ContractConfig,
}

} // verus!
