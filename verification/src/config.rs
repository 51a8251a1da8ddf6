//! What the two processes are configured with, and which of the two a
//! process is. Settings come from the environment; a setting that is not
//! there is `None`.

use vstd::prelude::*;

verus! {

/// The ledger endpoint that is read where none is configured.
pub const DEFAULT_RPC_URL: &'static str = "https://fullnode.testnet.sui.io:443";

/// The most connections to the store that the two background tasks share.
pub const MAX_CONNECTIONS: u32 = 5;

/// The most connections to the store that the request-serving process
/// holds.
pub const API_MAX_CONNECTIONS: u32 = 10;

/// The address at which requests are served.
pub const API_BIND_ADDRESS: &'static str = "0.0.0.0:3000";

/// The setting that makes a process the request-serving one.
pub const API_ROLE: &'static str = "api";

/// Which of the two processes this is.
#[derive(Debug, Clone, Copy, PartialEq, Eq)]
pub enum Role {
    /// The process that runs the two background tasks.
    Indexer,
    /// The process that serves requests.
    Api,
}

/// Why no configuration could be made.
#[derive(Debug, PartialEq, Eq)]
pub enum ConfigError {
    /// No connection string for the store is set.
    MissingDatabaseUrl,
}

/// The configuration of the indexer.
#[derive(Debug)]
pub struct IndexerConfig {
    pub database_url: String,
    pub sui_rpc_url: String,
    pub max_connections: u32,
}

/// The configuration of the request-serving process.
#[derive(Debug)]
pub struct ApiConfig {
    pub database_url: String,
    pub max_connections: u32,
    pub bind_address: String,
}

impl Role {
    /// The role that follows from its setting: the request-serving one
    /// where the setting names it, the indexer in every other case.
    pub fn from_setting(setting: Option<String>) -> (role: Role)
        ensures
            role == (if setting.is_some() && setting.unwrap()@ == API_ROLE@ {
                Role::Api
            } else {
                Role::Indexer
            }),
    {
        match setting {
            Some(name) => {
                let api = API_ROLE.to_owned();
                if name == api {
                    Role::Api
                } else {
                    Role::Indexer
                }
            },
            None => Role::Indexer,
        }
    }
}

impl IndexerConfig {
    /// The configuration that follows from the two settings: the store's
    /// connection string, which must be set, and the ledger endpoint, which
    /// falls back to the default.
    pub fn from_settings(database_url: Option<String>, sui_rpc_url: Option<String>) -> (r: Result<
        IndexerConfig,
        ConfigError,
    >)
        ensures
            match r {
                Ok(config) => database_url.is_some() && config.database_url@
                    == database_url.unwrap()@ && config.sui_rpc_url@ == (match sui_rpc_url {
                    Some(url) => url@,
                    None => DEFAULT_RPC_URL@,
                }) && config.max_connections == MAX_CONNECTIONS,
                Err(e) => e == ConfigError::MissingDatabaseUrl && database_url.is_none(),
            },
    {
        match database_url {
            Some(database_url) => {
                let sui_rpc_url = match sui_rpc_url {
                    Some(url) => url,
                    None => DEFAULT_RPC_URL.to_owned(),
                };
                Ok(IndexerConfig { database_url, sui_rpc_url, max_connections: MAX_CONNECTIONS })
            },
            None => Err(ConfigError::MissingDatabaseUrl),
        }
    }
}

impl ApiConfig {
    /// The configuration that follows from the store's connection string,
    /// which must be set.
    pub fn from_settings(database_url: Option<String>) -> (r: Result<ApiConfig, ConfigError>)
        ensures
            match r {
                Ok(config) => database_url.is_some() && config.database_url@
                    == database_url.unwrap()@ && config.max_connections == API_MAX_CONNECTIONS
                    && config.bind_address@ == API_BIND_ADDRESS@,
                Err(e) => e == ConfigError::MissingDatabaseUrl && database_url.is_none(),
            },
    {
        match database_url {
            Some(database_url) => Ok(
                ApiConfig {
                    database_url,
                    max_connections: API_MAX_CONNECTIONS,
                    bind_address: API_BIND_ADDRESS.to_owned(),
                },
            ),
            None => Err(ConfigError::MissingDatabaseUrl),
        }
    }
}

} // verus!
