//! The console's settings: where the database is, how often to poll and
//! which port to serve on.

use vstd::prelude::*;

verus! {

#[derive(Debug, Clone)]
pub struct Config {
    pub database: DatabaseConfig,
    pub server: ServerConfig,
}

#[derive(Debug, Clone)]
pub struct DatabaseConfig {
    pub host: String,
    pub port: u16,
    pub database: String,
    pub username: String,
    pub password: String,
}

#[derive(Debug, Clone)]
pub struct ServerConfig {
    pub poll_interval_secs: u64,
    pub http_port: u16,
}

} // verus!
