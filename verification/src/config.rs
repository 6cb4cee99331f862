use vstd::prelude::*;

verus! {

/// The whole process configuration.
pub struct Config {
    pub server: ServerConfig,
    pub trackers: TrackersConfig,
}

/// Where the HTTP server listens.
pub struct ServerConfig {
    pub address: String,
}

/// One section per tracker.
pub struct TrackersConfig {
    pub ranker: TrackerConfig,
}

/// How one tracker runs: how many seconds between polls of the remote API,
/// and where its record log lives.
pub struct TrackerConfig {
    pub request_interval: u64,
    pub database_file: String,
}

} // verus!
