use statlog::config::{Config, ServerConfig, TrackerConfig, TrackersConfig};

#[test]
fn config_carries_plain_values() {
    let config = Config {
        server: ServerConfig { address: "127.0.0.1:8080".to_string() },
        trackers: TrackersConfig {
            ranker: TrackerConfig {
                request_interval: 600,
                database_file: "ranker.json-lines".to_string(),
            },
        },
    };
    assert_eq!(config.server.address, "127.0.0.1:8080");
    assert_eq!(config.trackers.ranker.request_interval, 600);
    assert_eq!(config.trackers.ranker.database_file, "ranker.json-lines");
}
