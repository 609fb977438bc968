use xraft::config::RaftConfig;

#[test]
fn default_config_is_valid() {
    let cfg = RaftConfig::default();
    cfg.validate()
        .expect("default config must satisfy Raft timing invariants");

    // The default must also satisfy the explicit Raft timing inequalities.
    assert!(cfg.fetch_interval_ms < cfg.election_timeout_min_ms);
    assert!(cfg.election_timeout_min_ms < cfg.election_timeout_max_ms);
}

#[test]
fn default_field_values() {
    let cfg = RaftConfig::default();
    assert_eq!(cfg.election_timeout_min_ms, 150);
    assert_eq!(cfg.election_timeout_max_ms, 300);
    assert_eq!(cfg.fetch_interval_ms, 50);
    assert_eq!(cfg.max_batch_size, 256);
    assert_eq!(cfg.max_fetch_bytes, 1_048_576);
    assert_eq!(cfg.snapshot_interval, 10_000);
    assert_eq!(cfg.data_dir, "data");
}

#[test]
fn rejects_inverted_election_timeout_bounds() {
    let cfg = RaftConfig {
        election_timeout_min_ms: 500,
        election_timeout_max_ms: 100,
        ..RaftConfig::default()
    };
    let err = cfg
        .validate()
        .expect_err("inverted bounds must be rejected");
    assert!(err.contains("election_timeout_min_ms"));
    assert!(err.contains("election_timeout_max_ms"));
}

#[test]
fn rejects_equal_election_timeout_bounds() {
    let cfg = RaftConfig {
        election_timeout_min_ms: 200,
        election_timeout_max_ms: 200,
        ..RaftConfig::default()
    };
    // Equal bounds collapse the randomisation window - also invalid.
    assert!(cfg.validate().is_err());
}

#[test]
fn rejects_fetch_interval_at_or_above_election_min() {
    let cfg = RaftConfig {
        fetch_interval_ms: 150,
        election_timeout_min_ms: 150,
        election_timeout_max_ms: 300,
        ..RaftConfig::default()
    };
    let err = cfg
        .validate()
        .expect_err("fetch_interval >= election_min must be rejected");
    assert!(err.contains("fetch_interval_ms"));
    assert!(err.contains("election_timeout_min_ms"));

    let cfg = RaftConfig {
        fetch_interval_ms: 200,
        election_timeout_min_ms: 150,
        election_timeout_max_ms: 300,
        ..RaftConfig::default()
    };
    assert!(cfg.validate().is_err());
}

#[test]
fn accepts_custom_but_valid_timings() {
    let cfg = RaftConfig {
        election_timeout_min_ms: 1_000,
        election_timeout_max_ms: 2_000,
        fetch_interval_ms: 200,
        max_batch_size: 1_024,
        max_fetch_bytes: 8 * 1_048_576,
        snapshot_interval: 50_000,
        data_dir: String::from("/var/lib/xraft"),
    };
    assert!(cfg.validate().is_ok());
}

#[test]
fn config_errors_name_the_values() {
    let cfg = RaftConfig {
        election_timeout_min_ms: 500,
        election_timeout_max_ms: 100,
        ..RaftConfig::default()
    };
    assert_eq!(
        cfg.validate().unwrap_err(),
        "election_timeout_min_ms (500) must be < election_timeout_max_ms (100)"
    );
    let cfg = RaftConfig {
        fetch_interval_ms: 150,
        ..RaftConfig::default()
    };
    assert_eq!(
        cfg.validate().unwrap_err(),
        "fetch_interval_ms (150) must be < election_timeout_min_ms (150)"
    );
}
