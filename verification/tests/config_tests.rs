use rea_agent::config::{
    is_truthy, load_precedence, merge_config, parse_u64_decimal, AgentConfig,
};
use rea_agent::stats::MemStats;

#[test]
fn defaults_match_the_documented_values() {
    let c = AgentConfig::default_with_data_dir("/var/lib/agent");
    assert_eq!(c.common.instance_id, "rea-default");
    assert_eq!(c.common.interval_secs, 5);
    assert_eq!(c.common.max_event_bytes, 128 * 1024);
    assert_eq!(c.collectors.top_n_procs, 5);
    assert_eq!(c.collectors.win_eventlog_channels, vec![
        "System".to_string(),
        "Application".to_string()
    ]);
    assert_eq!(c.collectors.win_eventlog_rps, 10);
    assert_eq!(c.output.mode, "stdout");
    assert_eq!(c.output.file_path.as_deref(), Some("/var/lib/agent/logs/agent.jsonl"));
    assert_eq!(c.output.rotate_bytes, 10 * 1024 * 1024);
    assert!(!c.networking.enabled);
    assert_eq!(c.networking.endpoint, "https://127.0.0.1:8443/ingest");
    assert_eq!(c.networking.batch_max_events, 200);
    assert_eq!(c.networking.batch_max_bytes, 512 * 1024);
    assert_eq!(c.networking.flush_interval_ms, 2000);
    assert_eq!(c.networking.queue_dir, "/var/lib/agent/queue");
    assert_eq!(c.networking.queue_max_bytes, 50 * 1024 * 1024);
    assert!(c.networking.ca_cert.is_none());
    assert!(c.networking.client_cert.is_none());
    assert!(c.networking.client_key.is_none());
    assert!(c.networking.spki_pin_sha256.is_none());
    assert_eq!(c.networking.compression, "zstd");
    assert_eq!(c.networking.retry_budget, 8);
    assert!(c.status.port.is_none());
}

#[test]
fn merge_takes_every_section_from_the_second_config() {
    let a = AgentConfig::default_with_data_dir("/a");
    let mut b = AgentConfig::default_with_data_dir("/b");
    b.common.instance_id = "edge-7".to_string();
    b.common.interval_secs = 30;
    b.networking.enabled = true;
    b.networking.retry_budget = 3;
    b.status.port = Some(9100);
    let m = merge_config(&a, &b);
    assert_eq!(m.common.instance_id, "edge-7");
    assert_eq!(m.common.interval_secs, 30);
    assert!(m.networking.enabled);
    assert_eq!(m.networking.retry_budget, 3);
    assert_eq!(m.networking.queue_dir, "/b/queue");
    assert_eq!(m.status.port, Some(9100));
}

#[test]
fn precedence_file_replaces_defaults_and_env_overrides_both() {
    let default_cfg = AgentConfig::default_with_data_dir("/d");
    let mut file_cfg = AgentConfig::default_with_data_dir("/f");
    file_cfg.common.interval_secs = 60;
    let r = load_precedence(
        default_cfg,
        Some(file_cfg),
        Some(b"7".to_vec()),
        Some(b"true".to_vec()),
    );
    assert_eq!(r.common.interval_secs, 7);
    assert!(r.networking.enabled);
    assert_eq!(r.networking.queue_dir, "/f/queue");
}

#[test]
fn precedence_ignores_an_unparsable_interval() {
    let default_cfg = AgentConfig::default_with_data_dir("/d");
    let r = load_precedence(default_cfg, None, Some(b"soon".to_vec()), None);
    assert_eq!(r.common.interval_secs, 5);
    assert!(!r.networking.enabled);
}

#[test]
fn precedence_without_overrides_keeps_the_base() {
    let default_cfg = AgentConfig::default_with_data_dir("/d");
    let r = load_precedence(default_cfg, None, None, None);
    assert_eq!(r.common.interval_secs, 5);
    assert_eq!(r.networking.queue_dir, "/d/queue");
}

#[test]
fn enable_flag_accepts_one_and_true_in_any_case() {
    assert!(is_truthy(b"1"));
    assert!(is_truthy(b"true"));
    assert!(is_truthy(b"TRUE"));
    assert!(is_truthy(b"True"));
    assert!(!is_truthy(b"0"));
    assert!(!is_truthy(b"false"));
    assert!(!is_truthy(b"yes"));
    assert!(!is_truthy(b""));
    assert!(!is_truthy(b"truthy"));
}

#[test]
fn decimal_parse_is_exact() {
    assert_eq!(parse_u64_decimal(b"0"), Some(0));
    assert_eq!(parse_u64_decimal(b"42"), Some(42));
    assert_eq!(parse_u64_decimal(b"18446744073709551615"), Some(u64::MAX));
    assert_eq!(parse_u64_decimal(b"18446744073709551616"), None);
    assert_eq!(parse_u64_decimal(b""), None);
    assert_eq!(parse_u64_decimal(b"12a"), None);
    assert_eq!(parse_u64_decimal(b"-3"), None);
    assert_eq!(parse_u64_decimal(b"007"), Some(7));
}

#[test]
fn free_memory_never_underflows() {
    let m = MemStats::from_readings(100, 30);
    assert_eq!(m.free, 70);
    assert_eq!(m.total, 100);
    assert_eq!(m.used, 30);
    let clamped = MemStats::from_readings(30, 100);
    assert_eq!(clamped.free, 0);
}
