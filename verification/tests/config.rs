//! Settings, and how they are read from the environment.

use tsink_cluster::consensus::{ControlConsensusConfig, ControlConsensusEnv};
use tsink_cluster::env::{parse_env_u64, parse_outbox_env_u64, EnvValue};
use tsink_cluster::outbox_config::{OutboxConfig, OutboxEnv};
use tsink_cluster::query::ReadResourceGuardrails;

fn text(value: &str) -> EnvValue {
    EnvValue::Text(value.to_string())
}

fn no_consensus_settings() -> ControlConsensusEnv {
    ControlConsensusEnv {
        tick_interval_secs: EnvValue::Missing,
        max_append_entries: EnvValue::Missing,
        snapshot_interval_entries: EnvValue::Missing,
        suspect_timeout_secs: EnvValue::Missing,
        dead_timeout_secs: EnvValue::Missing,
        leader_lease_secs: EnvValue::Missing,
    }
}

fn no_outbox_settings() -> OutboxEnv {
    OutboxEnv {
        max_entries: EnvValue::Missing,
        max_bytes: EnvValue::Missing,
        max_peer_bytes: EnvValue::Missing,
        max_log_bytes: EnvValue::Missing,
        replay_interval_secs: EnvValue::Missing,
        replay_batch_size: EnvValue::Missing,
        max_backoff_secs: EnvValue::Missing,
        max_record_bytes: EnvValue::Missing,
        cleanup_interval_secs: EnvValue::Missing,
        cleanup_min_stale_records: EnvValue::Missing,
        stalled_peer_age_secs: EnvValue::Missing,
        stalled_peer_min_entries: EnvValue::Missing,
        stalled_peer_min_bytes: EnvValue::Missing,
    }
}

#[test]
fn numbers_are_read_from_the_environment() {
    assert_eq!(parse_env_u64("VAR", &EnvValue::Missing, 7, true), Ok(7));
    assert_eq!(parse_env_u64("VAR", &text(" 42\n"), 7, true), Ok(42));
    assert_eq!(parse_env_u64("VAR", &text("0"), 7, false), Ok(0));
    assert_eq!(
        parse_env_u64("VAR", &text("0"), 7, true),
        Err("VAR must be greater than zero".to_string())
    );
    assert_eq!(
        parse_env_u64("VAR", &text("4x"), 7, true),
        Err("VAR must be an integer, got '4x'".to_string())
    );
    assert_eq!(
        parse_env_u64("VAR", &EnvValue::NotUnicode, 7, true),
        Err("VAR must be valid UTF-8 when set".to_string())
    );
    assert_eq!(
        parse_outbox_env_u64("VAR", &text("18446744073709551615"), 7, false),
        Ok(u64::MAX)
    );
    assert_eq!(
        parse_outbox_env_u64("VAR", &text("  "), 7, true),
        Err("VAR must not be empty when set".to_string())
    );
    assert_eq!(
        parse_outbox_env_u64("VAR", &text("18446744073709551616"), 7, true),
        Err("VAR must be an integer, got '18446744073709551616'".to_string())
    );
    assert_eq!(
        parse_outbox_env_u64("VAR", &text("0"), 7, true),
        Err("VAR must be greater than zero when set".to_string())
    );
    assert_eq!(parse_outbox_env_u64("VAR", &text("0"), 0, true), Ok(0));
}

#[test]
fn the_control_log_takes_its_settings() {
    assert_eq!(
        ControlConsensusConfig::from_env(&no_consensus_settings()),
        Ok(ControlConsensusConfig::default())
    );
    let config = ControlConsensusConfig::from_env(&ControlConsensusEnv {
        tick_interval_secs: text("3"),
        suspect_timeout_secs: text("9"),
        dead_timeout_secs: text("30"),
        leader_lease_secs: text("11"),
        ..no_consensus_settings()
    })
    .expect("the settings should be read");
    assert_eq!(config.tick_interval(), 3);
    assert_eq!(config.suspect_timeout(), 9_000);
    assert_eq!(config.dead_timeout(), 30_000);
    assert_eq!(config.leader_lease_timeout(), 11_000);
    assert_eq!(config.max_append_entries, 64);
    assert!(config.validate().is_ok());
    assert!(ControlConsensusConfig::from_env(&ControlConsensusEnv {
        max_append_entries: text("none"),
        ..no_consensus_settings()
    })
    .expect_err("no number")
    .contains("TSINK_CLUSTER_CONTROL_MAX_APPEND_ENTRIES"));
}

#[test]
fn settings_of_the_control_log_are_checked() {
    let good = ControlConsensusConfig::default();
    assert!(good.validate().is_ok());
    assert_eq!(
        ControlConsensusConfig {
            max_append_entries: 0,
            ..good
        }
        .validate(),
        Err("cluster control max append entries must be greater than zero".to_string())
    );
    assert_eq!(
        ControlConsensusConfig {
            snapshot_interval_entries: 0,
            ..good
        }
        .validate(),
        Err("cluster control snapshot interval entries must be greater than zero".to_string())
    );
    assert_eq!(
        ControlConsensusConfig {
            dead_timeout_secs: good.suspect_timeout_secs - 1,
            ..good
        }
        .validate(),
        Err("cluster control dead timeout must be >= suspect timeout".to_string())
    );
    assert_eq!(
        ControlConsensusConfig {
            leader_lease_secs: good.tick_interval_secs - 1,
            ..good
        }
        .validate(),
        Err("cluster control leader lease must be >= tick interval".to_string())
    );
    let idle = ControlConsensusConfig {
        tick_interval_secs: 0,
        leader_lease_secs: 0,
        ..good
    };
    assert!(idle.validate().is_ok());
    assert_eq!(idle.tick_interval(), 1);
    assert_eq!(idle.leader_lease_timeout(), 1_000);
}

#[test]
fn the_outbox_takes_its_settings() {
    assert_eq!(
        OutboxConfig::from_env(&no_outbox_settings()),
        Ok(OutboxConfig::default())
    );
    let config = OutboxConfig::from_env(&OutboxEnv {
        replay_interval_secs: text("4"),
        cleanup_interval_secs: text("90"),
        max_entries: text("12"),
        ..no_outbox_settings()
    })
    .expect("the settings should be read");
    assert_eq!(config.replay_interval(), 4);
    assert_eq!(config.cleanup_interval(), 90);
    assert_eq!(config.max_entries, 12);
    assert!(OutboxConfig::from_env(&OutboxEnv {
        max_record_bytes: text("-1"),
        ..no_outbox_settings()
    })
    .is_err());
}

#[test]
fn settings_of_the_outbox_are_checked() {
    let good = OutboxConfig::default();
    assert_eq!(good.validate(), Ok(()));
    assert_eq!(
        OutboxConfig {
            max_entries: 0,
            ..good
        }
        .validate(),
        Err("cluster outbox max entries must be greater than zero".to_string())
    );
    assert_eq!(
        OutboxConfig {
            max_bytes: 0,
            ..good
        }
        .validate(),
        Err("cluster outbox max bytes must be greater than zero".to_string())
    );
    assert_eq!(
        OutboxConfig {
            replay_batch_size: 0,
            ..good
        }
        .validate(),
        Err("cluster outbox replay batch size must be greater than zero".to_string())
    );
    assert_eq!(
        OutboxConfig {
            stalled_peer_min_bytes: 0,
            ..good
        }
        .validate(),
        Err("cluster outbox stalled peer minimum bytes must be greater than zero".to_string())
    );
}

#[test]
fn guardrails_are_checked() {
    let good = ReadResourceGuardrails::default();
    assert!(good.validate().is_ok());
    assert!(ReadResourceGuardrails {
        max_inflight_queries: 0,
        ..good
    }
    .validate()
    .is_err());
    assert!(ReadResourceGuardrails {
        max_inflight_merged_points: 0,
        ..good
    }
    .validate()
    .is_err());
}
