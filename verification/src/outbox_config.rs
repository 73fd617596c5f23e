//! The settings of the outbox, which holds writes for peers that could not be reached.

use vstd::prelude::*;
use crate::consensus::at_least_one;
use crate::env::{outbox_setting, parse_outbox_env_u64, setting_view, EnvValue};
use crate::text::{message_view, owned};

verus! {

pub const CLUSTER_OUTBOX_MAX_ENTRIES_ENV: &'static str = "TSINK_CLUSTER_OUTBOX_MAX_ENTRIES";

pub const CLUSTER_OUTBOX_MAX_BYTES_ENV: &'static str = "TSINK_CLUSTER_OUTBOX_MAX_BYTES";

pub const CLUSTER_OUTBOX_MAX_PEER_BYTES_ENV: &'static str = "TSINK_CLUSTER_OUTBOX_MAX_PEER_BYTES";

pub const CLUSTER_OUTBOX_MAX_LOG_BYTES_ENV: &'static str = "TSINK_CLUSTER_OUTBOX_MAX_LOG_BYTES";

pub const CLUSTER_OUTBOX_REPLAY_INTERVAL_SECS_ENV: &'static str = "TSINK_CLUSTER_OUTBOX_REPLAY_INTERVAL_SECS";

pub const CLUSTER_OUTBOX_REPLAY_BATCH_SIZE_ENV: &'static str = "TSINK_CLUSTER_OUTBOX_REPLAY_BATCH_SIZE";

pub const CLUSTER_OUTBOX_MAX_BACKOFF_SECS_ENV: &'static str = "TSINK_CLUSTER_OUTBOX_MAX_BACKOFF_SECS";

pub const CLUSTER_OUTBOX_MAX_RECORD_BYTES_ENV: &'static str = "TSINK_CLUSTER_OUTBOX_MAX_RECORD_BYTES";

pub const CLUSTER_OUTBOX_CLEANUP_INTERVAL_SECS_ENV: &'static str = "TSINK_CLUSTER_OUTBOX_CLEANUP_INTERVAL_SECS";

pub const CLUSTER_OUTBOX_CLEANUP_MIN_STALE_RECORDS_ENV: &'static str = "TSINK_CLUSTER_OUTBOX_CLEANUP_MIN_STALE_RECORDS";

pub const CLUSTER_OUTBOX_STALLED_PEER_AGE_SECS_ENV: &'static str = "TSINK_CLUSTER_OUTBOX_STALLED_PEER_AGE_SECS";

pub const CLUSTER_OUTBOX_STALLED_PEER_MIN_ENTRIES_ENV: &'static str = "TSINK_CLUSTER_OUTBOX_STALLED_PEER_MIN_ENTRIES";

pub const CLUSTER_OUTBOX_STALLED_PEER_MIN_BYTES_ENV: &'static str = "TSINK_CLUSTER_OUTBOX_STALLED_PEER_MIN_BYTES";

pub const DEFAULT_OUTBOX_MAX_ENTRIES: usize = 100_000;

pub const DEFAULT_OUTBOX_MAX_BYTES: u64 = 536_870_912;

pub const DEFAULT_OUTBOX_MAX_PEER_BYTES: u64 = 268_435_456;

pub const DEFAULT_OUTBOX_MAX_LOG_BYTES: u64 = 2_147_483_648;

pub const DEFAULT_OUTBOX_REPLAY_INTERVAL_SECS: u64 = 2;

pub const DEFAULT_OUTBOX_REPLAY_BATCH_SIZE: usize = 256;

pub const DEFAULT_OUTBOX_MAX_BACKOFF_SECS: u64 = 30;

pub const DEFAULT_OUTBOX_MAX_RECORD_BYTES: u64 = 2_097_152;

pub const DEFAULT_OUTBOX_CLEANUP_INTERVAL_SECS: u64 = 30;

pub const DEFAULT_OUTBOX_CLEANUP_MIN_STALE_RECORDS: usize = 1024;

pub const DEFAULT_OUTBOX_STALLED_PEER_AGE_SECS: u64 = 300;

pub const DEFAULT_OUTBOX_STALLED_PEER_MIN_ENTRIES: u64 = 1;

pub const DEFAULT_OUTBOX_STALLED_PEER_MIN_BYTES: u64 = 1;

/// The settings of the outbox.
#[derive(Debug, Clone, Copy, PartialEq, Eq, Structural)]
pub struct OutboxConfig {
    pub max_entries: usize,
    pub max_bytes: u64,
    pub max_peer_bytes: u64,
    pub max_log_bytes: u64,
    pub replay_interval_secs: u64,
    pub replay_batch_size: usize,
    pub max_backoff_secs: u64,
    pub max_record_bytes: u64,
    pub cleanup_interval_secs: u64,
    pub cleanup_min_stale_records: usize,
    pub stalled_peer_age_secs: u64,
    pub stalled_peer_min_entries: u64,
    pub stalled_peer_min_bytes: u64,
}

/// The settings that hold where none are given.
pub open spec fn default_outbox_config() -> OutboxConfig {
    OutboxConfig {
        max_entries: DEFAULT_OUTBOX_MAX_ENTRIES,
        max_bytes: DEFAULT_OUTBOX_MAX_BYTES,
        max_peer_bytes: DEFAULT_OUTBOX_MAX_PEER_BYTES,
        max_log_bytes: DEFAULT_OUTBOX_MAX_LOG_BYTES,
        replay_interval_secs: DEFAULT_OUTBOX_REPLAY_INTERVAL_SECS,
        replay_batch_size: DEFAULT_OUTBOX_REPLAY_BATCH_SIZE,
        max_backoff_secs: DEFAULT_OUTBOX_MAX_BACKOFF_SECS,
        max_record_bytes: DEFAULT_OUTBOX_MAX_RECORD_BYTES,
        cleanup_interval_secs: DEFAULT_OUTBOX_CLEANUP_INTERVAL_SECS,
        cleanup_min_stale_records: DEFAULT_OUTBOX_CLEANUP_MIN_STALE_RECORDS,
        stalled_peer_age_secs: DEFAULT_OUTBOX_STALLED_PEER_AGE_SECS,
        stalled_peer_min_entries: DEFAULT_OUTBOX_STALLED_PEER_MIN_ENTRIES,
        stalled_peer_min_bytes: DEFAULT_OUTBOX_STALLED_PEER_MIN_BYTES,
    }
}

impl Default for OutboxConfig {
    fn default() -> (res: Self)
        ensures
            res == default_outbox_config(),
    {
        OutboxConfig {
            max_entries: DEFAULT_OUTBOX_MAX_ENTRIES,
            max_bytes: DEFAULT_OUTBOX_MAX_BYTES,
            max_peer_bytes: DEFAULT_OUTBOX_MAX_PEER_BYTES,
            max_log_bytes: DEFAULT_OUTBOX_MAX_LOG_BYTES,
            replay_interval_secs: DEFAULT_OUTBOX_REPLAY_INTERVAL_SECS,
            replay_batch_size: DEFAULT_OUTBOX_REPLAY_BATCH_SIZE,
            max_backoff_secs: DEFAULT_OUTBOX_MAX_BACKOFF_SECS,
            max_record_bytes: DEFAULT_OUTBOX_MAX_RECORD_BYTES,
            cleanup_interval_secs: DEFAULT_OUTBOX_CLEANUP_INTERVAL_SECS,
            cleanup_min_stale_records: DEFAULT_OUTBOX_CLEANUP_MIN_STALE_RECORDS,
            stalled_peer_age_secs: DEFAULT_OUTBOX_STALLED_PEER_AGE_SECS,
            stalled_peer_min_entries: DEFAULT_OUTBOX_STALLED_PEER_MIN_ENTRIES,
            stalled_peer_min_bytes: DEFAULT_OUTBOX_STALLED_PEER_MIN_BYTES,
        }
    }
}

/// What the environment variables of the outbox were found to hold.
#[derive(Debug, PartialEq, Eq)]
pub struct OutboxEnv {
    pub max_entries: EnvValue,
    pub max_bytes: EnvValue,
    pub max_peer_bytes: EnvValue,
    pub max_log_bytes: EnvValue,
    pub replay_interval_secs: EnvValue,
    pub replay_batch_size: EnvValue,
    pub max_backoff_secs: EnvValue,
    pub max_record_bytes: EnvValue,
    pub cleanup_interval_secs: EnvValue,
    pub cleanup_min_stale_records: EnvValue,
    pub stalled_peer_age_secs: EnvValue,
    pub stalled_peer_min_entries: EnvValue,
    pub stalled_peer_min_bytes: EnvValue,
}

/// The message of the first of some settings that is refused.
pub open spec fn first_refusal(settings: Seq<Result<u64, Seq<char>>>, n: nat) -> Option<Seq<char>>
    decreases n,
{
    if n == 0 {
        None
    } else {
        match first_refusal(settings, (n - 1) as nat) {
            Some(message) => Some(message),
            None => match settings[n - 1] {
                Ok(_) => None,
                Err(message) => Some(message),
            },
        }
    }
}

/// The settings of the outbox one by one, as the environment gives them.
pub open spec fn outbox_settings(env: OutboxEnv) -> Seq<Result<u64, Seq<char>>> {
    seq![
        outbox_setting(
            CLUSTER_OUTBOX_MAX_ENTRIES_ENV@,
            env.max_entries,
            DEFAULT_OUTBOX_MAX_ENTRIES as u64,
            true,
        ),
        outbox_setting(
            CLUSTER_OUTBOX_MAX_BYTES_ENV@,
            env.max_bytes,
            DEFAULT_OUTBOX_MAX_BYTES,
            true,
        ),
        outbox_setting(
            CLUSTER_OUTBOX_MAX_PEER_BYTES_ENV@,
            env.max_peer_bytes,
            DEFAULT_OUTBOX_MAX_PEER_BYTES,
            true,
        ),
        outbox_setting(
            CLUSTER_OUTBOX_MAX_LOG_BYTES_ENV@,
            env.max_log_bytes,
            DEFAULT_OUTBOX_MAX_LOG_BYTES,
            true,
        ),
        outbox_setting(
            CLUSTER_OUTBOX_REPLAY_INTERVAL_SECS_ENV@,
            env.replay_interval_secs,
            DEFAULT_OUTBOX_REPLAY_INTERVAL_SECS,
            true,
        ),
        outbox_setting(
            CLUSTER_OUTBOX_REPLAY_BATCH_SIZE_ENV@,
            env.replay_batch_size,
            DEFAULT_OUTBOX_REPLAY_BATCH_SIZE as u64,
            true,
        ),
        outbox_setting(
            CLUSTER_OUTBOX_MAX_BACKOFF_SECS_ENV@,
            env.max_backoff_secs,
            DEFAULT_OUTBOX_MAX_BACKOFF_SECS,
            true,
        ),
        outbox_setting(
            CLUSTER_OUTBOX_MAX_RECORD_BYTES_ENV@,
            env.max_record_bytes,
            DEFAULT_OUTBOX_MAX_RECORD_BYTES,
            true,
        ),
        outbox_setting(
            CLUSTER_OUTBOX_CLEANUP_INTERVAL_SECS_ENV@,
            env.cleanup_interval_secs,
            DEFAULT_OUTBOX_CLEANUP_INTERVAL_SECS,
            true,
        ),
        outbox_setting(
            CLUSTER_OUTBOX_CLEANUP_MIN_STALE_RECORDS_ENV@,
            env.cleanup_min_stale_records,
            DEFAULT_OUTBOX_CLEANUP_MIN_STALE_RECORDS as u64,
            true,
        ),
        outbox_setting(
            CLUSTER_OUTBOX_STALLED_PEER_AGE_SECS_ENV@,
            env.stalled_peer_age_secs,
            DEFAULT_OUTBOX_STALLED_PEER_AGE_SECS,
            true,
        ),
        outbox_setting(
            CLUSTER_OUTBOX_STALLED_PEER_MIN_ENTRIES_ENV@,
            env.stalled_peer_min_entries,
            DEFAULT_OUTBOX_STALLED_PEER_MIN_ENTRIES,
            true,
        ),
        outbox_setting(
            CLUSTER_OUTBOX_STALLED_PEER_MIN_BYTES_ENV@,
            env.stalled_peer_min_bytes,
            DEFAULT_OUTBOX_STALLED_PEER_MIN_BYTES,
            true,
        ),
    ]
}

/// The settings that the environment asks for; the first one that is refused is reported.
pub open spec fn outbox_config_from(env: OutboxEnv) -> Result<OutboxConfig, Seq<char>> {
    let settings = outbox_settings(env);
    match first_refusal(settings, settings.len()) {
        Some(message) => Err(message),
        None => Ok(
            OutboxConfig {
                max_entries: settings[0]->Ok_0 as usize,
                max_bytes: settings[1]->Ok_0,
                max_peer_bytes: settings[2]->Ok_0,
                max_log_bytes: settings[3]->Ok_0,
                replay_interval_secs: settings[4]->Ok_0,
                replay_batch_size: settings[5]->Ok_0 as usize,
                max_backoff_secs: settings[6]->Ok_0,
                max_record_bytes: settings[7]->Ok_0,
                cleanup_interval_secs: settings[8]->Ok_0,
                cleanup_min_stale_records: settings[9]->Ok_0 as usize,
                stalled_peer_age_secs: settings[10]->Ok_0,
                stalled_peer_min_entries: settings[11]->Ok_0,
                stalled_peer_min_bytes: settings[12]->Ok_0,
            },
        ),
    }
}

/// Why some settings cannot be used.
pub open spec fn outbox_config_error(config: OutboxConfig) -> Option<Seq<char>> {
    if config.max_entries == 0 {
        Some("cluster outbox max entries must be greater than zero"@)
    } else if config.max_bytes == 0 {
        Some("cluster outbox max bytes must be greater than zero"@)
    } else if config.max_peer_bytes == 0 {
        Some("cluster outbox max peer bytes must be greater than zero"@)
    } else if config.max_log_bytes == 0 {
        Some("cluster outbox max log bytes must be greater than zero"@)
    } else if config.replay_batch_size == 0 {
        Some("cluster outbox replay batch size must be greater than zero"@)
    } else if config.max_record_bytes == 0 {
        Some("cluster outbox max record bytes must be greater than zero"@)
    } else if config.cleanup_interval_secs == 0 {
        Some("cluster outbox cleanup interval must be greater than zero"@)
    } else if config.cleanup_min_stale_records == 0 {
        Some("cluster outbox cleanup stale-record threshold must be greater than zero"@)
    } else if config.stalled_peer_age_secs == 0 {
        Some("cluster outbox stalled peer age threshold must be greater than zero"@)
    } else if config.stalled_peer_min_entries == 0 {
        Some("cluster outbox stalled peer minimum entries must be greater than zero"@)
    } else if config.stalled_peer_min_bytes == 0 {
        Some("cluster outbox stalled peer minimum bytes must be greater than zero"@)
    } else {
        None
    }
}

impl OutboxConfig {
    /// The settings that the environment asks for.
    pub fn from_env(env: &OutboxEnv) -> (res: Result<Self, String>)
        ensures
            message_view(res) == outbox_config_from(*env),
    {
        proof {
            reveal_with_fuel(first_refusal, 14);
        }
        let ghost settings = outbox_settings(*env);
        let defaults = OutboxConfig::default();
        let max_entries = parse_outbox_env_u64(
            CLUSTER_OUTBOX_MAX_ENTRIES_ENV,
            &env.max_entries,
            defaults.max_entries as u64,
            true,
        );
        assert(setting_view(max_entries) == settings[0]);
        let max_entries: u64 = match max_entries {
            Ok(n) => n,
            Err(message) => {
                return Err(message);
            },
        };
        let max_bytes = parse_outbox_env_u64(
            CLUSTER_OUTBOX_MAX_BYTES_ENV,
            &env.max_bytes,
            defaults.max_bytes,
            true,
        );
        assert(setting_view(max_bytes) == settings[1]);
        let max_bytes: u64 = match max_bytes {
            Ok(n) => n,
            Err(message) => {
                return Err(message);
            },
        };
        let max_peer_bytes = parse_outbox_env_u64(
            CLUSTER_OUTBOX_MAX_PEER_BYTES_ENV,
            &env.max_peer_bytes,
            defaults.max_peer_bytes,
            true,
        );
        assert(setting_view(max_peer_bytes) == settings[2]);
        let max_peer_bytes: u64 = match max_peer_bytes {
            Ok(n) => n,
            Err(message) => {
                return Err(message);
            },
        };
        let max_log_bytes = parse_outbox_env_u64(
            CLUSTER_OUTBOX_MAX_LOG_BYTES_ENV,
            &env.max_log_bytes,
            defaults.max_log_bytes,
            true,
        );
        assert(setting_view(max_log_bytes) == settings[3]);
        let max_log_bytes: u64 = match max_log_bytes {
            Ok(n) => n,
            Err(message) => {
                return Err(message);
            },
        };
        let replay_interval_secs = parse_outbox_env_u64(
            CLUSTER_OUTBOX_REPLAY_INTERVAL_SECS_ENV,
            &env.replay_interval_secs,
            defaults.replay_interval_secs,
            true,
        );
        assert(setting_view(replay_interval_secs) == settings[4]);
        let replay_interval_secs: u64 = match replay_interval_secs {
            Ok(n) => n,
            Err(message) => {
                return Err(message);
            },
        };
        let replay_batch_size = parse_outbox_env_u64(
            CLUSTER_OUTBOX_REPLAY_BATCH_SIZE_ENV,
            &env.replay_batch_size,
            defaults.replay_batch_size as u64,
            true,
        );
        assert(setting_view(replay_batch_size) == settings[5]);
        let replay_batch_size: u64 = match replay_batch_size {
            Ok(n) => n,
            Err(message) => {
                return Err(message);
            },
        };
        let max_backoff_secs = parse_outbox_env_u64(
            CLUSTER_OUTBOX_MAX_BACKOFF_SECS_ENV,
            &env.max_backoff_secs,
            defaults.max_backoff_secs,
            true,
        );
        assert(setting_view(max_backoff_secs) == settings[6]);
        let max_backoff_secs: u64 = match max_backoff_secs {
            Ok(n) => n,
            Err(message) => {
                return Err(message);
            },
        };
        let max_record_bytes = parse_outbox_env_u64(
            CLUSTER_OUTBOX_MAX_RECORD_BYTES_ENV,
            &env.max_record_bytes,
            defaults.max_record_bytes,
            true,
        );
        assert(setting_view(max_record_bytes) == settings[7]);
        let max_record_bytes: u64 = match max_record_bytes {
            Ok(n) => n,
            Err(message) => {
                return Err(message);
            },
        };
        let cleanup_interval_secs = parse_outbox_env_u64(
            CLUSTER_OUTBOX_CLEANUP_INTERVAL_SECS_ENV,
            &env.cleanup_interval_secs,
            defaults.cleanup_interval_secs,
            true,
        );
        assert(setting_view(cleanup_interval_secs) == settings[8]);
        let cleanup_interval_secs: u64 = match cleanup_interval_secs {
            Ok(n) => n,
            Err(message) => {
                return Err(message);
            },
        };
        let cleanup_min_stale_records = parse_outbox_env_u64(
            CLUSTER_OUTBOX_CLEANUP_MIN_STALE_RECORDS_ENV,
            &env.cleanup_min_stale_records,
            defaults.cleanup_min_stale_records as u64,
            true,
        );
        assert(setting_view(cleanup_min_stale_records) == settings[9]);
        let cleanup_min_stale_records: u64 = match cleanup_min_stale_records {
            Ok(n) => n,
            Err(message) => {
                return Err(message);
            },
        };
        let stalled_peer_age_secs = parse_outbox_env_u64(
            CLUSTER_OUTBOX_STALLED_PEER_AGE_SECS_ENV,
            &env.stalled_peer_age_secs,
            defaults.stalled_peer_age_secs,
            true,
        );
        assert(setting_view(stalled_peer_age_secs) == settings[10]);
        let stalled_peer_age_secs: u64 = match stalled_peer_age_secs {
            Ok(n) => n,
            Err(message) => {
                return Err(message);
            },
        };
        let stalled_peer_min_entries = parse_outbox_env_u64(
            CLUSTER_OUTBOX_STALLED_PEER_MIN_ENTRIES_ENV,
            &env.stalled_peer_min_entries,
            defaults.stalled_peer_min_entries,
            true,
        );
        assert(setting_view(stalled_peer_min_entries) == settings[11]);
        let stalled_peer_min_entries: u64 = match stalled_peer_min_entries {
            Ok(n) => n,
            Err(message) => {
                return Err(message);
            },
        };
        let stalled_peer_min_bytes = parse_outbox_env_u64(
            CLUSTER_OUTBOX_STALLED_PEER_MIN_BYTES_ENV,
            &env.stalled_peer_min_bytes,
            defaults.stalled_peer_min_bytes,
            true,
        );
        assert(setting_view(stalled_peer_min_bytes) == settings[12]);
        let stalled_peer_min_bytes: u64 = match stalled_peer_min_bytes {
            Ok(n) => n,
            Err(message) => {
                return Err(message);
            },
        };
        Ok(
            OutboxConfig {
                max_entries: max_entries as usize,
                max_bytes,
                max_peer_bytes,
                max_log_bytes,
                replay_interval_secs,
                replay_batch_size: replay_batch_size as usize,
                max_backoff_secs,
                max_record_bytes,
                cleanup_interval_secs,
                cleanup_min_stale_records: cleanup_min_stale_records as usize,
                stalled_peer_age_secs,
                stalled_peer_min_entries,
                stalled_peer_min_bytes,
            },
        )
    }

    /// The seconds between two rounds of replay.
    pub fn replay_interval(self) -> (res: u64)
        ensures
            res == at_least_one(self.replay_interval_secs),
    {
        if self.replay_interval_secs == 0 {
            1
        } else {
            self.replay_interval_secs
        }
    }

    /// The seconds between two rounds of cleaning up.
    pub fn cleanup_interval(self) -> (res: u64)
        ensures
            res == at_least_one(self.cleanup_interval_secs),
    {
        if self.cleanup_interval_secs == 0 {
            1
        } else {
            self.cleanup_interval_secs
        }
    }

    /// Checks that the settings can be used.
    pub fn validate(&self) -> (res: Result<(), String>)
        ensures
            match res {
                Ok(_) => outbox_config_error(*self) is None,
                Err(message) => outbox_config_error(*self) == Some(message@),
            },
    {
        if self.max_entries == 0 {
            return Err(owned("cluster outbox max entries must be greater than zero"));
        }
        if self.max_bytes == 0 {
            return Err(owned("cluster outbox max bytes must be greater than zero"));
        }
        if self.max_peer_bytes == 0 {
            return Err(owned("cluster outbox max peer bytes must be greater than zero"));
        }
        if self.max_log_bytes == 0 {
            return Err(owned("cluster outbox max log bytes must be greater than zero"));
        }
        if self.replay_batch_size == 0 {
            return Err(owned("cluster outbox replay batch size must be greater than zero"));
        }
        if self.max_record_bytes == 0 {
            return Err(owned("cluster outbox max record bytes must be greater than zero"));
        }
        if self.cleanup_interval_secs == 0 {
            return Err(owned("cluster outbox cleanup interval must be greater than zero"));
        }
        if self.cleanup_min_stale_records == 0 {
            return Err(owned("cluster outbox cleanup stale-record threshold must be greater than zero"));
        }
        if self.stalled_peer_age_secs == 0 {
            return Err(owned("cluster outbox stalled peer age threshold must be greater than zero"));
        }
        if self.stalled_peer_min_entries == 0 {
            return Err(owned("cluster outbox stalled peer minimum entries must be greater than zero"));
        }
        if self.stalled_peer_min_bytes == 0 {
            return Err(owned("cluster outbox stalled peer minimum bytes must be greater than zero"));
        }
        Ok(())
    }
}

} // verus!
