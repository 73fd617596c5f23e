//! What the environment sets: each variable its own setting, and nothing else.

use vstd::prelude::*;
use crate::consensus::{
    consensus_config_from, default_consensus_config, timeout_ms, ControlConsensusConfig,
    ControlConsensusEnv, CLUSTER_CONTROL_DEAD_TIMEOUT_SECS_ENV,
    CLUSTER_CONTROL_LEADER_LEASE_SECS_ENV, CLUSTER_CONTROL_MAX_APPEND_ENTRIES_ENV,
    CLUSTER_CONTROL_SNAPSHOT_INTERVAL_ENTRIES_ENV, CLUSTER_CONTROL_SUSPECT_TIMEOUT_SECS_ENV,
    CLUSTER_CONTROL_TICK_INTERVAL_SECS_ENV,
};
use crate::consensus_recovery::config_error;
use crate::env::{control_setting, outbox_setting, EnvValue};
use crate::outbox_config::{
    default_outbox_config, first_refusal, outbox_config_error, outbox_config_from, outbox_settings,
    OutboxConfig, OutboxEnv,
};
use crate::parsing::numeral_value;
use crate::text::{decimal, trimmed};
use crate::text_laws::law_numbers_are_read_back;

verus! {

/// A variable says a number, with or without white space round it.
pub open spec fn says(value: EnvValue, n: u64) -> bool {
    value matches EnvValue::Text(text) && trimmed(text@) == decimal(n as nat)
}

/// A variable that is not set leaves the default.
pub open spec fn unset(value: EnvValue) -> bool {
    value is Missing
}

/// A variable that is not set leaves the default, and one that says a number sets it; nothing and what is
/// no number are refused, and so is zero where it would make no sense.
pub proof fn law_a_variable_sets_its_number(
    name: Seq<char>,
    value: EnvValue,
    default: u64,
    flag: bool,
    n: u64,
)
    ensures
        unset(value) ==> control_setting(name, value, default, flag) == Ok::<u64, Seq<char>>(
            default,
        ),
        unset(value) ==> outbox_setting(name, value, default, flag) == Ok::<u64, Seq<char>>(default),
        says(value, n) && n > 0 ==> control_setting(name, value, default, flag) == Ok::<
            u64,
            Seq<char>,
        >(n),
        says(value, n) && n > 0 ==> outbox_setting(name, value, default, flag) == Ok::<
            u64,
            Seq<char>,
        >(n),
        says(value, 0) && flag ==> control_setting(name, value, default, flag) is Err,
        says(value, 0) && !flag ==> control_setting(name, value, default, flag) == Ok::<
            u64,
            Seq<char>,
        >(0),
        says(value, 0) && default > 0 ==> outbox_setting(name, value, default, flag) is Err,
        value is NotUnicode ==> control_setting(name, value, default, flag) is Err
            && outbox_setting(name, value, default, flag) is Err,
        value matches EnvValue::Text(text) ==> numeral_value(trimmed(text@), u64::MAX as nat) is None
            ==> control_setting(name, value, default, flag) is Err && outbox_setting(
            name,
            value,
            default,
            flag,
        ) is Err,
{
    law_numbers_are_read_back(n as nat, u64::MAX as nat);
    law_numbers_are_read_back(0, u64::MAX as nat);
}

/// A number of the configuration comes of a variable: the default where it is not set, the number that it
/// says otherwise.
pub open spec fn comes_of(value: EnvValue, default: u64, found: u64) -> bool {
    &&& unset(value) ==> found == default
    &&& forall|n: u64| #[trigger] says(value, n) ==> found == n
    &&& value !is NotUnicode
}

proof fn lemma_outbox_setting(name: Seq<char>, value: EnvValue, default: u64)
    requires
        default > 0,
        outbox_setting(name, value, default, true) is Ok,
    ensures
        comes_of(value, default, outbox_setting(name, value, default, true)->Ok_0),
{
    assert forall|n: u64| #[trigger] says(value, n) implies outbox_setting(
        name,
        value,
        default,
        true,
    )->Ok_0 == n by {
        law_a_variable_sets_its_number(name, value, default, true, n);
    }
}

proof fn lemma_control_setting(name: Seq<char>, value: EnvValue, default: u64)
    requires
        control_setting(name, value, default, true) is Ok,
    ensures
        comes_of(value, default, control_setting(name, value, default, true)->Ok_0),
        default > 0 ==> control_setting(name, value, default, true)->Ok_0 > 0,
{
    assert forall|n: u64| #[trigger] says(value, n) implies control_setting(
        name,
        value,
        default,
        true,
    )->Ok_0 == n by {
        law_a_variable_sets_its_number(name, value, default, true, n);
    }
}

proof fn lemma_no_refusal(settings: Seq<Result<u64, Seq<char>>>, n: nat, i: int)
    requires
        first_refusal(settings, n) is None,
        0 <= i < n <= settings.len(),
    ensures
        settings[i] is Ok,
    decreases n,
{
    if i < n - 1 {
        lemma_no_refusal(settings, (n - 1) as nat, i);
    }
}

/// Every setting of the outbox comes of its own variable, with its own default.
pub proof fn law_outbox_settings_come_of_their_variables(env: OutboxEnv)
    requires
        usize::MAX == u64::MAX,
    ensures
        outbox_config_from(env) matches Ok(config) ==> {
            let default = default_outbox_config();
            &&& comes_of(env.max_entries, default.max_entries as u64, config.max_entries as u64)
            &&& comes_of(env.max_bytes, default.max_bytes, config.max_bytes)
            &&& comes_of(env.max_peer_bytes, default.max_peer_bytes, config.max_peer_bytes)
            &&& comes_of(env.max_log_bytes, default.max_log_bytes, config.max_log_bytes)
            &&& comes_of(env.replay_interval_secs, default.replay_interval_secs, config.replay_interval_secs)
            &&& comes_of(env.replay_batch_size, default.replay_batch_size as u64, config.replay_batch_size as u64)
            &&& comes_of(env.max_backoff_secs, default.max_backoff_secs, config.max_backoff_secs)
            &&& comes_of(env.max_record_bytes, default.max_record_bytes, config.max_record_bytes)
            &&& comes_of(env.cleanup_interval_secs, default.cleanup_interval_secs, config.cleanup_interval_secs)
            &&& comes_of(env.cleanup_min_stale_records, default.cleanup_min_stale_records as u64, config.cleanup_min_stale_records as u64)
            &&& comes_of(env.stalled_peer_age_secs, default.stalled_peer_age_secs, config.stalled_peer_age_secs)
            &&& comes_of(env.stalled_peer_min_entries, default.stalled_peer_min_entries, config.stalled_peer_min_entries)
            &&& comes_of(env.stalled_peer_min_bytes, default.stalled_peer_min_bytes, config.stalled_peer_min_bytes)
        },
{
    let settings = outbox_settings(env);
    let default = default_outbox_config();
    if outbox_config_from(env) is Ok {
        lemma_no_refusal(settings, settings.len(), 0);
        lemma_outbox_setting(
            crate::outbox_config::CLUSTER_OUTBOX_MAX_ENTRIES_ENV@,
            env.max_entries,
            default.max_entries as u64,
        );
        lemma_no_refusal(settings, settings.len(), 1);
        lemma_outbox_setting(
            crate::outbox_config::CLUSTER_OUTBOX_MAX_BYTES_ENV@,
            env.max_bytes,
            default.max_bytes,
        );
        lemma_no_refusal(settings, settings.len(), 2);
        lemma_outbox_setting(
            crate::outbox_config::CLUSTER_OUTBOX_MAX_PEER_BYTES_ENV@,
            env.max_peer_bytes,
            default.max_peer_bytes,
        );
        lemma_no_refusal(settings, settings.len(), 3);
        lemma_outbox_setting(
            crate::outbox_config::CLUSTER_OUTBOX_MAX_LOG_BYTES_ENV@,
            env.max_log_bytes,
            default.max_log_bytes,
        );
        lemma_no_refusal(settings, settings.len(), 4);
        lemma_outbox_setting(
            crate::outbox_config::CLUSTER_OUTBOX_REPLAY_INTERVAL_SECS_ENV@,
            env.replay_interval_secs,
            default.replay_interval_secs,
        );
        lemma_no_refusal(settings, settings.len(), 5);
        lemma_outbox_setting(
            crate::outbox_config::CLUSTER_OUTBOX_REPLAY_BATCH_SIZE_ENV@,
            env.replay_batch_size,
            default.replay_batch_size as u64,
        );
        lemma_no_refusal(settings, settings.len(), 6);
        lemma_outbox_setting(
            crate::outbox_config::CLUSTER_OUTBOX_MAX_BACKOFF_SECS_ENV@,
            env.max_backoff_secs,
            default.max_backoff_secs,
        );
        lemma_no_refusal(settings, settings.len(), 7);
        lemma_outbox_setting(
            crate::outbox_config::CLUSTER_OUTBOX_MAX_RECORD_BYTES_ENV@,
            env.max_record_bytes,
            default.max_record_bytes,
        );
        lemma_no_refusal(settings, settings.len(), 8);
        lemma_outbox_setting(
            crate::outbox_config::CLUSTER_OUTBOX_CLEANUP_INTERVAL_SECS_ENV@,
            env.cleanup_interval_secs,
            default.cleanup_interval_secs,
        );
        lemma_no_refusal(settings, settings.len(), 9);
        lemma_outbox_setting(
            crate::outbox_config::CLUSTER_OUTBOX_CLEANUP_MIN_STALE_RECORDS_ENV@,
            env.cleanup_min_stale_records,
            default.cleanup_min_stale_records as u64,
        );
        lemma_no_refusal(settings, settings.len(), 10);
        lemma_outbox_setting(
            crate::outbox_config::CLUSTER_OUTBOX_STALLED_PEER_AGE_SECS_ENV@,
            env.stalled_peer_age_secs,
            default.stalled_peer_age_secs,
        );
        lemma_no_refusal(settings, settings.len(), 11);
        lemma_outbox_setting(
            crate::outbox_config::CLUSTER_OUTBOX_STALLED_PEER_MIN_ENTRIES_ENV@,
            env.stalled_peer_min_entries,
            default.stalled_peer_min_entries,
        );
        lemma_no_refusal(settings, settings.len(), 12);
        lemma_outbox_setting(
            crate::outbox_config::CLUSTER_OUTBOX_STALLED_PEER_MIN_BYTES_ENV@,
            env.stalled_peer_min_bytes,
            default.stalled_peer_min_bytes,
        );
    }
}

/// Every setting of the consensus comes of its own variable, with its own default, and is more than zero.
pub proof fn law_consensus_settings_come_of_their_variables(env: ControlConsensusEnv)
    requires
        usize::MAX == u64::MAX,
    ensures
        consensus_config_from(env) matches Ok(config) ==> {
            let default = default_consensus_config();
            &&& comes_of(env.tick_interval_secs, default.tick_interval_secs, config.tick_interval_secs)
            &&& config.tick_interval_secs > 0
            &&& comes_of(env.max_append_entries, default.max_append_entries as u64, config.max_append_entries as u64)
            &&& config.max_append_entries > 0
            &&& comes_of(env.snapshot_interval_entries, default.snapshot_interval_entries as u64, config.snapshot_interval_entries as u64)
            &&& config.snapshot_interval_entries > 0
            &&& comes_of(env.suspect_timeout_secs, default.suspect_timeout_secs, config.suspect_timeout_secs)
            &&& config.suspect_timeout_secs > 0
            &&& comes_of(env.dead_timeout_secs, default.dead_timeout_secs, config.dead_timeout_secs)
            &&& config.dead_timeout_secs > 0
            &&& comes_of(env.leader_lease_secs, default.leader_lease_secs, config.leader_lease_secs)
            &&& config.leader_lease_secs > 0
        },
{
    let default = default_consensus_config();
    if consensus_config_from(env) is Ok {
        lemma_control_setting(CLUSTER_CONTROL_TICK_INTERVAL_SECS_ENV@, env.tick_interval_secs, default.tick_interval_secs);
        lemma_control_setting(CLUSTER_CONTROL_MAX_APPEND_ENTRIES_ENV@, env.max_append_entries, default.max_append_entries as u64);
        lemma_control_setting(CLUSTER_CONTROL_SNAPSHOT_INTERVAL_ENTRIES_ENV@, env.snapshot_interval_entries, default.snapshot_interval_entries as u64);
        lemma_control_setting(CLUSTER_CONTROL_SUSPECT_TIMEOUT_SECS_ENV@, env.suspect_timeout_secs, default.suspect_timeout_secs);
        lemma_control_setting(CLUSTER_CONTROL_DEAD_TIMEOUT_SECS_ENV@, env.dead_timeout_secs, default.dead_timeout_secs);
        lemma_control_setting(CLUSTER_CONTROL_LEADER_LEASE_SECS_ENV@, env.leader_lease_secs, default.leader_lease_secs);
    }
}

/// A configuration of the outbox holds where none of its limits is zero; waiting between rounds and
/// waiting after a failure may be.
pub proof fn law_which_outbox_settings_hold(config: OutboxConfig)
    ensures
        outbox_config_error(config) is None <==> config.max_entries > 0 && config.max_bytes > 0
            && config.max_peer_bytes > 0 && config.max_log_bytes > 0 && config.replay_batch_size > 0
            && config.max_record_bytes > 0 && config.cleanup_interval_secs > 0
            && config.cleanup_min_stale_records > 0 && config.stalled_peer_age_secs > 0
            && config.stalled_peer_min_entries > 0 && config.stalled_peer_min_bytes > 0,
        outbox_config_error(default_outbox_config()) is None,
{
}

/// A configuration of the consensus holds where entries can be sent and kept, a peer is not dead before
/// it is suspect, and a lease lasts for a tick.
pub proof fn law_which_consensus_settings_hold(config: ControlConsensusConfig)
    ensures
        config_error(config) is None <==> config.max_append_entries > 0
            && config.snapshot_interval_entries > 0 && config.suspect_timeout_secs
            <= config.dead_timeout_secs && config.tick_interval_secs <= config.leader_lease_secs,
        config_error(default_consensus_config()) is None,
{
}

/// A time in seconds is a thousand times as much in milliseconds; no time counts as a second.
pub proof fn law_seconds_are_milliseconds(secs: u64)
    requires
        secs * 1000 <= u64::MAX,
    ensures
        secs > 0 ==> timeout_ms(secs) == secs * 1000,
        timeout_ms(0) == 1000,
{
}

} // verus!
