#![allow(unused_imports)]

pub mod clock;
pub mod consensus;
pub mod consensus_apply_laws;
pub mod consensus_laws;
pub mod consensus_leader;
pub mod consensus_node;
pub mod consensus_recovery;
pub mod consensus_replication_laws;
pub mod consensus_rules;
pub mod control;
pub mod control_commands;
pub mod control_laws;
pub mod control_ownership;
pub mod control_ownership_laws;
pub mod control_store;
pub mod control_validity;
pub mod crypto;
pub mod env;
pub mod hotspot;
pub mod hotspot_count_laws;
pub mod hotspot_laws;
pub mod hotspot_loads;
pub mod json;
pub mod lists;
pub mod membership;
pub mod outbox;
pub mod outbox_config;
pub mod outbox_delivery_laws;
pub mod outbox_laws;
pub mod parsing;
pub mod query;
pub mod query_answer_laws;
pub mod query_fanout;
pub mod query_laws;
pub mod query_metrics;
pub mod query_metrics_laws;
pub mod query_points;
pub mod rbac;
pub mod rbac_access_laws;
pub mod rbac_accounts;
pub mod rbac_change_laws;
pub mod rbac_config;
pub mod rbac_config_laws;
pub mod rbac_decision;
pub mod rbac_laws;
pub mod rbac_registry_laws;
pub mod rbac_types;
pub mod read_cache;
pub mod read_cache_key_laws;
pub mod read_cache_laws;
pub mod recovery_laws;
pub mod ring;
pub mod rpc_auth;
pub mod rpc_auth_laws;
pub mod rpc_client;
pub mod rpc_client_laws;
pub mod rpc_types;
pub mod settings_laws;
pub mod shard_map;
pub mod text;
pub mod text_laws;
pub mod text_map;
