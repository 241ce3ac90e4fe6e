//! Traffic-control command construction for an ISP shaping box.
//!
//! The library turns a model of sites and subscriber circuits into the
//! ordered `tc` argument vectors that realise that model as a tree of HTB
//! classes and SQM leaf qdiscs, batches edits transactionally, and answers
//! read-only searches over the device catalog.

use vstd::prelude::*;

mod activity;
mod batch;
mod commands;
mod config;
mod handle;
mod ip;
mod overrides;
mod queue_math;
mod search;
mod text;

pub use activity::{
    ActivityEntry, ActivityTracker, MaterializationState, spec_activated, spec_idle, spec_to_wake,
    spec_tracks,
};
pub use batch::{
    BakeryError, BatchEngine, lemma_diff_identity, lemma_site_precedes_circuit, opt_cmds,
    spec_cmd_matches, spec_diff, spec_find_site, spec_has_circuit, spec_has_site, spec_matched_in,
    spec_rates_inverted, spec_site_change_cmds,
};
pub use commands::{
    BakeryCommands, ExecutionMode, lemma_circuit_emission_pattern, lemma_encoder_deterministic,
    lemma_lazy_policy_table, lemma_on_a_stick_mq, lemma_prune_inverts_build, spec_add_circuit,
    spec_add_site, spec_circuit_policy, spec_mq_bounds, spec_mq_setup, spec_prune_circuit,
    spec_prune_policy, spec_to_commands, spec_to_prune,
};
pub use config::{Config, LazyQueueMode};
pub use handle::{TcHandle, spec_tc_handle};
pub use ip::{
    ipv4_in_prefix, ipv6_in_prefix, ipv6_overlap, net_to_string, parse_cidr, parse_cidr4,
    parse_cidr6, parse_ip, parse_ipv4, parse_ipv6, spec_ipv4_in_prefix, spec_ipv6_in_prefix,
    spec_ipv6_overlap, spec_net_str, spec_parse_cidr, spec_parse_cidr4, spec_parse_cidr6,
    spec_parse_ip, spec_parse_ipv4, spec_parse_ipv6, spec_v4_to_v6, v4_to_v6,
};
pub use overrides::{
    CircuitAdjustment, NetworkAdjustment, OverrideFile, ShapedDevice, spec_find_by_device_id,
    spec_keep_by_circuit_id, spec_keep_by_device_id, spec_sd_eq,
};
pub use queue_math::{
    format_rate_for_tc, format_rate_for_tc_milli, quantum, r2q, spec_milli_to_mbps, spec_quantum,
    spec_r2q, spec_rate, spec_sqm_fixup, sqm_as_vec, sqm_rate_fixup,
};
pub use search::{
    CatalogDevice, SearchCatalog, SearchRequest, SearchResult, TrieEntry, best_match, contains_ci,
    search, spec_best_match, spec_cidr_query, spec_cidr_served, spec_contains_ci, spec_justified,
    spec_key, spec_kind_segments, spec_lower_char, spec_net_hit_key, spec_results_ok,
    spec_starts_with, starts_with,
};
pub use text::{
    dec_string, hex_string, spec_dec, spec_hex, spec_split_keep, spec_split_ws, spec_trim,
    split_keep, split_spaces, strings_equal, trim_spaces,
};
