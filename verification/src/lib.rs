//! Verified core of a host-metrics telemetry pipeline.
//!
//! The pipeline samples raw platform counters at a fast cadence, converts
//! cumulative counters into per-second rates, and aggregates samples over a
//! window into one smoothed snapshot. All scalar metrics are fixed-point
//! integers: CPU usage and temperatures in hundredths of a unit, frequencies
//! in MHz, rates in bytes per second.

mod aggregator;
mod builder;
mod cache;
mod ema;
mod rates;
mod snapshot;
mod topsort;

pub use aggregator::Accum;
pub use aggregator::NetSum;
pub use aggregator::ProcEma;
pub use aggregator::TOP_N;
pub use aggregator::ema_after;
pub use aggregator::ema_apply_all;
pub use aggregator::ema_apply_one;
pub use aggregator::ema_lookup;
pub use aggregator::lemma_ema_absent_name_unchanged;
pub use aggregator::lemma_ema_present_name_steps;
pub use aggregator::lemma_average_of_constant;
pub use aggregator::lemma_net_absent_name_unchanged;
pub use aggregator::lemma_net_present_name_accumulates;
pub use aggregator::lemma_sum_of_constant;
pub use aggregator::lemma_sum_push;
pub use aggregator::net_apply_all;
pub use aggregator::net_apply_one;
pub use aggregator::net_sum_lookup;
pub use aggregator::net_sums_after;
pub use aggregator::smooth_entry;
pub use aggregator::smoothed_seq;
pub use builder::RawNic;
pub use builder::RawReadings;
pub use builder::avg_freq_mhz;
pub use builder::build_snapshot;
pub use builder::disk_read_rate;
pub use builder::disk_write_rate;
pub use builder::max_temp_centi;
pub use builder::nic_out_matches;
pub use builder::nic_rx_rate;
pub use builder::nic_tx_rate;
pub use builder::raw_nics_distinct;
pub use builder::seq_sum_u64;
pub use cache::Cache;
pub use ema::ema_iter;
pub use ema::ema_step;
pub use ema::ema_update;
pub use ema::lemma_ema_convergence;
pub use ema::lemma_ema_step_contracts;
pub use rates::rate_bps;
pub use rates::rate_sat;
pub use rates::rate_spec;
pub use snapshot::CpuProcess;
pub use snapshot::CpuStats;
pub use snapshot::DiskPart;
pub use snapshot::DiskStats;
pub use snapshot::MemStats;
pub use snapshot::NicCounter;
pub use snapshot::NicStats;
pub use snapshot::PreCounters;
pub use snapshot::Snapshot;
pub use snapshot::find_nic_counter;
pub use snapshot::nic_counter_lookup;
pub use topsort::sort_top_desc;
pub use topsort::sorted_desc;
