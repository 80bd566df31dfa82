use vstd::prelude::*;

use crate::process::ProcessRecord;

verus! {

/// One point-in-time read of host and process metrics, already reduced to
/// plain values by the sampling layer. Percentages are in hundredths of a
/// percent; memory figures are bytes; the uptime is in seconds.
pub struct MetricsSnapshot {
    pub host_name: String,
    pub os_name: String,
    pub kernel_version: String,
    pub uptime_seconds: u64,
    pub cpu_brand: String,
    pub global_cpu: u64,
    pub per_core_cpu: Vec<u64>,
    pub total_memory: u64,
    pub total_swap: u64,
    pub used_memory: u64,
    pub used_swap: u64,
    pub processes: Vec<ProcessRecord>,
}

} // verus!
