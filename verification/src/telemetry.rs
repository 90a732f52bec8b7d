//! What a node reports about itself.
use vstd::prelude::*;

verus! {

/// A single-precision number, carried by its bit pattern. Measurements are stored and
/// handed on, never computed with.
#[derive(Debug, Clone, Copy, PartialEq, Eq, Structural)]
pub struct Float32 {
    pub bits: u32,
}

/// A double-precision number, carried by its bit pattern.
#[derive(Debug, Clone, Copy, PartialEq, Eq, Structural)]
pub struct Float64 {
    pub bits: u64,
}

/// One measurement of one node.
#[derive(Debug, Clone)]
pub struct NodeTelemetry {
    pub hostname: String,
    pub cpu_usage: Float32,
    pub ram_used_mb: u64,
    pub ram_total_mb: u64,
    pub load_avg_1m: Float64,
    pub load_avg_5m: Float64,
    pub load_avg_15m: Float64,
    pub uptime_secs: u64,
    pub disk_used_gb: Float64,
    pub disk_total_gb: Float64,
    pub tailscale_ip: String,
    pub timestamp_sec: i64,
}

} // verus!
