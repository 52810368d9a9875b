//! Plain configuration records shared with the surrounding process.
//!
//! Loading them from disk is the surrounding system's concern; the library
//! holds only the data.

use vstd::prelude::*;

verus! {

/// Instrument and environment selection.
#[derive(Clone, Debug)]
pub struct GeneralConfig {
    pub symbol: String,
    pub base_currency: String,
    pub quote_currency: String,
    pub environment: String,
}

/// Exchange endpoints.
#[derive(Clone, Debug)]
pub struct ExchangeConfig {
    pub name: String,
    pub testnet: bool,
    pub api_endpoint: String,
    pub ws_endpoint: String,
}

/// Latency targets and limits.
#[derive(Clone, Copy, Debug, PartialEq, Eq, Structural)]
pub struct LatencyConfig {
    pub target_signal_to_order_ms: u64,
    pub max_acceptable_latency_ms: u64,
    pub ws_ping_interval_ms: u64,
}

/// Logging destination and level.
#[derive(Clone, Debug)]
pub struct LoggingConfig {
    pub level: String,
    pub output: String,
    pub file_path: String,
}

/// Metrics endpoint.
#[derive(Clone, Copy, Debug, PartialEq, Eq, Structural)]
pub struct MetricsConfig {
    pub prometheus_port: u16,
    pub enabled: bool,
}

} // verus!
