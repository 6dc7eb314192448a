//! Configuration of the proxy, as plain values.

use vstd::prelude::*;

verus! {

/// Remaining Length cap that applies when the configuration names none.
pub const DEFAULT_MAX_CONNECT_REMAINING: usize = 65536;

/// The whole configuration.
#[derive(Debug, Clone)]
pub struct Config {
    pub proxy: ProxyConfig,
    pub limit: LimitConfig,
    pub slowloris_protection: SlowlorisConfig,
    pub http_inspection: HttpInspectionConfig,
    pub metrics: MetricsConfig,
    pub features: FeaturesConfig,
}

/// Where the proxy listens and where it forwards.
#[derive(Debug, Clone)]
pub struct ProxyConfig {
    pub listen_address: String,
    pub target_address: String,
    /// Largest Remaining Length, in bytes, that full CONNECT inspection
    /// accepts. When absent, `DEFAULT_MAX_CONNECT_REMAINING` applies.
    pub max_connect_remaining: Option<usize>,
}

impl ProxyConfig {
    /// The Remaining Length cap in force.
    pub fn effective_max_connect_remaining(&self) -> (cap: usize)
        ensures
            cap == match self.max_connect_remaining {
                Some(n) => n,
                None => DEFAULT_MAX_CONNECT_REMAINING,
            },
    {
        match self.max_connect_remaining {
            Some(n) => n,
            None => DEFAULT_MAX_CONNECT_REMAINING,
        }
    }
}

/// Token-bucket policy. Tokens are counted in billionths of a token, so
/// that fractional capacities and rates are exact integers.
#[derive(Debug, Clone, Copy, PartialEq, Eq, Structural)]
pub struct LimitConfig {
    /// Capacity of a bucket, in billionths of a token.
    pub max_tokens: u64,
    /// Refill per second, in billionths of a token.
    pub refill_rate: u64,
    /// Seconds between two eviction passes.
    pub cleanup_interval_secs: u64,
    /// Seconds without a check after which a bucket is dropped.
    pub ip_idle_timeout_secs: u64,
}

/// Deadlines and size limits against slow senders.
#[derive(Debug, Clone, Copy, PartialEq, Eq, Structural)]
pub struct SlowlorisConfig {
    /// Time to receive the first bytes after the connection was accepted (ms).
    pub first_packet_timeout_ms: u64,
    /// Longest idle time between two bytes (ms).
    pub packet_idle_timeout_ms: u64,
    /// Time until the first complete packet (ms).
    pub connection_timeout_ms: u64,
    /// Time to receive a complete CONNECT packet (ms).
    pub mqtt_connect_timeout_ms: u64,
    /// Time to receive any other complete MQTT packet (ms).
    pub mqtt_packet_timeout_ms: u64,
    /// Time to receive a complete HTTP request line and headers (ms).
    pub http_request_timeout_ms: u64,
    /// Largest total size of the HTTP headers (bytes).
    pub max_http_header_size: usize,
    /// Limit on the number of HTTP headers.
    pub max_http_header_count: usize,
}

/// Limits of the HTTP inspection itself.
#[derive(Debug, Clone, Copy, PartialEq, Eq, Structural)]
pub struct HttpInspectionConfig {
    /// Size limit of a single HTTP header line (bytes).
    pub max_header_line_size: usize,
}

/// The observability endpoint.
#[derive(Debug, Clone, Copy, PartialEq, Eq, Structural)]
pub struct MetricsConfig {
    pub enabled: bool,
    pub port: u16,
}

/// Switches for the protections and subsystems of the proxy.
#[derive(Debug, Clone, Copy, PartialEq, Eq, Structural)]
pub struct FeaturesConfig {
    /// MQTT-level inspection and CONNECT validation.
    pub enable_mqtt_inspection: bool,
    /// Full Remaining Length and CONNECT validation.
    pub enable_mqtt_full_inspection: bool,
    /// HTTP inspection and related protections.
    pub enable_http_inspection: bool,
    /// Deadlines against slow senders.
    pub enable_slowloris_protection: bool,
    /// Per-source token-bucket rate limiting.
    pub enable_rate_limiter: bool,
    /// eBPF fast-path integration, where available.
    pub enable_ebpf: bool,
    /// Anomaly detection pipeline.
    pub enable_ml: bool,
}

} // verus!
