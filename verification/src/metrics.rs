//! The counters that the proxy keeps, by name, and the counter that each
//! rejection is counted on.

use crate::engine::connection::Rejection;
use vstd::prelude::*;

verus! {

/// A counter of rejected connections.
#[derive(Debug, Clone, Copy, PartialEq, Eq, Structural)]
pub enum Counter {
    /// Connections rejected by rate limiting.
    RejectedConnections,
    /// Connections rejected by the MQTT validation.
    ProtocolRejections,
    /// Connections rejected because they spoke HTTP.
    HttpRejections,
    /// Connections rejected as slow senders.
    SlowlorisRejections,
    /// Connections that could not be handed to the broker.
    BackendRejections,
}

/// The counter that a rejection is counted on: each kind has one, and no
/// two kinds share one.
pub open spec fn counter_spec(kind: Rejection) -> Counter {
    match kind {
        Rejection::RateLimited => Counter::RejectedConnections,
        Rejection::Protocol => Counter::ProtocolRejections,
        Rejection::Http => Counter::HttpRejections,
        Rejection::Slowloris => Counter::SlowlorisRejections,
        Rejection::BackendUnavailable => Counter::BackendRejections,
    }
}

/// The name under which a counter is exported.
pub open spec fn counter_name_spec(counter: Counter) -> Seq<char> {
    match counter {
        Counter::RejectedConnections => "aegis_rejected_connections_total"@,
        Counter::ProtocolRejections => "aegis_protocol_rejections_total"@,
        Counter::HttpRejections => "aegis_http_rejections_total"@,
        Counter::SlowlorisRejections => "aegis_slowloris_rejections_total"@,
        Counter::BackendRejections => "aegis_backend_rejections_total"@,
    }
}

/// The counter that a rejection is counted on.
pub fn counter_for(kind: Rejection) -> (counter: Counter)
    ensures
        counter == counter_spec(kind),
{
    match kind {
        Rejection::RateLimited => Counter::RejectedConnections,
        Rejection::Protocol => Counter::ProtocolRejections,
        Rejection::Http => Counter::HttpRejections,
        Rejection::Slowloris => Counter::SlowlorisRejections,
        Rejection::BackendUnavailable => Counter::BackendRejections,
    }
}

impl Counter {
    /// The name under which the counter is exported.
    pub fn name(self) -> (name: &'static str)
        ensures
            name@ == counter_name_spec(self),
    {
        match self {
            Counter::RejectedConnections => "aegis_rejected_connections_total",
            Counter::ProtocolRejections => "aegis_protocol_rejections_total",
            Counter::HttpRejections => "aegis_http_rejections_total",
            Counter::SlowlorisRejections => "aegis_slowloris_rejections_total",
            Counter::BackendRejections => "aegis_backend_rejections_total",
        }
    }

    /// What the counter counts, in words.
    pub fn help(self) -> (help: &'static str)
        ensures
            help@ == match self {
                Counter::RejectedConnections => "Total number of connections rejected by rate limiting"@,
                Counter::ProtocolRejections => "Total number of connections rejected by protocol (MQTT) validation"@,
                Counter::HttpRejections => "Total number of connections rejected due to HTTP protocol detection"@,
                Counter::SlowlorisRejections => "Total number of connections rejected due to Slowloris attack detection"@,
                Counter::BackendRejections => "Total number of connections rejected because the backend was unavailable"@,
            },
    {
        match self {
            Counter::RejectedConnections => "Total number of connections rejected by rate limiting",
            Counter::ProtocolRejections => "Total number of connections rejected by protocol (MQTT) validation",
            Counter::HttpRejections => "Total number of connections rejected due to HTTP protocol detection",
            Counter::SlowlorisRejections => "Total number of connections rejected due to Slowloris attack detection",
            Counter::BackendRejections => "Total number of connections rejected because the backend was unavailable",
        }
    }
}

/// Name of the gauge of live relays.
pub fn active_connections_name() -> (name: &'static str)
    ensures
        name@ == "aegis_active_connections"@,
{
    "aegis_active_connections"
}

/// What the gauge of live relays shows, in words.
pub fn active_connections_help() -> (help: &'static str)
    ensures
        help@ == "Number of currently active MQTT proxy connections"@,
{
    "Number of currently active MQTT proxy connections"
}

/// What the observability endpoint answers to a request.
#[derive(Debug, Clone, Copy, PartialEq, Eq, Structural)]
pub enum ObservabilityRoute {
    /// `/health`: the text `OK`.
    Health,
    /// `/metrics`: the counters and the gauge as text.
    Metrics,
    /// Anything else: not found.
    NotFound,
}

/// The answer to a request for `path`.
pub open spec fn route_spec(path: Seq<char>) -> ObservabilityRoute {
    if path == "/health"@ {
        ObservabilityRoute::Health
    } else if path == "/metrics"@ {
        ObservabilityRoute::Metrics
    } else {
        ObservabilityRoute::NotFound
    }
}

/// The answer of the observability endpoint to a request for `path`.
pub fn route(path: &str) -> (r: ObservabilityRoute)
    ensures
        r == route_spec(path@),
{
    let asked = path.to_owned();
    if asked == "/health".to_owned() {
        ObservabilityRoute::Health
    } else if asked == "/metrics".to_owned() {
        ObservabilityRoute::Metrics
    } else {
        ObservabilityRoute::NotFound
    }
}

/// Two different rejections are counted on different counters.
pub proof fn lemma_counters_distinct(a: Rejection, b: Rejection)
    requires
        a != b,
    ensures
        counter_spec(a) != counter_spec(b),
{
}

/// Two different counters are exported under different names.
pub proof fn lemma_counter_names_distinct(a: Counter, b: Counter)
    requires
        a != b,
    ensures
        counter_name_spec(a) != counter_name_spec(b),
{
    reveal_strlit("aegis_rejected_connections_total");
    reveal_strlit("aegis_protocol_rejections_total");
    reveal_strlit("aegis_http_rejections_total");
    reveal_strlit("aegis_slowloris_rejections_total");
    reveal_strlit("aegis_backend_rejections_total");
    let x = counter_name_spec(a);
    let y = counter_name_spec(b);
    if x.len() == y.len() {
        // Names of one length differ in their seventh character.
        assert(x[6] != y[6]);
    }
}

} // verus!
