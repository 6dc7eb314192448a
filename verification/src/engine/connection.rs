//! Inspection of a freshly accepted connection.
//!
//! The inspector decides, one socket operation at a time, whether a client
//! is let through to the broker. It never touches a socket itself: it names
//! the next operation as an [`Action`], takes the outcome as an [`Event`],
//! and ends by accepting the connection, with the bytes that must reach the
//! broker first, or by rejecting it.

use crate::config::{Config, SlowlorisConfig, DEFAULT_MAX_CONNECT_REMAINING};
use crate::engine::http::{
    initial_state,
    lemma_step_ready,
    looks_like_http,
    looks_like_http_spec,
    step,
    HttpInspectionResult,
    HttpInspector,
    HttpLimits,
    HttpOutcome,
    HttpProgress,
    HttpProgressView,
    HttpState,
    ReadEvent,
};
use crate::parser::mqtt::{
    decode_remaining_length,
    decode_spec,
    inspect_packet,
    lemma_decode_ignores_tail,
    lemma_decode_outcomes,
    lemma_error_names_differ,
    packet_type_of,
    Decoded,
    MqttPacketType,
};
use vstd::prelude::*;

verus! {

/// Number of bytes looked at when the first packet is awaited.
pub const FIRST_PEEK_SIZE: usize = 16;

/// Deadline for the whole fixed header when slow-sender protection is off (ms).
pub const DEFAULT_CONNECT_TIMEOUT_MS: u64 = 30_000;

/// Idle deadline for the fixed header when slow-sender protection is off (ms).
pub const DEFAULT_IDLE_TIMEOUT_MS: u64 = 10_000;

/// Deadline for each byte of the Remaining Length (ms).
pub const REMAINING_LENGTH_TIMEOUT_MS: u64 = 1_000;

/// Deadline for the variable header and payload of CONNECT (ms).
pub const PAYLOAD_TIMEOUT_MS: u64 = 5_000;

/// Deadline for the look at the first byte in lightweight inspection (ms).
pub const LIGHT_PEEK_TIMEOUT_MS: u64 = 3_000;

/// How a connection is handled.
#[derive(Debug, Clone, Copy, PartialEq, Eq, Structural)]
pub struct ConnectionConfig {
    /// Check that the client opens with an MQTT CONNECT.
    pub mqtt_inspect: bool,
    /// Read and validate the whole CONNECT packet, not just its first byte.
    pub mqtt_full_inspect: bool,
    /// Reject HTTP requests.
    pub http_inspect: bool,
    /// Apply the deadlines against slow senders.
    pub slowloris_protect: bool,
    /// Largest Remaining Length that full inspection reads.
    pub max_connect_remaining: usize,
    /// Size that a header line of an HTTP request must stay below.
    pub max_header_line_size: usize,
    /// Deadlines and HTTP limits.
    pub slowloris_config: SlowlorisConfig,
}

/// How connections are handled under a configuration.
pub open spec fn connection_config_spec(config: Config) -> ConnectionConfig {
    ConnectionConfig {
        mqtt_inspect: config.features.enable_mqtt_inspection,
        mqtt_full_inspect: config.features.enable_mqtt_full_inspection,
        http_inspect: config.features.enable_http_inspection,
        slowloris_protect: config.features.enable_slowloris_protection,
        max_connect_remaining: match config.proxy.max_connect_remaining {
            Some(n) => n,
            None => DEFAULT_MAX_CONNECT_REMAINING,
        },
        max_header_line_size: config.http_inspection.max_header_line_size,
        slowloris_config: config.slowloris_protection,
    }
}

impl ConnectionConfig {
    /// The handling of connections that a configuration asks for: its
    /// switches, its limits, and 64 KiB of CONNECT payload when it names
    /// no cap.
    pub fn from_config(config: &Config) -> (c: ConnectionConfig)
        ensures
            c == connection_config_spec(*config),
    {
        ConnectionConfig {
            mqtt_inspect: config.features.enable_mqtt_inspection,
            mqtt_full_inspect: config.features.enable_mqtt_full_inspection,
            http_inspect: config.features.enable_http_inspection,
            slowloris_protect: config.features.enable_slowloris_protection,
            max_connect_remaining: config.proxy.effective_max_connect_remaining(),
            max_header_line_size: config.http_inspection.max_header_line_size,
            slowloris_config: config.slowloris_protection,
        }
    }
}

/// Why a connection is turned away.
#[derive(Debug, Clone, Copy, PartialEq, Eq, Structural)]
pub enum Rejection {
    /// The client did not open with a well-formed MQTT CONNECT.
    Protocol,
    /// The client stalled, or its HTTP request broke a limit.
    Slowloris,
    /// The client sent a well-formed HTTP request.
    Http,
    /// The source address has used up its tokens.
    RateLimited,
    /// The broker could not be reached or did not take the first bytes.
    BackendUnavailable,
}

/// The socket operation that the inspector asks for.
#[derive(Debug, Clone, Copy, PartialEq, Eq, Structural)]
pub enum Action {
    /// Look at up to `max_len` bytes without consuming them, waiting at most
    /// `timeout_ms`.
    Peek { max_len: usize, timeout_ms: u64 },
    /// Read one byte, waiting at most `idle_timeout_ms` for it. The reads of
    /// one series, which begins where `restart_clock` is set, may take
    /// `total_timeout_ms` together.
    ReadByte { idle_timeout_ms: u64, total_timeout_ms: u64, restart_clock: bool },
    /// Read exactly `len` bytes within `timeout_ms`.
    ReadExact { len: usize, timeout_ms: u64 },
}

/// Outcome of the operation that was asked for.
#[derive(Debug, Clone, PartialEq, Eq)]
pub enum Event {
    /// The bytes that were seen or read.
    Data(Vec<u8>),
    /// The client closed the connection.
    Eof,
    /// The deadline of the operation passed.
    TimedOut,
    /// The deadline of the series of reads passed.
    DeadlineExceeded,
    /// The transport reported an error.
    Failed,
}

/// An event, its bytes as a sequence.
pub enum EventView {
    Data(Seq<u8>),
    Eof,
    TimedOut,
    DeadlineExceeded,
    Failed,
}

impl View for Event {
    type V = EventView;

    open spec fn view(&self) -> EventView {
        match self {
            Event::Data(bytes) => EventView::Data(bytes@),
            Event::Eof => EventView::Eof,
            Event::TimedOut => EventView::TimedOut,
            Event::DeadlineExceeded => EventView::DeadlineExceeded,
            Event::Failed => EventView::Failed,
        }
    }
}

/// What the inspector is waiting for.
pub enum PhaseView {
    /// The first bytes of the connection, looked at without consuming.
    FirstPeek,
    /// The next byte of what looks like an HTTP request.
    Http(HttpState),
    /// The fixed header of the first MQTT packet.
    FixedHeader,
    /// The next byte of the Remaining Length; the bytes read so far.
    RemainingLength(Seq<u8>),
    /// The variable header and payload, of the given length.
    Payload(nat),
    /// A look at the first byte, without consuming it.
    LightPeek,
}

/// State of an inspection between two operations.
pub struct InspectorView {
    pub config: ConnectionConfig,
    pub phase: PhaseView,
    /// The bytes consumed from the client so far.
    pub prefix: Seq<u8>,
}

/// Where an inspection stands.
pub enum InspectionView {
    /// Another operation is needed.
    Pending(InspectorView),
    /// The client is let through; the bytes must reach the broker first.
    Accept(Seq<u8>),
    /// The client is turned away.
    Reject(Rejection),
}

/// The variable header of CONNECT begins with the protocol name: a length
/// of four and the letters `MQTT`.
pub open spec fn connect_header_valid(payload: Seq<u8>) -> bool {
    &&& payload.len() >= 6
    &&& payload[0] == 0x00
    &&& payload[1] == 0x04
    &&& payload[2] == 0x4D
    &&& payload[3] == 0x51
    &&& payload[4] == 0x54
    &&& payload[5] == 0x54
}

/// Minimal validation of the variable header of CONNECT. The protocol
/// level, the flags, the keep-alive and the client identifier are left to
/// the broker.
pub fn validate_connect_variable_header(payload: &[u8]) -> (ok: bool)
    ensures
        ok == connect_header_valid(payload@),
{
    payload.len() >= 6 && payload[0] == 0x00 && payload[1] == 0x04 && payload[2] == 0x4D
        && payload[3] == 0x51 && payload[4] == 0x54 && payload[5] == 0x54
}

/// The HTTP limits that a configuration asks for.
pub open spec fn http_limits(config: ConnectionConfig) -> HttpLimits {
    HttpLimits {
        max_header_size: config.slowloris_config.max_http_header_size,
        max_header_count: config.slowloris_config.max_http_header_count,
        max_header_line_size: config.max_header_line_size,
    }
}

/// Deadline for the whole fixed header (ms).
pub open spec fn connect_deadline(config: ConnectionConfig) -> u64 {
    if config.slowloris_protect {
        config.slowloris_config.mqtt_connect_timeout_ms
    } else {
        DEFAULT_CONNECT_TIMEOUT_MS
    }
}

/// Idle deadline for the fixed header (ms).
pub open spec fn idle_deadline(config: ConnectionConfig) -> u64 {
    if config.slowloris_protect {
        config.slowloris_config.packet_idle_timeout_ms
    } else {
        DEFAULT_IDLE_TIMEOUT_MS
    }
}

/// The operation that each phase waits for.
pub open spec fn action_spec(i: InspectorView) -> Action {
    match i.phase {
        PhaseView::FirstPeek => Action::Peek {
            max_len: FIRST_PEEK_SIZE,
            timeout_ms: i.config.slowloris_config.first_packet_timeout_ms,
        },
        PhaseView::Http(_) => Action::ReadByte {
            idle_timeout_ms: i.config.slowloris_config.packet_idle_timeout_ms,
            total_timeout_ms: i.config.slowloris_config.http_request_timeout_ms,
            restart_clock: i.prefix.len() == 0,
        },
        PhaseView::FixedHeader => Action::ReadByte {
            idle_timeout_ms: idle_deadline(i.config),
            total_timeout_ms: connect_deadline(i.config),
            restart_clock: true,
        },
        PhaseView::RemainingLength(_) => Action::ReadExact {
            len: 1,
            timeout_ms: REMAINING_LENGTH_TIMEOUT_MS,
        },
        PhaseView::Payload(n) => Action::ReadExact { len: n as usize, timeout_ms: PAYLOAD_TIMEOUT_MS },
        PhaseView::LightPeek => Action::Peek { max_len: 1, timeout_ms: LIGHT_PEEK_TIMEOUT_MS },
    }
}

/// The MQTT stage for a connection of which nothing has been consumed:
/// no inspection, the full reading of CONNECT, or a look at the first byte.
pub open spec fn enter_mqtt(config: ConnectionConfig) -> InspectionView {
    if !config.mqtt_inspect {
        InspectionView::Accept(Seq::empty())
    } else if config.mqtt_full_inspect {
        InspectionView::Pending(
            InspectorView { config, phase: PhaseView::FixedHeader, prefix: Seq::empty() },
        )
    } else {
        InspectionView::Pending(
            InspectorView { config, phase: PhaseView::LightPeek, prefix: Seq::empty() },
        )
    }
}

/// Where the inspection of a new connection begins.
pub open spec fn begin_spec(config: ConnectionConfig) -> InspectionView {
    if config.slowloris_protect {
        InspectionView::Pending(
            InspectorView { config, phase: PhaseView::FirstPeek, prefix: Seq::empty() },
        )
    } else {
        enter_mqtt(config)
    }
}

/// After the first bytes were seen: the HTTP inspection when they look
/// like HTTP and it is switched on, the MQTT stage otherwise.
pub open spec fn after_first_peek(config: ConnectionConfig, seen: Seq<u8>) -> InspectionView {
    if config.http_inspect && looks_like_http_spec(seen) {
        InspectionView::Pending(
            InspectorView {
                config,
                phase: PhaseView::Http(initial_state(http_limits(config))),
                prefix: Seq::empty(),
            },
        )
    } else {
        enter_mqtt(config)
    }
}

/// The outcome of a read of one byte, as the HTTP inspection takes it.
pub open spec fn http_event(ev: EventView) -> ReadEvent {
    match ev {
        EventView::Data(bytes) => if bytes.len() == 1 {
            ReadEvent::Byte(bytes[0])
        } else {
            ReadEvent::Failed
        },
        EventView::Eof => ReadEvent::Eof,
        EventView::TimedOut => ReadEvent::IdleTimeout,
        EventView::DeadlineExceeded => ReadEvent::DeadlineExceeded,
        EventView::Failed => ReadEvent::Failed,
    }
}

/// The bytes that an operation took from the client: those of a read that
/// gave data, none for a look and none for a failure.
pub open spec fn consumed_bytes(action: Action, ev: EventView) -> Seq<u8> {
    match (action, ev) {
        (Action::Peek { .. }, _) => Seq::empty(),
        (_, EventView::Data(bytes)) => bytes,
        _ => Seq::empty(),
    }
}

/// A step of the HTTP stage.
///
/// A request is rejected as HTTP, a broken or stalled one as a slow
/// sender. When the first line is no request line after all, a connection
/// of which nothing was consumed goes on to the MQTT stage. One of which
/// bytes were consumed cannot be held to MQTT any more: it is rejected
/// when MQTT inspection is on, and let through with those bytes otherwise.
pub open spec fn on_http_event(i: InspectorView, h: HttpState, ev: EventView) -> InspectionView {
    let prefix = i.prefix + consumed_bytes(action_spec(i), ev);
    match step(h, http_event(ev)) {
        HttpProgressView::Continue(next) => InspectionView::Pending(
            InspectorView { config: i.config, phase: PhaseView::Http(next), prefix },
        ),
        HttpProgressView::Done(HttpOutcome::HttpDetected) => InspectionView::Reject(
            Rejection::Http,
        ),
        HttpProgressView::Done(HttpOutcome::SlowlorisDetected(_)) => InspectionView::Reject(
            Rejection::Slowloris,
        ),
        HttpProgressView::Failed(_) => InspectionView::Reject(Rejection::Slowloris),
        HttpProgressView::Done(HttpOutcome::NotHttp) => if prefix.len() == 0 {
            enter_mqtt(i.config)
        } else if i.config.mqtt_inspect {
            InspectionView::Reject(Rejection::Protocol)
        } else {
            InspectionView::Accept(prefix)
        },
    }
}

/// A step of the reading of the Remaining Length, `rl` being its bytes so
/// far and `b` the byte that arrived.
pub open spec fn on_length_byte(i: InspectorView, rl: Seq<u8>, b: Seq<u8>) -> InspectionView {
    match decode_spec(rl + b) {
        Decoded::Incomplete => InspectionView::Pending(
            InspectorView {
                config: i.config,
                phase: PhaseView::RemainingLength(rl + b),
                prefix: i.prefix + b,
            },
        ),
        Decoded::Malformed => InspectionView::Reject(Rejection::Protocol),
        Decoded::Value { value, used } => if value > i.config.max_connect_remaining || value
            == 0 {
            InspectionView::Reject(Rejection::Protocol)
        } else {
            InspectionView::Pending(
                InspectorView {
                    config: i.config,
                    phase: PhaseView::Payload(value),
                    prefix: i.prefix + b,
                },
            )
        },
    }
}

/// One step of the inspection: what the outcome of the operation that was
/// asked for does to it.
pub open spec fn on_event_spec(i: InspectorView, ev: EventView) -> InspectionView {
    match i.phase {
        PhaseView::FirstPeek => match ev {
            EventView::Data(seen) => if seen.len() > 0 {
                after_first_peek(i.config, seen)
            } else {
                InspectionView::Reject(Rejection::Slowloris)
            },
            _ => InspectionView::Reject(Rejection::Slowloris),
        },
        PhaseView::Http(h) => on_http_event(i, h, ev),
        PhaseView::FixedHeader => match ev {
            EventView::Data(b) => if b.len() == 1 && packet_type_of(b) == MqttPacketType::Connect {
                InspectionView::Pending(
                    InspectorView {
                        config: i.config,
                        phase: PhaseView::RemainingLength(Seq::empty()),
                        prefix: i.prefix + b,
                    },
                )
            } else {
                InspectionView::Reject(Rejection::Protocol)
            },
            EventView::TimedOut | EventView::DeadlineExceeded => InspectionView::Reject(
                Rejection::Slowloris,
            ),
            _ => InspectionView::Reject(Rejection::Protocol),
        },
        PhaseView::RemainingLength(rl) => match ev {
            EventView::Data(b) => if b.len() == 1 {
                on_length_byte(i, rl, b)
            } else {
                InspectionView::Reject(Rejection::Protocol)
            },
            EventView::TimedOut | EventView::DeadlineExceeded => InspectionView::Reject(
                Rejection::Slowloris,
            ),
            _ => InspectionView::Reject(Rejection::Protocol),
        },
        PhaseView::Payload(n) => match ev {
            EventView::Data(b) => if b.len() == n && connect_header_valid(b) {
                InspectionView::Accept(i.prefix + b)
            } else {
                InspectionView::Reject(Rejection::Protocol)
            },
            _ => InspectionView::Reject(Rejection::Protocol),
        },
        PhaseView::LightPeek => match ev {
            EventView::Data(seen) => if packet_type_of(seen) == MqttPacketType::Connect {
                InspectionView::Accept(i.prefix)
            } else {
                InspectionView::Reject(Rejection::Protocol)
            },
            _ => InspectionView::Reject(Rejection::Protocol),
        },
    }
}

/// What holds of every state that an inspection reaches: each phase
/// occurs only under the configuration that asks for it, and the bytes
/// consumed are those that the phase accounts for.
pub open spec fn well_formed(i: InspectorView) -> bool {
    match i.phase {
        PhaseView::FirstPeek => i.config.slowloris_protect && i.prefix.len() == 0,
        PhaseView::Http(h) => {
            &&& i.config.slowloris_protect
            &&& i.config.http_inspect
            &&& crate::engine::http::ready(h)
            &&& h.limits == http_limits(i.config)
        },
        PhaseView::FixedHeader => {
            &&& i.config.mqtt_inspect
            &&& i.config.mqtt_full_inspect
            &&& i.prefix.len() == 0
        },
        PhaseView::LightPeek => {
            &&& i.config.mqtt_inspect
            &&& !i.config.mqtt_full_inspect
            &&& i.prefix.len() == 0
        },
        PhaseView::RemainingLength(rl) => {
            &&& i.config.mqtt_inspect
            &&& i.config.mqtt_full_inspect
            &&& rl.len() < 4
            &&& i.prefix.len() == 1 + rl.len()
            &&& i.prefix.skip(1) == rl
            &&& i.prefix[0] / 16 == 1
            &&& rl.len() > 0 ==> decode_spec(rl) == Decoded::Incomplete
        },
        PhaseView::Payload(n) => {
            &&& i.config.mqtt_inspect
            &&& i.config.mqtt_full_inspect
            &&& 0 < n <= i.config.max_connect_remaining
            &&& 2 <= i.prefix.len() <= 5
            &&& i.prefix[0] / 16 == 1
            &&& decode_spec(i.prefix.skip(1)) == (Decoded::Value {
                value: n,
                used: (i.prefix.len() - 1) as nat,
            })
        },
    }
}

/// When every byte read so far asked for another, a Remaining Length can
/// only end at the byte that arrives.
proof fn lemma_length_ends_at_last(rl: Seq<u8>, b: Seq<u8>)
    requires
        b.len() == 1,
        rl.len() > 0 ==> decode_spec(rl) == Decoded::Incomplete,
        decode_spec(rl + b) is Value,
    ensures
        decode_spec(rl + b)->used == rl.len() + 1,
{
    lemma_decode_outcomes(rl);
    lemma_decode_outcomes(rl + b);
    let used = decode_spec(rl + b)->used;
    if used - 1 < rl.len() {
        assert((rl + b)[used - 1] == rl[used - 1]);
    }
}

#[derive(Debug)]
enum Phase {
    FirstPeek,
    Http(HttpInspector),
    FixedHeader,
    RemainingLength(Vec<u8>),
    Payload(usize),
    LightPeek,
}

impl View for Phase {
    type V = PhaseView;

    closed spec fn view(&self) -> PhaseView {
        match self {
            Phase::FirstPeek => PhaseView::FirstPeek,
            Phase::Http(h) => PhaseView::Http(h@),
            Phase::FixedHeader => PhaseView::FixedHeader,
            Phase::RemainingLength(rl) => PhaseView::RemainingLength(rl@),
            Phase::Payload(n) => PhaseView::Payload(*n as nat),
            Phase::LightPeek => PhaseView::LightPeek,
        }
    }
}

/// Inspection of one connection, between two socket operations.
#[derive(Debug)]
pub struct Inspector {
    config: ConnectionConfig,
    phase: Phase,
    prefix: Vec<u8>,
}

/// Where an inspection stands after a step.
#[derive(Debug)]
pub enum Inspection {
    /// Another operation is needed: ask the inspector which.
    Pending(Inspector),
    /// The client is let through. The bytes were consumed from it and must
    /// reach the broker before anything else.
    Accept(Vec<u8>),
    /// The client is turned away.
    Reject(Rejection),
}

impl View for Inspector {
    type V = InspectorView;

    closed spec fn view(&self) -> InspectorView {
        InspectorView { config: self.config, phase: self.phase@, prefix: self.prefix@ }
    }
}

impl View for Inspection {
    type V = InspectionView;

    open spec fn view(&self) -> InspectionView {
        match self {
            Inspection::Pending(i) => InspectionView::Pending(i@),
            Inspection::Accept(prefix) => InspectionView::Accept(prefix@),
            Inspection::Reject(kind) => InspectionView::Reject(*kind),
        }
    }
}

/// The MQTT stage for a connection of which nothing has been consumed.
fn start_mqtt(config: ConnectionConfig) -> (r: Inspection)
    ensures
        r@ == enter_mqtt(config),
        r matches Inspection::Pending(i) ==> well_formed(i@),
{
    if !config.mqtt_inspect {
        Inspection::Accept(Vec::new())
    } else if config.mqtt_full_inspect {
        Inspection::Pending(Inspector { config, phase: Phase::FixedHeader, prefix: Vec::new() })
    } else {
        Inspection::Pending(Inspector { config, phase: Phase::LightPeek, prefix: Vec::new() })
    }
}

impl Inspector {
    #[verifier::type_invariant]
    spec fn inv(self) -> bool {
        well_formed(self@)
    }

    /// Begins the inspection of a connection that was just accepted.
    pub fn begin(config: ConnectionConfig) -> (r: Inspection)
        ensures
            r@ == begin_spec(config),
            r matches Inspection::Pending(i) ==> well_formed(i@),
    {
        if config.slowloris_protect {
            Inspection::Pending(
                Inspector { config, phase: Phase::FirstPeek, prefix: Vec::new() },
            )
        } else {
            start_mqtt(config)
        }
    }

    /// The configuration that the inspection follows.
    pub fn config(&self) -> (c: ConnectionConfig)
        ensures
            c == self@.config,
    {
        self.config
    }

    /// The bytes consumed from the client so far.
    pub fn prefix(&self) -> (p: &Vec<u8>)
        ensures
            p@ == self@.prefix,
    {
        &self.prefix
    }

    /// The socket operation to perform next. A read of the CONNECT payload
    /// never asks for more than the configured cap.
    pub fn action(&self) -> (a: Action)
        ensures
            a == action_spec(self@),
            well_formed(self@),
            self@.phase is Payload ==> (a matches Action::ReadExact { len, .. } && len
                <= self@.config.max_connect_remaining),
    {
        proof {
            use_type_invariant(self);
        }
        let slow = self.config.slowloris_config;
        match &self.phase {
            Phase::FirstPeek => Action::Peek {
                max_len: FIRST_PEEK_SIZE,
                timeout_ms: slow.first_packet_timeout_ms,
            },
            Phase::Http(_) => Action::ReadByte {
                idle_timeout_ms: slow.packet_idle_timeout_ms,
                total_timeout_ms: slow.http_request_timeout_ms,
                restart_clock: self.prefix.len() == 0,
            },
            Phase::FixedHeader => Action::ReadByte {
                idle_timeout_ms: if self.config.slowloris_protect {
                    slow.packet_idle_timeout_ms
                } else {
                    DEFAULT_IDLE_TIMEOUT_MS
                },
                total_timeout_ms: if self.config.slowloris_protect {
                    slow.mqtt_connect_timeout_ms
                } else {
                    DEFAULT_CONNECT_TIMEOUT_MS
                },
                restart_clock: true,
            },
            Phase::RemainingLength(_) => Action::ReadExact {
                len: 1,
                timeout_ms: REMAINING_LENGTH_TIMEOUT_MS,
            },
            Phase::Payload(n) => Action::ReadExact { len: *n, timeout_ms: PAYLOAD_TIMEOUT_MS },
            Phase::LightPeek => Action::Peek { max_len: 1, timeout_ms: LIGHT_PEEK_TIMEOUT_MS },
        }
    }

    /// Takes the outcome of the operation that was asked for and says
    /// where the inspection stands.
    pub fn on_event(self, ev: Event) -> (r: Inspection)
        ensures
            r@ == on_event_spec(self@, ev@),
            well_formed(self@),
            r matches Inspection::Pending(i) ==> well_formed(i@),
    {
        proof {
            use_type_invariant(&self);
        }
        let Inspector { config, phase, prefix } = self;
        match phase {
            Phase::FirstPeek => match ev {
                Event::Data(seen) => {
                    if seen.len() == 0 {
                        Inspection::Reject(Rejection::Slowloris)
                    } else if config.http_inspect && looks_like_http(seen.as_slice()) {
                        let limits = HttpLimits {
                            max_header_size: config.slowloris_config.max_http_header_size,
                            max_header_count: config.slowloris_config.max_http_header_count,
                            max_header_line_size: config.max_header_line_size,
                        };
                        Inspection::Pending(
                            Inspector {
                                config,
                                phase: Phase::Http(HttpInspector::new(limits)),
                                prefix: Vec::new(),
                            },
                        )
                    } else {
                        start_mqtt(config)
                    }
                },
                _ => Inspection::Reject(Rejection::Slowloris),
            },
            Phase::Http(h) => Self::on_http(config, h, prefix, ev),
            Phase::FixedHeader => match ev {
                Event::Data(b) => {
                    if b.len() == 1 && inspect_packet(b.as_slice()) == MqttPacketType::Connect {
                        let mut prefix = prefix;
                        prefix.push(b[0]);
                        proof {
                            assert(prefix@ =~= self@.prefix + b@);
                            assert(prefix@.skip(1) =~= Seq::<u8>::empty());
                        }
                        Inspection::Pending(
                            Inspector {
                                config,
                                phase: Phase::RemainingLength(Vec::new()),
                                prefix,
                            },
                        )
                    } else {
                        Inspection::Reject(Rejection::Protocol)
                    }
                },
                Event::TimedOut => Inspection::Reject(Rejection::Slowloris),
                Event::DeadlineExceeded => Inspection::Reject(Rejection::Slowloris),
                _ => Inspection::Reject(Rejection::Protocol),
            },
            Phase::RemainingLength(rl) => match ev {
                Event::Data(b) => {
                    if b.len() == 1 {
                        proof {
                            assert(b@ =~= seq![b@[0]]);
                        }
                        Self::on_length(config, rl, prefix, b[0])
                    } else {
                        Inspection::Reject(Rejection::Protocol)
                    }
                },
                Event::TimedOut => Inspection::Reject(Rejection::Slowloris),
                Event::DeadlineExceeded => Inspection::Reject(Rejection::Slowloris),
                _ => Inspection::Reject(Rejection::Protocol),
            },
            Phase::Payload(n) => match ev {
                Event::Data(b) => {
                    if b.len() == n && validate_connect_variable_header(b.as_slice()) {
                        let mut prefix = prefix;
                        let mut b = b;
                        prefix.append(&mut b);
                        Inspection::Accept(prefix)
                    } else {
                        Inspection::Reject(Rejection::Protocol)
                    }
                },
                _ => Inspection::Reject(Rejection::Protocol),
            },
            Phase::LightPeek => match ev {
                Event::Data(seen) => {
                    if inspect_packet(seen.as_slice()) == MqttPacketType::Connect {
                        Inspection::Accept(prefix)
                    } else {
                        Inspection::Reject(Rejection::Protocol)
                    }
                },
                _ => Inspection::Reject(Rejection::Protocol),
            },
        }
    }

    /// A step of the HTTP stage.
    fn on_http(config: ConnectionConfig, h: HttpInspector, prefix: Vec<u8>, ev: Event) -> (r:
        Inspection)
        requires
            config.slowloris_protect,
            config.http_inspect,
            h@.limits == http_limits(config),
        ensures
            r@ == on_http_event(
                InspectorView { config, phase: PhaseView::Http(h@), prefix: prefix@ },
                h@,
                ev@,
            ),
            r matches Inspection::Pending(i) ==> well_formed(i@),
    {
        let mut prefix = prefix;
        let ghost before = prefix@;
        let read = match ev {
            Event::Data(b) => {
                if b.len() == 1 {
                    prefix.push(b[0]);
                    proof {
                        assert(prefix@ =~= before + b@);
                    }
                    ReadEvent::Byte(b[0])
                } else {
                    ReadEvent::Failed
                }
            },
            Event::Eof => ReadEvent::Eof,
            Event::TimedOut => ReadEvent::IdleTimeout,
            Event::DeadlineExceeded => ReadEvent::DeadlineExceeded,
            Event::Failed => ReadEvent::Failed,
        };
        proof {
            assert(before + Seq::<u8>::empty() =~= before);
        }
        match h.feed(read) {
            HttpProgress::Continue(next) => Inspection::Pending(
                Inspector { config, phase: Phase::Http(next), prefix },
            ),
            HttpProgress::Done(HttpInspectionResult::HttpDetected) => Inspection::Reject(
                Rejection::Http,
            ),
            HttpProgress::Done(HttpInspectionResult::SlowlorisDetected(_)) => Inspection::Reject(
                Rejection::Slowloris,
            ),
            HttpProgress::Failed(_) => Inspection::Reject(Rejection::Slowloris),
            HttpProgress::Done(HttpInspectionResult::NotHttp) => {
                if prefix.len() == 0 {
                    start_mqtt(config)
                } else if config.mqtt_inspect {
                    Inspection::Reject(Rejection::Protocol)
                } else {
                    Inspection::Accept(prefix)
                }
            },
        }
    }

    /// A step of the reading of the Remaining Length.
    fn on_length(config: ConnectionConfig, rl: Vec<u8>, prefix: Vec<u8>, byte: u8) -> (r:
        Inspection)
        requires
            config.mqtt_inspect,
            config.mqtt_full_inspect,
            rl@.len() < 4,
            prefix@.len() == 1 + rl@.len(),
            prefix@.skip(1) == rl@,
            prefix@[0] / 16 == 1,
            rl@.len() > 0 ==> decode_spec(rl@) == Decoded::Incomplete,
        ensures
            r@ == on_length_byte(
                InspectorView {
                    config,
                    phase: PhaseView::RemainingLength(rl@),
                    prefix: prefix@,
                },
                rl@,
                seq![byte],
            ),
            r matches Inspection::Pending(i) ==> well_formed(i@),
    {
        let mut rl = rl;
        let mut prefix = prefix;
        let ghost b = seq![byte];
        let ghost old_rl = rl@;
        let ghost old_prefix = prefix@;
        rl.push(byte);
        prefix.push(byte);
        proof {
            assert(rl@ =~= old_rl + b);
            assert(prefix@ =~= old_prefix + b);
            assert(prefix@.skip(1) =~= rl@);
            lemma_error_names_differ();
            if decode_spec(rl@) is Value {
                lemma_length_ends_at_last(old_rl, b);
            }
        }
        match decode_remaining_length(rl.as_slice()) {
            Ok((value, _)) => {
                if value > config.max_connect_remaining || value == 0 {
                    Inspection::Reject(Rejection::Protocol)
                } else {
                    Inspection::Pending(Inspector { config, phase: Phase::Payload(value), prefix })
                }
            },
            Err(_) => {
                if rl.len() < 4 {
                    Inspection::Pending(
                        Inspector { config, phase: Phase::RemainingLength(rl), prefix },
                    )
                } else {
                    Inspection::Reject(Rejection::Protocol)
                }
            },
        }
    }
}

/// Where an inspection stands after a series of events, each the outcome of
/// the operation asked for before it. Events after the verdict change
/// nothing.
pub open spec fn run(start: InspectionView, events: Seq<EventView>) -> InspectionView
    decreases events.len(),
{
    if events.len() == 0 {
        start
    } else {
        match start {
            InspectionView::Pending(i) => run(on_event_spec(i, events[0]), events.drop_first()),
            _ => start,
        }
    }
}

/// The bytes taken from the client along a series of events, in order.
pub open spec fn consumed_along(start: InspectionView, events: Seq<EventView>) -> Seq<u8>
    decreases events.len(),
{
    if events.len() == 0 {
        Seq::empty()
    } else {
        match start {
            InspectionView::Pending(i) => consumed_bytes(action_spec(i), events[0])
                + consumed_along(on_event_spec(i, events[0]), events.drop_first()),
            _ => Seq::empty(),
        }
    }
}

/// The bytes that an inspection holds for the broker.
pub open spec fn held_bytes(at: InspectionView) -> Seq<u8> {
    match at {
        InspectionView::Pending(i) => i.prefix,
        InspectionView::Accept(prefix) => prefix,
        InspectionView::Reject(_) => Seq::empty(),
    }
}

/// An inspection that is still going on is in a well-formed state.
pub open spec fn sound(at: InspectionView) -> bool {
    at matches InspectionView::Pending(i) ==> well_formed(i)
}

/// An inspection begins in a well-formed state and holds no bytes.
pub proof fn lemma_begin_sound(config: ConnectionConfig)
    ensures
        sound(begin_spec(config)),
        held_bytes(begin_spec(config)) == Seq::<u8>::empty(),
{
}

/// A step keeps the state well formed, and an inspection that goes on or
/// accepts holds what it held before and what the step consumed, in that
/// order.
pub proof fn lemma_step_sound(i: InspectorView, ev: EventView)
    requires
        well_formed(i),
    ensures
        sound(on_event_spec(i, ev)),
        config_is(on_event_spec(i, ev), i.config),
        !(on_event_spec(i, ev) is Reject) ==> held_bytes(on_event_spec(i, ev)) == i.prefix
            + consumed_bytes(action_spec(i), ev),
{
    let next = on_event_spec(i, ev);
    assert(i.prefix + Seq::<u8>::empty() =~= i.prefix);
    match i.phase {
        PhaseView::RemainingLength(rl) => {
            if let EventView::Data(b) = ev {
                if b.len() == 1 {
                    lemma_decode_outcomes(rl + b);
                    assert((i.prefix + b).skip(1) =~= rl + b);
                    if decode_spec(rl + b) is Value {
                        lemma_length_ends_at_last(rl, b);
                    }
                }
            }
        },
        PhaseView::Http(h) => {
            lemma_step_ready(h, http_event(ev));
        },
        PhaseView::FixedHeader => {
            if let EventView::Data(b) = ev {
                if b.len() == 1 {
                    assert((i.prefix + b).skip(1) =~= Seq::<u8>::empty());
                }
            }
        },
        _ => {},
    }
}

/// The bytes that an accepted connection hands on are exactly those that
/// the inspection consumed from the client, in the order in which they
/// were read: none is lost, none is added, none comes twice.
pub proof fn lemma_accepted_prefix_is_what_was_consumed(
    config: ConnectionConfig,
    events: Seq<EventView>,
)
    ensures
        run(begin_spec(config), events) matches InspectionView::Accept(prefix) ==> prefix
            == consumed_along(begin_spec(config), events),
{
    lemma_begin_sound(config);
    lemma_run_holds_consumed(begin_spec(config), events);
    assert(Seq::<u8>::empty() + consumed_along(begin_spec(config), events) =~= consumed_along(
        begin_spec(config),
        events,
    ));
}

/// From any well-formed point on, an inspection that goes on or accepts
/// holds what it held at that point followed by what was consumed since.
pub proof fn lemma_run_holds_consumed(start: InspectionView, events: Seq<EventView>)
    requires
        sound(start),
    ensures
        sound(run(start, events)),
        !(run(start, events) is Reject) ==> held_bytes(run(start, events)) == held_bytes(start)
            + consumed_along(start, events),
    decreases events.len(),
{
    assert(held_bytes(start) + Seq::<u8>::empty() =~= held_bytes(start));
    if events.len() > 0 {
        if let InspectionView::Pending(i) = start {
            let next = on_event_spec(i, events[0]);
            lemma_step_sound(i, events[0]);
            lemma_run_holds_consumed(next, events.drop_first());
            if !(run(start, events) is Reject) {
                lemma_run_not_rejected(next, events.drop_first());
                assert(held_bytes(start) + consumed_along(start, events) =~= (i.prefix
                    + consumed_bytes(action_spec(i), events[0])) + consumed_along(
                    next,
                    events.drop_first(),
                ));
            }
        }
    }
}

/// A rejection is final.
proof fn lemma_run_not_rejected(start: InspectionView, events: Seq<EventView>)
    requires
        !(run(start, events) is Reject),
    ensures
        !(start is Reject),
    decreases events.len(),
{
}

/// However a connection behaves, the inspection never asks for more
/// CONNECT payload than the configured cap, and has consumed at most the
/// five bytes of the fixed header and Remaining Length before it asks.
pub proof fn lemma_payload_read_within_cap(config: ConnectionConfig, events: Seq<EventView>)
    ensures
        run(begin_spec(config), events) matches InspectionView::Pending(i) ==> (i.phase matches PhaseView::Payload(
            n,
        ) ==> action_spec(i) == (Action::ReadExact { len: n as usize, timeout_ms: PAYLOAD_TIMEOUT_MS })
            && 0 < n <= config.max_connect_remaining && i.prefix.len() <= 5),
{
    lemma_begin_sound(config);
    lemma_run_holds_consumed(begin_spec(config), events);
    lemma_run_keeps_config(begin_spec(config), events, config);
}

/// A whole CONNECT packet within the cap: a fixed header of type CONNECT,
/// a Remaining Length of at most `cap`, and exactly that many bytes after
/// it, which begin with the protocol name.
pub open spec fn is_connect_packet(packet: Seq<u8>, cap: nat) -> bool {
    &&& packet.len() >= 2
    &&& packet[0] / 16 == 1
    &&& decode_spec(packet.skip(1)) matches Decoded::Value { value, used }
    &&& value <= cap
    &&& packet.len() == 1 + used + value
    &&& connect_header_valid(packet.skip((1 + used) as int))
}

/// What full inspection lets through at a step is a whole CONNECT packet.
proof fn lemma_step_accepts_connect_only(i: InspectorView, ev: EventView)
    requires
        well_formed(i),
        i.config.mqtt_inspect,
        i.config.mqtt_full_inspect,
    ensures
        on_event_spec(i, ev) matches InspectionView::Accept(packet) ==> is_connect_packet(
            packet,
            i.config.max_connect_remaining as nat,
        ),
{
    if let PhaseView::Payload(n) = i.phase {
        if let EventView::Data(b) = ev {
            if b.len() == n && connect_header_valid(b) {
                let packet = i.prefix + b;
                let used = i.prefix.len() - 1;
                lemma_decode_ignores_tail(i.prefix.skip(1), b);
                assert(packet.skip(1) =~= i.prefix.skip(1) + b);
                assert(packet.skip((1 + used) as int) =~= b);
            }
        }
    }
}

/// From a well-formed point on, full inspection lets through nothing but
/// a whole CONNECT packet.
proof fn lemma_run_accepts_connect_only(
    i: InspectorView,
    events: Seq<EventView>,
)
    requires
        well_formed(i),
        i.config.mqtt_inspect,
        i.config.mqtt_full_inspect,
    ensures
        run(InspectionView::Pending(i), events) matches InspectionView::Accept(packet)
            ==> is_connect_packet(packet, i.config.max_connect_remaining as nat),
    decreases events.len(),
{
    if events.len() > 0 {
        let next = on_event_spec(i, events[0]);
        lemma_step_sound(i, events[0]);
        lemma_step_accepts_connect_only(i, events[0]);
        match next {
            InspectionView::Pending(j) => {
                lemma_run_accepts_connect_only(j, events.drop_first());
            },
            _ => {
                assert(run(next, events.drop_first()) == next);
            },
        }
    }
}

/// Under full inspection a connection is let through only when the
/// client opened with a whole, well-formed CONNECT packet within the cap,
/// and the bytes handed on for the broker are exactly that packet.
pub proof fn lemma_full_inspection_accepts_connect_only(
    config: ConnectionConfig,
    events: Seq<EventView>,
)
    requires
        config.mqtt_inspect,
        config.mqtt_full_inspect,
    ensures
        run(begin_spec(config), events) matches InspectionView::Accept(packet)
            ==> is_connect_packet(packet, config.max_connect_remaining as nat),
{
    lemma_begin_sound(config);
    if let InspectionView::Pending(i) = begin_spec(config) {
        lemma_run_accepts_connect_only(i, events);
    }
}

/// A connection that stalls is never let through: when the deadline of
/// an operation passes, the inspection ends with a rejection.
pub proof fn lemma_stall_is_rejected(i: InspectorView, ev: EventView)
    requires
        ev is TimedOut || ev is DeadlineExceeded,
    ensures
        on_event_spec(i, ev) is Reject,
{
}

/// The configuration of an inspection that is still going on.
pub open spec fn config_is(at: InspectionView, config: ConnectionConfig) -> bool {
    at matches InspectionView::Pending(i) ==> i.config == config
}

/// An inspection never changes its configuration.
proof fn lemma_run_keeps_config(
    start: InspectionView,
    events: Seq<EventView>,
    config: ConnectionConfig,
)
    requires
        config_is(start, config),
    ensures
        config_is(run(start, events), config),
    decreases events.len(),
{
    if events.len() > 0 {
        if let InspectionView::Pending(i) = start {
            lemma_run_keeps_config(on_event_spec(i, events[0]), events.drop_first(), config);
        }
    }
}

} // verus!
