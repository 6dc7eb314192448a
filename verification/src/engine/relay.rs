//! The relay of an accepted connection: the count of live relays, the dial
//! to the broker, the handing over of the bytes that the inspection
//! consumed, and the splice.
//!
//! Like the inspector, the relay names each socket operation and takes its
//! outcome; it performs none.

use crate::engine::connection::Rejection;
use vstd::prelude::*;
use vstd::string::*;

verus! {

/// Deadline for the connection to the broker (ms).
pub const BACKEND_CONNECT_TIMEOUT_MS: u64 = 5_000;

/// Deadline for writing the consumed bytes to the broker (ms).
pub const PREFIX_WRITE_TIMEOUT_MS: u64 = 3_000;

/// Count of the relays that are live. It wraps as a machine counter does.
#[derive(Debug, Clone, Copy, PartialEq, Eq, Structural)]
pub struct ActiveConnections {
    count: usize,
}

/// The count after one more relay has begun.
pub open spec fn count_after_enter(count: usize) -> usize {
    if count == usize::MAX {
        0
    } else {
        (count + 1) as usize
    }
}

/// The count after one relay has ended.
pub open spec fn count_after_leave(count: usize) -> usize {
    if count == 0 {
        usize::MAX
    } else {
        (count - 1) as usize
    }
}

impl View for ActiveConnections {
    type V = usize;

    closed spec fn view(&self) -> usize {
        self.count
    }
}

impl ActiveConnections {
    /// A count of no relays.
    pub fn new() -> (c: ActiveConnections)
        ensures
            c@ == 0,
    {
        ActiveConnections { count: 0 }
    }

    /// The number of live relays.
    pub fn get(&self) -> (n: usize)
        ensures
            n == self@,
    {
        self.count
    }

    /// Registers a relay that begins.
    pub fn enter(&mut self)
        ensures
            final(self)@ == count_after_enter(old(self)@),
    {
        self.count = if self.count == usize::MAX {
            0
        } else {
            self.count + 1
        };
    }

    /// Registers that a relay has ended, however it ended.
    pub fn leave(&mut self)
        ensures
            final(self)@ == count_after_leave(old(self)@),
    {
        self.count = if self.count == 0 {
            usize::MAX
        } else {
            self.count - 1
        };
    }
}

/// A relay that begins and ends leaves the count as it found it.
pub proof fn lemma_lease_restores_count(count: usize)
    ensures
        count_after_leave(count_after_enter(count)) == count,
{
}

/// A change of the count.
#[derive(Debug, Clone, Copy, PartialEq, Eq, Structural)]
pub enum CountChange {
    /// A relay began.
    Enter,
    /// A relay ended.
    Leave,
}

/// The count after a series of changes.
pub open spec fn count_after(count: usize, changes: Seq<CountChange>) -> usize
    decreases changes.len(),
{
    if changes.len() == 0 {
        count
    } else {
        let before = count_after(count, changes.drop_last());
        match changes.last() {
            CountChange::Enter => count_after_enter(before),
            CountChange::Leave => count_after_leave(before),
        }
    }
}

/// A relay that has begun shifts the count by one, whatever the other
/// relays do meanwhile.
proof fn lemma_enter_commutes(count: usize, others: Seq<CountChange>)
    ensures
        count_after(count_after_enter(count), others) == count_after_enter(
            count_after(count, others),
        ),
    decreases others.len(),
{
    if others.len() > 0 {
        lemma_enter_commutes(count, others.drop_last());
    }
}

/// The count when a relay ends is what it would be had the relay never
/// begun, whatever the other relays did while it was live: no relay leaks
/// into the count.
pub proof fn lemma_no_leak(count: usize, others: Seq<CountChange>)
    ensures
        count_after_leave(count_after(count_after_enter(count), others)) == count_after(
            count,
            others,
        ),
{
    lemma_enter_commutes(count, others);
    lemma_lease_restores_count(count_after(count, others));
}

/// Number of bytes of the prefix that are shown when it is logged.
pub const PREVIEW_LEN: usize = 16;

/// The hexadecimal digit for `d`, in lower case.
pub open spec fn hex_digit(d: int) -> char
    recommends
        0 <= d < 16,
{
    if d == 0 {
        '0'
    } else if d == 1 {
        '1'
    } else if d == 2 {
        '2'
    } else if d == 3 {
        '3'
    } else if d == 4 {
        '4'
    } else if d == 5 {
        '5'
    } else if d == 6 {
        '6'
    } else if d == 7 {
        '7'
    } else if d == 8 {
        '8'
    } else if d == 9 {
        '9'
    } else if d == 10 {
        'a'
    } else if d == 11 {
        'b'
    } else if d == 12 {
        'c'
    } else if d == 13 {
        'd'
    } else if d == 14 {
        'e'
    } else {
        'f'
    }
}

/// A byte as two hexadecimal digits.
pub open spec fn hex_byte(b: u8) -> Seq<char> {
    seq![hex_digit(b as int / 16), hex_digit(b as int % 16)]
}

/// The bytes in hexadecimal, two digits each, with a space between two
/// bytes.
pub open spec fn hex_joined(bytes: Seq<u8>) -> Seq<char>
    decreases bytes.len(),
{
    if bytes.len() == 0 {
        Seq::empty()
    } else if bytes.len() == 1 {
        hex_byte(bytes[0])
    } else {
        hex_joined(bytes.drop_last()) + seq![' '] + hex_byte(bytes.last())
    }
}

/// The preview of a prefix: its first sixteen bytes in hexadecimal.
pub open spec fn hex_preview_spec(bytes: Seq<u8>) -> Seq<char> {
    if bytes.len() <= PREVIEW_LEN {
        hex_joined(bytes)
    } else {
        hex_joined(bytes.take(PREVIEW_LEN as int))
    }
}

/// A hexadecimal digit as text.
fn hex_digit_text(d: u8) -> (text: &'static str)
    requires
        d < 16,
    ensures
        text@ == seq![hex_digit(d as int)],
{
    proof {
        reveal_strlit("0");
        reveal_strlit("1");
        reveal_strlit("2");
        reveal_strlit("3");
        reveal_strlit("4");
        reveal_strlit("5");
        reveal_strlit("6");
        reveal_strlit("7");
        reveal_strlit("8");
        reveal_strlit("9");
        reveal_strlit("a");
        reveal_strlit("b");
        reveal_strlit("c");
        reveal_strlit("d");
        reveal_strlit("e");
        reveal_strlit("f");
    }
    let text = if d == 0 {
        "0"
    } else if d == 1 {
        "1"
    } else if d == 2 {
        "2"
    } else if d == 3 {
        "3"
    } else if d == 4 {
        "4"
    } else if d == 5 {
        "5"
    } else if d == 6 {
        "6"
    } else if d == 7 {
        "7"
    } else if d == 8 {
        "8"
    } else if d == 9 {
        "9"
    } else if d == 10 {
        "a"
    } else if d == 11 {
        "b"
    } else if d == 12 {
        "c"
    } else if d == 13 {
        "d"
    } else if d == 14 {
        "e"
    } else {
        "f"
    };
    proof {
        assert(text@ =~= seq![hex_digit(d as int)]);
    }
    text
}

/// The first sixteen bytes of `bytes` in hexadecimal, for the log.
pub fn hex_preview(bytes: &[u8]) -> (preview: String)
    ensures
        preview@ == hex_preview_spec(bytes@),
{
    let shown = if bytes.len() <= PREVIEW_LEN {
        bytes.len()
    } else {
        PREVIEW_LEN
    };
    let mut preview = String::new();
    let mut i: usize = 0;
    while i < shown
        invariant
            i <= shown <= bytes@.len(),
            preview@ == hex_joined(bytes@.take(i as int)),
        decreases shown - i,
    {
        let b: u8 = bytes[i];
        let ghost before = preview@;
        proof {
            reveal_strlit(" ");
            assert(b / 16 < 16 && b % 16 < 16);
            assert(bytes@.take(i + 1).drop_last() =~= bytes@.take(i as int));
            assert(bytes@.take(i + 1).last() == b);
        }
        if i > 0 {
            preview.append(" ");
        }
        preview.append(hex_digit_text(b / 16));
        preview.append(hex_digit_text(b % 16));
        proof {
            if i > 0 {
                assert(preview@ =~= before + seq![' '] + hex_byte(b));
            } else {
                assert(before =~= Seq::<char>::empty());
                assert(preview@ =~= hex_byte(b));
            }
        }
        i += 1;
    }
    proof {
        if bytes@.len() <= PREVIEW_LEN {
            assert(bytes@.take(shown as int) =~= bytes@);
        }
    }
    preview
}

/// What the relay is waiting for.
#[derive(Debug, Clone, Copy, PartialEq, Eq, Structural)]
pub enum RelayStage {
    /// The connection to the broker.
    Dialing,
    /// The broker to take the bytes that the inspection consumed.
    WritingPrefix,
    /// Either direction of the splice to end.
    Splicing,
}

/// The socket operation that the relay asks for.
#[derive(Debug, Clone, Copy, PartialEq, Eq, Structural)]
pub enum RelayAction {
    /// Connect to the broker within `timeout_ms`.
    Dial { timeout_ms: u64 },
    /// Write the whole prefix to the broker within `timeout_ms`.
    WritePrefix { timeout_ms: u64 },
    /// Copy in both directions until one of them ends.
    Splice,
}

/// Outcome of the operation that was asked for.
#[derive(Debug, Clone, Copy, PartialEq, Eq, Structural)]
pub enum RelayEvent {
    /// The broker accepted the connection.
    Connected,
    /// The broker took the whole prefix.
    PrefixWritten,
    /// One direction of the splice ended, in order or with an error.
    SpliceEnded,
    /// The deadline of the operation passed.
    TimedOut,
    /// The transport reported an error.
    Failed,
}

/// State of a relay between two operations.
pub struct RelayView {
    pub stage: RelayStage,
    /// The bytes that the inspection consumed from the client.
    pub prefix: Seq<u8>,
}

/// Where a relay stands.
pub enum RelayStepView {
    /// Another operation is needed.
    Pending(RelayView),
    /// The splice ended and both sockets are to be closed.
    Closed,
    /// The broker was not reached, or did not take the prefix in time.
    Reject(Rejection),
}

/// A relay begins by dialling the broker.
pub open spec fn relay_begin_spec(prefix: Seq<u8>) -> RelayView {
    RelayView { stage: RelayStage::Dialing, prefix }
}

/// The operation that each stage waits for.
pub open spec fn relay_action_spec(r: RelayView) -> RelayAction {
    match r.stage {
        RelayStage::Dialing => RelayAction::Dial { timeout_ms: BACKEND_CONNECT_TIMEOUT_MS },
        RelayStage::WritingPrefix => RelayAction::WritePrefix {
            timeout_ms: PREFIX_WRITE_TIMEOUT_MS,
        },
        RelayStage::Splicing => RelayAction::Splice,
    }
}

/// One step of the relay. After the dial the prefix is written, unless it
/// is empty; only then does the splice begin. The splice ends the relay
/// however it ends.
pub open spec fn relay_step_spec(r: RelayView, ev: RelayEvent) -> RelayStepView {
    match r.stage {
        RelayStage::Dialing => if ev == RelayEvent::Connected {
            if r.prefix.len() == 0 {
                RelayStepView::Pending(RelayView { stage: RelayStage::Splicing, prefix: r.prefix })
            } else {
                RelayStepView::Pending(
                    RelayView { stage: RelayStage::WritingPrefix, prefix: r.prefix },
                )
            }
        } else {
            RelayStepView::Reject(Rejection::BackendUnavailable)
        },
        RelayStage::WritingPrefix => if ev == RelayEvent::PrefixWritten {
            RelayStepView::Pending(RelayView { stage: RelayStage::Splicing, prefix: r.prefix })
        } else {
            RelayStepView::Reject(Rejection::BackendUnavailable)
        },
        RelayStage::Splicing => RelayStepView::Closed,
    }
}

/// The count of live relays after a step: a relay that goes on stays
/// counted, one that ends is taken off.
pub open spec fn count_after_step(count: usize, step: RelayStepView) -> usize {
    if step is Pending {
        count
    } else {
        count_after_leave(count)
    }
}

/// The bytes that the broker has received from the relay itself when the
/// next operation is asked for: the prefix once the splice is due, nothing
/// before.
pub open spec fn delivered(r: RelayView) -> Seq<u8> {
    if r.stage == RelayStage::Splicing {
        r.prefix
    } else {
        Seq::empty()
    }
}

/// Relay of one accepted connection, between two socket operations.
#[derive(Debug)]
pub struct Relay {
    stage: RelayStage,
    prefix: Vec<u8>,
}

/// Where a relay stands after a step.
#[derive(Debug)]
pub enum RelayStep {
    /// Another operation is needed: ask the relay which.
    Pending(Relay),
    /// The splice ended: close both sockets.
    Closed,
    /// The broker was not reached or did not take the prefix in time.
    Reject(Rejection),
}

impl View for Relay {
    type V = RelayView;

    closed spec fn view(&self) -> RelayView {
        RelayView { stage: self.stage, prefix: self.prefix@ }
    }
}

impl View for RelayStep {
    type V = RelayStepView;

    open spec fn view(&self) -> RelayStepView {
        match self {
            RelayStep::Pending(r) => RelayStepView::Pending(r@),
            RelayStep::Closed => RelayStepView::Closed,
            RelayStep::Reject(kind) => RelayStepView::Reject(*kind),
        }
    }
}

impl Relay {
    /// Begins the relay of a connection that the inspection accepted with
    /// the given bytes, and counts it as live.
    pub fn begin(prefix: Vec<u8>, active: &mut ActiveConnections) -> (r: Relay)
        ensures
            r@ == relay_begin_spec(prefix@),
            final(active)@ == count_after_enter(old(active)@),
    {
        active.enter();
        Relay { stage: RelayStage::Dialing, prefix }
    }

    /// The bytes to write to the broker before the splice.
    pub fn prefix(&self) -> (p: &Vec<u8>)
        ensures
            p@ == self@.prefix,
    {
        &self.prefix
    }

    /// The socket operation to perform next.
    pub fn action(&self) -> (a: RelayAction)
        ensures
            a == relay_action_spec(self@),
    {
        match self.stage {
            RelayStage::Dialing => RelayAction::Dial { timeout_ms: BACKEND_CONNECT_TIMEOUT_MS },
            RelayStage::WritingPrefix => RelayAction::WritePrefix {
                timeout_ms: PREFIX_WRITE_TIMEOUT_MS,
            },
            RelayStage::Splicing => RelayAction::Splice,
        }
    }

    /// Takes the outcome of the operation that was asked for and says
    /// where the relay stands. A relay that ends, in whatever way, is
    /// taken off the count of live relays.
    pub fn on_event(self, ev: RelayEvent, active: &mut ActiveConnections) -> (r: RelayStep)
        ensures
            r@ == relay_step_spec(self@, ev),
            final(active)@ == count_after_step(old(active)@, r@),
    {
        let step = self.advance(ev);
        match &step {
            RelayStep::Pending(_) => {},
            _ => {
                active.leave();
            },
        }
        step
    }

    /// The step of the relay, without the count.
    fn advance(self, ev: RelayEvent) -> (r: RelayStep)
        ensures
            r@ == relay_step_spec(self@, ev),
    {
        let Relay { stage, prefix } = self;
        match stage {
            RelayStage::Dialing => match ev {
                RelayEvent::Connected => {
                    if prefix.len() == 0 {
                        RelayStep::Pending(Relay { stage: RelayStage::Splicing, prefix })
                    } else {
                        RelayStep::Pending(Relay { stage: RelayStage::WritingPrefix, prefix })
                    }
                },
                _ => RelayStep::Reject(Rejection::BackendUnavailable),
            },
            RelayStage::WritingPrefix => match ev {
                RelayEvent::PrefixWritten => RelayStep::Pending(
                    Relay { stage: RelayStage::Splicing, prefix },
                ),
                _ => RelayStep::Reject(Rejection::BackendUnavailable),
            },
            RelayStage::Splicing => RelayStep::Closed,
        }
    }
}

/// Where a relay stands after a series of events, each the outcome of the
/// operation asked for before it.
pub open spec fn relay_run(start: RelayStepView, events: Seq<RelayEvent>) -> RelayStepView
    decreases events.len(),
{
    if events.len() == 0 {
        start
    } else {
        match start {
            RelayStepView::Pending(r) => relay_run(
                relay_step_spec(r, events[0]),
                events.drop_first(),
            ),
            _ => start,
        }
    }
}

/// The count of live relays after a series of events of one relay.
pub open spec fn relay_run_count(start: RelayStepView, count: usize, events: Seq<RelayEvent>) -> usize
    decreases events.len(),
{
    if events.len() == 0 {
        count
    } else {
        match start {
            RelayStepView::Pending(r) => relay_run_count(
                relay_step_spec(r, events[0]),
                count_after_step(count, relay_step_spec(r, events[0])),
                events.drop_first(),
            ),
            _ => count,
        }
    }
}

/// While a relay goes on it is counted once; when it has ended it is
/// counted no more.
proof fn lemma_relay_run_count(
    start: RelayStepView,
    count: usize,
    before: usize,
    events: Seq<RelayEvent>,
)
    requires
        count == (if start is Pending {
            count_after_enter(before)
        } else {
            before
        }),
    ensures
        relay_run_count(start, count, events) == (if relay_run(start, events) is Pending {
            count_after_enter(before)
        } else {
            before
        }),
    decreases events.len(),
{
    if events.len() > 0 {
        if let RelayStepView::Pending(r) = start {
            let next = relay_step_spec(r, events[0]);
            lemma_lease_restores_count(before);
            lemma_relay_run_count(
                next,
                count_after_step(count, next),
                before,
                events.drop_first(),
            );
        }
    }
}

/// The count of live relays returns to what it was before a relay began
/// once that relay has ended, on every way in which it can end: the
/// broker is not reached, the prefix is not taken, or the splice is over.
pub proof fn lemma_relay_returns_its_lease(
    prefix: Seq<u8>,
    before: usize,
    events: Seq<RelayEvent>,
)
    ensures
        !(relay_run(RelayStepView::Pending(relay_begin_spec(prefix)), events) is Pending)
            ==> relay_run_count(
            RelayStepView::Pending(relay_begin_spec(prefix)),
            count_after_enter(before),
            events,
        ) == before,
{
    lemma_relay_run_count(
        RelayStepView::Pending(relay_begin_spec(prefix)),
        count_after_enter(before),
        before,
        events,
    );
}

/// A relay keeps its prefix.
proof fn lemma_relay_run_keeps_prefix(
    start: RelayStepView,
    events: Seq<RelayEvent>,
    prefix: Seq<u8>,
)
    requires
        start matches RelayStepView::Pending(r) ==> r.prefix == prefix,
    ensures
        relay_run(start, events) matches RelayStepView::Pending(r) ==> r.prefix == prefix,
    decreases events.len(),
{
    if events.len() > 0 {
        if let RelayStepView::Pending(r) = start {
            lemma_relay_run_keeps_prefix(
                relay_step_spec(r, events[0]),
                events.drop_first(),
                prefix,
            );
        }
    }
}

/// Whatever happens, the splice is asked for only when the broker has
/// received exactly the prefix, once: no byte of the client that follows
/// can overtake a byte that the inspection consumed.
pub proof fn lemma_prefix_precedes_splice(prefix: Seq<u8>, events: Seq<RelayEvent>)
    ensures
        relay_run(RelayStepView::Pending(relay_begin_spec(prefix)), events) matches RelayStepView::Pending(
            r,
        ) ==> (relay_action_spec(r) == RelayAction::Splice ==> delivered(r) == prefix),
        relay_run(RelayStepView::Pending(relay_begin_spec(prefix)), events) matches RelayStepView::Pending(
            r,
        ) ==> (relay_action_spec(r) != RelayAction::Splice ==> delivered(r) == Seq::<u8>::empty()),
{
    lemma_relay_run_keeps_prefix(RelayStepView::Pending(relay_begin_spec(prefix)), events, prefix);
}

/// The stream that reaches the broker: what the relay delivered itself,
/// then what the splice copies, which is all that the client sent after
/// the bytes that the inspection consumed.
pub open spec fn upstream_stream(prefix: Seq<u8>, client: Seq<u8>, consumed: nat) -> Seq<u8> {
    prefix + client.skip(consumed as int)
}

/// When the prefix is what the inspection consumed from the head of the
/// client's stream, the broker receives the client's stream as it was
/// sent: every byte, in order, once.
pub proof fn lemma_stream_preserved(prefix: Seq<u8>, client: Seq<u8>, consumed: nat)
    requires
        consumed <= client.len(),
        prefix == client.take(consumed as int),
    ensures
        upstream_stream(prefix, client, consumed) == client,
{
    assert(client.take(consumed as int) + client.skip(consumed as int) =~= client);
}

} // verus!
