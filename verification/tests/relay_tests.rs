use aegis_proxy::engine::connection::Rejection;
use aegis_proxy::engine::relay::{
    hex_preview, ActiveConnections, Relay, RelayAction, RelayEvent, RelayStep, BACKEND_CONNECT_TIMEOUT_MS,
    PREFIX_WRITE_TIMEOUT_MS,
};
use aegis_proxy::metrics::{counter_for, Counter};

fn pending(step: RelayStep) -> Relay {
    match step {
        RelayStep::Pending(relay) => relay,
        other => panic!("expected the relay to go on, got {:?}", other),
    }
}

#[test]
fn relay_writes_the_prefix_before_the_splice() {
    let relay = Relay::begin(vec![0x10, 0x02, 0x00, 0x04], &mut ActiveConnections::new());
    assert_eq!(relay.action(), RelayAction::Dial { timeout_ms: 5_000 });
    assert_eq!(relay.prefix(), &vec![0x10, 0x02, 0x00, 0x04]);
    let relay = pending(relay.on_event(RelayEvent::Connected, &mut ActiveConnections::new()));
    assert_eq!(relay.action(), RelayAction::WritePrefix { timeout_ms: 3_000 });
    assert_eq!(relay.prefix(), &vec![0x10, 0x02, 0x00, 0x04]);
    let relay = pending(relay.on_event(RelayEvent::PrefixWritten, &mut ActiveConnections::new()));
    assert_eq!(relay.action(), RelayAction::Splice);
    assert!(matches!(relay.on_event(RelayEvent::SpliceEnded, &mut ActiveConnections::new()), RelayStep::Closed));
    assert_eq!(BACKEND_CONNECT_TIMEOUT_MS, 5_000);
    assert_eq!(PREFIX_WRITE_TIMEOUT_MS, 3_000);
}

#[test]
fn relay_with_empty_prefix_goes_straight_to_the_splice() {
    let relay = pending(Relay::begin(Vec::new(), &mut ActiveConnections::new()).on_event(RelayEvent::Connected, &mut ActiveConnections::new()));
    assert_eq!(relay.action(), RelayAction::Splice);
}

#[test]
fn broker_that_cannot_be_reached() {
    for event in [
        RelayEvent::TimedOut,
        RelayEvent::Failed,
        RelayEvent::PrefixWritten,
        RelayEvent::SpliceEnded,
    ] {
        match Relay::begin(vec![1], &mut ActiveConnections::new()).on_event(event, &mut ActiveConnections::new()) {
            RelayStep::Reject(Rejection::BackendUnavailable) => {}
            other => panic!("{:?}", other),
        }
    }
    assert_eq!(counter_for(Rejection::BackendUnavailable), Counter::BackendRejections);
    assert_eq!(Counter::BackendRejections.name(), "aegis_backend_rejections_total");
}

#[test]
fn broker_that_does_not_take_the_prefix() {
    for event in [
        RelayEvent::TimedOut,
        RelayEvent::Failed,
        RelayEvent::Connected,
        RelayEvent::SpliceEnded,
    ] {
        let relay = pending(Relay::begin(vec![1, 2, 3], &mut ActiveConnections::new()).on_event(RelayEvent::Connected, &mut ActiveConnections::new()));
        match relay.on_event(event, &mut ActiveConnections::new()) {
            RelayStep::Reject(Rejection::BackendUnavailable) => {}
            other => panic!("{:?}", other),
        }
    }
}

#[test]
fn splice_ends_the_relay_however_it_ends() {
    for event in [
        RelayEvent::SpliceEnded,
        RelayEvent::Failed,
        RelayEvent::TimedOut,
        RelayEvent::Connected,
        RelayEvent::PrefixWritten,
    ] {
        let relay = pending(Relay::begin(Vec::new(), &mut ActiveConnections::new()).on_event(RelayEvent::Connected, &mut ActiveConnections::new()));
        assert!(matches!(relay.on_event(event, &mut ActiveConnections::new()), RelayStep::Closed));
    }
}

#[test]
fn active_connections_return_to_their_value() {
    let mut active = ActiveConnections::new();
    assert_eq!(active.get(), 0);
    active.enter();
    active.enter();
    assert_eq!(active.get(), 2);
    let before = active.get();
    // a relay that ends in any way
    active.enter();
    assert_eq!(active.get(), 3);
    active.leave();
    assert_eq!(active.get(), before);
    active.leave();
    active.leave();
    assert_eq!(active.get(), 0);
    // the count wraps as a machine counter does
    active.leave();
    assert_eq!(active.get(), usize::MAX);
    active.enter();
    assert_eq!(active.get(), 0);
}

#[test]
fn hex_preview_shows_the_first_sixteen_bytes() {
    assert_eq!(hex_preview(&[]), "");
    assert_eq!(hex_preview(&[0x00]), "00");
    assert_eq!(hex_preview(&[0x10, 0x0F, 0xAB]), "10 0f ab");
    assert_eq!(hex_preview(&[0xFF, 0x9A, 0x5C, 0x01]), "ff 9a 5c 01");
    let long: Vec<u8> = (0u8..40).collect();
    assert_eq!(
        hex_preview(&long[..16]),
        "00 01 02 03 04 05 06 07 08 09 0a 0b 0c 0d 0e 0f"
    );
    assert_eq!(hex_preview(&long[..17]), "00 01 02 03 04 05 06 07 08 09 0a 0b 0c 0d 0e 0f");
    assert_eq!(hex_preview(&long), "00 01 02 03 04 05 06 07 08 09 0a 0b 0c 0d 0e 0f");
    for b in 0..=255u8 {
        assert_eq!(hex_preview(&[b]), format!("{:02x}", b));
    }
}

#[test]
fn relay_returns_its_lease_on_every_way_out() {
    let ways: [&[RelayEvent]; 7] = [
        &[RelayEvent::Failed],
        &[RelayEvent::TimedOut],
        &[RelayEvent::Connected, RelayEvent::Failed],
        &[RelayEvent::Connected, RelayEvent::TimedOut],
        &[RelayEvent::Connected, RelayEvent::PrefixWritten, RelayEvent::SpliceEnded],
        &[RelayEvent::Connected, RelayEvent::PrefixWritten, RelayEvent::Failed],
        &[RelayEvent::SpliceEnded],
    ];
    let mut active = ActiveConnections::new();
    active.enter();
    active.enter();
    for events in ways {
        let before = active.get();
        let mut relay = Relay::begin(vec![0x10, 0x00], &mut active);
        assert_eq!(active.get(), before + 1);
        let mut ended = false;
        for &event in events {
            match relay.on_event(event, &mut active) {
                RelayStep::Pending(next) => {
                    assert_eq!(active.get(), before + 1);
                    relay = next;
                }
                _ => {
                    ended = true;
                    break;
                }
            }
        }
        assert!(ended);
        assert_eq!(active.get(), before);
    }
    // two relays at once
    let before = active.get();
    let first = Relay::begin(Vec::new(), &mut active);
    let second = Relay::begin(Vec::new(), &mut active);
    assert_eq!(active.get(), before + 2);
    assert!(matches!(first.on_event(RelayEvent::Failed, &mut active), RelayStep::Reject(_)));
    assert_eq!(active.get(), before + 1);
    let second = pending(second.on_event(RelayEvent::Connected, &mut active));
    assert_eq!(active.get(), before + 1);
    assert!(matches!(second.on_event(RelayEvent::SpliceEnded, &mut active), RelayStep::Closed));
    assert_eq!(active.get(), before);
}
