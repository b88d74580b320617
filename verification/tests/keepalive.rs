//! Heartbeats: how they are learned, missed and sent.

use wayfinder::batman::engine::BatmanEngine;
use wayfinder::batman::wire::BatmanKeepAlivePacket;
use wayfinder::batman::wire::BATADV_KEEPALIVE;
use wayfinder::batman::wire::ETH_P_BATMAN;
use wayfinder::frame::LinkFrame;
use wayfinder::frame::LinkFrameDataMut;
use wayfinder::frame::Mac;
use wayfinder::routing::RoutingAction;
use wayfinder::time::Duration;

fn mac(n: u8) -> Mac {
    Mac([0, 0, 0, 0, 0, n])
}

/// A neighbor we have never received a keep-alive from is never treated
/// as having missed one — the opt-in-by-observation contract. True at
/// `now == 0` and stays true arbitrarily far into the future, since there
/// is no entry to age out.
#[test]
fn keepalive_missed_is_false_when_never_heard() {
    let engine = BatmanEngine::<4, 8, 64, 16>::new(mac(1));
    assert!(!engine.keepalive_missed(Duration::zero(), mac(2)));
    assert!(!engine.keepalive_missed(Duration::from_secs(1_000_000), mac(2)));
}

fn keepalive_frame(src: u8, dst: u8) -> Vec<u8> {
    let pkt = BatmanKeepAlivePacket {
        packet_type: BATADV_KEEPALIVE,
        version: 5,
    };
    let mut data = Vec::new();
    data.extend_from_slice(&mac(dst).0);
    data.extend_from_slice(&mac(src).0);
    data.extend_from_slice(&ETH_P_BATMAN.to_be_bytes());
    data.extend_from_slice(&pkt.as_bytes());
    data
}

/// One keep-alive from a neighbor arms `keepalive_missed` (no longer
/// unconditionally `false`); a second heartbeat folds the observed gap
/// into the learned `interval_estimate` via the same peak-hold technique
/// as OGM paths.
#[test]
fn handle_rx_keepalive_arms_and_learns_gap() {
    let mut engine = BatmanEngine::<4, 8, 64, 16>::new(mac(1));
    let mut tx = [0u8; 64];

    let frame1 = keepalive_frame(2, 1);
    let parsed1 = LinkFrame::ref_from_bytes(&frame1).unwrap();
    let mut reply: LinkFrameDataMut<'_> = LinkFrameDataMut::new(&mut tx[..]);
    engine.handle_rx(Duration::zero(), &parsed1, None, &mut reply);

    let stats = engine.keepalive.get(&mac(2)).expect("armed after 1st hb");
    assert_eq!(stats.last_heard, Duration::zero());
    assert_eq!(stats.interval_estimate, Duration::zero());

    let frame2 = keepalive_frame(2, 1);
    let parsed2 = LinkFrame::ref_from_bytes(&frame2).unwrap();
    let mut reply2: LinkFrameDataMut<'_> = LinkFrameDataMut::new(&mut tx[..]);
    engine.handle_rx(
        Duration::from_secs(5),
        &parsed2,
        None,
        &mut reply2,
    );
    let stats = engine.keepalive.get(&mac(2)).unwrap();
    assert_eq!(stats.last_heard, Duration::from_secs(5));
    assert_eq!(stats.interval_estimate, Duration::from_secs(5));
}

/// A keep-alive frame truncated shorter than its 2-byte header is
/// dropped rather than treated as a valid heartbeat — matching every
/// sibling handler's malformed-input handling (see e.g.
/// `handle_cert_req`).
#[test]
fn handle_rx_keepalive_drops_truncated_frame() {
    let mut engine = BatmanEngine::<4, 8, 64, 16>::new(mac(1));
    let mut tx = [0u8; 64];

    // A 1-byte payload: just the type tag, no version byte.
    let mut data = Vec::new();
    data.extend_from_slice(&mac(1).0);
    data.extend_from_slice(&mac(2).0);
    data.extend_from_slice(&ETH_P_BATMAN.to_be_bytes());
    data.push(BATADV_KEEPALIVE);
    let frame = LinkFrame::ref_from_bytes(&data).unwrap();

    let mut reply: LinkFrameDataMut<'_> = LinkFrameDataMut::new(&mut tx[..]);
    engine.handle_rx(Duration::zero(), &frame, None, &mut reply);

    assert!(
        engine.keepalive.get(&mac(2)).is_none(),
        "a truncated keep-alive must not arm liveness state"
    );
}

/// Once armed with a learned 5s cadence, `keepalive_missed` flips true
/// once the budget (`MAX_MISSED_KEEPALIVES` × 5s = 15s) since the last
/// heartbeat is exceeded, and flips back false the instant a fresh
/// heartbeat arrives — no ratchet, purely self-healing.
#[test]
fn keepalive_missed_flips_past_budget_and_self_heals() {
    let mut engine = BatmanEngine::<4, 8, 64, 16>::new(mac(1));
    let mut tx = [0u8; 64];

    // Two heartbeats 5s apart teach the engine a 5s cadence.
    for t in [0u64, 5] {
        let frame = keepalive_frame(2, 1);
        let parsed = LinkFrame::ref_from_bytes(&frame).unwrap();
        let mut reply: LinkFrameDataMut<'_> = LinkFrameDataMut::new(&mut tx[..]);
        engine.handle_rx(Duration::from_secs(t), &parsed, None, &mut reply);
    }

    // Budget is 3 * 5s = 15s past last_heard (5s), i.e. stale after t=20s.
    assert!(!engine.keepalive_missed(Duration::from_secs(20), mac(2)));
    assert!(engine.keepalive_missed(Duration::from_secs(21), mac(2)));

    // A fresh heartbeat immediately clears the miss — self-healing, no
    // persisted ratchet from having been missed.
    let frame = keepalive_frame(2, 1);
    let parsed = LinkFrame::ref_from_bytes(&frame).unwrap();
    let mut reply: LinkFrameDataMut<'_> = LinkFrameDataMut::new(&mut tx[..]);
    engine.handle_rx(
        Duration::from_secs(30),
        &parsed,
        None,
        &mut reply,
    );
    assert!(!engine.keepalive_missed(Duration::from_secs(30), mac(2)));
}

/// A keep-alive is never forwarded or delivered locally — always
/// `Consumed`, with an untouched reply buffer.
#[test]
fn handle_rx_keepalive_is_consumed_never_forwarded() {
    let mut engine = BatmanEngine::<4, 8, 64, 16>::new(mac(1));
    let mut tx = [0u8; 64];
    let frame = keepalive_frame(2, 1);
    let parsed = LinkFrame::ref_from_bytes(&frame).unwrap();
    let mut reply: LinkFrameDataMut<'_> = LinkFrameDataMut::new(&mut tx[..]);
    let action = engine.handle_rx(Duration::zero(), &parsed, None, &mut reply);
    assert!(matches!(action, RoutingAction::Consumed));
    assert_eq!(reply.protocol, 0);
}

/// Once the keep-alive table is at capacity, a heartbeat from a new
/// neighbor evicts the least-recently-heard entry rather than being
/// dropped — mirroring `test_full_table_evicts_least_recently_heard`'s
/// coverage of the (separate) originator table's own eviction.
#[test]
fn keepalive_table_evicts_least_recently_heard_when_full() {
    let mut engine = BatmanEngine::<4, 8, 64, 16>::new(mac(1));
    let mut tx = [0u8; 64];

    // Fill the keep-alive table to capacity (4 neighbors), each first
    // heard at a distinct, increasing time.
    for (i, src) in (10..14).enumerate() {
        let frame = keepalive_frame(src, 1);
        let parsed = LinkFrame::ref_from_bytes(&frame).unwrap();
        let mut reply: LinkFrameDataMut<'_> = LinkFrameDataMut::new(&mut tx[..]);
        engine.handle_rx(
            Duration::from_secs(i as u64),
            &parsed,
            None,
            &mut reply,
        );
    }
    assert_eq!(engine.keepalive.len(), 4);
    assert!(engine.keepalive.contains_key(&mac(10)));

    // A new neighbor's heartbeat must be admitted, evicting the
    // least-recently-heard entry (neighbor 10, heard at t=0).
    let frame = keepalive_frame(20, 1);
    let parsed = LinkFrame::ref_from_bytes(&frame).unwrap();
    let mut reply: LinkFrameDataMut<'_> = LinkFrameDataMut::new(&mut tx[..]);
    engine.handle_rx(
        Duration::from_secs(100),
        &parsed,
        None,
        &mut reply,
    );

    assert_eq!(engine.keepalive.len(), 4, "table stays at capacity");
    assert!(
        !engine.keepalive.contains_key(&mac(10)),
        "the least-recently-heard neighbor must be evicted"
    );
    assert!(
        engine.keepalive.contains_key(&mac(20)),
        "the new neighbor must be admitted"
    );
}

/// `produce_keepalive` writes the minimal 2-byte packet with the correct
/// type tag and version.
#[test]
fn produce_keepalive_writes_minimal_packet() {
    let engine = BatmanEngine::<4, 8, 64, 16>::new(mac(1));
    let mut buf = [0xffu8; 64];
    let produced = engine
        .produce_keepalive(&mut buf)
        .expect("buffer is plenty");
    assert_eq!(produced.len(), 2);
    assert_eq!(produced[0], BATADV_KEEPALIVE);
    assert_eq!(produced[1], 5);
}

/// A buffer too small for the (2-byte) header yields `None` rather than
/// panicking or writing a truncated packet.
#[test]
fn produce_keepalive_none_when_buffer_too_small() {
    let engine = BatmanEngine::<4, 8, 64, 16>::new(mac(1));
    let mut buf = [0u8; 1];
    assert_eq!(engine.produce_keepalive(&mut buf), None);
}
