//! The routing engine's tables over time: ageing, eviction, revocation, schedules.

use wayfinder::batman::engine::BatmanEngine;
use wayfinder::batman::tables::blend_interval;
use wayfinder::batman::tables::is_stale;
use wayfinder::batman::wire::BatmanBroadcastPacket;
use wayfinder::batman::wire::BatmanCertReplyPacket;
use wayfinder::batman::wire::BatmanCertReqPacket;
use wayfinder::batman::wire::BatmanMcastPacket;
use wayfinder::batman::wire::BatmanOgmPacket;
use wayfinder::batman::wire::BatmanTvlvHdr;
use wayfinder::batman::wire::BatmanUnicastPacket;
use wayfinder::batman::wire::TvlvType;
use wayfinder::batman::wire::BATADV_BCAST;
use wayfinder::batman::wire::BATADV_CERT_REPLY;
use wayfinder::batman::wire::BATADV_CERT_REQ;
use wayfinder::batman::wire::BATADV_IV_OGM;
use wayfinder::batman::wire::BATADV_KEEPALIVE;
use wayfinder::batman::wire::BATADV_MCAST;
use wayfinder::batman::wire::BATADV_UNICAST;
use wayfinder::batman::wire::ETH_P_BATMAN;
use wayfinder::frame::LinkFrame;
use wayfinder::frame::LinkFrameDataMut;
use wayfinder::frame::Mac;
use wayfinder::routing::MeshRoutingEngine;
use wayfinder::routing::RoutingAction;
use wayfinder::time::Duration;

type Engine = BatmanEngine<4, 2, 8, 4>;

fn mac(n: u8) -> Mac {
    Mac([0, 0, 0, 0, 0, n])
}

fn secs(n: u64) -> Duration {
    Duration::from_secs(n)
}

/// An OGM of `orig` that announces `groups`.
fn announcing(orig: u8, seqno: u32, groups: &[Mac]) -> Vec<u8> {
    let mut payload = ogm(orig, seqno, 255);
    payload[16..18].copy_from_slice(&(4 + 6 * groups.len() as u16).to_be_bytes());
    let header = BatmanTvlvHdr {
        tvlv_type: TvlvType::Mcast.as_u8(),
        version: 1,
        len: 6 * groups.len() as u16,
    };
    payload.extend_from_slice(&header.as_bytes());
    for group in groups {
        payload.extend_from_slice(&group.0);
    }
    payload
}

fn broadcast(orig: u8, seqno: u32, ttl: u8) -> Vec<u8> {
    BatmanBroadcastPacket {
        packet_type: BATADV_BCAST,
        version: 5,
        ttl,
        seqno,
        orig: mac(orig),
    }
    .as_bytes()
    .to_vec()
}

/// An engine whose one schedule has backed off to four seconds.
fn backed_off() -> Engine {
    let mut engine = Engine::new(mac(1));
    engine.configure_interface_ogm(0, secs(1), secs(64), secs(0));
    engine
}

/// Whether the one schedule was reset at `now`, having backed off before.
fn resets(engine: &mut Engine, now: Duration, src: u8, payload: &[u8]) -> bool {
    engine.on_interface_emitted(0, now);
    engine.on_interface_emitted(0, now);
    assert!(engine.ogm_schedule()[0].current_interval >= secs(4));
    rx(engine, now, src, payload, None);
    engine.ogm_schedule()[0].current_interval == secs(1)
}

fn ogm(orig: u8, seqno: u32, tq: u8) -> Vec<u8> {
    BatmanOgmPacket {
        packet_type: BATADV_IV_OGM,
        version: 5,
        ttl: 50,
        flags: 0,
        seqno,
        orig: mac(orig),
        reserved: 0,
        tq,
        tvlv_len: 0,
    }
    .as_bytes()
    .to_vec()
}

/// Hand the engine a payload from `src`, and return what it wrote in reply.
fn rx(
    engine: &mut Engine,
    now: Duration,
    src: u8,
    payload: &[u8],
    quality: Option<u8>,
) -> (RoutingAction, Option<(Mac, Vec<u8>)>) {
    let mut buf = [0u8; 64];
    let frame =
        LinkFrame { dst: Mac::broadcast(), src: mac(src), protocol: ETH_P_BATMAN, payload };
    let mut reply = LinkFrameDataMut::new(&mut buf);
    let action = engine.handle_rx(now, &frame, quality, &mut reply);
    let sent = if reply.protocol != 0 {
        Some((reply.dst, reply.payload.to_vec()))
    } else {
        None
    };
    (action, sent)
}

#[test]
fn quiet_routes_are_purged() {
    let mut engine = Engine::new(mac(1));
    rx(&mut engine, secs(0), 2, &ogm(2, 1, 255), None);
    // Six intervals of a second, the interval before any is configured.
    engine.purge_stale(secs(6));
    assert_eq!(engine.lookup_route(mac(2)), Some(mac(2)));
    engine.purge_stale(secs(7));
    assert_eq!(engine.lookup_route(mac(2)), None);
}

#[test]
fn the_best_known_path_is_followed() {
    let mut engine = Engine::new(mac(1));
    rx(&mut engine, secs(0), 2, &ogm(5, 1, 240), None);
    rx(&mut engine, secs(0), 3, &ogm(5, 1, 230), None);
    let record = engine.originator_table.get(&mac(5)).unwrap();
    assert_eq!((record.max_tq, record.best_next_hop), (230, mac(2)));
    // The best path grows worse than the other.
    rx(&mut engine, secs(0), 2, &ogm(5, 2, 100), None);
    let record = engine.originator_table.get(&mac(5)).unwrap();
    assert_eq!((record.max_tq, record.best_next_hop), (220, mac(3)));
    assert_eq!(record.paths.len(), 2);
}

#[test]
fn an_equal_path_does_not_displace_the_next_hop() {
    let mut engine = Engine::new(mac(1));
    rx(&mut engine, secs(0), 2, &ogm(5, 1, 240), None);
    rx(&mut engine, secs(0), 3, &ogm(5, 1, 240), None);
    assert_eq!(engine.lookup_route(mac(5)), Some(mac(2)));
    // Nor does a path that there is no room to remember.
    rx(&mut engine, secs(0), 4, &ogm(5, 1, 100), None);
    rx(&mut engine, secs(0), 6, &ogm(5, 1, 100), None);
    rx(&mut engine, secs(0), 7, &ogm(5, 1, 255), None);
    let record = engine.originator_table.get(&mac(5)).unwrap();
    assert_eq!(record.paths.len(), 4);
    assert_eq!((record.max_tq, record.best_next_hop), (230, mac(2)));
}

#[test]
fn a_changed_next_hop_resets_the_schedules() {
    let mut engine = backed_off();
    rx(&mut engine, secs(1), 2, &ogm(9, 1, 200), None);
    assert!(!resets(&mut engine, secs(2), 2, &ogm(9, 2, 190)));
    // A worse path changes nothing, a better one takes over.
    assert!(!resets(&mut engine, secs(2), 3, &ogm(9, 2, 180)));
    assert!(resets(&mut engine, secs(2), 4, &ogm(9, 2, 250)));
    assert_eq!(engine.lookup_route(mac(9)), Some(mac(4)));
    assert!(engine.next_broadcast_after(secs(2)) >= Duration { nanos: 500_000_000 });
    assert!(engine.next_broadcast_after(secs(2)) < secs(1));
}

#[test]
fn only_a_changed_set_of_groups_resets_the_schedules() {
    let (one, two) = (Mac([1, 0, 0, 0, 0, 1]), Mac([1, 0, 0, 0, 0, 2]));
    let mut engine = backed_off();
    rx(&mut engine, secs(1), 2, &ogm(2, 1, 255), None);
    assert!(resets(&mut engine, secs(2), 2, &announcing(2, 2, &[one, one])));
    // The same group once, then in another order, is the same set.
    assert!(!resets(&mut engine, secs(2), 2, &announcing(2, 3, &[one])));
    assert_eq!(engine.mcast_listeners(one), vec![mac(2)]);
    assert!(resets(&mut engine, secs(2), 2, &announcing(2, 4, &[one, two])));
    assert!(!resets(&mut engine, secs(2), 2, &announcing(2, 5, &[two, one])));
    assert!(resets(&mut engine, secs(2), 2, &ogm(2, 6, 255)));
    assert!(engine.mcast_listeners(one).is_empty());
}

#[test]
fn a_broadcast_is_taken_once_whatever_comes_between() {
    let mut engine = Engine::new(mac(1));
    let (action, sent) = rx(&mut engine, secs(0), 2, &broadcast(9, 7, 3), None);
    assert!(matches!(action, RoutingAction::DeliverLocalAndForward(_)));
    assert!(sent.is_some());
    rx(&mut engine, secs(1), 3, &broadcast(8, 1, 3), None);
    rx(&mut engine, secs(1), 2, &ogm(9, 1, 255), None);
    engine.purge_stale(secs(60));
    engine.revoke_originators(&[mac(9)]);
    for (src, seqno, ttl) in [(2, 7, 3), (3, 7, 9), (4, 6, 1)] {
        let (action, sent) = rx(&mut engine, secs(61), src, &broadcast(9, seqno, ttl), None);
        assert!(matches!(action, RoutingAction::Consumed));
        assert!(sent.is_none());
    }
    // A reset forgets it.
    engine.reset();
    let (action, _) = rx(&mut engine, secs(62), 2, &broadcast(9, 7, 3), None);
    assert!(matches!(action, RoutingAction::DeliverLocalAndForward(_)));
}

#[test]
fn an_ogm_is_reflooded_once_while_its_originator_is_known() {
    let mut engine = Engine::new(mac(1));
    assert!(rx(&mut engine, secs(0), 2, &ogm(9, 5, 255), None).1.is_some());
    rx(&mut engine, secs(1), 3, &ogm(8, 1, 255), None);
    engine.purge_stale(secs(2));
    assert!(rx(&mut engine, secs(2), 4, &ogm(9, 5, 255), None).1.is_none());
    assert!(rx(&mut engine, secs(2), 4, &ogm(9, 4, 255), None).1.is_none());
    // Once forgotten, it is new again.
    engine.purge_stale(secs(60));
    assert!(rx(&mut engine, secs(60), 2, &ogm(9, 5, 255), None).1.is_some());
}

#[test]
fn a_second_purge_changes_nothing() {
    let mut engine = Engine::new(mac(1));
    rx(&mut engine, secs(0), 2, &ogm(9, 1, 255), None);
    rx(&mut engine, secs(5), 3, &ogm(9, 2, 200), None);
    rx(&mut engine, secs(0), 2, &ogm(2, 1, 255), None);
    for _ in 0..2 {
        engine.purge_stale(secs(8));
        assert_eq!(engine.originator_table.len(), 1);
        assert_eq!(engine.lookup_route(mac(9)), Some(mac(3)));
        assert_eq!(engine.next_hop(secs(8), mac(9)), Some(mac(3)));
        assert_eq!(engine.lookup_route(mac(2)), None);
        assert_eq!(engine.next_hop(secs(8), mac(2)), None);
    }
}

#[test]
fn a_purge_falls_back_on_the_best_path_left() {
    let mut engine = Engine::new(mac(1));
    rx(&mut engine, secs(0), 2, &ogm(9, 1, 255), None);
    rx(&mut engine, secs(5), 3, &ogm(9, 2, 200), None);
    assert_eq!(engine.lookup_route(mac(9)), Some(mac(2)));
    engine.purge_stale(secs(8));
    assert_eq!(engine.lookup_route(mac(9)), Some(mac(3)));
    assert_eq!(engine.originator_table.get(&mac(9)).unwrap().max_tq, 190);
}

#[test]
fn a_stale_path_is_not_a_next_hop() {
    let mut engine = Engine::new(mac(1));
    rx(&mut engine, secs(0), 2, &ogm(9, 1, 255), None);
    assert_eq!(engine.next_hop(secs(6), mac(9)), Some(mac(2)));
    assert_eq!(engine.next_hop(secs(7), mac(9)), None);
}

#[test]
fn the_next_hop_avoids_a_silent_neighbor() {
    let mut engine = Engine::new(mac(1));
    // Neighbor 2 is heard twice a second apart, then falls silent; the OGMs of
    // both paths keep coming.
    rx(&mut engine, secs(0), 2, &[BATADV_KEEPALIVE, 5], None);
    rx(&mut engine, secs(1), 2, &[BATADV_KEEPALIVE, 5], None);
    rx(&mut engine, secs(4), 2, &ogm(9, 1, 255), None);
    rx(&mut engine, secs(4), 3, &ogm(9, 1, 200), None);
    assert_eq!(engine.next_hop(secs(4), mac(9)), Some(mac(2)));
    assert!(engine.keepalive_missed(secs(5), mac(2)));
    assert_eq!(engine.next_hop(secs(5), mac(9)), Some(mac(3)));
}

#[test]
fn a_full_table_gives_up_the_route_heard_longest_ago() {
    let mut engine = Engine::new(mac(1));
    for (i, orig) in (10..14).enumerate() {
        rx(&mut engine, secs(i as u64), orig, &ogm(orig, 1, 255), None);
    }
    rx(&mut engine, secs(4), 20, &ogm(20, 1, 255), None);
    assert_eq!(engine.originator_table.len(), 4);
    assert_eq!(engine.lookup_route(mac(10)), None);
    assert_eq!(engine.lookup_route(mac(20)), Some(mac(20)));
}

#[test]
fn a_measured_link_bounds_the_advertised_quality() {
    let mut engine = Engine::new(mac(1));
    rx(&mut engine, secs(0), 2, &ogm(2, 1, 255), Some(100));
    let record = engine.originator_table.get(&mac(2)).unwrap();
    assert_eq!(record.max_tq, 100);
    // A better link than advertised changes nothing.
    rx(&mut engine, secs(1), 3, &ogm(3, 1, 100), Some(250));
    assert_eq!(engine.originator_table.get(&mac(3)).unwrap().max_tq, 90);
}

#[test]
fn revoked_nodes_are_gone_from_every_route() {
    let mut engine = Engine::new(mac(1));
    rx(&mut engine, secs(0), 2, &ogm(2, 1, 255), None);
    rx(&mut engine, secs(0), 2, &ogm(9, 1, 255), None);
    rx(&mut engine, secs(0), 3, &ogm(9, 2, 200), None);
    engine.revoke_originators(&[mac(2)]);
    assert_eq!(engine.lookup_route(mac(2)), None);
    assert_eq!(engine.next_hop(secs(0), mac(9)), Some(mac(3)));
    assert_eq!(engine.lookup_route(mac(9)), Some(mac(3)));
    let record = engine.originator_table.get(&mac(9)).unwrap();
    assert_eq!(record.paths.len(), 1);
    assert_eq!(record.max_tq, 190);
}

#[test]
fn revoking_several_nodes_leaves_the_others() {
    let mut engine = backed_off();
    rx(&mut engine, secs(0), 2, &ogm(2, 1, 255), None);
    rx(&mut engine, secs(0), 3, &ogm(3, 1, 255), None);
    for src in [2, 3, 4] {
        rx(&mut engine, secs(0), src, &ogm(9, 1, 255 - src), None);
    }
    // A node that no route mentions is no change of topology.
    engine.revoke_originators(&[mac(77)]);
    assert!(!resets(&mut engine, secs(1), 4, &ogm(9, 2, 251)));
    engine.revoke_originators(&[mac(2), mac(3)]);
    assert_eq!(engine.originator_table.len(), 1);
    assert_eq!(engine.next_hop(secs(1), mac(2)), None);
    assert_eq!(engine.next_hop(secs(1), mac(9)), Some(mac(4)));
    let record = engine.originator_table.get(&mac(9)).unwrap();
    assert_eq!((record.best_next_hop, record.max_tq), (mac(4), 241));
    // The loss is acted on with the next OGM.
    assert!(resets(&mut engine, secs(2), 4, &ogm(9, 3, 251)));
}

#[test]
fn directed_packets_are_relayed_alike() {
    let mut engine = Engine::new(mac(1));
    rx(&mut engine, secs(0), 2, &ogm(9, 1, 255), None);
    let unicast =
        BatmanUnicastPacket { packet_type: BATADV_UNICAST, version: 5, ttl: 4, dest: mac(9) };
    let mcast = BatmanMcastPacket { packet_type: BATADV_MCAST, version: 5, ttl: 4, dest: mac(9) };
    let req =
        BatmanCertReqPacket { packet_type: BATADV_CERT_REQ, version: 5, ttl: 4, dest: mac(9) };
    let reply =
        BatmanCertReplyPacket { packet_type: BATADV_CERT_REPLY, version: 5, ttl: 4, dest: mac(9) };
    for header in [unicast.as_bytes(), mcast.as_bytes(), req.as_bytes(), reply.as_bytes()] {
        let mut payload = header.to_vec();
        payload.extend_from_slice(&[0xab, 0xcd]);
        let (action, sent) = rx(&mut engine, secs(0), 5, &payload, None);
        assert!(matches!(action, RoutingAction::Consumed));
        let (dst, bytes) = sent.unwrap();
        assert_eq!(dst, mac(2));
        assert_eq!(bytes[0], header[0]);
        assert_eq!(bytes[2], 3);
        assert_eq!(&bytes[3..11], &payload[3..11]);

        // One hop left is none to spare.
        payload[2] = 1;
        let (action, sent) = rx(&mut engine, secs(0), 5, &payload, None);
        assert!(matches!(action, RoutingAction::Consumed));
        assert!(sent.is_none());

        // At its destination it is delivered, whatever it has left.
        payload[3..9].copy_from_slice(&mac(1).0);
        let (action, _) = rx(&mut engine, secs(0), 5, &payload, None);
        assert!(matches!(action, RoutingAction::DeliverLocal));
    }
}

#[test]
fn a_relay_too_large_is_counted() {
    let mut engine = Engine::new(mac(1));
    rx(&mut engine, secs(0), 2, &ogm(9, 1, 255), None);
    let header =
        BatmanUnicastPacket { packet_type: BATADV_UNICAST, version: 5, ttl: 4, dest: mac(9) };
    let mut payload = header.as_bytes().to_vec();
    payload.resize(65, 0);
    let (_, sent) = rx(&mut engine, secs(0), 5, &payload, None);
    assert!(sent.is_none());
    assert_eq!(engine.relay_oversize_drops(), 1);
}

#[test]
fn unknown_types_are_routed_by_address() {
    let mut engine = Engine::new(mac(1));
    rx(&mut engine, secs(0), 2, &ogm(9, 1, 255), None);
    let mut buf = [0u8; 64];
    let payload = [0x99, 1, 2, 3];
    for (dst, local) in [(mac(9), false), (mac(1), true)] {
        let frame = LinkFrame { dst, src: mac(5), protocol: ETH_P_BATMAN, payload: &payload };
        let mut reply = LinkFrameDataMut::new(&mut buf);
        match engine.handle_rx(secs(0), &frame, None, &mut reply) {
            RoutingAction::ForwardTo(next) => {
                assert!(!local);
                assert_eq!(next, mac(2));
            }
            RoutingAction::DeliverLocal => assert!(local),
            _ => panic!("routed by address"),
        }
    }
}

#[test]
fn schedules_are_reported_and_reset() {
    let mut engine = Engine::new(mac(1));
    engine.configure_interface_ogm(1, secs(1), secs(8), secs(0));
    let schedule = engine.ogm_schedule();
    assert_eq!(schedule.len(), 2);
    assert_eq!(schedule[1].iface_idx, 1);
    assert_eq!(schedule[1].min_interval, secs(1));
    assert_eq!(schedule[1].max_interval, secs(8));
    for n in 1..4 {
        engine.on_interface_emitted(1, secs(n));
    }
    assert_eq!(engine.ogm_schedule()[1].current_interval, secs(8));
    engine.reset_ogm_timers(secs(9));
    assert_eq!(engine.ogm_schedule()[1].current_interval, secs(1));
    let wait = engine.next_broadcast_after(secs(9));
    assert!(wait < secs(1));
}

#[test]
fn an_idle_engine_sleeps_long() {
    let engine = Engine::new(mac(1));
    assert_eq!(engine.next_broadcast_after(secs(0)), secs(3600));
    assert_eq!(engine.next_keepalive_after(secs(0)), secs(3600));
    assert_eq!(engine.due_interface(secs(0)), None);
    assert_eq!(engine.due_keepalive_interface(secs(0)), None);
}

#[test]
fn a_new_originator_resets_the_schedules() {
    let mut engine = Engine::new(mac(1));
    engine.configure_interface_ogm(0, secs(1), secs(64), secs(0));
    for n in 1..6 {
        engine.on_interface_emitted(0, secs(n));
    }
    assert_eq!(engine.ogm_schedule()[0].current_interval, secs(32));
    rx(&mut engine, secs(7), 2, &ogm(2, 1, 255), None);
    assert_eq!(engine.ogm_schedule()[0].current_interval, secs(1));
    // One that is known already does not.
    engine.on_interface_emitted(0, secs(8));
    rx(&mut engine, secs(9), 2, &ogm(2, 2, 255), None);
    assert_eq!(engine.ogm_schedule()[0].current_interval, secs(2));
}

#[test]
fn a_heartbeat_does_not_reset_the_schedules() {
    let mut engine = Engine::new(mac(1));
    engine.configure_interface_ogm(0, secs(1), secs(64), secs(0));
    engine.on_interface_emitted(0, secs(1));
    rx(&mut engine, secs(2), 2, &[BATADV_KEEPALIVE, 5], None);
    assert_eq!(engine.ogm_schedule()[0].current_interval, secs(2));
}

#[test]
fn broadcast_numbers_wrap() {
    let mut engine = Engine::new(mac(1));
    assert_eq!(engine.next_broadcast_seqno(), 1);
    engine.broadcast_sequence_number = u32::MAX;
    assert_eq!(engine.next_broadcast_seqno(), 0);
}

#[test]
fn a_reset_forgets_what_was_learned() {
    let mut engine = Engine::new(mac(1));
    rx(&mut engine, secs(0), 2, &ogm(2, 1, 255), None);
    rx(&mut engine, secs(0), 2, &[BATADV_KEEPALIVE, 5], None);
    engine.reset();
    assert_eq!(engine.originator_table.len(), 0);
    assert_eq!(engine.broadcast_seqno.len(), 0);
    assert_eq!(engine.mcast_members.len(), 0);
    assert_eq!(engine.lookup_route(mac(2)), None);
    // Heartbeats and the node's own numbers are kept.
    assert_eq!(engine.keepalive.len(), 1);
}

#[test]
fn the_trait_drives_the_same_engine() {
    let mut engine = Engine::new(mac(1));
    let mut buf = [0u8; 64];
    let bytes = MeshRoutingEngine::produce_periodic_broadcast(&mut engine, secs(0), &mut buf)
        .unwrap()
        .to_vec();
    assert_eq!(bytes, ogm(1, 1, 255));
    let frame = LinkFrame {
        dst: Mac::broadcast(),
        src: mac(2),
        protocol: ETH_P_BATMAN,
        payload: &bytes,
    };
    let mut reply = LinkFrameDataMut::new(&mut buf);
    // Its own OGM coming back is dropped.
    let action = MeshRoutingEngine::handle_rx(&mut engine, secs(0), &frame, None, &mut reply);
    assert!(matches!(action, RoutingAction::Consumed));
    assert_eq!(engine.originator_table.len(), 0);
}

#[test]
fn intervals_blend_as_a_decaying_peak() {
    assert_eq!(blend_interval(Duration::zero(), secs(4)), secs(4));
    assert_eq!(blend_interval(secs(8), secs(1)), secs(7));
    assert_eq!(blend_interval(secs(8), secs(9)), secs(9));
    // Three missed intervals are allowed, and not a nanosecond more.
    assert!(!is_stale(secs(15), secs(0), secs(5), secs(1), 3));
    let after = Duration { nanos: 15_000_000_001 };
    assert!(is_stale(after, secs(0), secs(5), secs(1), 3));
    // The seed stands in until an interval has been learned.
    assert!(is_stale(secs(4), secs(0), Duration::zero(), secs(1), 3));
}
