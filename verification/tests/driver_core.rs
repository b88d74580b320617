//! The decisions every driver shell shares.

use wayfinder::auth::key::Keypair;
use wayfinder::auth::pairwise::frame_tag;
use wayfinder::auth::pairwise::verify_frame_tag;
use wayfinder::batman::engine::BatmanEngine;
use wayfinder::batman::wire::BatmanOgmPacket;
use wayfinder::batman::wire::BATADV_CERT_REPLY;
use wayfinder::batman::wire::BATADV_CERT_REQ;
use wayfinder::batman::wire::BATADV_IV_OGM;
use wayfinder::batman::wire::BATADV_UNICAST;
use wayfinder::driver_core::directed::directed_parts;
use wayfinder::driver_core::directed::is_cert_control;
use wayfinder::driver_core::directed::strip_directed;
use wayfinder::driver_core::directed::strip_with;
use wayfinder::driver_core::directed::tag_directed_into;
use wayfinder::driver_core::directed::tagging_for;
use wayfinder::driver_core::directed::OgmAuthOps;
use wayfinder::driver_core::directed::Tagging;
use wayfinder::driver_core::directed::Verdict;
use wayfinder::driver_core::directed::DIRECTED_TRAILER_LEN;
use wayfinder::driver_core::dispatch::gated_type;
use wayfinder::driver_core::dispatch::plan_dispatch;
use wayfinder::driver_core::dispatch::plan_with;
use wayfinder::driver_core::dispatch::targets_of;
use wayfinder::driver_core::dispatch::DispatchPlan;
use wayfinder::driver_core::interface_set::InterfaceSet;
use wayfinder::driver_core::poll::poll_due_keepalives;
use wayfinder::driver_core::poll::poll_due_ogms;
use wayfinder::driver_core::sink::handle_mesh_frame;
use wayfinder::driver_core::sink::Egress;
use wayfinder::driver_core::sink::EgressInterface;
use wayfinder::driver_core::sink::RouterRx;
use wayfinder::driver_core::sink::StagedFrames;
use wayfinder::frame::LinkFrame;
use wayfinder::frame::LinkFrameData;
use wayfinder::frame::LinkFrameDataMut;
use wayfinder::frame::Mac;
use wayfinder::frame::MAX_LINK_FRAME_LEN;
use wayfinder::runner::CentralRouter;
use wayfinder::runner::DEFAULT_BATMAN_ETHER_TYPE;
use wayfinder::time::Duration;

type Engine = BatmanEngine<128, 8, 64, 16>;
type Router = CentralRouter<128, 8, 64, 16>;

fn mac(n: u8) -> Mac {
    Mac([0, 0, 0, 0, 0, n])
}

/// A neighbour's pairwise keys: one key for each address it has verified, and a
/// counter in front of each tag.
struct PairwiseAuth {
    own: Mac,
    keys: Vec<(Mac, [u8; 32])>,
    counter: u64,
}

impl PairwiseAuth {
    fn new(own: Mac) -> Self {
        PairwiseAuth { own, keys: Vec::new(), counter: 0 }
    }

    fn key(&self, peer: Mac) -> Option<[u8; 32]> {
        self.keys.iter().find(|(m, _)| *m == peer).map(|(_, k)| *k)
    }
}

impl OgmAuthOps for PairwiseAuth {
    // Of the next two only contracts speak; nothing calls them.
    fn authentic(&self, _: Mac, _: vstd::seq::Seq<u8>, _: vstd::seq::Seq<u8>) -> bool {
        unreachable!()
    }

    fn trailer_for(&self, _: Mac, _: vstd::seq::Seq<u8>) -> Option<vstd::seq::Seq<u8>> {
        unreachable!()
    }

    fn verify_directed(&mut self, src: Mac, inner: &[u8], trailer: &[u8]) -> bool {
        let Some(key) = self.key(src) else {
            return false;
        };
        let counter = u64::from_be_bytes(trailer[..8].try_into().unwrap());
        let tag: [u8; 16] = trailer[8..24].try_into().unwrap();
        verify_frame_tag(&key, counter, &src.0, inner, &tag)
    }

    fn tag_directed(&mut self, dst: Mac, frame: &[u8]) -> Option<[u8; 24]> {
        let key = self.key(dst)?;
        self.counter += 1;
        let tag = frame_tag(&key, self.counter, &self.own.0, frame);
        let mut trailer = [0u8; 24];
        trailer[..8].copy_from_slice(&self.counter.to_be_bytes());
        trailer[8..].copy_from_slice(&tag);
        Some(trailer)
    }
}

/// The bytes of a bare 1-hop OGM from `orig`.
fn bare_ogm_bytes(orig: Mac, seqno: u32, ttl: u8) -> Vec<u8> {
    let ogm = BatmanOgmPacket {
        packet_type: BATADV_IV_OGM,
        version: 5,
        ttl,
        flags: 0,
        seqno,
        orig,
        reserved: 0,
        tq: 255,
        tvlv_len: 0,
    };
    ogm.as_bytes().to_vec()
}

/// The raw bytes of a link frame: `[dst][src][protocol][payload]`.
fn frame_bytes(dst: Mac, src: Mac, protocol: u16, payload: &[u8]) -> Vec<u8> {
    let mut raw = Vec::new();
    raw.extend_from_slice(&dst.0);
    raw.extend_from_slice(&src.0);
    raw.extend_from_slice(&protocol.to_be_bytes());
    raw.extend_from_slice(payload);
    raw
}

#[test]
fn is_cert_control_flags_cert_packets() {
    assert!(is_cert_control(&[BATADV_CERT_REQ]));
    assert!(is_cert_control(&[BATADV_CERT_REPLY, 0xff]));
    assert!(!is_cert_control(&[0x01]));
    assert!(!is_cert_control(&[]));
}

#[test]
fn strip_directed_passes_through_when_auth_disabled() {
    let raw = frame_bytes(mac(2), mac(3), DEFAULT_BATMAN_ETHER_TYPE, &[0xaa, 0xbb]);
    let frame = LinkFrame::ref_from_bytes(&raw).unwrap();
    let out = strip_directed::<PairwiseAuth>(None, &frame).expect("auth-off frame is kept");
    assert_eq!(out.dst, frame.dst);
    assert_eq!(out.src, frame.src);
    assert_eq!(out.protocol, frame.protocol);
    assert_eq!(out.payload, frame.payload);
}

/// The first instant at which interface 0's OGM timer is due.
fn first_due(engine: &Engine) -> Duration {
    let mut now = Duration::zero();
    while engine.due_interface(now).is_none() && now < Duration::from_secs(60) {
        now = now.plus(Duration::from_millis(100));
    }
    assert!(engine.due_interface(now).is_some(), "interface never came due");
    now
}

#[test]
fn poll_due_ogms_emits_one_broadcast_per_due_interface() {
    let mut engine = Engine::new(mac(1));
    engine.configure_interface_ogm(
        0,
        Duration::from_secs(1),
        Duration::from_secs(8),
        Duration::zero(),
    );
    let now = first_due(&engine);

    let mut tx = [0u8; MAX_LINK_FRAME_LEN];
    let mut sink = StagedFrames::new(true);
    poll_due_ogms(&mut engine, &[true; 8], now, &mut tx, &mut sink);

    assert_eq!(sink.mesh.len(), 1, "one due interface => one OGM");
    let ogm = &sink.mesh[0];
    assert_eq!(ogm.dst, Mac::broadcast());
    assert_eq!(ogm.protocol, DEFAULT_BATMAN_ETHER_TYPE);
    assert_eq!(ogm.egress, Egress::Iface(0));
    assert_eq!(ogm.payload, bare_ogm_bytes(mac(1), 1, 50));
    assert!(sink.local.is_empty());
}

#[test]
fn poll_due_ogms_skips_tx_ogm_disabled_interface() {
    let mut engine = Engine::new(mac(1));
    engine.configure_interface_ogm(
        0,
        Duration::from_secs(1),
        Duration::from_secs(8),
        Duration::zero(),
    );
    let now = first_due(&engine);

    let mut tx = [0u8; MAX_LINK_FRAME_LEN];
    let mut sink = StagedFrames::new(true);
    poll_due_ogms(&mut engine, &[false; 8], now, &mut tx, &mut sink);

    assert!(sink.mesh.is_empty(), "no OGM emitted");
    assert!(
        engine.due_interface(now).is_none(),
        "timer still advanced so the poll loop terminates"
    );
}

#[test]
fn poll_due_ogms_ends_with_the_smallest_interval() {
    let mut engine = Engine::new(mac(1));
    let shortest = Duration { nanos: 1 };
    engine.configure_interface_ogm(0, shortest, Duration { nanos: 2 }, Duration::zero());

    // A wait of one nanosecond is over at once; the second is not.
    let mut tx = [0u8; MAX_LINK_FRAME_LEN];
    let mut sink = StagedFrames::new(true);
    poll_due_ogms(&mut engine, &[true; 8], Duration::zero(), &mut tx, &mut sink);
    assert_eq!(sink.mesh.len(), 2);
    assert_eq!(sink.mesh[0].payload, bare_ogm_bytes(mac(1), 1, 50));
    assert_eq!(sink.mesh[1].payload, bare_ogm_bytes(mac(1), 2, 50));
    assert!(engine.due_interface(Duration::zero()).is_none());
    assert_eq!(engine.next_broadcast_after(Duration::zero()), shortest);
}

#[test]
fn poll_due_ogms_serves_the_most_overdue_first() {
    let mut engine = Engine::new(mac(1));
    for idx in 0..3 {
        engine.configure_interface_ogm(
            idx,
            Duration::from_secs(1),
            Duration::from_secs(8),
            Duration::zero(),
        );
    }
    let fires: Vec<Duration> =
        engine.ogm_timers.as_slice().iter().map(|t| t.next_fire).collect();
    let now = Duration::from_secs(2);
    let mut tx = [0u8; MAX_LINK_FRAME_LEN];
    let mut sink = StagedFrames::new(true);
    poll_due_ogms(&mut engine, &[true; 8], now, &mut tx, &mut sink);
    let order: Vec<usize> = sink
        .mesh
        .iter()
        .map(|f| match f.egress {
            Egress::Iface(idx) => idx,
            _ => panic!("an OGM goes out one interface"),
        })
        .collect();
    let mut expected = vec![0usize, 1, 2];
    expected.sort_by_key(|i| fires[*i].nanos);
    assert_eq!(order, expected);
}

#[test]
fn poll_due_keepalives_emits_one_heartbeat_per_due_interface() {
    let mut engine = Engine::new(mac(1));
    engine.configure_interface_keepalive(0, Some(Duration::from_secs(1)), Duration::zero());

    let mut now = Duration::zero();
    while engine.due_keepalive_interface(now).is_none() && now < Duration::from_secs(60) {
        now = now.plus(Duration::from_millis(100));
    }
    assert!(engine.due_keepalive_interface(now).is_some(), "interface never came due");

    let mut tx = [0u8; MAX_LINK_FRAME_LEN];
    let mut sink = StagedFrames::new(true);
    poll_due_keepalives(&mut engine, now, &mut tx, &mut sink);

    assert_eq!(sink.mesh.len(), 1, "one due interface => one heartbeat");
    let hb = &sink.mesh[0];
    assert_eq!(hb.dst, Mac::broadcast());
    assert_eq!(hb.protocol, DEFAULT_BATMAN_ETHER_TYPE);
    assert_eq!(hb.egress, Egress::Iface(0));
    assert_eq!(hb.payload, vec![7, 5]);
    assert!(sink.local.is_empty());
}

#[test]
fn poll_due_keepalives_is_noop_when_no_interface_configured() {
    let mut engine = Engine::new(mac(1));
    let mut tx = [0u8; MAX_LINK_FRAME_LEN];
    let mut sink = StagedFrames::new(true);
    poll_due_keepalives(&mut engine, Duration::from_secs(1_000_000), &mut tx, &mut sink);
    assert!(sink.mesh.is_empty());
    assert!(sink.local.is_empty());
}

/// Take one frame in on interface `idx` and hand on what the router makes of it.
fn receive(router: &mut Router, idx: usize, raw: &[u8]) -> StagedFrames {
    let mut tx = [0u8; MAX_LINK_FRAME_LEN];
    let mut sink = StagedFrames::new(true);
    let frame = LinkFrame::ref_from_bytes(raw).unwrap();
    let kept = strip_directed::<PairwiseAuth>(None, &frame).unwrap();
    let mut reply = LinkFrameDataMut::new(&mut tx[..]);
    let routed = router.route_frame(Duration::zero(), &kept, &mut reply);
    let forward = match routed.reply_to {
        Some(dst) => Some(LinkFrameData { dst, protocol: reply.protocol, payload: reply.payload }),
        None => routed.forward_to.map(|dst| LinkFrameData {
            dst,
            protocol: kept.protocol,
            payload: kept.payload,
        }),
    };
    let deliver_local = if routed.local { Some(kept.payload) } else { None };
    handle_mesh_frame(idx, RouterRx { forward, deliver_local }, &mut sink);
    sink
}

#[test]
fn handle_mesh_frame_on_unknown_protocol_emits_nothing() {
    let mut router = Router::new(mac(1));
    let raw = frame_bytes(mac(1), mac(2), 0x9999, &[0xde, 0xad]);
    let sink = receive(&mut router, 0, &raw);
    assert!(sink.mesh.is_empty());
    assert!(sink.local.is_empty());
}

#[test]
fn handle_mesh_frame_reforwards_ogm_with_split_horizon_exclude() {
    let mut router = Router::new(mac(1));
    let ogm = bare_ogm_bytes(mac(2), 1, 50);
    let raw = frame_bytes(Mac::broadcast(), mac(2), DEFAULT_BATMAN_ETHER_TYPE, &ogm);
    let sink = receive(&mut router, 2, &raw);
    assert_eq!(sink.mesh.len(), 1, "the OGM is re-flooded once");
    assert_eq!(
        sink.mesh[0].egress,
        Egress::Auto { exclude: Some(2) },
        "split-horizon excludes the ingress interface"
    );
}

#[test]
fn a_node_without_a_host_delivers_nothing() {
    let mut sink = StagedFrames::new(false);
    handle_mesh_frame(
        0,
        RouterRx { forward: None, deliver_local: Some(&[1, 2, 3]) },
        &mut sink,
    );
    assert!(sink.local.is_empty());
    let mut hosted = StagedFrames::new(true);
    handle_mesh_frame(
        0,
        RouterRx { forward: None, deliver_local: Some(&[1, 2, 3]) },
        &mut hosted,
    );
    assert_eq!(hosted.local, vec![vec![1, 2, 3]]);
}

#[test]
fn tag_directed_into_drops_untaggable_directed_frame() {
    let mut auth = PairwiseAuth::new(mac(1));
    let body = [0xAAu8, 0xBB, 0xCC];
    let mut buf = body.to_vec();
    buf.resize(body.len() + DIRECTED_TRAILER_LEN, 0);
    let tagging = tagging_for(Some(&mut auth), mac(2), DEFAULT_BATMAN_ETHER_TYPE, &body);
    let out = tag_directed_into(tagging, body.len(), &mut buf);
    assert_eq!(out, None, "untaggable directed frame is dropped");
}

#[test]
fn tag_directed_into_leaves_cert_control_untagged() {
    let mut auth = PairwiseAuth::new(mac(1));
    let body = [BATADV_CERT_REQ, 0x11, 0x22];
    let mut buf = body.to_vec();
    buf.resize(body.len() + DIRECTED_TRAILER_LEN, 0);
    let tagging = tagging_for(Some(&mut auth), mac(2), DEFAULT_BATMAN_ETHER_TYPE, &body);
    let out = tag_directed_into(tagging, body.len(), &mut buf);
    assert_eq!(out, Some(body.len()), "cert-control frame sent untagged");
}

#[test]
fn tag_then_strip_directed_round_trips_for_verified_neighbor() {
    let a = Keypair::from_seed(&[1; 32]);
    let b = Keypair::from_seed(&[2; 32]);
    let mut receiver = PairwiseAuth::new(mac(1));
    let mut sender = PairwiseAuth::new(mac(2));
    receiver.keys.push((mac(2), a.pairwise_key(&b.x_pubkey())));
    sender.keys.push((mac(1), b.pairwise_key(&a.x_pubkey())));

    let inner = [0xDEu8, 0xAD, 0xBE, 0xEF];
    let mut tagged = inner.to_vec();
    tagged.resize(inner.len() + DIRECTED_TRAILER_LEN, 0);
    let tagging = tagging_for(Some(&mut sender), mac(1), DEFAULT_BATMAN_ETHER_TYPE, &inner);
    assert_eq!(
        tag_directed_into(tagging, inner.len(), &mut tagged),
        Some(inner.len() + DIRECTED_TRAILER_LEN)
    );

    let link = frame_bytes(mac(1), mac(2), DEFAULT_BATMAN_ETHER_TYPE, &tagged);
    let frame = LinkFrame::ref_from_bytes(&link).unwrap();
    let stripped =
        strip_directed(Some(&mut receiver), &frame).expect("verified directed frame is kept");
    assert_eq!(stripped.payload, &inner[..], "trailer stripped, inner intact");
}

#[test]
fn strip_directed_drops_frame_from_unverified_neighbor() {
    let mut auth = PairwiseAuth::new(mac(1));
    let inner = [0x01u8, 0x02, 0x03];
    let mut payload = inner.to_vec();
    payload.resize(inner.len() + DIRECTED_TRAILER_LEN, 0);
    let link = frame_bytes(mac(1), mac(9), DEFAULT_BATMAN_ETHER_TYPE, &payload);
    let frame = LinkFrame::ref_from_bytes(&link).unwrap();
    assert!(
        strip_directed(Some(&mut auth), &frame).is_none(),
        "directed frame from an unverified neighbor is dropped"
    );
}

#[test]
fn a_verdict_decides_what_is_routed() {
    let payload = [9u8; 30];
    let link = frame_bytes(mac(1), mac(2), DEFAULT_BATMAN_ETHER_TYPE, &payload);
    let frame = LinkFrame::ref_from_bytes(&link).unwrap();
    assert_eq!(strip_with(Verdict::Off, &frame).unwrap().payload.len(), 30);
    assert_eq!(strip_with(Verdict::Good, &frame).unwrap().payload.len(), 6);
    assert!(strip_with(Verdict::Bad, &frame).is_none());
    // Too short for a trailer.
    let link = frame_bytes(mac(1), mac(2), DEFAULT_BATMAN_ETHER_TYPE, &payload[..23]);
    let short = LinkFrame::ref_from_bytes(&link).unwrap();
    assert!(strip_with(Verdict::Good, &short).is_none());
    assert!(directed_parts(&short).is_none());
    let (inner, trailer) = directed_parts(&frame).unwrap();
    assert_eq!((inner.len(), trailer.len()), (6, 24));
    // A broadcast carries none.
    let link = frame_bytes(Mac::broadcast(), mac(2), DEFAULT_BATMAN_ETHER_TYPE, &payload);
    let flood = LinkFrame::ref_from_bytes(&link).unwrap();
    assert_eq!(strip_with(Verdict::Bad, &flood).unwrap().payload.len(), 30);
}

#[test]
fn interface_set_empty() {
    let set = InterfaceSet::default();
    assert!(set.is_empty());
    assert_eq!(set.iter().len(), 0);
    assert!(!set.contains(0));
}

#[test]
fn interface_set_holds_and_orders_its_members() {
    let mut set = InterfaceSet::default();
    for idx in [3, 0, 7] {
        set.insert(idx);
    }
    assert!(!set.is_empty());
    assert_eq!(set.iter(), vec![0, 3, 7]);
    assert!(set.contains(3));
    assert!(!set.contains(1));
}

#[test]
fn interface_set_at_capacity() {
    let mut set = InterfaceSet::default();
    for idx in 0..InterfaceSet::CAPACITY {
        set.insert(idx);
    }
    assert_eq!(set.iter().len(), InterfaceSet::CAPACITY);
    assert!(set.contains(InterfaceSet::CAPACITY - 1));
}

#[test]
fn interface_set_ignores_indices_past_capacity() {
    let mut set = InterfaceSet::default();
    set.insert(InterfaceSet::CAPACITY);
    set.insert(InterfaceSet::CAPACITY + 1);
    set.insert(usize::MAX);

    assert!(
        set.is_empty(),
        "an out-of-range index must not alias onto a low interface"
    );
    assert!(!set.contains(InterfaceSet::CAPACITY));
    assert!(!set.contains(usize::MAX));
}

/// Plan a broadcast of `payload` over links of which `may_tx` may send it, and
/// collect the targets.
fn plan_broadcast(
    payload: &[u8],
    exclude: Option<usize>,
    may_tx: &[bool],
    num_interfaces: usize,
) -> Option<Vec<usize>> {
    let mut buf = payload.to_vec();
    buf.resize(payload.len() + DIRECTED_TRAILER_LEN, 0);
    plan_dispatch::<PairwiseAuth>(
        None,
        Some(EgressInterface::All),
        may_tx,
        Mac::broadcast(),
        DEFAULT_BATMAN_ETHER_TYPE,
        Egress::Auto { exclude },
        payload.len(),
        &mut buf,
        num_interfaces,
    )
    .map(|plan| plan.targets().iter())
}

#[test]
fn explicit_interface_egress_targets_exactly_that_interface() {
    let payload = [BATADV_IV_OGM, 0x02, 0x03];
    let mut buf = payload.to_vec();
    buf.resize(payload.len() + DIRECTED_TRAILER_LEN, 0);
    let plan = plan_dispatch::<PairwiseAuth>(
        None,
        Some(EgressInterface::All),
        &[true; 4],
        Mac::broadcast(),
        DEFAULT_BATMAN_ETHER_TYPE,
        Egress::Iface(2),
        payload.len(),
        &mut buf,
        4,
    )
    .expect("a per-link OGM is always dispatchable");
    assert_eq!(plan.targets().iter(), vec![2]);
    assert_eq!(plan.payload(), payload, "body only, no trailer");
    assert!(targets_of(Egress::Iface(4), None, &[true; 4], 4).is_empty());
}

/// The plan for the first three bytes of `buf` out of one interface.
fn plan_out_of(buf: &mut [u8], idx: usize) -> DispatchPlan<'_> {
    plan_dispatch::<PairwiseAuth>(
        None,
        None,
        &[true; 4],
        Mac::broadcast(),
        DEFAULT_BATMAN_ETHER_TYPE,
        Egress::Iface(idx),
        3,
        buf,
        4,
    )
    .expect("a per-link OGM is always dispatchable")
}

#[test]
fn equal_plans_compare_equal() {
    let mut bufs = [[BATADV_IV_OGM; 32]; 3];
    let [first, second, third] = &mut bufs;
    let plan = plan_out_of(first, 2);
    assert_eq!(plan, plan_out_of(second, 2));
    assert_ne!(plan, plan_out_of(third, 1));
}

#[test]
fn broadcast_floods_every_interface() {
    let targets = plan_broadcast(&[BATADV_IV_OGM, 0x02], None, &[true; 4], 4)
        .expect("a broadcast is dispatchable");
    assert_eq!(targets, vec![0, 1, 2, 3]);
}

#[test]
fn reflood_never_returns_out_the_ingress_interface() {
    let targets = plan_broadcast(&[BATADV_IV_OGM, 0x02], Some(1), &[true; 4], 4)
        .expect("a re-flood is dispatchable");
    assert_eq!(targets, vec![0, 2, 3]);
    assert!(
        !targets.contains(&1),
        "split-horizon: the ingress interface must be excluded"
    );
}

#[test]
fn transmit_gate_removes_a_link_from_the_flood() {
    assert_eq!(gated_type(DEFAULT_BATMAN_ETHER_TYPE, &[BATADV_IV_OGM]), Some(BATADV_IV_OGM));
    assert_eq!(gated_type(DEFAULT_BATMAN_ETHER_TYPE, &[]), None);
    assert_eq!(gated_type(0x0800, &[BATADV_IV_OGM]), None);
    let targets = plan_broadcast(&[BATADV_IV_OGM, 0x02], None, &[true, true, false, true], 4)
        .expect("a broadcast is dispatchable");
    assert_eq!(targets, vec![0, 1, 3], "the gated link is dropped from the fan-out");
}

#[test]
fn fanout_is_bounded_by_the_drivers_interface_count() {
    let targets = plan_broadcast(&[BATADV_IV_OGM, 0x02], None, &[true; 8], 2)
        .expect("a broadcast is dispatchable");
    assert_eq!(targets, vec![0, 1]);
}

#[test]
fn untaggable_directed_frame_yields_no_plan() {
    let mut auth = PairwiseAuth::new(mac(1));
    let payload = [BATADV_UNICAST, 0x02, 0x03];
    let mut buf = payload.to_vec();
    buf.resize(payload.len() + DIRECTED_TRAILER_LEN, 0);
    assert!(
        plan_dispatch(
            Some(&mut auth),
            Some(EgressInterface::Interface(0)),
            &[true; 2],
            mac(9),
            DEFAULT_BATMAN_ETHER_TYPE,
            Egress::Auto { exclude: None },
            payload.len(),
            &mut buf,
            2,
        )
        .is_none(),
        "an untaggable directed frame is dropped, not emitted untagged"
    );
}

#[test]
fn a_tagged_frame_carries_its_trailer() {
    let mut buf = vec![BATADV_UNICAST, 2, 3];
    buf.resize(3 + DIRECTED_TRAILER_LEN, 0);
    let plan = plan_with(
        Tagging::Tagged([7; 24]),
        Some(EgressInterface::Interface(1)),
        &[true; 2],
        Egress::Auto { exclude: Some(1) },
        3,
        &mut buf,
        2,
    )
    .unwrap();
    assert_eq!(plan.payload().len(), 27);
    assert_eq!(&plan.payload()[..4], &[BATADV_UNICAST, 2, 3, 7]);
    // A route out the interface a frame came in on is still taken.
    assert_eq!(plan.targets().iter(), vec![1]);
}

#[test]
fn unroutable_unicast_plans_no_targets() {
    let payload = [BATADV_UNICAST, 0x02];
    let mut buf = payload.to_vec();
    buf.resize(payload.len() + DIRECTED_TRAILER_LEN, 0);
    let plan = plan_dispatch::<PairwiseAuth>(
        None,
        None,
        &[true; 2],
        mac(200),
        DEFAULT_BATMAN_ETHER_TYPE,
        Egress::Auto { exclude: None },
        payload.len(),
        &mut buf,
        2,
    )
    .expect("auth off means always dispatchable");
    assert!(
        plan.targets().is_empty(),
        "no route to an unknown destination means nothing to transmit"
    );
}

#[test]
fn test_constructor() {
    let router = Router::new(mac(0));
    assert_eq!(router.batman.self_ident, mac(0));
}

#[test]
fn the_router_floods_its_own_ogm() {
    let mut router = Router::new(mac(3));
    let mut tx = [0u8; 1500];
    let ogm = router.maintenance(Duration::zero(), &mut tx).unwrap();
    assert_eq!(ogm.dst, Mac::broadcast());
    assert_eq!(ogm.protocol, DEFAULT_BATMAN_ETHER_TYPE);
    assert_eq!(ogm.payload, bare_ogm_bytes(mac(3), 1, 50));
}

#[test]
fn only_batman_frames_reach_the_engine() {
    let mut router = Router::new(mac(1));
    let mut tx = [0u8; 64];
    for (protocol, dropped) in [(0x88B5, false), (0x0800, true)] {
        let raw = frame_bytes(mac(1), mac(2), protocol, &[1, 2, 3]);
        let frame = LinkFrame::ref_from_bytes(&raw).unwrap();
        let mut reply = LinkFrameDataMut::new(&mut tx[..]);
        let routed = router.route_frame(Duration::zero(), &frame, &mut reply);
        assert_eq!(routed.dropped, dropped);
        assert!(!routed.local);
        assert_eq!(reply.protocol, 0);
    }
}
