//! The central router's decisions around the routing engine: what becomes of a
//! frame from one of its interfaces, and what it floods of its own accord.

use vstd::prelude::*;

use crate::batman::engine::BatmanEngine;
use crate::batman::model::announcement_len;
use crate::batman::model::live_hop;
use crate::batman::model::own_ogm;
use crate::batman::model::rx_step;
use crate::batman::model::ticked;
use crate::batman::model::Capacities;
use crate::batman::model::EngineState;
use crate::batman::model::Reply;
use crate::batman::model::Step;
use crate::batman::relaying::addressed_elsewhere_is_relayed;
use crate::batman::relaying::addressed_here_is_delivered;
use crate::batman::relaying::is_broadcast;
use crate::batman::relaying::is_directed;
use crate::batman::relaying::new_broadcast_is_delivered_and_flooded;
use crate::batman::wire::OGM_LEN;
use crate::bounded::MAX_TABLE_LEN;
use crate::codec::be32_at;
use crate::frame::address_is_its_octets;
use crate::frame::mac_at;
use crate::frame::LinkFrame;
use crate::frame::LinkFrameData;
use crate::frame::LinkFrameDataMut;
use crate::frame::Mac;
use crate::routing::RoutingAction;
use crate::time::Duration;

verus! {

/// The protocol identifier of BATMAN frames.
pub const DEFAULT_BATMAN_ETHER_TYPE: u16 = 0x4305;

/// The protocol identifier set aside for experiments.
pub const EXPERIMENTAL_ETHER_TYPE: u16 = 0x88B5;

/// A router over the BATMAN engine.
pub struct CentralRouter<
    const MAX_ORIGINATORS: usize,
    const MAX_INTERFACES: usize,
    const MAX_MCAST_MEMBERS: usize,
    const MAX_LOCAL_MCAST: usize,
> {
    /// The routing engine.
    pub batman: BatmanEngine<MAX_ORIGINATORS, MAX_INTERFACES, MAX_MCAST_MEMBERS, MAX_LOCAL_MCAST>,
}

/// What becomes of a received frame.
#[derive(Debug, Clone, Copy)]
pub struct Routed {
    /// Send the frame's payload on to this neighbor, out the interface it came
    /// in on.
    pub forward_to: Option<Mac>,
    /// Send what the engine wrote to this address, out the same interface.
    pub reply_to: Option<Mac>,
    /// Hand the frame to the local application.
    pub local: bool,
    /// The frame's protocol is unknown, and it was dropped.
    pub dropped: bool,
}

/// What becomes of a frame the engine took in.
pub open spec fn routed(step: Step) -> Routed {
    Routed {
        forward_to: match step.action {
            RoutingAction::ForwardTo(next) => Some(next),
            _ => None,
        },
        reply_to: if step.reply.protocol != 0 {
            Some(step.reply.dst)
        } else {
            None
        },
        local: step.action is DeliverLocal || step.action is DeliverLocalAndForward,
        dropped: false,
    }
}

impl<
    const MAX_ORIGINATORS: usize,
    const MAX_INTERFACES: usize,
    const MAX_MCAST_MEMBERS: usize,
    const MAX_LOCAL_MCAST: usize,
> CentralRouter<MAX_ORIGINATORS, MAX_INTERFACES, MAX_MCAST_MEMBERS, MAX_LOCAL_MCAST> {
    /// A router for the node `self_ident` that has learned nothing.
    pub fn new(self_ident: Mac) -> (r: Self)
        requires
            1 < MAX_ORIGINATORS <= MAX_TABLE_LEN,
        ensures
            r.batman.wf(),
            r.batman@ == EngineState::initial(self_ident),
    {
        CentralRouter { batman: BatmanEngine::new(self_ident) }
    }

    /// Take in one frame, writing any reply to `reply`, and say what becomes of it.
    /// Only BATMAN frames reach the engine.
    pub fn route_frame(
        &mut self,
        now: Duration,
        frame: &LinkFrame<'_>,
        reply: &mut LinkFrameDataMut<'_>,
    ) -> (r: Routed)
        requires
            old(self).batman.wf(),
            old(self).batman@.can_reset(now),
        ensures
            final(self).batman.wf(),
            frame.protocol == 0x4305 && is_directed(frame.payload@) && frame.payload@.subrange(3, 9)
                == old(self).batman@.self_ident.0@ ==> r.local && r.forward_to is None,
            frame.protocol == 0x4305 && is_directed(frame.payload@) && frame.payload@.subrange(3, 9)
                != old(self).batman@.self_ident.0@ ==> !r.local,
            ({
                let before = Reply {
                    dst: old(reply).dst,
                    protocol: old(reply).protocol,
                    payload: old(reply).payload@,
                };
                let after = Reply {
                    dst: final(reply).dst,
                    protocol: final(reply).protocol,
                    payload: final(reply).payload@,
                };
                if frame.protocol == DEFAULT_BATMAN_ETHER_TYPE {
                    let step = rx_step(
                        old(self).batman@,
                        BatmanEngine::<
                            MAX_ORIGINATORS,
                            MAX_INTERFACES,
                            MAX_MCAST_MEMBERS,
                            MAX_LOCAL_MCAST,
                        >::caps(),
                        now,
                        frame.src,
                        frame.dst,
                        frame.protocol,
                        frame.payload@,
                        None,
                        before,
                    );
                    &&& final(self).batman@ == step.state
                    &&& after == step.reply
                    &&& r == routed(step)
                } else {
                    &&& final(self).batman@ == old(self).batman@
                    &&& after == before
                    &&& r == (Routed {
                        forward_to: None,
                        reply_to: None,
                        local: false,
                        dropped: frame.protocol != EXPERIMENTAL_ETHER_TYPE,
                    })
                }
            }),
    {
        if frame.protocol != DEFAULT_BATMAN_ETHER_TYPE {
            return Routed {
                forward_to: None,
                reply_to: None,
                local: false,
                dropped: frame.protocol != EXPERIMENTAL_ETHER_TYPE,
            };
        }
        proof {
            let payload = frame.payload@;
            if is_directed(payload) {
                let s = self.batman@;
                let caps = BatmanEngine::<
                    MAX_ORIGINATORS,
                    MAX_INTERFACES,
                    MAX_MCAST_MEMBERS,
                    MAX_LOCAL_MCAST,
                >::caps();
                let before = Reply {
                    dst: reply.dst,
                    protocol: reply.protocol,
                    payload: reply.payload@,
                };
                address_is_its_octets(payload, 3);
                if payload.subrange(3, 9) == s.self_ident.0@ {
                    addressed_here_is_delivered(
                        s,
                        caps,
                        now,
                        frame.src,
                        frame.dst,
                        payload,
                        None,
                        before,
                    );
                } else {
                    addressed_elsewhere_is_relayed(
                        s,
                        caps,
                        now,
                        frame.src,
                        frame.dst,
                        payload,
                        None,
                        before,
                    );
                }
            }
        }
        let action = self.batman.handle_rx(now, frame, None, reply);
        let reply_to = if reply.protocol != 0 { Some(reply.dst) } else { None };
        let forward_to = match action {
            RoutingAction::ForwardTo(next) => Some(next),
            _ => None,
        };
        let local: bool = match action {
            RoutingAction::DeliverLocal => true,
            RoutingAction::DeliverLocalAndForward(_) => true,
            _ => false,
        };
        Routed { forward_to, reply_to, local, dropped: false }
    }

    /// The OGM to flood out of every interface, written to `tx_buf`.
    pub fn maintenance<'tx>(&mut self, now: Duration, tx_buf: &'tx mut [u8]) -> (f: Option<
        LinkFrameData<'tx>,
    >)
        requires
            old(self).batman.wf(),
            old(self).batman@.can_reset(now),
            OGM_LEN + announcement_len(old(self).batman@.local_mcast.len()) <= old(
                tx_buf,
            )@.len(),
        ensures
            final(self).batman.wf(),
            final(self).batman@ == ticked(old(self).batman@, now),
            f matches Some(ogm) && ogm.dst == Mac::all_ones() && ogm.protocol
                == DEFAULT_BATMAN_ETHER_TYPE && ogm.payload@ == own_ogm(final(self).batman@),
    {
        match self.batman.produce_periodic_broadcast(now, tx_buf) {
            Some(payload) => Some(
                LinkFrameData {
                    dst: Mac::broadcast(),
                    protocol: DEFAULT_BATMAN_ETHER_TYPE,
                    payload,
                },
            ),
            None => None,
        }
    }
}

/// What becomes of a frame follows from what the engine decided: it goes to the
/// local application where it is for this node, alone or among others, and only
/// then; it is sent on where the engine named a next hop; and what the engine wrote
/// goes where it is addressed to.
pub proof fn decisions_are_carried_out(step: Step)
    ensures
        ({
            let r = routed(step);
            &&& step.action is DeliverLocal ==> r.local && r.forward_to is None
            &&& step.action is DeliverLocalAndForward ==> r.local && r.forward_to is None
            &&& step.action matches RoutingAction::ForwardTo(next) ==> !r.local && r.forward_to
                == Some(next)
            &&& step.action is Consumed ==> !r.local && r.forward_to is None
            &&& step.reply.protocol == 0 ==> r.reply_to is None
            &&& step.reply.protocol != 0 ==> r.reply_to == Some(step.reply.dst)
            &&& !r.dropped
        }),
{
}

/// A packet addressed to this node reaches the local application, and nothing is
/// sent: neither the frame nor a reply.
pub proof fn own_packets_reach_the_application(
    s: EngineState,
    caps: Capacities,
    now: Duration,
    src: Mac,
    dst: Mac,
    payload: Seq<u8>,
    reply: Reply,
)
    requires
        is_directed(payload),
        payload.subrange(3, 9) == s.self_ident.0@,
        reply.protocol == 0,
    ensures
        ({
            let r = routed(
                rx_step(
                    s,
                    caps,
                    now,
                    src,
                    dst,
                    DEFAULT_BATMAN_ETHER_TYPE,
                    payload,
                    None,
                    reply,
                ),
            );
            r.local && r.forward_to is None && r.reply_to is None && !r.dropped
        }),
{
    addressed_here_is_delivered(s, caps, now, src, dst, payload, None, reply);
}

/// A packet addressed to another node stays away from the local application.  It
/// goes to the next hop toward that node, where it has hops to spare, a next hop is
/// known and there is room to write it.
pub proof fn other_packets_go_to_the_next_hop(
    s: EngineState,
    caps: Capacities,
    now: Duration,
    src: Mac,
    dst: Mac,
    payload: Seq<u8>,
    reply: Reply,
)
    requires
        is_directed(payload),
        mac_at(payload, 3) != s.self_ident,
        reply.protocol == 0,
    ensures
        ({
            let r = routed(
                rx_step(
                    s,
                    caps,
                    now,
                    src,
                    dst,
                    DEFAULT_BATMAN_ETHER_TYPE,
                    payload,
                    None,
                    reply,
                ),
            );
            let hop = live_hop(s, now, mac_at(payload, 3));
            &&& !r.local
            &&& r.forward_to is None
            &&& payload[2] > 1 && payload.len() <= reply.payload.len() ==> r.reply_to == hop
            &&& payload[2] <= 1 || payload.len() > reply.payload.len() ==> r.reply_to is None
        }),
{
    addressed_elsewhere_is_relayed(s, caps, now, src, dst, payload, None, reply);
}

/// A new broadcast of another node reaches the local application, and is flooded
/// on to everyone where it has hops to spare and there is room to write it.
pub proof fn new_broadcasts_reach_the_application(
    s: EngineState,
    caps: Capacities,
    now: Duration,
    src: Mac,
    dst: Mac,
    payload: Seq<u8>,
    reply: Reply,
)
    requires
        is_broadcast(payload),
        mac_at(payload, 7) != s.self_ident,
        forall|i: int|
            0 <= i < s.broadcast_seqno.len() && (#[trigger] s.broadcast_seqno[i]).0 == mac_at(
                payload,
                7,
            ) ==> s.broadcast_seqno[i].1 < be32_at(payload, 3),
        s.broadcast_seqno.len() < caps.originators,
        reply.protocol == 0,
    ensures
        ({
            let r = routed(
                rx_step(
                    s,
                    caps,
                    now,
                    src,
                    dst,
                    DEFAULT_BATMAN_ETHER_TYPE,
                    payload,
                    None,
                    reply,
                ),
            );
            &&& r.local
            &&& r.forward_to is None
            &&& payload[2] > 1 && payload.len() <= reply.payload.len() ==> r.reply_to == Some(
                Mac([0xff, 0xff, 0xff, 0xff, 0xff, 0xff]),
            )
            &&& payload[2] <= 1 || payload.len() > reply.payload.len() ==> r.reply_to is None
        }),
{
    new_broadcast_is_delivered_and_flooded(s, caps, now, src, dst, payload, None, reply);
}

} // verus!
