//! What becomes of packets on their way: delivered, relayed, flooded.

use vstd::prelude::*;

use crate::batman::laws::accepted_route;
use crate::batman::laws::newest_seqno;
use crate::batman::learning::is_news;
use crate::batman::learning::route_to;
use crate::batman::membership::announcement_replaces_memberships;
use crate::batman::model::announced_groups;
use crate::batman::model::announcement_len;
use crate::batman::model::attenuated;
use crate::batman::model::first_seen;
use crate::batman::model::group_octets;
use crate::batman::model::groups_of;
use crate::batman::model::listed_groups;
use crate::batman::model::listeners_of;
use crate::batman::model::live_hop;
use crate::batman::model::own_ogm;
use crate::batman::model::purged;
use crate::batman::model::rx_step;
use crate::batman::model::ticked;
use crate::batman::model::Capacities;
use crate::batman::model::EngineState;
use crate::batman::model::Reply;
use crate::batman::runs::on_record;
use crate::batman::runs::seen_is_found;
use crate::batman::wire::scan_reads_back_records;
use crate::batman::wire::tvlv_region;
use crate::batman::wire::values_of_type;
use crate::batman::wire::TvlvRecord;
use crate::batman::wire::BATADV_BCAST;
use crate::batman::wire::BATADV_CERT_REPLY;
use crate::batman::wire::BATADV_CERT_REQ;
use crate::batman::wire::BATADV_IV_OGM;
use crate::batman::wire::BATADV_KEEPALIVE;
use crate::batman::wire::BATADV_MCAST;
use crate::batman::wire::BATADV_UNICAST;
use crate::batman::wire::ETH_P_BATMAN;
use crate::batman::wire::OGM_LEN;
use crate::codec::be16;
use crate::codec::be16_at;
use crate::codec::be16_of_bytes;
use crate::codec::be32;
use crate::codec::be32_at;
use crate::codec::be32_of_bytes;
use crate::frame::mac_at;
use crate::frame::Mac;
use crate::routing::RoutingAction;
use crate::time::Duration;

verus! {

/// Whether a payload is a packet addressed to one node.
pub open spec fn is_directed(payload: Seq<u8>) -> bool {
    &&& payload.len() >= 9
    &&& payload[0] == BATADV_UNICAST || payload[0] == BATADV_MCAST || payload[0]
        == BATADV_CERT_REQ || payload[0] == BATADV_CERT_REPLY
}

/// Whether a payload is a broadcast.
pub open spec fn is_broadcast(payload: Seq<u8>) -> bool {
    payload.len() >= 13 && payload[0] == BATADV_BCAST
}

/// A packet addressed to this node is delivered here, whatever else is known, and
/// neither sent on nor answered.
pub proof fn addressed_here_is_delivered(
    s: EngineState,
    caps: Capacities,
    now: Duration,
    src: Mac,
    dst: Mac,
    payload: Seq<u8>,
    local_quality: Option<u8>,
    reply: Reply,
)
    requires
        is_directed(payload),
        payload.subrange(3, 9) == s.self_ident.0@,
    ensures
        ({
            let step = rx_step(
                s,
                caps,
                now,
                src,
                dst,
                ETH_P_BATMAN,
                payload,
                local_quality,
                reply,
            );
            &&& step.action is DeliverLocal
            &&& step.reply == reply
            &&& step.state == s
        }),
{
    assert(mac_at(payload, 3).0@ =~= payload.subrange(3, 9));
    assert(mac_at(payload, 3).0 =~= s.self_ident.0);
}

/// A packet addressed to another node is never delivered here.  It goes to the
/// next hop toward that node with one hop less to live and otherwise unchanged,
/// where it has hops to spare, a next hop is known and the reply has room for it;
/// else nothing is sent.
pub proof fn addressed_elsewhere_is_relayed(
    s: EngineState,
    caps: Capacities,
    now: Duration,
    src: Mac,
    dst: Mac,
    payload: Seq<u8>,
    local_quality: Option<u8>,
    reply: Reply,
)
    requires
        is_directed(payload),
        mac_at(payload, 3) != s.self_ident,
    ensures
        ({
            let step = rx_step(
                s,
                caps,
                now,
                src,
                dst,
                ETH_P_BATMAN,
                payload,
                local_quality,
                reply,
            );
            let hop = live_hop(s, now, mac_at(payload, 3));
            let n = payload.len() as int;
            let goes = payload[2] > 1 && hop is Some;
            &&& step.action is Consumed
            &&& goes && n <= reply.payload.len() ==> {
                &&& step.reply.dst == hop->0
                &&& step.reply.protocol == ETH_P_BATMAN
                &&& step.reply.payload.len() == reply.payload.len()
                &&& step.reply.payload.take(n) == payload.update(2, (payload[2] - 1) as u8)
                &&& step.state == s
            }
            &&& !(goes && n <= reply.payload.len()) ==> step.reply == reply
            &&& goes && n > reply.payload.len() && s.relay_oversize_drops < u32::MAX
                ==> step.state.relay_oversize_drops == s.relay_oversize_drops + 1
            &&& !goes ==> step.state == s
        }),
{
    let step = rx_step(
        s,
        caps,
        now,
        src,
        dst,
        ETH_P_BATMAN,
        payload,
        local_quality,
        reply,
    );
    let n = payload.len() as int;
    if payload[2] > 1 && live_hop(s, now, mac_at(payload, 3)) is Some && n
        <= reply.payload.len() {
        assert(step.reply.payload.take(n) =~= payload.update(2, (payload[2] - 1) as u8));
    }
}

/// A broadcast of another node that is newer than any on record from it is
/// delivered here and put on record.  It is flooded on to everyone with one hop
/// less to live and otherwise unchanged, where it has hops to spare and the reply
/// has room for it.
pub proof fn new_broadcast_is_delivered_and_flooded(
    s: EngineState,
    caps: Capacities,
    now: Duration,
    src: Mac,
    dst: Mac,
    payload: Seq<u8>,
    local_quality: Option<u8>,
    reply: Reply,
)
    requires
        is_broadcast(payload),
        mac_at(payload, 7) != s.self_ident,
        forall|i: int|
            0 <= i < s.broadcast_seqno.len() && (#[trigger] s.broadcast_seqno[i]).0 == mac_at(
                payload,
                7,
            ) ==> s.broadcast_seqno[i].1 < be32_at(payload, 3),
        s.broadcast_seqno.len() < caps.originators || exists|i: int|
            0 <= i < s.broadcast_seqno.len() && (#[trigger] s.broadcast_seqno[i]).0 == mac_at(
                payload,
                7,
            ),
    ensures
        ({
            let step = rx_step(
                s,
                caps,
                now,
                src,
                dst,
                ETH_P_BATMAN,
                payload,
                local_quality,
                reply,
            );
            let n = payload.len() as int;
            &&& payload[2] <= 1 ==> step.action is DeliverLocal && step.reply == reply
            &&& payload[2] > 1 ==> step.action == RoutingAction::DeliverLocalAndForward(
                Mac([0xff, 0xff, 0xff, 0xff, 0xff, 0xff]),
            )
            &&& payload[2] > 1 && n <= reply.payload.len() ==> {
                &&& step.reply.dst == Mac([0xff, 0xff, 0xff, 0xff, 0xff, 0xff])
                &&& step.reply.protocol == ETH_P_BATMAN
                &&& step.reply.payload.len() == reply.payload.len()
                &&& step.reply.payload.take(n) == payload.update(2, (payload[2] - 1) as u8)
            }
            &&& payload[2] > 1 && n > reply.payload.len() ==> step.reply == reply
            &&& on_record(step.state, mac_at(payload, 7), be32_at(payload, 3))
        }),
{
    let orig = mac_at(payload, 7);
    let seqno = be32_at(payload, 3);
    let seen = s.broadcast_seqno;
    let step = rx_step(
        s,
        caps,
        now,
        src,
        dst,
        ETH_P_BATMAN,
        payload,
        local_quality,
        reply,
    );
    seen_is_found(seen, orig, seqno);
    match first_seen(seen, orig) {
        Some(i) => {
            assert(seen[i].1 < seqno);
            assert(step.state.broadcast_seqno == seen.update(i, (orig, seqno)));
        },
        None => {
            unseen_is_nowhere(seen, orig);
            assert(step.state.broadcast_seqno == seen.push((orig, seqno)));
        },
    }
    let n = payload.len() as int;
    if payload[2] > 1 && n <= reply.payload.len() {
        be32_of_bytes(payload, 3);
        let out = step.reply.payload.take(n);
        assert(payload.subrange(3, 7) =~= be32(seqno));
        assert(orig.0@ =~= payload.subrange(7, 13));
        assert forall|i: int| 0 <= i < n implies #[trigger] out[i] == payload.update(
            2,
            (payload[2] - 1) as u8,
        )[i] by {
            if 3 <= i < 7 {
                assert(payload.subrange(3, 7)[i - 3] == payload[i]);
            }
        }
        assert(out =~= payload.update(2, (payload[2] - 1) as u8));
    }
}

/// Where no record of an originator is found, there is none.
proof fn unseen_is_nowhere(seen: Seq<(Mac, u32)>, orig: Mac)
    requires
        first_seen(seen, orig) is None,
    ensures
        forall|i: int| 0 <= i < seen.len() ==> (#[trigger] seen[i]).0 != orig,
    decreases seen.len(),
{
    if seen.len() > 0 {
        let t = seen.drop_last();
        unseen_is_nowhere(t, orig);
        assert forall|i: int| 0 <= i < t.len() implies #[trigger] seen[i] == t[i] by {}
    }
}

/// An OGM numbered higher than any heard from its originator is flooded on to
/// everyone, where it has hops to spare and the reply has room for it, with one
/// hop less to live and the quality of the path it came by, and otherwise
/// unchanged.
pub proof fn new_ogm_is_flooded(
    s: EngineState,
    caps: Capacities,
    now: Duration,
    src: Mac,
    dst: Mac,
    payload: Seq<u8>,
    local_quality: Option<u8>,
    reply: Reply,
)
    requires
        is_news(s, payload),
        be32_at(payload, 4) > newest_seqno(s, mac_at(payload, 8)),
        payload[2] > 1,
        OGM_LEN + be16_at(payload, 16) <= payload.len(),
        OGM_LEN + be16_at(payload, 16) <= reply.payload.len(),
    ensures
        ({
            let step = rx_step(
                s,
                caps,
                now,
                src,
                dst,
                ETH_P_BATMAN,
                payload,
                local_quality,
                reply,
            );
            let n = OGM_LEN + be16_at(payload, 16);
            let tq = attenuated(payload[15], local_quality);
            &&& step.action is Consumed
            &&& step.reply.dst == Mac([0xff, 0xff, 0xff, 0xff, 0xff, 0xff])
            &&& step.reply.protocol == ETH_P_BATMAN
            &&& step.reply.payload.len() == reply.payload.len()
            &&& step.reply.payload.take(n) == payload.take(n).update(
                2,
                (payload[2] - 1) as u8,
            ).update(15, tq)
        }),
{
    let step = rx_step(
        s,
        caps,
        now,
        src,
        dst,
        ETH_P_BATMAN,
        payload,
        local_quality,
        reply,
    );
    let n = OGM_LEN + be16_at(payload, 16);
    let tq = attenuated(payload[15], local_quality);
    let want = payload.take(n).update(2, (payload[2] - 1) as u8).update(15, tq);
    let out = step.reply.payload.take(n);
    be32_of_bytes(payload, 4);
    be16_of_bytes(payload, 16);
    assert(payload.subrange(4, 8) =~= be32(be32_at(payload, 4)));
    assert(payload.subrange(16, 18) =~= be16(be16_at(payload, 16)));
    assert forall|i: int| 0 <= i < n implies #[trigger] out[i] == want[i] by {
        if 4 <= i < 8 {
            assert(payload.subrange(4, 8)[i - 4] == payload[i]);
        } else if 16 <= i < 18 {
            assert(payload.subrange(16, 18)[i - 16] == payload[i]);
        }
    }
    assert(out =~= want);
}

/// The quality recorded of a path is ten below what was advertised, or none where
/// that is less than none, and never above the link's own where that is measured.
pub proof fn quality_falls_by_ten(advertised: u8, local_quality: Option<u8>)
    ensures
        ({
            let q = attenuated(advertised, local_quality);
            let cut = if advertised >= 10 {
                advertised - 10
            } else {
                0
            };
            &&& local_quality is None ==> q == cut
            &&& local_quality matches Some(local) ==> (q == cut && cut <= local) || (q == local
                && local <= cut)
        }),
{
}

/// A packet of a type this node does not know is delivered where the frame is for
/// this node, goes to the next hop toward where it is for otherwise, and is dropped
/// where none is known.
pub proof fn unknown_types_follow_the_frame(
    s: EngineState,
    caps: Capacities,
    now: Duration,
    src: Mac,
    dst: Mac,
    payload: Seq<u8>,
    local_quality: Option<u8>,
    reply: Reply,
)
    requires
        payload.len() > 0,
        payload[0] == 0 || payload[0] > BATADV_KEEPALIVE,
    ensures
        ({
            let step = rx_step(
                s,
                caps,
                now,
                src,
                dst,
                ETH_P_BATMAN,
                payload,
                local_quality,
                reply,
            );
            &&& dst == s.self_ident ==> step.action is DeliverLocal
            &&& dst != s.self_ident && live_hop(s, now, dst) is Some ==> step.action
                == RoutingAction::ForwardTo(live_hop(s, now, dst)->0)
            &&& dst != s.self_ident && live_hop(s, now, dst) is None ==> step.action is Consumed
            &&& step.state == s
            &&& step.reply == reply
        }),
{
}

/// The listeners of a group are the nodes listed for it, each as often as it is
/// listed.
pub proof fn listeners_are_those_listed(members: Seq<(Mac, Mac)>, group: Mac)
    ensures
        forall|m: Mac|
            listeners_of(members, group).contains(m) <==> #[trigger] members.contains((group, m)),
        forall|m: Mac|
            #[trigger] listeners_of(members, group).to_multiset().count(m)
                == members.to_multiset().count((group, m)),
    decreases members.len(),
{
    broadcast use vstd::seq_lib::group_to_multiset_ensures;

    if members.len() > 0 {
        let t = members.drop_last();
        let (g, n) = members.last();
        listeners_are_those_listed(t, group);
        assert(members =~= t.push(members.last()));
        assert forall|m: Mac| #[trigger] listeners_of(members, group).to_multiset().count(m)
            == members.to_multiset().count((group, m)) by {
            assert(listeners_of(t, group).to_multiset().count(m) == t.to_multiset().count(
                (group, m),
            ));
        }
    }
    assert forall|m: Mac|
        listeners_of(members, group).contains(m) <==> #[trigger] members.contains((group, m)) by {
        assert(listeners_of(members, group).to_multiset().count(m)
            == members.to_multiset().count((group, m)));
    }
}

/// The groups of a node are those it is listed for, each as often as it is listed.
pub proof fn groups_are_those_listed(members: Seq<(Mac, Mac)>, node: Mac)
    ensures
        forall|g: Mac|
            groups_of(members, node).contains(g) <==> #[trigger] members.contains((g, node)),
        forall|g: Mac|
            #[trigger] groups_of(members, node).to_multiset().count(g)
                == members.to_multiset().count((g, node)),
    decreases members.len(),
{
    broadcast use vstd::seq_lib::group_to_multiset_ensures;

    if members.len() > 0 {
        let t = members.drop_last();
        groups_are_those_listed(t, node);
        assert(members =~= t.push(members.last()));
        assert forall|g: Mac| #[trigger] groups_of(members, node).to_multiset().count(g)
            == members.to_multiset().count((g, node)) by {
            assert(groups_of(t, node).to_multiset().count(g) == t.to_multiset().count((g, node)));
        }
    }
    assert forall|g: Mac|
        groups_of(members, node).contains(g) <==> #[trigger] members.contains((g, node)) by {
        assert(groups_of(members, node).to_multiset().count(g) == members.to_multiset().count(
            (g, node),
        ));
    }
}

/// After an OGM that is news, its originator listens to exactly the groups it
/// announces, where there is room for them all, and every other node listens to
/// what it listened to before.
pub proof fn announced_groups_are_listened_to(
    s: EngineState,
    caps: Capacities,
    now: Duration,
    src: Mac,
    dst: Mac,
    payload: Seq<u8>,
    local_quality: Option<u8>,
    reply: Reply,
    group: Mac,
    other: Mac,
)
    requires
        s.wf(caps),
        is_news(s, payload),
        s.mcast_members.len() + announced_groups(
            payload.subrange(OGM_LEN as int, payload.len() as int),
        ).len() <= caps.mcast_members,
        other != mac_at(payload, 8),
    ensures
        ({
            let orig = mac_at(payload, 8);
            let t = rx_step(
                s,
                caps,
                now,
                src,
                dst,
                ETH_P_BATMAN,
                payload,
                local_quality,
                reply,
            ).state;
            let announced = announced_groups(
                payload.subrange(OGM_LEN as int, payload.len() as int),
            );
            &&& listeners_of(t.mcast_members, group).contains(orig) == announced.contains(group)
            &&& listeners_of(t.mcast_members, group).to_multiset().count(other) == listeners_of(
                s.mcast_members,
                group,
            ).to_multiset().count(other)
        }),
{
    let orig = mac_at(payload, 8);
    let t = rx_step(
        s,
        caps,
        now,
        src,
        dst,
        ETH_P_BATMAN,
        payload,
        local_quality,
        reply,
    ).state;
    let announced = announced_groups(payload.subrange(OGM_LEN as int, payload.len() as int));
    announcement_replaces_memberships(
        s.mcast_members,
        orig,
        other,
        payload,
        caps.mcast_members,
    );
    listeners_are_those_listed(t.mcast_members, group);
    listeners_are_those_listed(s.mcast_members, group);
    groups_are_those_listed(t.mcast_members, orig);
    groups_are_those_listed(t.mcast_members, other);
    groups_are_those_listed(s.mcast_members, other);
    groups_no_more(s.mcast_members, orig);
    assert(announced.subrange(0, announced.len() as int) =~= announced);
    assert(groups_of(t.mcast_members, orig) == announced);
    assert(t.mcast_members.contains((group, orig)) == announced.contains(group));
    assert(groups_of(t.mcast_members, other).to_multiset().count(group)
        == t.mcast_members.to_multiset().count((group, other)));
    assert(groups_of(s.mcast_members, other).to_multiset().count(group)
        == s.mcast_members.to_multiset().count((group, other)));
}

/// A node has no more groups than there are memberships.
proof fn groups_no_more(members: Seq<(Mac, Mac)>, node: Mac)
    ensures
        groups_of(members, node).len() <= members.len(),
    decreases members.len(),
{
    if members.len() > 0 {
        groups_no_more(members.drop_last(), node);
    }
}

/// A tick takes the next sequence number, round from the last to zero, and changes
/// nothing else but what ageing and a change of topology ask for: routes are
/// purged, and the OGM schedules stay unless a change resets them all.
pub proof fn tick_takes_the_next_number(s: EngineState, now: Duration)
    ensures
        ({
            let t = ticked(s, now);
            &&& (t.sequence_number - s.sequence_number - 1) % 0x1_0000_0000 == 0
            &&& t.routes == purged(s, now).routes
            &&& !t.topology_changed
            &&& t.ogm_timers.len() == s.ogm_timers.len()
            &&& !purged(s, now).topology_changed ==> t.ogm_timers == s.ogm_timers
            &&& purged(s, now).topology_changed ==> forall|i: int|
                0 <= i < t.ogm_timers.len() ==> (#[trigger] t.ogm_timers[i]).interval
                    == s.ogm_timers[i].i_min
            &&& t == (EngineState {
                sequence_number: t.sequence_number,
                routes: t.routes,
                topology_changed: t.topology_changed,
                ogm_timers: t.ogm_timers,
                ..s
            })
        }),
{
}

/// The bytes of a node's own OGM: a fresh one of full quality with fifty hops to
/// live, under the node's address and number.
pub proof fn own_ogm_is_fresh(s: EngineState)
    ensures
        ({
            let b = own_ogm(s);
            &&& b.len() == OGM_LEN + announcement_len(s.local_mcast.len())
            &&& b[0] == BATADV_IV_OGM
            &&& b[1] == 5
            &&& b[2] == 50
            &&& b[3] == 0
            &&& b[15] == 255
            &&& b.subrange(8, 14) == s.self_ident.0@
            &&& b[4] * 0x100_0000 + b[5] * 0x1_0000 + b[6] * 0x100 + b[7] == s.sequence_number
            &&& s.local_mcast.len() == 0 ==> b.len() == 18
        }),
{
    let b = own_ogm(s);
    octets_per_group(s.local_mcast);
    assert(b.subrange(8, 14) =~= s.self_ident.0@);
}

/// A group takes six octets.
proof fn octets_per_group(groups: Seq<Mac>)
    ensures
        group_octets(groups).len() == 6 * groups.len(),
    decreases groups.len(),
{
    if groups.len() > 0 {
        octets_per_group(groups.drop_last());
    }
}

/// Taking a frame in leaves no change of topology unacted on where it was an OGM:
/// the latch is clear, and where it was set before, every OGM schedule was reset.
pub proof fn ogm_acts_on_the_latch(
    s: EngineState,
    caps: Capacities,
    now: Duration,
    src: Mac,
    dst: Mac,
    payload: Seq<u8>,
    local_quality: Option<u8>,
    reply: Reply,
    i: int,
)
    requires
        payload.len() >= 18,
        payload[0] == BATADV_IV_OGM,
        mac_at(payload, 8) != s.self_ident,
        0 <= i < s.ogm_timers.len(),
    ensures
        ({
            let t = rx_step(
                s,
                caps,
                now,
                src,
                dst,
                ETH_P_BATMAN,
                payload,
                local_quality,
                reply,
            ).state;
            &&& !t.topology_changed
            &&& t.ogm_timers.len() == s.ogm_timers.len()
            &&& s.topology_changed ==> t.ogm_timers[i].interval == s.ogm_timers[i].i_min
            &&& t.ogm_timers[i].i_min == s.ogm_timers[i].i_min
            &&& t.ogm_timers[i].i_max == s.ogm_timers[i].i_max
        }),
{
}

/// An OGM that tells nothing new about how its originator is reached leaves the
/// schedules as they are: same next hop, same groups, no change latched.
pub proof fn steady_ogm_leaves_the_schedules(
    s: EngineState,
    caps: Capacities,
    now: Duration,
    src: Mac,
    dst: Mac,
    payload: Seq<u8>,
    local_quality: Option<u8>,
    reply: Reply,
)
    requires
        s.wf(caps),
        caps.originators > 1,
        is_news(s, payload),
        !s.topology_changed,
        route_to(s, mac_at(payload, 8)) is Some,
        ({
            let orig = mac_at(payload, 8);
            let t = rx_step(
                s,
                caps,
                now,
                src,
                dst,
                ETH_P_BATMAN,
                payload,
                local_quality,
                reply,
            ).state;
            &&& route_to(t, orig)->0.best_next_hop == route_to(s, orig)->0.best_next_hop
            &&& groups_of(t.mcast_members, orig).to_set() == groups_of(
                s.mcast_members,
                orig,
            ).to_set()
        }),
    ensures
        rx_step(
            s,
            caps,
            now,
            src,
            dst,
            ETH_P_BATMAN,
            payload,
            local_quality,
            reply,
        ).state.ogm_timers == s.ogm_timers,
{
    let tq = attenuated(payload[15], local_quality);
    accepted_route(s, caps, now, src, payload, tq);
}

/// No frame touches what the local side sets: the node's address, its numbers, its
/// groups and its keep-alive schedules.  Only an OGM touches the OGM schedules.
pub proof fn frames_leave_local_settings(
    s: EngineState,
    caps: Capacities,
    now: Duration,
    src: Mac,
    dst: Mac,
    protocol: u16,
    payload: Seq<u8>,
    local_quality: Option<u8>,
    reply: Reply,
)
    ensures
        ({
            let t = rx_step(
                s,
                caps,
                now,
                src,
                dst,
                protocol,
                payload,
                local_quality,
                reply,
            ).state;
            &&& t.self_ident == s.self_ident
            &&& t.sequence_number == s.sequence_number
            &&& t.broadcast_sequence_number == s.broadcast_sequence_number
            &&& t.local_mcast == s.local_mcast
            &&& t.keepalive_timers == s.keepalive_timers
            &&& t.relay_oversize_drops >= s.relay_oversize_drops
            &&& payload.len() == 0 || payload[0] != BATADV_IV_OGM ==> t.ogm_timers == s.ogm_timers
                && t.routes == s.routes && t.mcast_members == s.mcast_members
            &&& payload.len() == 0 || payload[0] != BATADV_BCAST ==> t.broadcast_seqno
                == s.broadcast_seqno
            &&& payload.len() == 0 || payload[0] != BATADV_KEEPALIVE ==> t.keepalive
                == s.keepalive
            &&& payload.len() > 0 && payload[0] == BATADV_KEEPALIVE && src == s.self_ident ==> t
                == s
        }),
{
}

/// A flood that does not fit the reply is counted, up to the most that can be.
pub proof fn floods_too_large_are_counted(
    s: EngineState,
    caps: Capacities,
    now: Duration,
    src: Mac,
    dst: Mac,
    payload: Seq<u8>,
    local_quality: Option<u8>,
    reply: Reply,
)
    requires
        s.relay_oversize_drops < u32::MAX,
        payload.len() > 2,
        payload[2] > 1,
        ({
            ||| is_news(s, payload) && be32_at(payload, 4) > newest_seqno(s, mac_at(payload, 8))
                && OGM_LEN + be16_at(payload, 16) > reply.payload.len()
            ||| is_broadcast(payload) && payload.len() > reply.payload.len() && !(rx_step(
                s,
                caps,
                now,
                src,
                dst,
                ETH_P_BATMAN,
                payload,
                local_quality,
                reply,
            ).action is Consumed)
        }),
    ensures
        ({
            let step = rx_step(
                s,
                caps,
                now,
                src,
                dst,
                ETH_P_BATMAN,
                payload,
                local_quality,
                reply,
            );
            &&& step.state.relay_oversize_drops == s.relay_oversize_drops + 1
            &&& step.reply == reply
        }),
{
}

/// A node announces its groups in one multicast record of the first version, or
/// none where it has joined none.
pub proof fn announcement_is_one_record(s: EngineState)
    requires
        announcement_len(s.local_mcast.len()) <= 0xffff,
        s.local_mcast.len() > 0,
    ensures
        ({
            let b = own_ogm(s);
            &&& b.len() == 22 + 6 * s.local_mcast.len()
            &&& b[16] * 0x100 + b[17] == b.len() - 18
            &&& b[18] == 6
            &&& b[19] == 1
            &&& b[20] * 0x100 + b[21] == b.len() - 22
        }),
{
    octets_per_group(s.local_mcast);
}

/// Of several multicast records in an OGM the first counts.
pub proof fn first_announcement_counts(records: Seq<TvlvRecord>, k: int)
    requires
        forall|i: int| 0 <= i < records.len() ==> (#[trigger] records[i]).value.len() <= 0xffff,
        0 <= k < records.len(),
        records[k].tvlv_type == 6,
        forall|i: int| 0 <= i < k ==> (#[trigger] records[i]).tvlv_type != 6,
    ensures
        announced_groups(tvlv_region(records)) == listed_groups(records[k].value),
        listed_groups(records[k].value).len() == records[k].value.len() / 6,
{
    scan_reads_back_records(records, 6);
    first_of_type(records, 6, k);
}

/// The first value of a type is that of the first record of it.
proof fn first_of_type(records: Seq<TvlvRecord>, ty: u8, k: int)
    requires
        0 <= k < records.len(),
        records[k].tvlv_type == ty,
        forall|i: int| 0 <= i < k ==> (#[trigger] records[i]).tvlv_type != ty,
    ensures
        values_of_type(records, ty).len() > 0,
        values_of_type(records, ty)[0] == records[k].value,
    decreases k,
{
    if k > 0 {
        let rest = records.drop_first();
        assert(records[0].tvlv_type != ty);
        assert(rest[k - 1] == records[k]);
        assert forall|i: int| 0 <= i < k - 1 implies (#[trigger] rest[i]).tvlv_type != ty by {
            assert(rest[i] == records[i + 1]);
        }
        first_of_type(rest, ty, k - 1);
    }
}

/// A group in an announcement is the six octets in its place.
pub proof fn announced_group_is_its_octets(value: Seq<u8>, i: int)
    requires
        0 <= i,
        6 * i + 6 <= value.len(),
    ensures
        listed_groups(value)[i].0@ == value.subrange(6 * i, 6 * i + 6),
{
    assert(listed_groups(value)[i].0@ =~= value.subrange(6 * i, 6 * i + 6));
}

/// An OGM without a multicast record announces no group.
pub proof fn no_record_announces_nothing(records: Seq<TvlvRecord>)
    requires
        forall|i: int| 0 <= i < records.len() ==> (#[trigger] records[i]).value.len() <= 0xffff,
        forall|i: int| 0 <= i < records.len() ==> (#[trigger] records[i]).tvlv_type != 6,
    ensures
        announced_groups(tvlv_region(records)) == Seq::<Mac>::empty(),
{
    scan_reads_back_records(records, 6);
    none_of_type(records, 6);
}

/// Where no record is of a type, neither is a value.
proof fn none_of_type(records: Seq<TvlvRecord>, ty: u8)
    requires
        forall|i: int| 0 <= i < records.len() ==> (#[trigger] records[i]).tvlv_type != ty,
    ensures
        values_of_type(records, ty).len() == 0,
    decreases records.len(),
{
    if records.len() > 0 {
        let rest = records.drop_first();
        assert(records[0].tvlv_type != ty);
        assert forall|i: int| 0 <= i < rest.len() implies (#[trigger] rest[i]).tvlv_type != ty by {
            assert(rest[i] == records[i + 1]);
        }
        none_of_type(rest, ty);
    }
}

} // verus!
