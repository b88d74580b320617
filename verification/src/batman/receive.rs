//! What the engine does with each kind of received packet.

use vstd::prelude::*;

use crate::batman::ageing::choose_best;
use crate::batman::engine::routes_follow;
use crate::batman::engine::table_keys_distinct;
use crate::batman::engine::BatmanEngine;
use crate::batman::model::after_ogm;
use crate::batman::model::attenuated;
use crate::batman::model::blank_route;
use crate::batman::model::broadcast_step;
use crate::batman::model::bumped;
use crate::batman::model::by_dest_action;
use crate::batman::model::choosing_backs_route;
use crate::batman::model::directed_step;
use crate::batman::model::first_path;
use crate::batman::model::first_seen;
use crate::batman::model::heartbeats_after;
use crate::batman::model::keepalive_step;
use crate::batman::model::learned;
use crate::batman::model::live_hop;
use crate::batman::model::ogm_step;
use crate::batman::model::oldest_heartbeat;
use crate::batman::model::oldest_route;
use crate::batman::model::paths_after;
use crate::batman::model::place;
use crate::batman::model::place_is;
use crate::batman::model::rx_step;
use crate::batman::model::seen_after;
use crate::batman::model::sound_route;
use crate::batman::model::with_route;
use crate::batman::model::EngineState;
use crate::batman::model::Reply;
use crate::batman::model::Step;
use crate::batman::tables::blend_interval;
use crate::batman::tables::KeepAliveStats;
use crate::batman::tables::NeighborStats;
use crate::batman::tables::OriginatorRecord;
use crate::batman::tables::Route;
use crate::batman::tables::MAX_PATHS;
use crate::batman::wire::BatmanBroadcastPacket;
use crate::batman::wire::BatmanCertReplyPacket;
use crate::batman::wire::BatmanCertReqPacket;
use crate::batman::wire::BatmanKeepAlivePacket;
use crate::batman::wire::BatmanMcastPacket;
use crate::batman::wire::BatmanOgmPacket;
use crate::batman::wire::BatmanUnicastPacket;
use crate::batman::wire::BATADV_BCAST;
use crate::batman::wire::BATADV_CERT_REPLY;
use crate::batman::wire::BATADV_CERT_REQ;
use crate::batman::wire::BATADV_IV_OGM;
use crate::batman::wire::BATADV_KEEPALIVE;
use crate::batman::wire::BATADV_MCAST;
use crate::batman::wire::BATADV_UNICAST;
use crate::batman::wire::ETH_P_BATMAN;
use crate::batman::wire::OGM_LEN;
use crate::bounded::has_key;
use crate::bounded::swap_removed;
use crate::bounded::swap_removed_keeps_distinct;
use crate::bounded::BoundedVec;
use crate::bounded::MAX_TABLE_LEN;
use crate::codec::overlay;
use crate::codec::write_at;
use crate::frame::LinkFrame;
use crate::frame::LinkFrameDataMut;
use crate::frame::Mac;
use crate::routing::RoutingAction;
use crate::select::first_least;
use crate::time::Duration;

verus! {

/// Fold an accepted OGM via `src` into a record's paths.
fn refresh_paths(
    paths: &mut BoundedVec<NeighborStats, 4>,
    src: Mac,
    seqno: u32,
    tq: u8,
    now: Duration,
)
    requires
        old(paths)@.len() <= MAX_PATHS,
    ensures
        final(paths)@ == paths_after(old(paths)@, src, seqno, tq, now),
        final(paths)@.len() <= MAX_PATHS,
{
    let n: usize = paths.len();
    let mut i: usize = 0;
    assert(paths@.take(0).len() == 0);
    while i < n
        invariant
            i <= n,
            n == paths@.len(),
            n <= MAX_PATHS,
            paths@ == old(paths)@,
            first_path(paths@.take(i as int), src) is None,
        decreases n - i,
    {
        assert(paths@.take(i as int + 1).drop_last() =~= paths@.take(i as int));
        if paths.items()[i].neighbor_ident == src {
            proof {
                first_path_extends(paths@, src, i as int + 1);
            }
            let items = paths.items_mut();
            let mut path: NeighborStats = items[i];
            if seqno > path.last_seqno {
                let gap = now.saturating_sub(path.last_heard);
                path.interval_estimate = blend_interval(path.interval_estimate, gap);
            }
            path.last_tq = tq;
            path.last_seqno = seqno;
            path.last_heard = now;
            items[i] = path;
            return;
        }
        i = i + 1;
    }
    assert(paths@.take(n as int) =~= paths@);
    if n < MAX_PATHS {
        let kept: bool = paths.push(
            NeighborStats {
                neighbor_ident: src,
                last_tq: tq,
                last_seqno: seqno,
                last_heard: now,
                interval_estimate: Duration::zero(),
            },
        );
    }
}

/// A path found in a prefix is the one found in the whole.
proof fn first_path_extends(paths: Seq<NeighborStats>, src: Mac, n: int)
    requires
        0 <= n <= paths.len(),
        first_path(paths.take(n), src) is Some,
    ensures
        first_path(paths, src) == first_path(paths.take(n), src),
    decreases paths.len() - n,
{
    if n < paths.len() {
        assert(paths.take(n + 1).drop_last() =~= paths.take(n));
        first_path_extends(paths, src, n + 1);
    } else {
        assert(paths.take(n) =~= paths);
    }
}

/// The path found goes via the neighbor asked for; where none is found, no path
/// does.
pub(crate) proof fn first_path_is_one(paths: Seq<NeighborStats>, neighbor: Mac)
    ensures
        match first_path(paths, neighbor) {
            Some(i) => 0 <= i < paths.len() && paths[i].neighbor_ident == neighbor,
            None => forall|i: int|
                0 <= i < paths.len() ==> (#[trigger] paths[i]).neighbor_ident != neighbor,
        },
    decreases paths.len(),
{
    if paths.len() > 0 {
        let t = paths.drop_last();
        first_path_is_one(t, neighbor);
        assert forall|i: int| 0 <= i < t.len() implies #[trigger] paths[i] == t[i] by {}
    }
}

/// Fold an accepted OGM via `src` into a record: refresh that path, and choose the
/// next hop again over all known paths.
fn learn(record: &mut OriginatorRecord, src: Mac, seqno: u32, tq: u8, now: Duration)
    requires
        old(record)@.paths.len() <= MAX_PATHS,
    ensures
        final(record)@ == learned(old(record)@, src, seqno, tq, now),
        final(record)@.paths.len() <= MAX_PATHS,
{
    record.last_seqno = seqno;
    record.last_heard = now;
    refresh_paths(&mut record.paths, src, seqno, tq, now);
    choose_best(record);
}

/// The quality a path is recorded with: one hop's penalty off the advertised
/// quality, and no better than the link it came in on.
fn path_quality(advertised: u8, local_quality: Option<u8>) -> (tq: u8)
    ensures
        tq == attenuated(advertised, local_quality),
{
    let penalized: u8 = if advertised >= 10 { advertised - 10 } else { 0 };
    match local_quality {
        Some(local) => if local < penalized {
            local
        } else {
            penalized
        },
        None => penalized,
    }
}

/// Lay `header` and then `inner` over the reply for `dst`.
fn fill_reply(reply: &mut LinkFrameDataMut<'_>, dst: Mac, header: &[u8], inner: &[u8])
    requires
        header@.len() + inner@.len() <= old(reply).payload@.len(),
    ensures
        final(reply).dst == dst,
        final(reply).protocol == ETH_P_BATMAN,
        final(reply).payload@ == overlay(old(reply).payload@, 0, header@ + inner@),
{
    reply.dst = dst;
    reply.protocol = ETH_P_BATMAN;
    let split: usize = header.len();
    write_at(reply.payload, 0, header);
    write_at(reply.payload, split, inner);
    assert(reply.payload@ =~= overlay(old(reply).payload@, 0, header@ + inner@));
}

impl<
    const MAX_ORIGINATORS: usize,
    const MAX_INTERFACES: usize,
    const MAX_MCAST_MEMBERS: usize,
    const MAX_LOCAL_MCAST: usize,
> BatmanEngine<MAX_ORIGINATORS, MAX_INTERFACES, MAX_MCAST_MEMBERS, MAX_LOCAL_MCAST> {
    /// The place of the originator heard longest ago, the first of several.
    fn oldest_originator(&self) -> (at: usize)
        requires
            self.originator_table@.len() > 0,
        ensures
            at < self.originator_table@.len(),
            at == oldest_route(self@.routes),
    {
        let n: usize = self.originator_table.len();
        let ghost keys = self@.routes.map_values(|e: (Mac, Route)| e.1.last_heard.nanos as int);
        let mut best: usize = 0;
        let mut least: u128 = match self.originator_table.entry_at(0) {
            Some((_, record)) => record.last_heard.nanos,
            None => 0,
        };
        assert(least == keys[0]);
        let mut i: usize = 1;
        while i < n
            invariant
                1 <= i <= n,
                n == keys.len(),
                n == self.originator_table@.len(),
                keys == self@.routes.map_values(
                    |e: (Mac, Route)| e.1.last_heard.nanos as int,
                ),
                best < i,
                best == first_least(keys.take(i as int)),
                least == keys[best as int],
            decreases n - i,
        {
            assert(keys.take(i as int + 1).drop_last() =~= keys.take(i as int));
            assert(keys.take(i as int + 1)[best as int] == keys[best as int]);
            if let Some((_, record)) = self.originator_table.entry_at(i) {
                assert(record.last_heard.nanos == keys[i as int]);
                if record.last_heard.nanos < least {
                    best = i;
                    least = record.last_heard.nanos;
                }
            }
            i = i + 1;
        }
        assert(keys.take(n as int) =~= keys);
        best
    }

    /// The place of `orig`'s record, made first where there is none; a full
    /// table gives up the originator heard longest ago.
    fn find_or_create(&mut self, orig: Mac, src: Mac, now: Duration) -> (at: usize)
        requires
            old(self).wf(),
        ensures
            final(self).wf(),
            final(self)@ == (EngineState {
                routes: with_route(
                    old(self)@.routes,
                    MAX_ORIGINATORS as nat,
                    orig,
                    src,
                    now,
                ),
                ..old(self)@
            }),
            at < final(self).originator_table@.len(),
            final(self).originator_table@[at as int].0 == orig,
    {
        if let Some(at) = self.originator_table.index_of(orig) {
            proof {
                self.table_place(orig, at as int);
            }
            return at;
        }
        proof {
            self.table_absent(orig);
        }
        let ghost full_table = self.originator_table@;
        if self.originator_table.len() >= MAX_ORIGINATORS {
            let oldest: usize = self.oldest_originator();
            if let Some((key, _)) = self.originator_table.entry_at(oldest) {
                proof {
                    table_keys_distinct(full_table);
                }
                self.originator_table.swap_remove(key);
                proof {
                    assert(full_table[oldest as int].0 == key);
                    assert(self.originator_table@ == swap_removed(full_table, oldest as int));
                    routes_follow(full_table);
                    assert(self@.routes == swap_removed(
                        old(self)@.routes,
                        oldest_route(old(self)@.routes),
                    ));
                    self.eviction_keeps_sound(*old(self), oldest as int);
                    assert forall|i: int| 0 <= i < self.originator_table@.len() implies (
                    #[trigger] self.originator_table@[i]).0 != orig by {
                        let j = if i == oldest { full_table.len() - 1 } else { i };
                        assert(self.originator_table@[i] == full_table[j]);
                    }
                }
            }
        }
        let ghost kept = self@.routes;
        let ghost table = self.originator_table@;
        let at: usize = self.originator_table.len();
        let record = OriginatorRecord {
            last_heard: now,
            neighbor_ident: orig,
            best_next_hop: src,
            max_tq: 0,
            last_seqno: 0,
            paths: BoundedVec::new(),
        };
        let ghost blank = record@;
        assert(blank =~= blank_route(orig, src, now));
        let inserted: bool = self.originator_table.insert_new(orig, record);
        proof {
            routes_follow(table);
            assert(self@.routes == kept.push((orig, blank)));
            let routes = self@.routes;
            assert forall|a: int, b: int| 0 <= a < b < routes.len() implies (
            #[trigger] routes[a]).0 != (#[trigger] routes[b]).0 by {
                if b < kept.len() {
                    assert(routes[a] == kept[a] && routes[b] == kept[b]);
                } else {
                    assert(routes[a] == kept[a]);
                    assert(table[a].0 != orig);
                }
            }
            assert forall|i: int| 0 <= i < routes.len() implies sound_route(
                #[trigger] routes[i],
            ) by {
                if i < kept.len() {
                    assert(routes[i] == kept[i]);
                }
            }
        }
        at
    }

    /// A sound table stays sound when one of its originators is evicted.
    proof fn eviction_keeps_sound(&self, before: Self, at: int)
        requires
            before.wf(),
            0 <= at < before@.routes.len(),
            self@ == (EngineState { routes: swap_removed(before@.routes, at), ..before@ }),
        ensures
            self.wf(),
    {
        let s = before@.routes;
        let t = self@.routes;
        swap_removed_keeps_distinct(s, at);
        assert forall|i: int| 0 <= i < t.len() implies sound_route(#[trigger] t[i]) by {
            let j = if i == at { s.len() - 1 } else { i };
            assert(t[i] == s[j]);
        }
    }

    /// Count one relayed frame that did not fit the reply.
    fn note_relay_oversize_drop(&mut self)
        ensures
            final(self)@ == (EngineState {
                relay_oversize_drops: bumped(old(self)@.relay_oversize_drops),
                ..old(self)@
            }),
    {
        if self.relay_oversize_drops < u32::MAX {
            self.relay_oversize_drops = self.relay_oversize_drops + 1;
        }
    }

    /// Route an incoming OGM: learn the originator's path and cadence, fold in
    /// its memberships, latch any topology change, and re-flood it once per
    /// fresh sequence number.
    fn handle_ogm(
        &mut self,
        now: Duration,
        frame: &LinkFrame<'_>,
        local_quality: Option<u8>,
        reply: &mut LinkFrameDataMut<'_>,
    ) -> (action: RoutingAction)
        requires
            old(self).wf(),
            old(self)@.can_reset(now),
        ensures
            final(self).wf(),
            (Step {
                state: final(self)@,
                action,
                reply: Reply {
                    dst: final(reply).dst,
                    protocol: final(reply).protocol,
                    payload: final(reply).payload@,
                },
            }) == ogm_step(
                old(self)@,
                Self::caps(),
                now,
                frame.src,
                frame.payload@,
                local_quality,
                Reply {
                    dst: old(reply).dst,
                    protocol: old(reply).protocol,
                    payload: old(reply).payload@,
                },
            ),
    {
        let ogm = match BatmanOgmPacket::ref_from_prefix(frame.payload) {
            Some((ogm, _)) => ogm,
            None => {
                return RoutingAction::Consumed;
            },
        };
        if ogm.orig == self.self_ident {
            return RoutingAction::Consumed;
        }
        let ghost before = self@;
        let is_new_orig: bool = !self.originator_table.contains_key(&ogm.orig);
        proof {
            if is_new_orig {
                self.table_absent(ogm.orig);
            } else {
                let at = choose|i: int|
                    0 <= i < self.originator_table@.len() && (
                    #[trigger] self.originator_table@[i]).0 == ogm.orig;
                self.table_place(ogm.orig, at);
            }
        }
        let at: usize = self.find_or_create(ogm.orig, frame.src, now);
        proof {
            self.table_place(ogm.orig, at as int);
        }
        let ghost known = self@;
        let newest: u32 = match self.originator_table.entry_at(at) {
            Some((_, record)) => record.last_seqno,
            None => 0,
        };
        assert(newest == known.routes[at as int].1.last_seqno);
        proof {
            if is_new_orig {
                place_is(known.routes, ogm.orig, known.routes.len() - 1);
            }
        }
        assert(newest == (if has_key(before.routes, ogm.orig) {
            before.routes[place(before.routes, ogm.orig)].1.last_seqno
        } else {
            0u32
        }));
        if ogm.seqno < newest {
            self.apply_topology_change(now);
            return RoutingAction::Consumed;
        }
        let tq: u8 = path_quality(ogm.tq, local_quality);
        let ghost table = self.originator_table@;
        let record = self.originator_table.value_at_mut(at);
        let hop_before: Mac = record.best_next_hop;
        learn(record, frame.src, ogm.seqno, tq, now);
        let hop_changed: bool = record.best_next_hop != hop_before;
        proof {
            routes_follow(table);
            assert(self@.routes == known.routes.update(
                at as int,
                (
                    ogm.orig,
                    learned(known.routes[at as int].1, frame.src, ogm.seqno, tq, now),
                ),
            ));
            self.learning_keeps_sound(known, at as int, frame.src, ogm.seqno, tq, now);
        }
        let mcast_changed: bool = self.update_mcast_membership(ogm.orig, frame.payload);
        if is_new_orig || hop_changed || mcast_changed {
            self.topology_changed = true;
        }
        assert(self@ =~= after_ogm(before, Self::caps(), now, frame.src, frame.payload@, tq));
        if ogm.seqno > newest && ogm.ttl > 1 {
            let mut outbound = ogm;
            outbound.ttl = ogm.ttl - 1;
            outbound.tq = tq;
            let total: usize = OGM_LEN + ogm.tvlv_len as usize;
            if total <= reply.payload.len() {
                let header: [u8; 18] = outbound.as_bytes();
                if total <= frame.payload.len() {
                    fill_reply(reply, Mac::broadcast(), &header, &frame.payload[OGM_LEN..total]);
                } else {
                    let nothing: [u8; 0] = [];
                    fill_reply(reply, Mac::broadcast(), &header, &nothing);
                    assert(header@ + nothing@ =~= header@);
                }
            } else {
                self.note_relay_oversize_drop();
            }
        }
        self.apply_topology_change(now);
        RoutingAction::Consumed
    }

    /// A sound engine stays sound when one route learns from an OGM.
    proof fn learning_keeps_sound(
        &self,
        before: EngineState,
        at: int,
        src: Mac,
        seqno: u32,
        tq: u8,
        now: Duration,
    )
        requires
            before.wf(Self::caps()),
            1 < MAX_ORIGINATORS <= MAX_TABLE_LEN,
            0 <= at < before.routes.len(),
            self@ == (EngineState {
                routes: before.routes.update(
                    at,
                    (before.routes[at].0, learned(before.routes[at].1, src, seqno, tq, now)),
                ),
                ..before
            }),
        ensures
            self.wf(),
    {
        let s = before.routes;
        let t = self@.routes;
        assert forall|a: int, b: int| 0 <= a < b < t.len() implies (#[trigger] t[a]).0 != (
        #[trigger] t[b]).0 by {
            assert(t[a].0 == s[a].0 && t[b].0 == s[b].0);
        }
        assert forall|i: int| 0 <= i < t.len() implies sound_route(#[trigger] t[i]) by {
            assert(sound_route(s[i]));
            if i == at {
                let paths = paths_after(s[i].1.paths, src, seqno, tq, now);
                first_path_is_one(s[i].1.paths, src);
                assert forall|a: int, b: int| 0 <= a < b < paths.len() implies (
                #[trigger] paths[a]).neighbor_ident != (#[trigger] paths[b]).neighbor_ident by {
                    let known = s[i].1.paths;
                    assert(paths[a].neighbor_ident == known[a].neighbor_ident);
                    if b < known.len() {
                        assert(paths[b].neighbor_ident == known[b].neighbor_ident);
                    }
                }
                choosing_backs_route(
                    Route { last_heard: now, last_seqno: seqno, paths, ..s[i].1 },
                );
            }
        }
    }

    /// The place of the heartbeat heard longest ago, the first of several.
    fn quietest_neighbor(&self) -> (at: usize)
        requires
            self.keepalive@.len() > 0,
        ensures
            at < self.keepalive@.len(),
            at == oldest_heartbeat(self@.keepalive),
    {
        let n: usize = self.keepalive.len();
        let ghost keys = self@.keepalive.map_values(
            |e: (Mac, KeepAliveStats)| e.1.last_heard.nanos as int,
        );
        let mut best: usize = 0;
        let mut least: u128 = match self.keepalive.entry_at(0) {
            Some((_, stats)) => stats.last_heard.nanos,
            None => 0,
        };
        assert(least == keys[0]);
        let mut i: usize = 1;
        while i < n
            invariant
                1 <= i <= n,
                n == keys.len(),
                n == self.keepalive@.len(),
                keys == self@.keepalive.map_values(
                    |e: (Mac, KeepAliveStats)| e.1.last_heard.nanos as int,
                ),
                best < i,
                best == first_least(keys.take(i as int)),
                least == keys[best as int],
            decreases n - i,
        {
            assert(keys.take(i as int + 1).drop_last() =~= keys.take(i as int));
            assert(keys.take(i as int + 1)[best as int] == keys[best as int]);
            if let Some((_, stats)) = self.keepalive.entry_at(i) {
                assert(stats.last_heard.nanos == keys[i as int]);
                if stats.last_heard.nanos < least {
                    best = i;
                    least = stats.last_heard.nanos;
                }
            }
            i = i + 1;
        }
        assert(keys.take(n as int) =~= keys);
        best
    }

    /// Record one keep-alive heartbeat from `neighbor` at `now`: fold the gap
    /// into its learned cadence, or arm a fresh entry on first sight, evicting
    /// the neighbor heard longest ago from a full table.
    fn note_keepalive(&mut self, now: Duration, neighbor: Mac)
        requires
            old(self).wf(),
        ensures
            final(self).wf(),
            final(self)@ == (EngineState {
                keepalive: heartbeats_after(
                    old(self)@.keepalive,
                    MAX_ORIGINATORS as nat,
                    now,
                    neighbor,
                ),
                ..old(self)@
            }),
    {
        let ghost before = self.keepalive@;
        if let Some(at) = self.keepalive.index_of(neighbor) {
            proof {
                place_is(before, neighbor, at as int);
            }
            let stats = self.keepalive.value_at_mut(at);
            let gap = now.saturating_sub(stats.last_heard);
            stats.interval_estimate = blend_interval(stats.interval_estimate, gap);
            stats.last_heard = now;
            proof {
                let after = self.keepalive@;
                assert forall|a: int, b: int| 0 <= a < b < after.len() implies (
                #[trigger] after[a]).0 != (#[trigger] after[b]).0 by {
                    assert(after[a].0 == before[a].0 && after[b].0 == before[b].0);
                }
            }
            return;
        }
        if self.keepalive.len() >= MAX_ORIGINATORS {
            let oldest: usize = self.quietest_neighbor();
            if let Some((key, _)) = self.keepalive.entry_at(oldest) {
                self.keepalive.swap_remove(key);
                proof {
                    assert(before[oldest as int].0 == key);
                    swap_removed_keeps_distinct(before, oldest as int);
                    assert forall|i: int| 0 <= i < self.keepalive@.len() implies (
                    #[trigger] self.keepalive@[i]).0 != neighbor by {
                        let j = if i == oldest { before.len() - 1 } else { i };
                        assert(self.keepalive@[i] == before[j]);
                    }
                }
            }
        }
        let ghost kept = self.keepalive@;
        let inserted: bool = self.keepalive.insert_new(
            neighbor,
            KeepAliveStats { last_heard: now, interval_estimate: Duration::zero() },
        );
        proof {
            let after = self.keepalive@;
            assert forall|a: int, b: int| 0 <= a < b < after.len() implies (#[trigger] after[a]).0
                != (#[trigger] after[b]).0 by {
                assert(after[a] == kept[a]);
                if b < kept.len() {
                    assert(after[b] == kept[b]);
                }
            }
        }
    }

    /// Route an incoming keep-alive: note that its sender is alive.  It is never
    /// forwarded and never delivered.
    fn handle_keepalive(&mut self, now: Duration, frame: &LinkFrame<'_>) -> (action: RoutingAction)
        requires
            old(self).wf(),
        ensures
            final(self).wf(),
            action == RoutingAction::Consumed,
            forall|reply: Reply|
                (Step { state: final(self)@, action, reply }) == #[trigger] keepalive_step(
                    old(self)@,
                    Self::caps(),
                    now,
                    frame.src,
                    frame.payload@,
                    reply,
                ),
    {
        if BatmanKeepAlivePacket::ref_from_prefix(frame.payload).is_none() {
            return RoutingAction::Consumed;
        }
        if frame.src != self.self_ident {
            self.note_keepalive(now, frame.src);
        }
        RoutingAction::Consumed
    }

    /// Note a broadcast of `orig` with `seqno`; `false` where it is a duplicate,
    /// older than one seen, or of an originator there is no room for.
    fn note_broadcast(&mut self, orig: Mac, seqno: u32) -> (fresh: bool)
        requires
            old(self).wf(),
        ensures
            final(self).wf(),
            match seen_after(old(self)@.broadcast_seqno, orig, seqno, MAX_ORIGINATORS as nat) {
                Some(seen) => fresh && final(self)@ == (EngineState {
                    broadcast_seqno: seen,
                    ..old(self)@
                }),
                None => !fresh && final(self)@ == old(self)@,
            },
    {
        let n: usize = self.broadcast_seqno.len();
        let mut i: usize = 0;
        while i < n
            invariant
                i <= n,
                n == self.broadcast_seqno@.len(),
                self@ == old(self)@,
                old(self).wf(),
                first_seen(self.broadcast_seqno@.take(i as int), orig) is None,
            decreases n - i,
        {
            let ghost seen = self.broadcast_seqno@;
            assert(seen.take(i as int + 1).drop_last() =~= seen.take(i as int));
            if self.broadcast_seqno.items()[i].0 == orig {
                proof {
                    first_seen_extends(seen, orig, i as int + 1);
                }
                if seqno <= self.broadcast_seqno.items()[i].1 {
                    return false;
                }
                let entries = self.broadcast_seqno.items_mut();
                entries[i] = (orig, seqno);
                return true;
            }
            i = i + 1;
        }
        assert(self.broadcast_seqno@.take(n as int) =~= self.broadcast_seqno@);
        self.broadcast_seqno.push((orig, seqno))
    }

    /// Route an incoming flooded broadcast: drop our own and duplicates, deliver
    /// locally, and re-flood with one hop less to live until that runs out.
    fn handle_broadcast(
        &mut self,
        frame: &LinkFrame<'_>,
        reply: &mut LinkFrameDataMut<'_>,
    ) -> (action: RoutingAction)
        requires
            old(self).wf(),
        ensures
            final(self).wf(),
            (Step {
                state: final(self)@,
                action,
                reply: Reply {
                    dst: final(reply).dst,
                    protocol: final(reply).protocol,
                    payload: final(reply).payload@,
                },
            }) == broadcast_step(
                old(self)@,
                Self::caps(),
                frame.payload@,
                Reply {
                    dst: old(reply).dst,
                    protocol: old(reply).protocol,
                    payload: old(reply).payload@,
                },
            ),
    {
        let (bcast, inner) = match BatmanBroadcastPacket::ref_from_prefix(frame.payload) {
            Some(parts) => parts,
            None => {
                return RoutingAction::Consumed;
            },
        };
        if bcast.orig == self.self_ident {
            return RoutingAction::Consumed;
        }
        if !self.note_broadcast(bcast.orig, bcast.seqno) {
            return RoutingAction::Consumed;
        }
        if bcast.ttl <= 1 {
            return RoutingAction::DeliverLocal;
        }
        let mut outbound = bcast;
        outbound.ttl = bcast.ttl - 1;
        if frame.payload.len() <= reply.payload.len() {
            let header: [u8; 13] = outbound.as_bytes();
            fill_reply(reply, Mac::broadcast(), &header, inner);
        } else {
            self.note_relay_oversize_drop();
        }
        RoutingAction::DeliverLocalAndForward(Mac::broadcast())
    }

    /// Relay a packet toward the next live hop for `dest`: `header`, with its
    /// hop already taken off, in front of what followed it on arrival.
    fn relay(
        &mut self,
        now: Duration,
        dest: Mac,
        header: &[u8],
        inner: &[u8],
        reply: &mut LinkFrameDataMut<'_>,
    )
        requires
            old(self).wf(),
            header@.len() + inner@.len() <= usize::MAX,
        ensures
            final(self).wf(),
            match live_hop(old(self)@, now, dest) {
                None => {
                    &&& final(self)@ == old(self)@
                    &&& final(reply).dst == old(reply).dst
                    &&& final(reply).protocol == old(reply).protocol
                    &&& final(reply).payload@ == old(reply).payload@
                },
                Some(next) => if header@.len() + inner@.len() <= old(reply).payload@.len() {
                    &&& final(self)@ == old(self)@
                    &&& final(reply).dst == next
                    &&& final(reply).protocol == ETH_P_BATMAN
                    &&& final(reply).payload@ == overlay(
                        old(reply).payload@,
                        0,
                        header@ + inner@,
                    )
                } else {
                    &&& final(self)@ == (EngineState {
                        relay_oversize_drops: bumped(old(self)@.relay_oversize_drops),
                        ..old(self)@
                    })
                    &&& final(reply).dst == old(reply).dst
                    &&& final(reply).protocol == old(reply).protocol
                    &&& final(reply).payload@ == old(reply).payload@
                },
            },
    {
        if let Some(next) = self.next_hop(now, dest) {
            if header.len() + inner.len() <= reply.payload.len() {
                fill_reply(reply, next, header, inner);
            } else {
                self.note_relay_oversize_drop();
            }
        }
    }

    /// Route an incoming unicast: deliver it here when it is addressed to us,
    /// otherwise relay it.
    fn handle_unicast(
        &mut self,
        now: Duration,
        frame: &LinkFrame<'_>,
        reply: &mut LinkFrameDataMut<'_>,
    ) -> (action: RoutingAction)
        requires
            old(self).wf(),
        ensures
            final(self).wf(),
            (Step {
                state: final(self)@,
                action,
                reply: Reply {
                    dst: final(reply).dst,
                    protocol: final(reply).protocol,
                    payload: final(reply).payload@,
                },
            }) == directed_step(
                old(self)@,
                now,
                frame.payload@,
                Reply {
                    dst: old(reply).dst,
                    protocol: old(reply).protocol,
                    payload: old(reply).payload@,
                },
            ),
    {
        let (hdr, inner) = match BatmanUnicastPacket::ref_from_prefix(frame.payload) {
            Some(parts) => parts,
            None => {
                return RoutingAction::Consumed;
            },
        };
        if hdr.dest == self.self_ident {
            return RoutingAction::DeliverLocal;
        }
        if hdr.ttl <= 1 {
            return RoutingAction::Consumed;
        }
        let mut outbound = hdr;
        outbound.ttl = hdr.ttl - 1;
        let header: [u8; 9] = outbound.as_bytes();
        assert(frame.payload.len() == frame.payload@.len());
        self.relay(now, hdr.dest, &header, inner, reply);
        RoutingAction::Consumed
    }

    /// Route an incoming multicast copy: deliver it here when we are the listener
    /// it is addressed to, otherwise relay it.
    fn handle_mcast(
        &mut self,
        now: Duration,
        frame: &LinkFrame<'_>,
        reply: &mut LinkFrameDataMut<'_>,
    ) -> (action: RoutingAction)
        requires
            old(self).wf(),
        ensures
            final(self).wf(),
            (Step {
                state: final(self)@,
                action,
                reply: Reply {
                    dst: final(reply).dst,
                    protocol: final(reply).protocol,
                    payload: final(reply).payload@,
                },
            }) == directed_step(
                old(self)@,
                now,
                frame.payload@,
                Reply {
                    dst: old(reply).dst,
                    protocol: old(reply).protocol,
                    payload: old(reply).payload@,
                },
            ),
    {
        let (hdr, inner) = match BatmanMcastPacket::ref_from_prefix(frame.payload) {
            Some(parts) => parts,
            None => {
                return RoutingAction::Consumed;
            },
        };
        if hdr.dest == self.self_ident {
            return RoutingAction::DeliverLocal;
        }
        if hdr.ttl <= 1 {
            return RoutingAction::Consumed;
        }
        let mut outbound = hdr;
        outbound.ttl = hdr.ttl - 1;
        let header: [u8; 9] = outbound.as_bytes();
        assert(frame.payload.len() == frame.payload@.len());
        self.relay(now, hdr.dest, &header, inner, reply);
        RoutingAction::Consumed
    }

    /// Route an incoming certificate request: deliver it here when it asks for our
    /// certificate, otherwise relay it.
    fn handle_cert_req(
        &mut self,
        now: Duration,
        frame: &LinkFrame<'_>,
        reply: &mut LinkFrameDataMut<'_>,
    ) -> (action: RoutingAction)
        requires
            old(self).wf(),
        ensures
            final(self).wf(),
            (Step {
                state: final(self)@,
                action,
                reply: Reply {
                    dst: final(reply).dst,
                    protocol: final(reply).protocol,
                    payload: final(reply).payload@,
                },
            }) == directed_step(
                old(self)@,
                now,
                frame.payload@,
                Reply {
                    dst: old(reply).dst,
                    protocol: old(reply).protocol,
                    payload: old(reply).payload@,
                },
            ),
    {
        let (hdr, inner) = match BatmanCertReqPacket::ref_from_prefix(frame.payload) {
            Some(parts) => parts,
            None => {
                return RoutingAction::Consumed;
            },
        };
        if hdr.dest == self.self_ident {
            return RoutingAction::DeliverLocal;
        }
        if hdr.ttl <= 1 {
            return RoutingAction::Consumed;
        }
        let mut outbound = hdr;
        outbound.ttl = hdr.ttl - 1;
        let header: [u8; 9] = outbound.as_bytes();
        assert(frame.payload.len() == frame.payload@.len());
        self.relay(now, hdr.dest, &header, inner, reply);
        RoutingAction::Consumed
    }

    /// Route an incoming certificate reply: deliver it here when it answers our
    /// request, otherwise relay it.
    fn handle_cert_reply(
        &mut self,
        now: Duration,
        frame: &LinkFrame<'_>,
        reply: &mut LinkFrameDataMut<'_>,
    ) -> (action: RoutingAction)
        requires
            old(self).wf(),
        ensures
            final(self).wf(),
            (Step {
                state: final(self)@,
                action,
                reply: Reply {
                    dst: final(reply).dst,
                    protocol: final(reply).protocol,
                    payload: final(reply).payload@,
                },
            }) == directed_step(
                old(self)@,
                now,
                frame.payload@,
                Reply {
                    dst: old(reply).dst,
                    protocol: old(reply).protocol,
                    payload: old(reply).payload@,
                },
            ),
    {
        let (hdr, inner) = match BatmanCertReplyPacket::ref_from_prefix(frame.payload) {
            Some(parts) => parts,
            None => {
                return RoutingAction::Consumed;
            },
        };
        if hdr.dest == self.self_ident {
            return RoutingAction::DeliverLocal;
        }
        if hdr.ttl <= 1 {
            return RoutingAction::Consumed;
        }
        let mut outbound = hdr;
        outbound.ttl = hdr.ttl - 1;
        let header: [u8; 9] = outbound.as_bytes();
        assert(frame.payload.len() == frame.payload@.len());
        self.relay(now, hdr.dest, &header, inner, reply);
        RoutingAction::Consumed
    }

    /// Route a BATMAN frame of no known type by its link-layer destination.
    fn route_by_dest(&self, now: Duration, frame: &LinkFrame<'_>) -> (action: RoutingAction)
        requires
            self.wf(),
        ensures
            action == by_dest_action(self@, now, frame.dst),
    {
        if frame.dst == self.self_ident {
            RoutingAction::DeliverLocal
        } else if let Some(next) = self.next_hop(now, frame.dst) {
            RoutingAction::ForwardTo(next)
        } else {
            RoutingAction::Consumed
        }
    }

    /// Ingest a received frame: update the tables, write any frame to send
    /// onward into `reply`, and say what to do with the received one.
    pub fn handle_rx(
        &mut self,
        now: Duration,
        frame: &LinkFrame<'_>,
        local_quality: Option<u8>,
        reply: &mut LinkFrameDataMut<'_>,
    ) -> (action: RoutingAction)
        requires
            old(self).wf(),
            old(self)@.can_reset(now),
        ensures
            final(self).wf(),
            (Step {
                state: final(self)@,
                action,
                reply: Reply {
                    dst: final(reply).dst,
                    protocol: final(reply).protocol,
                    payload: final(reply).payload@,
                },
            }) == rx_step(
                old(self)@,
                Self::caps(),
                now,
                frame.src,
                frame.dst,
                frame.protocol,
                frame.payload@,
                local_quality,
                Reply {
                    dst: old(reply).dst,
                    protocol: old(reply).protocol,
                    payload: old(reply).payload@,
                },
            ),
    {
        if frame.protocol != ETH_P_BATMAN || frame.payload.len() == 0 {
            return RoutingAction::Consumed;
        }
        let kind: u8 = frame.payload[0];
        if kind == BATADV_IV_OGM {
            self.handle_ogm(now, frame, local_quality, reply)
        } else if kind == BATADV_BCAST {
            self.handle_broadcast(frame, reply)
        } else if kind == BATADV_UNICAST {
            self.handle_unicast(now, frame, reply)
        } else if kind == BATADV_MCAST {
            self.handle_mcast(now, frame, reply)
        } else if kind == BATADV_CERT_REQ {
            self.handle_cert_req(now, frame, reply)
        } else if kind == BATADV_CERT_REPLY {
            self.handle_cert_reply(now, frame, reply)
        } else if kind == BATADV_KEEPALIVE {
            let action = self.handle_keepalive(now, frame);
            proof {
                let r = Reply {
                    dst: reply.dst,
                    protocol: reply.protocol,
                    payload: reply.payload@,
                };
                assert((Step { state: self@, action, reply: r }) == keepalive_step(
                    old(self)@,
                    Self::caps(),
                    now,
                    frame.src,
                    frame.payload@,
                    r,
                ));
            }
            action
        } else {
            self.route_by_dest(now, frame)
        }
    }
}

/// A broadcast record found in a prefix is the one found in the whole.
proof fn first_seen_extends(seen: Seq<(Mac, u32)>, orig: Mac, n: int)
    requires
        0 <= n <= seen.len(),
        first_seen(seen.take(n), orig) is Some,
    ensures
        first_seen(seen, orig) == first_seen(seen.take(n), orig),
    decreases seen.len() - n,
{
    if n < seen.len() {
        assert(seen.take(n + 1).drop_last() =~= seen.take(n));
        first_seen_extends(seen, orig, n + 1);
    } else {
        assert(seen.take(n) =~= seen);
    }
}

} // verus!
