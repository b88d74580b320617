//! The BATMAN routing engine: its tables and schedules.

use vstd::prelude::*;

use crate::batman::learning::next_hop_is_the_best_live_neighbor;
use crate::batman::learning::paths_to;
use crate::batman::learning::promises_most;
use crate::batman::model::best_live_path;
use crate::batman::model::best_neighbor_is_cached;
use crate::batman::model::effective_quality;
use crate::batman::model::is_best_neighbor;
use crate::batman::model::jitter_seed_of;
use crate::batman::model::listeners_of;
use crate::batman::model::live_hop;
use crate::batman::model::missed_keepalive;
use crate::batman::model::padded;
use crate::batman::model::place;
use crate::batman::model::place_is;
use crate::batman::model::schedule_of;
use crate::batman::model::sound_route;
use crate::batman::model::Capacities;
use crate::batman::model::EngineState;
use crate::batman::relaying::listeners_are_those_listed;
use crate::batman::tables::all_armed;
use crate::batman::tables::armed;
use crate::batman::tables::is_stale;
use crate::batman::tables::keepalive_seed;
use crate::batman::tables::longest_i_max;
use crate::batman::tables::most_overdue;
use crate::batman::tables::most_overdue_is_due;
use crate::batman::tables::ogm_seed;
use crate::batman::tables::path_is_stale;
use crate::batman::tables::path_stale;
use crate::batman::tables::sleep_lasts_until_the_first_fire;
use crate::batman::tables::sleep_lasts_until_the_first_set_fires;
use crate::batman::tables::sleep_time;
use crate::batman::tables::soonest;
use crate::batman::tables::KeepAliveStats;
use crate::batman::tables::NeighborStats;
use crate::batman::tables::OgmScheduleEntry;
use crate::batman::tables::OriginatorRecord;
use crate::batman::tables::Route;
use crate::batman::tables::DEFAULT_KEEPALIVE_INTERVAL_NANOS;
use crate::batman::tables::DEFAULT_OGM_INTERVAL_NANOS;
use crate::batman::tables::IDLE_SECS;
use crate::batman::tables::MAX_MISSED_KEEPALIVES;
use crate::batman::trickle::emission_backs_off;
use crate::batman::trickle::first_state;
use crate::batman::trickle::jitter_in_window;
use crate::batman::trickle::xorshift32;
use crate::batman::trickle::TrickleTimer;
use crate::bounded::distinct_keys;
use crate::bounded::has_key;
use crate::bounded::swap_removed;
use crate::bounded::BoundedVec;
use crate::bounded::MacTable;
use crate::bounded::MAX_TABLE_LEN;
use crate::frame::Mac;
use crate::time::Duration;

verus! {

/// The routing engine: an originator table, broadcast dedup state, multicast
/// membership tables, heartbeats and per-interface emission schedules, each in
/// storage of a fixed capacity.  `MAX_ORIGINATORS` must be a power of two above
/// one, and at most [`MAX_TABLE_LEN`].
pub struct BatmanEngine<
    const MAX_ORIGINATORS: usize,
    const MAX_INTERFACES: usize,
    const MAX_MCAST_MEMBERS: usize,
    const MAX_LOCAL_MCAST: usize,
> {
    /// This node's own address; OGMs and broadcasts it originated are dropped
    /// when they come back.
    pub self_ident: Mac,
    /// Sequence number stamped on OGMs this node originates.
    pub sequence_number: u32,
    /// Sequence number stamped on broadcasts this node originates, a number
    /// space of its own.
    pub broadcast_sequence_number: u32,
    /// Routes to every known originator.  When full, a newly heard originator
    /// takes the place of the one heard longest ago.
    pub originator_table: MacTable<OriginatorRecord, MAX_ORIGINATORS>,
    /// Highest broadcast sequence number seen per originator.  When full,
    /// broadcasts of further originators are dropped.
    pub broadcast_seqno: BoundedVec<(Mac, u32), MAX_ORIGINATORS>,
    /// Multicast groups the local host currently listens to.
    pub local_mcast: BoundedVec<Mac, MAX_LOCAL_MCAST>,
    /// `(group, listener)` memberships learned from other nodes' OGMs.
    pub mcast_members: BoundedVec<(Mac, Mac), MAX_MCAST_MEMBERS>,
    /// Per-interface adaptive OGM emission schedules, by interface index.
    pub ogm_timers: BoundedVec<TrickleTimer, MAX_INTERFACES>,
    /// Per-neighbor heartbeats, for neighbors one has been heard from.  When
    /// full, a newly heard neighbor takes the place of the one heard longest
    /// ago.
    pub keepalive: MacTable<KeepAliveStats, MAX_ORIGINATORS>,
    /// Per-interface keep-alive schedules, by interface index; `None` where the
    /// interface never transmits keep-alives.
    pub keepalive_timers: BoundedVec<Option<TrickleTimer>, MAX_INTERFACES>,
    /// A topology change not yet acted on.
    pub topology_changed: bool,
    /// Relayed frames dropped because they did not fit the reply.
    pub relay_oversize_drops: u32,
}

/// A table of records, each seen as a route.
pub open spec fn routes_of(table: Seq<(Mac, OriginatorRecord)>) -> Seq<(Mac, Route)> {
    table.map_values(|e: (Mac, OriginatorRecord)| (e.0, e.1@))
}

/// A table whose routes have distinct keys has distinct keys.
pub(crate) proof fn table_keys_distinct(table: Seq<(Mac, OriginatorRecord)>)
    requires
        distinct_keys(routes_of(table)),
    ensures
        distinct_keys(table),
{
    let routes = routes_of(table);
    assert forall|i: int, j: int| 0 <= i < j < table.len() implies (#[trigger] table[i]).0 != (
    #[trigger] table[j]).0 by {
        assert(routes[i].0 == table[i].0 && routes[j].0 == table[j].0);
    }
}

/// Changing the table and viewing it as routes go together.
pub(crate) proof fn routes_follow(table: Seq<(Mac, OriginatorRecord)>)
    ensures
        forall|i: int, k: Mac, r: OriginatorRecord|
            0 <= i < table.len() ==> #[trigger] routes_of(table.update(i, (k, r))) == routes_of(
                table,
            ).update(i, (k, r@)),
        forall|i: int|
            0 <= i < table.len() ==> #[trigger] routes_of(table.remove(i)) == routes_of(
                table,
            ).remove(i),
        forall|i: int|
            0 <= i < table.len() ==> #[trigger] routes_of(swap_removed(table, i)) == swap_removed(
                routes_of(table),
                i,
            ),
        forall|k: Mac, r: OriginatorRecord| #[trigger]
            routes_of(table.push((k, r))) == routes_of(table).push((k, r@)),
{
    assert forall|i: int, k: Mac, r: OriginatorRecord|
        0 <= i < table.len() implies #[trigger] routes_of(table.update(i, (k, r))) == routes_of(
        table,
    ).update(i, (k, r@)) by {
        assert(routes_of(table.update(i, (k, r))) =~= routes_of(table).update(i, (k, r@)));
    }
    assert forall|i: int| 0 <= i < table.len() implies #[trigger] routes_of(table.remove(i))
        == routes_of(table).remove(i) by {
        assert(routes_of(table.remove(i)) =~= routes_of(table).remove(i));
    }
    assert forall|i: int| 0 <= i < table.len() implies #[trigger] routes_of(
        swap_removed(table, i),
    ) == swap_removed(routes_of(table), i) by {
        assert(routes_of(swap_removed(table, i)) =~= swap_removed(routes_of(table), i));
    }
    assert forall|k: Mac, r: OriginatorRecord| #[trigger]
        routes_of(table.push((k, r))) == routes_of(table).push((k, r@)) by {
        assert(routes_of(table.push((k, r))) =~= routes_of(table).push((k, r@)));
    }
}

impl<
    const MAX_ORIGINATORS: usize,
    const MAX_INTERFACES: usize,
    const MAX_MCAST_MEMBERS: usize,
    const MAX_LOCAL_MCAST: usize,
> View for BatmanEngine<MAX_ORIGINATORS, MAX_INTERFACES, MAX_MCAST_MEMBERS, MAX_LOCAL_MCAST> {
    type V = EngineState;

    open spec fn view(&self) -> EngineState {
        EngineState {
            self_ident: self.self_ident,
            sequence_number: self.sequence_number,
            broadcast_sequence_number: self.broadcast_sequence_number,
            routes: routes_of(self.originator_table@),
            broadcast_seqno: self.broadcast_seqno@,
            local_mcast: self.local_mcast@,
            mcast_members: self.mcast_members@,
            ogm_timers: self.ogm_timers@,
            keepalive: self.keepalive@,
            keepalive_timers: self.keepalive_timers@,
            topology_changed: self.topology_changed,
            relay_oversize_drops: self.relay_oversize_drops,
        }
    }
}

impl<
    const MAX_ORIGINATORS: usize,
    const MAX_INTERFACES: usize,
    const MAX_MCAST_MEMBERS: usize,
    const MAX_LOCAL_MCAST: usize,
> BatmanEngine<MAX_ORIGINATORS, MAX_INTERFACES, MAX_MCAST_MEMBERS, MAX_LOCAL_MCAST> {
    /// The capacities this engine was built with.
    pub open spec fn caps() -> Capacities {
        Capacities {
            originators: MAX_ORIGINATORS as nat,
            interfaces: MAX_INTERFACES as nat,
            mcast_members: MAX_MCAST_MEMBERS as nat,
            local_mcast: MAX_LOCAL_MCAST as nat,
        }
    }

    /// The tables are sound.
    pub open spec fn wf(&self) -> bool {
        self@.wf(Self::caps()) && 1 < MAX_ORIGINATORS <= MAX_TABLE_LEN
    }

    /// Create an engine for a node with address `self_ident` that has learned
    /// nothing.
    pub fn new(self_ident: Mac) -> (e: Self)
        requires
            1 < MAX_ORIGINATORS <= MAX_TABLE_LEN,
        ensures
            e@ == EngineState::initial(self_ident),
            e.wf(),
    {
        let e = BatmanEngine {
            self_ident,
            sequence_number: 0,
            broadcast_sequence_number: 0,
            originator_table: MacTable::new(),
            broadcast_seqno: BoundedVec::new(),
            local_mcast: BoundedVec::new(),
            mcast_members: BoundedVec::new(),
            ogm_timers: BoundedVec::new(),
            keepalive: MacTable::new(),
            keepalive_timers: BoundedVec::new(),
            topology_changed: false,
            relay_oversize_drops: 0,
        };
        assert(e@ =~= EngineState::initial(self_ident));
        e
    }

    /// Allocate the next sequence number for a broadcast this node originates,
    /// wrapping round at the end.
    pub fn next_broadcast_seqno(&mut self) -> (n: u32)
        ensures
            n == (if old(self)@.broadcast_sequence_number == u32::MAX {
                0u32
            } else {
                (old(self)@.broadcast_sequence_number + 1) as u32
            }),
            (n - old(self)@.broadcast_sequence_number - 1) % 0x1_0000_0000 == 0,
            final(self)@ == (EngineState { broadcast_sequence_number: n, ..old(self)@ }),
    {
        self.broadcast_sequence_number = self.broadcast_sequence_number.wrapping_add(1);
        self.broadcast_sequence_number
    }

    /// Number of relayed frames dropped because they did not fit the reply.
    pub fn relay_oversize_drops(&self) -> (n: u32)
        ensures
            n == self@.relay_oversize_drops,
    {
        self.relay_oversize_drops
    }

    /// The cached next hop toward a destination, where a route is known.
    pub fn lookup_route(&self, destination: Mac) -> (hop: Option<Mac>)
        requires
            self.wf(),
        ensures
            hop == (if has_key(self@.routes, destination) {
                Some(self@.routes[place(self@.routes, destination)].1.best_next_hop)
            } else {
                None
            }),
            forall|i: int|
                hop is Some && 0 <= i < self@.routes.len() && (#[trigger] self@.routes[i]).0
                    == destination && self@.routes[i].1.paths.len() > 0 ==> is_best_neighbor(
                    self@.routes[i].1,
                    hop->0,
                ),
    {
        match self.originator_table.index_of(destination) {
            Some(at) => {
                proof {
                    self.table_place(destination, at as int);
                    assert(sound_route(self@.routes[at as int]));
                    best_neighbor_is_cached(self@.routes[at as int].1);
                    assert forall|i: int|
                        0 <= i < self@.routes.len() && (#[trigger] self@.routes[i]).0
                            == destination implies i == at by {
                        place_is(self@.routes, destination, i);
                    }
                }
                match self.originator_table.entry_at(at) {
                    Some((_, record)) => Some(record.best_next_hop),
                    None => None,
                }
            },
            None => {
                proof {
                    self.table_absent(destination);
                }
                None
            },
        }
    }

    /// An entry of the table stands at the key's place among the routes.
    pub(crate) proof fn table_place(&self, key: Mac, at: int)
        requires
            self.wf(),
            0 <= at < self.originator_table@.len(),
            self.originator_table@[at].0 == key,
        ensures
            has_key(self@.routes, key),
            place(self@.routes, key) == at,
            self@.routes[at] == (key, self.originator_table@[at].1@),
            at < self@.routes.len(),
    {
        assert(self@.routes[at].0 == key);
        place_is(self@.routes, key, at);
    }

    /// A key not in the table is not among the routes.
    pub(crate) proof fn table_absent(&self, key: Mac)
        requires
            !has_key(self.originator_table@, key),
        ensures
            !has_key(self@.routes, key),
    {
        assert forall|i: int| 0 <= i < self@.routes.len() implies (
        #[trigger] self@.routes[i]).0 != key by {
            assert(self.originator_table@[i].0 != key);
        }
    }

    /// The expected OGM interval of a path not yet measured.
    pub(crate) fn seed_interval(&self) -> (d: Duration)
        ensures
            d == ogm_seed(self@.ogm_timers),
    {
        let timers = self.ogm_timers.items();
        let n: usize = timers.len();
        let mut best: Option<Duration> = None;
        let mut i: usize = 0;
        while i < n
            invariant
                i <= n,
                n == timers@.len(),
                best == longest_i_max(timers@.take(i as int)),
            decreases n - i,
        {
            let d = timers[i].i_max();
            assert(timers@.take(i as int + 1).drop_last() =~= timers@.take(i as int));
            best = match best {
                None => Some(d),
                Some(b) => Some(b.max(d)),
            };
            i = i + 1;
        }
        assert(timers@.take(n as int) =~= timers@);
        match best {
            None => Duration::from_nanos(DEFAULT_OGM_INTERVAL_NANOS),
            Some(d) => d,
        }
    }

    /// The expected keep-alive interval of a neighbor not yet measured.
    pub(crate) fn keepalive_seed_interval(&self) -> (d: Duration)
        ensures
            d == keepalive_seed(self@.keepalive_timers),
    {
        let timers = self.keepalive_timers.items();
        let n: usize = timers.len();
        let mut best: Option<Duration> = None;
        let mut i: usize = 0;
        while i < n
            invariant
                i <= n,
                n == timers@.len(),
                best == longest_i_max(armed(timers@.take(i as int))),
            decreases n - i,
        {
            assert(timers@.take(i as int + 1).drop_last() =~= timers@.take(i as int));
            if let Some(t) = &timers[i] {
                let d = t.i_max();
                assert(armed(timers@.take(i as int + 1)).drop_last() =~= armed(
                    timers@.take(i as int),
                ));
                best = match best {
                    None => Some(d),
                    Some(b) => Some(b.max(d)),
                };
            }
            i = i + 1;
        }
        assert(timers@.take(n as int) =~= timers@);
        match best {
            None => Duration::from_nanos(DEFAULT_KEEPALIVE_INTERVAL_NANOS),
            Some(d) => d,
        }
    }

    /// Whether `neighbor` has missed its keep-alive budget as of `now`.  A
    /// neighbor no keep-alive was ever heard from has missed nothing.
    pub fn keepalive_missed(&self, now: Duration, neighbor: Mac) -> (missed: bool)
        requires
            self.wf(),
        ensures
            missed == missed_keepalive(self@, now, neighbor),
    {
        match self.keepalive.index_of(neighbor) {
            None => false,
            Some(at) => {
                proof {
                    place_is(self@.keepalive, neighbor, at as int);
                }
                match self.keepalive.entry_at(at) {
                    None => false,
                    Some((_, stats)) => is_stale(
                        now,
                        stats.last_heard,
                        stats.interval_estimate,
                        self.keepalive_seed_interval(),
                        MAX_MISSED_KEEPALIVES,
                    ),
                }
            },
        }
    }

    /// A path's quality for choosing a next hop: none while its neighbor has
    /// missed its keep-alive budget.
    fn effective_tq(&self, now: Duration, path: &NeighborStats) -> (tq: u8)
        requires
            self.wf(),
        ensures
            tq == effective_quality(self@, now, *path),
    {
        if self.keepalive_missed(now, path.neighbor_ident) {
            0
        } else {
            path.last_tq
        }
    }

    /// The best next hop toward `destination` as of `now` over paths that are
    /// not stale, or `None` when the destination is unknown or every path to it
    /// is stale.
    pub fn next_hop(&self, now: Duration, destination: Mac) -> (hop: Option<Mac>)
        requires
            self.wf(),
        ensures
            hop == live_hop(self@, now, destination),
            hop matches Some(neighbor) ==> exists|b: int|
                0 <= b < paths_to(self@, destination).len() && (#[trigger] paths_to(
                    self@,
                    destination,
                )[b]).neighbor_ident == neighbor && !path_is_stale(
                    now,
                    paths_to(self@, destination)[b],
                    ogm_seed(self@.ogm_timers),
                ) && promises_most(self@, now, paths_to(self@, destination), b),
            hop is None ==> forall|i: int|
                0 <= i < paths_to(self@, destination).len() ==> path_is_stale(
                    now,
                    #[trigger] paths_to(self@, destination)[i],
                    ogm_seed(self@.ogm_timers),
                ),
    {
        proof {
            next_hop_is_the_best_live_neighbor(self@, now, destination);
        }
        let seed = self.seed_interval();
        let at: usize = match self.originator_table.index_of(destination) {
            Some(at) => at,
            None => {
                proof {
                    self.table_absent(destination);
                }
                return None;
            },
        };
        proof {
            self.table_place(destination, at as int);
        }
        let record = match self.originator_table.entry_at(at) {
            Some((_, record)) => record,
            None => {
                return None;
            },
        };
        let paths = record.paths.items();
        let n: usize = paths.len();
        let mut best: Option<usize> = None;
        let mut best_tq: u8 = 0;
        let mut i: usize = 0;
        while i < n
            invariant
                i <= n,
                n == paths@.len(),
                self.wf(),
                seed == ogm_seed(self@.ogm_timers),
                match best_live_path(self@, now, paths@.take(i as int)) {
                    None => best is None,
                    Some(b) => best == Some(b as usize) && 0 <= b < i && best_tq
                        == effective_quality(self@, now, paths@[b]),
                },
            decreases n - i,
        {
            assert(paths@.take(i as int + 1).drop_last() =~= paths@.take(i as int));
            if !path_stale(now, &paths[i], seed) {
                let tq: u8 = self.effective_tq(now, &paths[i]);
                if best.is_none() || best_tq <= tq {
                    best = Some(i);
                    best_tq = tq;
                }
            }
            i = i + 1;
        }
        assert(paths@.take(n as int) =~= paths@);
        match best {
            Some(b) => Some(paths[b].neighbor_ident),
            None => None,
        }
    }

    /// Replace the set of multicast groups the local host listens to.  Groups
    /// beyond this engine's capacity are dropped.
    pub fn set_local_mcast_groups(&mut self, groups: &[Mac])
        ensures
            forall|i: int|
                0 <= i < groups@.len() && i < MAX_LOCAL_MCAST ==> i
                    < final(self)@.local_mcast.len() && #[trigger] final(self)@.local_mcast[i]
                    == groups@[i],
            final(self)@.local_mcast.len() <= groups@.len(),
            final(self)@ == (EngineState {
                local_mcast: groups@.take(
                    if groups@.len() <= MAX_LOCAL_MCAST {
                        groups@.len() as int
                    } else {
                        MAX_LOCAL_MCAST as int
                    },
                ),
                ..old(self)@
            }),
    {
        self.local_mcast.clear();
        let n: usize = groups.len();
        let mut i: usize = 0;
        while i < n && i < MAX_LOCAL_MCAST
            invariant
                i <= n,
                i <= MAX_LOCAL_MCAST,
                n == groups@.len(),
                self.local_mcast@ == groups@.take(i as int),
                self@ == (EngineState { local_mcast: groups@.take(i as int), ..old(self)@ }),
            decreases n - i,
        {
            let kept: bool = self.local_mcast.push(groups[i]);
            i = i + 1;
            assert(self.local_mcast@ =~= groups@.take(i as int));
        }
    }

    /// The multicast groups the local host currently listens to.
    pub fn local_mcast_groups(&self) -> (groups: &[Mac])
        ensures
            groups@ == self@.local_mcast,
    {
        self.local_mcast.as_slice()
    }

    /// The originators that have announced interest in `group`.
    pub fn mcast_listeners(&self, group: Mac) -> (listeners: Vec<Mac>)
        ensures
            listeners@ == listeners_of(self@.mcast_members, group),
            forall|m: Mac|
                listeners@.contains(m) <==> #[trigger] self@.mcast_members.contains((group, m)),
    {
        let members = self.mcast_members.items();
        let n: usize = members.len();
        let mut listeners: Vec<Mac> = Vec::new();
        let mut i: usize = 0;
        while i < n
            invariant
                i <= n,
                n == members@.len(),
                listeners@ == listeners_of(members@.take(i as int), group),
            decreases n - i,
        {
            assert(members@.take(i as int + 1).drop_last() =~= members@.take(i as int));
            if members[i].0 == group {
                listeners.push(members[i].1);
            }
            i = i + 1;
        }
        assert(members@.take(n as int) =~= members@);
        proof {
            listeners_are_those_listed(members@, group);
        }
        listeners
    }

    /// The jitter seed of interface `idx`'s schedule.
    fn jitter_seed(&self, idx: usize, salt: u32) -> (seed: u32)
        ensures
            seed == jitter_seed_of(self@.self_ident, idx as int, salt),
    {
        let o: [u8; 6] = self.self_ident.0;
        let word: u32 = o[2] as u32 + o[3] as u32 * 0x100 + o[4] as u32 * 0x1_0000 + o[5] as u32
            * 0x100_0000;
        let low: u32 = (idx as u64 % 0x1_0000_0000) as u32;
        let step: u32 = low.wrapping_mul(0x0100_0193);
        (word ^ step) ^ salt
    }

    /// Install (or replace) the adaptive OGM schedule of interface `idx`.
    /// Slots between the present end and `idx` are filled with the same
    /// schedule.  Interfaces at or beyond this engine's capacity are ignored.
    pub fn configure_interface_ogm(
        &mut self,
        idx: usize,
        i_min: Duration,
        i_max: Duration,
        now: Duration,
    )
        requires
            old(self).wf(),
            TrickleTimer::in_range(now, i_min.longer(Duration { nanos: 1 })),
        ensures
            final(self).wf(),
            final(self)@ == (if idx >= MAX_INTERFACES {
                old(self)@
            } else {
                let t = TrickleTimer::fresh(
                    i_min,
                    i_max,
                    now,
                    jitter_seed_of(old(self)@.self_ident, idx as int, 0),
                );
                EngineState {
                    ogm_timers: padded(old(self)@.ogm_timers, (idx + 1) as nat, t).update(
                        idx as int,
                        t,
                    ),
                    ..old(self)@
                }
            }),
            forall|j: int|
                0 <= j < old(self)@.ogm_timers.len() && j != idx
                    ==> #[trigger] final(self)@.ogm_timers[j] == old(self)@.ogm_timers[j],
            idx < MAX_INTERFACES && 0 < i_min.nanos <= i_max.nanos ==> {
                let t = final(self)@.ogm_timers[idx as int];
                &&& t.i_min == i_min
                &&& t.i_max == i_max
                &&& t.interval == i_min
                &&& now.nanos + i_min.nanos / 2 <= t.next_fire.nanos < now.nanos + i_min.nanos
            },
    {
        if idx >= MAX_INTERFACES {
            return;
        }
        let seed: u32 = self.jitter_seed(idx, 0);
        let timer = TrickleTimer::new(i_min, i_max, now, seed);
        proof {
            jitter_in_window(xorshift32(first_state(seed)), timer.i_min);
        }
        backfill(&mut self.ogm_timers, idx, timer);
        let timers = self.ogm_timers.items_mut();
        timers[idx] = timer;
        assert(self@.ogm_timers =~= padded(old(self)@.ogm_timers, (idx + 1) as nat, timer).update(
            idx as int,
            timer,
        ));
    }

    /// Install (or replace) interface `idx`'s keep-alive schedule: a fixed
    /// cadence, or none.  Slots between the present end and `idx` are filled
    /// with none.  Interfaces at or beyond this engine's capacity are ignored.
    pub fn configure_interface_keepalive(
        &mut self,
        idx: usize,
        interval: Option<Duration>,
        now: Duration,
    )
        requires
            old(self).wf(),
            interval matches Some(iv) ==> TrickleTimer::in_range(
                now,
                iv.longer(Duration { nanos: 1 }),
            ),
        ensures
            final(self).wf(),
            final(self)@ == (if idx >= MAX_INTERFACES {
                old(self)@
            } else {
                let seed = jitter_seed_of(old(self)@.self_ident, idx as int, 0x9e37_79b9);
                let t = match interval {
                    Some(iv) => Some(TrickleTimer::fresh(iv, iv, now, seed)),
                    None => None,
                };
                EngineState {
                    keepalive_timers: padded(
                        old(self)@.keepalive_timers,
                        (idx + 1) as nat,
                        None,
                    ).update(idx as int, t),
                    ..old(self)@
                }
            }),
            forall|j: int|
                0 <= j < old(self)@.keepalive_timers.len() && j != idx
                    ==> #[trigger] final(self)@.keepalive_timers[j] == old(
                    self,
                )@.keepalive_timers[j],
            idx < MAX_INTERFACES ==> (final(self)@.keepalive_timers[idx as int] is Some) == (
            interval is Some),
            idx < MAX_INTERFACES && interval is Some && interval->0.nanos > 0 ==> {
                let t = final(self)@.keepalive_timers[idx as int]->0;
                &&& t.i_min == interval->0
                &&& t.i_max == interval->0
                &&& t.interval == interval->0
            },
    {
        if idx >= MAX_INTERFACES {
            return;
        }
        let seed: u32 = self.jitter_seed(idx, 0x9e37_79b9);
        let timer: Option<TrickleTimer> = match interval {
            Some(iv) => Some(TrickleTimer::new(iv, iv, now, seed)),
            None => None,
        };
        backfill(&mut self.keepalive_timers, idx, None);
        let timers = self.keepalive_timers.items_mut();
        timers[idx] = timer;
        assert(self@.keepalive_timers =~= padded(
            old(self)@.keepalive_timers,
            (idx + 1) as nat,
            None,
        ).update(idx as int, timer));
    }

    /// Time until the soonest interface is next due to emit an OGM; a long idle
    /// interval when none is configured.
    pub fn next_broadcast_after(&self, now: Duration) -> (d: Duration)
        ensures
            d == sleep_time(self@.ogm_timers, now),
            forall|i: int|
                0 <= i < self@.ogm_timers.len() ==> d.nanos == 0 || now.nanos + d.nanos <= (
                #[trigger] self@.ogm_timers[i]).next_fire.nanos,
            forall|i: int|
                0 <= i < self@.ogm_timers.len() && (
                #[trigger] self@.ogm_timers[i]).next_fire.nanos <= now.nanos ==> d.nanos == 0,
            self@.ogm_timers.len() > 0 && d.nanos > 0 ==> exists|i: int|
                0 <= i < self@.ogm_timers.len() && (
                #[trigger] self@.ogm_timers[i]).next_fire.nanos == now.nanos + d.nanos,
    {
        let timers = self.ogm_timers.items();
        let n: usize = timers.len();
        let mut best: Option<Duration> = None;
        let mut i: usize = 0;
        while i < n
            invariant
                i <= n,
                n == timers@.len(),
                best == soonest(timers@.take(i as int), now),
            decreases n - i,
        {
            assert(timers@.take(i as int + 1).drop_last() =~= timers@.take(i as int));
            let d = timers[i].time_until(now);
            best = match best {
                None => Some(d),
                Some(b) => Some(b.min(d)),
            };
            i = i + 1;
        }
        assert(timers@.take(n as int) =~= timers@);
        proof {
            sleep_lasts_until_the_first_fire(timers@, now);
        }
        match best {
            None => Duration::from_secs(IDLE_SECS),
            Some(d) => d,
        }
    }

    /// Time until the soonest interface is next due to emit a keep-alive; a long
    /// idle interval when none is configured.
    pub fn next_keepalive_after(&self, now: Duration) -> (d: Duration)
        ensures
            d == sleep_time(armed(self@.keepalive_timers), now),
            forall|i: int|
                0 <= i < self@.keepalive_timers.len() && (
                #[trigger] self@.keepalive_timers[i]) is Some ==> d.nanos == 0 || now.nanos
                    + d.nanos <= self@.keepalive_timers[i]->0.next_fire.nanos,
            forall|i: int|
                0 <= i < self@.keepalive_timers.len() && (
                #[trigger] self@.keepalive_timers[i]) is Some
                    && self@.keepalive_timers[i]->0.next_fire.nanos <= now.nanos ==> d.nanos == 0,
    {
        let timers = self.keepalive_timers.items();
        let n: usize = timers.len();
        let mut best: Option<Duration> = None;
        let mut i: usize = 0;
        while i < n
            invariant
                i <= n,
                n == timers@.len(),
                best == soonest(armed(timers@.take(i as int)), now),
            decreases n - i,
        {
            assert(timers@.take(i as int + 1).drop_last() =~= timers@.take(i as int));
            if let Some(t) = &timers[i] {
                assert(armed(timers@.take(i as int + 1)).drop_last() =~= armed(
                    timers@.take(i as int),
                ));
                let d = t.time_until(now);
                best = match best {
                    None => Some(d),
                    Some(b) => Some(b.min(d)),
                };
            }
            i = i + 1;
        }
        assert(timers@.take(n as int) =~= timers@);
        proof {
            sleep_lasts_until_the_first_set_fires(timers@, now);
        }
        match best {
            None => Duration::from_secs(IDLE_SECS),
            Some(d) => d,
        }
    }

    /// The interface most overdue to emit an OGM as of `now`, the first of
    /// several due at the same instant, or `None` when none is due.
    pub fn due_interface(&self, now: Duration) -> (idx: Option<usize>)
        ensures
            match most_overdue(all_armed(self@.ogm_timers), now) {
                Some(b) => idx == Some(b as usize) && 0 <= b < self@.ogm_timers.len(),
                None => idx is None,
            },
            idx matches Some(b) ==> self@.ogm_timers[b as int].next_fire.nanos <= now.nanos,
            forall|i: int|
                0 <= i < self@.ogm_timers.len() && (
                #[trigger] self@.ogm_timers[i]).next_fire.nanos <= now.nanos ==> idx is Some
                    && self@.ogm_timers[idx->0 as int].next_fire.nanos
                    <= self@.ogm_timers[i].next_fire.nanos,
    {
        let timers = self.ogm_timers.items();
        let n: usize = timers.len();
        let ghost bank = all_armed(timers@);
        let mut best: Option<usize> = None;
        let mut i: usize = 0;
        while i < n
            invariant
                i <= n,
                n == timers@.len(),
                bank == all_armed(timers@),
                match most_overdue(bank.take(i as int), now) {
                    None => best is None,
                    Some(b) => best == Some(b as usize) && 0 <= b < i,
                },
            decreases n - i,
        {
            assert(bank.take(i as int + 1).drop_last() =~= bank.take(i as int));
            assert(bank.take(i as int + 1).last() == Some(timers@[i as int]));
            if timers[i].due(now) {
                match best {
                    None => {
                        best = Some(i);
                    },
                    Some(b) => {
                        assert(bank.take(i as int + 1)[b as int] == Some(timers@[b as int]));
                        if timers[i].next_fire.nanos < timers[b].next_fire.nanos {
                            best = Some(i);
                        }
                    },
                }
            }
            i = i + 1;
        }
        assert(bank.take(n as int) =~= bank);
        proof {
            most_overdue_is_due(bank, now);
            assert forall|i: int| 0 <= i < timers@.len() implies #[trigger] timers@[i]
                == bank[i]->0 by {}
        }
        best
    }

    /// The interface most overdue to emit a keep-alive as of `now`, the first of
    /// several due at the same instant, or `None` when none is configured or
    /// due.
    pub fn due_keepalive_interface(&self, now: Duration) -> (idx: Option<usize>)
        ensures
            match most_overdue(self@.keepalive_timers, now) {
                Some(b) => idx == Some(b as usize) && 0 <= b < self@.keepalive_timers.len(),
                None => idx is None,
            },
            forall|i: int|
                0 <= i < self@.keepalive_timers.len() && (
                #[trigger] self@.keepalive_timers[i]) is Some
                    && self@.keepalive_timers[i]->0.next_fire.nanos <= now.nanos ==> idx is Some,
            idx matches Some(b) ==> self@.keepalive_timers[b as int] is Some
                && self@.keepalive_timers[b as int]->0.next_fire.nanos <= now.nanos,
    {
        let timers = self.keepalive_timers.items();
        let n: usize = timers.len();
        let mut best: Option<(usize, Duration)> = None;
        let mut i: usize = 0;
        while i < n
            invariant
                i <= n,
                n == timers@.len(),
                match most_overdue(timers@.take(i as int), now) {
                    None => best is None,
                    Some(b) => 0 <= b < i && timers@[b] is Some && best == Some(
                        (b as usize, timers@[b]->0.next_fire),
                    ),
                },
            decreases n - i,
        {
            assert(timers@.take(i as int + 1).drop_last() =~= timers@.take(i as int));
            if let Some(t) = &timers[i] {
                if t.due(now) {
                    match best {
                        None => {
                            best = Some((i, t.next_fire));
                        },
                        Some((_, fire)) => {
                            if t.next_fire.nanos < fire.nanos {
                                best = Some((i, t.next_fire));
                            }
                        },
                    }
                }
            }
            i = i + 1;
        }
        assert(timers@.take(n as int) =~= timers@);
        proof {
            most_overdue_is_due(timers@, now);
        }
        match best {
            Some((b, _)) => Some(b),
            None => None,
        }
    }

    /// The adaptive OGM schedule of every configured interface, in order.
    pub fn ogm_schedule(&self) -> (entries: Vec<OgmScheduleEntry>)
        ensures
            entries@ == schedule_of(self@.ogm_timers),
    {
        let timers = self.ogm_timers.items();
        let n: usize = timers.len();
        let mut entries: Vec<OgmScheduleEntry> = Vec::new();
        let mut i: usize = 0;
        while i < n
            invariant
                i <= n,
                n == timers@.len(),
                entries@ == schedule_of(timers@).take(i as int),
            decreases n - i,
        {
            let t = &timers[i];
            entries.push(
                OgmScheduleEntry {
                    iface_idx: i,
                    current_interval: t.interval(),
                    min_interval: t.i_min(),
                    max_interval: t.i_max(),
                },
            );
            i = i + 1;
            assert(entries@ =~= schedule_of(timers@).take(i as int));
        }
        assert(schedule_of(timers@).take(n as int) =~= schedule_of(timers@));
        entries
    }

    /// Record that interface `idx` just emitted an OGM at `now`; nothing happens
    /// where the interface has no schedule.
    pub fn on_interface_emitted(&mut self, idx: usize, now: Duration)
        requires
            old(self).wf(),
            idx < old(self)@.ogm_timers.len() ==> TrickleTimer::in_range(
                now,
                old(self)@.ogm_timers[idx as int].interval,
            ),
        ensures
            final(self).wf(),
            final(self)@ == (if idx < old(self)@.ogm_timers.len() {
                EngineState {
                    ogm_timers: old(self)@.ogm_timers.update(
                        idx as int,
                        old(self)@.ogm_timers[idx as int].emitted(now),
                    ),
                    ..old(self)@
                }
            } else {
                old(self)@
            }),
            idx < old(self)@.ogm_timers.len() ==> {
                let span = old(self)@.ogm_timers[idx as int].interval.nanos;
                let fire = final(self)@.ogm_timers[idx as int].next_fire.nanos;
                now.nanos + span / 2 <= fire < now.nanos + span
            },
    {
        proof {
            if idx < self@.ogm_timers.len() {
                emission_backs_off(self@.ogm_timers[idx as int], now);
            }
        }
        if idx < self.ogm_timers.len() {
            let timers = self.ogm_timers.items_mut();
            let mut timer: TrickleTimer = timers[idx];
            timer.on_emit(now);
            timers[idx] = timer;
            assert(self@.ogm_timers =~= old(self)@.ogm_timers.update(idx as int, timer));
        }
    }

    /// Record that interface `idx` just emitted a keep-alive at `now`; nothing
    /// happens where the interface has no schedule.
    pub fn on_keepalive_emitted(&mut self, idx: usize, now: Duration)
        requires
            old(self).wf(),
            (idx < old(self)@.keepalive_timers.len() && old(self)@.keepalive_timers[idx as int]
                is Some) ==> TrickleTimer::in_range(
                now,
                old(self)@.keepalive_timers[idx as int]->0.interval,
            ),
        ensures
            final(self).wf(),
            final(self)@ == (if idx < old(self)@.keepalive_timers.len()
                && old(self)@.keepalive_timers[idx as int] is Some {
                EngineState {
                    keepalive_timers: old(self)@.keepalive_timers.update(
                        idx as int,
                        Some(old(self)@.keepalive_timers[idx as int]->0.emitted(now)),
                    ),
                    ..old(self)@
                }
            } else {
                old(self)@
            }),
    {
        if idx < self.keepalive_timers.len() {
            let armed_timer: Option<TrickleTimer> = self.keepalive_timers.items()[idx];
            if let Some(t) = armed_timer {
                let mut timer: TrickleTimer = t;
                timer.on_emit(now);
                let timers = self.keepalive_timers.items_mut();
                timers[idx] = Some(timer);
                assert(self@.keepalive_timers =~= old(self)@.keepalive_timers.update(
                    idx as int,
                    Some(timer),
                ));
            }
        }
    }
}

/// Grow `v` with copies of `fill` until it has at least `idx + 1` items.
fn backfill<T: Copy, const N: usize>(v: &mut BoundedVec<T, N>, idx: usize, fill: T)
    requires
        idx < N,
        old(v)@.len() <= N,
    ensures
        final(v)@ == padded(old(v)@, (idx + 1) as nat, fill),
{
    let ghost before = v@;
    while v.len() <= idx
        invariant
            idx < N,
            before.len() <= v@.len() <= N,
            v@.len() <= before.len() || v@.len() <= idx + 1,
            v@ == padded(before, v@.len(), fill),
        decreases idx + 1 - v@.len(),
    {
        let kept: bool = v.push(fill);
        assert(v@ =~= padded(before, v@.len(), fill));
    }
    assert(v@ =~= padded(before, (idx + 1) as nat, fill));
}

} // verus!
