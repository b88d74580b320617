//! What a host does around the operating system's Bluetooth stack: how it
//! advertises a fragment, what it asks the scanner for, and what it makes of the
//! scanner's events.

use vstd::prelude::*;

use crate::batman::trickle::doubled;
use crate::blue::ad::AD_TYPE_MANUFACTURER_SPECIFIC;
use crate::blue::ad::MESH_COMPANY_ID;
use crate::blue::params::ADVERTISING_INTERVAL_MILLIS;
use crate::codec::le16;
use crate::codec::u16_le;
use crate::time::Duration;
use std::collections::HashMap;

verus! {

/// An advertisement to register with the operating system: broadcast only,
/// carrying manufacturer data.
#[derive(Debug)]
pub struct AdvertisementPlan {
    /// Broadcast only: nobody can connect.
    pub broadcast: bool,
    /// The company id the data is tagged with.
    pub company_id: u16,
    /// The fragment carried.
    pub fragment: Vec<u8>,
    /// When the registration is torn down at the latest.
    pub timeout: Duration,
    /// Shortest interval between repeats on air.
    pub min_interval: Duration,
    /// Longest interval between repeats on air.
    pub max_interval: Duration,
}

/// The advertisement of one fragment: up for `advertise_dwell`, repeated at a
/// fixed short interval for as long.
pub fn build_advertisement(fragment: &[u8], advertise_dwell: Duration) -> (a: AdvertisementPlan)
    ensures
        a.broadcast,
        a.company_id == MESH_COMPANY_ID,
        a.fragment@ == fragment@,
        a.timeout == advertise_dwell,
        a.min_interval.nanos == ADVERTISING_INTERVAL_MILLIS * 1_000_000,
        a.max_interval == a.min_interval,
{
    let interval = Duration::from_millis(ADVERTISING_INTERVAL_MILLIS);
    AdvertisementPlan {
        broadcast: true,
        company_id: MESH_COMPANY_ID,
        fragment: vstd::slice::slice_to_vec(fragment),
        timeout: advertise_dwell,
        min_interval: interval,
        max_interval: interval,
    }
}

/// One pattern of an advertisement monitor: bytes to match in a structure's
/// data.
#[derive(Debug)]
pub struct MonitorPattern {
    /// Structure type to look in.
    pub data_type: u8,
    /// Offset in the structure's data.
    pub start_position: u8,
    /// Bytes expected there.
    pub content: Vec<u8>,
}

/// An advertisement monitor to register with the operating system.
#[derive(Debug)]
pub struct MonitorPlan {
    /// Report every advertisement heard, never grouping or suppressing repeats.
    pub every_packet: bool,
    /// Match an advertisement where any of the patterns does, not all of them.
    pub match_any: bool,
    /// The patterns.
    pub patterns: Vec<MonitorPattern>,
}

/// The monitor of this mesh's traffic: every packet whose manufacturer data
/// starts with the mesh's marker.
pub fn mesh_monitor() -> (m: MonitorPlan)
    ensures
        m.every_packet,
        m.match_any,
        m.patterns@.len() == 1,
        m.patterns@[0].data_type == AD_TYPE_MANUFACTURER_SPECIFIC,
        m.patterns@[0].start_position == 0,
        m.patterns@[0].content@ == le16(MESH_COMPANY_ID),
{
    let marker: [u8; 2] = u16_le(MESH_COMPANY_ID);
    let mut patterns: Vec<MonitorPattern> = Vec::new();
    patterns.push(
        MonitorPattern {
            data_type: AD_TYPE_MANUFACTURER_SPECIFIC,
            start_position: 0,
            content: vstd::slice::slice_to_vec(&marker),
        },
    );
    MonitorPlan { every_packet: true, match_any: true, patterns }
}

/// Why a scan session ended.
#[derive(Debug, Clone, Copy, PartialEq, Eq, Structural)]
pub enum ScanEnd {
    /// The link was dropped, so no further report could be consumed.
    SinkClosed,
    /// The operating system ended discovery.
    DiscoveryEnded,
    /// The operating system released the advertisement monitor.
    MonitorReleased,
}

/// Something the scanner reports during a session.  A device is named by its
/// address as a number.
#[derive(Debug, Clone, Copy, PartialEq, Eq, Structural)]
pub enum ScanEvent {
    /// The link was dropped.
    SinkClosed,
    /// The monitor reported something; its content is of no interest.
    MonitorEvent,
    /// The monitor's event stream ended.
    MonitorEnded,
    /// A device was discovered that carries no fragment of this mesh.
    DeviceAdded(u64),
    /// A device was discovered carrying a fragment, with its signal strength
    /// where known.
    DeviceSeeded(u64, Option<i16>),
    /// A device went away.
    DeviceRemoved(u64),
    /// A property of the adapter changed.
    AdapterChanged,
    /// Discovery ended.
    DiscoveryEnded,
    /// A device's signal strength changed.
    Rssi(u64, i16),
    /// A device's manufacturer data changed, and carries a fragment of this
    /// mesh.
    FragmentHeard(u64),
    /// Some other property of a device changed, or its manufacturer data without
    /// a fragment of this mesh.
    OtherProperty(u64),
}

/// What to do about an event.
#[derive(Debug, Clone, Copy, PartialEq, Eq, Structural)]
pub enum ScanAction {
    /// Nothing.
    Continue,
    /// Submit the fragment in hand, with this signal strength.
    Submit(Option<i16>),
    /// End the session.
    End(ScanEnd),
}

/// What a scan session remembers: the last signal strength of each device.
pub struct ScanSession {
    rssi: HashMap<u64, i16>,
}

/// What an event leads to, given the signal strengths known before it.
pub open spec fn scan_action(known: Map<u64, i16>, event: ScanEvent) -> ScanAction {
    match event {
        ScanEvent::SinkClosed => ScanAction::End(ScanEnd::SinkClosed),
        ScanEvent::MonitorEnded => ScanAction::End(ScanEnd::MonitorReleased),
        ScanEvent::DiscoveryEnded => ScanAction::End(ScanEnd::DiscoveryEnded),
        ScanEvent::DeviceSeeded(_, rssi) => ScanAction::Submit(rssi),
        ScanEvent::FragmentHeard(device) => ScanAction::Submit(
            if known.contains_key(device) {
                Some(known[device])
            } else {
                None
            },
        ),
        _ => ScanAction::Continue,
    }
}

/// The signal strengths known after an event.
pub open spec fn known_after(known: Map<u64, i16>, event: ScanEvent) -> Map<u64, i16> {
    match event {
        ScanEvent::DeviceSeeded(device, Some(rssi)) => known.insert(device, rssi),
        ScanEvent::Rssi(device, rssi) => known.insert(device, rssi),
        ScanEvent::DeviceRemoved(device) => known.remove(device),
        _ => known,
    }
}

impl ScanSession {
    /// The signal strengths known.
    pub closed spec fn known(self) -> Map<u64, i16> {
        self.rssi@
    }

    /// A session that has heard nothing.
    pub fn new() -> (s: ScanSession)
        ensures
            s.known() == Map::<u64, i16>::empty(),
    {
        broadcast use vstd::std_specs::hash::group_hash_axioms;

        ScanSession { rssi: HashMap::new() }
    }

    /// Take in one event.  A fragment is tagged with the freshest signal
    /// strength known for its device.
    pub fn on_event(&mut self, event: ScanEvent) -> (action: ScanAction)
        ensures
            action == scan_action(old(self).known(), event),
            final(self).known() == known_after(old(self).known(), event),
    {
        broadcast use vstd::std_specs::hash::group_hash_axioms;

        match event {
            ScanEvent::SinkClosed => ScanAction::End(ScanEnd::SinkClosed),
            ScanEvent::MonitorEnded => ScanAction::End(ScanEnd::MonitorReleased),
            ScanEvent::DiscoveryEnded => ScanAction::End(ScanEnd::DiscoveryEnded),
            ScanEvent::DeviceSeeded(device, rssi) => {
                if let Some(value) = rssi {
                    self.rssi.insert(device, value);
                }
                ScanAction::Submit(rssi)
            },
            ScanEvent::DeviceRemoved(device) => {
                self.rssi.remove(&device);
                ScanAction::Continue
            },
            ScanEvent::Rssi(device, value) => {
                self.rssi.insert(device, value);
                ScanAction::Continue
            },
            ScanEvent::FragmentHeard(device) => {
                match self.rssi.get(&device) {
                    Some(value) => ScanAction::Submit(Some(*value)),
                    None => ScanAction::Submit(None),
                }
            },
            _ => ScanAction::Continue,
        }
    }
}

/// How one scan session went.
#[derive(Debug, Clone, Copy, PartialEq, Eq, Structural)]
pub enum SessionOutcome {
    /// It ended.
    Ended(ScanEnd),
    /// It failed.
    Failed,
}

/// What to tell the operator.
#[derive(Debug, Clone, Copy, PartialEq, Eq, Structural)]
pub enum Notice {
    /// Nothing.
    Quiet,
    /// A routine restart.
    Routine,
    /// The receive path is degraded.
    Degraded,
}

/// What the scan task does after a session.
#[derive(Debug, Clone, Copy, PartialEq, Eq, Structural)]
pub struct ScanVerdict {
    /// Stop the task.
    pub stop: bool,
    /// Register the advertisement monitor again.
    pub reregister: bool,
    /// What to tell the operator.
    pub notice: Notice,
    /// How many sessions in a row have ended unwanted.
    pub consecutive: u32,
}

/// Whether `n` is a power of two.
pub open spec fn is_power_of_two(n: nat) -> bool
    decreases n,
{
    n == 1 || (n > 1 && n % 2 == 0 && is_power_of_two(n / 2))
}

/// Whether `n` is a power of two.
fn power_of_two(n: u32) -> (p: bool)
    ensures
        p == is_power_of_two(n as nat),
    decreases n,
{
    if n == 1 {
        true
    } else if n > 1 && n % 2 == 0 {
        power_of_two(n / 2)
    } else {
        false
    }
}

/// `n + 1`, or `n` where that does not fit.
pub open spec fn one_more(n: u32) -> u32 {
    if n < u32::MAX {
        (n + 1) as u32
    } else {
        n
    }
}

/// What the scan task does after a session, `consecutive` of which ended
/// unwanted before it: it stops once the link is dropped, registers a released
/// monitor again, and speaks up at the first ended session and then ever more
/// rarely.
pub open spec fn verdict_of(
    consecutive: u32,
    outcome: SessionOutcome,
    sink_closed: bool,
) -> ScanVerdict {
    let n = one_more(consecutive);
    let rare = is_power_of_two(n as nat);
    match outcome {
        SessionOutcome::Ended(ScanEnd::SinkClosed) => ScanVerdict {
            stop: true,
            reregister: false,
            notice: Notice::Quiet,
            consecutive,
        },
        SessionOutcome::Ended(ScanEnd::MonitorReleased) => ScanVerdict {
            stop: sink_closed,
            reregister: true,
            notice: Notice::Degraded,
            consecutive: n,
        },
        SessionOutcome::Ended(ScanEnd::DiscoveryEnded) => ScanVerdict {
            stop: sink_closed,
            reregister: false,
            notice: if n == 1 {
                Notice::Routine
            } else if rare {
                Notice::Degraded
            } else {
                Notice::Quiet
            },
            consecutive: n,
        },
        SessionOutcome::Failed => ScanVerdict {
            stop: sink_closed,
            reregister: false,
            notice: if rare {
                Notice::Degraded
            } else {
                Notice::Quiet
            },
            consecutive: n,
        },
    }
}

/// What the scan task does after a session.
pub fn after_session(consecutive: u32, outcome: SessionOutcome, sink_closed: bool) -> (v:
    ScanVerdict)
    ensures
        v == verdict_of(consecutive, outcome, sink_closed),
{
    let n: u32 = if consecutive < u32::MAX { consecutive + 1 } else { consecutive };
    let rare: bool = power_of_two(n);
    match outcome {
        SessionOutcome::Ended(ScanEnd::SinkClosed) => ScanVerdict {
            stop: true,
            reregister: false,
            notice: Notice::Quiet,
            consecutive,
        },
        SessionOutcome::Ended(ScanEnd::MonitorReleased) => ScanVerdict {
            stop: sink_closed,
            reregister: true,
            notice: Notice::Degraded,
            consecutive: n,
        },
        SessionOutcome::Ended(ScanEnd::DiscoveryEnded) => ScanVerdict {
            stop: sink_closed,
            reregister: false,
            notice: if n == 1 {
                Notice::Routine
            } else if rare {
                Notice::Degraded
            } else {
                Notice::Quiet
            },
            consecutive: n,
        },
        SessionOutcome::Failed => ScanVerdict {
            stop: sink_closed,
            reregister: false,
            notice: if rare {
                Notice::Degraded
            } else {
                Notice::Quiet
            },
            consecutive: n,
        },
    }
}

/// Whether an event changes what is known of a device's signal strength.
pub open spec fn concerns(event: ScanEvent, device: u64) -> bool {
    match event {
        ScanEvent::DeviceSeeded(d, rssi) => d == device && rssi is Some,
        ScanEvent::Rssi(d, _) => d == device,
        ScanEvent::DeviceRemoved(d) => d == device,
        _ => false,
    }
}

/// The signal strengths known after a run of events.
pub open spec fn known_after_all(known: Map<u64, i16>, events: Seq<ScanEvent>) -> Map<u64, i16>
    decreases events.len(),
{
    if events.len() == 0 {
        known
    } else {
        known_after(known_after_all(known, events.drop_last()), events.last())
    }
}

/// What is known of a device's signal strength lasts until an event concerns it.
pub proof fn strength_lasts(known: Map<u64, i16>, events: Seq<ScanEvent>, device: u64)
    requires
        forall|i: int| 0 <= i < events.len() ==> !concerns(#[trigger] events[i], device),
    ensures
        known_after_all(known, events).contains_key(device) == known.contains_key(device),
        known.contains_key(device) ==> known_after_all(known, events)[device] == known[device],
    decreases events.len(),
{
    if events.len() > 0 {
        let fewer = events.drop_last();
        assert forall|i: int| 0 <= i < fewer.len() implies !concerns(
            #[trigger] fewer[i],
            device,
        ) by {
            assert(fewer[i] == events[i]);
        }
        strength_lasts(known, fewer, device);
        assert(!concerns(events[events.len() - 1], device));
    }
}

/// A fragment is submitted with the signal strength its device was last heard with,
/// whatever else happened since, and with none once the device went away.
pub proof fn fragments_carry_the_last_strength(
    known: Map<u64, i16>,
    device: u64,
    strength: i16,
    since: Seq<ScanEvent>,
)
    requires
        forall|i: int| 0 <= i < since.len() ==> !concerns(#[trigger] since[i], device),
    ensures
        scan_action(
            known_after_all(known_after(known, ScanEvent::Rssi(device, strength)), since),
            ScanEvent::FragmentHeard(device),
        ) == ScanAction::Submit(Some(strength)),
        scan_action(
            known_after_all(
                known_after(known, ScanEvent::DeviceSeeded(device, Some(strength))),
                since,
            ),
            ScanEvent::FragmentHeard(device),
        ) == ScanAction::Submit(Some(strength)),
        scan_action(
            known_after_all(known_after(known, ScanEvent::DeviceRemoved(device)), since),
            ScanEvent::FragmentHeard(device),
        ) == ScanAction::Submit(None),
{
    strength_lasts(known_after(known, ScanEvent::Rssi(device, strength)), since, device);
    strength_lasts(
        known_after(known, ScanEvent::DeviceSeeded(device, Some(strength))),
        since,
        device,
    );
    strength_lasts(known_after(known, ScanEvent::DeviceRemoved(device)), since, device);
}

/// A session submits exactly what carries a fragment, and ends exactly when the
/// link, discovery or the monitor does, for the reason that it ended.
pub proof fn session_follows_its_events(known: Map<u64, i16>, event: ScanEvent)
    ensures
        scan_action(known, event) is Submit <==> (event is FragmentHeard || event is DeviceSeeded),
        event matches ScanEvent::DeviceSeeded(_, rssi) ==> scan_action(known, event)
            == ScanAction::Submit(rssi),
        (scan_action(known, event) == ScanAction::End(ScanEnd::SinkClosed)) == (event
            is SinkClosed),
        (scan_action(known, event) == ScanAction::End(ScanEnd::MonitorReleased)) == (event
            is MonitorEnded),
        (scan_action(known, event) == ScanAction::End(ScanEnd::DiscoveryEnded)) == (event
            is DiscoveryEnded),
{
}

/// A number is a power of two exactly where it is one doubled some number of times.
pub proof fn powers_of_two_are_ones_doubled(n: nat)
    ensures
        is_power_of_two(n) == exists|k: nat| #[trigger] doubled(k) == n,
    decreases n,
{
    if n == 0 {
        assert forall|k: nat| #[trigger] doubled(k) != 0 by {
            doubled_is_positive(k);
        }
    } else if n == 1 {
        assert(doubled(0) == 1);
    } else {
        powers_of_two_are_ones_doubled(n / 2);
        if is_power_of_two(n) {
            let k = choose|k: nat| #[trigger] doubled(k) == n / 2;
            assert(doubled(k + 1) == 2 * doubled(k));
        }
        if exists|k: nat| #[trigger] doubled(k) == n {
            let k = choose|k: nat| #[trigger] doubled(k) == n;
            assert(k > 0);
            assert(doubled((k - 1) as nat) == n / 2);
        }
    }
}

/// One doubled is never zero.
proof fn doubled_is_positive(k: nat)
    ensures
        doubled(k) > 0,
    decreases k,
{
    if k > 0 {
        doubled_is_positive((k - 1) as nat);
    }
}

/// The scan task stops exactly once the link is dropped; it registers the monitor
/// again exactly when that was released; every other end counts; and the operator
/// hears of a released monitor each time, of a failure and of discovery ending the
/// first time and whenever their number has doubled since, and of nothing when the
/// link is dropped.
pub proof fn scan_task_keeps_on(consecutive: u32, outcome: SessionOutcome, sink_closed: bool)
    ensures
        ({
            let v = verdict_of(consecutive, outcome, sink_closed);
            let dropped = outcome == SessionOutcome::Ended(ScanEnd::SinkClosed);
            let released = outcome == SessionOutcome::Ended(ScanEnd::MonitorReleased);
            let ended = outcome == SessionOutcome::Ended(ScanEnd::DiscoveryEnded);
            let failed = outcome == SessionOutcome::Failed;
            let doubling = exists|k: nat| #[trigger] doubled(k) == v.consecutive;
            &&& v.stop == (sink_closed || dropped)
            &&& v.reregister == released
            &&& dropped ==> v.consecutive == consecutive && v.notice == Notice::Quiet
            &&& !dropped && consecutive < u32::MAX ==> v.consecutive == consecutive + 1
            &&& !dropped && consecutive == u32::MAX ==> v.consecutive == consecutive
            &&& released ==> v.notice == Notice::Degraded
            &&& failed ==> v.notice == (if doubling { Notice::Degraded } else { Notice::Quiet })
            &&& ended && consecutive == 0 ==> v.notice == Notice::Routine
            &&& ended && consecutive > 0 ==> v.notice == (if doubling {
                Notice::Degraded
            } else {
                Notice::Quiet
            })
        }),
{
    powers_of_two_are_ones_doubled(one_more(consecutive) as nat);
}

} // verus!
