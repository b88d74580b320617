//! How a frame goes on the wire: which bytes, and on which interfaces.

use vstd::prelude::*;

use crate::batman::wire::ETH_P_BATMAN;
use crate::driver_core::directed::DIRECTED_TRAILER_LEN;
use crate::driver_core::directed::OgmAuthOps;
use crate::driver_core::directed::Tagging;
use crate::driver_core::directed::carries_trailer;
use crate::driver_core::directed::guarded_frames_carry_trailers;
use crate::driver_core::directed::is_guarded;
use crate::driver_core::directed::layer_before;
use crate::driver_core::directed::only_authentic_frames_are_routed;
use crate::driver_core::directed::payload_accepted;
use crate::driver_core::directed::tag_directed_into;
use crate::driver_core::directed::tagged_bytes;
use crate::driver_core::directed::tagging_for;
use crate::driver_core::interface_set::InterfaceSet;
use crate::driver_core::sink::Egress;
use crate::driver_core::sink::EgressInterface;
use crate::frame::Mac;

verus! {

/// One frame's transmit decision: the bytes to put on the wire, and the
/// interfaces to put them on.
#[derive(Debug, Clone, Copy, PartialEq, Eq)]
pub struct DispatchPlan<'a> {
    payload: &'a [u8],
    targets: InterfaceSet,
}

impl<'a> DispatchPlan<'a> {
    /// The bytes to transmit.
    pub closed spec fn bytes(self) -> Seq<u8> {
        self.payload@
    }

    /// The interfaces to transmit on.
    pub closed spec fn on(self) -> InterfaceSet {
        self.targets
    }

    /// The bytes to transmit: the frame's body, and the trailer where it has one.
    pub fn payload(&self) -> (p: &'a [u8])
        ensures
            p@ == self.bytes(),
    {
        self.payload
    }

    /// The interfaces to transmit on; none where there is no route, or every link
    /// is gated off.
    pub fn targets(&self) -> (t: InterfaceSet)
        ensures
            t == self.on(),
    {
        self.targets
    }
}

/// The type by which links gate a frame: the first byte of a BATMAN frame's body.
/// Other frames are not gated.
pub fn gated_type(protocol: u16, body: &[u8]) -> (t: Option<u8>)
    ensures
        t == (if protocol == ETH_P_BATMAN && body@.len() > 0 {
            Some(body@[0])
        } else {
            None
        }),
{
    if protocol == ETH_P_BATMAN && body.len() > 0 {
        Some(body[0])
    } else {
        None
    }
}

/// Whether a frame goes out interface `i` of the `n` a driver holds: exactly the
/// one named, the router's choice where its link is not gated off, or every link
/// not gated off but the one the frame came in on.
pub open spec fn goes_out(
    egress: Egress,
    choice: Option<EgressInterface>,
    may_tx: Seq<bool>,
    n: nat,
    i: int,
) -> bool {
    0 <= i < n && match egress {
        Egress::Iface(idx) => i == idx,
        Egress::Auto { exclude } => match choice {
            Some(EgressInterface::All) => exclude != Some(i as usize) && may_tx[i],
            Some(EgressInterface::Interface(idx)) => i == idx && may_tx[i],
            None => false,
        },
    }
}

/// The interfaces a frame goes out of.  `choice` is the router's egress choice for
/// its destination, and `may_tx` says of each interface whether its link sends
/// frames of this kind.
pub fn targets_of(
    egress: Egress,
    choice: Option<EgressInterface>,
    may_tx: &[bool],
    num_interfaces: usize,
) -> (targets: InterfaceSet)
    requires
        num_interfaces <= may_tx@.len(),
    ensures
        forall|i: int| #[trigger]
            targets.has(i) == (i < InterfaceSet::CAPACITY && goes_out(
                egress,
                choice,
                may_tx@,
                num_interfaces as nat,
                i,
            )),
{
    let mut targets = InterfaceSet::default();
    match egress {
        Egress::Iface(idx) => {
            if idx < num_interfaces {
                targets.insert(idx);
            }
        },
        Egress::Auto { exclude } => {
            match choice {
                Some(EgressInterface::All) => {
                    let mut idx: usize = 0;
                    while idx < num_interfaces
                        invariant
                            idx <= num_interfaces <= may_tx@.len(),
                            choice == Some(EgressInterface::All),
                            egress == (Egress::Auto { exclude }),
                            forall|i: int| #[trigger]
                                targets.has(i) == (i < idx && i < InterfaceSet::CAPACITY
                                    && goes_out(
                                    egress,
                                    choice,
                                    may_tx@,
                                    num_interfaces as nat,
                                    i,
                                )),
                        decreases num_interfaces - idx,
                    {
                        let arrived: bool = match exclude {
                            Some(from) => from == idx,
                            None => false,
                        };
                        if !arrived && may_tx[idx] {
                            targets.insert(idx);
                        }
                        idx = idx + 1;
                    }
                },
                Some(EgressInterface::Interface(idx)) => {
                    if idx < num_interfaces && may_tx[idx] {
                        targets.insert(idx);
                    }
                },
                None => {},
            }
        },
    }
    targets
}

/// Decide how to put one frame on the wire, given how it is tagged: which bytes,
/// and on which interfaces.  `buf` holds the body, with room for a trailer behind
/// it.  `None` where the frame must be dropped.
pub fn plan_with<'a>(
    tagging: Tagging,
    choice: Option<EgressInterface>,
    may_tx: &[bool],
    egress: Egress,
    body_len: usize,
    buf: &'a mut [u8],
    num_interfaces: usize,
) -> (r: Option<DispatchPlan<'a>>)
    requires
        body_len + DIRECTED_TRAILER_LEN <= old(buf)@.len(),
        num_interfaces <= may_tx@.len(),
    ensures
        match (r, tagged_bytes(tagging, old(buf)@.subrange(0, body_len as int))) {
            (Some(plan), Some(bytes)) => {
                &&& plan.bytes() == bytes
                &&& forall|i: int| #[trigger]
                    plan.on().has(i) == (i < InterfaceSet::CAPACITY && goes_out(
                        egress,
                        choice,
                        may_tx@,
                        num_interfaces as nat,
                        i,
                    ))
            },
            (None, None) => true,
            _ => false,
        },
{
    let ghost before = buf@;
    let send_len: usize = match tag_directed_into(tagging, body_len, buf) {
        Some(n) => n,
        None => {
            return None;
        },
    };
    let targets = targets_of(egress, choice, may_tx, num_interfaces);
    let room: usize = buf.len();
    let sent: &'a [u8] = buf;
    proof {
        let bytes = tagged_bytes(tagging, before.subrange(0, body_len as int))->Some_0;
        assert(bytes.len() <= before.len());
        assert(sent@.subrange(0, send_len as int) =~= bytes);
    }
    Some(DispatchPlan { payload: &sent[0..send_len], targets })
}

/// Decide how to put one frame on the wire: authenticate it, then resolve which
/// interfaces carry it.  `None` where authentication is on but this directed
/// frame cannot be tagged: it is dropped, never sent in the clear.
pub fn plan_dispatch<'a, A: OgmAuthOps>(
    auth: Option<&mut A>,
    choice: Option<EgressInterface>,
    may_tx: &[bool],
    dst: Mac,
    protocol: u16,
    egress: Egress,
    body_len: usize,
    buf: &'a mut [u8],
    num_interfaces: usize,
) -> (r: Option<DispatchPlan<'a>>)
    requires
        body_len + DIRECTED_TRAILER_LEN <= old(buf)@.len(),
        num_interfaces <= may_tx@.len(),
    ensures
        match (
            r,
            bytes_sent(
                layer_before(auth),
                dst,
                protocol,
                old(buf)@.subrange(0, body_len as int),
            ),
        ) {
            (Some(plan), Some(bytes)) => {
                &&& plan.bytes() == bytes
                &&& forall|i: int| #[trigger]
                    plan.on().has(i) == (i < InterfaceSet::CAPACITY && goes_out(
                        egress,
                        choice,
                        may_tx@,
                        num_interfaces as nat,
                        i,
                    ))
            },
            (None, None) => true,
            _ => false,
        },
{
    let tagging = tagging_for(auth, dst, protocol, &buf[0..body_len]);
    plan_with(tagging, choice, may_tx, egress, body_len, buf, num_interfaces)
}

/// The bytes a frame goes out as, given the authentication layer where
/// authentication is on: the body alone where it carries no trailer, and
/// otherwise with its trailer.  `None` where there is no trailer for it: it is
/// dropped.
pub open spec fn bytes_sent<A: OgmAuthOps>(
    auth: Option<A>,
    dst: Mac,
    protocol: u16,
    body: Seq<u8>,
) -> Option<Seq<u8>> {
    match auth {
        Some(layer) => if carries_trailer(dst, protocol, body) {
            match layer.trailer_for(dst, body) {
                Some(trailer) => Some(body + trailer),
                None => None,
            }
        } else {
            Some(body)
        },
        None => Some(body),
    }
}

/// Split horizon: a flood never goes back out the interface it arrived on,
/// whatever the links allow.
pub proof fn split_horizon(
    choice: Option<EgressInterface>,
    may_tx: Seq<bool>,
    n: nat,
    ingress: usize,
)
    requires
        choice == Some(EgressInterface::All),
    ensures
        !goes_out(Egress::Auto { exclude: Some(ingress) }, choice, may_tx, n, ingress as int),
{
}

/// A link that is gated off carries nothing the router chose.
pub proof fn gated_links_are_silent(
    exclude: Option<usize>,
    choice: Option<EgressInterface>,
    may_tx: Seq<bool>,
    n: nat,
    i: int,
)
    requires
        0 <= i < may_tx.len(),
        !may_tx[i],
    ensures
        !goes_out(Egress::Auto { exclude }, choice, may_tx, n, i),
{
}

/// A flood reaches every interface the driver holds whose link is open to it, but
/// the one it came in on.
pub proof fn flood_reaches_every_open_link(
    exclude: Option<usize>,
    may_tx: Seq<bool>,
    n: nat,
    i: int,
)
    requires
        0 <= i < n,
        n <= may_tx.len(),
        n <= usize::MAX,
    ensures
        goes_out(Egress::Auto { exclude }, Some(EgressInterface::All), may_tx, n, i) == (may_tx[i]
            && (exclude matches Some(from) ==> from != i)),
{
}

/// A frame for one neighbor goes out the interface chosen for it and no other; one
/// without a choice goes nowhere; one for a named interface goes out that one,
/// whatever the choice and the links; and none goes out an interface the driver
/// does not hold.
pub proof fn directed_frames_take_one_link(
    egress: Egress,
    choice: Option<EgressInterface>,
    exclude: Option<usize>,
    may_tx: Seq<bool>,
    n: nat,
    idx: usize,
    i: int,
)
    ensures
        goes_out(
            Egress::Auto { exclude },
            Some(EgressInterface::Interface(idx)),
            may_tx,
            n,
            i,
        ) ==> i == idx,
        idx < n && may_tx[idx as int] ==> goes_out(
            Egress::Auto { exclude },
            Some(EgressInterface::Interface(idx)),
            may_tx,
            n,
            idx as int,
        ),
        !goes_out(Egress::Auto { exclude }, None, may_tx, n, i),
        goes_out(Egress::Iface(idx), choice, may_tx, n, i) ==> i == idx,
        idx < n ==> goes_out(Egress::Iface(idx), choice, may_tx, n, idx as int),
        i >= n || i < 0 ==> !goes_out(egress, choice, may_tx, n, i),
{
}

/// Where authentication is on, a guarded frame goes out with the trailer made for
/// it, or not at all: never in the clear.  Every other frame goes out as it is.
pub proof fn guarded_frames_never_go_in_the_clear<A: OgmAuthOps>(
    layer: A,
    dst: Mac,
    protocol: u16,
    body: Seq<u8>,
)
    ensures
        is_guarded(dst, protocol, body) ==> match (
            layer.trailer_for(dst, body),
            bytes_sent(Some(layer), dst, protocol, body),
        ) {
            (Some(trailer), Some(bytes)) => bytes == body + trailer,
            (None, None) => true,
            _ => false,
        },
        !is_guarded(dst, protocol, body) ==> bytes_sent(Some(layer), dst, protocol, body) == Some(
            body,
        ),
        bytes_sent::<A>(None, dst, protocol, body) == Some(body),
{
    guarded_frames_carry_trailers(dst, protocol, body);
}

/// What one node sends to another, the other routes on as it was before it was
/// tagged, where it finds the trailer authentic.
pub proof fn sent_frame_is_accepted<A: OgmAuthOps, B: OgmAuthOps>(
    sender: A,
    receiver: B,
    src: Mac,
    dst: Mac,
    protocol: u16,
    body: Seq<u8>,
    trailer: Seq<u8>,
)
    requires
        body.len() > 0,
        is_guarded(dst, protocol, body),
        trailer.len() == 24,
        sender.trailer_for(dst, body) == Some(trailer),
        receiver.authentic(src, body, trailer),
    ensures
        bytes_sent(Some(sender), dst, protocol, body) is Some,
        payload_accepted(
            Some(receiver),
            src,
            dst,
            protocol,
            bytes_sent(Some(sender), dst, protocol, body)->0,
        ) == Some(body),
{
    guarded_frames_never_go_in_the_clear(sender, dst, protocol, body);
    assert((body + trailer)[0] == body[0]);
    only_authentic_frames_are_routed(receiver, src, dst, protocol, body, trailer);
}

} // verus!
