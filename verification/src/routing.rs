//! What a routing engine decides about a received frame, and the interface a
//! router drives it through.

use vstd::prelude::*;

use crate::frame::LinkFrame;
use crate::frame::LinkFrameDataMut;
use crate::frame::Mac;
use crate::time::Duration;

verus! {

/// The decision a [`MeshRoutingEngine`] returns after processing a received
/// frame.
#[derive(Debug, Clone, Copy)]
pub enum RoutingAction {
    /// The engine consumed the packet.  It may also have written a packet into
    /// the reply to send onward; the caller checks the reply's protocol, which
    /// stays `0` when there is nothing to send.
    Consumed,
    /// The packet is for another node: forward it to this next hop.
    ForwardTo(Mac),
    /// The packet has reached its final destination, this node.
    DeliverLocal,
    /// The packet is a mesh broadcast new to this node: deliver it locally and,
    /// where the reply holds one, send the re-flood to the contained address.
    DeliverLocalAndForward(Mac),
}

/// A mesh routing protocol's behaviour, independent of transport and identity.
pub trait MeshRoutingEngine {
    /// The engine's tables are sound and its schedules can be rearmed at `now`.
    spec fn ready(&self, now: Duration) -> bool;

    /// How many bytes the next periodic broadcast takes.
    spec fn broadcast_len(&self) -> nat;

    /// Ingest a received frame, update the tables, and return the next step.
    /// `local_quality` is the measured quality of the link it came in on, where
    /// there is one.
    fn handle_rx(
        &mut self,
        now: Duration,
        frame: &LinkFrame<'_>,
        local_quality: Option<u8>,
        reply: &mut LinkFrameDataMut<'_>,
    ) -> RoutingAction
        requires
            old(self).ready(now),
    ;

    /// Write the regular periodic routing message into `tx_buffer` and return
    /// it.
    fn produce_periodic_broadcast<'tx>(
        &mut self,
        now: Duration,
        tx_buffer: &'tx mut [u8],
    ) -> Option<&'tx [u8]>
        requires
            old(self).ready(now),
            old(self).broadcast_len() <= old(tx_buffer)@.len(),
    ;
}

} // verus!
