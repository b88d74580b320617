//! The nRF52840's built-in IEEE 802.15.4 radio as a mesh interface: what its
//! faults mean to the mesh, and the sequence numbers of what it sends.

use vstd::prelude::*;

use crate::link::LinkError;
use crate::link::LinkMetrics;

verus! {

/// A fault the radio peripheral reports.
#[derive(Debug, Clone, Copy, PartialEq, Eq, Structural)]
pub enum RadioFault {
    /// A received frame failed its checksum, which it carried.
    CrcFailed(u16),
    /// The channel was found busy before a transmission.
    ChannelInUse,
    /// Any other fault.
    Other,
}

/// The link error a radio fault amounts to.
pub open spec fn link_error_of(fault: RadioFault) -> LinkError {
    match fault {
        RadioFault::CrcFailed(_) => LinkError::ReceiveFailed,
        RadioFault::ChannelInUse => LinkError::TransmitFailed,
        RadioFault::Other => LinkError::Io,
    }
}

/// The link error a radio fault amounts to.
pub fn map_err(fault: RadioFault) -> (e: LinkError)
    ensures
        e == link_error_of(fault),
{
    match fault {
        RadioFault::CrcFailed(_) => LinkError::ReceiveFailed,
        RadioFault::ChannelInUse => LinkError::TransmitFailed,
        RadioFault::Other => LinkError::Io,
    }
}

/// A mesh interface backed by the built-in radio.
pub struct Ieee802154Link<R> {
    /// The radio peripheral.
    pub radio: R,
    /// Sequence number of the next frame sent.
    pub seq: u8,
}

impl<R> Ieee802154Link<R> {
    /// Wrap a configured radio.
    pub fn new(radio: R) -> (l: Self)
        ensures
            l.radio == radio,
            l.seq == 0,
    {
        Ieee802154Link { radio, seq: 0 }
    }

    /// Take the next sequence number, wrapping round at the end.
    pub fn take_seq(&mut self) -> (n: u8)
        ensures
            n == old(self).seq,
            final(self).seq == (if n == u8::MAX {
                0u8
            } else {
                (n + 1) as u8
            }),
            final(self).radio == old(self).radio,
    {
        let n: u8 = self.seq;
        self.seq = self.seq.wrapping_add(1);
        n
    }
}

/// The metrics of a frame received with this link quality.
pub fn frame_metrics(lqi: u8) -> (m: LinkMetrics)
    ensures
        m == (LinkMetrics { rssi_dbm: None, snr_db: None, quality: Some(lqi) }),
{
    LinkMetrics { rssi_dbm: None, snr_db: None, quality: Some(lqi) }
}

/// A fault while receiving is a failure to receive, a busy channel a failure to
/// transmit, and neither is taken for the other or for anything else.
pub proof fn faults_name_what_failed(fault: RadioFault)
    ensures
        (link_error_of(fault) == LinkError::ReceiveFailed) == (fault is CrcFailed),
        (link_error_of(fault) == LinkError::TransmitFailed) == (fault is ChannelInUse),
        (link_error_of(fault) == LinkError::Io) == (fault is Other),
{
}

} // verus!
