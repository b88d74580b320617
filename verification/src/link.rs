//! What a link reports: failures, and the signal each frame arrived with.

use vstd::prelude::*;

verus! {

/// An error raised by a mesh link while transmitting or receiving a frame.
#[derive(Debug, Clone, Copy, PartialEq, Eq, Structural)]
pub enum LinkError {
    /// A lower-level I/O operation on the link failed.
    Io,
    /// The frame could not be transmitted onto the medium.
    TransmitFailed,
    /// There is no radio behind this link, so nothing was, or ever will be,
    /// transmitted.
    NotPresent,
    /// A frame could not be received from the medium.
    ReceiveFailed,
    /// The supplied buffer was too small to hold the frame.
    BufferFull,
    /// The received bytes did not parse as a valid frame.
    InvalidPacket,
}

impl LinkError {
    /// The error in words.
    pub open spec fn words(self) -> Seq<char> {
        match self {
            LinkError::Io => "IO error"@,
            LinkError::TransmitFailed => "transmit failed"@,
            LinkError::NotPresent => "link not present"@,
            LinkError::ReceiveFailed => "receive failed"@,
            LinkError::BufferFull => "buffer full"@,
            LinkError::InvalidPacket => "invalid packet"@,
        }
    }

    /// The error in words.
    pub fn message(&self) -> (s: &'static str)
        ensures
            s@ == self.words(),
    {
        match self {
            LinkError::Io => "IO error",
            LinkError::TransmitFailed => "transmit failed",
            LinkError::NotPresent => "link not present",
            LinkError::ReceiveFailed => "receive failed",
            LinkError::BufferFull => "buffer full",
            LinkError::InvalidPacket => "invalid packet",
        }
    }
}

/// Per-frame physical-layer measurements reported by the radio.  A radio fills
/// in what it can measure; every consumer must tolerate any field being `None`.
#[derive(Debug, Clone, Copy, PartialEq, Eq, Structural)]
pub struct LinkMetrics {
    /// Received signal strength of the frame in dBm.
    pub rssi_dbm: Option<i16>,
    /// Signal-to-noise ratio of the frame in dB.
    pub snr_db: Option<i8>,
    /// Link quality on a `0..=255` scale, for radios that report one.
    pub quality: Option<u8>,
}

impl Default for LinkMetrics {
    fn default() -> (m: LinkMetrics)
        ensures
            m == (LinkMetrics { rssi_dbm: None, snr_db: None, quality: None }),
    {
        LinkMetrics { rssi_dbm: None, snr_db: None, quality: None }
    }
}

/// No two errors are told in the same words.
pub proof fn link_errors_have_words_of_their_own(a: LinkError, b: LinkError)
    requires
        a != b,
    ensures
        a.words() != b.words(),
{
    reveal_strlit("IO error");
    reveal_strlit("transmit failed");
    reveal_strlit("link not present");
    reveal_strlit("receive failed");
    reveal_strlit("buffer full");
    reveal_strlit("invalid packet");
    if a.words().len() == b.words().len() {
        assert(a.words()[0] != b.words()[0]);
    }
}

} // verus!
