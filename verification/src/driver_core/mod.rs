//! What every driver shell shares: turning received frames and due timers into
//! outgoing frames, and deciding how each of those goes on the wire.
//!
//! A shell hands in what its router decided and does the I/O for what comes out.

pub mod directed;
pub mod dispatch;
pub mod interface_set;
pub mod poll;
pub mod sink;
