//! Deployment parameters of a host's link.

use vstd::prelude::*;

use crate::time::Duration;

verus! {

/// Default time, in milliseconds, each fragment's advertisement stays up.
pub const DEFAULT_ADVERTISE_DWELL_MILLIS: u64 = 150;

/// Interval, in milliseconds, at which an advertisement repeats on air.
pub const ADVERTISING_INTERVAL_MILLIS: u64 = 20;

/// Deployment parameters of a host's link.
#[derive(Debug)]
pub struct BleLinkParams {
    /// Adapter to use (e.g. `hci0`), or the system's default.
    pub adapter: Option<String>,
    /// How long each fragment's advertisement stays up.
    pub advertise_dwell: Duration,
}

impl Default for BleLinkParams {
    fn default() -> (p: BleLinkParams)
        ensures
            p.adapter is None,
            p.advertise_dwell.nanos == DEFAULT_ADVERTISE_DWELL_MILLIS * 1_000_000,
    {
        BleLinkParams {
            adapter: None,
            advertise_dwell: Duration::from_millis(DEFAULT_ADVERTISE_DWELL_MILLIS),
        }
    }
}

} // verus!
