//! Errors bringing up the radio's background tasks.

use vstd::prelude::*;

verus! {

/// An error bringing up the radio's background tasks.
#[derive(Debug, Clone, Copy, PartialEq, Eq, Structural)]
pub enum BleError {
    /// Spawning the background scan loop failed.
    ScanTaskSpawn,
}

} // verus!
