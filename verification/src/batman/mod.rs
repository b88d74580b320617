//! The BATMAN-style mesh routing protocol: topology discovery by periodic
//! originator messages, hop-by-hop forwarding, and adaptive emission pacing.

pub mod ageing;
pub mod emit;
pub mod engine;
pub mod laws;
pub mod learning;
pub mod membership;
pub mod model;
pub mod receive;
pub mod relaying;
pub mod runs;
pub mod tables;
pub mod trickle;
pub mod wire;
