//! Mesh routing core: link framing, BATMAN-style routing, radio link formats and
//! membership credentials, each stated in contracts and proved.

pub mod ascii;
pub mod at86rf233;
pub mod auth;
pub mod batman;
pub mod blue;
pub mod bounded;
pub mod client;
pub mod codec;
pub mod driver_core;
pub mod frag;
pub mod frame;
pub mod ieee802154;
pub mod link;
pub mod nrf_ieee802154;
pub mod reassembly;
pub mod routing;
pub mod runner;
pub mod rylr998;
pub mod select;
pub mod text;
pub mod time;
pub mod wire;
