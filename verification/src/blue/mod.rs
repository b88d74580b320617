//! The mesh over Bluetooth Low Energy advertising: how a frame is cut into
//! advertisements, and what the scanner does with what it hears.

pub mod ad;
pub mod addr;
pub mod error;
pub mod frame;
pub mod link;
pub mod params;
pub mod scan;
