//! The RYLR998 LoRa module: its AT commands and replies, the mesh frames carried
//! over them, and a simulated module and air medium.

pub mod client;
pub mod hex;
pub mod link;
pub mod rcv;
pub mod sim;

