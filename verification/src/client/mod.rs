//! The management client: who it is, which node it trusts, and what it makes of
//! the node's replies.

pub mod endpoint;
pub mod key;
pub mod reply;
