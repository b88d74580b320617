//! Cryptographic identity and mesh membership.
//!
//! A node belongs to a mesh if it holds a [`MembershipCert`] signed by that
//! mesh's root key, the trust anchor.  A certificate binds an Ed25519 key and an
//! X25519 key to a node address on one mesh for a bounded time.

mod crypto;

pub mod authority;
pub mod cert;
pub mod error;
pub mod key;
pub mod mac;
pub mod names;
pub mod pairwise;
pub mod revoke;

pub use authority::Authority;
pub use cert::MembershipCert;
pub use cert::TrustAnchor;
pub use cert::VerifiedCert;
pub use cert::CERT_VERSION;
pub use error::AuthError;
pub use key::verify_signature;
pub use key::Keypair;
pub use mac::derive_mac;
pub use mac::force_locally_administered_unicast;
pub use pairwise::frame_tag;
pub use pairwise::verify_frame_tag;
pub use pairwise::TAG_LEN;
pub use revoke::RevocationRecord;
pub use revoke::REVOKE_VERSION;
