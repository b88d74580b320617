//! The mesh certificate authority: it holds the mesh root key, issues member
//! certificates, and signs revocations.

use vstd::prelude::*;

use crate::auth::cert::MembershipCert;
use crate::auth::cert::TrustAnchor;
use crate::auth::cert::CERT_VERSION;
use crate::auth::error::AuthError;
use crate::auth::key::Keypair;
use crate::auth::names::ed25519_public;
use crate::auth::names::ed25519_signature;
use crate::auth::names::has_neutral_commitment;
use crate::auth::revoke::RevocationRecord;
use crate::auth::revoke::REVOKE_VERSION;
use crate::frame::Mac;

verus! {

/// Why a certificate is not valid at `now_unix`, going by its window alone.
pub open spec fn window_fault(not_before: u64, not_after: u64, now_unix: u64) -> Option<AuthError> {
    if now_unix < not_before {
        Some(AuthError::NotYetValid)
    } else if now_unix > not_after {
        Some(AuthError::Expired)
    } else {
        None
    }
}

/// A mesh's certificate authority: custody of the root key and the mesh id it is
/// the root of.
pub struct Authority {
    root: Keypair,
    mesh_id: u32,
}

impl Authority {
    /// The seed of the root key.
    pub closed spec fn root_seed(self) -> Seq<u8> {
        self.root.seed()
    }

    /// The mesh this authority is the root of.
    pub closed spec fn mesh(self) -> u32 {
        self.mesh_id
    }

    /// Whether an anchor is the one of this authority's mesh.
    pub open spec fn is_anchor(self, anchor: TrustAnchor) -> bool {
        anchor.mesh_id == self.mesh() && anchor.root_pubkey@ == ed25519_public(self.root_seed())
    }

    /// Build an authority from a root keypair and its mesh id.
    pub fn new(root: Keypair, mesh_id: u32) -> (a: Authority)
        ensures
            a.root_seed() == root.seed(),
            a.mesh() == mesh_id,
    {
        Authority { root, mesh_id }
    }

    /// Build an authority from the seed of its root key.
    pub fn from_seed(seed: &[u8; 32], mesh_id: u32) -> (a: Authority)
        ensures
            a.root_seed() == seed@,
            a.mesh() == mesh_id,
    {
        Authority::new(Keypair::from_seed(seed), mesh_id)
    }

    /// The mesh id this authority is the root of.
    pub fn mesh_id(&self) -> (id: u32)
        ensures
            id == self.mesh(),
    {
        self.mesh_id
    }

    /// The public trust anchor of this mesh.
    pub fn trust_anchor(&self) -> (t: TrustAnchor)
        ensures
            self.is_anchor(t),
    {
        TrustAnchor { mesh_id: self.mesh_id, root_pubkey: self.root.ed_pubkey() }
    }

    /// Issue a certificate binding `mac` to the given public keys, valid from
    /// `not_before` to `not_after` (unix seconds).  It verifies against this
    /// mesh's anchor exactly within that window, except where the signature's
    /// commitment came out as the neutral point, and against no other mesh's.
    pub fn issue_cert(
        &self,
        mac: Mac,
        ed_pubkey: [u8; 32],
        x_pubkey: [u8; 32],
        not_before: u64,
        not_after: u64,
    ) -> (cert: MembershipCert)
        ensures
            cert.version == CERT_VERSION,
            cert.flags == 0,
            cert.mesh_id == self.mesh(),
            cert.node_mac == mac.0,
            cert.ed_pubkey == ed_pubkey,
            cert.x_pubkey == x_pubkey,
            cert.not_before == not_before,
            cert.not_after == not_after,
            cert.signature@ == ed25519_signature(self.root_seed(), cert.body()),
            forall|anchor: TrustAnchor, now_unix: u64|
                self.is_anchor(anchor) && !has_neutral_commitment(cert.signature@)
                    ==> #[trigger] anchor.cert_fault(cert, now_unix) == window_fault(
                    not_before,
                    not_after,
                    now_unix,
                ),
            forall|anchor: TrustAnchor, now_unix: u64|
                anchor.mesh_id != self.mesh() ==> #[trigger] anchor.cert_fault(cert, now_unix)
                    == Some(AuthError::WrongMesh),
    {
        let mut cert = MembershipCert {
            version: CERT_VERSION,
            flags: 0,
            mesh_id: self.mesh_id,
            node_mac: mac.0,
            ed_pubkey,
            x_pubkey,
            not_before,
            not_after,
            signature: [0u8; 64],
        };
        let body: Vec<u8> = cert.signed_body();
        cert.signature = self.root.sign(body.as_slice());
        cert
    }

    /// Sign a revocation of `mac`, in effect from `not_before` and forgotten at
    /// `not_after` (unix seconds).  It verifies against this mesh's anchor until
    /// then, except where the signature's commitment came out as the neutral
    /// point, and against no other mesh's.
    pub fn revoke(&self, mac: Mac, not_before: u64, not_after: u64) -> (record: RevocationRecord)
        ensures
            record.version == REVOKE_VERSION,
            record.flags == 0,
            record.mesh_id == self.mesh(),
            record.node_mac == mac.0,
            record.not_before == not_before,
            record.not_after == not_after,
            record.signature@ == ed25519_signature(self.root_seed(), record.body()),
            forall|anchor: TrustAnchor, now_unix: u64|
                self.is_anchor(anchor) && !has_neutral_commitment(record.signature@)
                    ==> #[trigger] anchor.revocation_fault(record, now_unix) == (if not_after
                    <= now_unix {
                    Some(AuthError::Expired)
                } else {
                    None
                }),
            forall|anchor: TrustAnchor, now_unix: u64|
                anchor.mesh_id != self.mesh() ==> #[trigger] anchor.revocation_fault(
                    record,
                    now_unix,
                ) == Some(AuthError::WrongMesh),
    {
        let mut record = RevocationRecord {
            version: REVOKE_VERSION,
            flags: 0,
            mesh_id: self.mesh_id,
            node_mac: mac.0,
            not_before,
            not_after,
            signature: [0u8; 64],
        };
        let body: Vec<u8> = record.signed_body();
        record.signature = self.root.sign(body.as_slice());
        record
    }
}

/// A window is open from its first second to its last, both included.
pub proof fn window_is_open_within(not_before: u64, not_after: u64, now_unix: u64)
    ensures
        window_fault(not_before, not_after, now_unix) is None <==> not_before <= now_unix
            && now_unix <= not_after,
        now_unix < not_before ==> window_fault(not_before, not_after, now_unix) == Some(
            AuthError::NotYetValid,
        ),
        not_before <= now_unix && now_unix > not_after ==> window_fault(
            not_before,
            not_after,
            now_unix,
        ) == Some(AuthError::Expired),
{
}

} // verus!
