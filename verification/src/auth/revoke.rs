//! The signed revocation record: active removal of a node, complementing the
//! passive removal that certificate expiry gives.

use vstd::prelude::*;

use crate::auth::cert::TrustAnchor;
use crate::auth::error::AuthError;
use crate::auth::key::verify_signature;
use crate::auth::names::ed25519_accepts;
use crate::codec::be32;
use crate::codec::be32_of_bytes;
use crate::codec::be64;
use crate::codec::be64_at;
use crate::codec::be64_of_bytes;
use crate::codec::be64_reads_back;
use crate::codec::read_array;
use crate::codec::read_u32_be;
use crate::codec::read_u64_be;
use crate::codec::u32_be;
use crate::codec::u64_be;
use crate::frame::Mac;

verus! {

/// Version byte of every revocation record, and the only one accepted.
pub const REVOKE_VERSION: u8 = 1;

/// Length in bytes of a serialized revocation record.
pub const REVOCATION_LEN: usize = 92;

/// Length in bytes of the part of a record that its signature covers.
pub const REVOCATION_BODY_LEN: usize = 28;

/// A mesh root's signed statement that a node address is no longer a member,
/// flooded across the mesh.
#[derive(Clone, Copy, Debug)]
pub struct RevocationRecord {
    /// Layout marker; must equal [`REVOKE_VERSION`].
    pub version: u8,
    /// Reserved flag bits; sent as 0.
    pub flags: u8,
    /// The mesh this revocation applies to.
    pub mesh_id: u32,
    /// The node address being revoked.
    pub node_mac: [u8; 6],
    /// Unix seconds at which the revocation takes effect.
    pub not_before: u64,
    /// Unix seconds at which the revocation stops applying and may be
    /// forgotten: no earlier than the revoked certificate's own expiry.
    pub not_after: u64,
    /// Signature by the mesh root over every field before it.
    pub signature: [u8; 64],
}

impl RevocationRecord {
    /// The bytes the signature covers: every field but the signature, numbers
    /// big endian.
    pub open spec fn body(self) -> Seq<u8> {
        seq![self.version, self.flags] + be32(self.mesh_id) + self.node_mac@ + be64(
            self.not_before,
        ) + be64(self.not_after)
    }

    /// The record's bytes.
    pub open spec fn bytes(self) -> Seq<u8> {
        self.body() + self.signature@
    }

    /// The bytes the signature covers.
    pub fn signed_body(&self) -> (b: Vec<u8>)
        ensures
            b@ == self.body(),
            b@.len() == REVOCATION_BODY_LEN,
    {
        let mut b: Vec<u8> = Vec::new();
        b.push(self.version);
        b.push(self.flags);
        b.extend_from_slice(&u32_be(self.mesh_id));
        b.extend_from_slice(&self.node_mac);
        b.extend_from_slice(&u64_be(self.not_before));
        b.extend_from_slice(&u64_be(self.not_after));
        assert(b@ =~= self.body());
        b
    }

    /// The record's bytes.
    pub fn as_bytes(&self) -> (b: Vec<u8>)
        ensures
            b@ == self.bytes(),
            b@.len() == REVOCATION_LEN,
    {
        let mut b: Vec<u8> = self.signed_body();
        b.extend_from_slice(&self.signature);
        assert(b@ =~= self.bytes());
        b
    }

    /// Read a record off the front of `bytes`, ignoring what follows it; `None`
    /// when `bytes` is shorter than a record.
    pub fn from_bytes(bytes: &[u8]) -> (r: Option<RevocationRecord>)
        ensures
            match r {
                Some(record) => bytes@.len() >= REVOCATION_LEN && record.bytes() == bytes@.subrange(
                    0,
                    REVOCATION_LEN as int,
                ),
                None => bytes@.len() < REVOCATION_LEN,
            },
    {
        if bytes.len() < REVOCATION_LEN {
            return None;
        }
        let record = RevocationRecord {
            version: bytes[0],
            flags: bytes[1],
            mesh_id: read_u32_be(bytes, 2),
            node_mac: read_array(bytes, 6),
            not_before: read_u64_be(bytes, 12),
            not_after: read_u64_be(bytes, 20),
            signature: read_array(bytes, 28),
        };
        proof {
            be32_of_bytes(bytes@, 2);
            be64_of_bytes(bytes@, 12);
            be64_of_bytes(bytes@, 20);
            assert(record.bytes() =~= bytes@.subrange(0, 92));
        }
        Some(record)
    }
}

impl TrustAnchor {
    /// Why a revocation does not verify as of `now_unix`, if it does not: the
    /// first that fails of its version, its mesh, its signature and its expiry.
    /// One that has yet to take effect verifies.
    pub open spec fn revocation_fault(self, record: RevocationRecord, now_unix: u64) -> Option<
        AuthError,
    > {
        if record.version != REVOKE_VERSION {
            Some(AuthError::BadVersion)
        } else if record.mesh_id != self.mesh_id {
            Some(AuthError::WrongMesh)
        } else if !ed25519_accepts(self.root_pubkey@, record.body(), record.signature@) {
            Some(AuthError::BadSignature)
        } else if record.not_after <= now_unix {
            Some(AuthError::Expired)
        } else {
            None
        }
    }

    /// Verify a flooded `record` against this anchor as of `now_unix`, yielding
    /// the revoked address, or the first fault.
    pub fn verify_revocation(&self, record: &RevocationRecord, now_unix: u64) -> (r: Result<
        Mac,
        AuthError,
    >)
        ensures
            match r {
                Ok(m) => self.revocation_fault(*record, now_unix) is None && m == Mac(
                    record.node_mac,
                ),
                Err(e) => self.revocation_fault(*record, now_unix) == Some(e),
            },
            r is Ok <==> record.version == 1 && record.mesh_id == self.mesh_id && ed25519_accepts(
                self.root_pubkey@,
                record.bytes().subrange(0, 28),
                record.bytes().subrange(28, 92),
            ) && now_unix < record.not_after,
            r matches Ok(m) ==> m.0@ == record.bytes().subrange(6, 12),
    {
        proof {
            revocation_layout(*record);
        }
        if record.version != REVOKE_VERSION {
            return Err(AuthError::BadVersion);
        }
        if record.mesh_id != self.mesh_id {
            return Err(AuthError::WrongMesh);
        }
        let body: Vec<u8> = record.signed_body();
        if !verify_signature(&self.root_pubkey, body.as_slice(), &record.signature) {
            return Err(AuthError::BadSignature);
        }
        if record.not_after <= now_unix {
            return Err(AuthError::Expired);
        }
        Ok(Mac(record.node_mac))
    }
}

/// With a clock that was never set, no revocation that ends after the epoch has
/// expired.
pub proof fn unset_clock_expires_nothing(anchor: TrustAnchor, record: RevocationRecord)
    requires
        record.not_after > 0,
    ensures
        anchor.revocation_fault(record, 0) != Some(AuthError::Expired),
{
}

/// A revocation is accepted exactly where its version is the known one, it is of
/// this mesh, the root signed it, and it has not yet run out, whether or not it has
/// taken effect.  Each fault is named for what is wrong.
pub proof fn revocation_is_judged_by_all_four(
    anchor: TrustAnchor,
    record: RevocationRecord,
    now_unix: u64,
)
    ensures
        ({
            let fault = anchor.revocation_fault(record, now_unix);
            let signed = ed25519_accepts(anchor.root_pubkey@, record.body(), record.signature@);
            &&& fault is None <==> record.version == 1 && record.mesh_id == anchor.mesh_id
                && signed && now_unix < record.not_after
            &&& fault matches Some(AuthError::BadVersion) ==> record.version != 1
            &&& fault matches Some(AuthError::WrongMesh) ==> record.mesh_id != anchor.mesh_id
            &&& fault matches Some(AuthError::BadSignature) ==> !signed
            &&& fault matches Some(AuthError::Expired) ==> now_unix >= record.not_after && signed
            &&& !(fault matches Some(AuthError::NotYetValid))
            &&& !(fault matches Some(AuthError::Malformed))
            &&& !(fault matches Some(AuthError::Revoked))
            &&& record.version == 1 && record.mesh_id != anchor.mesh_id ==> fault == Some(
                AuthError::WrongMesh,
            )
            &&& record.version == 1 && record.mesh_id == anchor.mesh_id && !signed ==> fault
                == Some(AuthError::BadSignature)
        }),
{
}

/// Where each field of a revocation stands in its bytes.  Its signature covers
/// every other field.
pub proof fn revocation_layout(record: RevocationRecord)
    ensures
        ({
            let b = record.bytes();
            &&& b.len() == 92
            &&& b[0] == record.version
            &&& b[1] == record.flags
            &&& b[2] * 0x100_0000 + b[3] * 0x1_0000 + b[4] * 0x100 + b[5] == record.mesh_id
            &&& b.subrange(6, 12) == record.node_mac@
            &&& be64_at(b, 12) == record.not_before
            &&& be64_at(b, 20) == record.not_after
            &&& b.subrange(28, 92) == record.signature@
            &&& record.body() == b.subrange(0, 28)
        }),
{
    let b = record.bytes();
    assert(b.subrange(6, 12) =~= record.node_mac@);
    assert(b.subrange(12, 20) =~= be64(record.not_before));
    assert(b.subrange(20, 28) =~= be64(record.not_after));
    be64_reads_back(record.not_before, b, 12);
    be64_reads_back(record.not_after, b, 20);
    assert(b.subrange(28, 92) =~= record.signature@);
    assert(record.body() =~= b.subrange(0, 28));
}

} // verus!
