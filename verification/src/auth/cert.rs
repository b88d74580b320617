//! The membership certificate and the per-mesh trust anchor that verifies it.

use vstd::prelude::*;

use crate::auth::error::AuthError;
use crate::auth::key::verify_signature;
use crate::auth::names::ed25519_accepts;
use crate::codec::be32;
use crate::codec::be32_of_bytes;
use crate::codec::be32_reads_back;
use crate::codec::be64;
use crate::codec::be64_at;
use crate::codec::be64_of_bytes;
use crate::codec::be64_reads_back;
use crate::codec::read_array;
use crate::codec::read_u32_be;
use crate::codec::read_u64_be;
use crate::codec::u32_be;
use crate::codec::u64_be;
use crate::frame::Mac;

verus! {

/// Version byte of every certificate, and the only one accepted.
pub const CERT_VERSION: u8 = 1;

/// Length in bytes of a serialized certificate.
pub const CERT_LEN: usize = 156;

/// Length in bytes of the part of a certificate that its signature covers.
pub const CERT_BODY_LEN: usize = 92;

/// Length in bytes of a serialized trust anchor.
pub const ANCHOR_LEN: usize = 36;

/// The mesh root's signed attestation that an Ed25519 identity key and its
/// companion X25519 key belong to one node address on one mesh for a bounded
/// time.
#[derive(Clone, Copy, Debug)]
pub struct MembershipCert {
    /// Layout marker; must equal [`CERT_VERSION`].
    pub version: u8,
    /// Reserved flag bits; sent as 0.
    pub flags: u8,
    /// The mesh this certificate grants membership to.
    pub mesh_id: u32,
    /// The node address the keys are bound to.
    pub node_mac: [u8; 6],
    /// The node's Ed25519 identity public key.
    pub ed_pubkey: [u8; 32],
    /// The node's X25519 public key.
    pub x_pubkey: [u8; 32],
    /// Unix seconds before which the certificate is not yet valid.
    pub not_before: u64,
    /// Unix seconds after which the certificate has expired.
    pub not_after: u64,
    /// Signature by the mesh root over every field before it.
    pub signature: [u8; 64],
}

impl MembershipCert {
    /// The bytes the signature covers: every field but the signature, numbers
    /// big endian.
    pub open spec fn body(self) -> Seq<u8> {
        seq![self.version, self.flags] + be32(self.mesh_id) + self.node_mac@ + self.ed_pubkey@
            + self.x_pubkey@ + be64(self.not_before) + be64(self.not_after)
    }

    /// The certificate's bytes.
    pub open spec fn bytes(self) -> Seq<u8> {
        self.body() + self.signature@
    }

    /// The bytes the signature covers.
    pub fn signed_body(&self) -> (b: Vec<u8>)
        ensures
            b@ == self.body(),
            b@.len() == CERT_BODY_LEN,
    {
        let mut b: Vec<u8> = Vec::new();
        b.push(self.version);
        b.push(self.flags);
        b.extend_from_slice(&u32_be(self.mesh_id));
        b.extend_from_slice(&self.node_mac);
        b.extend_from_slice(&self.ed_pubkey);
        b.extend_from_slice(&self.x_pubkey);
        b.extend_from_slice(&u64_be(self.not_before));
        b.extend_from_slice(&u64_be(self.not_after));
        assert(b@ =~= self.body());
        b
    }

    /// The certificate's bytes.
    pub fn as_bytes(&self) -> (b: Vec<u8>)
        ensures
            b@ == self.bytes(),
            b@.len() == CERT_LEN,
    {
        let mut b: Vec<u8> = self.signed_body();
        b.extend_from_slice(&self.signature);
        assert(b@ =~= self.bytes());
        b
    }

    /// Read a certificate off the front of `bytes`, ignoring what follows it;
    /// `None` when `bytes` is shorter than a certificate.
    pub fn from_bytes(bytes: &[u8]) -> (c: Option<MembershipCert>)
        ensures
            match c {
                Some(cert) => bytes@.len() >= CERT_LEN && cert.bytes() == bytes@.subrange(
                    0,
                    CERT_LEN as int,
                ),
                None => bytes@.len() < CERT_LEN,
            },
    {
        if bytes.len() < CERT_LEN {
            return None;
        }
        let cert = MembershipCert {
            version: bytes[0],
            flags: bytes[1],
            mesh_id: read_u32_be(bytes, 2),
            node_mac: read_array(bytes, 6),
            ed_pubkey: read_array(bytes, 12),
            x_pubkey: read_array(bytes, 44),
            not_before: read_u64_be(bytes, 76),
            not_after: read_u64_be(bytes, 84),
            signature: read_array(bytes, 92),
        };
        proof {
            be32_of_bytes(bytes@, 2);
            be64_of_bytes(bytes@, 76);
            be64_of_bytes(bytes@, 84);
            assert(cert.bytes() =~= bytes@.subrange(0, 156));
        }
        Some(cert)
    }
}

/// Two certificates whose signatures cover the same bytes agree in every signed
/// field.
pub proof fn signed_body_determines_fields(a: MembershipCert, b: MembershipCert)
    requires
        a.body() == b.body(),
    ensures
        a.version == b.version,
        a.flags == b.flags,
        a.mesh_id == b.mesh_id,
        a.node_mac@ == b.node_mac@,
        a.ed_pubkey@ == b.ed_pubkey@,
        a.x_pubkey@ == b.x_pubkey@,
        a.not_before == b.not_before,
        a.not_after == b.not_after,
{
    let x = a.body();
    assert(x[0] == a.version && x[1] == a.flags);
    assert(x[0] == b.version && x[1] == b.flags);
    assert(x.subrange(2, 6) =~= be32(a.mesh_id));
    assert(x.subrange(2, 6) =~= be32(b.mesh_id));
    be32_reads_back(a.mesh_id, x, 2);
    be32_reads_back(b.mesh_id, x, 2);
    assert(x.subrange(6, 12) =~= a.node_mac@);
    assert(x.subrange(6, 12) =~= b.node_mac@);
    assert(x.subrange(12, 44) =~= a.ed_pubkey@);
    assert(x.subrange(12, 44) =~= b.ed_pubkey@);
    assert(x.subrange(44, 76) =~= a.x_pubkey@);
    assert(x.subrange(44, 76) =~= b.x_pubkey@);
    assert(x.subrange(76, 84) =~= be64(a.not_before));
    assert(x.subrange(76, 84) =~= be64(b.not_before));
    be64_reads_back(a.not_before, x, 76);
    be64_reads_back(b.not_before, x, 76);
    assert(x.subrange(84, 92) =~= be64(a.not_after));
    assert(x.subrange(84, 92) =~= be64(b.not_after));
    be64_reads_back(a.not_after, x, 84);
    be64_reads_back(b.not_after, x, 84);
}

/// The root of trust for one mesh: its identifier and the root public key that
/// signs every member's certificate.
#[derive(Clone, Copy, Debug, PartialEq, Eq)]
pub struct TrustAnchor {
    /// The mesh this anchor is the root of.
    pub mesh_id: u32,
    /// The mesh root's Ed25519 public key.
    pub root_pubkey: [u8; 32],
}

/// The trusted facts of a certificate that verified.
#[derive(Clone, Copy, Debug, PartialEq, Eq)]
pub struct VerifiedCert {
    /// The node address the certificate is bound to.
    pub mac: Mac,
    /// The node's verified Ed25519 identity key.
    pub ed_pubkey: [u8; 32],
    /// The node's verified X25519 agreement key.
    pub x_pubkey: [u8; 32],
    /// When the certificate expires (unix seconds).
    pub not_after: u64,
}

impl TrustAnchor {
    /// The anchor's bytes: the mesh id, big endian, then the root public key.
    pub open spec fn bytes(self) -> Seq<u8> {
        be32(self.mesh_id) + self.root_pubkey@
    }

    /// The anchor's bytes.
    pub fn to_bytes(&self) -> (b: [u8; 36])
        ensures
            b@ == self.bytes(),
    {
        let id: [u8; 4] = u32_be(self.mesh_id);
        let mut b: [u8; 36] = [0u8; 36];
        let mut i: usize = 0;
        while i < 36
            invariant
                i <= 36,
                id@ == be32(self.mesh_id),
                forall|j: int| 0 <= j < i ==> (#[trigger] b@[j]) == self.bytes()[j],
            decreases 36 - i,
        {
            b[i] = if i < 4 { id[i] } else { self.root_pubkey[i - 4] };
            i = i + 1;
        }
        assert(b@ =~= self.bytes());
        b
    }

    /// Read an anchor off the front of `bytes`; `None` when they are too short.
    pub fn from_bytes(bytes: &[u8]) -> (a: Option<TrustAnchor>)
        ensures
            match a {
                Some(anchor) => bytes@.len() >= ANCHOR_LEN && anchor.bytes() == bytes@.subrange(
                    0,
                    ANCHOR_LEN as int,
                ),
                None => bytes@.len() < ANCHOR_LEN,
            },
    {
        if bytes.len() < ANCHOR_LEN {
            return None;
        }
        let anchor = TrustAnchor {
            mesh_id: read_u32_be(bytes, 0),
            root_pubkey: read_array(bytes, 4),
        };
        proof {
            be32_of_bytes(bytes@, 0);
            assert(anchor.bytes() =~= bytes@.subrange(0, 36));
        }
        Some(anchor)
    }

    /// Why a certificate does not verify as of `now_unix`, if it does not: the
    /// first that fails of its version, its mesh, its signature and its validity
    /// window.
    pub open spec fn cert_fault(self, cert: MembershipCert, now_unix: u64) -> Option<AuthError> {
        if cert.version != CERT_VERSION {
            Some(AuthError::BadVersion)
        } else if cert.mesh_id != self.mesh_id {
            Some(AuthError::WrongMesh)
        } else if !ed25519_accepts(self.root_pubkey@, cert.body(), cert.signature@) {
            Some(AuthError::BadSignature)
        } else if now_unix < cert.not_before {
            Some(AuthError::NotYetValid)
        } else if now_unix > cert.not_after {
            Some(AuthError::Expired)
        } else {
            None
        }
    }

    /// Verify `cert` against this anchor as of `now_unix` (unix seconds),
    /// yielding its trusted facts, or the first fault.
    pub fn verify_cert(&self, cert: &MembershipCert, now_unix: u64) -> (r: Result<
        VerifiedCert,
        AuthError,
    >)
        ensures
            match r {
                Ok(v) => self.cert_fault(*cert, now_unix) is None && v == (VerifiedCert {
                    mac: Mac(cert.node_mac),
                    ed_pubkey: cert.ed_pubkey,
                    x_pubkey: cert.x_pubkey,
                    not_after: cert.not_after,
                }),
                Err(e) => self.cert_fault(*cert, now_unix) == Some(e),
            },
            r is Ok <==> cert.version == 1 && cert.mesh_id == self.mesh_id && ed25519_accepts(
                self.root_pubkey@,
                cert.bytes().subrange(0, 92),
                cert.bytes().subrange(92, 156),
            ) && cert.not_before <= now_unix && now_unix <= cert.not_after,
            r matches Ok(v) ==> {
                &&& v.mac.0@ == cert.bytes().subrange(6, 12)
                &&& v.ed_pubkey@ == cert.bytes().subrange(12, 44)
                &&& v.x_pubkey@ == cert.bytes().subrange(44, 76)
                &&& v.not_after == be64_at(cert.bytes(), 84)
            },
    {
        proof {
            certificate_layout(*cert);
        }
        if cert.version != CERT_VERSION {
            return Err(AuthError::BadVersion);
        }
        if cert.mesh_id != self.mesh_id {
            return Err(AuthError::WrongMesh);
        }
        let body: Vec<u8> = cert.signed_body();
        if !verify_signature(&self.root_pubkey, body.as_slice(), &cert.signature) {
            return Err(AuthError::BadSignature);
        }
        if now_unix < cert.not_before {
            return Err(AuthError::NotYetValid);
        }
        if now_unix > cert.not_after {
            return Err(AuthError::Expired);
        }
        Ok(
            VerifiedCert {
                mac: Mac(cert.node_mac),
                ed_pubkey: cert.ed_pubkey,
                x_pubkey: cert.x_pubkey,
                not_after: cert.not_after,
            },
        )
    }
}

/// An anchor is determined by its bytes.
pub proof fn anchor_bytes_injective(a: TrustAnchor, b: TrustAnchor)
    requires
        a.bytes() == b.bytes(),
    ensures
        a.mesh_id == b.mesh_id,
        a.root_pubkey@ == b.root_pubkey@,
{
    let x = a.bytes();
    assert(x.subrange(0, 4) =~= be32(a.mesh_id));
    assert(x.subrange(0, 4) =~= be32(b.mesh_id));
    be32_reads_back(a.mesh_id, x, 0);
    be32_reads_back(b.mesh_id, x, 0);
    assert(x.subrange(4, 36) =~= a.root_pubkey@);
    assert(x.subrange(4, 36) =~= b.root_pubkey@);
}

/// A certificate is accepted only on its own mesh, and only within its window.
pub proof fn accepted_means_this_mesh_now(anchor: TrustAnchor, cert: MembershipCert, now_unix: u64)
    requires
        anchor.cert_fault(cert, now_unix) is None,
    ensures
        cert.mesh_id == anchor.mesh_id,
        cert.not_before <= now_unix <= cert.not_after,
        ed25519_accepts(anchor.root_pubkey@, cert.body(), cert.signature@),
{
}

/// A certificate is accepted exactly where its version is the known one, it is of
/// this mesh, the root signed it, and now is within its window.  Each fault is
/// named for what is wrong.
pub proof fn certificate_is_judged_by_all_four(
    anchor: TrustAnchor,
    cert: MembershipCert,
    now_unix: u64,
)
    ensures
        ({
            let fault = anchor.cert_fault(cert, now_unix);
            let signed = ed25519_accepts(anchor.root_pubkey@, cert.body(), cert.signature@);
            &&& fault is None <==> cert.version == 1 && cert.mesh_id == anchor.mesh_id && signed
                && cert.not_before <= now_unix && now_unix <= cert.not_after
            &&& fault matches Some(AuthError::BadVersion) ==> cert.version != 1
            &&& fault matches Some(AuthError::WrongMesh) ==> cert.mesh_id != anchor.mesh_id
            &&& fault matches Some(AuthError::BadSignature) ==> !signed
            &&& fault matches Some(AuthError::NotYetValid) ==> now_unix < cert.not_before && signed
            &&& fault matches Some(AuthError::Expired) ==> now_unix > cert.not_after && signed
            &&& !(fault matches Some(AuthError::Malformed))
            &&& !(fault matches Some(AuthError::Revoked))
            &&& cert.version == 1 && cert.mesh_id != anchor.mesh_id ==> fault == Some(
                AuthError::WrongMesh,
            )
            &&& cert.version == 1 && cert.mesh_id == anchor.mesh_id && !signed ==> fault == Some(
                AuthError::BadSignature,
            )
        }),
{
}

/// Where each field of a certificate stands in its bytes.
pub proof fn certificate_layout(cert: MembershipCert)
    ensures
        ({
            let b = cert.bytes();
            &&& b.len() == 156
            &&& b[0] == cert.version
            &&& b[1] == cert.flags
            &&& b[2] * 0x100_0000 + b[3] * 0x1_0000 + b[4] * 0x100 + b[5] == cert.mesh_id
            &&& b.subrange(6, 12) == cert.node_mac@
            &&& b.subrange(12, 44) == cert.ed_pubkey@
            &&& b.subrange(44, 76) == cert.x_pubkey@
            &&& be64_at(b, 76) == cert.not_before
            &&& be64_at(b, 84) == cert.not_after
            &&& b.subrange(92, 156) == cert.signature@
            &&& cert.body() == b.subrange(0, 92)
        }),
{
    let b = cert.bytes();
    assert(b.subrange(6, 12) =~= cert.node_mac@);
    assert(b.subrange(12, 44) =~= cert.ed_pubkey@);
    assert(b.subrange(44, 76) =~= cert.x_pubkey@);
    assert(b.subrange(76, 84) =~= be64(cert.not_before));
    assert(b.subrange(84, 92) =~= be64(cert.not_after));
    be64_reads_back(cert.not_before, b, 76);
    be64_reads_back(cert.not_after, b, 84);
    assert(b.subrange(92, 156) =~= cert.signature@);
    assert(cert.body() =~= b.subrange(0, 92));
}

} // verus!
