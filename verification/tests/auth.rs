//! Membership credentials: keys, certificates, revocations and frame tags.

use wayfinder::auth::authority::Authority;
use wayfinder::auth::cert::MembershipCert;
use wayfinder::auth::cert::TrustAnchor;
use wayfinder::auth::error::AuthError;
use wayfinder::auth::key::verify_signature;
use wayfinder::auth::key::Keypair;
use wayfinder::auth::mac::derive_mac;
use wayfinder::auth::mac::force_locally_administered_unicast;
use wayfinder::auth::pairwise::frame_tag;
use wayfinder::auth::pairwise::verify_frame_tag;
use wayfinder::auth::revoke::RevocationRecord;
use wayfinder::frame::Mac;

fn mac(n: u8) -> Mac {
    Mac([0, 0, 0, 0, 0, n])
}

/// The anchor exposes the mesh id and the root's public key.
#[test]
fn trust_anchor_matches_root() {
    let authority = Authority::from_seed(&[1u8; 32], 0xABCD);
    let anchor = authority.trust_anchor();
    assert_eq!(anchor.mesh_id, 0xABCD);
    assert_eq!(
        anchor.root_pubkey,
        Keypair::from_seed(&[1u8; 32]).ed_pubkey()
    );
}

/// Two authorities with different seeds produce different anchors even on
/// the same mesh id — distinct roots of trust.
#[test]
fn distinct_roots_distinct_anchors() {
    let a = Authority::from_seed(&[1u8; 32], 0xABCD);
    let b = Authority::from_seed(&[2u8; 32], 0xABCD);
    assert_ne!(a.trust_anchor().root_pubkey, b.trust_anchor().root_pubkey);
    // And a's cert does not verify under b's anchor.
    let node = Keypair::from_seed(&[3u8; 32]);
    let cert = a.issue_cert(mac(1), node.ed_pubkey(), node.x_pubkey(), 0, 100);
    assert!(b.trust_anchor().verify_cert(&cert, 50).is_err());
}

/// A trust anchor round-trips through its serialized file form.
#[test]
fn trust_anchor_roundtrips_through_bytes() {
    let anchor = Authority::from_seed(&[1u8; 32], 0xABCD).trust_anchor();
    let bytes = anchor.to_bytes();
    assert_eq!(bytes.len(), 36);
    assert_eq!(TrustAnchor::from_bytes(&bytes), Some(anchor));
    // Too-short input is rejected rather than panicking.
    assert_eq!(TrustAnchor::from_bytes(&bytes[..10]), None);
}

/// A cert issued by an authority verifies against that authority's anchor
/// within its validity window, and yields the bound keys.
#[test]
fn issued_cert_verifies() {
    let authority = Authority::from_seed(&[1u8; 32], 0xABCD);
    let node = Keypair::from_seed(&[2u8; 32]);
    let cert = authority.issue_cert(mac(5), node.ed_pubkey(), node.x_pubkey(), 100, 200);

    let verified = authority.trust_anchor().verify_cert(&cert, 150).unwrap();
    assert_eq!(verified.mac, mac(5));
    assert_eq!(verified.ed_pubkey, node.ed_pubkey());
    assert_eq!(verified.x_pubkey, node.x_pubkey());
    assert_eq!(verified.not_after, 200);
}

/// A cert from another mesh's authority fails on the trust-anchor signature
/// (different root key) — this is the segregation property.
#[test]
fn foreign_authority_cert_rejected() {
    let ours = Authority::from_seed(&[1u8; 32], 0xABCD);
    let theirs = Authority::from_seed(&[9u8; 32], 0xABCD);
    let node = Keypair::from_seed(&[2u8; 32]);
    let cert = theirs.issue_cert(mac(5), node.ed_pubkey(), node.x_pubkey(), 100, 200);
    assert_eq!(
        ours.trust_anchor().verify_cert(&cert, 150),
        Err(AuthError::BadSignature)
    );
}

/// A cert for a different mesh id is rejected before the signature check.
#[test]
fn wrong_mesh_rejected() {
    let authority = Authority::from_seed(&[1u8; 32], 0x1111);
    let node = Keypair::from_seed(&[2u8; 32]);
    let cert = authority.issue_cert(mac(5), node.ed_pubkey(), node.x_pubkey(), 100, 200);
    let mut anchor = authority.trust_anchor();
    anchor.mesh_id = 0x2222;
    assert_eq!(anchor.verify_cert(&cert, 150), Err(AuthError::WrongMesh));
}

/// The validity window is enforced at both ends.
#[test]
fn expiry_window_enforced() {
    let authority = Authority::from_seed(&[1u8; 32], 0xABCD);
    let node = Keypair::from_seed(&[2u8; 32]);
    let cert = authority.issue_cert(mac(5), node.ed_pubkey(), node.x_pubkey(), 100, 200);
    let anchor = authority.trust_anchor();
    assert_eq!(anchor.verify_cert(&cert, 99), Err(AuthError::NotYetValid));
    assert_eq!(anchor.verify_cert(&cert, 201), Err(AuthError::Expired));
    assert!(anchor.verify_cert(&cert, 100).is_ok());
    assert!(anchor.verify_cert(&cert, 200).is_ok());
}

/// Tampering with any signed field invalidates the signature.
#[test]
fn tampered_cert_rejected() {
    let authority = Authority::from_seed(&[1u8; 32], 0xABCD);
    let node = Keypair::from_seed(&[2u8; 32]);
    let mut cert = authority.issue_cert(mac(5), node.ed_pubkey(), node.x_pubkey(), 100, 200);
    // Flip the bound MAC; the signature no longer covers these bytes.
    cert.node_mac = mac(6).0;
    assert_eq!(
        authority.trust_anchor().verify_cert(&cert, 150),
        Err(AuthError::BadSignature)
    );
}

/// A cert parses from its own bytes unchanged (wire round-trip).
#[test]
fn cert_roundtrips_through_bytes() {
    let authority = Authority::from_seed(&[1u8; 32], 0xABCD);
    let node = Keypair::from_seed(&[2u8; 32]);
    let cert = authority.issue_cert(mac(5), node.ed_pubkey(), node.x_pubkey(), 100, 200);
    let bytes = cert.as_bytes().to_vec();
    let parsed = MembershipCert::from_bytes(&bytes).unwrap();
    assert!(authority.trust_anchor().verify_cert(&parsed, 150).is_ok());
}


/// A seed deterministically yields the same keys every time.
#[test]
fn from_seed_is_deterministic() {
    let a = Keypair::from_seed(&[7u8; 32]);
    let b = Keypair::from_seed(&[7u8; 32]);
    assert_eq!(a.ed_pubkey(), b.ed_pubkey());
    assert_eq!(a.x_pubkey(), b.x_pubkey());
}

/// Distinct seeds yield distinct identities.
#[test]
fn different_seeds_differ() {
    let a = Keypair::from_seed(&[1u8; 32]);
    let b = Keypair::from_seed(&[2u8; 32]);
    assert_ne!(a.ed_pubkey(), b.ed_pubkey());
}

/// A signature from a key verifies under that key's public half, and a
/// tampered message does not.
#[test]
fn sign_then_verify_roundtrips() {
    let kp = Keypair::from_seed(&[42u8; 32]);
    let msg = b"originator message header";
    let sig = kp.sign(msg);
    assert!(verify_signature(&kp.ed_pubkey(), msg, &sig));
    assert!(!verify_signature(
        &kp.ed_pubkey(),
        b"different bytes!!",
        &sig
    ));
}

/// A signature does not verify under a different node's public key.
#[test]
fn signature_rejected_for_wrong_key() {
    let signer = Keypair::from_seed(&[3u8; 32]);
    let other = Keypair::from_seed(&[4u8; 32]);
    let sig = signer.sign(b"hello");
    assert!(!verify_signature(&other.ed_pubkey(), b"hello", &sig));
}

/// Both ends of a pair derive the identical pairwise key from their own
/// secret and the peer's public X25519 key (the no-handshake property).
#[test]
fn pairwise_key_agreement_is_symmetric() {
    let a = Keypair::from_seed(&[10u8; 32]);
    let b = Keypair::from_seed(&[20u8; 32]);
    let ka = a.pairwise_key(&b.x_pubkey());
    let kb = b.pairwise_key(&a.x_pubkey());
    assert_eq!(ka, kb);
}

/// A third party derives a different key — it cannot reconstruct the pair's
/// shared secret without one of their private keys.
#[test]
fn pairwise_key_differs_for_third_party() {
    let a = Keypair::from_seed(&[10u8; 32]);
    let b = Keypair::from_seed(&[20u8; 32]);
    let eve = Keypair::from_seed(&[99u8; 32]);
    let ab = a.pairwise_key(&b.x_pubkey());
    let eve_b = eve.pairwise_key(&b.x_pubkey());
    assert_ne!(ab, eve_b);
}

/// The same public key always derives the same MAC.
#[test]
fn derive_mac_is_deterministic() {
    let kp = Keypair::from_seed(&[7u8; 32]);
    let a = derive_mac(&kp.ed_pubkey());
    let b = derive_mac(&kp.ed_pubkey());
    assert_eq!(a, b);
}

/// The derived MAC always has the locally-administered bit (0x02) set on
/// its first octet, per the standard MAC addressing convention for
/// software-assigned (non-vendor) addresses.
#[test]
fn derive_mac_sets_locally_administered_bit() {
    let kp = Keypair::from_seed(&[1u8; 32]);
    let mac = derive_mac(&kp.ed_pubkey());
    assert_eq!(mac.0[0] & 0x02, 0x02);
}

/// The derived MAC always has the multicast/group bit (0x01) cleared on its
/// first octet — it must be usable as a unicast interface address.
#[test]
fn derive_mac_clears_multicast_bit() {
    let kp = Keypair::from_seed(&[1u8; 32]);
    let mac = derive_mac(&kp.ed_pubkey());
    assert_eq!(mac.0[0] & 0x01, 0x00);
}

/// Distinct identity keys derive distinct MACs.
#[test]
fn derive_mac_differs_for_distinct_keys() {
    let a = Keypair::from_seed(&[1u8; 32]);
    let b = Keypair::from_seed(&[2u8; 32]);
    assert_ne!(derive_mac(&a.ed_pubkey()), derive_mac(&b.ed_pubkey()));
}

/// `Keypair::derived_mac` agrees with the free function it wraps.
#[test]
fn keypair_derived_mac_matches_free_fn() {
    let kp = Keypair::from_seed(&[42u8; 32]);
    assert_eq!(kp.derived_mac(), derive_mac(&kp.ed_pubkey()));
}

const A: &[u8] = b"node-a";
const B: &[u8] = b"node-b";

/// A tag verifies against the exact key/counter/context/frame it was made with.
#[test]
fn tag_roundtrips() {
    let key = [7u8; 32];
    let frame = b"dst|src|proto|payload";
    let tag = frame_tag(&key, 1, A, frame);
    assert!(verify_frame_tag(&key, 1, A, frame, &tag));
}

/// Changing the frame bytes invalidates the tag (integrity).
#[test]
fn tampered_frame_fails() {
    let key = [7u8; 32];
    let tag = frame_tag(&key, 1, A, b"original frame");
    assert!(!verify_frame_tag(&key, 1, A, b"tampered frame", &tag));
}

/// Replaying a tag under a different counter fails (replay resistance).
#[test]
fn counter_bound_into_tag() {
    let key = [7u8; 32];
    let frame = b"frame";
    let tag = frame_tag(&key, 1, A, frame);
    assert!(!verify_frame_tag(&key, 2, A, frame, &tag));
}

/// A different (e.g. foreign-mesh) key produces a different tag.
#[test]
fn wrong_key_fails() {
    let frame = b"frame";
    let tag = frame_tag(&[1u8; 32], 1, A, frame);
    assert!(!verify_frame_tag(&[2u8; 32], 1, A, frame, &tag));
}

/// A tag made with sender context `A` does not verify under context `B`,
/// even with the same (symmetric) key — so an `A→B` frame cannot be reflected
/// back to `A` as if it came from `B`.
#[test]
fn context_prevents_reflection() {
    let key = [7u8; 32];
    let frame = b"frame";
    let tag = frame_tag(&key, 1, A, frame);
    assert!(!verify_frame_tag(&key, 1, B, frame, &tag));
}

/// A revocation issued by an authority verifies against its anchor and names
/// the revoked MAC.
#[test]
fn issued_revocation_verifies() {
    let authority = Authority::from_seed(&[1u8; 32], 0xABCD);
    let record = authority.revoke(mac(7), 500, 1000);
    assert_eq!(
        authority.trust_anchor().verify_revocation(&record, 0),
        Ok(mac(7))
    );
}

/// A revocation that has already expired is refused by the anchor itself,
/// rather than by whatever the caller remembers to check afterwards.
///
/// The cancelled certificate has expired too, so there is nothing left to
/// enforce — and the function a new caller reaches for should be the one
/// that says so.
#[test]
fn an_expired_revocation_is_refused() {
    let authority = Authority::from_seed(&[1u8; 32], 0xABCD);
    let record = authority.revoke(mac(7), 500, 1000);

    assert_eq!(
        authority.trust_anchor().verify_revocation(&record, 1000),
        Err(AuthError::Expired),
        "not_after is the instant it stops applying, not the last instant it does"
    );
    assert_eq!(
        authority.trust_anchor().verify_revocation(&record, 999),
        Ok(mac(7))
    );
}

/// A revocation dated to take effect later still verifies.
///
/// Deliberately asymmetric with expiry, and the asymmetry is the point: a
/// record whose `not_before` has not arrived is one a node should *store*
/// and enforce when it does, so refusing it here would discard a valid
/// statement about the future. Whether it is in force *now* is a separate
/// question, answered where the revocation set is consulted.
#[test]
fn a_revocation_not_yet_in_force_still_verifies() {
    let authority = Authority::from_seed(&[1u8; 32], 0xABCD);
    let record = authority.revoke(mac(7), 500, 1000);

    assert_eq!(
        authority.trust_anchor().verify_revocation(&record, 100),
        Ok(mac(7))
    );
}

/// A node whose clock has never been set treats every revocation as
/// unexpired, rather than discarding all of them.
///
/// An embedded node boots with no time source, and a revocation is the one
/// message it most needs to act on. Zero falls out of the comparison
/// correctly — nothing is `not_after <= 0` — so this needs no special case,
/// only a test to keep one from being introduced.
#[test]
fn an_unset_clock_expires_nothing() {
    let authority = Authority::from_seed(&[1u8; 32], 0xABCD);
    let record = authority.revoke(mac(7), 500, 1000);

    assert_eq!(
        authority.trust_anchor().verify_revocation(&record, 0),
        Ok(mac(7))
    );
}

/// A forged revocation (wrong signing key) is rejected, so an attacker
/// cannot evict honest members.
#[test]
fn forged_revocation_rejected() {
    let real = Authority::from_seed(&[1u8; 32], 0xABCD);
    let attacker = Authority::from_seed(&[8u8; 32], 0xABCD);
    let record = attacker.revoke(mac(7), 500, 1000);
    assert_eq!(
        real.trust_anchor().verify_revocation(&record, 0),
        Err(AuthError::BadSignature)
    );
}

/// Tampering with the expiry (covered by the signed body) is rejected.
#[test]
fn tampered_not_after_rejected() {
    let authority = Authority::from_seed(&[1u8; 32], 0xABCD);
    let mut record = authority.revoke(mac(7), 500, 1000);
    record.not_after = 9_999;
    assert_eq!(
        authority.trust_anchor().verify_revocation(&record, 0),
        Err(AuthError::BadSignature)
    );
}

/// A revocation for another mesh is rejected.
#[test]
fn wrong_mesh_revocation_rejected() {
    let authority = Authority::from_seed(&[1u8; 32], 0x1111);
    let record = authority.revoke(mac(7), 500, 1000);
    let mut anchor = authority.trust_anchor();
    anchor.mesh_id = 0x2222;
    assert_eq!(
        anchor.verify_revocation(&record, 0),
        Err(AuthError::WrongMesh)
    );
}

/// The signature is the standard one: the first test vector of RFC 8032, whose
/// message is empty.
#[test]
fn keys_and_signatures_are_ed25519() {
    let seed = [
        0x9d, 0x61, 0xb1, 0x9d, 0xef, 0xfd, 0x5a, 0x60, 0xba, 0x84, 0x4a, 0xf4, 0x92, 0xec, 0x2c,
        0xc4, 0x44, 0x49, 0xc5, 0x69, 0x7b, 0x32, 0x69, 0x19, 0x70, 0x3b, 0xac, 0x03, 0x1c, 0xae,
        0x7f, 0x60,
    ];
    let kp = Keypair::from_seed(&seed);
    assert_eq!(
        kp.ed_pubkey(),
        [
            0xd7, 0x5a, 0x98, 0x01, 0x82, 0xb1, 0x0a, 0xb7, 0xd5, 0x4b, 0xfe, 0xd3, 0xc9, 0x64,
            0x07, 0x3a, 0x0e, 0xe1, 0x72, 0xf3, 0xda, 0xa6, 0x23, 0x25, 0xaf, 0x02, 0x1a, 0x68,
            0xf7, 0x07, 0x51, 0x1a,
        ]
    );
    let sig = kp.sign(&[]);
    assert_eq!(&sig[..8], &[0xe5, 0x56, 0x43, 0x00, 0xc3, 0x60, 0xac, 0x72]);
    assert!(verify_signature(&kp.ed_pubkey(), &[], &sig));
}

/// A key that is not a point on the curve verifies nothing.
#[test]
fn malformed_key_verifies_nothing() {
    let kp = Keypair::from_seed(&[5u8; 32]);
    let sig = kp.sign(b"x");
    let mut bad = kp.ed_pubkey();
    bad[0] ^= 1;
    assert!(!verify_signature(&bad, b"x", &sig));
    assert!(!verify_signature(&[2u8; 32], b"x", &sig));
}

/// A key drawn from the operating system is not the same twice.
#[test]
fn generated_keys_differ() {
    let a = Keypair::generate().expect("entropy");
    let b = Keypair::generate().expect("entropy");
    assert_ne!(a.ed_pubkey(), b.ed_pubkey());
}

/// A drawn seed gives its own keys, and none gives none.
#[test]
fn entropy_decides_the_keys() {
    let drawn = Keypair::from_entropy(Some([7u8; 32])).unwrap();
    assert_eq!(drawn.ed_pubkey(), Keypair::from_seed(&[7u8; 32]).ed_pubkey());
    assert!(Keypair::from_entropy(None).is_none());
}

/// The two address bits are forced, and nothing else changes.
#[test]
fn forced_bits_leave_the_rest() {
    let mut octets = [0xf5, 1, 2, 3, 4, 5];
    force_locally_administered_unicast(&mut octets);
    assert_eq!(octets, [0xf6, 1, 2, 3, 4, 5]);
}

/// A revocation reads back from its bytes.
#[test]
fn revocation_roundtrips_through_bytes() {
    let authority = Authority::from_seed(&[1u8; 32], 0xABCD);
    let record = authority.revoke(mac(7), 500, 1000);
    let bytes = record.as_bytes();
    let back = RevocationRecord::from_bytes(&bytes).unwrap();
    assert_eq!(authority.trust_anchor().verify_revocation(&back, 0), Ok(mac(7)));
    assert!(RevocationRecord::from_bytes(&bytes[..bytes.len() - 1]).is_none());
}

/// A truncated certificate is not one.
#[test]
fn truncated_cert_is_refused() {
    let authority = Authority::from_seed(&[1u8; 32], 0xABCD);
    let node = Keypair::from_seed(&[2u8; 32]);
    let bytes = authority
        .issue_cert(mac(5), node.ed_pubkey(), node.x_pubkey(), 100, 200)
        .as_bytes();
    assert!(MembershipCert::from_bytes(&bytes[..bytes.len() - 1]).is_none());
    assert_eq!(authority.mesh_id(), 0xABCD);
}

/// A tag of another length of context is another tag, though the bytes that
/// follow one another are the same.
#[test]
fn context_and_frame_do_not_run_together() {
    let key = [7u8; 32];
    let a = frame_tag(&key, 1, b"ab", b"c");
    let b = frame_tag(&key, 1, b"a", b"bc");
    assert_ne!(a, b);
}
