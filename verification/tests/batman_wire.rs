//! The routing packets' layouts.

use wayfinder::batman::wire::find_tvlv;
use wayfinder::batman::wire::iter_tvlv;
use wayfinder::batman::wire::BatmanBroadcastPacket;
use wayfinder::batman::wire::BatmanCertReplyPacket;
use wayfinder::batman::wire::BatmanCertReqPacket;
use wayfinder::batman::wire::BatmanKeepAlivePacket;
use wayfinder::batman::wire::BatmanMcastPacket;
use wayfinder::batman::wire::BatmanOgmPacket;
use wayfinder::batman::wire::BatmanTvlvHdr;
use wayfinder::batman::wire::BatmanUnicastPacket;
use wayfinder::batman::wire::TvlvType;
use wayfinder::batman::wire::BATADV_BCAST;
use wayfinder::batman::wire::BATADV_CERT_REPLY;
use wayfinder::batman::wire::BATADV_CERT_REQ;
use wayfinder::batman::wire::BATADV_IV_OGM;
use wayfinder::batman::wire::BATADV_KEEPALIVE;
use wayfinder::batman::wire::BATADV_MCAST;
use wayfinder::batman::wire::BATADV_UNICAST;
use wayfinder::frame::Mac;

/// Build a TVLV region from `(type, value)` records packed back-to-back.
fn tvlv_region(records: &[(TvlvType, &[u8])]) -> Vec<u8> {
    let mut out = Vec::new();
    for (ty, value) in records {
        let hdr = BatmanTvlvHdr {
            tvlv_type: ty.as_u8(),
            version: 1,
            len: value.len() as u16,
        };
        out.extend_from_slice(&hdr.as_bytes());
        out.extend_from_slice(value);
    }
    out
}

/// `iter_tvlv` yields *every* record of the requested type in wire order,
/// skipping interleaved records of other types — the property `find_tvlv`
/// (first match only) cannot provide for multi-revocation OGM tails.
#[test]
fn iter_tvlv_yields_every_matching_record() {
    let region = tvlv_region(&[
        (TvlvType::Revoke, &[1, 1]),
        (TvlvType::Mcast, &[9, 9, 9]),
        (TvlvType::Revoke, &[2, 2]),
        (TvlvType::Revoke, &[3, 3]),
    ]);
    let got: Vec<&[u8]> = iter_tvlv(&region, TvlvType::Revoke).collect();
    assert_eq!(got, vec![&[1, 1][..], &[2, 2][..], &[3, 3][..]]);
    // The first-match helper still agrees on the first one.
    assert_eq!(find_tvlv(&region, TvlvType::Revoke), Some(&[1, 1][..]));
}

/// A record whose advertised length overruns the tail terminates the scan
/// rather than reading out of bounds.
#[test]
fn iter_tvlv_stops_on_overrun() {
    let mut region = tvlv_region(&[(TvlvType::Revoke, &[1, 1])]);
    // Corrupt the length field to claim more bytes than remain.
    region[2..4].copy_from_slice(&255u16.to_be_bytes());
    assert_eq!(iter_tvlv(&region, TvlvType::Revoke).count(), 0);
}

/// An empty tail yields nothing.
#[test]
fn iter_tvlv_empty_tail() {
    assert_eq!(iter_tvlv(&[], TvlvType::Revoke).count(), 0);
}

/// The enum's discriminants are the documented on-the-wire bytes.
#[test]
fn tvlv_type_bytes_are_stable() {
    assert_eq!(TvlvType::Mcast.as_u8(), 0x06);
    assert_eq!(TvlvType::Cert.as_u8(), 0x80);
    assert_eq!(TvlvType::OgmSig.as_u8(), 0x81);
    assert_eq!(TvlvType::Revoke.as_u8(), 0x82);
    assert_eq!(TvlvType::CertFp.as_u8(), 0x83);
}

/// A `CertFp` record round-trips through the TVLV encoding like any other
/// record type.
#[test]
fn certfp_tvlv_roundtrips() {
    let fp = [1u8, 2, 3, 4, 5, 6, 7, 8];
    let region = tvlv_region(&[(TvlvType::CertFp, &fp)]);
    assert_eq!(find_tvlv(&region, TvlvType::CertFp), Some(&fp[..]));
}

/// The cert-request/reply packet-type bytes are the documented values and
/// distinct from every other packet type on the wire.
#[test]
fn cert_packet_types_are_stable_and_distinct() {
    assert_eq!(BATADV_CERT_REQ, 0x05);
    assert_eq!(BATADV_CERT_REPLY, 0x06);
    assert_eq!(BATADV_KEEPALIVE, 0x07);
    let all = [
        BATADV_IV_OGM,
        BATADV_BCAST,
        BATADV_UNICAST,
        BATADV_MCAST,
        BATADV_CERT_REQ,
        BATADV_CERT_REPLY,
        BATADV_KEEPALIVE,
    ];
    for (i, a) in all.iter().enumerate() {
        for b in &all[i + 1..] {
            assert_ne!(a, b, "packet types must be distinct");
        }
    }
}

/// `BatmanKeepAlivePacket` round-trips through parsing like
/// every other minimal control packet.
#[test]
fn keepalive_packet_roundtrips() {
    let pkt = BatmanKeepAlivePacket {
        packet_type: BATADV_KEEPALIVE,
        version: 5,
    };
    let bytes = pkt.as_bytes();
    let (parsed, _) = BatmanKeepAlivePacket::ref_from_prefix(&bytes).unwrap();
    assert_eq!(parsed.packet_type, BATADV_KEEPALIVE);
    assert_eq!(parsed.version, 5);
    assert_eq!(core::mem::size_of::<BatmanKeepAlivePacket>(), 2);
}

/// `BatmanCertReqPacket`/`BatmanCertReplyPacket` are structurally identical
/// to `BatmanUnicastPacket` (same 4-field, same-size header), the shape the
/// engine's forwarding logic mirrors.
#[test]
fn cert_packets_mirror_unicast_layout() {
    assert_eq!(
        core::mem::size_of::<BatmanCertReqPacket>(),
        core::mem::size_of::<BatmanUnicastPacket>()
    );
    assert_eq!(
        core::mem::size_of::<BatmanCertReplyPacket>(),
        core::mem::size_of::<BatmanUnicastPacket>()
    );

    let req = BatmanCertReqPacket {
        packet_type: BATADV_CERT_REQ,
        version: 5,
        ttl: 10,
        dest: Mac([0, 0, 0, 0, 0, 9]),
    };
    let bytes = req.as_bytes();
    let (parsed, _) = BatmanCertReqPacket::ref_from_prefix(&bytes).unwrap();
    assert_eq!(parsed.packet_type, BATADV_CERT_REQ);
    assert_eq!(parsed.dest, Mac([0, 0, 0, 0, 0, 9]));
}

/// An OGM header takes eighteen bytes, its numbers big-endian.
#[test]
fn ogm_layout_is_fixed() {
    let ogm = BatmanOgmPacket {
        packet_type: BATADV_IV_OGM,
        version: 5,
        ttl: 50,
        flags: 0,
        seqno: 0x0102_0304,
        orig: Mac([1, 2, 3, 4, 5, 6]),
        reserved: 0,
        tq: 255,
        tvlv_len: 0x0a0b,
    };
    assert_eq!(
        ogm.as_bytes(),
        [1, 5, 50, 0, 1, 2, 3, 4, 1, 2, 3, 4, 5, 6, 0, 255, 0x0a, 0x0b]
    );
    let mut bytes = ogm.as_bytes().to_vec();
    bytes.push(0x77);
    let (back, rest) = BatmanOgmPacket::ref_from_prefix(&bytes).unwrap();
    assert_eq!(back, ogm);
    assert_eq!(rest, &[0x77]);
    assert!(BatmanOgmPacket::ref_from_prefix(&bytes[..17]).is_none());
}

/// A broadcast header takes thirteen bytes.
#[test]
fn broadcast_layout_is_fixed() {
    let pkt = BatmanBroadcastPacket {
        packet_type: BATADV_BCAST,
        version: 5,
        ttl: 9,
        seqno: 258,
        orig: Mac([1, 2, 3, 4, 5, 6]),
    };
    assert_eq!(pkt.as_bytes(), [2, 5, 9, 0, 0, 1, 2, 1, 2, 3, 4, 5, 6]);
}

/// A record found behind another of its type is not the first match.
#[test]
fn find_tvlv_gives_the_first_match() {
    let region = tvlv_region(&[(TvlvType::Mcast, &[7]), (TvlvType::Mcast, &[8])]);
    assert_eq!(find_tvlv(&region, TvlvType::Mcast), Some(&[7u8][..]));
    assert_eq!(find_tvlv(&region, TvlvType::Cert), None);
    let mut values = iter_tvlv(&region, TvlvType::Mcast);
    assert_eq!(values.next(), Some(&[7u8][..]));
    assert_eq!(values.next(), Some(&[8u8][..]));
    assert_eq!(values.next(), None);
}

/// Multicast copies share the unicast layout.
#[test]
fn mcast_packet_roundtrips() {
    let pkt = BatmanMcastPacket { packet_type: BATADV_MCAST, version: 5, ttl: 3, dest: Mac([9; 6]) };
    let bytes = pkt.as_bytes();
    assert_eq!(bytes, [4, 5, 3, 9, 9, 9, 9, 9, 9]);
    let (back, _) = BatmanMcastPacket::ref_from_prefix(&bytes).unwrap();
    assert_eq!(back.dest, Mac([9; 6]));
    let reply = BatmanCertReplyPacket {
        packet_type: BATADV_CERT_REPLY,
        version: 5,
        ttl: 1,
        dest: Mac([8; 6]),
    };
    assert_eq!(reply.as_bytes(), [6, 5, 1, 8, 8, 8, 8, 8, 8]);
}
