//! Frames, addresses and Ethernet framing.

use wayfinder::frame::LinkFrame;
use wayfinder::frame::LinkFrameData;
use wayfinder::frame::LinkFrameDataMut;
use wayfinder::frame::Mac;
use wayfinder::frame::MeshIdentifier;
use wayfinder::link::LinkError;
use wayfinder::link::LinkMetrics;
use wayfinder::wire::frame_into_buf;
use wayfinder::wire::retag_ethertype;
use wayfinder::wire::wire_ethertype;
use wayfinder::wire::ETH_HEADER_LEN;

fn mac(n: u8) -> Mac {
    Mac([0, 0, 0, 0, 0, n])
}

/// `frame_into_buf` lays down a genuine Ethernet frame: destination, source,
/// the given EtherType (big-endian), then the payload.
#[test]
fn frame_into_buf_stamps_ethertype() {
    let mut buf = [0u8; 64];
    let payload = [0xde, 0xad, 0xbe, 0xef];
    let n = frame_into_buf(
        mac(1),
        0xfafa,
        &LinkFrameData {
            dst: mac(2),
            protocol: 0x4305, // not what's written; caller controls the wire value
            payload: &payload,
        },
        &mut buf,
    )
    .expect("frame fits buffer");
    assert_eq!(n, ETH_HEADER_LEN + payload.len());
    assert_eq!(&buf[0..6], &mac(2).0); // Ethernet destination
    assert_eq!(&buf[6..12], &mac(1).0); // Ethernet source
    assert_eq!(&buf[12..14], &[0xfa, 0xfa]); // stamped EtherType
    assert_eq!(&buf[14..n], &payload);
}

/// Correct for an empty payload (the minimum-length frame), leaving just
/// `[dst][src][protocol]`.
#[test]
fn frame_into_buf_handles_empty_payload() {
    let mut buf = [0u8; 32];
    let n = frame_into_buf(
        mac(3),
        0x88b5,
        &LinkFrameData {
            dst: mac(4),
            protocol: 0x4305,
            payload: &[],
        },
        &mut buf,
    )
    .expect("frame fits buffer");
    assert_eq!(n, ETH_HEADER_LEN);
    assert_eq!(&buf[0..6], &mac(4).0);
    assert_eq!(&buf[6..12], &mac(3).0);
}

/// A payload that would overrun the buffer yields `None` (a drop) instead of
/// panicking on the out-of-bounds copy — the caller must survive an
/// over-large frame rather than aborting.
#[test]
fn frame_into_buf_rejects_oversize_payload() {
    let mut buf = [0u8; 32];
    // 32 - 14 header = 18 bytes fit; 19 does not.
    let payload = [0u8; 19];
    let out = frame_into_buf(
        mac(1),
        0xfafa,
        &LinkFrameData {
            dst: mac(2),
            protocol: 0x4305,
            payload: &payload,
        },
        &mut buf,
    );
    assert_eq!(out, None);
}

/// `wire_ethertype` reads back exactly what `frame_into_buf` stamped.
#[test]
fn wire_ethertype_reads_the_stamped_label() {
    let mut buf = [0u8; 64];
    let n = frame_into_buf(
        mac(1),
        0xfafa,
        &LinkFrameData {
            dst: mac(2),
            protocol: 0x4305,
            payload: &[1, 2, 3],
        },
        &mut buf,
    )
    .expect("frame fits buffer");
    assert_eq!(wire_ethertype(&buf[..n]), Some(0xfafa));
}

/// A buffer too short to hold a complete Ethernet header has no EtherType to
/// read, so the filter rejects it rather than indexing past the end. The
/// boundary matters: exactly `ETH_HEADER_LEN` is a valid empty-payload
/// frame, one byte less is a runt.
#[test]
fn wire_ethertype_rejects_a_runt() {
    let buf = [0u8; ETH_HEADER_LEN];
    assert_eq!(wire_ethertype(&buf), Some(0));
    assert_eq!(wire_ethertype(&buf[..ETH_HEADER_LEN - 1]), None);
    assert_eq!(wire_ethertype(&[]), None);
}

/// Retagging rewrites only the two EtherType bytes, leaving the addresses
/// and payload byte-identical — that in-place edit is what lets a received
/// Ethernet frame reinterpret as a `LinkFrame` with no copy.
#[test]
fn retag_ethertype_rewrites_only_the_protocol_field() {
    let mut buf = [0u8; 64];
    let payload = [0xaa, 0xbb, 0xcc];
    let n = frame_into_buf(
        mac(1),
        0xfafa,
        &LinkFrameData {
            dst: mac(2),
            protocol: 0,
            payload: &payload,
        },
        &mut buf,
    )
    .expect("frame fits buffer");

    retag_ethertype(&mut buf, 0x4305);

    assert_eq!(&buf[0..6], &mac(2).0);
    assert_eq!(&buf[6..12], &mac(1).0);
    assert_eq!(&buf[12..14], &[0x43, 0x05]);
    assert_eq!(&buf[14..n], &payload);
}

/// The round trip the raw-L2 and CDC-NCM carriers both depend on: a frame
/// stamped with a wire transport label, retagged on receive, parses as a
/// `LinkFrame` carrying the mesh protocol and the original addresses.
#[test]
fn stamp_then_retag_round_trips_into_a_link_frame() {

    let mut buf = [0u8; 64];
    let payload = [1u8, 2, 3, 4, 5];
    let n = frame_into_buf(
        mac(7),
        0xfafa,
        &LinkFrameData {
            dst: mac(9),
            protocol: 0x4305,
            payload: &payload,
        },
        &mut buf,
    )
    .expect("frame fits buffer");

    assert_eq!(wire_ethertype(&buf[..n]), Some(0xfafa));
    retag_ethertype(&mut buf[..n], 0x4305);

    let frame = LinkFrame::ref_from_bytes(&buf[..n]).expect("retagged bytes are a LinkFrame");
    assert_eq!(frame.dst, mac(9));
    assert_eq!(frame.src, mac(7));
    assert_eq!(frame.protocol, 0x4305);
    assert_eq!(frame.payload, &payload);
}

/// An IPv4 multicast group maps to a `01:00:5e`-prefixed MAC whose low 23
/// bits come from the group address (RFC 1112): the top bit of the second
/// octet is masked off, so `239.1.1.1` and `239.129.1.1` collide onto the
/// same MAC.
#[test]
fn ipv4_multicast_maps_to_01005e_mac() {
    assert_eq!(
        Mac::from_ipv4_multicast([239, 1, 1, 1]),
        Mac([0x01, 0x00, 0x5e, 0x01, 0x01, 0x01])
    );
    assert_eq!(
        Mac::from_ipv4_multicast([224, 0, 0, 22]),
        Mac([0x01, 0x00, 0x5e, 0x00, 0x00, 0x16])
    );
    // The high bit of the second octet is dropped (only 23 bits map).
    assert_eq!(
        Mac::from_ipv4_multicast([239, 129, 1, 1]),
        Mac([0x01, 0x00, 0x5e, 0x01, 0x01, 0x01])
    );
}

#[test]
fn addresses_tell_groups_apart() {
    assert!(Mac::broadcast().is_broadcast());
    assert!(Mac::broadcast().is_multicast());
    assert!(Mac([1, 0, 0x5e, 0, 0, 1]).is_multicast());
    assert!(!Mac([1, 0, 0x5e, 0, 0, 1]).is_broadcast());
    assert!(!mac(1).is_multicast());
    assert_eq!(<u8 as MeshIdentifier>::broadcast_ident(), 0xff);
    assert_eq!(<Mac as MeshIdentifier>::broadcast_ident(), Mac::broadcast());
}

#[test]
fn addresses_from_bytes_and_as_text() {
    assert_eq!(Mac::try_from_slice(&[1, 2, 3, 4, 5, 6]), Some(Mac([1, 2, 3, 4, 5, 6])));
    assert_eq!(Mac::try_from_slice(&[1, 2, 3, 4, 5]), None);
    assert_eq!(Mac::try_from_slice(&[1, 2, 3, 4, 5, 6, 7]), None);
    assert_eq!(Mac::from([1, 2, 3, 4, 5, 6]), Mac([1, 2, 3, 4, 5, 6]));
    assert_eq!(Mac([0, 0x1a, 0xff, 3, 4, 5]).to_text(), "00:1a:ff:03:04:05");
    assert_eq!(Mac::default(), Mac([0; 6]));
}

#[test]
fn a_frame_needs_its_header() {
    assert!(LinkFrame::ref_from_bytes(&[0u8; 13]).is_none());
    let bytes = [2, 2, 2, 2, 2, 2, 1, 1, 1, 1, 1, 1, 0x43, 0x05, 9];
    let frame = LinkFrame::ref_from_bytes(&bytes).unwrap();
    assert_eq!(frame.dst, Mac([2; 6]));
    assert_eq!(frame.src, Mac([1; 6]));
    assert_eq!(frame.protocol, 0x4305);
    assert_eq!(frame.payload, &[9]);
}

#[test]
fn an_empty_reply_sends_nothing() {
    let mut buf = [7u8; 4];
    let reply = LinkFrameDataMut::new(&mut buf[..]);
    assert_eq!(reply.protocol, 0);
    assert_eq!(reply.as_data().payload, &[7, 7, 7, 7]);
}

#[test]
fn link_errors_in_words() {
    assert_eq!(LinkError::Io.message(), "IO error");
    assert_eq!(LinkError::TransmitFailed.message(), "transmit failed");
    assert_eq!(LinkError::NotPresent.message(), "link not present");
    assert_eq!(LinkError::ReceiveFailed.message(), "receive failed");
    assert_eq!(LinkError::BufferFull.message(), "buffer full");
    assert_eq!(LinkError::InvalidPacket.message(), "invalid packet");
    assert_eq!(LinkMetrics::default().quality, None);
}
