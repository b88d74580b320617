//! Mesh frames over Bluetooth advertisements.

use wayfinder::blue::ad::build_ad_structure;
use wayfinder::blue::ad::find_mesh_fragment;
use wayfinder::blue::ad::MAX_FRAGMENT_LEN;
use wayfinder::blue::ad::MAX_LEGACY_ADV_DATA_LEN;
use wayfinder::blue::ad::MESH_COMPANY_ID;
use wayfinder::blue::addr::BleAddr;
use wayfinder::blue::frame::assemble_frame;
use wayfinder::blue::frame::build_fragment;
use wayfinder::blue::frame::build_fragment_ad;
use wayfinder::blue::frame::fragment_count;
use wayfinder::blue::frame::RawReport;
use wayfinder::blue::frame::FRAG_PAYLOAD;
use wayfinder::blue::frame::HEADER_LEN;
use wayfinder::blue::frame::MAX_FRAGMENT_BYTES;
use wayfinder::blue::frame::MAX_REASSEMBLED_LEN;
use wayfinder::blue::link::BleFrames;
use wayfinder::blue::params::BleLinkParams;
use wayfinder::blue::params::ADVERTISING_INTERVAL_MILLIS;
use wayfinder::blue::scan::after_session;
use wayfinder::blue::scan::build_advertisement;
use wayfinder::blue::scan::mesh_monitor;
use wayfinder::blue::scan::Notice;
use wayfinder::blue::scan::ScanAction;
use wayfinder::blue::scan::ScanEnd;
use wayfinder::blue::scan::ScanEvent;
use wayfinder::blue::scan::ScanSession;
use wayfinder::blue::scan::SessionOutcome;
use wayfinder::frag::parse_fragment;
use wayfinder::frag::MAX_FRAGMENTS;
use wayfinder::frame::LinkFrameData;
use wayfinder::frame::Mac;
use wayfinder::link::LinkError;
use wayfinder::time::Duration;

fn mac(n: u8) -> Mac {
    Mac([0, 0, 0, 0, 0, n])
}

fn addr(n: u8) -> BleAddr {
    BleAddr::from([0, 0, 0, 0, 0, n])
}

#[test]
fn build_ad_structure_frames_length_type_and_company_id() {
    let fragment = [0xAA, 0xBB, 0xCC];
    let mut out = [0u8; 16];
    let n = build_ad_structure(&fragment, &mut out).unwrap();
    // len covers type(1) + company_id(2) + fragment(3) = 6.
    assert_eq!(&out[..n], &[6, 0xFF, 0xFF, 0xFF, 0xAA, 0xBB, 0xCC]);
}

#[test]
fn build_ad_structure_rejects_output_too_small() {
    let fragment = [0xAA, 0xBB, 0xCC];
    let mut out = [0u8; 6];
    assert!(build_ad_structure(&fragment, &mut out).is_none());
}

#[test]
fn build_ad_structure_rejects_oversized_fragment() {
    let fragment = [0u8; MAX_FRAGMENT_LEN + 1];
    let mut out = [0u8; 512];
    assert!(build_ad_structure(&fragment, &mut out).is_none());
}

#[test]
fn find_mesh_fragment_extracts_our_tagged_structure() {
    let fragment = [1, 2, 3, 4];
    let mut ad = [0u8; 16];
    let n = build_ad_structure(&fragment, &mut ad).unwrap();
    assert_eq!(find_mesh_fragment(&ad[..n]), Some(&fragment[..]));
}

#[test]
fn find_mesh_fragment_skips_unrelated_ad_structures() {
    // A Flags AD structure (type 0x01, common in real advertisements),
    // then our tagged structure.
    let mut adv = vec![2, 0x01, 0x06];
    let fragment = [9, 9];
    let mut tagged = [0u8; 16];
    let n = build_ad_structure(&fragment, &mut tagged).unwrap();
    adv.extend_from_slice(&tagged[..n]);
    assert_eq!(find_mesh_fragment(&adv), Some(&fragment[..]));
}

#[test]
fn find_mesh_fragment_ignores_other_manufacturers_data() {
    // Manufacturer Specific Data (type 0xFF) but a different company id
    // -- must not be mistaken for our marker.
    let adv = [5, 0xFF, 0x4C, 0x00, 0x02, 0x15];
    assert_eq!(find_mesh_fragment(&adv), None);
}

#[test]
fn find_mesh_fragment_returns_none_for_empty_or_no_match() {
    assert_eq!(find_mesh_fragment(&[]), None);
    assert_eq!(find_mesh_fragment(&[2, 0x01, 0x06]), None);
}

#[test]
fn find_mesh_fragment_stops_on_malformed_length() {
    // Declared length runs past the buffer.
    assert_eq!(find_mesh_fragment(&[10, 0xFF, 0xFF, 0xFF]), None);
    // A zero length is malformed (every AD structure has at least a type byte).
    assert_eq!(find_mesh_fragment(&[0, 1, 2, 3]), None);
}

#[test]
fn from_bytes_round_trips() {
    let addr = BleAddr::from([1, 2, 3, 4, 5, 6]);
    assert_eq!(addr.as_bytes(), &[1, 2, 3, 4, 5, 6]);
}

#[test]
fn equality_is_byte_equality() {
    assert_eq!(BleAddr::from([0; 6]), BleAddr::from([0; 6]));
    assert_ne!(BleAddr::from([0; 6]), BleAddr::from([1, 0, 0, 0, 0, 0]));
}

#[test]
fn assemble_frame_lays_out_ethernet_shape() {
    let payload = [0xde, 0xad];
    let (frame, len) = assemble_frame(
        mac(1),
        &LinkFrameData {
            dst: mac(2),
            protocol: 0x4305,
            payload: &payload,
        },
    )
    .unwrap();
    assert_eq!(len, HEADER_LEN + payload.len());
    assert_eq!(&frame[..6], &mac(2).0);
    assert_eq!(&frame[6..12], &mac(1).0);
    assert_eq!(&frame[12..14], &0x4305u16.to_be_bytes());
    assert_eq!(&frame[14..len], &payload);
}

#[test]
fn assemble_frame_rejects_oversized_frame() {
    let big = [0u8; MAX_REASSEMBLED_LEN];
    let err = assemble_frame(
        mac(1),
        &LinkFrameData {
            dst: mac(2),
            protocol: 0,
            payload: &big,
        },
    )
    .unwrap_err();
    assert!(matches!(err, LinkError::BufferFull));
}

#[test]
fn fragment_count_single_fragment_for_small_frame() {
    assert_eq!(fragment_count(HEADER_LEN + 2).unwrap(), 1);
}

#[test]
fn fragment_count_splits_frame_over_one_fragment_budget() {
    assert_eq!(fragment_count(FRAG_PAYLOAD + 12).unwrap(), 2);
}

#[test]
fn fragment_count_rejects_more_than_max_fragments() {
    // Exceeds MAX_FRAGMENTS regardless of MAX_REASSEMBLED_LEN, which
    // only `assemble_frame` (not `fragment_count` itself) enforces.
    let err = fragment_count((MAX_FRAGMENTS + 1) * FRAG_PAYLOAD).unwrap_err();
    assert!(matches!(err, LinkError::BufferFull));
}

#[test]
fn build_fragment_emits_raw_header_and_body_without_ad_framing() {
    // The operating system frames the bare `[frag_header][body]` blob itself,
    // so this must not carry a structure of its own.
    let frame_len = HEADER_LEN + 3;
    let mut frame = [0u8; MAX_REASSEMBLED_LEN];
    for (i, b) in frame[..frame_len].iter_mut().enumerate() {
        *b = i as u8;
    }
    let mut out = [0u8; MAX_FRAGMENT_BYTES];
    let n = build_fragment(&frame, frame_len, 5, 0, 1, &mut out).unwrap();

    let (hdr, body) = parse_fragment(&out[..n]).unwrap();
    assert_eq!((hdr.msg_id, hdr.index, hdr.count), (5, 0, 1));
    assert_eq!(body, &frame[..frame_len]);
}

#[test]
fn build_fragment_and_build_fragment_ad_agree_on_the_wire() {
    // The two transmit paths must put byte-identical fragments on the air.
    let frame_len = FRAG_PAYLOAD + 12;
    let mut frame = [0u8; MAX_REASSEMBLED_LEN];
    for (i, b) in frame[..frame_len].iter_mut().enumerate() {
        *b = i as u8;
    }
    let count = fragment_count(frame_len).unwrap();

    for index in 0..count {
        let mut raw = [0u8; MAX_FRAGMENT_BYTES];
        let raw_n = build_fragment(&frame, frame_len, 7, index, count, &mut raw).unwrap();

        let mut framed = [0u8; MAX_LEGACY_ADV_DATA_LEN];
        let framed_n =
            build_fragment_ad(&frame, frame_len, 7, index, count, &mut framed).unwrap();

        assert_eq!(
            find_mesh_fragment(&framed[..framed_n]),
            Some(&raw[..raw_n])
        );
    }
}

#[test]
fn build_fragment_rejects_an_index_past_the_frame() {
    let mut out = [0u8; MAX_FRAGMENT_BYTES];
    let err =
        build_fragment(&[0u8; MAX_REASSEMBLED_LEN], HEADER_LEN, 0, 3, 4, &mut out).unwrap_err();
    assert!(matches!(err, LinkError::BufferFull));
}

#[test]
fn build_fragment_ad_round_trips_single_fragment() {
    let frame_len = HEADER_LEN + 3;
    let mut frame = [0u8; MAX_REASSEMBLED_LEN];
    for (i, b) in frame[..frame_len].iter_mut().enumerate() {
        *b = i as u8;
    }
    let mut out = [0u8; MAX_LEGACY_ADV_DATA_LEN];
    let n = build_fragment_ad(&frame, frame_len, 5, 0, 1, &mut out).unwrap();

    let fragment = find_mesh_fragment(&out[..n]).unwrap();
    let (hdr, body) = parse_fragment(fragment).unwrap();
    assert_eq!((hdr.msg_id, hdr.index, hdr.count), (5, 0, 1));
    assert_eq!(body, &frame[..frame_len]);
}

#[test]
fn build_fragment_ad_splits_across_multiple_fragments() {
    let frame_len = FRAG_PAYLOAD + 12;
    let mut frame = [0u8; MAX_REASSEMBLED_LEN];
    for (i, b) in frame[..frame_len].iter_mut().enumerate() {
        *b = i as u8;
    }
    let count = fragment_count(frame_len).unwrap();
    assert_eq!(count, 2);

    let mut out0 = [0u8; MAX_LEGACY_ADV_DATA_LEN];
    let n0 = build_fragment_ad(&frame, frame_len, 9, 0, count, &mut out0).unwrap();
    let (hdr0, body0) = parse_fragment(find_mesh_fragment(&out0[..n0]).unwrap()).unwrap();
    assert_eq!((hdr0.index, hdr0.count), (0, 2));
    assert_eq!(body0, &frame[..FRAG_PAYLOAD]);

    let mut out1 = [0u8; MAX_LEGACY_ADV_DATA_LEN];
    let n1 = build_fragment_ad(&frame, frame_len, 9, 1, count, &mut out1).unwrap();
    let (hdr1, body1) = parse_fragment(find_mesh_fragment(&out1[..n1]).unwrap()).unwrap();
    assert_eq!((hdr1.index, hdr1.count), (1, 2));
    assert_eq!(body1, &frame[FRAG_PAYLOAD..frame_len]);
}

#[test]
fn send_advertises_each_fragment_in_order() {
    let mut link = BleFrames::new();
    let payload: Vec<u8> = (0..30).collect();
    let (sent, frame_len) = link
        .fragments(mac(1), &LinkFrameData { dst: mac(2), protocol: 0x1234, payload: &payload })
        .unwrap();

    let mut expected_frame = Vec::new();
    expected_frame.extend_from_slice(&mac(2).0);
    expected_frame.extend_from_slice(&mac(1).0);
    expected_frame.extend_from_slice(&0x1234u16.to_be_bytes());
    expected_frame.extend_from_slice(&payload);
    assert_eq!(frame_len, expected_frame.len());
    assert_eq!(sent.len(), 2);

    let (hdr0, body0) = parse_fragment(&sent[0]).unwrap();
    assert_eq!((hdr0.index, hdr0.count), (0, 2));
    assert_eq!(body0, &expected_frame[..FRAG_PAYLOAD]);

    let (hdr1, body1) = parse_fragment(&sent[1]).unwrap();
    assert_eq!((hdr1.index, hdr1.count), (1, 2));
    assert_eq!(body1, &expected_frame[FRAG_PAYLOAD..]);
    assert_eq!(hdr0.msg_id, hdr1.msg_id);

    // The next frame takes the next number, and is framed the same way.
    let (ads, _) = link
        .fragment_ads(mac(1), &LinkFrameData { dst: mac(2), protocol: 0x1234, payload: &payload })
        .unwrap();
    let (hdr, _) = parse_fragment(find_mesh_fragment(&ads[0]).unwrap()).unwrap();
    assert_eq!(hdr.msg_id, hdr0.msg_id + 1);
}

#[test]
fn ble_send_refuses_a_frame_too_large() {
    let mut link = BleFrames::new();
    let payload = [0u8; MAX_REASSEMBLED_LEN - HEADER_LEN + 1];
    let data = LinkFrameData { dst: mac(2), protocol: 0, payload: &payload };
    assert_eq!(link.fragments(mac(1), &data).unwrap_err(), LinkError::BufferFull);
    assert_eq!(link.fragment_ads(mac(1), &data).unwrap_err(), LinkError::BufferFull);
}

#[test]
fn recv_reassembles_single_fragment_report() {
    let mut link = BleFrames::new();
    let payload = [0xde, 0xad];
    let (frame_bytes, frame_len) = assemble_frame(
        mac(1),
        &LinkFrameData { dst: mac(2), protocol: 0x55, payload: &payload },
    )
    .unwrap();
    let mut fragment = [0u8; MAX_FRAGMENT_BYTES];
    let n = build_fragment(&frame_bytes, frame_len, 9, 0, 1, &mut fragment).unwrap();

    let (len, metrics) = link
        .take_report(&RawReport::new(addr(1), Some(-40), &fragment[..n]))
        .unwrap();
    let frame = link.received_frame(len).unwrap();
    assert_eq!(frame.dst, mac(2));
    assert_eq!(frame.protocol, 0x55);
    assert_eq!(frame.payload, &payload);
    assert_eq!(metrics.rssi_dbm, Some(-40));
}

#[test]
fn recv_reassembles_multi_fragment_report() {
    let mut link = BleFrames::new();
    let payload: Vec<u8> = (0..30).collect();
    let (frame_bytes, frame_len) = assemble_frame(
        mac(1),
        &LinkFrameData { dst: mac(2), protocol: 0x77, payload: &payload },
    )
    .unwrap();
    let count = fragment_count(frame_len).unwrap();
    assert_eq!(count, 2);

    let mut fragment0 = [0u8; MAX_FRAGMENT_BYTES];
    let n0 = build_fragment(&frame_bytes, frame_len, 3, 0, count, &mut fragment0).unwrap();
    let mut fragment1 = [0u8; MAX_FRAGMENT_BYTES];
    let n1 = build_fragment(&frame_bytes, frame_len, 3, 1, count, &mut fragment1).unwrap();

    assert!(link.take_report(&RawReport::new(addr(1), Some(-60), &fragment0[..n0])).is_none());
    // The same piece from another sender belongs to another message.
    assert!(link.take_report(&RawReport::new(addr(2), Some(-60), &fragment1[..n1])).is_none());
    let (len, _) = link
        .take_report(&RawReport::new(addr(1), Some(-60), &fragment1[..n1]))
        .unwrap();
    let frame = link.received_frame(len).unwrap();
    assert_eq!(frame.dst, mac(2));
    assert_eq!(frame.protocol, 0x77);
    assert_eq!(frame.payload, payload.as_slice());
}

#[test]
fn recv_skips_malformed_fragment() {
    let mut link = BleFrames::new();
    // Malformed: a count of zero is refused.
    assert!(link.take_report(&RawReport::new(addr(1), None, &[0, 0])).is_none());

    let payload = [0x42];
    let (frame_bytes, frame_len) = assemble_frame(
        mac(1),
        &LinkFrameData { dst: mac(2), protocol: 0x11, payload: &payload },
    )
    .unwrap();
    let mut fragment = [0u8; MAX_FRAGMENT_BYTES];
    let n = build_fragment(&frame_bytes, frame_len, 1, 0, 1, &mut fragment).unwrap();
    let (len, _) = link
        .take_report(&RawReport::new(addr(1), None, &fragment[..n]))
        .unwrap();
    assert_eq!(link.received_frame(len).unwrap().payload, &payload);
}

#[test]
fn a_new_link_has_an_empty_frame_buffer() {
    let link = BleFrames::new();
    let frame = link.received_frame(MAX_REASSEMBLED_LEN).unwrap();
    assert_eq!(frame.dst, Mac([0; 6]));
    assert_eq!(frame.payload, &[0u8; MAX_REASSEMBLED_LEN - HEADER_LEN][..]);
}

#[test]
fn a_message_too_short_for_a_frame_is_invalid() {
    let mut link = BleFrames::new();
    let (len, _) = link
        .take_report(&RawReport::new(addr(1), None, &[0, 1, 0xaa]))
        .unwrap();
    assert_eq!(len, 1);
    assert!(matches!(link.received_frame(len), Err(LinkError::InvalidPacket)));
}

#[test]
fn a_full_table_gives_up_its_oldest_message() {
    let mut link = BleFrames::new();
    let first: Vec<u8> = [vec![0, 2], vec![7; FRAG_PAYLOAD]].concat();
    let last = [0, 0x12, 8];
    // Five messages begin, one more than there is room for.
    for n in 0..5 {
        assert!(link.take_report(&RawReport::new(addr(n), None, &first)).is_none());
    }
    // The first was given up, so its other half completes nothing, and takes the
    // place of the second.
    assert!(link.take_report(&RawReport::new(addr(0), None, &last)).is_none());
    assert!(link.take_report(&RawReport::new(addr(1), None, &last)).is_none());
    // The newest is still there.
    let (len, _) = link.take_report(&RawReport::new(addr(4), None, &last)).unwrap();
    assert_eq!(len, FRAG_PAYLOAD + 1);
}

#[test]
fn raw_report_cuts_off_what_does_not_fit() {
    let report = RawReport::new(addr(1), None, &[5u8; 40]);
    assert_eq!(report.len as usize, MAX_FRAGMENT_BYTES);
    assert_eq!(report.data, [5u8; 27]);
}

#[test]
fn addresses_as_numbers() {
    assert_eq!(BleAddr::from([1, 2, 3, 4, 5, 6]).as_key(), 0x0102_0304_0506);
}

#[test]
fn link_params_default() {
    let params = BleLinkParams::default();
    assert_eq!(params.advertise_dwell, Duration::from_millis(150));
    assert_eq!(params.adapter, None);
    // The dwell covers several repeats on air.
    let interval = Duration::from_millis(ADVERTISING_INTERVAL_MILLIS);
    assert!(params.advertise_dwell > interval.saturating_mul(2));
}

#[test]
fn mesh_monitor_requests_every_advertisement_packet() {
    let monitor = mesh_monitor();
    assert!(monitor.every_packet);
    assert!(monitor.match_any);
}

#[test]
fn build_advertisement_sets_explicit_advertising_interval() {
    let interval = Duration::from_millis(ADVERTISING_INTERVAL_MILLIS);
    let advertisement = build_advertisement(&[1, 2, 3], Duration::from_millis(150));
    assert_eq!(advertisement.min_interval, interval);
    assert_eq!(advertisement.max_interval, interval);
}

#[test]
fn build_advertisement_carries_fragment_as_manufacturer_data_and_dwell_as_timeout() {
    let dwell = Duration::from_millis(150);
    let advertisement = build_advertisement(&[1, 2, 3], dwell);
    assert!(advertisement.broadcast);
    assert_eq!(advertisement.company_id, MESH_COMPANY_ID);
    assert_eq!(advertisement.fragment, vec![1, 2, 3]);
    assert_eq!(advertisement.timeout, dwell);
}

#[test]
fn mesh_monitor_matches_our_company_id_at_the_start_of_manufacturer_data() {
    let monitor = mesh_monitor();
    assert_eq!(monitor.patterns.len(), 1);
    assert_eq!(monitor.patterns[0].data_type, 0xff);
    assert_eq!(monitor.patterns[0].start_position, 0);
    assert_eq!(monitor.patterns[0].content, MESH_COMPANY_ID.to_le_bytes().to_vec());
}

#[test]
fn a_fragment_is_tagged_with_the_freshest_signal_strength() {
    let mut session = ScanSession::new();
    assert_eq!(session.on_event(ScanEvent::FragmentHeard(7)), ScanAction::Submit(None));
    assert_eq!(session.on_event(ScanEvent::Rssi(7, -50)), ScanAction::Continue);
    assert_eq!(session.on_event(ScanEvent::FragmentHeard(7)), ScanAction::Submit(Some(-50)));
    assert_eq!(session.on_event(ScanEvent::DeviceSeeded(7, Some(-40))), ScanAction::Submit(Some(-40)));
    assert_eq!(session.on_event(ScanEvent::FragmentHeard(7)), ScanAction::Submit(Some(-40)));
    assert_eq!(session.on_event(ScanEvent::DeviceRemoved(7)), ScanAction::Continue);
    assert_eq!(session.on_event(ScanEvent::FragmentHeard(7)), ScanAction::Submit(None));
    assert_eq!(session.on_event(ScanEvent::MonitorEnded), ScanAction::End(ScanEnd::MonitorReleased));
    assert_eq!(session.on_event(ScanEvent::DiscoveryEnded), ScanAction::End(ScanEnd::DiscoveryEnded));
    assert_eq!(session.on_event(ScanEvent::SinkClosed), ScanAction::End(ScanEnd::SinkClosed));
}

#[test]
fn scanning_stops_only_when_the_link_is_gone() {
    let over = after_session(3, SessionOutcome::Ended(ScanEnd::SinkClosed), true);
    assert!(over.stop);
    let first = after_session(0, SessionOutcome::Ended(ScanEnd::DiscoveryEnded), false);
    assert!(!first.stop);
    assert_eq!(first.notice, Notice::Routine);
    assert_eq!(first.consecutive, 1);
    let released = after_session(0, SessionOutcome::Ended(ScanEnd::MonitorReleased), false);
    assert!(released.reregister);
}

#[test]
fn a_report_is_zero_behind_its_fragment() {
    let report = RawReport::new(addr(1), Some(-40), &[7, 8, 9]);
    assert_eq!(report.len, 3);
    assert_eq!(&report.data[..3], &[7, 8, 9]);
    assert_eq!(&report.data[3..], &[0u8; 24]);
    // What does not fit is cut off.
    let full = RawReport::new(addr(1), None, &[1u8; 40]);
    assert_eq!(full.len, 27);
    assert_eq!(full.data, [1u8; 27]);
}

#[test]
fn a_fragment_is_found_between_other_structures() {
    let mut structure = [0u8; 31];
    let n = build_ad_structure(&[1, 2, 3], &mut structure).unwrap();
    // Flags, another vendor's data, the fragment, and bytes that are no structure.
    let mut adv = vec![2, 0x01, 0x06, 4, 0xff, 0x4c, 0x00, 0x10];
    adv.extend_from_slice(&structure[..n]);
    adv.extend_from_slice(&[200, 1]);
    assert_eq!(find_mesh_fragment(&adv), Some(&[1u8, 2, 3][..]));
}
