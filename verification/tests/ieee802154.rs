//! IEEE 802.15.4 frames and the two radios that carry them.

use wayfinder::at86rf233::bring_up;
use wayfinder::at86rf233::frame_metrics;
use wayfinder::at86rf233::frame_write_command;
use wayfinder::at86rf233::in_state;
use wayfinder::at86rf233::poll_outcome;
use wayfinder::at86rf233::read_command;
use wayfinder::at86rf233::receive;
use wayfinder::at86rf233::transmit;
use wayfinder::at86rf233::tuned;
use wayfinder::at86rf233::write_command;
use wayfinder::at86rf233::At86Rf233;
use wayfinder::at86rf233::PollOutcome;
use wayfinder::at86rf233::RadioStep;
use wayfinder::at86rf233::CMD_FRAME_WRITE;
use wayfinder::at86rf233::CMD_REG_READ;
use wayfinder::at86rf233::CMD_REG_WRITE;
use wayfinder::at86rf233::FCS_LEN;
use wayfinder::at86rf233::FRAME_READ_LEN;
use wayfinder::at86rf233::IRQ_TRX_END;
use wayfinder::at86rf233::REG_IRQ_MASK;
use wayfinder::at86rf233::REG_IRQ_STATUS;
use wayfinder::at86rf233::REG_PHY_CC_CCA;
use wayfinder::at86rf233::REG_TRX_STATE;
use wayfinder::at86rf233::REG_TRX_STATUS;
use wayfinder::at86rf233::STATE_PLL_ON;
use wayfinder::at86rf233::STATE_RX_ON;
use wayfinder::at86rf233::STATE_TRX_OFF;
use wayfinder::frame::LinkFrameData;
use wayfinder::frame::Mac;
use wayfinder::frame::LINK_HEADER_LEN;
use wayfinder::ieee802154::decode;
use wayfinder::ieee802154::encode;
use wayfinder::ieee802154::HEADER_LEN;
use wayfinder::ieee802154::MAX_FRAME_LEN;
use wayfinder::ieee802154::MAX_PAYLOAD_LEN;
use wayfinder::link::LinkError;
use wayfinder::nrf_ieee802154::frame_metrics as nrf_metrics;
use wayfinder::nrf_ieee802154::map_err;
use wayfinder::nrf_ieee802154::Ieee802154Link;
use wayfinder::nrf_ieee802154::RadioFault;

fn mac(n: u8) -> Mac {
    Mac([0, 0, 0, 0, 0, n])
}

/// `encode` writes the fixed broadcast 802.15.4 header — Frame Control
/// Field `0x0801` (Data, short destination addressing, no source
/// addressing), the given sequence number, and broadcast PAN ID /
/// destination address — as the first 7 bytes, little-endian.
#[test]
fn encode_writes_minimal_broadcast_header() {
    let mut buf = [0u8; MAX_FRAME_LEN];
    let payload = [0xaa, 0xbb];
    let n = encode(
        42,
        mac(1),
        &LinkFrameData {
            dst: mac(2),
            protocol: 0x4305,
            payload: &payload,
        },
        &mut buf,
    )
    .unwrap();

    assert_eq!(n, HEADER_LEN + LINK_HEADER_LEN + payload.len());
    assert_eq!(
        &buf[..HEADER_LEN],
        &[0x01, 0x08, 42, 0xff, 0xff, 0xff, 0xff]
    );
}

/// `encode` followed by `decode` round-trips the embedded `LinkFrame`'s
/// src, dst, protocol, and payload.
#[test]
fn round_trips_link_frame() {
    let mut buf = [0u8; MAX_FRAME_LEN];
    let payload = [0xde, 0xad, 0xbe, 0xef];
    let n = encode(
        7,
        mac(1),
        &LinkFrameData {
            dst: mac(2),
            protocol: 0x4305,
            payload: &payload,
        },
        &mut buf,
    )
    .unwrap();

    let frame = decode(&buf[..n]).unwrap();
    assert_eq!(frame.src, mac(1));
    assert_eq!(frame.dst, mac(2));
    assert_eq!(frame.protocol, 0x4305);
    assert_eq!(frame.payload, &payload);
}

/// A payload larger than `MAX_PAYLOAD_LEN` is rejected before touching
/// `buf`.
#[test]
fn encode_rejects_oversized_payload() {
    let mut buf = [0u8; MAX_FRAME_LEN];
    let big = [0u8; MAX_PAYLOAD_LEN + 1];
    let err = encode(
        0,
        mac(1),
        &LinkFrameData {
            dst: mac(2),
            protocol: 0,
            payload: &big,
        },
        &mut buf,
    )
    .unwrap_err();

    assert!(matches!(err, LinkError::BufferFull));
}

/// `encode` rejects a destination buffer too small to hold the encoded
/// frame, even when the payload itself is within `MAX_PAYLOAD_LEN`.
#[test]
fn encode_rejects_undersized_buffer() {
    let mut buf = [0u8; HEADER_LEN];
    let payload = [0xaa];
    let err = encode(
        0,
        mac(1),
        &LinkFrameData {
            dst: mac(2),
            protocol: 0,
            payload: &payload,
        },
        &mut buf,
    )
    .unwrap_err();

    assert!(matches!(err, LinkError::BufferFull));
}

/// A buffer too short to contain an `Ieee802154Header` plus a `LinkFrame`
/// header is rejected.
#[test]
fn decode_rejects_short_buffer() {
    let buf = [0u8; HEADER_LEN + LINK_HEADER_LEN - 1];
    assert!(matches!(decode(&buf), Err(LinkError::InvalidPacket)));
}

/// A frame whose Frame Control Field encodes a non-Data frame type (e.g.
/// an Ack) is rejected rather than misread as mesh data.
#[test]
fn decode_rejects_non_data_frame() {
    let mut buf = [0u8; HEADER_LEN + LINK_HEADER_LEN];
    // Frame type = 0b010 (Ack), all other fields zero.
    buf[0] = 0b010;
    assert!(matches!(decode(&buf), Err(LinkError::InvalidPacket)));
}

#[test]
fn map_err_distinguishes_known_variants() {
    assert!(matches!(map_err(RadioFault::CrcFailed(0)), LinkError::ReceiveFailed));
    assert!(matches!(map_err(RadioFault::ChannelInUse), LinkError::TransmitFailed));
    assert!(matches!(map_err(RadioFault::Other), LinkError::Io));
}

/// An encoded frame survives being copied through a packet buffer.
#[test]
fn encoded_frame_round_trips_through_packet() {
    let mut buf = [0u8; MAX_FRAME_LEN];
    let payload = [0xde, 0xad, 0xbe, 0xef];
    let n = encode(
        7,
        mac(1),
        &LinkFrameData { dst: mac(2), protocol: 0x4305, payload: &payload },
        &mut buf,
    )
    .unwrap();

    let packet = buf[..n].to_vec();
    let frame = decode(&packet).unwrap();
    assert_eq!(frame.src, mac(1));
    assert_eq!(frame.dst, mac(2));
    assert_eq!(frame.protocol, 0x4305);
    assert_eq!(frame.payload, &payload);
}

/// The largest frame fills the packet exactly.
#[test]
fn max_size_frame_fits_in_packet() {
    let mut buf = [0u8; MAX_FRAME_LEN];
    let payload = [0u8; MAX_PAYLOAD_LEN];
    let n = encode(
        0,
        mac(1),
        &LinkFrameData { dst: mac(2), protocol: 0, payload: &payload },
        &mut buf,
    )
    .unwrap();
    assert_eq!(n, MAX_FRAME_LEN);
}

/// Sequence numbers count up and wrap.
#[test]
fn nrf_sequence_numbers_wrap() {
    let mut link = Ieee802154Link::new(());
    for expected in 0..=255u8 {
        assert_eq!(link.take_seq(), expected);
    }
    assert_eq!(link.take_seq(), 0);
    assert_eq!(nrf_metrics(7).quality, Some(7));
}

/// A register and frame buffer model of the radio.
struct FakeChip {
    registers: [u8; 0x40],
    tx_frame: Vec<u8>,
    rx_frame: Vec<u8>,
}

impl FakeChip {
    fn new() -> Self {
        let mut registers = [0u8; 0x40];
        registers[REG_TRX_STATUS as usize] = STATE_TRX_OFF;
        Self { registers, tx_frame: Vec::new(), rx_frame: Vec::new() }
    }

    fn read(&self, cmd: [u8; 2]) -> u8 {
        assert_eq!(cmd[0] & 0xc0, CMD_REG_READ);
        self.registers[(cmd[0] & 0x3f) as usize]
    }

    fn write(&mut self, cmd: [u8; 2]) {
        assert_eq!(cmd[0] & 0xc0, CMD_REG_WRITE);
        let addr = cmd[0] & 0x3f;
        self.registers[addr as usize] = cmd[1];
        if addr == REG_TRX_STATE && matches!(cmd[1], STATE_TRX_OFF | STATE_PLL_ON | STATE_RX_ON) {
            self.registers[REG_TRX_STATUS as usize] = cmd[1];
        }
    }

    fn run(&mut self, steps: &[RadioStep], frame: &[u8]) -> Result<[u8; 130], LinkError> {
        let mut raw = [0u8; FRAME_READ_LEN];
        for step in steps {
            match *step {
                RadioStep::PulseReset | RadioStep::AwaitIrq => {}
                RadioStep::AwaitState(state) => {
                    let mut polls = 1;
                    loop {
                        let status = self.read(read_command(REG_TRX_STATUS));
                        match poll_outcome(polls, status, state) {
                            PollOutcome::Reached => break,
                            PollOutcome::Again => polls += 1,
                            PollOutcome::GaveUp => return Err(LinkError::Io),
                        }
                    }
                }
                RadioStep::WriteRegister(addr, value) => self.write(write_command(addr, value)),
                RadioStep::Tune(channel) => {
                    let cca = self.read(read_command(REG_PHY_CC_CCA));
                    self.write(write_command(REG_PHY_CC_CCA, tuned(cca, channel)));
                }
                RadioStep::LoadFrame => {
                    let cmd = frame_write_command(frame.len());
                    assert_eq!(cmd[0], CMD_FRAME_WRITE);
                    self.tx_frame = vec![cmd[1]];
                    self.tx_frame.extend_from_slice(frame);
                }
                RadioStep::ClearIrq => {
                    self.read(read_command(REG_IRQ_STATUS));
                }
                RadioStep::ReadFrame => {
                    for (i, b) in self.rx_frame.iter().enumerate() {
                        raw[i + 1] = *b;
                    }
                }
            }
        }
        Ok(raw)
    }
}

#[test]
fn new_brings_radio_to_rx_on_with_irq_enabled() {
    let mut chip = FakeChip::new();
    chip.registers[REG_PHY_CC_CCA as usize] = 0x2b;
    chip.run(&bring_up(17), &[]).unwrap();
    assert!(in_state(chip.registers[REG_TRX_STATUS as usize], STATE_RX_ON));
    assert_eq!(chip.registers[REG_PHY_CC_CCA as usize] & 0x1f, 17);
    assert_eq!(chip.registers[REG_PHY_CC_CCA as usize] & 0xe0, 0x20);
    assert_eq!(chip.registers[REG_IRQ_MASK as usize], IRQ_TRX_END);
}

#[test]
fn new_returns_io_error_if_chip_never_reaches_trx_off() {
    let mut chip = FakeChip::new();
    chip.registers[REG_TRX_STATUS as usize] = 0x00;
    assert!(matches!(chip.run(&bring_up(11), &[]), Err(LinkError::Io)));
}

#[test]
fn send_writes_encoded_frame_and_returns_to_rx_on() {
    let mut chip = FakeChip::new();
    let mut radio = At86Rf233::idle((), (), ());
    chip.run(&bring_up(11), &[]).unwrap();

    let payload = [0xde, 0xad, 0xbe, 0xef];
    let data = LinkFrameData { dst: mac(2), protocol: 0x4305, payload: &payload };
    let mut buf = [0u8; MAX_FRAME_LEN];
    let n = encode(radio.take_seq(), mac(1), &data, &mut buf).unwrap();
    chip.run(&transmit(), &buf[..n]).unwrap();
    assert_eq!(chip.tx_frame[0], (n + FCS_LEN) as u8);
    let frame = decode(&chip.tx_frame[1..]).unwrap();
    assert_eq!(frame.src, mac(1));
    assert_eq!(frame.dst, mac(2));
    assert_eq!(frame.payload, &payload);
    assert!(in_state(chip.registers[REG_TRX_STATUS as usize], STATE_RX_ON));

    let n = encode(radio.take_seq(), mac(1), &data, &mut buf).unwrap();
    chip.run(&transmit(), &buf[..n]).unwrap();
    // The sequence number is the third byte of the header.
    assert_eq!(chip.tx_frame[1 + 2], 1);
}

#[test]
fn recv_reads_frame_buffer_and_reports_lqi() {
    let mut chip = FakeChip::new();
    let mut radio = At86Rf233::idle((), (), ());
    let payload = [0xca, 0xfe];
    let mut encoded = [0u8; MAX_FRAME_LEN];
    let n = encode(
        5,
        mac(3),
        &LinkFrameData { dst: mac(4), protocol: 0x4305, payload: &payload },
        &mut encoded,
    )
    .unwrap();
    let mut rx = vec![(n + FCS_LEN) as u8];
    rx.extend_from_slice(&encoded[..n]);
    rx.extend_from_slice(&[0, 0]);
    rx.push(200);
    chip.rx_frame = rx;

    let raw = chip.run(&receive(), &[]).unwrap();
    let (len, lqi) = radio.store_frame(&raw).unwrap();
    let frame = decode(&radio.rx_buf[..len]).unwrap();
    assert_eq!(frame.src, mac(3));
    assert_eq!(frame.dst, mac(4));
    assert_eq!(frame.protocol, 0x4305);
    assert_eq!(frame.payload, &payload);
    let metrics = frame_metrics(lqi);
    assert_eq!(metrics.quality, Some(200));
    assert_eq!(metrics.rssi_dbm, None);
    assert_eq!(metrics.snr_db, None);
}

#[test]
fn recv_rejects_phr_shorter_than_fcs() {
    let mut chip = FakeChip::new();
    let mut radio = At86Rf233::idle((), (), ());
    chip.rx_frame = vec![1];
    let raw = chip.run(&receive(), &[]).unwrap();
    assert!(matches!(radio.store_frame(&raw), Err(LinkError::InvalidPacket)));
    let mut long = [0u8; FRAME_READ_LEN];
    long[1] = 128;
    assert!(matches!(radio.store_frame(&long), Err(LinkError::InvalidPacket)));
}
