//! The LoRa client against the simulated module and the simulated air.

use std::collections::VecDeque;

use wayfinder::bounded::BoundedVec;
use wayfinder::frag::pack_header;
use wayfinder::frame::LinkFrameData;
use wayfinder::frame::Mac;
use wayfinder::link::LinkError;
use wayfinder::rylr998::client::judge;
use wayfinder::rylr998::client::module_id;
use wayfinder::rylr998::client::Answer;
use wayfinder::rylr998::client::Bandwidth;
use wayfinder::rylr998::client::CodingRate;
use wayfinder::rylr998::client::Heard;
use wayfinder::rylr998::client::LoraError;
use wayfinder::rylr998::client::Progress;
use wayfinder::rylr998::client::Request;
use wayfinder::rylr998::client::RylrClient;
use wayfinder::rylr998::client::SpreadingFactory;
use wayfinder::rylr998::client::WirelessMode;
use wayfinder::rylr998::hex::decode_hex;
use wayfinder::rylr998::hex::nibble;
use wayfinder::rylr998::hex::push_hex;
use wayfinder::rylr998::link::fragment_texts;
use wayfinder::rylr998::link::metrics_from;
use wayfinder::rylr998::link::HEADER_LEN;
use wayfinder::rylr998::link::MAX_FRAME_LEN;
use wayfinder::rylr998::rcv::parse_rcv;
use wayfinder::rylr998::rcv::report_line;
use wayfinder::rylr998::rcv::ReceivedPacket;
use wayfinder::rylr998::sim::LinkQuality;
use wayfinder::rylr998::sim::LoraSwitch;
use wayfinder::rylr998::sim::NodeState;
use wayfinder::rylr998::sim::RylrSimulator;
use wayfinder::rylr998::sim::SentPacket;
use wayfinder::time::Duration;

fn mac(n: u8) -> Mac {
    Mac([0, 0, 0, 0, 0, n])
}

/// A client, the module it drives, and the bytes between them.
struct Node {
    client: RylrClient<()>,
    sim: RylrSimulator,
    incoming: VecDeque<u8>,
    sent: Vec<SentPacket>,
}

impl Node {
    fn new() -> Self {
        Node {
            client: RylrClient::new(()).unwrap(),
            sim: RylrSimulator::new(),
            incoming: VecDeque::new(),
            sent: Vec::new(),
        }
    }

    fn failing() -> Self {
        let mut node = Node::new();
        node.sim.force_error = Some(-1);
        node
    }

    fn on_network(address: u16, network_id: u8, frequency: u32) -> Self {
        let mut node = Node::new();
        node.run(|c| c.set_address(address)).unwrap();
        node.run(|c| c.set_network_id(network_id)).unwrap();
        node.client.network_id_accepted(network_id);
        node.run(|c| c.set_rf_frequency(frequency, false)).unwrap();
        node
    }

    fn inject(&mut self, bytes: &[u8]) {
        self.incoming.extend(bytes.iter().copied());
    }

    fn inject_rcv(&mut self, addr: u16, data: &str, rssi: i32, snr: i32) {
        let line = report_line(addr, data.as_bytes(), rssi, snr);
        self.inject(&line);
    }

    fn inject_line(&mut self, line: &str) {
        self.inject(line.as_bytes());
        self.inject(b"\r\n");
    }

    /// The next line that is not a packet report, or `None` when no more bytes
    /// have arrived.
    fn next_line(&mut self) -> Result<Option<Vec<u8>>, LoraError> {
        while let Some(byte) = self.incoming.pop_front() {
            match self.client.take_byte(byte) {
                Heard::Nothing | Heard::Queued => {}
                Heard::Line(line) => return Ok(Some(line)),
                Heard::Failed(e) => return Err(e),
            }
        }
        Ok(None)
    }

    /// Await the answers of a request already sent.
    fn answers(&mut self, request: &Request) -> Result<Vec<u8>, LoraError> {
        let mut last = Vec::new();
        let mut progress = request.sent();
        while let Progress::Awaiting(awaited) = progress {
            let line = self.next_line()?.ok_or(LoraError::Timeout)?;
            progress = request.after_line(awaited, &line);
            last = line;
        }
        if let Progress::Failed(e) = progress {
            return Err(e);
        }
        Ok(last)
    }

    fn perform(&mut self, request: &Request) -> Result<Vec<u8>, LoraError> {
        let line = request.wire_bytes();
        assert!(line.ends_with(b"\r\n"));
        let response = self.sim.handle_cmd(&line[..line.len() - 2]);
        for reply in &response.replies {
            self.inject(reply);
        }
        self.sent.extend(response.sent);
        self.answers(request)
    }

    fn run(&mut self, make: impl Fn(&RylrClient<()>) -> Request) -> Result<Vec<u8>, LoraError> {
        let request = make(&self.client);
        self.perform(&request)
    }

    fn send_data(&mut self, target: u16, data: &str) -> Result<(), LoraError> {
        let request = self.client.send_data(target, data.as_bytes())?;
        self.perform(&request)?;
        Ok(())
    }

    fn listen(&mut self) -> Option<ReceivedPacket> {
        if let Some(packet) = self.client.listen_for_packet() {
            return Some(packet);
        }
        while let Some(byte) = self.incoming.pop_front() {
            if let Heard::Queued = self.client.take_byte(byte) {
                return self.client.listen_for_packet();
            }
        }
        None
    }
}

/// Route every packet sent since the last call.
fn tick(switch: &LoraSwitch, nodes: &mut [&mut Node]) {
    let mut packets = Vec::new();
    for node in nodes.iter_mut() {
        packets.append(&mut node.sent);
    }
    let states: Vec<NodeState> = nodes.iter().map(|n| n.sim.state).collect();
    for packet in &packets {
        for delivery in switch.route(packet, &states) {
            nodes[delivery.node].inject(&delivery.line);
        }
    }
}

fn text(packet: &ReceivedPacket) -> &str {
    std::str::from_utf8(packet.data.as_slice()).unwrap()
}

#[test]
fn test_ping() {
    Node::new().run(|c| c.ping()).expect("ping failed");
}

#[test]
fn test_reset() {
    Node::new().run(|c| c.reset()).expect("reset failed");
}

#[test]
fn test_set_mode_transceiver() {
    let mut node = Node::new();
    node.run(|c| c.set_mode(WirelessMode::Transceiver)).expect("set_mode failed");
    assert_eq!(node.sim.state.mode, 0);
}

#[test]
fn test_set_mode_sleep() {
    let mut node = Node::new();
    node.run(|c| c.set_mode(WirelessMode::Sleep)).expect("set_mode failed");
    assert_eq!(node.sim.state.mode, 1);
}

#[test]
fn test_set_mode_smart_receiving() {
    let mut node = Node::new();
    node.run(|c| c.set_mode(WirelessMode::SmartReceiving)).expect("set_mode failed");
    assert_eq!(node.sim.state.mode, 2);
}

#[test]
fn test_set_baud_rate() {
    Node::new().run(|c| c.set_baud_rate(115200)).expect("set_baud_rate failed");
}

#[test]
fn test_set_rf_frequency() {
    let mut node = Node::new();
    node.run(|c| c.set_rf_frequency(915_000_000, false)).expect("set_rf_frequency failed");
    assert_eq!(node.sim.state.frequency, 915_000_000);
}

#[test]
fn test_set_rf_frequency_save_to_flash() {
    let mut node = Node::new();
    node.run(|c| c.set_rf_frequency(868_000_000, true)).expect("set_rf_frequency (flash) failed");
    assert_eq!(node.sim.state.frequency, 868_000_000);
}

#[test]
fn test_set_parameters() {
    let mut node = Node::new();
    let request =
        node.client.set_parameters(SpreadingFactory::Sf7, Bandwidth::Khz125, CodingRate::Cr45, 15);
    assert_eq!(request.text, b"AT+PARAMETER=7,7,1,15".to_vec());
    node.perform(&request).expect("set_parameters failed");
}

#[test]
fn test_set_parameters_all_sf_bw_cr_combos() {
    let mut node = Node::new();
    let sfs = [
        SpreadingFactory::Sf5,
        SpreadingFactory::Sf6,
        SpreadingFactory::Sf7,
        SpreadingFactory::Sf8,
        SpreadingFactory::Sf9,
        SpreadingFactory::Sf10,
        SpreadingFactory::Sf11,
    ];
    for (i, sf) in sfs.into_iter().enumerate() {
        let request = node.client.set_parameters(sf, Bandwidth::Khz500, CodingRate::Cr48, 12);
        assert_eq!(request.text, format!("AT+PARAMETER={},9,4,12", i + 5).into_bytes());
        node.perform(&request).expect("set_parameters failed");
    }
}

#[test]
fn test_set_address() {
    let mut node = Node::new();
    node.run(|c| c.set_address(42)).expect("set_address failed");
    assert_eq!(node.sim.state.address, 42);
}

#[test]
fn test_set_address_max() {
    let mut node = Node::new();
    node.run(|c| c.set_address(u16::MAX)).expect("set_address(MAX) failed");
    assert_eq!(node.sim.state.address, 65535);
}

#[test]
fn test_set_network_id() {
    let mut node = Node::new();
    assert_eq!(node.client.network_id(), 18);
    node.run(|c| c.set_network_id(18)).expect("set_network_id failed");
    node.client.network_id_accepted(7);
    assert_eq!(node.client.network_id(), 7);
}

#[test]
fn test_set_rf_output_power() {
    Node::new().run(|c| c.set_rf_output_power(22)).expect("set_rf_output_power failed");
}

#[test]
fn test_send_data_unicast() {
    let mut node = Node::new();
    node.send_data(100, "HELLO").expect("send_data failed");
    assert_eq!(node.sent[0].target_address, 100);
    assert_eq!(node.sent[0].data, b"HELLO".to_vec());
}

#[test]
fn test_send_data_broadcast() {
    Node::new().send_data(0, "BROADCAST").expect("broadcast send_data failed");
}

#[test]
fn test_send_data_max_payload() {
    Node::new().send_data(1, &"Z".repeat(240)).expect("max-payload send_data failed");
}

#[test]
fn test_query_module_id() {
    let mut node = Node::new();
    let line = node.run(|c| c.query_module_id()).expect("query_module_id failed");
    let uid = module_id(&line).unwrap();
    assert_eq!(uid.as_slice(), b"RYLR998-SIM-001");
}

#[test]
fn test_error_response_on_ping() {
    let err = Node::failing().run(|c| c.ping()).expect_err("expected error, got Ok");
    assert_eq!(err, LoraError::ModuleError(-1));
}

#[test]
fn test_error_response_on_set_address() {
    let err = Node::failing().run(|c| c.set_address(5)).expect_err("expected error, got Ok");
    assert!(matches!(err, LoraError::ModuleError(_)));
}

#[test]
fn test_error_response_on_send_data() {
    let err = Node::failing().send_data(1, "hi").expect_err("expected error, got Ok");
    assert!(matches!(err, LoraError::ModuleError(_)));
}

#[test]
fn test_send_oversize_payload_rejected_client_side() {
    let mut node = Node::new();
    let err = node.send_data(1, &"X".repeat(241)).expect_err("expected payload-too-large error");
    assert!(matches!(err, LoraError::RequestTooLarge));
    assert!(node.sent.is_empty());
}

#[test]
fn test_listen_for_packet_basic() {
    let mut node = Node::new();
    node.inject_rcv(42, "hello", -90, -10);
    let pkt = node.listen().expect("listen_for_packet failed");
    assert_eq!(pkt.address, 42);
    assert_eq!(pkt.length, 5);
    assert_eq!(text(&pkt), "hello");
    assert_eq!(pkt.rssi, -90);
    assert_eq!(pkt.snr, -10);
}

#[test]
fn test_listen_for_packet_negative_snr() {
    let mut node = Node::new();
    node.inject_rcv(7, "data", -120, -20);
    let pkt = node.listen().expect("listen_for_packet failed");
    assert_eq!(pkt.rssi, -120);
    assert_eq!(pkt.snr, -20);
}

#[test]
fn test_listen_for_multiple_packets_sequential() {
    let mut node = Node::new();
    for i in 0u16..5 {
        node.inject_rcv(i, "pkt", -80, -5);
    }
    for expected_addr in 0u16..5 {
        assert_eq!(node.listen().unwrap().address, expected_addr);
    }
}

#[test]
fn test_listen_skips_non_rcv_lines() {
    let mut node = Node::new();
    node.inject_line("+OK");
    node.inject_line("+READY");
    node.inject_line("some_garbage");
    node.inject_line("");
    node.inject_rcv(99, "real", -70, -3);
    let pkt = node.listen().expect("listen_for_packet failed");
    assert_eq!(pkt.address, 99);
    assert_eq!(text(&pkt), "real");
}

#[test]
fn test_listen_for_packet_large_payload() {
    let mut node = Node::new();
    let big = "B".repeat(230);
    node.inject_rcv(1, &big, -85, -12);
    let pkt = node.listen().expect("listen_for_packet failed");
    assert_eq!(text(&pkt), big.as_str());
    assert_eq!(pkt.length, 230);
}

#[test]
fn test_expect_skips_lines_before_ok() {
    let mut node = Node::new();
    let request = node.client.ping();
    node.inject(b"noise\r\n+MAYBE=something\r\n\r\n+OK\r\n");
    node.answers(&request).expect("ping should succeed despite preceding noise");
}

#[test]
fn test_reset_tolerates_noise_between_reset_and_ready() {
    let mut node = Node::new();
    let request = node.client.reset();
    node.inject(b"+RESET\r\nbooting...\r\n+READY\r\n");
    node.answers(&request)
        .expect("reset should succeed despite noise between RESET and READY");
}

#[test]
fn test_set_baud_rate_all_standard_rates() {
    let mut node = Node::new();
    for &rate in &[9600u32, 19200, 38400, 57600, 115200, 230400] {
        node.run(|c| c.set_baud_rate(rate)).expect("set_baud_rate failed");
    }
}

#[test]
fn test_listen_for_packet_worst_case_line_length() {
    let mut node = Node::new();
    let data = "A".repeat(240);
    node.inject_rcv(65535, &data, -130, -20);
    let pkt = node.listen().expect("worst-case line should be readable");
    assert_eq!(pkt.address, 65535);
    assert_eq!(text(&pkt), data.as_str());
    assert_eq!(pkt.rssi, -130);
    assert_eq!(pkt.snr, -20);
}

#[test]
fn test_rcv_interleaved_during_command_wait_is_not_dropped() {
    let mut node = Node::new();
    node.inject_rcv(5, "dead", -50, 7);
    node.send_data(0, "ab").expect("send_data failed");
    let pkt = node.listen().expect("listen_for_packet failed");
    assert_eq!(pkt.address, 5);
    assert_eq!(text(&pkt), "dead");
    assert_eq!(pkt.rssi, -50);
    assert_eq!(pkt.snr, 7);
}

#[test]
fn test_rcv_queue_evicts_oldest_when_full() {
    let mut node = Node::new();
    for addr in 0u16..9 {
        node.inject_rcv(addr, &format!("p{addr}"), -60, 5);
    }
    node.send_data(0, "x").expect("send_data failed");
    for expected_addr in 1u16..9 {
        assert_eq!(node.listen().unwrap().address, expected_addr);
    }
    assert!(
        node.listen().is_none(),
        "queue should be drained; address 0 should have been evicted"
    );
}

#[test]
fn test_full_init_sequence() {
    let mut node = Node::new();
    node.run(|c| c.reset()).unwrap();
    node.run(|c| c.set_address(50)).unwrap();
    node.run(|c| c.set_network_id(18)).unwrap();
    node.run(|c| {
        c.set_parameters(SpreadingFactory::Sf7, Bandwidth::Khz125, CodingRate::Cr48, 15)
    })
    .unwrap();
    node.run(|c| c.set_rf_frequency(915_000_000, false)).unwrap();
    node.run(|c| c.set_rf_output_power(22)).unwrap();
    assert_eq!(
        node.sim.state,
        NodeState { address: 50, network_id: 18, frequency: 915_000_000, mode: 0 }
    );
}

#[test]
fn test_send_then_receive() {
    let mut node = Node::new();
    node.send_data(51, "PING").expect("send failed");
    node.inject_rcv(51, "PONG", -75, -8);
    let pkt = node.listen().expect("receive failed");
    assert_eq!(pkt.address, 51);
    assert_eq!(text(&pkt), "PONG");
}

#[test]
fn test_rapid_fire_commands() {
    let mut node = Node::new();
    for i in 0u16..20 {
        node.run(|c| c.set_address(i)).expect("a command failed");
    }
    assert_eq!(node.sim.state.address, 19);
}

#[test]
fn test_switch_unicast_delivery() {
    let switch = LoraSwitch::new();
    let mut node_a = Node::on_network(1, 18, 915_000_000);
    let mut node_b = Node::on_network(2, 18, 915_000_000);
    node_a.send_data(2, "hello").expect("send failed");
    tick(&switch, &mut [&mut node_a, &mut node_b]);
    let pkt = node_b.listen().expect("receive failed");
    assert_eq!(pkt.address, 1);
    assert_eq!(text(&pkt), "hello");
}

#[test]
fn test_switch_different_network_id_blocked() {
    let switch = LoraSwitch::new();
    let mut node_a = Node::on_network(1, 18, 915_000_000);
    let mut node_b = Node::on_network(2, 99, 915_000_000);
    node_a.send_data(2, "hello").expect("send failed");
    tick(&switch, &mut [&mut node_a, &mut node_b]);
    assert!(node_b.listen().is_none(), "packet should be blocked by mismatched network_id");
}

#[test]
fn test_switch_different_frequency_blocked() {
    let switch = LoraSwitch::new();
    let mut node_a = Node::on_network(1, 18, 915_000_000);
    let mut node_b = Node::on_network(2, 18, 868_000_000);
    node_a.send_data(2, "hello").expect("send failed");
    tick(&switch, &mut [&mut node_a, &mut node_b]);
    assert!(node_b.listen().is_none(), "packet should be blocked by mismatched frequency");
}

#[test]
fn test_switch_broadcast_reaches_all() {
    let switch = LoraSwitch::new();
    let mut node_a = Node::on_network(1, 18, 915_000_000);
    let mut node_b = Node::on_network(2, 18, 915_000_000);
    let mut node_c = Node::on_network(3, 18, 915_000_000);
    node_a.send_data(0, "broadcast").expect("send failed");
    tick(&switch, &mut [&mut node_a, &mut node_b, &mut node_c]);
    let pkt_b = node_b.listen().expect("node_b did not receive broadcast");
    let pkt_c = node_c.listen().expect("node_c did not receive broadcast");
    assert_eq!(text(&pkt_b), "broadcast");
    assert_eq!(text(&pkt_c), "broadcast");
}

#[test]
fn test_switch_broadcast_not_echoed_to_sender() {
    let switch = LoraSwitch::new();
    let mut node_a = Node::on_network(1, 18, 915_000_000);
    let mut node_b = Node::on_network(2, 18, 915_000_000);
    node_a.send_data(0, "bc").expect("send failed");
    tick(&switch, &mut [&mut node_a, &mut node_b]);
    node_b.listen().expect("node_b should receive");
    assert!(node_a.listen().is_none(), "sender should not receive its own broadcast");
}

#[test]
fn test_switch_unicast_not_delivered_to_wrong_address() {
    let switch = LoraSwitch::new();
    let mut node_a = Node::on_network(1, 18, 915_000_000);
    let mut node_b = Node::on_network(2, 18, 915_000_000);
    let mut node_c = Node::on_network(3, 18, 915_000_000);
    node_a.send_data(2, "for_b_only").expect("send failed");
    tick(&switch, &mut [&mut node_a, &mut node_b, &mut node_c]);
    node_b.listen().expect("node_b should receive");
    assert!(
        node_c.listen().is_none(),
        "node_c should not receive a unicast addressed to node_b"
    );
}

#[test]
fn test_switch_link_quality_applied() {
    let mut switch = LoraSwitch::new();
    let mut node_a = Node::on_network(1, 18, 915_000_000);
    let mut node_b = Node::on_network(2, 18, 915_000_000);
    switch.set_link_quality(1, 2, LinkQuality { rssi: -112, snr: -15 });
    node_a.send_data(2, "quality_test").expect("send failed");
    tick(&switch, &mut [&mut node_a, &mut node_b]);
    let pkt = node_b.listen().expect("receive failed");
    assert_eq!(pkt.rssi, -112);
    assert_eq!(pkt.snr, -15);
}

#[test]
fn test_switch_link_quality_is_directional() {
    let mut switch = LoraSwitch::new();
    let mut node_a = Node::on_network(1, 18, 915_000_000);
    let mut node_b = Node::on_network(2, 18, 915_000_000);
    switch.set_link_quality(1, 2, LinkQuality { rssi: -80, snr: 5 });
    switch.set_link_quality(2, 1, LinkQuality { rssi: -100, snr: -8 });

    node_a.send_data(2, "ab").expect("a to b send failed");
    tick(&switch, &mut [&mut node_a, &mut node_b]);
    assert_eq!(node_b.listen().expect("b receive failed").rssi, -80);

    node_b.send_data(1, "ba").expect("b to a send failed");
    tick(&switch, &mut [&mut node_a, &mut node_b]);
    assert_eq!(node_a.listen().expect("a receive failed").rssi, -100);
}

#[test]
fn test_switch_sleep_mode_does_not_receive() {
    let switch = LoraSwitch::new();
    let mut node_a = Node::on_network(1, 18, 915_000_000);
    let mut node_b = Node::on_network(2, 18, 915_000_000);
    node_b.run(|c| c.set_mode(WirelessMode::Sleep)).expect("set_mode failed");
    node_a.send_data(2, "wake_up").expect("send failed");
    tick(&switch, &mut [&mut node_a, &mut node_b]);
    assert!(node_b.listen().is_none(), "sleeping node should not receive");
}

#[test]
fn test_switch_sequential_hops() {
    let switch = LoraSwitch::new();
    let mut node_a = Node::on_network(1, 18, 915_000_000);
    let mut node_b = Node::on_network(2, 18, 915_000_000);
    let mut node_c = Node::on_network(3, 18, 915_000_000);

    node_a.send_data(2, "hop1").expect("first send failed");
    tick(&switch, &mut [&mut node_a, &mut node_b, &mut node_c]);
    assert_eq!(text(&node_b.listen().expect("no first hop")), "hop1");

    node_b.send_data(3, "hop2").expect("second send failed");
    tick(&switch, &mut [&mut node_a, &mut node_b, &mut node_c]);
    assert_eq!(text(&node_c.listen().expect("no second hop")), "hop2");
}

#[test]
fn test_switch_default_quality_applied() {
    let mut switch = LoraSwitch::new();
    assert_eq!(switch.quality(1, 2), LinkQuality { rssi: -60, snr: 10 });
    switch.set_default_quality(LinkQuality { rssi: -95, snr: -4 });
    let mut node_a = Node::on_network(1, 18, 915_000_000);
    let mut node_b = Node::on_network(2, 18, 915_000_000);
    node_a.send_data(2, "default_q").expect("send failed");
    tick(&switch, &mut [&mut node_a, &mut node_b]);
    let pkt = node_b.listen().expect("receive failed");
    assert_eq!(pkt.rssi, -95);
    assert_eq!(pkt.snr, -4);
}

/// A frame small enough for one packet goes out as one command.
#[test]
fn send_hex_encodes_frame_to_broadcast() {
    let mut client = RylrClient::new(()).unwrap();
    let payload = [0xde, 0xad];
    let (requests, n) = client
        .send(mac(1), &LinkFrameData { dst: mac(2), protocol: 0x4305, payload: &payload })
        .unwrap();
    assert_eq!(n, HEADER_LEN + payload.len());
    let hex = "00010000000000020000000000014305dead";
    let expected = format!("AT+SEND=0,{},{}\r\n", hex.len(), hex);
    assert_eq!(requests.len(), 1);
    assert_eq!(requests[0].wire_bytes(), expected.into_bytes());
}

/// Parse one `AT+SEND=<addr>,<len>,<hex>` command, returning its header bytes and
/// its content.
fn decode_fragment_cmd(cmd: &[u8]) -> ((u8, u8), Vec<u8>) {
    let cmd = std::str::from_utf8(cmd).unwrap();
    let hex = cmd.rsplit(',').next().unwrap();
    let mut buf = [0u8; MAX_FRAME_LEN];
    let n = decode_hex(hex.as_bytes(), &mut buf).unwrap();
    ((buf[0], buf[1]), buf[2..n].to_vec())
}

#[test]
fn send_splits_oversized_frame_into_fragments() {
    let mut client = RylrClient::new(()).unwrap();
    let payload: Vec<u8> = (0..116u16).map(|i| i as u8).collect();
    let (requests, n) = client
        .send(mac(1), &LinkFrameData { dst: mac(2), protocol: 0x4305, payload: &payload })
        .unwrap();
    assert_eq!(n, 130);
    assert_eq!(requests.len(), 2, "expected exactly 2 AT+SEND fragments");

    let mut frame = [0u8; 130];
    frame[..6].copy_from_slice(&mac(2).0);
    frame[6..12].copy_from_slice(&mac(1).0);
    frame[12..14].copy_from_slice(&0x4305u16.to_be_bytes());
    frame[14..].copy_from_slice(&payload);

    let (hdr0, body0) = decode_fragment_cmd(&requests[0].text);
    let (hdr1, body1) = decode_fragment_cmd(&requests[1].text);
    assert_eq!(hdr0.0, hdr1.0, "same message id across fragments");
    assert_eq!(hdr0.1, 2, "fragment 0: index=0, count=2");
    assert_eq!(hdr1.1, (1 << 4) | 2, "fragment 1: index=1, count=2");
    assert_eq!(body0, &frame[0..118]);
    assert_eq!(body1, &frame[118..130]);
}

/// The line reporting one fragment: `header` followed by `content`, as
/// hexadecimal text.
fn encode_rcv_line(addr: u16, header: [u8; 2], content: &[u8], rssi: i32, snr: i32) -> Vec<u8> {
    let mut hex = String::new();
    for b in header.iter().chain(content) {
        hex.push_str(&format!("{b:02x}"));
    }
    format!("+RCV={},{},{},{},{}\r\n", addr, hex.len(), hex, rssi, snr).into_bytes()
}

/// Receive until a frame is complete.
fn recv(node: &mut Node) -> Result<(Mac, Mac, u16, Vec<u8>, Option<i16>, Option<i8>), LinkError> {
    while let Some(packet) = node.listen() {
        if let Some((len, metrics)) = node.client.recv(&packet)? {
            let frame = node.client.received_frame(len)?;
            assert_eq!(metrics.quality, None);
            return Ok((
                frame.dst,
                frame.src,
                frame.protocol,
                frame.payload.to_vec(),
                metrics.rssi_dbm,
                metrics.snr_db,
            ));
        }
    }
    Err(LinkError::ReceiveFailed)
}

#[test]
fn recv_decodes_hex_frame_and_metrics() {
    let mut content = [0u8; 16];
    content[..6].copy_from_slice(&mac(4).0);
    content[6..12].copy_from_slice(&mac(3).0);
    content[12..14].copy_from_slice(&0x4305u16.to_be_bytes());
    content[14..16].copy_from_slice(&[0xca, 0xfe]);
    let mut node = Node::new();
    node.inject(&encode_rcv_line(0, pack_header(9, 0, 1), &content, -50, 7));
    assert_eq!(
        recv(&mut node).unwrap(),
        (mac(4), mac(3), 0x4305, vec![0xca, 0xfe], Some(-50), Some(7))
    );
}

#[test]
fn recv_reassembles_out_of_order_fragments() {
    let mut full = [0u8; 130];
    full[..6].copy_from_slice(&mac(2).0);
    full[6..12].copy_from_slice(&mac(1).0);
    full[12..14].copy_from_slice(&0x4305u16.to_be_bytes());
    for (i, b) in full[14..].iter_mut().enumerate() {
        *b = i as u8;
    }
    let mut node = Node::new();
    node.inject(&encode_rcv_line(7, pack_header(5, 1, 2), &full[118..130], -55, 4));
    node.inject(&encode_rcv_line(7, pack_header(5, 0, 2), &full[0..118], -50, 7));
    // The metrics are those of the fragment that completed the message.
    assert_eq!(
        recv(&mut node).unwrap(),
        (mac(2), mac(1), 0x4305, full[14..130].to_vec(), Some(-50), Some(7))
    );
}

#[test]
fn recv_skips_incomplete_message_and_returns_next_complete_one() {
    let mut content_a0 = [0u8; 15];
    content_a0[..6].copy_from_slice(&mac(9).0);
    content_a0[6..12].copy_from_slice(&mac(8).0);
    content_a0[12..14].copy_from_slice(&0x4305u16.to_be_bytes());
    content_a0[14] = 0x11;
    let mut content_b = [0u8; 16];
    content_b[..6].copy_from_slice(&mac(4).0);
    content_b[6..12].copy_from_slice(&mac(3).0);
    content_b[12..14].copy_from_slice(&0x4305u16.to_be_bytes());
    content_b[14..16].copy_from_slice(&[0xca, 0xfe]);
    let mut node = Node::new();
    node.inject(&encode_rcv_line(0, pack_header(1, 0, 2), &content_a0, -60, 3));
    node.inject(&encode_rcv_line(0, pack_header(2, 0, 1), &content_b, -50, 7));
    let (dst, src, _, payload, rssi, _) = recv(&mut node).unwrap();
    assert_eq!(src, mac(3));
    assert_eq!(dst, mac(4));
    assert_eq!(payload, vec![0xca, 0xfe]);
    assert_eq!(rssi, Some(-50));
}

#[test]
fn send_rejects_oversized_frame() {
    let mut client = RylrClient::new(()).unwrap();
    let big = [0u8; 600];
    let data = LinkFrameData { dst: mac(2), protocol: 0, payload: &big };
    assert!(matches!(client.send(mac(1), &data), Err(LinkError::BufferFull)));
    // The refused frame took no message number.
    assert_eq!(client.next_msg_id(), 0);
}

#[test]
fn hex_round_trips() {
    let bytes = [0x00, 0x7f, 0x80, 0xff, 0x12, 0xab];
    let mut hex: BoundedVec<u8, 64> = BoundedVec::empty();
    push_hex(&mut hex, &bytes).unwrap();
    assert_eq!(hex.as_slice(), b"007f80ff12ab");

    let mut out = [0u8; 8];
    let n = decode_hex(hex.as_slice(), &mut out).unwrap();
    assert_eq!(&out[..n], &bytes);
}

#[test]
fn hex_that_does_not_fit_is_cut_off() {
    let mut hex: BoundedVec<u8, 3> = BoundedVec::empty();
    assert_eq!(push_hex(&mut hex, &[0x12, 0x34]), Err(LinkError::BufferFull));
    assert_eq!(hex.as_slice(), b"123");
}

#[test]
fn a_fragments_text_is_its_header_then_its_content() {
    let bytes = [0x00, 0x7f, 0x80, 0xff, 0x12, 0xab];
    let data = LinkFrameData { dst: Mac(bytes), protocol: 0, payload: &[] };
    let (texts, len) = fragment_texts(mac(1), &data, 0).unwrap();
    assert_eq!(len, 14);
    assert_eq!(&texts[0].as_slice()[..16], b"0001007f80ff12ab");
}

#[test]
fn hex_refuses_what_is_not_hex() {
    let mut out = [0u8; 2];
    assert_eq!(decode_hex(b"abc", &mut out), Err(LinkError::InvalidPacket));
    assert_eq!(decode_hex(b"aabbcc", &mut out), Err(LinkError::BufferFull));
    assert_eq!(decode_hex(b"aaxx", &mut out), Err(LinkError::InvalidPacket));
    assert_eq!(out, [0xaa, 0]);
    assert_eq!(decode_hex(b"AbCd", &mut out), Ok(2));
    assert_eq!(out, [0xab, 0xcd]);
    assert_eq!(nibble(b'g'), Err(LinkError::InvalidPacket));
}

#[test]
fn report_lines_are_read_strictly() {
    let pkt = parse_rcv(b"+RCV=1,4,ab,c,-5,6").map(|p| p.address);
    assert_eq!(pkt, Err(LoraError::InvalidResponse));
    // A sixth field is not read.
    let pkt = parse_rcv(b"+RCV=1,2,ab,-5,6,7").unwrap();
    assert_eq!((pkt.address, pkt.length, pkt.rssi, pkt.snr), (1, 2, -5, 6));
    assert!(parse_rcv(b"+RCV=1,2,ab,-5").is_err());
    assert!(parse_rcv(b"+RCV=65536,2,ab,-5,6").is_err());
    assert!(parse_rcv(b"+RCV=1,x,ab,-5,6").is_err());
    assert!(parse_rcv(b"RCV=1,2,ab,-5,6").is_err());
    let mut long = b"+RCV=1,241,".to_vec();
    long.extend_from_slice(&[b'a'; 241]);
    long.extend_from_slice(b",-5,6");
    assert!(parse_rcv(&long).is_err());
}

#[test]
fn malformed_reports_and_overlong_lines_fail() {
    let mut node = Node::new();
    node.inject(b"+RCV=oops\r\n");
    assert!(matches!(node.next_line(), Err(LoraError::InvalidResponse)));
    node.inject(&[b'x'; 301]);
    assert!(matches!(node.next_line(), Err(LoraError::InvalidResponse)));
    // The line is forgotten, and the next one is read.
    node.client.discard_line();
    node.inject(b"+OK\r\n");
    assert_eq!(node.next_line().unwrap().unwrap(), b"+OK".to_vec());
}

#[test]
fn bytes_above_ascii_are_characters() {
    let mut node = Node::new();
    node.inject(&[0xe9, b'\r', b'\n']);
    assert_eq!(node.next_line().unwrap().unwrap(), "\u{e9}".as_bytes().to_vec());
    // A no-break space alone is a blank line.
    node.inject(&[0xa0, b'\n']);
    assert_eq!(node.next_line().unwrap(), None);
}

#[test]
fn errors_carry_the_modules_code() {
    assert_eq!(judge(b"+ERR=12", b"+OK"), Answer::Refused(LoraError::ModuleError(12)));
    assert_eq!(judge(b" +ERR=-4 ", b"+OK"), Answer::Refused(LoraError::ModuleError(-4)));
    assert_eq!(judge(b"+ERR=?", b"+OK"), Answer::Refused(LoraError::ModuleError(0)));
    assert_eq!(judge(b"+OKAY", b"+OK"), Answer::Matched);
    assert_eq!(judge(b"nothing", b"+OK"), Answer::Noise);
}

#[test]
fn a_command_awaits_its_answers_in_turn() {
    let request = RylrClient::new(()).unwrap().reset();
    assert_eq!(request.expects.len(), 2);
    let first = request.expects[0].clone();
    let second = request.expects[1].clone();
    assert_eq!(request.sent(), Progress::Awaiting(0));
    assert_eq!(request.after_line(0, b"noise"), Progress::Awaiting(0));
    assert_eq!(request.after_line(0, &first), Progress::Awaiting(1));
    assert_eq!(request.after_line(1, b"noise"), Progress::Awaiting(1));
    assert_eq!(request.after_line(1, &second), Progress::Done);
    assert_eq!(
        request.after_line(1, b"+ERR=4"),
        Progress::Failed(LoraError::ModuleError(4))
    );
    let silent = Request { text: b"AT".to_vec(), expects: Vec::new() };
    assert_eq!(silent.sent(), Progress::Done);
}

#[test]
fn default_air_is_new_air() {
    let air = LoraSwitch::default();
    assert_eq!(air.quality(1, 2), LoraSwitch::new().quality(1, 2));
    assert_eq!(air.quality(1, 2), LinkQuality { rssi: -60, snr: 10 });
}

#[test]
fn module_ids_are_bounded() {
    assert_eq!(module_id(b"+UID=abc").unwrap().as_slice(), b"abc");
    assert_eq!(module_id(b"abc").unwrap().len(), 0);
    let mut long = b"+UID=".to_vec();
    long.extend_from_slice(&[b'1'; 65]);
    assert!(matches!(module_id(&long), Err(LoraError::InvalidResponse)));
}

#[test]
fn driver_errors_as_link_errors() {
    assert_eq!(LinkError::from(LoraError::Io), LinkError::Io);
    assert_eq!(LinkError::from(LoraError::RequestTooLarge), LinkError::BufferFull);
    assert_eq!(LinkError::from(LoraError::InvalidResponse), LinkError::InvalidPacket);
    assert_eq!(LinkError::from(LoraError::Timeout), LinkError::ReceiveFailed);
    assert_eq!(LinkError::from(LoraError::ModuleError(3)), LinkError::TransmitFailed);
}

#[test]
fn metrics_keep_the_low_bits() {
    assert_eq!(metrics_from(-120, -20).rssi_dbm, Some(-120));
    assert_eq!(metrics_from(-120, -20).snr_db, Some(-20));
    assert_eq!(metrics_from(40_000, 200).rssi_dbm, Some(40_000i32 as i16));
    assert_eq!(metrics_from(40_000, 200).snr_db, Some(200i32 as i8));
    assert_eq!(metrics_from(i32::MIN, i32::MAX).rssi_dbm, Some(0));
    assert_eq!(metrics_from(i32::MIN, i32::MAX).snr_db, Some(-1));
}

#[test]
fn the_module_refuses_what_it_does_not_know() {
    let mut sim = RylrSimulator::new();
    for cmd in [
        &b"AT+MODE=256"[..],
        b"AT+IPR=fast",
        b"AT+BAND=,M",
        b"AT+ADDRESS=65536",
        b"AT+NETWORKID=-1",
        b"AT+CRFOP=",
        b"AT+SEND=1,2",
        b"AT+SEND=x,2,ab",
        b"AT+NOSUCH",
        b"at",
    ] {
        let response = sim.handle_cmd(cmd);
        assert_eq!(response.replies, vec![b"+ERR=-1\r\n".to_vec()]);
        assert!(response.sent.is_none());
    }
    // Data may hold commas, and its length is not read.
    let response = sim.handle_cmd(b"AT+SEND=3,99,a,b");
    assert_eq!(response.sent.unwrap().data, b"a,b".to_vec());
    // A restart is answered twice.
    assert_eq!(sim.handle_cmd(b"AT+RESET").replies.len(), 2);
    assert_eq!(sim.reset_delay_ms, 50);
}

#[test]
fn message_numbers_wrap() {
    let mut client = RylrClient::new(()).unwrap();
    for expected in 0..=255u8 {
        assert_eq!(client.next_msg_id(), expected);
    }
    assert_eq!(client.next_msg_id(), 0);
    assert_eq!(client.timeout(), Duration::from_secs(3));
    client.set_timeout(Duration::from_secs(9));
    assert_eq!(client.timeout(), Duration::from_secs(9));
}

/// What one client sends through the air, another receives whole, in whatever
/// order the pieces come.
#[test]
fn frames_cross_the_air() {
    let switch = LoraSwitch::new();
    let mut a = Node::on_network(1, 18, 915_000_000);
    let mut b = Node::on_network(2, 18, 915_000_000);
    let payload: Vec<u8> = (0..400u16).map(|i| (i * 7) as u8).collect();
    let (mut requests, _) = a
        .client
        .send(mac(1), &LinkFrameData { dst: mac(2), protocol: 0x4305, payload: &payload })
        .unwrap();
    requests.reverse();
    for request in &requests {
        a.perform(request).unwrap();
    }
    tick(&switch, &mut [&mut a, &mut b]);
    let (dst, src, protocol, got, _, _) = recv(&mut b).unwrap();
    assert_eq!((dst, src, protocol), (mac(2), mac(1), 0x4305));
    assert_eq!(got, payload);
}

#[test]
fn packets_that_are_not_hex_are_refused() {
    let mut node = Node::new();
    node.inject_rcv(1, "zz", -1, 1);
    assert_eq!(recv(&mut node).unwrap_err(), LinkError::InvalidPacket);
    // A message too short to be a frame is refused too.
    node.inject_rcv(1, "0001aa", -1, 1);
    assert_eq!(recv(&mut node).unwrap_err(), LinkError::InvalidPacket);
}

/// A bounded list of text is what a packet's data is held in.
#[test]
fn packet_data_is_bounded() {
    let packet = parse_rcv(b"+RCV=1,3,abc,0,0").unwrap();
    let data: &BoundedVec<u8, 240> = &packet.data;
    assert_eq!(data.as_slice(), b"abc");
    assert_eq!(data.len(), 3);
}
