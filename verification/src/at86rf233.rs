//! The AT86RF233 radio: its register commands, the order they are issued in, and
//! the layout of its frame buffer.

use vstd::prelude::*;

use crate::codec::overlay;
use crate::ieee802154::MAX_FRAME_LEN;
use crate::link::LinkError;
use crate::link::LinkMetrics;

verus! {

/// Register TRX_STATUS: the transceiver's present state in bits 0-4.
pub const REG_TRX_STATUS: u8 = 0x01;

/// Register TRX_STATE: writing a state or command to bits 0-4 requests it.
pub const REG_TRX_STATE: u8 = 0x02;

/// Register PHY_CC_CCA: the operating channel in bits 0-4.
pub const REG_PHY_CC_CCA: u8 = 0x08;

/// Register IRQ_MASK: which interrupts assert the IRQ pin.
pub const REG_IRQ_MASK: u8 = 0x0e;

/// Register IRQ_STATUS: pending interrupts; reading clears it.
pub const REG_IRQ_STATUS: u8 = 0x0f;

/// State TRX_OFF: the one a hardware reset leaves the chip in.
pub const STATE_TRX_OFF: u8 = 0x08;

/// State PLL_ON: ready to transmit.
pub const STATE_PLL_ON: u8 = 0x09;

/// State RX_ON: listening; the resting state between operations.
pub const STATE_RX_ON: u8 = 0x06;

/// Command TX_START: begin transmitting the loaded frame.
pub const CMD_TX_START: u8 = 0x02;

/// Interrupt TRX_END: a transmission or reception completed.
pub const IRQ_TRX_END: u8 = 0x08;

/// SPI command byte of a register read, before the address is put in.
pub const CMD_REG_READ: u8 = 0x80;

/// SPI command byte of a register write, before the address is put in.
pub const CMD_REG_WRITE: u8 = 0xc0;

/// SPI command byte of a frame buffer write.
pub const CMD_FRAME_WRITE: u8 = 0x60;

/// SPI command byte of a frame buffer read.
pub const CMD_FRAME_READ: u8 = 0x20;

/// Largest frame the buffer holds, checksum and all.
pub const MAX_PSDU_LEN: usize = 127;

/// Length of the checksum that the hardware appends.
pub const FCS_LEN: usize = 2;

/// Bytes clocked during a frame buffer read: command, length, largest frame,
/// quality.
pub const FRAME_READ_LEN: usize = 130;

/// How often a requested state is polled for before giving up.
pub const MAX_STATE_POLLS: usize = 1000;

/// A radio connected over `spi`, with its interrupt line and reset pin.
pub struct At86Rf233<SPI, IRQ, RST> {
    /// The SPI device.
    pub spi: SPI,
    /// The interrupt-request line.
    pub irq: IRQ,
    /// The active-low reset pin.
    pub reset: RST,
    /// Sequence number of the next frame sent.
    pub seq: u8,
    /// The most recently received frame.
    pub rx_buf: [u8; 125],
}

impl<SPI, IRQ, RST> At86Rf233<SPI, IRQ, RST> {
    /// A radio not yet brought up.
    pub fn idle(spi: SPI, irq: IRQ, reset: RST) -> (r: Self)
        ensures
            r.spi == spi,
            r.irq == irq,
            r.reset == reset,
            r.seq == 0,
            r.rx_buf@ == Seq::new(125, |i: int| 0u8),
    {
        let rx_buf: [u8; 125] = [0u8; 125];
        assert(rx_buf@ =~= Seq::new(125, |i: int| 0u8));
        At86Rf233 { spi, irq, reset, seq: 0, rx_buf }
    }

    /// Take the next sequence number, wrapping round at the end.
    pub fn take_seq(&mut self) -> (n: u8)
        ensures
            n == old(self).seq,
            final(self).seq == (if n == u8::MAX {
                0u8
            } else {
                (n + 1) as u8
            }),
            final(self).rx_buf@ == old(self).rx_buf@,
            final(self).spi == old(self).spi,
            final(self).irq == old(self).irq,
            final(self).reset == old(self).reset,
    {
        let n: u8 = self.seq;
        self.seq = self.seq.wrapping_add(1);
        n
    }

    /// Keep the frame of a frame buffer read: its length without the checksum,
    /// and the quality the chip measured.
    pub fn store_frame(&mut self, raw: &[u8; 130]) -> (r: Result<(usize, u8), LinkError>)
        ensures
            r == frame_read_of(raw@),
            match r {
                Ok((len, _)) => final(self).rx_buf@ == overlay(
                    old(self).rx_buf@,
                    0,
                    raw@.subrange(2, 2 + len),
                ),
                Err(_) => final(self).rx_buf@ == old(self).rx_buf@,
            },
            final(self).seq == old(self).seq,
            final(self).spi == old(self).spi,
            final(self).irq == old(self).irq,
            final(self).reset == old(self).reset,
    {
        let (len, lqi) = match parse_frame_read(raw) {
            Ok(parts) => parts,
            Err(e) => {
                return Err(e);
            },
        };
        let mut kept: [u8; 125] = self.rx_buf;
        let ghost before = kept@;
        let mut i: usize = 0;
        while i < len
            invariant
                i <= len,
                len <= 125,
                before.len() == 125,
                kept@ == overlay(before, 0, raw@.subrange(2, 2 + i)),
            decreases len - i,
        {
            kept[i] = raw[2 + i];
            i = i + 1;
            assert(kept@ =~= overlay(before, 0, raw@.subrange(2, 2 + i)));
        }
        self.rx_buf = kept;
        Ok((len, lqi))
    }
}

/// The two bytes of a register read: the command with the address in its low six
/// bits, then a byte for the answer.
pub fn read_command(addr: u8) -> (b: [u8; 2])
    ensures
        b@ == seq![(CMD_REG_READ + addr % 64) as u8, 0u8],
{
    assert((0x80u8 | (addr & 0x3f)) == 0x80 + addr % 64) by (bit_vector);
    let b: [u8; 2] = [CMD_REG_READ | (addr & 0x3f), 0];
    assert(b@ =~= seq![(CMD_REG_READ + addr % 64) as u8, 0u8]);
    b
}

/// The two bytes of a register write: the command with the address in its low
/// six bits, then the value.
pub fn write_command(addr: u8, value: u8) -> (b: [u8; 2])
    ensures
        b@ == seq![(CMD_REG_WRITE + addr % 64) as u8, value],
{
    assert((0xc0u8 | (addr & 0x3f)) == 0xc0 + addr % 64) by (bit_vector);
    let b: [u8; 2] = [CMD_REG_WRITE | (addr & 0x3f), value];
    assert(b@ =~= seq![(CMD_REG_WRITE + addr % 64) as u8, value]);
    b
}

/// The two bytes in front of a frame loaded for transmission: the command, then
/// the length with the checksum the hardware will append.
pub fn frame_write_command(len: usize) -> (b: [u8; 2])
    requires
        len <= MAX_FRAME_LEN,
    ensures
        b@ == seq![CMD_FRAME_WRITE, (len + FCS_LEN) as u8],
{
    let b: [u8; 2] = [CMD_FRAME_WRITE, (len + FCS_LEN) as u8];
    assert(b@ =~= seq![CMD_FRAME_WRITE, (len + FCS_LEN) as u8]);
    b
}

/// Whether a TRX_STATUS value reports the state.
pub fn in_state(status: u8, state: u8) -> (b: bool)
    ensures
        b == (status % 32 == state),
{
    assert(status & 0x1f == status % 32) by (bit_vector);
    status & 0x1f == state
}

/// The PHY_CC_CCA value that tunes to `channel` and keeps the other bits.
pub fn tuned(cca: u8, channel: u8) -> (v: u8)
    ensures
        v == cca - cca % 32 + channel % 32,
        v % 32 == channel % 32,
        v / 32 == cca / 32,
{
    assert((cca & !0x1fu8) | (channel & 0x1f) == cca - cca % 32 + channel % 32) by (bit_vector);
    (cca & !0x1f) | (channel & 0x1f)
}

/// Tuning sets the channel and nothing else.
pub proof fn tuning_keeps_other_bits(cca: u8, channel: u8)
    ensures
        (cca - cca % 32 + channel % 32) % 32 == channel % 32,
        (cca - cca % 32 + channel % 32) / 32 == cca / 32,
{
}

/// One thing the driver does with the chip.
#[derive(Debug, Clone, Copy, PartialEq, Eq, Structural)]
pub enum RadioStep {
    /// Pulse the reset pin low, then high.
    PulseReset,
    /// Poll TRX_STATUS until it reports this state.
    AwaitState(u8),
    /// Write a value to a register.
    WriteRegister(u8, u8),
    /// Read PHY_CC_CCA and write it back tuned to this channel.
    Tune(u8),
    /// Load the encoded frame into the frame buffer.
    LoadFrame,
    /// Read IRQ_STATUS, clearing it.
    ClearIrq,
    /// Wait for the interrupt line to rise.
    AwaitIrq,
    /// Read the frame buffer.
    ReadFrame,
}

/// What bringing the radio up takes.
pub open spec fn bring_up_steps(channel: u8) -> Seq<RadioStep> {
    seq![
        RadioStep::PulseReset,
        RadioStep::AwaitState(STATE_TRX_OFF),
        RadioStep::WriteRegister(REG_TRX_STATE, STATE_PLL_ON),
        RadioStep::AwaitState(STATE_PLL_ON),
        RadioStep::Tune(channel),
        RadioStep::WriteRegister(REG_TRX_STATE, STATE_RX_ON),
        RadioStep::AwaitState(STATE_RX_ON),
        RadioStep::WriteRegister(REG_IRQ_MASK, IRQ_TRX_END),
    ]
}

/// What transmitting a frame takes.
pub open spec fn transmit_steps() -> Seq<RadioStep> {
    seq![
        RadioStep::WriteRegister(REG_TRX_STATE, STATE_PLL_ON),
        RadioStep::AwaitState(STATE_PLL_ON),
        RadioStep::LoadFrame,
        RadioStep::ClearIrq,
        RadioStep::WriteRegister(REG_TRX_STATE, CMD_TX_START),
        RadioStep::AwaitIrq,
        RadioStep::ClearIrq,
        RadioStep::WriteRegister(REG_TRX_STATE, STATE_RX_ON),
        RadioStep::AwaitState(STATE_RX_ON),
    ]
}

/// What receiving a frame takes.
pub open spec fn receive_steps() -> Seq<RadioStep> {
    seq![RadioStep::AwaitIrq, RadioStep::ClearIrq, RadioStep::ReadFrame]
}

/// What bringing the radio up takes, in order: reset, tune, listen, and enable
/// the completion interrupt.
pub fn bring_up(channel: u8) -> (steps: Vec<RadioStep>)
    ensures
        steps@ == bring_up_steps(channel),
{
    let steps: Vec<RadioStep> = vec![
        RadioStep::PulseReset,
        RadioStep::AwaitState(STATE_TRX_OFF),
        RadioStep::WriteRegister(REG_TRX_STATE, STATE_PLL_ON),
        RadioStep::AwaitState(STATE_PLL_ON),
        RadioStep::Tune(channel),
        RadioStep::WriteRegister(REG_TRX_STATE, STATE_RX_ON),
        RadioStep::AwaitState(STATE_RX_ON),
        RadioStep::WriteRegister(REG_IRQ_MASK, IRQ_TRX_END),
    ];
    assert(steps@ =~= bring_up_steps(channel));
    steps
}

/// What transmitting a frame takes, in order; it ends listening again.
pub fn transmit() -> (steps: Vec<RadioStep>)
    ensures
        steps@ == transmit_steps(),
{
    let steps: Vec<RadioStep> = vec![
        RadioStep::WriteRegister(REG_TRX_STATE, STATE_PLL_ON),
        RadioStep::AwaitState(STATE_PLL_ON),
        RadioStep::LoadFrame,
        RadioStep::ClearIrq,
        RadioStep::WriteRegister(REG_TRX_STATE, CMD_TX_START),
        RadioStep::AwaitIrq,
        RadioStep::ClearIrq,
        RadioStep::WriteRegister(REG_TRX_STATE, STATE_RX_ON),
        RadioStep::AwaitState(STATE_RX_ON),
    ];
    assert(steps@ =~= transmit_steps());
    steps
}

/// What receiving a frame takes, in order.
pub fn receive() -> (steps: Vec<RadioStep>)
    ensures
        steps@ == receive_steps(),
{
    let steps: Vec<RadioStep> = vec![
        RadioStep::AwaitIrq,
        RadioStep::ClearIrq,
        RadioStep::ReadFrame,
    ];
    assert(steps@ =~= receive_steps());
    steps
}

/// The outcome of one poll for a state.
#[derive(Debug, Clone, Copy, PartialEq, Eq, Structural)]
pub enum PollOutcome {
    /// The chip reports the state.
    Reached,
    /// Not yet; poll again.
    Again,
    /// Not within the allowed number of polls.
    GaveUp,
}

/// What to do after the `polls`-th poll (counting from one) read `status`.
pub fn poll_outcome(polls: usize, status: u8, state: u8) -> (o: PollOutcome)
    ensures
        o == (if status % 32 == state {
            PollOutcome::Reached
        } else if polls < MAX_STATE_POLLS {
            PollOutcome::Again
        } else {
            PollOutcome::GaveUp
        }),
{
    if in_state(status, state) {
        PollOutcome::Reached
    } else if polls < MAX_STATE_POLLS {
        PollOutcome::Again
    } else {
        PollOutcome::GaveUp
    }
}

/// What a frame buffer read holds: the frame's length without the checksum, and
/// the quality byte behind it.  A length no frame can have is refused.
pub open spec fn frame_read_of(raw: Seq<u8>) -> Result<(usize, u8), LinkError> {
    let phr = raw[1] as int;
    if phr < FCS_LEN || phr > MAX_PSDU_LEN {
        Err(LinkError::InvalidPacket)
    } else {
        Ok(((phr - FCS_LEN) as usize, raw[2 + phr]))
    }
}

/// Read the frame's length and the quality byte out of a frame buffer read.
pub fn parse_frame_read(raw: &[u8; 130]) -> (r: Result<(usize, u8), LinkError>)
    ensures
        r == frame_read_of(raw@),
        r matches Ok((len, _)) ==> len <= MAX_FRAME_LEN,
{
    let phr: usize = raw[1] as usize;
    if phr < FCS_LEN || phr > MAX_PSDU_LEN {
        return Err(LinkError::InvalidPacket);
    }
    Ok((phr - FCS_LEN, raw[2 + phr]))
}

/// The metrics of a frame received with this link quality: the chip reports no
/// signal-to-noise ratio.
pub fn frame_metrics(lqi: u8) -> (m: LinkMetrics)
    ensures
        m == (LinkMetrics { rssi_dbm: None, snr_db: None, quality: Some(lqi) }),
{
    LinkMetrics { rssi_dbm: None, snr_db: None, quality: Some(lqi) }
}

/// The state that steps leave the chip in: the last one awaited, if any.
pub open spec fn resting_state(steps: Seq<RadioStep>) -> Option<u8>
    decreases steps.len(),
{
    if steps.len() == 0 {
        None
    } else {
        match steps.last() {
            RadioStep::AwaitState(state) => Some(state),
            _ => resting_state(steps.drop_last()),
        }
    }
}

/// The radio listens between operations: bringing it up and transmitting leave it
/// listening, and receiving does not change that.
pub proof fn operations_leave_it_listening(channel: u8)
    ensures
        resting_state(bring_up_steps(channel)) == Some(STATE_RX_ON),
        resting_state(transmit_steps()) == Some(STATE_RX_ON),
        resting_state(receive_steps()) is None,
{
    reveal_with_fuel(resting_state, 5);
}

/// Whether one step is taken before another.
pub open spec fn in_order(steps: Seq<RadioStep>, first: RadioStep, then: RadioStep) -> bool {
    exists|i: int, j: int|
        0 <= i < j < steps.len() && #[trigger] steps[i] == first && #[trigger] steps[j] == then
}

/// A transmission is started once, when the chip is ready, the frame is loaded and
/// no old interrupt is pending; its end is awaited before the chip is asked to
/// listen again, and that is awaited too.
pub proof fn transmission_is_in_order()
    ensures
        ({
            let steps = transmit_steps();
            let start = RadioStep::WriteRegister(0x02, 0x02);
            let listen = RadioStep::WriteRegister(0x02, 0x06);
            &&& in_order(
                steps,
                RadioStep::WriteRegister(0x02, 0x09),
                RadioStep::AwaitState(0x09),
            )
            &&& in_order(steps, RadioStep::AwaitState(0x09), start)
            &&& in_order(steps, RadioStep::LoadFrame, start)
            &&& in_order(steps, RadioStep::ClearIrq, start)
            &&& in_order(steps, start, RadioStep::AwaitIrq)
            &&& in_order(steps, RadioStep::AwaitIrq, RadioStep::ClearIrq)
            &&& in_order(steps, RadioStep::AwaitIrq, listen)
            &&& in_order(steps, listen, RadioStep::AwaitState(0x06))
            &&& forall|i: int, j: int|
                0 <= i < steps.len() && 0 <= j < steps.len() && #[trigger] steps[i] == start
                    && #[trigger] steps[j] == start ==> i == j
            &&& !steps.contains(RadioStep::ReadFrame)
            &&& !steps.contains(RadioStep::PulseReset)
        }),
{
    let steps = transmit_steps();
    assert(steps[0] == RadioStep::WriteRegister(0x02, 0x09));
    assert(steps[1] == RadioStep::AwaitState(0x09));
    assert(steps[2] == RadioStep::LoadFrame);
    assert(steps[3] == RadioStep::ClearIrq);
    assert(steps[4] == RadioStep::WriteRegister(0x02, 0x02));
    assert(steps[5] == RadioStep::AwaitIrq);
    assert(steps[6] == RadioStep::ClearIrq);
    assert(steps[7] == RadioStep::WriteRegister(0x02, 0x06));
    assert(steps[8] == RadioStep::AwaitState(0x06));
}

/// Bringing the radio up resets it, waits until it is off, readies it, tunes it to
/// the channel asked for while it is ready, has it listen, and lets the end of an
/// operation, and nothing else, raise the interrupt line.
pub proof fn bring_up_is_in_order(channel: u8)
    ensures
        ({
            let steps = bring_up_steps(channel);
            let ready = RadioStep::WriteRegister(0x02, 0x09);
            let listen = RadioStep::WriteRegister(0x02, 0x06);
            &&& in_order(steps, RadioStep::PulseReset, RadioStep::AwaitState(0x08))
            &&& in_order(steps, RadioStep::AwaitState(0x08), ready)
            &&& in_order(steps, ready, RadioStep::AwaitState(0x09))
            &&& in_order(steps, RadioStep::AwaitState(0x09), RadioStep::Tune(channel))
            &&& in_order(steps, RadioStep::Tune(channel), listen)
            &&& in_order(steps, listen, RadioStep::AwaitState(0x06))
            &&& in_order(
                steps,
                RadioStep::PulseReset,
                RadioStep::WriteRegister(0x0e, 0x08),
            )
            &&& forall|i: int|
                0 <= i < steps.len() ==> (#[trigger] steps[i] matches RadioStep::Tune(c) ==> c
                    == channel)
        }),
{
    let steps = bring_up_steps(channel);
    assert(steps[0] == RadioStep::PulseReset);
    assert(steps[1] == RadioStep::AwaitState(0x08));
    assert(steps[2] == RadioStep::WriteRegister(0x02, 0x09));
    assert(steps[3] == RadioStep::AwaitState(0x09));
    assert(steps[4] == RadioStep::Tune(channel));
    assert(steps[5] == RadioStep::WriteRegister(0x02, 0x06));
    assert(steps[6] == RadioStep::AwaitState(0x06));
    assert(steps[7] == RadioStep::WriteRegister(0x0e, 0x08));
}

/// A frame is read once its arrival was awaited and the interrupt cleared.
pub proof fn reception_is_in_order()
    ensures
        in_order(receive_steps(), RadioStep::AwaitIrq, RadioStep::ClearIrq),
        in_order(receive_steps(), RadioStep::ClearIrq, RadioStep::ReadFrame),
        receive_steps().len() == 3,
{
    let steps = receive_steps();
    assert(steps[0] == RadioStep::AwaitIrq);
    assert(steps[1] == RadioStep::ClearIrq);
    assert(steps[2] == RadioStep::ReadFrame);
}

/// A frame buffer read gives the length of the frame without its two bytes of
/// checksum, and the quality that stands behind those; a length that leaves no room for
/// a checksum, or that no frame has, is refused.
pub proof fn frame_read_finds_the_frame(raw: Seq<u8>)
    requires
        raw.len() == 130,
    ensures
        2 <= raw[1] <= 127 ==> frame_read_of(raw) == Ok::<(usize, u8), LinkError>(
            ((raw[1] - 2) as usize, raw[raw[1] + 2]),
        ),
        raw[1] < 2 || raw[1] > 127 ==> frame_read_of(raw) == Err::<(usize, u8), LinkError>(
            LinkError::InvalidPacket,
        ),
{
}

} // verus!
