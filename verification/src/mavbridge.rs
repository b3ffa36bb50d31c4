//! MAVLink v2 encoding: the per-link sequence counter and HEARTBEAT (#0).

use vstd::prelude::*;

use crate::wire::le16_bytes;

verus! {

/// Worst-case v2 frame: 10 B header + 255 B payload + 2 B checksum
pub const MAX_FRAME_LEN: usize = 267;

/// Length of the HEARTBEAT frame this bridge sends: 10 B header + 9 B payload + 2 B checksum
pub const HEARTBEAT_FRAME_LEN: usize = 21;

/// One bit step of the MAVLink checksum, the reflected CRC-16 with polynomial
/// 0x1021 (0x8408 reflected).
pub open spec fn x25_shift(c: u16) -> u16 {
    if c % 2 == 1 {
        (c / 2) ^ 0x8408u16
    } else {
        c / 2
    }
}

/// The checksum register after taking in the byte `b`.
pub open spec fn x25_byte(c: u16, b: u8) -> u16 {
    let x0 = c ^ (b as u16);
    x25_shift(x25_shift(x25_shift(x25_shift(x25_shift(x25_shift(x25_shift(x25_shift(x0))))))))
}

/// The MAVLink checksum (CRC-16/MCRF4XX: initial value 0xFFFF, no final xor) of `data`.
pub open spec fn x25(data: Seq<u8>) -> u16
    decreases data.len(),
{
    if data.len() == 0 {
        0xFFFFu16
    } else {
        x25_byte(x25(data.drop_last()), data.last())
    }
}

/// The seed byte that the HEARTBEAT message definition adds to the checksum.
pub const HEARTBEAT_CRC_EXTRA: u8 = 50;

/// The bridge's HEARTBEAT as a MAVLink 2 frame under the header (`sysid`,
/// `compid`, `seq`): the v2 marker 0xFD, payload length 9, no flags, the
/// header, message id 0; the payload custom_mode 0, MAV_TYPE_ONBOARD_CONTROLLER
/// (18), MAV_AUTOPILOT_INVALID (8), no mode flags, MAV_STATE_ACTIVE (4) and
/// version 3; then the checksum of everything after the marker and the seed
/// byte, low byte first.
pub open spec fn heartbeat_frame(sysid: u8, compid: u8, seq: u8) -> Seq<u8> {
    let body = seq![0xFDu8, 9, 0, 0, seq, sysid, compid, 0, 0, 0] + seq![
        0u8,
        0,
        0,
        0,
        18,
        8,
        0,
        4,
        3,
    ];
    body + le16_bytes(x25(body.drop_first() + seq![HEARTBEAT_CRC_EXTRA]) as int)
}

/// Calls `mavlink::write_versioned_msg` (MAVLink 2) with a HEARTBEAT that
/// announces an onboard controller (`MAV_TYPE_ONBOARD_CONTROLLER`,
/// `MAV_AUTOPILOT_INVALID`, no mode flags, `MAV_STATE_ACTIVE`, version 3)
/// under the header (`sysid`, `compid`, `seq`), writing into the front of
/// `buf`. Claimed, from the crate's frame layout and its checksum
/// (`calculate_crc`, CRC-16/MCRF4XX seeded with the message's extra byte):
/// the 21 bytes are `heartbeat_frame` (the last payload byte, the version,
/// is not zero, so nothing is truncated); the rest of `buf` is left alone.
#[verifier::external_body]
fn write_heartbeat(buf: &mut [u8], sysid: u8, compid: u8, seq: u8) -> (n: usize)
    requires
        old(buf)@.len() >= HEARTBEAT_FRAME_LEN,
    ensures
        n == HEARTBEAT_FRAME_LEN,
        final(buf)@.len() == old(buf)@.len(),
        final(buf)@.subrange(0, 21) == heartbeat_frame(sysid, compid, seq),
        final(buf)@.subrange(21, final(buf)@.len() as int) == old(buf)@.subrange(
            21,
            old(buf)@.len() as int,
        ),
        final(buf)@.subrange(0, 10) == seq![0xFDu8, 9, 0, 0, seq, sysid, compid, 0, 0, 0],
{
    let msg = mavlink::common::MavMessage::HEARTBEAT(mavlink::common::HEARTBEAT_DATA {
        custom_mode: 0,
        mavtype: mavlink::common::MavType::MAV_TYPE_ONBOARD_CONTROLLER,
        autopilot: mavlink::common::MavAutopilot::MAV_AUTOPILOT_INVALID,
        base_mode: mavlink::common::MavModeFlag::empty(),
        system_status: mavlink::common::MavState::MAV_STATE_ACTIVE,
        mavlink_version: 3,
    });
    let header = mavlink::MavHeader { system_id: sysid, component_id: compid, sequence: seq };
    let mut out: &mut [u8] = buf;
    match mavlink::write_versioned_msg(&mut out, mavlink::MavlinkVersion::V2, header, &msg) {
        Ok(n) => n,
        Err(_) => 0,
    }
}

/// MAVLink v2 encoder owning the per-link sequence counter
pub struct Encoder {
    sysid: u8,
    compid: u8,
    sequence: u8,
}

/// The header fields an encoder stamps on its next frame.
pub struct EncoderView {
    pub system_id: u8,
    pub component_id: u8,
    pub sequence: u8,
}

impl View for Encoder {
    type V = EncoderView;

    closed spec fn view(&self) -> EncoderView {
        EncoderView { system_id: self.sysid, component_id: self.compid, sequence: self.sequence }
    }
}

/// The sequence number that follows `s` (wrapping after 255).
pub open spec fn next_sequence(s: u8) -> u8 {
    if s == 255 {
        0
    } else {
        (s + 1) as u8
    }
}

impl Encoder {
    pub fn new(sysid: u8, compid: u8) -> (r: Self)
        ensures
            r@ == (EncoderView { system_id: sysid, component_id: compid, sequence: 0 }),
    {
        Self { sysid, compid, sequence: 0 }
    }

    /// The header (system id, component id, sequence) for the next frame;
    /// the sequence then moves on.
    pub fn next_header(&mut self) -> (r: (u8, u8, u8))
        ensures
            r == (old(self)@.system_id, old(self)@.component_id, old(self)@.sequence),
            final(self)@ == (EncoderView {
                sequence: next_sequence(old(self)@.sequence),
                ..old(self)@
            }),
    {
        let header = (self.sysid, self.compid, self.sequence);
        self.sequence = self.sequence.wrapping_add(1);
        header
    }

    /// HEARTBEAT: onboard vision source
    pub fn heartbeat(&mut self, buf: &mut [u8]) -> (n: usize)
        requires
            old(buf)@.len() >= HEARTBEAT_FRAME_LEN,
        ensures
            n == HEARTBEAT_FRAME_LEN,
            final(buf)@.len() == old(buf)@.len(),
            final(buf)@.subrange(0, 21) == heartbeat_frame(
                old(self)@.system_id,
                old(self)@.component_id,
                old(self)@.sequence,
            ),
            final(buf)@.subrange(0, 10) == seq![
                0xFDu8,
                9,
                0,
                0,
                old(self)@.sequence,
                old(self)@.system_id,
                old(self)@.component_id,
                0,
                0,
                0,
            ],
            final(buf)@.subrange(21, final(buf)@.len() as int) == old(buf)@.subrange(
                21,
                old(buf)@.len() as int,
            ),
            final(self)@ == (EncoderView {
                sequence: next_sequence(old(self)@.sequence),
                ..old(self)@
            }),
    {
        let (sysid, compid, seq) = self.next_header();
        write_heartbeat(buf, sysid, compid, seq)
    }
}

/// Frames from one encoder carry consecutive sequence numbers: after `k`
/// frames the counter has moved `k` steps, modulo 256.
pub open spec fn sequence_after(s: u8, k: nat) -> u8
    decreases k,
{
    if k == 0 {
        s
    } else {
        next_sequence(sequence_after(s, (k - 1) as nat))
    }
}

/// The sequence counter counts frames modulo 256.
pub proof fn lemma_sequence_counts_frames(s: u8, k: nat)
    ensures
        sequence_after(s, k) == (s + k) % 256,
    decreases k,
{
    if k > 0 {
        lemma_sequence_counts_frames(s, (k - 1) as nat);
    }
}

} // verus!
