use mocap_bridge::mavbridge::{Encoder, HEARTBEAT_FRAME_LEN, MAX_FRAME_LEN};

const HEADER_LEN: usize = 10;

#[test]
fn heartbeat_frame_shape() {
    let mut enc = Encoder::new(1, 197);
    let mut buf = [0u8; MAX_FRAME_LEN];
    let n = enc.heartbeat(&mut buf);

    assert_eq!(buf[0], 0xFD, "v2 STX");
    assert_eq!(buf[4], 0, "first frame seq");
    assert_eq!(buf[5], 1, "sysid");
    assert_eq!(buf[6], 197, "compid");
    assert_eq!(&buf[7..10], &[0, 0, 0], "msgid 0");
    assert_eq!(n, HEADER_LEN + 9 + 2);
}

#[test]
fn sequence_increments() {
    let mut enc = Encoder::new(1, 197);
    let mut buf = [0u8; MAX_FRAME_LEN];
    enc.heartbeat(&mut buf);
    // a VISION_POSITION_ESTIMATE takes the next header from the same counter
    let (_, _, seq) = enc.next_header();
    assert_eq!(seq, 1, "shared per-link counter");
    enc.heartbeat(&mut buf);
    assert_eq!(buf[4], 2);
}

#[test]
fn heartbeat_payload_and_tail() {
    let mut enc = Encoder::new(7, 42);
    let mut buf = [0x55u8; 40];
    let n = enc.heartbeat(&mut buf);
    assert_eq!(n, HEARTBEAT_FRAME_LEN);
    assert_eq!(buf[1], 9, "payload length");
    // custom_mode 0, MAV_TYPE_ONBOARD_CONTROLLER, MAV_AUTOPILOT_INVALID, no mode flags,
    // MAV_STATE_ACTIVE, mavlink version 3
    assert_eq!(&buf[10..19], &[0, 0, 0, 0, 18, 8, 0, 4, 3]);
    assert!(buf[21..].iter().all(|&b| b == 0x55));
}

#[test]
fn sequence_wraps_after_255() {
    let mut enc = Encoder::new(1, 1);
    for expected in 0..=255u8 {
        assert_eq!(enc.next_header(), (1, 1, expected));
    }
    let mut buf = [0u8; 21];
    enc.heartbeat(&mut buf);
    assert_eq!(buf[4], 0);
}

/// The MAVLink checksum, as the protocol's reference code accumulates it.
fn mavlink_crc(data: &[u8]) -> u16 {
    let mut crc: u16 = 0xFFFF;
    for &b in data {
        let mut tmp = b ^ (crc & 0xFF) as u8;
        tmp ^= tmp << 4;
        crc = (crc >> 8) ^ ((tmp as u16) << 8) ^ ((tmp as u16) << 3) ^ ((tmp as u16) >> 4);
    }
    crc
}

#[test]
fn heartbeat_whole_frame() {
    for (sysid, compid, skip) in [(1u8, 197u8, 0usize), (7, 42, 5), (255, 1, 300)] {
        let mut enc = Encoder::new(sysid, compid);
        let mut buf = [0u8; MAX_FRAME_LEN];
        for _ in 0..skip {
            enc.next_header();
        }
        let n = enc.heartbeat(&mut buf);
        let seq = (skip % 256) as u8;
        let mut expected = vec![0xFD, 9, 0, 0, seq, sysid, compid, 0, 0, 0, 0, 0, 0, 0, 18, 8, 0, 4, 3];
        let mut crc_input = expected[1..].to_vec();
        crc_input.push(50);
        let crc = mavlink_crc(&crc_input);
        expected.extend_from_slice(&crc.to_le_bytes());
        assert_eq!(&buf[..n], &expected[..]);
    }
}
