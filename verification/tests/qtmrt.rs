use mocap_bridge::qtmrt::{
    encode_command, packet_len, parse_6d, parse_packet, Body, PacketType, DEFAULT_PORT, HEADER_LEN,
};

const IDENTITY: [f32; 9] = [1.0, 0.0, 0.0, 0.0, 1.0, 0.0, 0.0, 0.0, 1.0];

fn bits<const N: usize>(v: [f32; N]) -> [u32; N] {
    v.map(f32::to_bits)
}

fn data_payload(components: &[Vec<u8>]) -> Vec<u8> {
    let mut p = Vec::new();
    p.extend_from_slice(&123_456u64.to_le_bytes());
    p.extend_from_slice(&42u32.to_le_bytes());
    p.extend_from_slice(&(components.len() as u32).to_le_bytes());
    for c in components {
        p.extend_from_slice(c);
    }
    p
}

fn component(kind: u32, body: &[u8]) -> Vec<u8> {
    let mut c = Vec::new();
    c.extend_from_slice(&((HEADER_LEN + body.len()) as u32).to_le_bytes());
    c.extend_from_slice(&kind.to_le_bytes());
    c.extend_from_slice(body);
    c
}

fn six_d(bodies: &[([f32; 3], [f32; 9])]) -> Vec<u8> {
    let mut b = Vec::new();
    b.extend_from_slice(&(bodies.len() as u32).to_le_bytes());
    b.extend_from_slice(&0u16.to_le_bytes());
    b.extend_from_slice(&0u16.to_le_bytes());
    for (pos, rot) in bodies {
        for v in pos.iter().chain(rot.iter()) {
            b.extend_from_slice(&v.to_le_bytes());
        }
    }
    component(5, &b)
}

#[test]
fn command_roundtrip() {
    let mut buf = [0u8; 64];
    let n = encode_command("Version 1.19", &mut buf).unwrap();
    assert_eq!(n, 8 + 12 + 1);
    assert_eq!(packet_len(&buf), Some(n));
    let p = parse_packet(&buf[..n]).unwrap();
    assert_eq!(p.kind, PacketType::Command);
    assert_eq!(p.text(), Some("Version 1.19"));
}

#[test]
fn command_too_long() {
    let mut buf = [0u8; 10];
    assert_eq!(encode_command("Version 1.19", &mut buf), None);
}

#[test]
fn picks_body_by_index() {
    let p = data_payload(&[six_d(&[
        ([1.0, 2.0, 3.0], IDENTITY),
        ([4.0, 5.0, 6.0], IDENTITY),
    ])]);
    let b = parse_6d(&p, 1).unwrap();
    assert_eq!(b.pos, bits([4.0, 5.0, 6.0]));
    assert_eq!(b.rot, bits(IDENTITY));
    assert!(b.valid);
    assert_eq!(parse_6d(&p, 2), None);
}

#[test]
fn skips_other_components() {
    let other = component(1, &[0xAA; 20]);
    let p = data_payload(&[other, six_d(&[([7.0, 8.0, 9.0], IDENTITY)])]);
    assert_eq!(parse_6d(&p, 0).unwrap().pos, bits([7.0, 8.0, 9.0]));
}

#[test]
fn nan_is_invalid() {
    let p = data_payload(&[six_d(&[([f32::NAN; 3], [f32::NAN; 9])])]);
    assert!(!parse_6d(&p, 0).unwrap().valid);
}

#[test]
fn truncated_is_none() {
    let p = data_payload(&[six_d(&[([1.0, 2.0, 3.0], IDENTITY)])]);
    assert_eq!(parse_6d(&p[..p.len() - 1], 0), None);
    assert_eq!(parse_6d(&data_payload(&[]), 0), None);
}

#[test]
fn infinity_is_invalid_but_finite_values_are_valid() {
    let p = data_payload(&[six_d(&[([f32::INFINITY, 0.0, 0.0], IDENTITY)])]);
    assert!(!parse_6d(&p, 0).unwrap().valid);
    let p = data_payload(&[six_d(&[([f32::MAX, -0.0, f32::MIN_POSITIVE], IDENTITY)])]);
    assert!(parse_6d(&p, 0).unwrap().valid);
}

#[test]
fn component_smaller_than_its_header_is_refused() {
    let mut bad = Vec::new();
    bad.extend_from_slice(&4u32.to_le_bytes());
    bad.extend_from_slice(&5u32.to_le_bytes());
    let p = data_payload(&[bad]);
    assert_eq!(parse_6d(&p, 0), None);
}

#[test]
fn body_overrunning_its_component_is_refused() {
    // a 6D component that claims one body but is sized too small for it
    let mut c = six_d(&[([1.0, 2.0, 3.0], IDENTITY)]);
    let short = (c.len() - 4) as u32;
    c[0..4].copy_from_slice(&short.to_le_bytes());
    let p = data_payload(&[c]);
    assert_eq!(parse_6d(&p, 0), None);
}

#[test]
fn only_other_components_gives_none() {
    let p = data_payload(&[component(1, &[1, 2, 3, 4])]);
    assert_eq!(parse_6d(&p, 0), None);
}

#[test]
fn packet_type_codes() {
    assert_eq!(PacketType::from(0), PacketType::Error);
    assert_eq!(PacketType::from(2), PacketType::Xml);
    assert_eq!(PacketType::from(3), PacketType::Data);
    assert_eq!(PacketType::from(4), PacketType::NoMoreData);
    assert_eq!(PacketType::from(5), PacketType::Other(5));
    assert_eq!(PacketType::from(6), PacketType::Event);
    assert_eq!(PacketType::from(99), PacketType::Other(99));
}

#[test]
fn packet_header_checks() {
    assert_eq!(packet_len(&[1, 2, 3]), None);
    assert_eq!(packet_len(&[7, 0, 0, 0]), None);
    assert_eq!(packet_len(&[8, 0, 0, 0]), Some(8));
    assert_eq!(packet_len(&[0, 1, 0, 0, 9]), Some(256));
    // a packet longer than the bytes at hand is not split off
    let mut buf = [0u8; 12];
    buf[0] = 13;
    buf[4] = 3;
    assert!(parse_packet(&buf).is_none());
    buf[0] = 12;
    let p = parse_packet(&buf).unwrap();
    assert_eq!(p.kind, PacketType::Data);
    assert_eq!(p.payload.len(), 4);
}

#[test]
fn text_stops_at_nul_and_checks_utf8() {
    let mut buf = [0u8; 20];
    let n = encode_command("Hi", &mut buf).unwrap();
    assert_eq!(n, 11);
    assert_eq!(&buf[..n], &[11, 0, 0, 0, 1, 0, 0, 0, b'H', b'i', 0]);
    let p = parse_packet(&buf[..n]).unwrap();
    assert_eq!(p.payload, &[b'H', b'i', 0]);
    let bad = [10u8, 0, 0, 0, 0, 0, 0, 0, 0xFF, 0xFE];
    let p = parse_packet(&bad).unwrap();
    assert_eq!(p.kind, PacketType::Error);
    assert_eq!(p.text(), None);
}

#[test]
fn encode_command_leaves_tail_alone() {
    let mut buf = [0xEEu8; 16];
    let n = encode_command("ab", &mut buf).unwrap();
    assert_eq!(n, 11);
    assert!(buf[n..].iter().all(|&b| b == 0xEE));
    assert_eq!(DEFAULT_PORT, 22223);
}

#[test]
fn body_record_fields() {
    let rot = [0.5f32, 1.5, 2.5, 3.5, 4.5, 5.5, 6.5, 7.5, 8.5];
    let p = data_payload(&[six_d(&[([10.0, 20.0, 30.0], rot)])]);
    let b: Body = parse_6d(&p, 0).unwrap();
    assert_eq!(b.pos.map(f32::from_bits), [10.0, 20.0, 30.0]);
    assert_eq!(b.rot.map(f32::from_bits), rot);
}

#[test]
fn encoded_command_reads_back() {
    for cmd in ["", "GetState", "StreamFrames Frequency:100 UDP:22224 6D"] {
        let mut buf = [0u8; 80];
        let n = encode_command(cmd, &mut buf).unwrap();
        assert_eq!(n, cmd.len() + 9);
        let p = parse_packet(&buf[..n]).unwrap();
        assert_eq!(p.kind, PacketType::Command);
        assert_eq!(p.payload.len(), cmd.len() + 1);
        assert_eq!(p.text(), Some(cmd));
    }
}
