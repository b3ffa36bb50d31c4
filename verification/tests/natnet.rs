use mocap_bridge::natnet::{parse_frame, RigidBody, Version, NAT_FRAMEOFDATA};

struct Rb {
    id: i32,
    pos: [f32; 3],
    quat: [f32; 4],
    markers: u32,
    params: i16,
}

fn frame(version: Version, marker_sets: &[(&str, u32)], n_other: u32, bodies: &[Rb]) -> Vec<u8> {
    let mut d = Vec::new();
    d.extend_from_slice(&NAT_FRAMEOFDATA.to_le_bytes());
    d.extend_from_slice(&0u16.to_le_bytes());
    d.extend_from_slice(&77i32.to_le_bytes());
    d.extend_from_slice(&(marker_sets.len() as i32).to_le_bytes());
    for (name, n) in marker_sets {
        d.extend_from_slice(name.as_bytes());
        d.push(0);
        d.extend_from_slice(&(*n as i32).to_le_bytes());
        d.extend(std::iter::repeat(0u8).take(*n as usize * 12));
    }
    d.extend_from_slice(&(n_other as i32).to_le_bytes());
    d.extend(std::iter::repeat(0u8).take(n_other as usize * 12));
    d.extend_from_slice(&(bodies.len() as i32).to_le_bytes());
    for b in bodies {
        d.extend_from_slice(&b.id.to_le_bytes());
        for v in b.pos.iter().chain(b.quat.iter()) {
            d.extend_from_slice(&v.to_le_bytes());
        }
        if version.major < 3 {
            d.extend_from_slice(&(b.markers as i32).to_le_bytes());
            d.extend(std::iter::repeat(0u8).take(b.markers as usize * 12));
            if version.major >= 2 {
                d.extend(std::iter::repeat(0u8).take(b.markers as usize * 8));
            }
        }
        if version.major >= 2 {
            d.extend_from_slice(&0.25f32.to_le_bytes());
        }
        if version.major > 2 || (version.major == 2 && version.minor >= 6) {
            d.extend_from_slice(&b.params.to_le_bytes());
        }
    }
    d
}

fn rb(id: i32, x: f32, params: i16) -> Rb {
    Rb { id, pos: [x, x + 1.0, x + 2.0], quat: [0.1, 0.2, 0.3, 0.9], markers: 2, params }
}

fn expect(b: &RigidBody, id: i32, x: f32, valid: bool) {
    assert_eq!(b.id, id);
    assert_eq!(b.pos.map(f32::from_bits), [x, x + 1.0, x + 2.0]);
    assert_eq!(b.quat.map(f32::from_bits), [0.1, 0.2, 0.3, 0.9]);
    assert_eq!(b.valid, valid);
}

#[test]
fn finds_target_in_v3_frame() {
    let v = Version::new(3, 1);
    let d = frame(v, &[("all", 3), ("rb1", 2)], 1, &[rb(5, 1.0, 1), rb(32, 10.0, 1)]);
    let b = parse_frame(&d, v, 32).unwrap();
    expect(&b, 32, 10.0, true);
    let b = parse_frame(&d, v, 5).unwrap();
    expect(&b, 5, 1.0, true);
    assert_eq!(parse_frame(&d, v, 7), None);
}

#[test]
fn params_bit_zero_is_tracking_valid() {
    let v = Version::new(3, 0);
    let d = frame(v, &[], 0, &[rb(1, 0.0, 0), rb(2, 0.0, 2), rb(3, 0.0, -1)]);
    assert!(!parse_frame(&d, v, 1).unwrap().valid);
    assert!(!parse_frame(&d, v, 2).unwrap().valid);
    assert!(parse_frame(&d, v, 3).unwrap().valid);
}

#[test]
fn v2_6_embeds_markers_and_params() {
    let v = Version::new(2, 6);
    let d = frame(v, &[("set", 1)], 0, &[rb(4, 3.0, 0), rb(9, 4.0, 1)]);
    expect(&parse_frame(&d, v, 4).unwrap(), 4, 3.0, false);
    expect(&parse_frame(&d, v, 9).unwrap(), 9, 4.0, true);
}

#[test]
fn v2_0_has_no_params_so_always_valid() {
    let v = Version::new(2, 0);
    let d = frame(v, &[], 2, &[rb(9, 4.0, 0)]);
    expect(&parse_frame(&d, v, 9).unwrap(), 9, 4.0, true);
}

#[test]
fn v1_embeds_marker_positions_only() {
    let v = Version::new(1, 9);
    let d = frame(v, &[], 0, &[rb(1, 2.0, 0), rb(6, 5.0, 0)]);
    expect(&parse_frame(&d, v, 6).unwrap(), 6, 5.0, true);
}

#[test]
fn last_body_with_target_id_wins() {
    let v = Version::new(4, 1);
    let d = frame(v, &[], 0, &[rb(8, 1.0, 1), rb(8, 2.0, 0)]);
    expect(&parse_frame(&d, v, 8).unwrap(), 8, 2.0, false);
}

#[test]
fn other_message_ids_are_ignored() {
    let v = Version::new(3, 1);
    let mut d = frame(v, &[], 0, &[rb(1, 0.0, 1)]);
    d[0] = 5;
    assert_eq!(parse_frame(&d, v, 1), None);
}

#[test]
fn truncated_or_malformed_frames_give_none() {
    let v = Version::new(3, 1);
    let d = frame(v, &[("abc", 2)], 1, &[rb(1, 0.0, 1), rb(2, 0.0, 1)]);
    for cut in 0..d.len() {
        assert_eq!(parse_frame(&d[..cut], v, 2), None, "cut at {cut}");
    }
    // a negative count
    let mut bad = d.clone();
    bad[8..12].copy_from_slice(&(-1i32).to_le_bytes());
    assert_eq!(parse_frame(&bad, v, 1), None);
    // a marker set name without its NUL
    let mut no_nul = Vec::new();
    no_nul.extend_from_slice(&d[..12]);
    no_nul.extend_from_slice(b"abc");
    assert_eq!(parse_frame(&no_nul, v, 1), None);
}

#[test]
fn trailing_bytes_are_allowed() {
    let v = Version::new(3, 1);
    let mut d = frame(v, &[], 0, &[rb(3, 1.0, 1)]);
    d.extend_from_slice(&[0xAB; 16]);
    expect(&parse_frame(&d, v, 3).unwrap(), 3, 1.0, true);
}

#[test]
fn only_the_requested_id_comes_back() {
    let v = Version::new(3, 1);
    let d = frame(v, &[("set", 2)], 1, &[rb(1, 1.0, 1), rb(2, 2.0, 1), rb(3, 3.0, 1)]);
    for id in 1..=3 {
        assert_eq!(parse_frame(&d, v, id).unwrap().id, id);
    }
    assert_eq!(parse_frame(&d, v, 4), None);
}
