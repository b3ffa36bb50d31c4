use mocap_bridge::qtm_session::{
    control_packet_len, datagram_body, stream_command, Command, Phase, QtmSession, SessionAction,
    SessionEvent, VERSION_COMMAND,
};
use mocap_bridge::qtmrt::{PacketType, HEADER_LEN};

const IDENTITY: [f32; 9] = [1.0, 0.0, 0.0, 0.0, 1.0, 0.0, 0.0, 0.0, 1.0];

fn packet(kind: u32, payload: &[u8]) -> Vec<u8> {
    let mut p = Vec::new();
    p.extend_from_slice(&((HEADER_LEN + payload.len()) as u32).to_le_bytes());
    p.extend_from_slice(&kind.to_le_bytes());
    p.extend_from_slice(payload);
    p
}

fn data_with_bodies(bodies: &[[f32; 3]]) -> Vec<u8> {
    let mut six = Vec::new();
    six.extend_from_slice(&(bodies.len() as u32).to_le_bytes());
    six.extend_from_slice(&0u16.to_le_bytes());
    six.extend_from_slice(&0u16.to_le_bytes());
    for pos in bodies {
        for v in pos.iter().chain(IDENTITY.iter()) {
            six.extend_from_slice(&v.to_le_bytes());
        }
    }
    let mut payload = Vec::new();
    payload.extend_from_slice(&7u64.to_le_bytes());
    payload.extend_from_slice(&1u32.to_le_bytes());
    payload.extend_from_slice(&1u32.to_le_bytes());
    payload.extend_from_slice(&((HEADER_LEN + six.len()) as u32).to_le_bytes());
    payload.extend_from_slice(&5u32.to_le_bytes());
    payload.extend_from_slice(&six);
    packet(3, &payload)
}

fn streaming_session(index: usize) -> QtmSession {
    let mut s = QtmSession::new(index);
    assert!(matches!(
        s.step(SessionEvent::Control(PacketType::Command)),
        SessionAction::Send(Command::Version)
    ));
    assert!(matches!(
        s.step(SessionEvent::Control(PacketType::Command)),
        SessionAction::Send(Command::StreamFrames)
    ));
    assert_eq!(s.phase(), Phase::Streaming);
    s
}

#[test]
fn handshake_requests_version_then_frames() {
    let mut s = QtmSession::new(0);
    assert_eq!(s.phase(), Phase::Greeting);
    assert!(matches!(
        s.step(SessionEvent::Control(PacketType::Command)),
        SessionAction::Send(Command::Version)
    ));
    assert_eq!(s.phase(), Phase::VersionReply);
    assert!(matches!(
        s.step(SessionEvent::Control(PacketType::Command)),
        SessionAction::Send(Command::StreamFrames)
    ));
    assert_eq!(s.phase(), Phase::Streaming);
    assert_eq!(VERSION_COMMAND, "Version 1.19");
}

#[test]
fn rejected_version_ends_session() {
    let mut s = QtmSession::new(0);
    s.step(SessionEvent::Control(PacketType::Command));
    assert!(matches!(
        s.step(SessionEvent::Control(PacketType::Error)),
        SessionAction::End("version rejected")
    ));
    assert_eq!(s.phase(), Phase::Ended);
    assert!(matches!(s.step(SessionEvent::Silence), SessionAction::Wait));
    assert_eq!(s.phase(), Phase::Ended);
}

#[test]
fn control_failure_ends_session() {
    let mut s = QtmSession::new(0);
    assert!(matches!(
        s.step(SessionEvent::ControlFailed("TCP closed")),
        SessionAction::End("TCP closed")
    ));
    let mut s = streaming_session(0);
    assert!(matches!(
        s.step(SessionEvent::SendFailed("TCP write failed")),
        SessionAction::End("TCP write failed")
    ));
    assert_eq!(s.phase(), Phase::Ended);
}

#[test]
fn datagrams_ignored_before_streaming() {
    let d = data_with_bodies(&[[1.0, 2.0, 3.0]]);
    let mut s = QtmSession::new(0);
    assert!(matches!(s.step(SessionEvent::Datagram(&d)), SessionAction::Wait));
    assert!(matches!(s.step(SessionEvent::Silence), SessionAction::Wait));
    assert_eq!(s.phase(), Phase::Greeting);
}

#[test]
fn streaming_publishes_target_body() {
    let d = data_with_bodies(&[[1.0, 2.0, 3.0], [4.0, 5.0, 6.0]]);
    let mut s = streaming_session(1);
    match s.step(SessionEvent::Datagram(&d)) {
        SessionAction::Publish(b) => {
            assert_eq!(b.pos, [4.0f32, 5.0, 6.0].map(f32::to_bits));
            assert_eq!(b.rot, IDENTITY.map(f32::to_bits));
            assert!(b.valid);
        }
        _ => panic!("expected a published body"),
    }
    // a control packet while streaming changes nothing
    assert!(matches!(s.step(SessionEvent::Control(PacketType::Event)), SessionAction::Wait));
    assert_eq!(s.phase(), Phase::Streaming);
}

#[test]
fn streaming_skips_non_data_and_missing_body() {
    let mut s = streaming_session(2);
    let d = data_with_bodies(&[[1.0, 2.0, 3.0]]);
    assert!(matches!(s.step(SessionEvent::Datagram(&d)), SessionAction::Wait));
    let xml = packet(2, b"<QTM_Parameters/>\0");
    assert!(matches!(s.step(SessionEvent::Datagram(&xml)), SessionAction::Wait));
    assert!(matches!(s.step(SessionEvent::Datagram(&[1, 2, 3])), SessionAction::Wait));
}

#[test]
fn silence_rerequests_stream() {
    let mut s = streaming_session(0);
    assert!(matches!(s.step(SessionEvent::Silence), SessionAction::Send(Command::StreamFrames)));
    assert_eq!(s.phase(), Phase::Streaming);
}

#[test]
fn datagram_body_requires_data_packet() {
    let d = data_with_bodies(&[[1.0, 2.0, 3.0]]);
    assert_eq!(datagram_body(&d, 0).unwrap().pos, [1.0f32, 2.0, 3.0].map(f32::to_bits));
    let mut cmd = d.clone();
    cmd[4] = 1;
    assert_eq!(datagram_body(&cmd, 0), None);
    assert_eq!(datagram_body(&d[..d.len() - 1], 0), None);
}

#[test]
fn stream_command_text() {
    assert_eq!(stream_command(100, 22224), "StreamFrames Frequency:100 UDP:22224 6D");
    assert_eq!(stream_command(0, 7), "StreamFrames Frequency:0 UDP:7 6D");
}

#[test]
fn control_packet_len_cases() {
    let p = packet(1, b"QTM RT Interface connected\0");
    let mut buf = [0u8; 64];
    buf[..p.len()].copy_from_slice(&p);
    assert_eq!(control_packet_len(&buf), Ok(p.len()));
    assert_eq!(control_packet_len(&buf[..p.len()]), Ok(p.len()));
    assert_eq!(control_packet_len(&buf[..p.len() - 1]), Err("control packet too large"));
    assert_eq!(control_packet_len(&buf[..3]), Err("bad packet header"));
    let mut bad = [0u8; 16];
    bad[0] = 7;
    assert_eq!(control_packet_len(&bad), Err("bad packet header"));
}
