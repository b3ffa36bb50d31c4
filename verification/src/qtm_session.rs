//! A QTM real-time session as the bridge runs it: take the greeting, pin the
//! protocol version, ask for 6D frames over UDP, then forward the target body
//! of every Data datagram, asking again whenever the frames fall silent.
//!
//! The caller owns the TCP control connection, the UDP socket and the silence
//! timer; it reports each thing that happened and performs the returned action.

use vstd::prelude::*;

use crate::portal::html::{decimal, push_decimal};
use crate::qtmrt::{
    header_size, packet_len, packet_type_of, parse_6d, parse_packet, six_d, Body, BodyView,
    PacketType, HEADER_LEN,
};
use crate::wire::le32;

verus! {

/// The command that pins the protocol version, so the packet layout is known.
pub const VERSION_COMMAND: &'static str = "Version 1.19";

/// Where a session stands.
#[derive(Debug, Clone, Copy, PartialEq, Eq, Structural)]
pub enum Phase {
    /// Waiting for QTM's greeting
    Greeting,
    /// The version command went out; waiting for the answer
    VersionReply,
    /// Frames were requested; datagrams are forwarded
    Streaming,
    /// The session is over
    Ended,
}

/// A command the session sends over the control connection.
#[derive(Debug, Clone, Copy, PartialEq, Eq, Structural)]
pub enum Command {
    /// `VERSION_COMMAND`
    Version,
    /// The stream request that `stream_command` spells out
    StreamFrames,
}

/// What happened since the last step.
pub enum SessionEvent<'a> {
    /// A whole control packet of this type arrived
    Control(PacketType),
    /// Reading the control connection failed, for this reason
    ControlFailed(&'static str),
    /// Sending a command failed, for this reason
    SendFailed(&'static str),
    /// A datagram arrived on the frame port
    Datagram(&'a [u8]),
    /// No datagram came for the silence period
    Silence,
}

pub enum EventView {
    Control(PacketType),
    ControlFailed(&'static str),
    SendFailed(&'static str),
    Datagram(Seq<u8>),
    Silence,
}

impl View for SessionEvent<'_> {
    type V = EventView;

    open spec fn view(&self) -> EventView {
        match self {
            SessionEvent::Control(k) => EventView::Control(*k),
            SessionEvent::ControlFailed(e) => EventView::ControlFailed(*e),
            SessionEvent::SendFailed(e) => EventView::SendFailed(*e),
            SessionEvent::Datagram(d) => EventView::Datagram(d@),
            SessionEvent::Silence => EventView::Silence,
        }
    }
}

/// What the caller does next.
pub enum SessionAction {
    /// Nothing: wait for the next event
    Wait,
    /// Send this command over the control connection
    Send(Command),
    /// Forward this body's pose
    Publish(Body),
    /// Close the session, for this reason
    End(&'static str),
}

pub enum Outcome {
    Wait,
    Send(Command),
    Publish(BodyView),
    End(&'static str),
}

impl View for SessionAction {
    type V = Outcome;

    open spec fn view(&self) -> Outcome {
        match self {
            SessionAction::Wait => Outcome::Wait,
            SessionAction::Send(c) => Outcome::Send(*c),
            SessionAction::Publish(b) => Outcome::Publish(b@),
            SessionAction::End(e) => Outcome::End(*e),
        }
    }
}

/// The body `index` of a datagram, when it holds one whole Data packet whose
/// 6D component has that body.
pub open spec fn data_body(d: Seq<u8>, index: int) -> Option<BodyView> {
    match header_size(d) {
        Some(n) => if n <= d.len() && packet_type_of(le32(d, 4) as u32) == PacketType::Data {
            six_d(d.subrange(HEADER_LEN as int, n), index)
        } else {
            None
        },
        None => None,
    }
}

/// One step of a session that forwards body `index`.
pub open spec fn session_step(phase: Phase, ev: EventView, index: int) -> (Phase, Outcome) {
    if phase == Phase::Ended {
        (Phase::Ended, Outcome::Wait)
    } else {
        match ev {
            EventView::ControlFailed(e) => (Phase::Ended, Outcome::End(e)),
            EventView::SendFailed(e) => (Phase::Ended, Outcome::End(e)),
            EventView::Control(kind) => match phase {
                Phase::Greeting => (Phase::VersionReply, Outcome::Send(Command::Version)),
                Phase::VersionReply => if kind == PacketType::Error {
                    (Phase::Ended, Outcome::End("version rejected"))
                } else {
                    (Phase::Streaming, Outcome::Send(Command::StreamFrames))
                },
                _ => (phase, Outcome::Wait),
            },
            EventView::Datagram(d) => if phase == Phase::Streaming {
                match data_body(d, index) {
                    Some(b) => (phase, Outcome::Publish(b)),
                    None => (phase, Outcome::Wait),
                }
            } else {
                (phase, Outcome::Wait)
            },
            EventView::Silence => if phase == Phase::Streaming {
                (phase, Outcome::Send(Command::StreamFrames))
            } else {
                (phase, Outcome::Wait)
            },
        }
    }
}

/// A session that forwards body `index` (0-based) of the 6D component.
pub struct QtmSession {
    phase: Phase,
    index: usize,
}

impl QtmSession {
    pub closed spec fn phase_of(&self) -> Phase {
        self.phase
    }

    pub closed spec fn index_of(&self) -> usize {
        self.index
    }

    /// A new session, waiting for the greeting.
    pub fn new(index: usize) -> (r: Self)
        ensures
            r.phase_of() == Phase::Greeting,
            r.index_of() == index,
    {
        Self { phase: Phase::Greeting, index }
    }

    pub fn phase(&self) -> (r: Phase)
        ensures
            r == self.phase_of(),
    {
        self.phase
    }

    /// Take in one event and say what to do.
    pub fn step(&mut self, ev: SessionEvent) -> (r: SessionAction)
        ensures
            (final(self).phase_of(), r@) == session_step(
                old(self).phase_of(),
                ev@,
                old(self).index_of() as int,
            ),
            final(self).index_of() == old(self).index_of(),
    {
        if self.phase == Phase::Ended {
            return SessionAction::Wait;
        }
        match ev {
            SessionEvent::ControlFailed(e) => {
                self.phase = Phase::Ended;
                SessionAction::End(e)
            },
            SessionEvent::SendFailed(e) => {
                self.phase = Phase::Ended;
                SessionAction::End(e)
            },
            SessionEvent::Control(kind) => match self.phase {
                Phase::Greeting => {
                    self.phase = Phase::VersionReply;
                    SessionAction::Send(Command::Version)
                },
                Phase::VersionReply => {
                    if kind == PacketType::Error {
                        self.phase = Phase::Ended;
                        SessionAction::End("version rejected")
                    } else {
                        self.phase = Phase::Streaming;
                        SessionAction::Send(Command::StreamFrames)
                    }
                },
                _ => SessionAction::Wait,
            },
            SessionEvent::Datagram(d) => {
                if self.phase != Phase::Streaming {
                    return SessionAction::Wait;
                }
                match datagram_body(d, self.index) {
                    Some(b) => SessionAction::Publish(b),
                    None => SessionAction::Wait,
                }
            },
            SessionEvent::Silence => {
                if self.phase == Phase::Streaming {
                    SessionAction::Send(Command::StreamFrames)
                } else {
                    SessionAction::Wait
                }
            },
        }
    }
}

/// The body `index` of a datagram that holds one whole Data packet.
pub fn datagram_body(d: &[u8], index: usize) -> (r: Option<Body>)
    ensures
        r is Some <==> data_body(d@, index as int) is Some,
        r matches Some(b) ==> b@ == data_body(d@, index as int)->0,
{
    let p = parse_packet(d)?;
    if p.kind != PacketType::Data {
        return None;
    }
    parse_6d(p.payload, index)
}

/// The text of the stream request: 6D frames at `rate_hz` to UDP port `udp_port`.
pub open spec fn stream_command_text(rate_hz: u16, udp_port: u16) -> Seq<char> {
    "StreamFrames Frequency:"@ + decimal(rate_hz as nat) + " UDP:"@ + decimal(udp_port as nat)
        + " 6D"@
}

pub fn stream_command(rate_hz: u16, udp_port: u16) -> (r: String)
    ensures
        r@ == stream_command_text(rate_hz, udp_port),
{
    let mut out = String::new();
    out.append("StreamFrames Frequency:");
    push_decimal(&mut out, rate_hz as u64);
    out.append(" UDP:");
    push_decimal(&mut out, udp_port as u64);
    out.append(" 6D");
    out
}

/// The length of the control packet whose header opens `buf`, when the whole
/// packet fits in `buf`; otherwise why the session cannot read it.
pub fn control_packet_len(buf: &[u8]) -> (r: Result<usize, &'static str>)
    ensures
        match header_size(buf@) {
            None => r == Err::<usize, &'static str>("bad packet header"),
            Some(n) => if n <= buf@.len() {
                r == Ok::<usize, &'static str>(n as usize)
            } else {
                r == Err::<usize, &'static str>("control packet too large")
            },
        },
{
    match packet_len(buf) {
        None => Err("bad packet header"),
        Some(len) => if len <= buf.len() {
            Ok(len)
        } else {
            Err("control packet too large")
        },
    }
}

/// No pose is forwarded before the frames were requested: only a streaming
/// session publishes.
pub proof fn lemma_publish_only_while_streaming(phase: Phase, ev: EventView, index: int)
    ensures
        session_step(phase, ev, index).1 is Publish ==> phase == Phase::Streaming,
{
}

/// A failure on the control connection ends a live session, and the session
/// gives that failure as its reason.
pub proof fn lemma_failures_end_session(phase: Phase, e: &'static str, index: int)
    requires
        phase != Phase::Ended,
    ensures
        session_step(phase, EventView::ControlFailed(e), index) == (Phase::Ended, Outcome::End(e)),
        session_step(phase, EventView::SendFailed(e), index) == (Phase::Ended, Outcome::End(e)),
{
}

/// An ended session stays ended and does nothing more.
pub proof fn lemma_ended_is_final(ev: EventView, index: int)
    ensures
        session_step(Phase::Ended, ev, index) == (Phase::Ended, Outcome::Wait),
{
}

/// The handshake: a greeting and an accepted version lead to a stream
/// request, and a refused version ends the session.
pub proof fn lemma_handshake(greeting: PacketType, reply: PacketType, index: int)
    ensures
        session_step(Phase::Greeting, EventView::Control(greeting), index) == (
            Phase::VersionReply,
            Outcome::Send(Command::Version),
        ),
        session_step(Phase::VersionReply, EventView::Control(reply), index) == if reply
            == PacketType::Error {
            (Phase::Ended, Outcome::End("version rejected"))
        } else {
            (Phase::Streaming, Outcome::Send(Command::StreamFrames))
        },
{
}

/// While streaming, a silence asks for the frames again.
pub proof fn lemma_silence_rerequests(index: int)
    ensures
        session_step(Phase::Streaming, EventView::Silence, index) == (
            Phase::Streaming,
            Outcome::Send(Command::StreamFrames),
        ),
{
}

/// The actions a session takes over a run of events, starting in `phase`.
pub open spec fn session_outcomes(phase: Phase, evs: Seq<EventView>, index: int) -> Seq<Outcome>
    decreases evs.len(),
{
    if evs.len() == 0 {
        Seq::empty()
    } else {
        let (next, o) = session_step(phase, evs[0], index);
        seq![o] + session_outcomes(next, evs.drop_first(), index)
    }
}

/// Whether an action asks for frames or forwards a pose.
pub open spec fn streams(o: Outcome) -> bool {
    o matches Outcome::Send(Command::StreamFrames) || o is Publish
}

/// An ended session answers every later event with nothing.
pub proof fn lemma_ended_stays_silent(evs: Seq<EventView>, index: int)
    ensures
        session_outcomes(Phase::Ended, evs, index).len() == evs.len(),
        forall|i: int|
            0 <= i < evs.len() ==> #[trigger] session_outcomes(Phase::Ended, evs, index)[i]
                is Wait,
    decreases evs.len(),
{
    if evs.len() > 0 {
        lemma_ended_stays_silent(evs.drop_first(), index);
        let os = session_outcomes(Phase::Ended, evs, index);
        let tail = session_outcomes(Phase::Ended, evs.drop_first(), index);
        assert(os == seq![Outcome::Wait] + tail);
        assert forall|i: int| 0 <= i < evs.len() implies #[trigger] os[i] is Wait by {
            if i > 0 {
                assert(os[i] == tail[i - 1]);
            }
        }
    }
}

/// Over any run of events from the greeting, the version is pinned before
/// frames are requested or any pose is forwarded.
pub proof fn lemma_version_before_frames(phase: Phase, evs: Seq<EventView>, index: int)
    ensures
        session_outcomes(phase, evs, index).len() == evs.len(),
        forall|i: int|
            0 <= i < evs.len() && streams(#[trigger] session_outcomes(phase, evs, index)[i])
                ==> phase != Phase::Greeting || exists|j: int|
                0 <= j < i && session_outcomes(phase, evs, index)[j] == Outcome::Send(
                    Command::Version,
                ),
    decreases evs.len(),
{
    if evs.len() > 0 {
        let (next, o) = session_step(phase, evs[0], index);
        let rest = evs.drop_first();
        let os = session_outcomes(phase, evs, index);
        let tail = session_outcomes(next, rest, index);
        lemma_version_before_frames(next, rest, index);
        lemma_ended_stays_silent(rest, index);
        assert(os == seq![o] + tail);
        assert forall|i: int|
            0 <= i < evs.len() && streams(#[trigger] os[i]) implies phase != Phase::Greeting
            || exists|j: int| 0 <= j < i && os[j] == Outcome::Send(Command::Version) by {
            if phase == Phase::Greeting && i > 0 {
                assert(os[i] == tail[i - 1]);
                if next == Phase::Greeting {
                    let j = choose|j: int|
                        0 <= j < i - 1 && tail[j] == Outcome::Send(Command::Version);
                    assert(os[j + 1] == tail[j]);
                } else if next == Phase::VersionReply {
                    assert(os[0] == Outcome::Send(Command::Version));
                } else {
                    assert(next == Phase::Ended);
                    assert(tail[i - 1] is Wait);
                }
            }
        }
    }
}

/// A run whose version is refused: after the greeting the session sends
/// the version command, ends with "version rejected" on the Error reply,
/// and does nothing more, whatever follows.
pub proof fn lemma_refused_version_run(evs: Seq<EventView>, index: int)
    requires
        evs.len() >= 2,
        evs[0] is Control,
        evs[1] == EventView::Control(PacketType::Error),
    ensures
        session_outcomes(Phase::Greeting, evs, index)[0] == Outcome::Send(Command::Version),
        session_outcomes(Phase::Greeting, evs, index)[1] == Outcome::End("version rejected"),
        forall|i: int|
            2 <= i < evs.len() ==> #[trigger] session_outcomes(Phase::Greeting, evs, index)[i]
                is Wait,
{
    let rest1 = evs.drop_first();
    let rest2 = rest1.drop_first();
    let os = session_outcomes(Phase::Greeting, evs, index);
    let os1 = session_outcomes(Phase::VersionReply, rest1, index);
    let os2 = session_outcomes(Phase::Ended, rest2, index);
    lemma_ended_stays_silent(rest2, index);
    assert(os == seq![Outcome::Send(Command::Version)] + os1);
    assert(os1 == seq![Outcome::End("version rejected")] + os2);
    assert forall|i: int| 2 <= i < evs.len() implies #[trigger] os[i] is Wait by {
        assert(os[i] == os1[i - 1]);
        assert(os1[i - 1] == os2[i - 2]);
    }
}

} // verus!
