//! Qualisys QTM real-time protocol (little-endian, port 22223) packet
//! encoder/parser.
//!
//! Floating-point fields are carried as their IEEE-754 bit patterns (`u32`).

use vstd::prelude::*;
use vstd::string::StringSliceAdditionalSpecFns;
use vstd::utf8::{decode_utf8, valid_utf8};

use crate::text::str_from_utf8;
use crate::wire::{
    le32, le32_bytes, lemma_le32_roundtrip, nul_from, read_u32_le, write_u32_le, ByteReader,
};

verus! {

/// QTM little-endian RT port
pub const DEFAULT_PORT: u16 = 22223;

/// Packet header: size (incl. header) + type
pub const HEADER_LEN: usize = 8;

/// 6D component id (position + rotation matrix per body)
const COMPONENT_6D: u32 = 5;

#[derive(Debug, Clone, Copy, PartialEq, Eq, Structural)]
pub enum PacketType {
    Error,
    Command,
    Xml,
    Data,
    NoMoreData,
    Event,
    Other(u32),
}

/// The packet type that a type code on the wire stands for.
pub open spec fn packet_type_of(v: u32) -> PacketType {
    if v == 0 {
        PacketType::Error
    } else if v == 1 {
        PacketType::Command
    } else if v == 2 {
        PacketType::Xml
    } else if v == 3 {
        PacketType::Data
    } else if v == 4 {
        PacketType::NoMoreData
    } else if v == 6 {
        PacketType::Event
    } else {
        PacketType::Other(v)
    }
}

impl From<u32> for PacketType {
    fn from(v: u32) -> (r: Self) {
        match v {
            0 => Self::Error,
            1 => Self::Command,
            2 => Self::Xml,
            3 => Self::Data,
            4 => Self::NoMoreData,
            6 => Self::Event,
            other => Self::Other(other),
        }
    }
}

impl vstd::std_specs::convert::FromSpecImpl<u32> for PacketType {
    open spec fn obeys_from_spec() -> bool {
        true
    }

    open spec fn from_spec(v: u32) -> PacketType {
        packet_type_of(v)
    }
}

#[derive(Debug, Clone, Copy, PartialEq)]
pub struct Packet<'a> {
    pub kind: PacketType,
    pub payload: &'a [u8],
}

/// Length of the text at the front of `p`: up to the first NUL, or all of it.
pub open spec fn text_len(p: Seq<u8>) -> int {
    match nul_from(p, 0) {
        Some(i) => i,
        None => p.len() as int,
    }
}

impl Packet<'_> {
    /// Payload of an Error/Command packet as text, without the trailing NUL
    pub fn text(&self) -> (r: Option<&str>)
        ensures
            r is Some <==> valid_utf8(self.payload@.subrange(0, text_len(self.payload@))),
            r matches Some(s) ==> s@ == decode_utf8(
                self.payload@.subrange(0, text_len(self.payload@)),
            ),
    {
        let len: usize = self.payload.len();
        let mut end: usize = 0;
        while end < len
            invariant
                end <= len,
                len == self.payload@.len(),
                nul_from(self.payload@, 0) == nul_from(self.payload@, end as int),
            ensures
                end == text_len(self.payload@),
            decreases len - end,
        {
            if self.payload[end] == 0 {
                break;
            }
            end = end + 1;
        }
        str_from_utf8(&self.payload[0..end])
    }
}

/// 6D body in QTM's global frame. `pos` and `rot` hold the bit patterns of the
/// transmitted `f32` values.
#[derive(Debug, Clone, Copy, PartialEq, Eq)]
pub struct Body {
    /// Position (millimetres)
    pub pos: [u32; 3],
    /// Rotation matrix, column-major
    pub rot: [u32; 9],
    /// QTM sends NaN for bodies it can't currently track
    pub valid: bool,
}

pub struct BodyView {
    pub pos: Seq<u32>,
    pub rot: Seq<u32>,
    pub valid: bool,
}

impl View for Body {
    type V = BodyView;

    open spec fn view(&self) -> BodyView {
        BodyView { pos: self.pos@, rot: self.rot@, valid: self.valid }
    }
}

/// An `f32` bit pattern is finite (neither infinite nor NaN) exactly when its
/// exponent field is not all ones.
pub open spec fn finite_bits(b: u32) -> bool {
    (b / 0x80_0000) % 256 != 255
}

pub fn is_finite_bits(b: u32) -> (r: bool)
    ensures
        r == finite_bits(b),
{
    (b / 0x80_0000) % 256 != 255
}

/// The twelve `f32` values of a 6D body record starting at `b`.
pub open spec fn body_values(d: Seq<u8>, b: int) -> Seq<u32> {
    Seq::new(12, |m: int| le32(d, b + 4 * m) as u32)
}

pub open spec fn body_record(d: Seq<u8>, b: int) -> BodyView {
    let vals = body_values(d, b);
    BodyView {
        pos: vals.subrange(0, 3),
        rot: vals.subrange(3, 12),
        valid: forall|m: int| 0 <= m < 12 ==> finite_bits(#[trigger] vals[m]),
    }
}

/// Body `index` of the 6D component that starts at `start` and spans `size` bytes.
pub open spec fn six_d_body(d: Seq<u8>, start: int, size: int, index: int) -> Option<BodyView> {
    let o = start + 8;
    if o + 8 > d.len() || index >= le32(d, o) {
        None
    } else {
        let b = o + 8 + 48 * index;
        if b + 48 > d.len() || b + 48 > start + size {
            None
        } else {
            Some(body_record(d, b))
        }
    }
}

/// Walks `k` components from `off`, skipping those that are not 6D (id 5).
pub open spec fn six_d_components(d: Seq<u8>, off: int, k: nat, index: int) -> Option<BodyView>
    decreases k,
{
    if k == 0 || off + 8 > d.len() {
        None
    } else {
        let size = le32(d, off);
        if size < 8 {
            None
        } else if le32(d, off + 4) != 5 {
            if off + size <= d.len() {
                six_d_components(d, off + size, (k - 1) as nat, index)
            } else {
                None
            }
        } else {
            six_d_body(d, off, size, index)
        }
    }
}

/// A Data payload: timestamp (8 B), frame number, component count, then components.
pub open spec fn six_d(d: Seq<u8>, index: int) -> Option<BodyView> {
    if d.len() < 16 {
        None
    } else {
        six_d_components(d, 16, le32(d, 12) as nat, index)
    }
}

/// A Command packet carrying `cmd`: size, type 1, the text, a NUL.
pub open spec fn command_packet(cmd: Seq<u8>) -> Seq<u8> {
    le32_bytes(((cmd.len() + 9) as usize as u32) as int) + le32_bytes(1) + cmd + seq![0u8]
}

/// Encode `cmd` as a NUL-terminated Command packet; `None` if `out` is too small
pub fn encode_command(cmd: &str, out: &mut [u8]) -> (r: Option<usize>)
    requires
        cmd.spec_bytes().len() + 9 <= usize::MAX,
    ensures
        cmd.spec_bytes().len() + 9 > old(out)@.len() ==> r is None && final(out)@ == old(out)@,
        cmd.spec_bytes().len() + 9 <= old(out)@.len() ==> {
            &&& r == Some((cmd.spec_bytes().len() + 9) as usize)
            &&& final(out)@ == command_packet(cmd.spec_bytes()) + old(out)@.subrange(
                cmd.spec_bytes().len() + 9int,
                old(out)@.len() as int,
            )
        },
{
    let bytes: &[u8] = cmd.as_bytes();
    let len: usize = HEADER_LEN + bytes.len() + 1;
    if len > out.len() {
        return None;
    }
    let ghost before = out@;
    write_u32_le(out, 0, len as u32);
    write_u32_le(out, 4, 1);
    let n: usize = bytes.len();
    assert(out@.subrange(0, 8) =~= le32_bytes((len as u32) as int) + le32_bytes(1));
    let mut i: usize = 0;
    while i < n
        invariant
            n == bytes@.len(),
            len == n + 9,
            len <= out@.len(),
            out@.len() == before.len(),
            i <= n,
            forall|k: int|
                0 <= k < 8 ==> out@[k] == (le32_bytes((len as u32) as int) + le32_bytes(1))[k],
            forall|k: int| 0 <= k < i ==> out@[8 + k] == bytes@[k],
            forall|k: int| len <= k < out@.len() ==> out@[k] == before[k],
        decreases n - i,
    {
        out[HEADER_LEN + i] = bytes[i];
        i = i + 1;
    }
    out[len - 1] = 0;
    assert(out@ =~= command_packet(bytes@) + before.subrange(len as int, before.len() as int));
    Some(len)
}

proof fn lemma_text_ends_at_nul(cmd: Seq<u8>, i: int)
    requires
        0 <= i <= cmd.len(),
        forall|j: int| 0 <= j < cmd.len() ==> cmd[j] != 0,
    ensures
        nul_from(cmd + seq![0u8], i) == Some(cmd.len() as int),
    decreases cmd.len() - i,
{
    let p = cmd + seq![0u8];
    if i < cmd.len() {
        assert(p[i] == cmd[i]);
        lemma_text_ends_at_nul(cmd, i + 1);
    } else {
        assert(p[i] == 0);
    }
}

/// A command encoded as a Command packet reads back as itself: the header
/// gives the packet's full length and the Command type, the payload is the
/// command and its NUL, and the text of that payload is the command, provided
/// the command holds no NUL of its own.
pub proof fn lemma_command_roundtrip(cmd: Seq<u8>)
    requires
        cmd.len() + 9 <= u32::MAX,
        forall|j: int| 0 <= j < cmd.len() ==> cmd[j] != 0,
    ensures
        header_size(command_packet(cmd)) == Some(cmd.len() + 9int),
        packet_type_of(le32(command_packet(cmd), 4) as u32) == PacketType::Command,
        command_packet(cmd).subrange(HEADER_LEN as int, cmd.len() + 9int) == cmd + seq![0u8],
        text_len(cmd + seq![0u8]) == cmd.len(),
{
    let n: int = cmd.len() + 9int;
    let p = command_packet(cmd);
    assert(((n as usize) as u32) as int == n);
    assert(p.len() == n);
    assert(p.subrange(0, 4) =~= le32_bytes(n));
    assert(p.subrange(4, 8) =~= le32_bytes(1));
    lemma_le32_roundtrip(n, p, 0);
    lemma_le32_roundtrip(1, p, 4);
    assert(p.subrange(HEADER_LEN as int, n) =~= cmd + seq![0u8]);
    lemma_text_ends_at_nul(cmd, 0);
}

/// Total size of the packet starting at `data`, once its header is available
pub open spec fn header_size(d: Seq<u8>) -> Option<int> {
    if d.len() >= 4 && le32(d, 0) >= HEADER_LEN {
        Some(le32(d, 0))
    } else {
        None
    }
}

pub fn packet_len(data: &[u8]) -> (r: Option<usize>)
    ensures
        r is Some <==> header_size(data@) is Some,
        r matches Some(n) ==> n == header_size(data@)->0,
{
    if data.len() < 4 {
        return None;
    }
    let len: usize = read_u32_le(data, 0) as usize;
    if len >= HEADER_LEN {
        Some(len)
    } else {
        None
    }
}

/// Split one complete packet off the front of `data`
pub fn parse_packet(data: &[u8]) -> (r: Option<Packet<'_>>)
    ensures
        r is Some <==> (header_size(data@) matches Some(n) && n <= data@.len()),
        r matches Some(p) ==> {
            &&& p.kind == packet_type_of(le32(data@, 4) as u32)
            &&& p.payload@ == data@.subrange(HEADER_LEN as int, header_size(data@)->0)
        },
{
    let len: usize = packet_len(data)?;
    if len > data.len() {
        return None;
    }
    let kind: u32 = read_u32_le(data, 4);
    Some(Packet { kind: PacketType::from(kind), payload: &data[HEADER_LEN..len] })
}

impl<'a> ByteReader<'a> {
    /// The 6D body `index` of the component that began at `start` and spans
    /// `size` bytes; the reader stands just after that component's header.
    fn six_d_body(&mut self, start: usize, size: usize, index: usize) -> (r: Option<Body>)
        requires
            old(self).wf(),
            old(self).off == start + 8,
        ensures
            r is Some <==> six_d_body(old(self).data@, start as int, size as int, index as int)
                is Some,
            r matches Some(b) ==> b@ == six_d_body(
                old(self).data@,
                start as int,
                size as int,
                index as int,
            )->0,
    {
        let ghost d = self.data@;
        let len: usize = self.data.len();
        let n_bodies: usize = self.u32()? as usize;
        self.u16()?;  // 2D drop rate
        self.u16()?;  // 2D out-of-sync rate
        if index >= n_bodies {
            return None;
        }
        let skip: usize = index.checked_mul(12 * 4)?;
        self.skip(skip)?;
        let ghost b = self.off as int;
        let mut vals = [0u32; 12];
        let mut k: usize = 0;
        while k < 12
            invariant
                self.wf(),
                self.data@ == d,
                len == d.len(),
                k <= 12,
                self.off == b + 4 * k,
                old(self).data@ == d,
                six_d_body(d, start as int, size as int, index as int) == if b + 48 > d.len() || b
                    + 48 > start + size {
                    None
                } else {
                    Some(body_record(d, b))
                },
                forall|m: int| 0 <= m < k ==> vals@[m] == le32(d, b + 4 * m) as u32,
            decreases 12 - k,
        {
            let v: u32 = self.f32_bits()?;
            vals[k] = v;
            k = k + 1;
        }
        if self.off - start > size {
            return None;
        }
        let mut valid: bool = true;
        let mut m: usize = 0;
        while m < 12
            invariant
                m <= 12,
                valid == (forall|j: int| 0 <= j < m ==> finite_bits(#[trigger] vals@[j])),
            decreases 12 - m,
        {
            valid = valid && is_finite_bits(vals[m]);
            m = m + 1;
        }
        let body = Body {
            pos: [vals[0], vals[1], vals[2]],
            rot: [vals[3], vals[4], vals[5], vals[6], vals[7], vals[8], vals[9], vals[10], vals[11]],
            valid,
        };
        assert(vals@ =~= body_values(d, b));
        assert(body@.pos =~= body_values(d, b).subrange(0, 3));
        assert(body@.rot =~= body_values(d, b).subrange(3, 12));
        Some(body)
    }
}

proof fn lemma_components_step(d: Seq<u8>, off: int, k: nat, index: int)
    requires
        k >= 1,
        off + 8 <= d.len(),
        le32(d, off) >= 8,
        le32(d, off + 4) != COMPONENT_6D,
    ensures
        six_d_components(d, off, k, index) == if off + le32(d, off) <= d.len() {
            six_d_components(d, off + le32(d, off), (k - 1) as nat, index)
        } else {
            None
        },
{
}

/// Parse a Data packet payload, returning the 6D body at `index` (0-based), or
/// `None` if it's malformed, has no 6D component, or has fewer bodies
pub fn parse_6d(payload: &[u8], index: usize) -> (r: Option<Body>)
    ensures
        r is Some <==> six_d(payload@, index as int) is Some,
        r matches Some(b) ==> b@ == six_d(payload@, index as int)->0,
{
    let ghost d = payload@;
    let mut rd = ByteReader::new(payload);
    let len: usize = payload.len();
    rd.skip(8)?;  // timestamp
    rd.u32()?;  // frame number
    let n_components: u32 = rd.u32()?;

    let mut c: u32 = 0;
    while c < n_components
        invariant
            rd.wf(),
            rd.data@ == d,
            payload@ == d,
            len == d.len(),
            c <= n_components,
            six_d(d, index as int) == six_d_components(
                d,
                rd.off as int,
                (n_components - c) as nat,
                index as int,
            ),
        decreases n_components - c,
    {
        let start: usize = rd.off;
        let size: usize = rd.u32()? as usize;
        let kind: u32 = rd.u32()?;
        if size < HEADER_LEN {
            return None;
        }
        if kind != COMPONENT_6D {
            proof {
                lemma_components_step(d, start as int, (n_components - c) as nat, index as int);
            }
            rd.skip(size - HEADER_LEN)?;
            c = c + 1;
            continue;
        }
        return rd.six_d_body(start, size, index);
    }
    None
}

} // verus!
