//! Little-endian integer fields inside byte buffers.

use vstd::prelude::*;

verus! {

/// Unsigned value of the two little-endian bytes at `o`.
pub open spec fn le16(d: Seq<u8>, o: int) -> int {
    d[o] + d[o + 1] * 256
}

/// Unsigned value of the four little-endian bytes at `o`.
pub open spec fn le32(d: Seq<u8>, o: int) -> int {
    le16(d, o) + le16(d, o + 2) * 65536
}

/// Offset of the first NUL at or after `i`, if any.
pub open spec fn nul_from(d: Seq<u8>, i: int) -> Option<int>
    decreases d.len() - i,
{
    if i < 0 || i >= d.len() {
        None
    } else if d[i] == 0 {
        Some(i)
    } else {
        nul_from(d, i + 1)
    }
}

/// Offset of the first byte equal to `b` at or after `i`, if any.
pub open spec fn byte_from(d: Seq<u8>, b: u8, i: int) -> Option<int>
    decreases d.len() - i,
{
    if i < 0 || i >= d.len() {
        None
    } else if d[i] == b {
        Some(i)
    } else {
        byte_from(d, b, i + 1)
    }
}

/// Where `byte_from` finds a byte, it lies in the buffer at or after `i`.
pub proof fn lemma_byte_from_bounds(d: Seq<u8>, b: u8, i: int)
    ensures
        byte_from(d, b, i) matches Some(j) ==> i <= j < d.len() && d[j] == b,
    decreases d.len() - i,
{
    if 0 <= i < d.len() && d[i] != b {
        lemma_byte_from_bounds(d, b, i + 1);
    }
}

/// Position of the first byte equal to `b` in `d[from..to]`, or `to`.
pub fn find_byte(d: &[u8], b: u8, from: usize, to: usize) -> (r: usize)
    requires
        from <= to <= d@.len(),
    ensures
        from <= r <= to,
        r < to ==> byte_from(d@.subrange(from as int, to as int), b, 0) == Some(r - from),
        r == to ==> byte_from(d@.subrange(from as int, to as int), b, 0) is None,
{
    let ghost t = d@.subrange(from as int, to as int);
    let mut i: usize = from;
    while i < to
        invariant
            from <= i <= to,
            to <= d@.len(),
            t == d@.subrange(from as int, to as int),
            byte_from(t, b, 0) == byte_from(t, b, i - from),
        decreases to - i,
    {
        if d[i] == b {
            return i;
        }
        i = i + 1;
    }
    i
}

/// Two's-complement reading of a 32-bit pattern.
pub open spec fn signed32(u: int) -> int {
    if u >= 0x8000_0000 {
        u - 0x1_0000_0000
    } else {
        u
    }
}

/// The two little-endian bytes of `v`.
pub open spec fn le16_bytes(v: int) -> Seq<u8> {
    seq![(v % 256) as u8, (v / 256 % 256) as u8]
}

/// The four little-endian bytes of `v`.
pub open spec fn le32_bytes(v: int) -> Seq<u8> {
    seq![
        (v % 256) as u8,
        (v / 256 % 256) as u8,
        (v / 65536 % 256) as u8,
        (v / 16777216 % 256) as u8,
    ]
}

/// Bit pattern of a two's-complement 32-bit value.
pub open spec fn unsigned32(v: int) -> int {
    if v < 0 {
        v + 0x1_0000_0000
    } else {
        v
    }
}

pub fn read_u16_le(d: &[u8], o: usize) -> (r: u16)
    requires
        o + 2 <= d@.len(),
    ensures
        r == le16(d@, o as int),
{
    let b0: u16 = d[o] as u16;
    let b1: u16 = d[o + 1] as u16;
    b0 + b1 * 256
}

pub fn read_u32_le(d: &[u8], o: usize) -> (r: u32)
    requires
        o + 4 <= d@.len(),
    ensures
        r == le32(d@, o as int),
{
    let len: usize = d.len();
    assert(o + 4 <= len);
    let lo: u32 = read_u16_le(d, o) as u32;
    let hi: u32 = read_u16_le(d, o + 2) as u32;
    lo + hi * 65536
}

pub fn read_i32_le(d: &[u8], o: usize) -> (r: i32)
    requires
        o + 4 <= d@.len(),
    ensures
        r == signed32(le32(d@, o as int)),
{
    let u: u32 = read_u32_le(d, o);
    if u < 0x8000_0000 {
        u as i32
    } else {
        let lowered: u32 = u - 0x8000_0000;
        (lowered as i32) - 0x4000_0000 - 0x4000_0000
    }
}

/// Writes `v` little-endian at `o`.
pub fn write_u16_le(out: &mut [u8], o: usize, v: u16)
    requires
        o + 2 <= old(out)@.len(),
    ensures
        final(out)@.len() == old(out)@.len(),
        final(out)@ == old(out)@.subrange(0, o as int) + le16_bytes(v as int) + old(out)@.subrange(
            o + 2,
            old(out)@.len() as int,
        ),
{
    out[o] = (v % 256) as u8;
    out[o + 1] = (v / 256) as u8;
    assert(final(out)@ =~= old(out)@.subrange(0, o as int) + le16_bytes(v as int) + old(out)@.subrange(
        o + 2,
        old(out)@.len() as int,
    ));
}

/// Writes `v` little-endian at `o`.
pub fn write_u32_le(out: &mut [u8], o: usize, v: u32)
    requires
        o + 4 <= old(out)@.len(),
    ensures
        final(out)@.len() == old(out)@.len(),
        final(out)@ == old(out)@.subrange(0, o as int) + le32_bytes(v as int) + old(out)@.subrange(
            o + 4,
            old(out)@.len() as int,
        ),
{
    out[o] = (v % 256) as u8;
    out[o + 1] = (v / 256 % 256) as u8;
    out[o + 2] = (v / 65536 % 256) as u8;
    out[o + 3] = (v / 16777216) as u8;
    assert(final(out)@ =~= old(out)@.subrange(0, o as int) + le32_bytes(v as int) + old(out)@.subrange(
        o + 4,
        old(out)@.len() as int,
    ));
}

/// Decoding the little-endian bytes of a 16-bit value gives the value back.
pub proof fn lemma_le16_roundtrip(v: int, d: Seq<u8>, o: int)
    requires
        0 <= v < 0x1_0000,
        0 <= o,
        o + 2 <= d.len(),
        d.subrange(o, o + 2) == le16_bytes(v),
    ensures
        le16(d, o) == v,
{
    assert(d[o] == d.subrange(o, o + 2)[0]);
    assert(d[o + 1] == d.subrange(o, o + 2)[1]);
}

/// Decoding the little-endian bytes of a 32-bit value gives the value back.
pub proof fn lemma_le32_roundtrip(v: int, d: Seq<u8>, o: int)
    requires
        0 <= v < 0x1_0000_0000,
        0 <= o,
        o + 4 <= d.len(),
        d.subrange(o, o + 4) == le32_bytes(v),
    ensures
        le32(d, o) == v,
{
    let s = d.subrange(o, o + 4);
    assert(d[o] == s[0]);
    assert(d[o + 1] == s[1]);
    assert(d[o + 2] == s[2]);
    assert(d[o + 3] == s[3]);
}

/// A cursor over a byte buffer; every read checks that the bytes are there.
pub(crate) struct ByteReader<'a> {
    pub(crate) data: &'a [u8],
    pub(crate) off: usize,
}

impl<'a> ByteReader<'a> {
    pub(crate) open spec fn wf(&self) -> bool {
        self.off <= self.data@.len()
    }

    pub(crate) fn new(data: &'a [u8]) -> (r: Self)
        ensures
            r.data@ == data@,
            r.off == 0,
    {
        Self { data, off: 0 }
    }

    pub(crate) fn take(&mut self, n: usize) -> (r: Option<&'a [u8]>)
        requires
            old(self).wf(),
        ensures
            final(self).wf(),
            final(self).data@ == old(self).data@,
            old(self).off + n <= old(self).data@.len() ==> {
                &&& r matches Some(s)
                &&& s@ == old(self).data@.subrange(old(self).off as int, old(self).off + n)
                &&& final(self).off == old(self).off + n
            },
            old(self).off + n > old(self).data@.len() ==> r is None && final(self).off == old(
                self,
            ).off,
    {
        let len: usize = self.data.len();
        let end: usize = match self.off.checked_add(n) {
            Some(e) => e,
            None => return None,
        };
        if end <= self.data.len() {
            let s = &self.data[self.off..end];
            self.off = end;
            Some(s)
        } else {
            None
        }
    }

    pub(crate) fn skip(&mut self, n: usize) -> (r: Option<()>)
        requires
            old(self).wf(),
        ensures
            final(self).wf(),
            final(self).data@ == old(self).data@,
            r is Some <==> old(self).off + n <= old(self).data@.len(),
            r is Some ==> final(self).off == old(self).off + n,
    {
        match self.take(n) {
            Some(_) => Some(()),
            None => None,
        }
    }

    pub(crate) fn u16(&mut self) -> (r: Option<u16>)
        requires
            old(self).wf(),
        ensures
            final(self).wf(),
            final(self).data@ == old(self).data@,
            r is Some <==> old(self).off + 2 <= old(self).data@.len(),
            r matches Some(v) ==> v == le16(old(self).data@, old(self).off as int)
                && final(self).off == old(self).off + 2,
    {
        match self.take(2) {
            Some(b) => Some(read_u16_le(b, 0)),
            None => None,
        }
    }

    pub(crate) fn u32(&mut self) -> (r: Option<u32>)
        requires
            old(self).wf(),
        ensures
            final(self).wf(),
            final(self).data@ == old(self).data@,
            r is Some <==> old(self).off + 4 <= old(self).data@.len(),
            r matches Some(v) ==> v == le32(old(self).data@, old(self).off as int)
                && final(self).off == old(self).off + 4,
    {
        match self.take(4) {
            Some(b) => Some(read_u32_le(b, 0)),
            None => None,
        }
    }

    pub(crate) fn i32(&mut self) -> (r: Option<i32>)
        requires
            old(self).wf(),
        ensures
            final(self).wf(),
            final(self).data@ == old(self).data@,
            r is Some <==> old(self).off + 4 <= old(self).data@.len(),
            r matches Some(v) ==> v == signed32(le32(old(self).data@, old(self).off as int))
                && final(self).off == old(self).off + 4,
    {
        match self.take(4) {
            Some(b) => Some(read_i32_le(b, 0)),
            None => None,
        }
    }

    /// The bit pattern of a little-endian `f32`.
    pub(crate) fn f32_bits(&mut self) -> (r: Option<u32>)
        requires
            old(self).wf(),
        ensures
            final(self).wf(),
            final(self).data@ == old(self).data@,
            r is Some <==> old(self).off + 4 <= old(self).data@.len(),
            r matches Some(v) ==> v == le32(old(self).data@, old(self).off as int)
                && final(self).off == old(self).off + 4,
    {
        self.u32()
    }

}

} // verus!
