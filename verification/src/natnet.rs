//! NatNet frame-of-data parser.
//!
//! Floating-point fields are carried as their IEEE-754 bit patterns (`u32`),
//! exactly as they stand in the datagram.

use vstd::prelude::*;

use crate::wire::{le16, le32, nul_from, signed32, ByteReader};

verus! {

/// NatNet message id for a frame of mocap data
pub const NAT_FRAMEOFDATA: u16 = 7;

#[derive(Debug, Clone, Copy, PartialEq, Eq)]
pub struct Version {
    pub major: u8,
    pub minor: u8,
}

impl Version {
    pub fn new(major: u8, minor: u8) -> (r: Self)
        ensures
            r.major == major,
            r.minor == minor,
    {
        Self { major, minor }
    }

    /// Pre-3.0 embeds each rigid body's marker data inline
    pub open spec fn embeds_rb_markers(self) -> bool {
        self.major < 3
    }

    /// 2.0+ appends the mean marker error
    pub open spec fn carries_mean_error(self) -> bool {
        self.major >= 2
    }

    /// 2.6+ appends the params bitfield (bit 0 = tracking valid)
    pub open spec fn carries_params(self) -> bool {
        self.major > 2 || (self.major == 2 && self.minor >= 6)
    }

    fn has_embedded_rb_markers(self) -> (r: bool)
        ensures
            r == self.embeds_rb_markers(),
    {
        self.major < 3
    }

    fn has_mean_error(self) -> (r: bool)
        ensures
            r == self.carries_mean_error(),
    {
        self.major >= 2
    }

    fn has_params(self) -> (r: bool)
        ensures
            r == self.carries_params(),
    {
        self.major > 2 || (self.major == 2 && self.minor >= 6)
    }
}

/// A rigid body of a frame. `pos` and `quat` hold the bit patterns of the
/// transmitted `f32` values (`quat` in x, y, z, w order).
#[derive(Debug, Clone, Copy, PartialEq, Eq)]
pub struct RigidBody {
    pub id: i32,
    pub pos: [u32; 3],
    pub quat: [u32; 4],
    pub valid: bool,
}

/// What a rigid body record holds.
pub struct RigidBodyView {
    pub id: i32,
    pub pos: Seq<u32>,
    pub quat: Seq<u32>,
    pub valid: bool,
}

impl View for RigidBody {
    type V = RigidBodyView;

    open spec fn view(&self) -> RigidBodyView {
        RigidBodyView { id: self.id, pos: self.pos@, quat: self.quat@, valid: self.valid }
    }
}

/// A non-negative 32-bit count at `o`.
pub open spec fn count_at(d: Seq<u8>, o: int) -> Option<int> {
    if 0 <= o && o + 4 <= d.len() && signed32(le32(d, o)) >= 0 {
        Some(signed32(le32(d, o)))
    } else {
        None
    }
}

/// Offset after `k` marker sets (NUL-terminated name, count, xyz floats) starting at `off`.
pub open spec fn after_marker_sets(d: Seq<u8>, off: int, k: nat) -> Option<int>
    decreases k,
{
    if k == 0 {
        Some(off)
    } else {
        match nul_from(d, off) {
            None => None,
            Some(z) => match count_at(d, z + 1) {
                None => None,
                Some(n) => if z + 5 + 12 * n <= d.len() {
                    after_marker_sets(d, z + 5 + 12 * n, (k - 1) as nat)
                } else {
                    None
                },
            },
        }
    }
}

/// Offset after the per-body marker block that pre-3.0 versions embed.
pub open spec fn after_rb_markers(d: Seq<u8>, o: int, v: Version) -> Option<int> {
    if !v.embeds_rb_markers() {
        Some(o)
    } else {
        match count_at(d, o) {
            None => None,
            Some(n) => {
                let end = if v.major >= 2 {
                    o + 4 + 20 * n
                } else {
                    o + 4 + 12 * n
                };
                if end <= d.len() {
                    Some(end)
                } else {
                    None
                }
            },
        }
    }
}

/// The rigid body record at `off` and the offset after it.
pub open spec fn body_at(d: Seq<u8>, off: int, v: Version) -> Option<(RigidBodyView, int)> {
    if off < 0 || off + 32 > d.len() {
        None
    } else {
        match after_rb_markers(d, off + 32, v) {
            None => None,
            Some(o1) => {
                let o2 = if v.carries_mean_error() {
                    o1 + 4
                } else {
                    o1
                };
                let o3 = if v.carries_params() {
                    o2 + 2
                } else {
                    o2
                };
                if o3 > d.len() {
                    None
                } else {
                    let b = RigidBodyView {
                        id: signed32(le32(d, off)) as i32,
                        pos: seq![
                            le32(d, off + 4) as u32,
                            le32(d, off + 8) as u32,
                            le32(d, off + 12) as u32,
                        ],
                        quat: seq![
                            le32(d, off + 16) as u32,
                            le32(d, off + 20) as u32,
                            le32(d, off + 24) as u32,
                            le32(d, off + 28) as u32,
                        ],
                        valid: if v.carries_params() {
                            le16(d, o2) % 2 == 1
                        } else {
                            true
                        },
                    };
                    Some((b, o3))
                }
            },
        }
    }
}

/// Reads `k` rigid bodies from `off`; the last one whose id is `target` wins.
pub open spec fn scan_bodies(
    d: Seq<u8>,
    off: int,
    k: nat,
    v: Version,
    target: i32,
    found: Option<RigidBodyView>,
) -> Option<Option<RigidBodyView>>
    decreases k,
{
    if k == 0 {
        Some(found)
    } else {
        match body_at(d, off, v) {
            None => None,
            Some((b, o)) => scan_bodies(
                d,
                o,
                (k - 1) as nat,
                v,
                target,
                if b.id == target {
                    Some(b)
                } else {
                    found
                },
            ),
        }
    }
}

/// Everything after the marker sets: other markers, then the rigid bodies.
pub open spec fn frame_rest(d: Seq<u8>, o1: Option<int>, v: Version, target: i32) -> Option<
    RigidBodyView,
> {
    match o1 {
        None => None,
        Some(o1) => match count_at(d, o1) {
            None => None,
            Some(n_other) => if o1 + 4 + 12 * n_other > d.len() {
                None
            } else {
                match count_at(d, o1 + 4 + 12 * n_other) {
                    None => None,
                    Some(n_rigid) => match scan_bodies(
                        d,
                        o1 + 8 + 12 * n_other,
                        n_rigid as nat,
                        v,
                        target,
                        None,
                    ) {
                        None => None,
                        Some(found) => found,
                    },
                }
            },
        },
    }
}

/// A NatNet frame of data: header (message id 7, byte count, frame number),
/// marker sets, other markers, then rigid bodies; the result is the rigid body
/// with id `target`, or `None` when the frame is malformed or lacks it.
pub open spec fn frame_body(d: Seq<u8>, v: Version, target: i32) -> Option<RigidBodyView> {
    if d.len() < 2 || le16(d, 0) != NAT_FRAMEOFDATA || d.len() < 8 {
        None
    } else {
        match count_at(d, 8) {
            None => None,
            Some(n_sets) => frame_rest(d, after_marker_sets(d, 12, n_sets as nat), v, target),
        }
    }
}

proof fn lemma_marker_sets_step(d: Seq<u8>, off: int, k: nat)
    requires
        k >= 1,
    ensures
        after_marker_sets(d, off, k) == match after_marker_sets(d, off, 1) {
            None => None,
            Some(o) => after_marker_sets(d, o, (k - 1) as nat),
        },
{
    reveal_with_fuel(after_marker_sets, 2);
}

proof fn lemma_scan_step(
    d: Seq<u8>,
    off: int,
    k: nat,
    v: Version,
    target: i32,
    found: Option<RigidBodyView>,
)
    requires
        k >= 1,
    ensures
        scan_bodies(d, off, k, v, target, found) == match body_at(d, off, v) {
            None => None,
            Some((b, o)) => scan_bodies(
                d,
                o,
                (k - 1) as nat,
                v,
                target,
                if b.id == target {
                    Some(b)
                } else {
                    found
                },
            ),
        },
{
}

impl<'a> ByteReader<'a> {
    fn count(&mut self) -> (r: Option<usize>)
        requires
            old(self).wf(),
        ensures
            final(self).wf(),
            final(self).data@ == old(self).data@,
            r is Some <==> count_at(old(self).data@, old(self).off as int) is Some,
            r matches Some(n) ==> n == count_at(old(self).data@, old(self).off as int)->0
                && final(self).off == old(self).off + 4,
    {
        let v: i32 = self.i32()?;
        if v >= 0 {
            Some(v as usize)
        } else {
            None
        }
    }

    fn skip_string(&mut self) -> (r: Option<()>)
        requires
            old(self).wf(),
        ensures
            final(self).wf(),
            final(self).data@ == old(self).data@,
            r is Some <==> nul_from(old(self).data@, old(self).off as int) is Some,
            r is Some ==> final(self).off == nul_from(old(self).data@, old(self).off as int)->0
                + 1,
    {
        let len: usize = self.data.len();
        let mut i: usize = self.off;
        while i < len
            invariant
                self.wf(),
                len == self.data@.len(),
                old(self).off <= i <= len,
                self.data@ == old(self).data@,
                self.off == old(self).off,
                nul_from(self.data@, old(self).off as int) == nul_from(self.data@, i as int),
            decreases len - i,
        {
            if self.data[i] == 0 {
                self.off = i + 1;
                return Some(());
            }
            i = i + 1;
        }
        None
    }
}


impl<'a> ByteReader<'a> {
    /// One marker set: NUL-terminated name, count, xyz floats.
    fn skip_marker_set(&mut self) -> (r: Option<()>)
        requires
            old(self).wf(),
        ensures
            final(self).wf(),
            final(self).data@ == old(self).data@,
            r is Some <==> after_marker_sets(old(self).data@, old(self).off as int, 1) is Some,
            r is Some ==> after_marker_sets(old(self).data@, old(self).off as int, 1) == Some(
                final(self).off as int,
            ),
    {
        let ghost d = self.data@;
        let ghost off = self.off as int;
        let len: usize = self.data.len();
        assert(after_marker_sets(d, off, 1) == match nul_from(d, off) {
            None => None,
            Some(z) => match count_at(d, z + 1) {
                None => None,
                Some(n) => if z + 5 + 12 * n <= d.len() {
                    after_marker_sets(d, z + 5 + 12 * n, 0)
                } else {
                    None
                },
            },
        });
        self.skip_string()?;
        let n_markers: usize = self.count()?;
        let bytes: usize = n_markers.checked_mul(3 * 4)?;
        self.skip(bytes)
    }

    /// One rigid body record of a frame.
    fn rigid_body(&mut self, version: Version) -> (r: Option<RigidBody>)
        requires
            old(self).wf(),
        ensures
            final(self).wf(),
            final(self).data@ == old(self).data@,
            r is Some <==> body_at(old(self).data@, old(self).off as int, version) is Some,
            r matches Some(b) ==> body_at(old(self).data@, old(self).off as int, version) == Some(
                (b@, final(self).off as int),
            ),
    {
        let ghost d = self.data@;
        let ghost start = self.off as int;
        let len: usize = self.data.len();
        let id: i32 = self.i32()?;
        let p0: u32 = self.f32_bits()?;
        let p1: u32 = self.f32_bits()?;
        let p2: u32 = self.f32_bits()?;
        let q0: u32 = self.f32_bits()?;
        let q1: u32 = self.f32_bits()?;
        let q2: u32 = self.f32_bits()?;
        let q3: u32 = self.f32_bits()?;
        let pos = [p0, p1, p2];
        let quat = [q0, q1, q2, q3];

        if version.has_embedded_rb_markers() {
            // pre-3.0: associated markers embedded here
            let n_rb_markers: usize = self.count()?;
            let pos_bytes: usize = n_rb_markers.checked_mul(3 * 4)?;
            self.skip(pos_bytes)?;  // positions
            if version.major >= 2 {
                let id_bytes: usize = n_rb_markers.checked_mul(4)?;
                self.skip(id_bytes)?;  // ids
                self.skip(id_bytes)?;  // sizes
            }
        }
        if version.has_mean_error() {
            self.f32_bits()?;  // mean marker error
        }
        let valid: bool = if version.has_params() {
            let params: u16 = self.u16()?;
            params % 2 == 1
        } else {
            true
        };
        let body = RigidBody { id, pos, quat, valid };
        assert(body@.pos =~= seq![
            le32(d, start + 4) as u32,
            le32(d, start + 8) as u32,
            le32(d, start + 12) as u32,
        ]);
        assert(body@.quat =~= seq![
            le32(d, start + 16) as u32,
            le32(d, start + 20) as u32,
            le32(d, start + 24) as u32,
            le32(d, start + 28) as u32,
        ]);
        Some(body)
    }
}

proof fn lemma_scan_keeps_target(
    d: Seq<u8>,
    off: int,
    k: nat,
    v: Version,
    target: i32,
    found: Option<RigidBodyView>,
)
    requires
        found matches Some(f) ==> f.id == target,
    ensures
        scan_bodies(d, off, k, v, target, found) matches Some(Some(b)) ==> b.id == target,
    decreases k,
{
    if k > 0 {
        match body_at(d, off, v) {
            None => {},
            Some((b, o)) => {
                lemma_scan_keeps_target(
                    d,
                    o,
                    (k - 1) as nat,
                    v,
                    target,
                    if b.id == target {
                        Some(b)
                    } else {
                        found
                    },
                );
            },
        }
    }
}

/// Whatever frame comes in, a rigid body taken from it is the one that was
/// asked for: its id is the target id.
pub proof fn lemma_frame_body_has_target(d: Seq<u8>, v: Version, target: i32)
    ensures
        frame_body(d, v, target) matches Some(b) ==> b.id == target,
{
    if d.len() >= 8 && le16(d, 0) == NAT_FRAMEOFDATA {
        if let Some(n_sets) = count_at(d, 8) {
            if let Some(o1) = after_marker_sets(d, 12, n_sets as nat) {
                if let Some(n_other) = count_at(d, o1) {
                    if let Some(n_rigid) = count_at(d, o1 + 4 + 12 * n_other) {
                        lemma_scan_keeps_target(
                            d,
                            o1 + 8 + 12 * n_other,
                            n_rigid as nat,
                            v,
                            target,
                            None,
                        );
                    }
                }
            }
        }
    }
}

/// Parse a NatNet datagram, returning the rigid body with id `target_id`, or
/// `None` if it's not a well-formed frame-of-data containing it
pub fn parse_frame(data: &[u8], version: Version, target_id: i32) -> (r: Option<RigidBody>)
    ensures
        r is Some <==> frame_body(data@, version, target_id) is Some,
        r matches Some(b) ==> b@ == frame_body(data@, version, target_id)->0,
{
    let ghost d = data@;
    let mut rd = ByteReader::new(data);
    let len: usize = data.len();

    // header: messageID + byte count
    let msg: u16 = rd.u16()?;
    if msg != NAT_FRAMEOFDATA {
        return None;
    }
    rd.u16()?;  // nDataBytes
    rd.i32()?;  // frame number

    // marker sets: name + count + xyz floats
    let n_marker_sets: usize = rd.count()?;
    let mut i: usize = 0;
    while i < n_marker_sets
        invariant
            rd.wf(),
            rd.data@ == d,
            data@ == d,
            len == d.len(),
            i <= n_marker_sets,
            frame_body(d, version, target_id) == frame_rest(
                d,
                after_marker_sets(d, rd.off as int, (n_marker_sets - i) as nat),
                version,
                target_id,
            ),
        decreases n_marker_sets - i,
    {
        proof {
            lemma_marker_sets_step(d, rd.off as int, (n_marker_sets - i) as nat);
        }
        rd.skip_marker_set()?;
        i = i + 1;
    }

    // legacy "other" markers
    let n_other: usize = rd.count()?;
    let other_bytes: usize = n_other.checked_mul(3 * 4)?;
    rd.skip(other_bytes)?;

    // rigid bodies
    let n_rigid: usize = rd.count()?;
    let mut found: Option<RigidBody> = None;
    let mut j: usize = 0;
    while j < n_rigid
        invariant
            rd.wf(),
            rd.data@ == d,
            data@ == d,
            len == d.len(),
            j <= n_rigid,
            frame_body(d, version, target_id) == match scan_bodies(
                d,
                rd.off as int,
                (n_rigid - j) as nat,
                version,
                target_id,
                match found {
                    Some(b) => Some(b@),
                    None => None,
                },
            ) {
                None => None,
                Some(f) => f,
            },
        decreases n_rigid - j,
    {
        proof {
            lemma_scan_step(
                d,
                rd.off as int,
                (n_rigid - j) as nat,
                version,
                target_id,
                match found {
                    Some(b) => Some(b@),
                    None => None,
                },
            );
        }
        let body = rd.rigid_body(version)?;
        if body.id == target_id {
            found = Some(body);
        }
        j = j + 1;
    }
    found
}

} // verus!
