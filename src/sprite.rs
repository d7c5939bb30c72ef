use vstd::prelude::*;

use crate::assets::{bgra_to_rgba, swap_red_blue};
use crate::error::ErrorKind;
use crate::reader::{block_at, block_end, le32, lossy_utf8, ByteReader};

verus! {

/// Pixel extents of a collision map.
pub struct BoundingBox {
    pub width: u32,
    pub height: u32,
    pub left: u32,
    pub right: u32,
    pub bottom: u32,
    pub top: u32,
}

/// A per-pixel occupancy mask (one byte, 0 or 1, per pixel) with its extents.
pub struct CollisionMap {
    pub version: u32,
    pub bounds: BoundingBox,
    pub data: Vec<u8>,
}

/// A sprite resource decoded from an executable.
pub struct GMSprite {
    pub name: String,
    pub version: u32,
    pub origin_x: u32,
    pub origin_y: u32,
    pub frame_count: u32,
    /// Size shared by every frame (0 by 0 without frames).
    pub width: u32,
    pub height: u32,
    /// RGBA pixels of each frame, `width * height * 4` bytes each.
    pub frames: Vec<Vec<u8>>,
    /// One map per frame, or one shared map; none without frames.
    pub colliders: Vec<CollisionMap>,
    pub per_frame_colliders: bool,
}

impl GMSprite {
    /// Every frame is `width` by `height` RGBA pixels, and there is one
    /// collision map per frame or one shared map (none without frames).
    pub open spec fn wf(&self) -> bool {
        &&& self.frames.len() == self.frame_count
        &&& forall|k: int|
            0 <= k < self.frames.len() ==> (#[trigger] self.frames@[k]).len() == self.width as int
                * self.height as int * 4
        &&& self.colliders.len() == if self.frame_count == 0 {
            0
        } else if self.per_frame_colliders {
            self.frame_count as int
        } else {
            1
        }
        &&& self.frame_count == 0 ==> !self.per_frame_colliders
    }
}

/// Why reading a sprite's frames stopped.
pub enum FrameFault {
    Truncated,
    Dimensions,
    PixelLength,
}

/// Offset just past a collision map at `c`.
pub open spec fn map_end(b: Seq<u8>, c: int) -> int {
    c + 28 + 4 * (le32(b, c + 4) as int * le32(b, c + 8) as int)
}

/// Offset of the `k`-th of the collision maps stored one after another from `c`.
pub open spec fn map_offset(b: Seq<u8>, c: int, k: nat) -> int
    decreases k,
{
    if k == 0 {
        c
    } else {
        map_end(b, map_offset(b, c, (k - 1) as nat))
    }
}

/// `m` holds the collision map at `c`.
pub open spec fn map_at(m: CollisionMap, b: Seq<u8>, c: int) -> bool {
    &&& m.version == le32(b, c)
    &&& m.bounds.width == le32(b, c + 4)
    &&& m.bounds.height == le32(b, c + 8)
    &&& m.bounds.left == le32(b, c + 12)
    &&& m.bounds.right == le32(b, c + 16)
    &&& m.bounds.bottom == le32(b, c + 20)
    &&& m.bounds.top == le32(b, c + 24)
    &&& m.data.len() == le32(b, c + 4) as int * le32(b, c + 8) as int
    &&& forall|k: int|
        0 <= k < m.data.len() ==> #[trigger] m.data@[k] == if le32(b, c + 28 + 4 * k) != 0 {
            1u8
        } else {
            0u8
        }
}

/// Outcome of reading `n` frames from `q` that must each be `w` by `h`
/// pixels: the offset past them, or the first fault met.
pub open spec fn frames_outcome(b: Seq<u8>, q: int, n: nat, w: u32, h: u32) -> Result<
    int,
    FrameFault,
>
    decreases n,
{
    let size = w as int * h as int * 4;
    if n == 0 {
        Ok(q)
    } else if q + 12 > b.len() {
        Err(FrameFault::Truncated)
    } else if le32(b, q + 4) != w || le32(b, q + 8) != h {
        Err(FrameFault::Dimensions)
    } else if q + 16 > b.len() {
        Err(FrameFault::Truncated)
    } else if le32(b, q + 12) as int != size {
        Err(FrameFault::PixelLength)
    } else if q + 16 + size > b.len() {
        Err(FrameFault::Truncated)
    } else {
        frames_outcome(b, q + 16 + size, (n - 1) as nat, w, h)
    }
}

proof fn lemma_map_offset_grows(b: Seq<u8>, c: int, j: nat, k: nat)
    requires
        j <= k,
    ensures
        map_offset(b, c, j) <= map_offset(b, c, k),
    decreases k,
{
    if j < k {
        lemma_map_offset_grows(b, c, j, (k - 1) as nat);
    }
}

proof fn lemma_product_fits(w: u32, h: u32)
    ensures
        0 <= w as int * h as int <= 0xffff_fffe_0000_0001,
{
    assert(0 <= w as int * h as int <= 0xffff_ffff * 0xffff_ffff) by (nonlinear_arith)
        requires
            w <= 0xffff_ffff,
            h <= 0xffff_ffff,
    ;
}

impl CollisionMap {
    /// Reads one collision map at the reader's cursor.
    pub fn read(data: &mut ByteReader) -> (r: Result<CollisionMap, ErrorKind>)
        requires
            old(data).wf(),
        ensures
            final(data).wf(),
            final(data).data@ == old(data).data@,
            ({
                let b = old(data).data@;
                let c = old(data).pos as int;
                if map_end(b, c) > b.len() {
                    r == Err::<CollisionMap, ErrorKind>(ErrorKind::TruncatedInput)
                } else {
                    r is Ok && map_at(r->Ok_0, b, c) && final(data).pos == map_end(b, c)
                }
            }),
    {
        let ghost b = data.data@;
        let ghost c = data.pos as int;
        let version = data.read_u32_le()?;
        let width = data.read_u32_le()?;
        let height = data.read_u32_le()?;
        let left = data.read_u32_le()?;
        let right = data.read_u32_le()?;
        let bottom = data.read_u32_le()?;
        let top = data.read_u32_le()?;
        proof {
            lemma_product_fits(width, height);
        }
        let n: u64 = width as u64 * height as u64;
        let mut mask: Vec<u8> = Vec::new();
        let mut i: u64 = 0;
        while i < n
            invariant
                data.wf(),
                data.data@ == b,
                b == old(data).data@,
                c == old(data).pos as int,
                n == le32(b, c + 4) as int * le32(b, c + 8) as int,
                i <= n,
                data.pos == c + 28 + 4 * i,
                mask.len() == i,
                forall|k: int|
                    0 <= k < i ==> #[trigger] mask@[k] == if le32(b, c + 28 + 4 * k) != 0 {
                        1u8
                    } else {
                        0u8
                    },
            decreases n - i,
        {
            let v = data.read_u32_le()?;
            mask.push(if v != 0 { 1u8 } else { 0u8 });
            i = i + 1;
        }
        Ok(
            CollisionMap {
                version,
                bounds: BoundingBox { width, height, left, right, bottom, top },
                data: mask,
            },
        )
    }
}

/// Bytes taken by one frame of `w` by `h` pixels: its header and its pixels.
pub open spec fn frame_stride(w: u32, h: u32) -> int {
    16 + w as int * h as int * 4
}

/// The RGBA pixels of frame `k` of a sprite whose frames start at `q0`.
pub open spec fn frame_pixels(b: Seq<u8>, q0: int, k: int, w: u32, h: u32) -> Seq<u8> {
    let start = q0 + k * frame_stride(w, h) + 16;
    swap_red_blue(b.subrange(start, start + w as int * h as int * 4))
}

/// `s` holds the name, version, origin and frame count of the sprite slot at `p`.
pub open spec fn sprite_head_at(s: GMSprite, b: Seq<u8>, p: int) -> bool {
    let e1 = block_end(b, p + 4);
    &&& s.name@ == lossy_utf8(block_at(b, p + 4))
    &&& s.version == le32(b, e1)
    &&& s.origin_x == le32(b, e1 + 4)
    &&& s.origin_y == le32(b, e1 + 8)
    &&& s.frame_count == le32(b, e1 + 12)
}

/// What decoding the sprite slot at `p` of `b` gives, and where the cursor
/// is left (`end`) when it succeeds.
pub open spec fn sprite_outcome(
    r: Result<Option<GMSprite>, ErrorKind>,
    b: Seq<u8>,
    p: int,
    end: int,
) -> bool {
    let e1 = block_end(b, p + 4);
    let q0 = e1 + 16;
    let n = le32(b, e1 + 12);
    let w = le32(b, q0 + 4);
    let h = le32(b, q0 + 8);
    let name = lossy_utf8(block_at(b, p + 4));
    if p + 4 > b.len() {
        r == Err::<Option<GMSprite>, ErrorKind>(ErrorKind::TruncatedInput)
    } else if le32(b, p) == 0 {
        r is Ok && r->Ok_0 is None && end == p + 4
    } else if q0 > b.len() {
        r == Err::<Option<GMSprite>, ErrorKind>(ErrorKind::TruncatedInput)
    } else if n == 0 {
        &&& r is Ok
        &&& r->Ok_0 is Some
        &&& sprite_head_at(r->Ok_0->Some_0, b, p)
        &&& r->Ok_0->Some_0.width == 0 && r->Ok_0->Some_0.height == 0
        &&& r->Ok_0->Some_0.frames.len() == 0
        &&& r->Ok_0->Some_0.colliders.len() == 0
        &&& !r->Ok_0->Some_0.per_frame_colliders
        &&& end == q0
    } else {
        match frames_outcome(b, q0, n as nat, w, h) {
            Err(FrameFault::Truncated) => r == Err::<Option<GMSprite>, ErrorKind>(
                ErrorKind::TruncatedInput,
            ),
            Err(FrameFault::Dimensions) => r is Err && r->Err_0 is InconsistentFrameDimensions
                && r->Err_0->InconsistentFrameDimensions_0@ == name,
            Err(FrameFault::PixelLength) => r is Err && r->Err_0 is InconsistentPixelDataLength
                && r->Err_0->InconsistentPixelDataLength_0@ == name,
            Ok(f) => {
                let per = le32(b, f) != 0;
                let count: nat = if per {
                    n as nat
                } else {
                    1
                };
                if f + 4 > b.len() || map_offset(b, f + 4, count) > b.len() {
                    r == Err::<Option<GMSprite>, ErrorKind>(ErrorKind::TruncatedInput)
                } else {
                    let s = r->Ok_0->Some_0;
                    &&& r is Ok
                    &&& r->Ok_0 is Some
                    &&& sprite_head_at(s, b, p)
                    &&& s.width == w && s.height == h
                    &&& s.frames.len() == n
                    &&& forall|k: int|
                        0 <= k < n ==> (#[trigger] s.frames@[k])@ == frame_pixels(b, q0, k, w, h)
                    &&& s.per_frame_colliders == per
                    &&& s.colliders.len() == count
                    &&& forall|j: int|
                        0 <= j < count ==> map_at(
                            #[trigger] s.colliders@[j],
                            b,
                            map_offset(b, f + 4, j as nat),
                        )
                    &&& end == map_offset(b, f + 4, count)
                }
            },
        }
    }
}

/// A sprite slot that fails to decode fails with one error wherever the
/// cursor is, and has no successful decoding.
pub proof fn lemma_sprite_error_outcome(e: ErrorKind, b: Seq<u8>, end: int)
    requires
        sprite_outcome(Err(e), b, 0, end),
    ensures
        sprite_outcome(Err(e), b, 0, 0),
        forall|s: Option<GMSprite>, x: int| !sprite_outcome(Ok(s), b, 0, x),
{
}

impl GMSprite {
    /// Decodes one sprite slot at the reader's cursor: `None` for an empty slot.
    pub fn from_raw(data: &mut ByteReader) -> (r: Result<Option<GMSprite>, ErrorKind>)
        requires
            old(data).wf(),
        ensures
            final(data).wf(),
            final(data).data@ == old(data).data@,
            sprite_outcome(r, old(data).data@, old(data).pos as int, final(data).pos as int),
            r is Ok && r->Ok_0 is Some ==> r->Ok_0->Some_0.wf(),
    {
        let ghost b = data.data@;
        let ghost p = data.pos as int;
        if data.read_u32_le()? == 0 {
            return Ok(None);
        }
        let name = data.read_string()?;
        let version = data.read_u32_le()?;
        let origin_x = data.read_u32_le()?;
        let origin_y = data.read_u32_le()?;
        let frame_count = data.read_u32_le()?;
        if frame_count == 0 {
            return Ok(
                Some(
                    GMSprite {
                        name,
                        version,
                        origin_x,
                        origin_y,
                        frame_count,
                        width: 0,
                        height: 0,
                        frames: Vec::new(),
                        colliders: Vec::new(),
                        per_frame_colliders: false,
                    },
                ),
            );
        }
        let ghost q0 = data.pos as int;
        let ghost w = le32(b, q0 + 4);
        let ghost h = le32(b, q0 + 8);
        let ghost stride = frame_stride(w, h);
        let mut width: u32 = 0;
        let mut height: u32 = 0;
        let mut frames: Vec<Vec<u8>> = Vec::new();
        let mut k: u32 = 0;
        while k < frame_count
            invariant
                data.wf(),
                data.data@ == b,
                b == old(data).data@,
                p == old(data).pos as int,
                q0 == block_end(b, p + 4) + 16,
                frame_count == le32(b, q0 - 4),
                w == le32(b, q0 + 4),
                h == le32(b, q0 + 8),
                stride == frame_stride(w, h),
                name@ == lossy_utf8(block_at(b, p + 4)),
                p + 4 <= b.len(),
                le32(b, p) != 0,
                q0 <= b.len(),
                frame_count != 0,
                k <= frame_count,
                frames.len() == k,
                k > 0 ==> width == w && height == h,
                data.pos == q0 + k * stride,
                frames_outcome(b, q0, frame_count as nat, w, h) == frames_outcome(
                    b,
                    data.pos as int,
                    (frame_count - k) as nat,
                    w,
                    h,
                ),
                forall|j: int| 0 <= j < k ==> (#[trigger] frames@[j])@ == frame_pixels(b, q0, j, w, h),
                forall|j: int| 0 <= j < k ==> (#[trigger] frames@[j]).len() == w as int * h as int * 4,
            decreases frame_count - k,
        {
            let ghost q = data.pos as int;
            let _frame_version = data.read_u32_le()?;
            let frame_width = data.read_u32_le()?;
            let frame_height = data.read_u32_le()?;
            if k == 0 {
                width = frame_width;
                height = frame_height;
            } else if frame_width != width || frame_height != height {
                return Err(ErrorKind::InconsistentFrameDimensions(name.clone()));
            }
            let declared = data.read_u32_le()?;
            proof {
                lemma_product_fits(width, height);
            }
            let pixels: u64 = width as u64 * height as u64;
            if pixels > 0x4000_0000 || declared as u64 != pixels * 4 {
                return Err(ErrorKind::InconsistentPixelDataLength(name.clone()));
            }
            let mut buf = data.read_bytes(pixels * 4)?;
            bgra_to_rgba(&mut buf);
            frames.push(buf);
            proof {
                assert(q0 + (k + 1) * stride == q0 + k * stride + stride) by (nonlinear_arith);
                assert(frames@[k as int]@ == frame_pixels(b, q0, k as int, w, h));
            }
            k = k + 1;
        }
        let per_frame_colliders = data.read_u32_le()? != 0;
        let count: u32 = if per_frame_colliders {
            frame_count
        } else {
            1
        };
        let ghost c0 = data.pos as int;
        let mut colliders: Vec<CollisionMap> = Vec::new();
        let mut j: u32 = 0;
        while j < count
            invariant
                data.wf(),
                data.data@ == b,
                b == old(data).data@,
                p == old(data).pos as int,
                p + 4 <= b.len(),
                le32(b, p) != 0,
                q0 == block_end(b, p + 4) + 16,
                q0 <= b.len(),
                frame_count == le32(b, q0 - 4),
                frame_count != 0,
                w == le32(b, q0 + 4),
                h == le32(b, q0 + 8),
                frames_outcome(b, q0, frame_count as nat, w, h) == Ok::<int, FrameFault>(c0 - 4),
                c0 - 4 + 4 <= b.len(),
                per_frame_colliders == (le32(b, c0 - 4) != 0),
                count == if per_frame_colliders { frame_count } else { 1 },
                j <= count,
                colliders.len() == j,
                frames.len() == frame_count,
                forall|i: int| 0 <= i < frame_count ==> (#[trigger] frames@[i]).len() == w as int * h as int * 4,
                width == w && height == h,
                data.pos == map_offset(b, c0, j as nat),
                forall|i: int|
                    0 <= i < j ==> map_at(#[trigger] colliders@[i], b, map_offset(b, c0, i as nat)),
            decreases count - j,
        {
            proof {
                lemma_map_offset_grows(b, c0, (j + 1) as nat, count as nat);
            }
            let m = CollisionMap::read(data)?;
            colliders.push(m);
            j = j + 1;
        }
        Ok(
            Some(
                GMSprite {
                    name,
                    version,
                    origin_x,
                    origin_y,
                    frame_count,
                    width,
                    height,
                    frames,
                    colliders,
                    per_frame_colliders,
                },
            ),
        )
    }
}

} // verus!
