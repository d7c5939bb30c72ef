use vstd::prelude::*;

use crate::error::ErrorKind;
use crate::reader::{block_at, block_end, le32, le64, lossy_utf8, opt_bytes, ByteReader};

verus! {

/// A sound resource decoded from an executable.
pub struct GMSound {
    pub name: String,
    pub version: u32,
    /// Legacy kind code (normal, background music, 3D, multimedia player).
    pub kind: u32,
    /// File type (extension).
    pub file_type: String,
    pub file_name: String,
    /// The raw audio file, absent for a sound created without one.
    pub file_data: Option<Vec<u8>>,
    /// Bits of the IEEE 754 double holding the volume.
    pub volume: u64,
    /// Bits of the IEEE 754 double holding the stereo pan.
    pub pan: u64,
    pub preload: bool,
}

/// Offset just past the file-name field of a present sound slot at `p`.
pub open spec fn sound_file_name_end(b: Seq<u8>, p: int) -> int {
    let e1 = block_end(b, p + 4);
    block_end(b, block_end(b, e1 + 8))
}

/// Offset just past the optional payload of a present sound slot at `p`.
pub open spec fn sound_payload_end(b: Seq<u8>, p: int) -> int {
    let e3 = sound_file_name_end(b, p);
    if le32(b, e3) != 0 {
        block_end(b, e3 + 4)
    } else {
        e3 + 4
    }
}

/// Offset just past a present sound slot at `p`.
pub open spec fn sound_end(b: Seq<u8>, p: int) -> int {
    sound_payload_end(b, p) + 24
}

/// `s` holds the fields of the present sound slot at `p`.
pub open spec fn sound_at(s: GMSound, b: Seq<u8>, p: int) -> bool {
    let e1 = block_end(b, p + 4);
    let e2 = block_end(b, e1 + 8);
    let e3 = sound_file_name_end(b, p);
    let e4 = sound_payload_end(b, p);
    &&& s.name@ == lossy_utf8(block_at(b, p + 4))
    &&& s.version == le32(b, e1)
    &&& s.kind == le32(b, e1 + 4)
    &&& s.file_type@ == lossy_utf8(block_at(b, e1 + 8))
    &&& s.file_name@ == lossy_utf8(block_at(b, e2))
    &&& opt_bytes(s.file_data) == if le32(b, e3) != 0 {
        Some(block_at(b, e3 + 4))
    } else {
        None::<Seq<u8>>
    }
    &&& s.volume == le64(b, e4 + 4)
    &&& s.pan == le64(b, e4 + 12)
    &&& s.preload == (le32(b, e4 + 20) != 0)
}

/// What decoding the sound slot at `p` of `b` gives, and where the cursor
/// is left (`end`) when it succeeds.
pub open spec fn sound_outcome(
    r: Result<Option<GMSound>, ErrorKind>,
    b: Seq<u8>,
    p: int,
    end: int,
) -> bool {
    if p + 4 > b.len() {
        r == Err::<Option<GMSound>, ErrorKind>(ErrorKind::TruncatedInput)
    } else if le32(b, p) == 0 {
        r is Ok && r->Ok_0 is None && end == p + 4
    } else if sound_end(b, p) > b.len() {
        r == Err::<Option<GMSound>, ErrorKind>(ErrorKind::TruncatedInput)
    } else {
        &&& r is Ok
        &&& r->Ok_0 is Some
        &&& sound_at(r->Ok_0->Some_0, b, p)
        &&& end == sound_end(b, p)
    }
}

impl GMSound {
    /// Decodes one sound slot at the reader's cursor: `None` for an empty slot.
    pub fn from_raw(data: &mut ByteReader) -> (r: Result<Option<GMSound>, ErrorKind>)
        requires
            old(data).wf(),
        ensures
            final(data).wf(),
            final(data).data@ == old(data).data@,
            sound_outcome(r, old(data).data@, old(data).pos as int, final(data).pos as int),
    {
        if data.read_u32_le()? == 0 {
            return Ok(None);
        }
        let name = data.read_string()?;
        let version = data.read_u32_le()?;
        let kind = data.read_u32_le()?;
        let file_type = data.read_string()?;
        let file_name = data.read_string()?;
        let file_data = if data.read_u32_le()? != 0 {
            Some(data.read_block()?)
        } else {
            None
        };
        let _reserved = data.read_u32_le()?;
        let volume = data.read_u64_le()?;
        let pan = data.read_u64_le()?;
        let preload = data.read_u32_le()? != 0;
        Ok(
            Some(
                GMSound { name, version, kind, file_type, file_name, file_data, volume, pan, preload },
            ),
        )
    }
}

/// Whether index `k` lies in a complete 4-byte pixel of a buffer of length `n`.
pub open spec fn in_whole_pixel(k: int, n: int) -> bool {
    k - k % 4 + 4 <= n
}

/// The buffer with the first and third byte of every complete 4-byte pixel
/// exchanged (BGRA to RGBA, and back).
pub open spec fn swap_red_blue(s: Seq<u8>) -> Seq<u8> {
    Seq::new(
        s.len(),
        |k: int|
            if in_whole_pixel(k, s.len() as int) && k % 4 == 0 {
                s[k + 2]
            } else if in_whole_pixel(k, s.len() as int) && k % 4 == 2 {
                s[k - 2]
            } else {
                s[k]
            },
    )
}

/// Converts packed BGRA pixels to RGBA in place.
pub fn bgra_to_rgba(pixels: &mut Vec<u8>)
    ensures
        final(pixels)@ == swap_red_blue(old(pixels)@),
{
    let ghost orig = pixels@;
    let n = pixels.len();
    let mut i: usize = 0;
    while i < n && n - i >= 4
        invariant
            n == pixels.len(),
            n == orig.len(),
            i <= n,
            i % 4 == 0,
            forall|k: int|
                0 <= k < n ==> #[trigger] pixels@[k] == if k < i {
                    swap_red_blue(orig)[k]
                } else {
                    orig[k]
                },
        decreases n - i,
    {
        let blue = pixels[i];
        let red = pixels[i + 2];
        pixels.set(i, red);
        pixels.set(i + 2, blue);
        i = i + 4;
    }
    assert(pixels@ =~= swap_red_blue(orig));
}

/// Exchanging red and blue twice gives the pixels back.
pub proof fn lemma_swap_red_blue_twice(s: Seq<u8>)
    ensures
        swap_red_blue(swap_red_blue(s)) == s,
{
    assert(swap_red_blue(swap_red_blue(s)) =~= s);
}

} // verus!
