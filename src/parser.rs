use vstd::prelude::*;

use crate::assets::{sound_end, sound_outcome, GMSound};
use crate::decrypt::{decrypt_region, decrypted};
use crate::error::{Error, ErrorKind};
use crate::reader::{block_at, block_end, le32, zlib_inflate, ByteReader};
use crate::sprite::{lemma_sprite_error_outcome, sprite_outcome, GMSprite};

verus! {

/// Offset of the format marker of the supported version.
pub const GM80_MAGIC_POS: usize = 2000000;

/// The format marker of the supported version.
pub const GM80_MAGIC: u32 = 1234321;

/// The assets extracted from an executable, slot by slot: an empty slot is `None`.
pub struct Game {
    pub sounds: Vec<Option<GMSound>>,
    pub sprites: Vec<Option<GMSprite>>,
}

/// How to treat an extensions, triggers or constants section that holds
/// records: those records are not decoded, and their length is not known.
pub enum SectionPolicy {
    /// Fail with `UnsupportedSection`, since what follows cannot be located.
    Reject,
    /// Read on right after the section's count, as if it held no records.
    AssumeEmpty,
}

/// The buffer starts with the executable signature `MZ`.
pub open spec fn has_exe_header(b: Seq<u8>) -> bool {
    b.len() >= 2 && b[0] == 0x4d && b[1] == 0x5a
}

/// Offset of the `i`-th of the length-prefixed chunks stored one after another from `q`.
pub open spec fn slot_offset(b: Seq<u8>, q: int, i: nat) -> int
    decreases i,
{
    if i == 0 {
        q
    } else {
        block_end(b, slot_offset(b, q, (i - 1) as nat))
    }
}

/// `s` was decoded from the `i`-th chunk stored from `q`.
pub open spec fn sound_slot_at(s: Option<GMSound>, b: Seq<u8>, q: int, i: int) -> bool {
    &&& slot_offset(b, q, (i + 1) as nat) <= b.len()
    &&& match zlib_inflate(block_at(b, slot_offset(b, q, i as nat))) {
        Some(d) => exists|e: int| sound_outcome(Ok(s), d, 0, e),
        None => false,
    }
}

/// `v` holds the sound slots decoded from the chunks stored from `q`.
pub open spec fn sound_slots(v: Seq<Option<GMSound>>, b: Seq<u8>, q: int) -> bool {
    forall|i: int| 0 <= i < v.len() ==> sound_slot_at(#[trigger] v[i], b, q, i)
}

/// `s` was decoded from the `i`-th chunk stored from `q`.
pub open spec fn sprite_slot_at(s: Option<GMSprite>, b: Seq<u8>, q: int, i: int) -> bool {
    &&& slot_offset(b, q, (i + 1) as nat) <= b.len()
    &&& match zlib_inflate(block_at(b, slot_offset(b, q, i as nat))) {
        Some(d) => exists|e: int| sprite_outcome(Ok(s), d, 0, e),
        None => false,
    }
}

/// `v` holds the sprite slots decoded from the chunks stored from `q`.
pub open spec fn sprite_slots(v: Seq<Option<GMSprite>>, b: Seq<u8>, q: int) -> bool {
    forall|i: int| 0 <= i < v.len() ==> sprite_slot_at(#[trigger] v[i], b, q, i)
}

/// The `i`-th chunk from `q` can be read and inflates to `Some` data,
/// `None` otherwise.
pub open spec fn slot_data(b: Seq<u8>, q: int, i: nat) -> Option<Seq<u8>> {
    let off = slot_offset(b, q, i);
    if off + 4 > b.len() || block_end(b, off) > b.len() {
        None
    } else {
        zlib_inflate(block_at(b, off))
    }
}

/// The error met while reading or inflating the `i`-th chunk from `q`.
pub open spec fn slot_read_error(b: Seq<u8>, q: int, i: nat) -> ErrorKind {
    let off = slot_offset(b, q, i);
    if off + 4 > b.len() || block_end(b, off) > b.len() {
        ErrorKind::TruncatedInput
    } else {
        ErrorKind::InflateError
    }
}

/// The sound record `d` decodes without error.
pub open spec fn sound_decodes(d: Seq<u8>) -> bool {
    d.len() >= 4 && (le32(d, 0) == 0 || sound_end(d, 0) <= d.len())
}

/// Reading sound slots `i` to `n` from `q` fails with `e`, or succeeds where `e` is `None`.
pub open spec fn sound_slots_fail(e: Option<ErrorKind>, b: Seq<u8>, q: int, i: nat, n: nat) -> bool
    decreases n - i,
{
    if i >= n {
        e is None
    } else {
        match slot_data(b, q, i) {
            None => e == Some(slot_read_error(b, q, i)),
            Some(d) => if sound_decodes(d) {
                sound_slots_fail(e, b, q, (i + 1) as nat, n)
            } else {
                e == Some(ErrorKind::TruncatedInput)
            },
        }
    }
}

/// Reading sprite slots `i` to `n` from `q` fails with `e`, or succeeds where `e` is `None`.
pub open spec fn sprite_slots_fail(e: Option<ErrorKind>, b: Seq<u8>, q: int, i: nat, n: nat) -> bool
    decreases n - i,
{
    if i >= n {
        e is None
    } else {
        match slot_data(b, q, i) {
            None => e == Some(slot_read_error(b, q, i)),
            Some(d) => if exists|s: Option<GMSprite>, end: int|
                sprite_outcome(Ok(s), d, 0, end) {
                sprite_slots_fail(e, b, q, (i + 1) as nat, n)
            } else {
                e is Some && sprite_outcome(Err(e->Some_0), d, 0, 0)
            },
        }
    }
}

pub open spec fn err_of<T>(r: Result<T, ErrorKind>) -> Option<ErrorKind> {
    match r {
        Ok(_) => None,
        Err(e) => Some(e),
    }
}

proof fn lemma_sound_slots_fail_unique(
    e1: Option<ErrorKind>,
    e2: Option<ErrorKind>,
    b: Seq<u8>,
    q: int,
    i: nat,
    n: nat,
)
    requires
        sound_slots_fail(e1, b, q, i, n),
        sound_slots_fail(e2, b, q, i, n),
    ensures
        e1 == e2,
    decreases n - i,
{
    if i < n {
        if let Some(d) = slot_data(b, q, i) {
            if sound_decodes(d) {
                lemma_sound_slots_fail_unique(e1, e2, b, q, (i + 1) as nat, n);
            }
        }
    }
}

/// Reads a sound section (version, count, then one compressed chunk per slot).
pub fn read_sounds(data: &mut ByteReader) -> (r: Result<Vec<Option<GMSound>>, ErrorKind>)
    requires
        old(data).wf(),
    ensures
        final(data).wf(),
        final(data).data@ == old(data).data@,
        old(data).pos + 8 > old(data).data.len() ==> r == Err::<
            Vec<Option<GMSound>>,
            ErrorKind,
        >(ErrorKind::TruncatedInput),
        old(data).pos + 8 <= old(data).data.len() ==> sound_slots_fail(
            err_of(r),
            old(data).data@,
            old(data).pos + 8,
            0,
            le32(old(data).data@, old(data).pos + 4) as nat,
        ),
        r is Ok ==> {
            let b = old(data).data@;
            let p = old(data).pos as int;
            &&& p + 8 <= b.len()
            &&& r->Ok_0.len() == le32(b, p + 4)
            &&& sound_slots(r->Ok_0@, b, p + 8)
            &&& final(data).pos == slot_offset(b, p + 8, le32(b, p + 4) as nat)
        },
{
    let ghost b = data.data@;
    let _version = data.read_u32_le()?;
    let count = data.read_u32_le()?;
    let ghost q = data.pos as int;
    let mut sounds: Vec<Option<GMSound>> = Vec::new();
    let mut i: u32 = 0;
    while i < count
        invariant
            data.wf(),
            data.data@ == b,
            b == old(data).data@,
            q == old(data).pos + 8,
            q <= b.len(),
            count == le32(b, old(data).pos + 4),
            i <= count,
            sounds.len() == i,
            data.pos == slot_offset(b, q, i as nat),
            sound_slots(sounds@, b, q),
            forall|e: Option<ErrorKind>|
                #[trigger] sound_slots_fail(e, b, q, 0, count as nat) == sound_slots_fail(
                    e,
                    b,
                    q,
                    i as nat,
                    count as nat,
                ),
        decreases count - i,
    {
        let ghost off = data.pos as int;
        let len = data.read_u32_le()?;
        let chunk = data.extract_chunk(len as u64)?;
        let ghost d = chunk@;
        assert(block_at(b, off) == b.subrange(off + 4, off + 4 + len));
        assert(slot_data(b, q, i as nat) == Some(d));
        let mut slot = ByteReader::new(chunk);
        let sound = GMSound::from_raw(&mut slot)?;
        assert(sound_decodes(d));
        assert forall|e: Option<ErrorKind>|
            #[trigger] sound_slots_fail(e, b, q, 0, count as nat) == sound_slots_fail(
                e,
                b,
                q,
                (i + 1) as nat,
                count as nat,
            ) by {
            assert(sound_slots_fail(e, b, q, 0, count as nat) == sound_slots_fail(
                e,
                b,
                q,
                i as nat,
                count as nat,
            ));
        }
        proof {
            assert(sound_outcome(Ok(sound), d, 0, slot.pos as int));
        }
        let ghost prev = sounds@;
        sounds.push(sound);
        proof {
            assert(slot_offset(b, q, (i + 1) as nat) == data.pos);
            assert(block_at(b, slot_offset(b, q, i as nat)) == b.subrange(
                slot_offset(b, q, i as nat) + 4,
                data.pos as int,
            ));
            assert(sound_slot_at(sounds@[i as int], b, q, i as int));
            assert forall|k: int| 0 <= k < sounds.len() implies sound_slot_at(
                #[trigger] sounds@[k],
                b,
                q,
                k,
            ) by {
                if k < i {
                    assert(sounds@[k] == prev[k]);
                }
            }
        }
        i = i + 1;
    }
    Ok(sounds)
}

/// Reads a sprite section (version, count, then one compressed chunk per slot).
pub fn read_sprites(data: &mut ByteReader) -> (r: Result<Vec<Option<GMSprite>>, ErrorKind>)
    requires
        old(data).wf(),
    ensures
        final(data).wf(),
        final(data).data@ == old(data).data@,
        old(data).pos + 8 > old(data).data.len() ==> r == Err::<
            Vec<Option<GMSprite>>,
            ErrorKind,
        >(ErrorKind::TruncatedInput),
        old(data).pos + 8 <= old(data).data.len() ==> sprite_slots_fail(
            err_of(r),
            old(data).data@,
            old(data).pos + 8,
            0,
            le32(old(data).data@, old(data).pos + 4) as nat,
        ),
        r is Ok ==> {
            let b = old(data).data@;
            let p = old(data).pos as int;
            &&& p + 8 <= b.len()
            &&& r->Ok_0.len() == le32(b, p + 4)
            &&& sprite_slots(r->Ok_0@, b, p + 8)
            &&& final(data).pos == slot_offset(b, p + 8, le32(b, p + 4) as nat)
        },
{
    let ghost b = data.data@;
    let _version = data.read_u32_le()?;
    let count = data.read_u32_le()?;
    let ghost q = data.pos as int;
    let mut sprites: Vec<Option<GMSprite>> = Vec::new();
    let mut i: u32 = 0;
    while i < count
        invariant
            data.wf(),
            data.data@ == b,
            b == old(data).data@,
            q == old(data).pos + 8,
            q <= b.len(),
            count == le32(b, old(data).pos + 4),
            i <= count,
            sprites.len() == i,
            data.pos == slot_offset(b, q, i as nat),
            sprite_slots(sprites@, b, q),
            forall|e: Option<ErrorKind>|
                #[trigger] sprite_slots_fail(e, b, q, 0, count as nat) == sprite_slots_fail(
                    e,
                    b,
                    q,
                    i as nat,
                    count as nat,
                ),
        decreases count - i,
    {
        let ghost off = data.pos as int;
        let len = data.read_u32_le()?;
        let chunk = data.extract_chunk(len as u64)?;
        let ghost d = chunk@;
        assert(block_at(b, off) == b.subrange(off + 4, off + 4 + len));
        assert(slot_data(b, q, i as nat) == Some(d));
        let mut slot = ByteReader::new(chunk);
        let sprite = match GMSprite::from_raw(&mut slot) {
            Ok(v) => v,
            Err(e) => {
                proof {
                    lemma_sprite_error_outcome(e, d, slot.pos as int);
                }
                return Err(e);
            },
        };
        assert(sprite_outcome(Ok(sprite), d, 0, slot.pos as int));
        assert forall|e: Option<ErrorKind>|
            #[trigger] sprite_slots_fail(e, b, q, 0, count as nat) == sprite_slots_fail(
                e,
                b,
                q,
                (i + 1) as nat,
                count as nat,
            ) by {
            assert(sprite_slots_fail(e, b, q, 0, count as nat) == sprite_slots_fail(
                e,
                b,
                q,
                i as nat,
                count as nat,
            ));
        }
        proof {
            assert(sprite_outcome(Ok(sprite), d, 0, slot.pos as int));
        }
        let ghost prev = sprites@;
        sprites.push(sprite);
        proof {
            assert(slot_offset(b, q, (i + 1) as nat) == data.pos);
            assert(block_at(b, slot_offset(b, q, i as nat)) == b.subrange(
                slot_offset(b, q, i as nat) + 4,
                data.pos as int,
            ));
            assert(sprite_slot_at(sprites@[i as int], b, q, i as int));
            assert forall|k: int| 0 <= k < sprites.len() implies sprite_slot_at(
                #[trigger] sprites@[k],
                b,
                q,
                k,
            ) by {
                if k < i {
                    assert(sprites@[k] == prev[k]);
                }
            }
        }
        i = i + 1;
    }
    Ok(sprites)
}

/// Start of the swap table of the decryption block at `p`.
pub open spec fn swap_table_start(b: Seq<u8>, p: int) -> int {
    p + 8 + le32(b, p) as int * 4
}

/// Offset of the encrypted region's length in the decryption block at `p`.
pub open spec fn region_length_at(b: Seq<u8>, p: int) -> int {
    swap_table_start(b, p) + 256 + le32(b, p + 4) as int * 4
}

/// Reads the decryption block at the cursor (two garbage sizes, garbage, the
/// swap table, garbage, the region's length) and decrypts the region that
/// follows in place, leaving the cursor at its start.
pub fn decrypt_assets(data: &mut ByteReader) -> (r: Result<(), ErrorKind>)
    requires
        old(data).wf(),
    ensures
        final(data).wf(),
        ({
            let b = old(data).data@;
            let p = old(data).pos as int;
            let t = swap_table_start(b, p);
            let l = region_length_at(b, p);
            if p + 8 > b.len() {
                r == Err::<(), ErrorKind>(ErrorKind::TruncatedInput)
            } else if t > b.len() {
                r == Err::<(), ErrorKind>(ErrorKind::OutOfBounds)
            } else if t + 256 > b.len() {
                r == Err::<(), ErrorKind>(ErrorKind::TruncatedInput)
            } else if l > b.len() {
                r == Err::<(), ErrorKind>(ErrorKind::OutOfBounds)
            } else if l + 4 + le32(b, l) > b.len() {
                r == Err::<(), ErrorKind>(ErrorKind::TruncatedInput)
            } else {
                &&& r is Ok
                &&& final(data).pos == l + 4
                &&& final(data).data@ == decrypted(
                    b,
                    b.subrange(t, t + 256),
                    l + 4,
                    le32(b, l) as int,
                )
            }
        }),
{
    let garbage1 = data.read_u32_le()? as u64 * 4;
    let garbage2 = data.read_u32_le()? as u64 * 4;
    data.skip(garbage1)?;
    let swap = data.read_bytes(256)?;
    data.skip(garbage2)?;
    let len = data.read_u32_le()? as usize;
    let pos = data.pos;
    if len > data.data.len() - pos {
        return Err(ErrorKind::TruncatedInput);
    }
    decrypt_region(&mut data.data, &swap, pos, len);
    Ok(())
}

/// Reads the count of an extensions, triggers or constants section and
/// applies `policy` to a non-empty one.
fn skip_undecoded_section(data: &mut ByteReader, policy: &SectionPolicy) -> (r: Result<(), ErrorKind>)
    requires
        old(data).wf(),
    ensures
        final(data).wf(),
        final(data).data@ == old(data).data@,
        ({
            let b = old(data).data@;
            let p = old(data).pos as int;
            if p + 8 > b.len() {
                r == Err::<(), ErrorKind>(ErrorKind::TruncatedInput)
            } else if le32(b, p + 4) != 0 && policy is Reject {
                r == Err::<(), ErrorKind>(ErrorKind::UnsupportedSection)
            } else {
                r is Ok && final(data).pos == p + 8
            }
        }),
{
    let _version = data.read_u32_le()?;
    let count = data.read_u32_le()?;
    if count != 0 {
        match policy {
            SectionPolicy::Reject => {
                return Err(ErrorKind::UnsupportedSection);
            },
            SectionPolicy::AssumeEmpty => {},
        }
    }
    Ok(())
}

/// Offset just past the settings chunk of an executable.
pub open spec fn settings_end(b: Seq<u8>) -> int {
    block_end(b, GM80_MAGIC_POS + 16)
}

/// Offset of the decryption block, past the embedded library's name and payload.
pub open spec fn decryption_at(b: Seq<u8>) -> int {
    block_end(b, block_end(b, settings_end(b)))
}

/// Start of the encrypted region.
pub open spec fn region_start(b: Seq<u8>) -> int {
    region_length_at(b, decryption_at(b)) + 4
}

/// The executable once its asset region is decrypted.
pub open spec fn decrypted_exe(b: Seq<u8>) -> Seq<u8> {
    let p = decryption_at(b);
    let t = swap_table_start(b, p);
    let l = region_length_at(b, p);
    decrypted(b, b.subrange(t, t + 256), l + 4, le32(b, l) as int)
}

/// Offset of the extensions section, in the decrypted executable.
pub open spec fn sections_at(b: Seq<u8>) -> int {
    let r = region_start(b);
    r + 4 + (le32(decrypted_exe(b), r) as int + 6) * 4
}

/// Offset of the sound section, in the decrypted executable.
pub open spec fn sounds_at(b: Seq<u8>) -> int {
    sections_at(b) + 24
}

/// What a successful extraction of the executable `b` returns.
pub open spec fn extracted_from(g: Game, b: Seq<u8>) -> bool {
    let d = decrypted_exe(b);
    let q = sounds_at(b);
    let sp = slot_offset(d, q + 8, g.sounds.len() as nat);
    &&& zlib_inflate(b.subrange(GM80_MAGIC_POS + 20, settings_end(b))) is Some
    &&& g.sounds.len() == le32(d, q + 4)
    &&& sound_slots(g.sounds@, d, q + 8)
    &&& g.sprites.len() == le32(d, sp + 4)
    &&& sprite_slots(g.sprites@, d, sp + 8)
}

/// The extensions, triggers and constants sections of `b` are all empty.
pub open spec fn undecoded_sections_empty(b: Seq<u8>) -> bool {
    let d = decrypted_exe(b);
    let c = sections_at(b);
    le32(d, c + 4) == 0 && le32(d, c + 12) == 0 && le32(d, c + 20) == 0
}

/// The error met before the asset region is decrypted: header, marker,
/// settings, embedded library and decryption block; `None` when there is none.
pub open spec fn container_error(b: Seq<u8>) -> Option<ErrorKind> {
    let m = GM80_MAGIC_POS as int;
    let s_end = settings_end(b);
    let a2 = block_end(b, s_end);
    let p = decryption_at(b);
    let t = swap_table_start(b, p);
    let l = region_length_at(b, p);
    if !has_exe_header(b) {
        Some(ErrorKind::InvalidExeHeader)
    } else if b.len() < m + 4 {
        Some(ErrorKind::TruncatedInput)
    } else if le32(b, m) != GM80_MAGIC {
        Some(ErrorKind::InvalidMagic)
    } else if m + 16 > b.len() {
        Some(ErrorKind::OutOfBounds)
    } else if m + 20 > b.len() || s_end > b.len() {
        Some(ErrorKind::TruncatedInput)
    } else if zlib_inflate(b.subrange(m + 20, s_end)) is None {
        Some(ErrorKind::InflateError)
    } else if s_end + 4 > b.len() {
        Some(ErrorKind::TruncatedInput)
    } else if a2 > b.len() {
        Some(ErrorKind::OutOfBounds)
    } else if a2 + 4 > b.len() {
        Some(ErrorKind::TruncatedInput)
    } else if p > b.len() {
        Some(ErrorKind::OutOfBounds)
    } else if p + 8 > b.len() {
        Some(ErrorKind::TruncatedInput)
    } else if t > b.len() {
        Some(ErrorKind::OutOfBounds)
    } else if t + 256 > b.len() {
        Some(ErrorKind::TruncatedInput)
    } else if l > b.len() {
        Some(ErrorKind::OutOfBounds)
    } else if l + 4 + le32(b, l) > b.len() {
        Some(ErrorKind::TruncatedInput)
    } else {
        None
    }
}

/// Offset of the extensions section in a decrypted buffer whose region starts at `r0`.
pub open spec fn sections_from(d: Seq<u8>, r0: int) -> int {
    r0 + 4 + (le32(d, r0) as int + 6) * 4
}

/// Reading the decrypted region from `r0` (unused words, the three undecoded
/// sections, sounds, sprites) fails with `e`, or succeeds where `e` is `None`.
pub open spec fn assets_fail(e: Option<ErrorKind>, d: Seq<u8>, r0: int, reject: bool) -> bool {
    let c = sections_from(d, r0);
    let q = c + 24;
    let sp = slot_offset(d, q + 8, le32(d, q + 4) as nat);
    if r0 + 4 > d.len() {
        e == Some(ErrorKind::TruncatedInput)
    } else if c > d.len() {
        e == Some(ErrorKind::OutOfBounds)
    } else if c + 8 > d.len() {
        e == Some(ErrorKind::TruncatedInput)
    } else if reject && le32(d, c + 4) != 0 {
        e == Some(ErrorKind::UnsupportedSection)
    } else if c + 16 > d.len() {
        e == Some(ErrorKind::TruncatedInput)
    } else if reject && le32(d, c + 12) != 0 {
        e == Some(ErrorKind::UnsupportedSection)
    } else if c + 24 > d.len() {
        e == Some(ErrorKind::TruncatedInput)
    } else if reject && le32(d, c + 20) != 0 {
        e == Some(ErrorKind::UnsupportedSection)
    } else if q + 8 > d.len() {
        e == Some(ErrorKind::TruncatedInput)
    } else if !sound_slots_fail(None, d, q + 8, 0, le32(d, q + 4) as nat) {
        e is Some && sound_slots_fail(e, d, q + 8, 0, le32(d, q + 4) as nat)
    } else if sp + 8 > d.len() {
        e == Some(ErrorKind::TruncatedInput)
    } else {
        sprite_slots_fail(e, d, sp + 8, 0, le32(d, sp + 4) as nat)
    }
}

/// Extraction of the executable `b` fails with `e`, or succeeds where `e`
/// is `None`; `reject` when non-empty undecoded sections are refused.
pub open spec fn extraction_fails(e: Option<ErrorKind>, b: Seq<u8>, reject: bool) -> bool {
    match container_error(b) {
        Some(k) => e == Some(k),
        None => assets_fail(e, decrypted_exe(b), region_start(b), reject),
    }
}

/// What reading the decrypted region from `r0` returns when it succeeds.
pub open spec fn assets_from(g: Game, d: Seq<u8>, r0: int) -> bool {
    let q = sections_from(d, r0) + 24;
    let sp = slot_offset(d, q + 8, g.sounds.len() as nat);
    &&& g.sounds.len() == le32(d, q + 4)
    &&& sound_slots(g.sounds@, d, q + 8)
    &&& g.sprites.len() == le32(d, sp + 4)
    &&& sprite_slots(g.sprites@, d, sp + 8)
}

/// The undecoded sections read from `r0` are all empty.
pub open spec fn sections_empty_from(d: Seq<u8>, r0: int) -> bool {
    let c = sections_from(d, r0);
    le32(d, c + 4) == 0 && le32(d, c + 12) == 0 && le32(d, c + 20) == 0
}

/// Checks the container and decrypts its asset region, leaving the cursor
/// at the region's start.
fn open_container(exe: Vec<u8>) -> (r: Result<ByteReader, ErrorKind>)
    ensures
        container_error(exe@) is Some ==> r == Err::<ByteReader, ErrorKind>(
            container_error(exe@)->Some_0,
        ),
        container_error(exe@) is None ==> r is Ok && r->Ok_0.wf() && r->Ok_0.data@
            == decrypted_exe(exe@) && r->Ok_0.pos == region_start(exe@),
{
    let ghost b = exe@;
    if exe.len() < 2 || exe[0] != 0x4d || exe[1] != 0x5a {
        return Err(ErrorKind::InvalidExeHeader);
    }
    if exe.len() < GM80_MAGIC_POS + 4 {
        return Err(ErrorKind::TruncatedInput);
    }
    let mut data = ByteReader::new(exe);
    data.skip(GM80_MAGIC_POS as u64)?;
    if data.read_u32_le()? != GM80_MAGIC {
        return Err(ErrorKind::InvalidMagic);
    }
    // version and build numbers, not decoded
    data.skip(12)?;
    // settings: inflated to check that the chunk is sound, not decoded
    let settings_len = data.read_u32_le()?;
    let _settings = data.extract_chunk(settings_len as u64)?;
    // embedded library: name and payload, both skipped
    let dll_name_len = data.read_u32_le()?;
    data.skip(dll_name_len as u64)?;
    let dll_len = data.read_u32_le()?;
    data.skip(dll_len as u64)?;
    assert(data.pos == decryption_at(b));
    decrypt_assets(&mut data)?;
    Ok(data)
}

/// Reads the decrypted region from the cursor: unused words, the three
/// undecoded sections, then the sound and sprite slots.
fn read_assets(data: &mut ByteReader, policy: &SectionPolicy) -> (r: Result<Game, ErrorKind>)
    requires
        old(data).wf(),
    ensures
        assets_fail(err_of(r), old(data).data@, old(data).pos as int, *policy is Reject),
        r is Ok ==> assets_from(r->Ok_0, old(data).data@, old(data).pos as int),
        r is Ok && *policy is Reject ==> sections_empty_from(
            old(data).data@,
            old(data).pos as int,
        ),
{
    // the region opens with a count of unused words, six short
    let garbage = data.read_u32_le()?;
    data.skip((garbage as u64 + 6) * 4)?;
    skip_undecoded_section(data, policy)?;
    skip_undecoded_section(data, policy)?;
    skip_undecoded_section(data, policy)?;
    let ghost s0 = data.pos as int;
    let sounds = match read_sounds(data) {
        Ok(v) => v,
        Err(e) => {
            proof {
                let d = data.data@;
                if s0 + 8 <= d.len() && sound_slots_fail(None, d, s0 + 8, 0, le32(d, s0 + 4) as nat) {
                    lemma_sound_slots_fail_unique(
                        None,
                        Some(e),
                        d,
                        s0 + 8,
                        0,
                        le32(d, s0 + 4) as nat,
                    );
                }
            }
            return Err(e);
        },
    };
    let sprites = read_sprites(data)?;
    Ok(Game { sounds, sprites })
}

impl Game {
    /// Extracts the sound and sprite slots from the bytes of an executable.
    pub fn from_exe(exe: Vec<u8>, policy: SectionPolicy) -> (r: Result<Game, Error>)
        ensures
            !has_exe_header(exe@) ==> r is Err && r->Err_0.kind == ErrorKind::InvalidExeHeader,
            has_exe_header(exe@) && exe.len() < GM80_MAGIC_POS + 4 ==> r is Err && r->Err_0.kind
                == ErrorKind::TruncatedInput,
            has_exe_header(exe@) && exe.len() >= GM80_MAGIC_POS + 4 && le32(
                exe@,
                GM80_MAGIC_POS as int,
            ) != GM80_MAGIC ==> r is Err && r->Err_0.kind == ErrorKind::InvalidMagic,
            r is Ok ==> has_exe_header(exe@) && exe.len() >= GM80_MAGIC_POS + 4 && le32(
                exe@,
                GM80_MAGIC_POS as int,
            ) == GM80_MAGIC,
            r is Ok ==> extracted_from(r->Ok_0, exe@),
            r is Ok && policy is Reject ==> undecoded_sections_empty(exe@),
            extraction_fails(
                match r {
                    Ok(_) => None,
                    Err(e) => Some(e.kind),
                },
                exe@,
                policy is Reject,
            ),
    {
        match Self::extract(exe, &policy) {
            Ok(g) => Ok(g),
            Err(kind) => Err(Error::from(kind)),
        }
    }

    fn extract(exe: Vec<u8>, policy: &SectionPolicy) -> (r: Result<Game, ErrorKind>)
        ensures
            extraction_fails(err_of(r), exe@, *policy is Reject),
            r is Ok ==> extracted_from(r->Ok_0, exe@),
            r is Ok && *policy is Reject ==> undecoded_sections_empty(exe@),
    {
        let mut data = open_container(exe)?;
        read_assets(&mut data, policy)
    }
}

} // verus!
