use vstd::prelude::*;
use vstd::slice::slice_to_vec;
use vstd::utf8::{decode_utf8, encode_utf8, encode_utf8_decode_utf8, encode_utf8_valid_utf8, valid_utf8};

use crate::reader::{block_at, block_end, le32, le64, lossy_utf8, opt_bytes, ByteReader};

verus! {

/// Record format version written and, in strict mode, required.
pub const VERSION: u32 = 800;

/// Legacy classification of a sound.
#[derive(Debug, Clone, Copy, PartialEq, Eq, Structural)]
pub enum SoundKind {
    /// Normal sound
    Normal,
    /// Background music
    BackgroundMusic,
    /// 3D sound
    ThreeDimensional,
    /// Played with the system's multimedia player
    Multimedia,
}

/// The kind a stored code stands for; unknown codes are normal sounds.
pub open spec fn kind_of_code(n: u32) -> SoundKind {
    if n == 1 {
        SoundKind::BackgroundMusic
    } else if n == 2 {
        SoundKind::ThreeDimensional
    } else if n == 3 {
        SoundKind::Multimedia
    } else {
        SoundKind::Normal
    }
}

/// The code a kind is stored as.
pub open spec fn code_of_kind(k: SoundKind) -> u32 {
    match k {
        SoundKind::Normal => 0,
        SoundKind::BackgroundMusic => 1,
        SoundKind::ThreeDimensional => 2,
        SoundKind::Multimedia => 3,
    }
}

impl SoundKind {
    /// The code this kind is stored as.
    pub fn code(&self) -> (r: u32)
        ensures
            r == code_of_kind(*self),
    {
        match self {
            SoundKind::Normal => 0,
            SoundKind::BackgroundMusic => 1,
            SoundKind::ThreeDimensional => 2,
            SoundKind::Multimedia => 3,
        }
    }
}

impl From<u32> for SoundKind {
    fn from(n: u32) -> (r: SoundKind)
        ensures
            r == kind_of_code(n),
    {
        match n {
            1 => SoundKind::BackgroundMusic,
            2 => SoundKind::ThreeDimensional,
            3 => SoundKind::Multimedia,
            _ => SoundKind::Normal,
        }
    }
}

impl vstd::std_specs::convert::FromSpecImpl<u32> for SoundKind {
    open spec fn obeys_from_spec() -> bool {
        true
    }

    open spec fn from_spec(n: u32) -> SoundKind {
        kind_of_code(n)
    }
}

/// Filters that can be set on a sound.
#[derive(Debug, Clone, Copy, PartialEq, Eq, Structural)]
pub struct SoundFX {
    pub chorus: bool,
    pub echo: bool,
    pub flanger: bool,
    pub gargle: bool,
    pub reverb: bool,
}

/// The effect flags stored as one bit each.
pub open spec fn fx_bits(fx: SoundFX) -> u32 {
    ((if fx.chorus { 1u32 } else { 0u32 }) + (if fx.echo { 2u32 } else { 0u32 }) + (if fx.flanger {
        4u32
    } else {
        0u32
    }) + (if fx.gargle { 8u32 } else { 0u32 }) + (if fx.reverb { 16u32 } else { 0u32 })) as u32
}

/// The effects that a stored flag word turns on.
pub open spec fn fx_of_bits(e: u32) -> SoundFX {
    SoundFX {
        chorus: e & 1 != 0,
        echo: e & 2 != 0,
        flanger: e & 4 != 0,
        gargle: e & 8 != 0,
        reverb: e & 16 != 0,
    }
}

/// A sound resource of a project file.
pub struct Sound {
    /// The name used in scripts and in the editor.
    pub name: String,
    /// The source file name, extension included.
    pub source: String,
    /// The file type (extension).
    pub extension: String,
    /// The raw file; a new sound has none.
    pub data: Option<Vec<u8>>,
    pub kind: SoundKind,
    /// Bits of the IEEE 754 double holding the volume (0.0 to 1.0).
    pub volume: u64,
    /// Bits of the IEEE 754 double holding the stereo pan (-1.0 to 1.0).
    pub pan: u64,
    pub preload: bool,
    pub fx: SoundFX,
}

/// Why a sound record could not be read.
#[derive(Debug, Clone, Copy, PartialEq, Eq, Structural)]
pub enum AssetDataError {
    /// The record ends early.
    TruncatedInput,
    /// Strict reading met a record of another format version.
    VersionError { expected: u32, got: u32 },
}

/// The four little-endian bytes of `v`.
#[verifier::opaque]
pub open spec fn le32_bytes(v: u32) -> Seq<u8> {
    seq![
        (v % 0x100) as u8,
        (v / 0x100 % 0x100) as u8,
        (v / 0x1_0000 % 0x100) as u8,
        (v / 0x100_0000) as u8,
    ]
}

/// The eight little-endian bytes of `v`.
pub open spec fn le64_bytes(v: u64) -> Seq<u8> {
    le32_bytes((v % 0x1_0000_0000) as u32) + le32_bytes((v / 0x1_0000_0000) as u32)
}

/// A length-prefixed UTF-8 string.
pub open spec fn pascal_bytes(s: Seq<char>) -> Seq<u8> {
    le32_bytes(encode_utf8(s).len() as u32) + encode_utf8(s)
}

/// The optional file: a presence word, then a length-prefixed block.
pub open spec fn data_bytes(d: Option<Seq<u8>>) -> Seq<u8> {
    match d {
        Some(d) => le32_bytes(1) + le32_bytes(d.len() as u32) + d,
        None => le32_bytes(0),
    }
}

/// The record that `serialize` writes for `s`.
pub open spec fn sound_bytes(s: Sound) -> Seq<u8> {
    sound_head_bytes(s) + data_bytes(opt_bytes(s.data)) + sound_tail_bytes(s)
}

/// Every length that the record stores fits in 32 bits.
pub open spec fn sound_encodable(s: Sound) -> bool {
    &&& encode_utf8(s.name@).len() <= u32::MAX
    &&& encode_utf8(s.extension@).len() <= u32::MAX
    &&& encode_utf8(s.source@).len() <= u32::MAX
    &&& s.data is Some ==> s.data->Some_0.len() <= u32::MAX
}

/// Text read from a stored block: decoded permissively, and exactly where
/// the block is valid UTF-8.
pub open spec fn text_from(t: Seq<char>, blk: Seq<u8>) -> bool {
    &&& t == lossy_utf8(blk)
    &&& valid_utf8(blk) ==> t == decode_utf8(blk)
}

/// Offset just past the file-name field of a sound record.
pub open spec fn record_source_end(b: Seq<u8>) -> int {
    block_end(b, block_end(b, block_end(b, 0) + 8))
}

/// Offset just past the optional file of a sound record.
pub open spec fn record_data_end(b: Seq<u8>) -> int {
    let e3 = record_source_end(b);
    if le32(b, e3) != 0 {
        block_end(b, e3 + 4)
    } else {
        e3 + 4
    }
}

/// What `deserialize` gives for the record `b`.
pub open spec fn sound_read_outcome(r: Result<Sound, AssetDataError>, b: Seq<u8>, strict: bool) -> bool {
    let e1 = block_end(b, 0);
    let e2 = block_end(b, e1 + 8);
    let e3 = record_source_end(b);
    let e4 = record_data_end(b);
    if e1 + 4 > b.len() {
        r == Err::<Sound, AssetDataError>(AssetDataError::TruncatedInput)
    } else if strict && le32(b, e1) != VERSION {
        r == Err::<Sound, AssetDataError>(
            AssetDataError::VersionError { expected: VERSION, got: le32(b, e1) },
        )
    } else if e4 + 24 > b.len() {
        r == Err::<Sound, AssetDataError>(AssetDataError::TruncatedInput)
    } else {
        let s = r->Ok_0;
        &&& r is Ok
        &&& text_from(s.name@, block_at(b, 0))
        &&& s.kind == kind_of_code(le32(b, e1 + 4))
        &&& text_from(s.extension@, block_at(b, e1 + 8))
        &&& text_from(s.source@, block_at(b, e2))
        &&& opt_bytes(s.data) == if le32(b, e3) != 0 {
            Some(block_at(b, e3 + 4))
        } else {
            None::<Seq<u8>>
        }
        &&& s.fx == fx_of_bits(le32(b, e4))
        &&& s.volume == le64(b, e4 + 4)
        &&& s.pan == le64(b, e4 + 12)
        &&& s.preload == (le32(b, e4 + 20) != 0)
    }
}

fn fx_word(fx: &SoundFX) -> (r: u32)
    ensures
        r == fx_bits(*fx),
{
    (if fx.chorus { 1u32 } else { 0u32 }) + (if fx.echo { 2u32 } else { 0u32 }) + (if fx.flanger {
        4u32
    } else {
        0u32
    }) + (if fx.gargle { 8u32 } else { 0u32 }) + (if fx.reverb { 16u32 } else { 0u32 })
}

fn push_u32_le(out: &mut Vec<u8>, v: u32)
    ensures
        final(out)@ == old(out)@ + le32_bytes(v),
{
    reveal(le32_bytes);
    out.push((v % 0x100) as u8);
    out.push((v / 0x100 % 0x100) as u8);
    out.push((v / 0x1_0000 % 0x100) as u8);
    out.push((v / 0x100_0000) as u8);
    assert(out@ =~= old(out)@ + le32_bytes(v));
}

fn push_u64_le(out: &mut Vec<u8>, v: u64)
    ensures
        final(out)@ == old(out)@ + le64_bytes(v),
{
    push_u32_le(out, (v % 0x1_0000_0000) as u32);
    push_u32_le(out, (v / 0x1_0000_0000) as u32);
    assert(out@ =~= old(out)@ + le64_bytes(v));
}

fn push_bytes(out: &mut Vec<u8>, b: &[u8])
    ensures
        final(out)@ == old(out)@ + b@,
{
    let ghost start = out@;
    let mut i: usize = 0;
    while i < b.len()
        invariant
            i <= b.len(),
            out@ == start + b@.subrange(0, i as int),
        decreases b.len() - i,
    {
        out.push(b[i]);
        i = i + 1;
        assert(out@ =~= start + b@.subrange(0, i as int));
    }
    assert(b@.subrange(0, b.len() as int) =~= b@);
}

fn push_pascal(out: &mut Vec<u8>, s: &String)
    requires
        encode_utf8(s@).len() <= u32::MAX,
    ensures
        final(out)@ == old(out)@ + pascal_bytes(s@),
{
    let b = s.as_str().as_bytes();
    push_u32_le(out, b.len() as u32);
    push_bytes(out, b);
    assert(out@ =~= old(out)@ + pascal_bytes(s@));
}

impl Sound {
    /// Appends the record of this sound to `out` and returns its length.
    pub fn serialize(&self, out: &mut Vec<u8>) -> (n: usize)
        requires
            sound_encodable(*self),
            old(out).len() + sound_bytes(*self).len() <= usize::MAX,
        ensures
            final(out)@ == old(out)@ + sound_bytes(*self),
            n == sound_bytes(*self).len(),
    {
        let ghost start = out@;
        let start_len = out.len();
        self.write_head(out);
        self.write_data(out);
        let ghost c = out@;
        assert(c =~= start + (sound_head_bytes(*self) + data_bytes(opt_bytes(self.data))));
        self.write_tail(out);
        assert(out@ =~= start + sound_bytes(*self));
        out.len() - start_len
    }

    fn write_head(&self, out: &mut Vec<u8>)
        requires
            sound_encodable(*self),
        ensures
            final(out)@ == old(out)@ + sound_head_bytes(*self),
    {
        let ghost start = out@;
        let ghost s = *self;
        push_pascal(out, &self.name);
        let ghost after_name = pascal_bytes(s.name@);
        push_u32_le(out, VERSION);
        let ghost after_version = after_name + le32_bytes(VERSION);
        assert(out@ =~= start + after_version);
        push_u32_le(out, self.kind.code());
        let ghost after_kind = after_version + le32_bytes(code_of_kind(s.kind));
        assert(out@ =~= start + after_kind);
        push_pascal(out, &self.extension);
        let ghost after_ext = after_kind + pascal_bytes(s.extension@);
        assert(out@ =~= start + after_ext);
        push_pascal(out, &self.source);
        assert(out@ =~= start + sound_head_bytes(s));
    }

    fn write_data(&self, out: &mut Vec<u8>)
        requires
            sound_encodable(*self),
        ensures
            final(out)@ == old(out)@ + data_bytes(opt_bytes(self.data)),
    {
        match &self.data {
            Some(d) => {
                push_u32_le(out, 1);
                push_u32_le(out, d.len() as u32);
                push_bytes(out, d.as_slice());
                assert(out@ =~= old(out)@ + data_bytes(opt_bytes(self.data)));
            },
            None => {
                push_u32_le(out, 0);
            },
        }
    }

    fn write_tail(&self, out: &mut Vec<u8>)
        ensures
            final(out)@ == old(out)@ + sound_tail_bytes(*self),
    {
        let ghost q0 = out@;
        let ghost s = *self;
        push_u32_le(out, fx_word(&self.fx));
        let ghost t1 = le32_bytes(fx_bits(s.fx));
        push_u64_le(out, self.volume);
        let ghost t2 = t1 + le64_bytes(s.volume);
        assert(out@ =~= q0 + t2);
        push_u64_le(out, self.pan);
        let ghost t3 = t2 + le64_bytes(s.pan);
        assert(out@ =~= q0 + t3);
        push_u32_le(
            out,
            if self.preload {
                1
            } else {
                0
            },
        );
        assert(out@ =~= q0 + sound_tail_bytes(s));
    }

    /// Reads a sound record; in strict mode its version must be `VERSION`.
    pub fn deserialize(bytes: &[u8], strict: bool) -> (r: Result<Sound, AssetDataError>)
        ensures
            sound_read_outcome(r, bytes@, strict),
    {
        let mut reader = ByteReader::new(slice_to_vec(bytes));
        match Self::read_record(&mut reader, strict) {
            Ok(s) => Ok(s),
            Err(e) => Err(e),
        }
    }

    fn read_record(reader: &mut ByteReader, strict: bool) -> (r: Result<Sound, AssetDataError>)
        requires
            old(reader).wf(),
            old(reader).pos == 0,
        ensures
            sound_read_outcome(r, old(reader).data@, strict),
    {
        let ghost b = reader.data@;
        let name = match reader.read_string() {
            Ok(s) => s,
            Err(_) => return Err(AssetDataError::TruncatedInput),
        };
        let version = match reader.read_u32_le() {
            Ok(v) => v,
            Err(_) => return Err(AssetDataError::TruncatedInput),
        };
        if strict && version != VERSION {
            return Err(AssetDataError::VersionError { expected: VERSION, got: version });
        }
        let r = Self::read_fields(reader, name);
        r
    }

    fn read_fields(reader: &mut ByteReader, name: String) -> (r: Result<Sound, AssetDataError>)
        requires
            old(reader).wf(),
        ensures
            ({
                let b = old(reader).data@;
                let p = old(reader).pos as int;
                let e2 = block_end(b, p + 4);
                let e3 = block_end(b, e2);
                let e4 = if le32(b, e3) != 0 {
                    block_end(b, e3 + 4)
                } else {
                    e3 + 4
                };
                if e4 + 24 > b.len() {
                    r == Err::<Sound, AssetDataError>(AssetDataError::TruncatedInput)
                } else {
                    let s = r->Ok_0;
                    &&& r is Ok
                    &&& s.name == name
                    &&& s.kind == kind_of_code(le32(b, p))
                    &&& text_from(s.extension@, block_at(b, p + 4))
                    &&& text_from(s.source@, block_at(b, e2))
                    &&& opt_bytes(s.data) == if le32(b, e3) != 0 {
                        Some(block_at(b, e3 + 4))
                    } else {
                        None::<Seq<u8>>
                    }
                    &&& s.fx == fx_of_bits(le32(b, e4))
                    &&& s.volume == le64(b, e4 + 4)
                    &&& s.pan == le64(b, e4 + 12)
                    &&& s.preload == (le32(b, e4 + 20) != 0)
                }
            }),
    {
        let r = Self::read_fields_inner(reader, name);
        match r {
            Ok(s) => Ok(s),
            Err(_) => Err(AssetDataError::TruncatedInput),
        }
    }

    fn read_fields_inner(reader: &mut ByteReader, name: String) -> (r: Result<
        Sound,
        crate::error::ErrorKind,
    >)
        requires
            old(reader).wf(),
        ensures
            ({
                let b = old(reader).data@;
                let p = old(reader).pos as int;
                let e2 = block_end(b, p + 4);
                let e3 = block_end(b, e2);
                let e4 = if le32(b, e3) != 0 {
                    block_end(b, e3 + 4)
                } else {
                    e3 + 4
                };
                if e4 + 24 > b.len() {
                    r is Err
                } else {
                    let s = r->Ok_0;
                    &&& r is Ok
                    &&& s.name == name
                    &&& s.kind == kind_of_code(le32(b, p))
                    &&& text_from(s.extension@, block_at(b, p + 4))
                    &&& text_from(s.source@, block_at(b, e2))
                    &&& opt_bytes(s.data) == if le32(b, e3) != 0 {
                        Some(block_at(b, e3 + 4))
                    } else {
                        None::<Seq<u8>>
                    }
                    &&& s.fx == fx_of_bits(le32(b, e4))
                    &&& s.volume == le64(b, e4 + 4)
                    &&& s.pan == le64(b, e4 + 12)
                    &&& s.preload == (le32(b, e4 + 20) != 0)
                }
            }),
    {
        let kind = SoundKind::from(reader.read_u32_le()?);
        let extension = reader.read_string()?;
        let source = reader.read_string()?;
        let data = if reader.read_u32_le()? != 0 {
            Some(reader.read_block()?)
        } else {
            None
        };
        let effects = reader.read_u32_le()?;
        let fx = SoundFX {
            chorus: effects & 1 != 0,
            echo: effects & 2 != 0,
            flanger: effects & 4 != 0,
            gargle: effects & 8 != 0,
            reverb: effects & 16 != 0,
        };
        let volume = reader.read_u64_le()?;
        let pan = reader.read_u64_le()?;
        let preload = reader.read_u32_le()? != 0;
        Ok(Sound { name, source, extension, data, kind, volume, pan, preload, fx })
    }
}

/// `a` and `b` hold the same sound, field for field.
pub open spec fn same_sound(a: Sound, b: Sound) -> bool {
    &&& a.name@ == b.name@
    &&& a.source@ == b.source@
    &&& a.extension@ == b.extension@
    &&& opt_bytes(a.data) == opt_bytes(b.data)
    &&& a.kind == b.kind
    &&& a.volume == b.volume
    &&& a.pan == b.pan
    &&& a.preload == b.preload
    &&& a.fx == b.fx
}

proof fn lemma_le32_bytes_len(v: u32)
    ensures
        #[trigger] le32_bytes(v).len() == 4,
{
    reveal(le32_bytes);
}

proof fn lemma_le32_of(b: Seq<u8>, p: int, v: u32)
    requires
        0 <= p,
        p + 4 <= b.len(),
        b.subrange(p, p + 4) == le32_bytes(v),
    ensures
        le32(b, p) == v,
{
    reveal(le32_bytes);
    assert(b[p] == b.subrange(p, p + 4)[0]);
    assert(b[p + 1] == b.subrange(p, p + 4)[1]);
    assert(b[p + 2] == b.subrange(p, p + 4)[2]);
    assert(b[p + 3] == b.subrange(p, p + 4)[3]);
    let x = v as int;
    assert(x % 0x100 + (x / 0x100 % 0x100) * 0x100 + (x / 0x1_0000 % 0x100) * 0x1_0000 + (x
        / 0x100_0000) * 0x100_0000 == x) by (nonlinear_arith)
        requires
            0 <= x < 0x1_0000_0000,
    ;
}

proof fn lemma_le64_of(b: Seq<u8>, p: int, v: u64)
    requires
        0 <= p,
        p + 8 <= b.len(),
        b.subrange(p, p + 8) == le64_bytes(v),
    ensures
        le64(b, p) == v,
{
    let lo = (v % 0x1_0000_0000) as u32;
    let hi = (v / 0x1_0000_0000) as u32;
    lemma_le32_bytes_len(lo);
    lemma_le32_bytes_len(hi);
    let w = le32_bytes(lo) + le32_bytes(hi);
    assert(b.subrange(p, p + 8) == w);
    assert forall|k: int| 0 <= k < 4 implies b[p + 4 + k] == le32_bytes(hi)[k] by {
        assert(b[p + 4 + k] == b.subrange(p, p + 8)[4 + k]);
        assert(w[4 + k] == le32_bytes(hi)[k]);
    }
    assert forall|k: int| 0 <= k < 4 implies b[p + k] == le32_bytes(lo)[k] by {
        assert(b[p + k] == b.subrange(p, p + 8)[k]);
    }
    assert(b.subrange(p, p + 4) =~= le32_bytes(lo));
    assert(b.subrange(p + 4, p + 8) =~= le32_bytes(hi));
    lemma_le32_of(b, p, lo);
    lemma_le32_of(b, p + 4, hi);
}

proof fn lemma_fx_bits_round_trip(fx: SoundFX)
    ensures
        fx_of_bits(fx_bits(fx)) == fx,
{
    let c: u32 = if fx.chorus { 1 } else { 0 };
    let e: u32 = if fx.echo { 1 } else { 0 };
    let f: u32 = if fx.flanger { 1 } else { 0 };
    let g: u32 = if fx.gargle { 1 } else { 0 };
    let r: u32 = if fx.reverb { 1 } else { 0 };
    let w = fx_bits(fx);
    assert(w == c + e * 2 + f * 4 + g * 8 + r * 16);
    assert(c <= 1 && e <= 1 && f <= 1 && g <= 1 && r <= 1 ==> {
        let x = (c + e * 2 + f * 4 + g * 8 + r * 16) as u32;
        &&& (x & 1 != 0) == (c == 1)
        &&& (x & 2 != 0) == (e == 1)
        &&& (x & 4 != 0) == (f == 1)
        &&& (x & 8 != 0) == (g == 1)
        &&& (x & 16 != 0) == (r == 1)
    }) by (bit_vector);
}

proof fn lemma_text_round_trip(cs: Seq<char>, t: Seq<char>, blk: Seq<u8>)
    requires
        blk == encode_utf8(cs),
        text_from(t, blk),
    ensures
        t == cs,
{
    encode_utf8_valid_utf8(cs);
    encode_utf8_decode_utf8(cs);
}

/// The fields of a record before its optional file.
pub open spec fn sound_head_bytes(s: Sound) -> Seq<u8> {
    pascal_bytes(s.name@) + le32_bytes(VERSION) + le32_bytes(code_of_kind(s.kind)) + pascal_bytes(
        s.extension@,
    ) + pascal_bytes(s.source@)
}

/// The fields of a record after its optional file.
pub open spec fn sound_tail_bytes(s: Sound) -> Seq<u8> {
    le32_bytes(fx_bits(s.fx)) + le64_bytes(s.volume) + le64_bytes(s.pan) + le32_bytes(
        if s.preload {
            1
        } else {
            0
        },
    )
}

proof fn lemma_le32_concat(x: Seq<u8>, y: Seq<u8>, p: int)
    requires
        0 <= p,
    ensures
        p + 4 <= x.len() ==> le32(x + y, p) == le32(x, p),
        p + 4 <= y.len() ==> le32(x + y, x.len() + p) == le32(y, p),
{
}

proof fn lemma_le64_concat(x: Seq<u8>, y: Seq<u8>, p: int)
    requires
        0 <= p,
        p + 8 <= y.len(),
    ensures
        le64(x + y, x.len() + p) == le64(y, p),
{
    lemma_le32_concat(x, y, p);
    lemma_le32_concat(x, y, p + 4);
}

proof fn lemma_block_concat(x: Seq<u8>, y: Seq<u8>, p: int)
    requires
        0 <= p,
    ensures
        p + 4 <= x.len() && block_end(x, p) <= x.len() ==> block_end(x + y, p) == block_end(x, p)
            && block_at(x + y, p) == block_at(x, p),
        p + 4 <= y.len() && block_end(y, p) <= y.len() ==> block_end(x + y, x.len() + p) == x.len()
            + block_end(y, p) && block_at(x + y, x.len() + p) == block_at(y, p),
{
    lemma_le32_concat(x, y, p);
    if p + 4 <= x.len() && block_end(x, p) <= x.len() {
        assert(block_at(x + y, p) =~= block_at(x, p));
    }
    if p + 4 <= y.len() && block_end(y, p) <= y.len() {
        assert(block_at(x + y, x.len() + p) =~= block_at(y, p));
    }
}

proof fn lemma_pascal_at(cs: Seq<char>)
    requires
        encode_utf8(cs).len() <= u32::MAX,
    ensures
        pascal_bytes(cs).len() == 4 + encode_utf8(cs).len(),
        block_end(pascal_bytes(cs), 0) == pascal_bytes(cs).len(),
        block_at(pascal_bytes(cs), 0) == encode_utf8(cs),
{
    let e = encode_utf8(cs);
    let b = pascal_bytes(cs);
    lemma_le32_bytes_len(e.len() as u32);
    assert(b.subrange(0, 4) =~= le32_bytes(e.len() as u32));
    lemma_le32_of(b, 0, e.len() as u32);
    assert(block_at(b, 0) =~= e);
}

proof fn lemma_word_at(v: u32)
    ensures
        le32_bytes(v).len() == 4,
        le32(le32_bytes(v), 0) == v,
{
    lemma_le32_bytes_len(v);
    assert(le32_bytes(v).subrange(0, 4) =~= le32_bytes(v));
    lemma_le32_of(le32_bytes(v), 0, v);
}

proof fn lemma_head_layout(s: Sound)
    requires
        sound_encodable(s),
    ensures
        ({
            let h = sound_head_bytes(s);
            let e1 = block_end(h, 0);
            let e2 = block_end(h, e1 + 8);
            &&& e1 == 4 + encode_utf8(s.name@).len()
            &&& block_at(h, 0) == encode_utf8(s.name@)
            &&& le32(h, e1) == VERSION
            &&& le32(h, e1 + 4) == code_of_kind(s.kind)
            &&& e1 + 12 <= block_end(h, e1 + 8)
            &&& block_at(h, e1 + 8) == encode_utf8(s.extension@)
            &&& e2 + 4 <= block_end(h, e2)
            &&& block_at(h, e2) == encode_utf8(s.source@)
            &&& block_end(h, e2) == h.len()
        }),
{
    let name_part = pascal_bytes(s.name@);
    let v = le32_bytes(VERSION);
    let k = le32_bytes(code_of_kind(s.kind));
    let ext_part = pascal_bytes(s.extension@);
    let src_part = pascal_bytes(s.source@);
    lemma_pascal_at(s.name@);
    lemma_pascal_at(s.extension@);
    lemma_pascal_at(s.source@);
    lemma_word_at(VERSION);
    lemma_word_at(code_of_kind(s.kind));
    let h1 = name_part + v;
    let h2 = h1 + k;
    let h3 = h2 + ext_part;
    let h = h3 + src_part;
    lemma_block_concat(name_part, v, 0);
    lemma_block_concat(h1, k, 0);
    lemma_block_concat(h2, ext_part, 0);
    lemma_block_concat(h3, src_part, 0);
    lemma_le32_concat(name_part, v, 0);
    lemma_le32_concat(h1, k, 0);
    lemma_le32_concat(h1, k, name_part.len() as int);
    lemma_le32_concat(h2, ext_part, name_part.len() as int);
    lemma_le32_concat(h2, ext_part, name_part.len() as int + 4);
    lemma_le32_concat(h3, src_part, name_part.len() as int);
    lemma_le32_concat(h3, src_part, name_part.len() as int + 4);
    lemma_block_concat(h2, ext_part, 0);
    lemma_block_concat(h3, src_part, h2.len() as int);
    lemma_block_concat(h3, src_part, 0);
}

proof fn lemma_tail_layout(s: Sound)
    ensures
        ({
            let t = sound_tail_bytes(s);
            &&& t.len() == 24
            &&& le32(t, 0) == fx_bits(s.fx)
            &&& le64(t, 4) == s.volume
            &&& le64(t, 12) == s.pan
            &&& (le32(t, 20) != 0) == s.preload
        }),
{
    let pre: u32 = if s.preload { 1 } else { 0 };
    let t = sound_tail_bytes(s);
    let f = le32_bytes(fx_bits(s.fx));
    let vo = le64_bytes(s.volume);
    let pa = le64_bytes(s.pan);
    let pr = le32_bytes(pre);
    lemma_le32_bytes_len(fx_bits(s.fx));
    lemma_le32_bytes_len(pre);
    lemma_le32_bytes_len((s.volume % 0x1_0000_0000) as u32);
    lemma_le32_bytes_len((s.volume / 0x1_0000_0000) as u32);
    lemma_le32_bytes_len((s.pan % 0x1_0000_0000) as u32);
    lemma_le32_bytes_len((s.pan / 0x1_0000_0000) as u32);
    assert(t.len() == 24);
    assert(t.subrange(0, 4) =~= f);
    lemma_le32_of(t, 0, fx_bits(s.fx));
    assert(t.subrange(4, 12) =~= vo);
    lemma_le64_of(t, 4, s.volume);
    assert(t.subrange(12, 20) =~= pa);
    lemma_le64_of(t, 12, s.pan);
    assert(t.subrange(20, 24) =~= pr);
    lemma_le32_of(t, 20, pre);
}

proof fn lemma_data_layout(s: Sound)
    requires
        sound_encodable(s),
    ensures
        ({
            let h = sound_head_bytes(s);
            let hd = h + data_bytes(opt_bytes(s.data));
            let e3 = h.len() as int;
            &&& (le32(hd, e3) != 0) == (s.data is Some)
            &&& e3 + 4 <= hd.len()
            &&& s.data is Some ==> e3 + 8 <= hd.len() && block_end(hd, e3 + 4) == hd.len()
                && block_at(hd, e3 + 4) == s.data->Some_0@
            &&& s.data is None ==> e3 + 4 == hd.len()
        }),
{
    let h = sound_head_bytes(s);
    let d = data_bytes(opt_bytes(s.data));
    lemma_word_at(0);
    lemma_word_at(1);
    lemma_le32_concat(h, d, 0);
    match s.data {
        Some(v) => {
            let n = v.len() as u32;
            lemma_word_at(n);
            let d1 = le32_bytes(1) + le32_bytes(n);
            assert(d == d1 + v@);
            lemma_le32_concat(le32_bytes(1), le32_bytes(n), 0);
            lemma_le32_concat(d1, v@, 0);
            lemma_le32_concat(le32_bytes(1), le32_bytes(n), 0);
            lemma_block_concat(le32_bytes(1), le32_bytes(n), 0);
            lemma_block_concat(d1, v@, 4);
            assert(le32(d1, 4) == n);
            assert(block_end(d, 4) == d.len());
            assert(block_at(d, 4) =~= v@);
            lemma_block_concat(h, d, 4);
        },
        None => {},
    }
}

proof fn lemma_record_layout(s: Sound)
    requires
        sound_encodable(s),
    ensures
        ({
            let b = sound_bytes(s);
            let e1 = block_end(b, 0);
            let e2 = block_end(b, e1 + 8);
            let e3 = record_source_end(b);
            let e4 = record_data_end(b);
            &&& e1 + 4 <= b.len()
            &&& block_at(b, 0) == encode_utf8(s.name@)
            &&& le32(b, e1) == VERSION
            &&& le32(b, e1 + 4) == code_of_kind(s.kind)
            &&& block_at(b, e1 + 8) == encode_utf8(s.extension@)
            &&& block_at(b, e2) == encode_utf8(s.source@)
            &&& (le32(b, e3) != 0) == (s.data is Some)
            &&& s.data is Some ==> block_at(b, e3 + 4) == s.data->Some_0@
            &&& e4 + 24 == b.len()
            &&& le32(b, e4) == fx_bits(s.fx)
            &&& le64(b, e4 + 4) == s.volume
            &&& le64(b, e4 + 12) == s.pan
            &&& (le32(b, e4 + 20) != 0) == s.preload
        }),
{
    let h = sound_head_bytes(s);
    let d = data_bytes(opt_bytes(s.data));
    let t = sound_tail_bytes(s);
    let hd = h + d;
    let b = sound_bytes(s);
    lemma_head_layout(s);
    lemma_data_layout(s);
    lemma_tail_layout(s);
    let e1 = block_end(h, 0);
    let e2 = block_end(h, e1 + 8);
    let e3 = h.len() as int;
    lemma_block_concat(h, d, 0);
    lemma_block_concat(hd, t, 0);
    lemma_le32_concat(h, d, e1);
    lemma_le32_concat(hd, t, e1);
    lemma_le32_concat(h, d, e1 + 4);
    lemma_le32_concat(hd, t, e1 + 4);
    lemma_block_concat(h, d, e1 + 8);
    lemma_block_concat(hd, t, e1 + 8);
    lemma_block_concat(h, d, e2);
    lemma_block_concat(hd, t, e2);
    lemma_le32_concat(hd, t, e3);
    if s.data is Some {
        lemma_le32_concat(hd, t, e3 + 4);
        lemma_block_concat(hd, t, e3 + 4);
    }
    lemma_le32_concat(hd, t, 0);
    lemma_le64_concat(hd, t, 4);
    lemma_le64_concat(hd, t, 12);
    lemma_le32_concat(hd, t, 20);
}

/// Reading back, in either mode, the record that `serialize` writes for a
/// sound gives that sound again, field for field.
pub proof fn lemma_sound_round_trip(s: Sound, strict: bool, r: Result<Sound, AssetDataError>)
    requires
        sound_encodable(s),
        sound_read_outcome(r, sound_bytes(s), strict),
    ensures
        r is Ok,
        same_sound(r->Ok_0, s),
{
    lemma_record_layout(s);
    lemma_fx_bits_round_trip(s.fx);
    let res = r->Ok_0;
    lemma_text_round_trip(s.name@, res.name@, encode_utf8(s.name@));
    lemma_text_round_trip(s.extension@, res.extension@, encode_utf8(s.extension@));
    lemma_text_round_trip(s.source@, res.source@, encode_utf8(s.source@));
}

} // verus!
