use vstd::prelude::*;
use vstd::slice::{slice_subrange, slice_to_vec};
use vstd::utf8::{decode_utf8, valid_utf8};

use crate::error::ErrorKind;

verus! {

/// The little-endian 32-bit value of the four bytes at `p`.
pub open spec fn le32(b: Seq<u8>, p: int) -> u32 {
    (b[p] as int + b[p + 1] as int * 0x100 + b[p + 2] as int * 0x1_0000 + b[p + 3] as int
        * 0x100_0000) as u32
}

/// The little-endian 64-bit value of the eight bytes at `p`.
pub open spec fn le64(b: Seq<u8>, p: int) -> u64 {
    (le32(b, p) as int + le32(b, p + 4) as int * 0x1_0000_0000) as u64
}

/// Offset just past a length-prefixed byte block that starts at `p`.
pub open spec fn block_end(b: Seq<u8>, p: int) -> int {
    p + 4 + le32(b, p)
}

/// The payload of the length-prefixed byte block at `p`.
pub open spec fn block_at(b: Seq<u8>, p: int) -> Seq<u8> {
    b.subrange(p + 4, block_end(b, p))
}

/// Text decoded from bytes, malformed sequences replaced.
pub uninterp spec fn lossy_utf8(b: Seq<u8>) -> Seq<char>;

/// What a zlib stream inflates to, or `None` for a malformed stream.
pub uninterp spec fn zlib_inflate(b: Seq<u8>) -> Option<Seq<u8>>;

pub open spec fn opt_bytes(v: Option<Vec<u8>>) -> Option<Seq<u8>> {
    match v {
        Some(v) => Some(v@),
        None => None,
    }
}

/// Relies on `String::from_utf8_lossy`: the text depends on the bytes alone,
/// and valid UTF-8 is decoded as it stands.
#[verifier::external_body]
fn utf8_lossy(b: &[u8]) -> (r: String)
    ensures
        r@ == lossy_utf8(b@),
        valid_utf8(b@) ==> r@ == decode_utf8(b@),
{
    String::from_utf8_lossy(b).into_owned()
}

/// Relies on flate2's `ZlibDecoder` read to its end: the outcome depends on
/// the compressed bytes alone.
#[verifier::external_body]
fn inflate_zlib(compressed: &[u8]) -> (r: Option<Vec<u8>>)
    ensures
        opt_bytes(r) == zlib_inflate(compressed@),
{
    let mut decoder = flate2::read::ZlibDecoder::new(compressed);
    let mut buf: Vec<u8> = Vec::new();
    match std::io::Read::read_to_end(&mut decoder, &mut buf) {
        Ok(_) => Some(buf),
        Err(_) => None,
    }
}

/// A forward cursor over an owned byte buffer.
pub struct ByteReader {
    pub data: Vec<u8>,
    pub pos: usize,
}

impl ByteReader {
    pub open spec fn wf(&self) -> bool {
        self.pos <= self.data.len()
    }

    /// A reader at the start of `data`.
    pub fn new(data: Vec<u8>) -> (r: ByteReader)
        ensures
            r.data@ == data@,
            r.pos == 0,
            r.wf(),
    {
        ByteReader { data, pos: 0 }
    }

    /// Bytes between the cursor and the end of the buffer.
    pub fn remaining(&self) -> (r: usize)
        requires
            self.wf(),
        ensures
            r == self.data.len() - self.pos,
    {
        self.data.len() - self.pos
    }

    pub fn read_u8(&mut self) -> (r: Result<u8, ErrorKind>)
        requires
            old(self).wf(),
        ensures
            final(self).wf(),
            final(self).data@ == old(self).data@,
            old(self).pos + 1 <= old(self).data.len() ==> r == Ok::<u8, ErrorKind>(
                old(self).data@[old(self).pos as int],
            ) && final(self).pos == old(self).pos + 1,
            old(self).pos + 1 > old(self).data.len() ==> r == Err::<u8, ErrorKind>(
                ErrorKind::TruncatedInput,
            ) && final(self).pos == old(self).pos,
    {
        if self.pos < self.data.len() {
            let v = self.data[self.pos];
            self.pos = self.pos + 1;
            Ok(v)
        } else {
            Err(ErrorKind::TruncatedInput)
        }
    }

    /// Reads a little-endian `u32`.
    pub fn read_u32_le(&mut self) -> (r: Result<u32, ErrorKind>)
        requires
            old(self).wf(),
        ensures
            final(self).wf(),
            final(self).data@ == old(self).data@,
            old(self).pos + 4 <= old(self).data.len() ==> r == Ok::<u32, ErrorKind>(
                le32(old(self).data@, old(self).pos as int),
            ) && final(self).pos == old(self).pos + 4,
            old(self).pos + 4 > old(self).data.len() ==> r == Err::<u32, ErrorKind>(
                ErrorKind::TruncatedInput,
            ) && final(self).pos == old(self).pos,
    {
        if self.data.len() - self.pos < 4 {
            return Err(ErrorKind::TruncatedInput);
        }
        let p = self.pos;
        let b0 = self.data[p] as u32;
        let b1 = self.data[p + 1] as u32;
        let b2 = self.data[p + 2] as u32;
        let b3 = self.data[p + 3] as u32;
        self.pos = p + 4;
        Ok(b0 + b1 * 0x100 + b2 * 0x1_0000 + b3 * 0x100_0000)
    }

    /// Reads a little-endian 64-bit value, such as the bits of a float.
    pub fn read_u64_le(&mut self) -> (r: Result<u64, ErrorKind>)
        requires
            old(self).wf(),
        ensures
            final(self).wf(),
            final(self).data@ == old(self).data@,
            old(self).pos + 8 <= old(self).data.len() ==> r == Ok::<u64, ErrorKind>(
                le64(old(self).data@, old(self).pos as int),
            ) && final(self).pos == old(self).pos + 8,
            old(self).pos + 8 > old(self).data.len() ==> r == Err::<u64, ErrorKind>(
                ErrorKind::TruncatedInput,
            ) && final(self).pos == old(self).pos,
    {
        if self.data.len() - self.pos < 8 {
            return Err(ErrorKind::TruncatedInput);
        }
        let lo = self.read_u32_le()?;
        let hi = self.read_u32_le()?;
        Ok(lo as u64 + hi as u64 * 0x1_0000_0000)
    }

    /// Moves the cursor `n` bytes forward.
    pub fn skip(&mut self, n: u64) -> (r: Result<(), ErrorKind>)
        requires
            old(self).wf(),
        ensures
            final(self).wf(),
            final(self).data@ == old(self).data@,
            old(self).pos + n <= old(self).data.len() ==> r is Ok && final(self).pos == old(
                self,
            ).pos + n,
            old(self).pos + n > old(self).data.len() ==> r == Err::<(), ErrorKind>(
                ErrorKind::OutOfBounds,
            ) && final(self).pos == old(self).pos,
    {
        if n > (self.data.len() - self.pos) as u64 {
            return Err(ErrorKind::OutOfBounds);
        }
        self.pos = self.pos + n as usize;
        Ok(())
    }

    /// Moves the cursor by `delta` bytes, backward where it is negative.
    pub fn seek_relative(&mut self, delta: i64) -> (r: Result<(), ErrorKind>)
        requires
            old(self).wf(),
        ensures
            final(self).wf(),
            final(self).data@ == old(self).data@,
            0 <= old(self).pos + delta <= old(self).data.len() ==> r is Ok && final(self).pos
                == old(self).pos + delta,
            !(0 <= old(self).pos + delta <= old(self).data.len()) ==> r == Err::<(), ErrorKind>(
                ErrorKind::OutOfBounds,
            ) && final(self).pos == old(self).pos,
    {
        if delta >= 0 {
            self.skip(delta as u64)
        } else {
            let back = (0i128 - delta as i128) as u64;
            if back > self.pos as u64 {
                return Err(ErrorKind::OutOfBounds);
            }
            self.pos = self.pos - back as usize;
            Ok(())
        }
    }

    /// Copies the next `n` bytes out.
    pub fn read_bytes(&mut self, n: u64) -> (r: Result<Vec<u8>, ErrorKind>)
        requires
            old(self).wf(),
        ensures
            final(self).wf(),
            final(self).data@ == old(self).data@,
            old(self).pos + n <= old(self).data.len() ==> r is Ok && r->Ok_0@ == old(
                self,
            ).data@.subrange(old(self).pos as int, old(self).pos + n) && final(self).pos == old(
                self,
            ).pos + n,
            old(self).pos + n > old(self).data.len() ==> r == Err::<Vec<u8>, ErrorKind>(
                ErrorKind::TruncatedInput,
            ) && final(self).pos == old(self).pos,
    {
        if n > (self.data.len() - self.pos) as u64 {
            return Err(ErrorKind::TruncatedInput);
        }
        let start = self.pos;
        let end = start + n as usize;
        let out = slice_to_vec(slice_subrange(self.data.as_slice(), start, end));
        self.pos = end;
        Ok(out)
    }

    /// Reads a length-prefixed byte block.
    pub fn read_block(&mut self) -> (r: Result<Vec<u8>, ErrorKind>)
        requires
            old(self).wf(),
        ensures
            final(self).wf(),
            final(self).data@ == old(self).data@,
            block_end(old(self).data@, old(self).pos as int) <= old(self).data.len() ==> r is Ok
                && r->Ok_0@ == block_at(old(self).data@, old(self).pos as int) && final(self).pos
                == block_end(old(self).data@, old(self).pos as int),
            block_end(old(self).data@, old(self).pos as int) > old(self).data.len() ==> r
                == Err::<Vec<u8>, ErrorKind>(ErrorKind::TruncatedInput),
    {
        let n = self.read_u32_le()?;
        self.read_bytes(n as u64)
    }

    /// Reads a length-prefixed string, decoded permissively.
    pub fn read_string(&mut self) -> (r: Result<String, ErrorKind>)
        requires
            old(self).wf(),
        ensures
            final(self).wf(),
            final(self).data@ == old(self).data@,
            block_end(old(self).data@, old(self).pos as int) <= old(self).data.len() ==> r is Ok
                && r->Ok_0@ == lossy_utf8(block_at(old(self).data@, old(self).pos as int)) && (
                valid_utf8(block_at(old(self).data@, old(self).pos as int)) ==> r->Ok_0@
                    == decode_utf8(block_at(old(self).data@, old(self).pos as int)))
                && final(self).pos == block_end(old(self).data@, old(self).pos as int),
            block_end(old(self).data@, old(self).pos as int) > old(self).data.len() ==> r
                == Err::<String, ErrorKind>(ErrorKind::TruncatedInput),
    {
        let bytes = self.read_block()?;
        Ok(utf8_lossy(bytes.as_slice()))
    }

    /// Reads `n` bytes of zlib data and inflates them.
    pub fn extract_chunk(&mut self, n: u64) -> (r: Result<Vec<u8>, ErrorKind>)
        requires
            old(self).wf(),
        ensures
            final(self).wf(),
            final(self).data@ == old(self).data@,
            old(self).pos + n > old(self).data.len() ==> r == Err::<Vec<u8>, ErrorKind>(
                ErrorKind::TruncatedInput,
            ),
            old(self).pos + n <= old(self).data.len() ==> final(self).pos == old(self).pos + n
                && match zlib_inflate(old(self).data@.subrange(old(self).pos as int, old(self).pos + n)) {
                    Some(v) => r is Ok && r->Ok_0@ == v,
                    None => r == Err::<Vec<u8>, ErrorKind>(ErrorKind::InflateError),
                },
    {
        if n > (self.data.len() - self.pos) as u64 {
            return Err(ErrorKind::TruncatedInput);
        }
        let start = self.pos;
        let end = start + n as usize;
        let out = inflate_zlib(slice_subrange(self.data.as_slice(), start, end));
        self.pos = end;
        match out {
            Some(v) => Ok(v),
            None => Err(ErrorKind::InflateError),
        }
    }
}

} // verus!
