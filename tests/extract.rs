use std::io::Write;

use gm8extract::decrypt::{build_reverse_table, decrypt_region};
use gm8extract::error::ErrorKind;
use gm8extract::parser::{Game, SectionPolicy, GM80_MAGIC, GM80_MAGIC_POS};
use gm8extract::reader::ByteReader;

fn put_u32(b: &mut Vec<u8>, v: u32) {
    b.extend_from_slice(&v.to_le_bytes());
}

fn put_str(b: &mut Vec<u8>, s: &str) {
    put_u32(b, s.len() as u32);
    b.extend_from_slice(s.as_bytes());
}

fn zlib(data: &[u8]) -> Vec<u8> {
    let mut e = flate2::write::ZlibEncoder::new(Vec::new(), flate2::Compression::default());
    e.write_all(data).unwrap();
    e.finish().unwrap()
}

fn swap_table() -> Vec<u8> {
    (0..256u32).map(|i| ((i * 7 + 3) % 256) as u8).collect()
}

/// Scrambles `data[pos..pos + len]` so that decryption gives it back.
fn encrypt(data: &mut [u8], swap: &[u8], pos: usize, len: usize) {
    if len >= 2 {
        for i in pos..=pos + len - 2 {
            let s = swap[(i - pos) % 256] as usize;
            let b = if i - pos < s { pos } else { i - s };
            data.swap(i, b);
        }
    }
    for j in pos + 1..pos + len {
        let v = data[j]
            .wrapping_add(data[j - 1])
            .wrapping_add(((j - pos) % 256) as u8);
        data[j] = swap[v as usize];
    }
}

#[test]
fn reverse_table_inverts_swap_table() {
    let swap = swap_table();
    let rev = build_reverse_table(&swap);
    for x in 0..256usize {
        assert_eq!(rev[swap[x] as usize] as usize, x);
        assert_eq!(swap[rev[x] as usize] as usize, x);
    }
}

#[test]
fn decryption_restores_plaintext() {
    let swap = swap_table();
    let plain: Vec<u8> = (0..700u32).map(|i| (i * 31 % 251) as u8).collect();
    let mut data = plain.clone();
    encrypt(&mut data, &swap, 5, 690);
    assert_ne!(data, plain);
    decrypt_region(&mut data, &swap, 5, 690);
    assert_eq!(data, plain);
}

#[test]
fn decryption_of_tiny_regions() {
    let swap = swap_table();
    let mut one = vec![1u8, 2, 3];
    decrypt_region(&mut one, &swap, 1, 1);
    assert_eq!(one, vec![1, 2, 3]);
    let mut none = vec![4u8, 5];
    decrypt_region(&mut none, &swap, 2, 0);
    assert_eq!(none, vec![4, 5]);
}

fn sound_record() -> Vec<u8> {
    let mut b = Vec::new();
    put_u32(&mut b, 1);
    put_str(&mut b, "snd_hit");
    put_u32(&mut b, 800);
    put_u32(&mut b, 0);
    put_str(&mut b, ".wav");
    put_str(&mut b, "hit.wav");
    put_u32(&mut b, 0);
    put_u32(&mut b, 0);
    b.extend_from_slice(&1.0f64.to_le_bytes());
    b.extend_from_slice(&0.0f64.to_le_bytes());
    put_u32(&mut b, 0);
    b
}

fn container(extension_count: u32, magic: u32) -> Vec<u8> {
    let mut exe = vec![0u8; GM80_MAGIC_POS];
    exe[0] = b'M';
    exe[1] = b'Z';
    put_u32(&mut exe, magic);
    exe.extend_from_slice(&[0u8; 12]);
    let settings = zlib(&[1, 2, 3]);
    put_u32(&mut exe, settings.len() as u32);
    exe.extend_from_slice(&settings);
    put_str(&mut exe, "D3DX8.dll");
    put_u32(&mut exe, 2);
    exe.extend_from_slice(&[0xEE, 0xEE]);
    put_u32(&mut exe, 1);
    put_u32(&mut exe, 2);
    exe.extend_from_slice(&[0x11; 4]);
    let swap = swap_table();
    exe.extend_from_slice(&swap);
    exe.extend_from_slice(&[0x22; 8]);
    let mut region = Vec::new();
    put_u32(&mut region, 1);
    region.extend_from_slice(&[0x33; 28]);
    for count in [extension_count, 0, 0] {
        put_u32(&mut region, 700);
        put_u32(&mut region, count);
    }
    put_u32(&mut region, 800);
    put_u32(&mut region, 1);
    let chunk = zlib(&sound_record());
    put_u32(&mut region, chunk.len() as u32);
    region.extend_from_slice(&chunk);
    put_u32(&mut region, 800);
    put_u32(&mut region, 0);
    put_u32(&mut exe, region.len() as u32);
    let pos = exe.len();
    let len = region.len();
    exe.extend_from_slice(&region);
    encrypt(&mut exe, &swap, pos, len);
    exe
}

#[test]
fn minimal_container_yields_one_sound() {
    let game = Game::from_exe(container(0, GM80_MAGIC), SectionPolicy::Reject).unwrap();
    assert_eq!(game.sounds.len(), 1);
    assert!(game.sprites.is_empty());
    let s = game.sounds[0].as_ref().unwrap();
    assert_eq!(s.name, "snd_hit");
    assert_eq!(s.file_name, "hit.wav");
    assert_eq!(f64::from_bits(s.volume), 1.0);
}

#[test]
fn bad_header_is_rejected() {
    let mut exe = container(0, GM80_MAGIC);
    exe[0] = b'P';
    let e = Game::from_exe(exe, SectionPolicy::Reject).err().unwrap();
    assert_eq!(*e.kind(), ErrorKind::InvalidExeHeader);
    let e = Game::from_exe(vec![b'M'], SectionPolicy::Reject).err().unwrap();
    assert_eq!(*e.kind(), ErrorKind::InvalidExeHeader);
}

#[test]
fn bad_magic_is_rejected() {
    let e = Game::from_exe(container(0, 1234320), SectionPolicy::Reject).err().unwrap();
    assert_eq!(*e.kind(), ErrorKind::InvalidMagic);
}

#[test]
fn short_file_is_truncated() {
    let e = Game::from_exe(vec![b'M', b'Z', 0, 0], SectionPolicy::Reject).err().unwrap();
    assert_eq!(*e.kind(), ErrorKind::TruncatedInput);
}

#[test]
fn non_empty_extension_section_follows_policy() {
    let e = Game::from_exe(container(2, GM80_MAGIC), SectionPolicy::Reject).err().unwrap();
    assert_eq!(*e.kind(), ErrorKind::UnsupportedSection);
    let game = Game::from_exe(container(2, GM80_MAGIC), SectionPolicy::AssumeEmpty).unwrap();
    assert_eq!(game.sounds.len(), 1);
}

#[test]
fn reader_reads_little_endian_and_strings() {
    let mut b = Vec::new();
    put_u32(&mut b, 0x0403_0201);
    put_str(&mut b, "ab\u{e9}");
    b.extend_from_slice(&[2, 0, 0, 0, 0xff, 0x41]);
    let mut r = ByteReader::new(b);
    assert_eq!(r.read_u32_le(), Ok(0x0403_0201));
    assert_eq!(r.read_string().unwrap(), "ab\u{e9}");
    assert_eq!(r.read_string().unwrap(), "\u{fffd}A");
    assert_eq!(r.remaining(), 0);
    assert_eq!(r.read_u8(), Err(ErrorKind::TruncatedInput));
}

#[test]
fn reader_skip_past_end_is_out_of_bounds() {
    let mut r = ByteReader::new(vec![1, 2, 3]);
    assert_eq!(r.skip(4), Err(ErrorKind::OutOfBounds));
    assert_eq!(r.pos, 0);
    assert_eq!(r.skip(3), Ok(()));
    assert_eq!(r.read_u32_le(), Err(ErrorKind::TruncatedInput));
}

#[test]
fn chunk_inflates_and_advances_by_declared_length() {
    let packed = zlib(b"hello chunk");
    let mut b = packed.clone();
    b.push(0x99);
    let mut r = ByteReader::new(b);
    assert_eq!(r.extract_chunk(packed.len() as u64).unwrap(), b"hello chunk".to_vec());
    assert_eq!(r.pos, packed.len());
}

#[test]
fn malformed_chunk_is_inflate_error() {
    let mut r = ByteReader::new(vec![0xde, 0xad, 0xbe, 0xef]);
    assert_eq!(r.extract_chunk(4), Err(ErrorKind::InflateError));
    let mut r = ByteReader::new(vec![1, 2]);
    assert_eq!(r.extract_chunk(3), Err(ErrorKind::TruncatedInput));
}

#[test]
fn reader_seeks_both_ways() {
    let mut r = ByteReader::new(vec![1, 2, 3, 4, 5]);
    assert_eq!(r.seek_relative(4), Ok(()));
    assert_eq!(r.seek_relative(-3), Ok(()));
    assert_eq!(r.pos, 1);
    assert_eq!(r.seek_relative(-2), Err(ErrorKind::OutOfBounds));
    assert_eq!(r.seek_relative(5), Err(ErrorKind::OutOfBounds));
    assert_eq!(r.seek_relative(i64::MIN), Err(ErrorKind::OutOfBounds));
    assert_eq!(r.pos, 1);
    assert_eq!(r.read_u8(), Ok(2));
}
