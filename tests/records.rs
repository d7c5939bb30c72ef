use gm8extract::assets::{bgra_to_rgba, GMSound};
use gm8extract::error::ErrorKind;
use gm8extract::reader::ByteReader;
use gm8extract::sound::{AssetDataError, Sound, SoundFX, SoundKind, VERSION};
use gm8extract::sprite::GMSprite;

fn put_u32(b: &mut Vec<u8>, v: u32) {
    b.extend_from_slice(&v.to_le_bytes());
}

fn put_str(b: &mut Vec<u8>, s: &str) {
    put_u32(b, s.len() as u32);
    b.extend_from_slice(s.as_bytes());
}

fn sound_slot(with_data: bool) -> Vec<u8> {
    let mut b = Vec::new();
    put_u32(&mut b, 1);
    put_str(&mut b, "snd_jump");
    put_u32(&mut b, 800);
    put_u32(&mut b, 3);
    put_str(&mut b, ".wav");
    put_str(&mut b, "jump.wav");
    if with_data {
        put_u32(&mut b, 1);
        put_u32(&mut b, 3);
        b.extend_from_slice(&[7, 8, 9]);
    } else {
        put_u32(&mut b, 0);
    }
    put_u32(&mut b, 0);
    b.extend_from_slice(&0.75f64.to_le_bytes());
    b.extend_from_slice(&(-0.5f64).to_le_bytes());
    put_u32(&mut b, 1);
    b
}

fn frame(b: &mut Vec<u8>, w: u32, h: u32, declared: u32, pixels: &[u8]) {
    put_u32(b, 800);
    put_u32(b, w);
    put_u32(b, h);
    put_u32(b, declared);
    b.extend_from_slice(pixels);
}

fn collision(b: &mut Vec<u8>, w: u32, h: u32, mask: &[u32]) {
    put_u32(b, 800);
    put_u32(b, w);
    put_u32(b, h);
    put_u32(b, 0);
    put_u32(b, w - 1);
    put_u32(b, h - 1);
    put_u32(b, 0);
    for m in mask {
        put_u32(b, *m);
    }
}

fn sprite_head(name: &str, frames: u32) -> Vec<u8> {
    let mut b = Vec::new();
    put_u32(&mut b, 1);
    put_str(&mut b, name);
    put_u32(&mut b, 800);
    put_u32(&mut b, 4);
    put_u32(&mut b, 5);
    put_u32(&mut b, frames);
    b
}

#[test]
fn bgra_pixel_becomes_rgba() {
    let mut px = vec![10u8, 20, 30, 40];
    bgra_to_rgba(&mut px);
    assert_eq!(px, vec![30, 20, 10, 40]);
    bgra_to_rgba(&mut px);
    assert_eq!(px, vec![10, 20, 30, 40]);
}

#[test]
fn bgra_leaves_partial_pixel() {
    let mut px = vec![1u8, 2, 3, 4, 5, 6, 7];
    bgra_to_rgba(&mut px);
    assert_eq!(px, vec![3, 2, 1, 4, 5, 6, 7]);
}

#[test]
fn empty_sound_slot_consumes_only_flag() {
    let mut b = Vec::new();
    put_u32(&mut b, 0);
    b.extend_from_slice(&[0xAA; 12]);
    let mut r = ByteReader::new(b);
    let s = GMSound::from_raw(&mut r).unwrap();
    assert!(s.is_none());
    assert_eq!(r.pos, 4);
}

#[test]
fn sound_slot_decodes_fields() {
    let b = sound_slot(true);
    let n = b.len();
    let mut r = ByteReader::new(b);
    let s = GMSound::from_raw(&mut r).unwrap().unwrap();
    assert_eq!(s.name, "snd_jump");
    assert_eq!(s.version, 800);
    assert_eq!(s.kind, 3);
    assert_eq!(s.file_type, ".wav");
    assert_eq!(s.file_name, "jump.wav");
    assert_eq!(s.file_data, Some(vec![7, 8, 9]));
    assert_eq!(f64::from_bits(s.volume), 0.75);
    assert_eq!(f64::from_bits(s.pan), -0.5);
    assert!(s.preload);
    assert_eq!(r.pos, n);
}

#[test]
fn sound_slot_without_file() {
    let mut r = ByteReader::new(sound_slot(false));
    let s = GMSound::from_raw(&mut r).unwrap().unwrap();
    assert_eq!(s.file_data, None);
    assert_eq!(f64::from_bits(s.volume), 0.75);
}

#[test]
fn truncated_sound_slot_fails() {
    let mut b = sound_slot(true);
    b.pop();
    let mut r = ByteReader::new(b);
    assert!(matches!(GMSound::from_raw(&mut r), Err(ErrorKind::TruncatedInput)));
}

#[test]
fn sprite_with_two_frames_and_shared_mask() {
    let mut b = sprite_head("spr_ball", 2);
    frame(&mut b, 1, 2, 8, &[1, 2, 3, 4, 5, 6, 7, 8]);
    frame(&mut b, 1, 2, 8, &[11, 12, 13, 14, 15, 16, 17, 18]);
    put_u32(&mut b, 0);
    collision(&mut b, 1, 2, &[5, 0]);
    let n = b.len();
    let mut r = ByteReader::new(b);
    let s: GMSprite = GMSprite::from_raw(&mut r).unwrap().unwrap();
    assert_eq!(s.name, "spr_ball");
    assert_eq!((s.origin_x, s.origin_y), (4, 5));
    assert_eq!((s.width, s.height, s.frame_count), (1, 2, 2));
    assert_eq!(s.frames[0], vec![3, 2, 1, 4, 7, 6, 5, 8]);
    assert_eq!(s.frames[1], vec![13, 12, 11, 14, 17, 16, 15, 18]);
    assert!(!s.per_frame_colliders);
    assert_eq!(s.colliders.len(), 1);
    assert_eq!(s.colliders[0].data, vec![1, 0]);
    assert_eq!(s.colliders[0].bounds.right, 0);
    assert_eq!(s.colliders[0].bounds.bottom, 1);
    assert_eq!(r.pos, n);
}

#[test]
fn sprite_with_per_frame_masks() {
    let mut b = sprite_head("spr_two", 2);
    frame(&mut b, 1, 1, 4, &[1, 2, 3, 4]);
    frame(&mut b, 1, 1, 4, &[5, 6, 7, 8]);
    put_u32(&mut b, 1);
    collision(&mut b, 1, 1, &[0]);
    collision(&mut b, 1, 1, &[9]);
    let mut r = ByteReader::new(b);
    let s = GMSprite::from_raw(&mut r).unwrap().unwrap();
    assert!(s.per_frame_colliders);
    assert_eq!(s.colliders.len(), 2);
    assert_eq!(s.colliders[0].data, vec![0]);
    assert_eq!(s.colliders[1].data, vec![1]);
}

#[test]
fn sprite_without_frames() {
    let b = sprite_head("spr_none", 0);
    let n = b.len();
    let mut r = ByteReader::new(b);
    let s = GMSprite::from_raw(&mut r).unwrap().unwrap();
    assert!(s.frames.is_empty());
    assert!(s.colliders.is_empty());
    assert!(!s.per_frame_colliders);
    assert_eq!((s.width, s.height), (0, 0));
    assert_eq!(r.pos, n);
}

#[test]
fn empty_sprite_slot() {
    let mut b = Vec::new();
    put_u32(&mut b, 0);
    let mut r = ByteReader::new(b);
    assert!(GMSprite::from_raw(&mut r).unwrap().is_none());
    assert_eq!(r.pos, 4);
}

#[test]
fn sprite_rejects_second_frame_of_other_width() {
    let mut b = sprite_head("spr_bad", 2);
    frame(&mut b, 1, 1, 4, &[1, 2, 3, 4]);
    frame(&mut b, 2, 1, 8, &[1, 2, 3, 4, 5, 6, 7, 8]);
    put_u32(&mut b, 0);
    collision(&mut b, 1, 1, &[1]);
    let mut r = ByteReader::new(b);
    match GMSprite::from_raw(&mut r) {
        Err(ErrorKind::InconsistentFrameDimensions(name)) => assert_eq!(name, "spr_bad"),
        _ => panic!("expected InconsistentFrameDimensions"),
    }
}

#[test]
fn sprite_rejects_wrong_pixel_length() {
    let mut b = sprite_head("spr_len", 1);
    frame(&mut b, 2, 2, 15, &[0; 16]);
    put_u32(&mut b, 0);
    collision(&mut b, 2, 2, &[1, 1, 1, 1]);
    let mut r = ByteReader::new(b);
    match GMSprite::from_raw(&mut r) {
        Err(ErrorKind::InconsistentPixelDataLength(name)) => assert_eq!(name, "spr_len"),
        _ => panic!("expected InconsistentPixelDataLength"),
    }
}

#[test]
fn sprite_truncated_mask_fails() {
    let mut b = sprite_head("spr_cut", 1);
    frame(&mut b, 1, 1, 4, &[1, 2, 3, 4]);
    put_u32(&mut b, 0);
    collision(&mut b, 1, 2, &[1]);
    let mut r = ByteReader::new(b);
    assert!(matches!(GMSprite::from_raw(&mut r), Err(ErrorKind::TruncatedInput)));
}

fn sample_sound() -> Sound {
    Sound {
        name: "snd_bell".to_string(),
        source: "bell.ogg".to_string(),
        extension: ".ogg".to_string(),
        data: Some(vec![1, 2, 3, 250]),
        kind: SoundKind::BackgroundMusic,
        volume: 0.3f64.to_bits(),
        pan: (-1.0f64).to_bits(),
        preload: true,
        fx: SoundFX { chorus: true, echo: false, flanger: true, gargle: false, reverb: true },
    }
}

fn same(a: &Sound, b: &Sound) {
    assert_eq!(a.name, b.name);
    assert_eq!(a.source, b.source);
    assert_eq!(a.extension, b.extension);
    assert_eq!(a.data, b.data);
    assert_eq!(a.kind, b.kind);
    assert_eq!(a.volume, b.volume);
    assert_eq!(a.pan, b.pan);
    assert_eq!(a.preload, b.preload);
    assert_eq!(a.fx, b.fx);
}

#[test]
fn sound_record_round_trip() {
    let s = sample_sound();
    let mut out = Vec::new();
    let n = s.serialize(&mut out);
    assert_eq!(n, out.len());
    let back = Sound::deserialize(&out, true).unwrap();
    same(&s, &back);
    let loose = Sound::deserialize(&out, false).unwrap();
    same(&s, &loose);
}

#[test]
fn sound_record_round_trip_without_data() {
    let mut s = sample_sound();
    s.data = None;
    s.name = "snd_é".to_string();
    let mut out = vec![9u8];
    let n = s.serialize(&mut out);
    assert_eq!(n + 1, out.len());
    let back = Sound::deserialize(&out[1..], true).unwrap();
    same(&s, &back);
}

#[test]
fn sound_record_layout() {
    let s = sample_sound();
    let mut out = Vec::new();
    s.serialize(&mut out);
    assert_eq!(&out[0..4], &8u32.to_le_bytes());
    assert_eq!(&out[4..12], b"snd_bell");
    assert_eq!(&out[12..16], &VERSION.to_le_bytes());
    assert_eq!(&out[16..20], &1u32.to_le_bytes());
    let fx_at = out.len() - 24;
    assert_eq!(&out[fx_at..fx_at + 4], &21u32.to_le_bytes());
}

#[test]
fn strict_read_rejects_other_version() {
    let s = sample_sound();
    let mut out = Vec::new();
    s.serialize(&mut out);
    out[12] = 0x21;
    let got = u32::from_le_bytes([out[12], out[13], out[14], out[15]]);
    assert_eq!(
        Sound::deserialize(&out, true).err(),
        Some(AssetDataError::VersionError { expected: 800, got })
    );
    assert!(Sound::deserialize(&out, false).is_ok());
}

#[test]
fn truncated_sound_record_fails() {
    let s = sample_sound();
    let mut out = Vec::new();
    s.serialize(&mut out);
    out.truncate(out.len() - 1);
    assert_eq!(Sound::deserialize(&out, false).err(), Some(AssetDataError::TruncatedInput));
}

#[test]
fn sound_kind_codes() {
    assert_eq!(SoundKind::from(0), SoundKind::Normal);
    assert_eq!(SoundKind::from(1), SoundKind::BackgroundMusic);
    assert_eq!(SoundKind::from(2), SoundKind::ThreeDimensional);
    assert_eq!(SoundKind::from(3), SoundKind::Multimedia);
    assert_eq!(SoundKind::from(17), SoundKind::Normal);
    assert_eq!(SoundKind::Multimedia.code(), 3);
}
