use std::io::Write;

use flate2::write::{DeflateEncoder, ZlibEncoder};
use flate2::Compression;
use ycd_animation_extractor::ycd_parse::{list_clip_names, split_streams, Decompressed, WalkFault};
use ycd_animation_extractor::error::{ReadWidth, YcdError};
use ycd_animation_extractor::{decompress_ycd_buffer, parse_ycd_animations, try_parse_ycd_animations};

const SYS: u64 = 0x5000_0000;

/// Builds a system stream: file header, dictionary header, bucket array, then
/// whatever is appended.
struct Stream {
    bytes: Vec<u8>,
}

impl Stream {
    fn new(pages_ptr: u64, clips_ptr_slot: bool, capacity: u16) -> Stream {
        let mut s = Stream { bytes: Vec::new() };
        s.u32(7);
        s.u32(0);
        s.u64(pages_ptr);
        s.u32(0);
        s.u32(0);
        s.u64(0);
        s.u32(0);
        s.u32(0);
        s.u64(if clips_ptr_slot { SYS + 64 } else { 0 });
        s.u16(capacity);
        s.u16(0);
        s.u32(0);
        s.u32(0);
        s.u32(0);
        assert_eq!(s.bytes.len(), 64);
        for _ in 0..capacity {
            s.u64(0);
        }
        s
    }
    fn addr(&self) -> u64 {
        SYS + self.bytes.len() as u64
    }
    fn u16(&mut self, v: u16) {
        self.bytes.extend_from_slice(&v.to_le_bytes());
    }
    fn u32(&mut self, v: u32) {
        self.bytes.extend_from_slice(&v.to_le_bytes());
    }
    fn u64(&mut self, v: u64) {
        self.bytes.extend_from_slice(&v.to_le_bytes());
    }
    fn set_u64(&mut self, addr: u64, v: u64) {
        let off = (addr - SYS) as usize;
        self.bytes[off..off + 8].copy_from_slice(&v.to_le_bytes());
    }
    fn set_bucket(&mut self, i: u64, v: u64) {
        self.set_u64(SYS + 64 + 8 * i, v);
    }
    fn cstr(&mut self, s: &str) -> u64 {
        let a = self.addr();
        self.bytes.extend_from_slice(s.as_bytes());
        self.bytes.push(0);
        a
    }
    fn clip(&mut self, ty: u32, name_ptr: u64) -> u64 {
        let a = self.addr();
        for _ in 0..4 {
            self.u32(0);
        }
        self.u32(ty);
        self.u32(0);
        self.u64(name_ptr);
        self.u16(0);
        self.u16(0);
        self.u32(0);
        self.u64(0);
        self.u32(0);
        self.u32(0);
        self.u64(0);
        self.u64(0);
        self.u32(0);
        self.u32(0);
        if ty == 2 {
            self.u64(0);
            self.u16(0);
            self.u16(0);
        }
        a
    }
    fn entry(&mut self, clip: u64, next: u64) -> u64 {
        let a = self.addr();
        self.u32(0);
        self.u32(0);
        self.u64(clip);
        self.u64(next);
        self.u32(0);
        self.u32(0);
        a
    }
}

/// Three buckets: a chain of two entries, an empty bucket, and an entry that points at
/// itself; names repeat across chains.
fn sample() -> Vec<u8> {
    let mut s = Stream::new(0, true, 3);
    let walk = s.cstr("Anims/Walk.clip");
    let idle = s.cstr("Idle.CLIP");
    let walk2 = s.cstr("other\\WALK.anim");
    let c1 = s.clip(1, walk);
    let c2 = s.clip(2, idle);
    let c3 = s.clip(1, walk2);
    let nameless = s.clip(1, 0);
    let e2 = s.entry(c2, 0);
    let e1 = s.entry(c1, e2);
    let e3 = s.entry(c3, 0);
    s.set_u64(e3 + 16, e3);
    let e4 = s.entry(nameless, 0);
    let e5 = s.entry(0, e4);
    s.set_u64(e2 + 16, e5);
    s.set_bucket(0, e1);
    s.set_bucket(2, e3);
    s.bytes
}

fn rsc7(system_flags: u32, graphics_flags: u32, body: &[u8]) -> Vec<u8> {
    let mut v = b"RSC7".to_vec();
    v.extend_from_slice(&46u32.to_le_bytes());
    v.extend_from_slice(&system_flags.to_le_bytes());
    v.extend_from_slice(&graphics_flags.to_le_bytes());
    v.extend_from_slice(body);
    v
}

fn zlib(data: &[u8]) -> Vec<u8> {
    let mut e = ZlibEncoder::new(Vec::new(), Compression::default());
    e.write_all(data).unwrap();
    e.finish().unwrap()
}

fn deflate(data: &[u8]) -> Vec<u8> {
    let mut e = DeflateEncoder::new(Vec::new(), Compression::default());
    e.write_all(data).unwrap();
    e.finish().unwrap()
}

#[test]
fn lists_names_of_uncompressed_dictionary() {
    let r = parse_ycd_animations(&sample());
    assert_eq!(r.error, None);
    assert_eq!(r.animations, vec!["idle".to_string(), "walk".to_string()]);
}

#[test]
fn lists_names_of_rsc7_zlib_dictionary() {
    let mut system = sample();
    system.resize(1024, 0);
    let input = rsc7(1 << 26, 0, &zlib(&system));
    let dc = decompress_ycd_buffer(&input).unwrap();
    assert_eq!(dc.system, system);
    assert!(dc.graphics.is_empty());
    let r = parse_ycd_animations(&input);
    assert_eq!(r.error, None);
    assert_eq!(r.animations, vec!["idle", "walk"]);
}

#[test]
fn lists_names_of_raw_deflate_dictionary() {
    let system = sample();
    let input = deflate(&system);
    let dc = decompress_ycd_buffer(&input).unwrap();
    assert_eq!(dc.system, system);
    let r = parse_ycd_animations(&input);
    assert_eq!(r.animations, vec!["idle", "walk"]);
}

#[test]
fn names_in_the_graphics_stream() {
    let mut graphics = Vec::new();
    graphics.extend_from_slice(b"Gfx/Jump.clip\0");
    let mut s = Stream::new(0, true, 1);
    let c = s.clip(1, 0x6000_0000);
    let e = s.entry(c, 0);
    s.set_bucket(0, e);
    let names = list_clip_names(Decompressed { system: s.bytes, graphics }).unwrap();
    assert_eq!(names, vec!["jump"]);
}

#[test]
fn empty_clip_map() {
    let s = Stream::new(0, false, 4);
    let r = parse_ycd_animations(&s.bytes);
    assert_eq!(r.error, None);
    assert!(r.animations.is_empty());
    let s = Stream::new(0, true, 0);
    let r = parse_ycd_animations(&s.bytes);
    assert_eq!(r.error, None);
    assert!(r.animations.is_empty());
}

#[test]
fn page_table_must_be_readable() {
    let mut s = Stream::new(0, true, 1);
    let pages = s.addr();
    for _ in 0..4 {
        s.u32(0);
    }
    s.set_u64(SYS + 8, pages);
    assert_eq!(parse_ycd_animations(&s.bytes).error, None);
    s.set_u64(SYS + 8, 0x1000);
    let r = parse_ycd_animations(&s.bytes);
    assert_eq!(r.error, Some("Illegal resource address: 0x1000".to_string()));
    assert!(r.animations.is_empty());
}

#[test]
fn bad_clip_map_address_is_an_error() {
    let mut s = Stream::new(0, true, 1);
    s.set_u64(SYS + 40, 0x1234);
    let r = parse_ycd_animations(&s.bytes);
    assert_eq!(r.error, Some("Illegal resource address: 0x1234".to_string()));
    assert!(r.animations.is_empty());
}

#[test]
fn truncated_bucket_array_is_an_error() {
    let mut s = Stream::new(0, true, 1);
    s.set_u64(SYS + 40, SYS + 68);
    let r = parse_ycd_animations(&s.bytes);
    assert_eq!(r.error, Some("read_u64 past end".to_string()));
}

#[test]
fn errors_discard_names_already_found() {
    let mut s = Stream::new(0, true, 2);
    let n = s.cstr("keep.clip");
    let c = s.clip(1, n);
    let e = s.entry(c, 0);
    s.set_bucket(0, e);
    s.set_bucket(1, 0x7);
    let r = parse_ycd_animations(&s.bytes);
    assert_eq!(r.error, Some("Illegal resource address: 0x7".to_string()));
    assert!(r.animations.is_empty());
}

#[test]
fn name_address_past_stream_end_is_refused() {
    let mut s = Stream::new(0, true, 1);
    let c = s.clip(1, SYS + 0xf000);
    let e = s.entry(c, 0);
    s.set_bucket(0, e);
    assert!(try_parse_ycd_animations(&s.bytes).is_none());
    assert!(try_parse_ycd_animations(&sample()).is_some());
}

#[test]
fn walk_fault_kinds() {
    let mut s = Stream::new(0, true, 1);
    let c = s.clip(1, SYS + 0xf000);
    let e = s.entry(c, 0);
    s.set_bucket(0, e);
    let dc = Decompressed { system: s.bytes, graphics: Vec::new() };
    assert_eq!(list_clip_names(dc).err(), Some(WalkFault::NameOutsideStream));
    let dc = Decompressed { system: vec![0; 4], graphics: Vec::new() };
    assert_eq!(
        list_clip_names(dc).err(),
        Some(WalkFault::Error(YcdError::ReadPastEnd(ReadWidth::U32)))
    );
}

#[test]
fn short_buffers() {
    let r = parse_ycd_animations(&[1, 2, 3]);
    assert_eq!(r.error, Some("buffer too small".to_string()));
    assert!(r.animations.is_empty());
    let r = parse_ycd_animations(b"RSC7\0\0\0\0");
    assert_eq!(r.error, Some("RSC7 header truncated".to_string()));
    assert!(matches!(decompress_ycd_buffer(&[]), Err(YcdError::BufferTooSmall)));
}

#[test]
fn raw_body_becomes_the_system_stream() {
    let data: Vec<u8> = (0..1000u32).map(|i| (i % 251) as u8 | 0x07).collect();
    let dc = decompress_ycd_buffer(&data).unwrap();
    assert_eq!(dc.system, data);
    assert!(dc.graphics.is_empty());
}

#[test]
fn split_by_declared_flags() {
    let data: Vec<u8> = (0..2048u32).map(|i| i as u8).collect();
    // 512-byte system stream, 1024-byte graphics stream.
    let d = split_streams(&data, Some((1 << 27, 1 << 26)));
    assert_eq!(d.system, data[..512].to_vec());
    assert_eq!(d.graphics, data[512..1536].to_vec());
    // Declared streams that do not fit fall back to flags computed from the size.
    let d = split_streams(&data, Some((1 << 26, 1 << 26 | 1 << 27)));
    assert_eq!(d.system, data);
    assert!(d.graphics.is_empty());
    // Without a header, 1000 bytes round up to 1024: too much, so all data is system.
    let d = split_streams(&data[..1000], None);
    assert_eq!(d.system.len(), 1000);
    let d = split_streams(&data[..1024], None);
    assert_eq!(d.system.len(), 1024);
    assert!(d.graphics.is_empty());
}
