use std::io::Write;

use flate2::write::{DeflateEncoder, ZlibEncoder};
use flate2::Compression;
use ycd_animation_extractor::inflate::{choose_inflated, try_zlib_inflate};

#[test]
fn zlib_body_is_inflated() {
    let data = b"clip dictionary payload".repeat(20);
    let mut e = ZlibEncoder::new(Vec::new(), Compression::best());
    e.write_all(&data).unwrap();
    let packed = e.finish().unwrap();
    assert_ne!(packed, data);
    assert_eq!(try_zlib_inflate(&packed), Some(data));
}

#[test]
fn raw_deflate_body_is_inflated() {
    let data = b"another payload".repeat(10);
    let mut e = DeflateEncoder::new(Vec::new(), Compression::fast());
    e.write_all(&data).unwrap();
    let packed = e.finish().unwrap();
    assert_eq!(try_zlib_inflate(&packed), Some(data));
}

#[test]
fn garbage_does_not_inflate() {
    assert_eq!(try_zlib_inflate(&[0x07, 0x00, 0x01, 0x02]), None);
    assert_eq!(try_zlib_inflate(&[]), None);
}

#[test]
fn empty_output_counts_as_nothing() {
    assert_eq!(choose_inflated(Some(vec![1, 2]), Some(vec![3])), Some(vec![1, 2]));
    assert_eq!(choose_inflated(Some(vec![]), Some(vec![3])), Some(vec![3]));
    assert_eq!(choose_inflated(None, Some(vec![])), None);
    assert_eq!(choose_inflated(None, None), None);
}
