use ycd_animation_extractor::error::{hex_string, ReadWidth, YcdError};
use ycd_animation_extractor::resource_reader::ResourceReader;

fn reader() -> ResourceReader {
    let system = vec![0x01, 0x02, 0x03, 0x04, 0x05, 0x06, 0x07, 0x08, b'h', b'i', 0, 0xc3, 0xa9, 0];
    let graphics = vec![0xaa, 0xbb, 0xcc, 0xdd, 0xff, 0xfe, 0];
    ResourceReader::new(system, graphics)
}

#[test]
fn new_reader_starts_at_system_base() {
    let r = reader();
    assert_eq!(r.pos(), 0x5000_0000);
}

#[test]
fn reads_are_little_endian_and_advance() {
    let mut r = reader();
    assert_eq!(r.read_u8(), Ok(0x01));
    assert_eq!(r.pos(), 0x5000_0001);
    assert_eq!(r.read_u16(), Ok(0x0302));
    assert_eq!(r.pos(), 0x5000_0003);
    assert_eq!(r.read_u32(), Ok(0x0706_0504));
    assert_eq!(r.pos(), 0x5000_0007);
    r.set_pos(0x5000_0000);
    assert_eq!(r.read_u64(), Ok(0x0807_0605_0403_0201));
    assert_eq!(r.pos(), 0x5000_0008);
}

#[test]
fn graphics_stream_is_mapped_at_its_base() {
    let mut r = reader();
    r.set_pos(0x6000_0000);
    assert_eq!(r.read_u32(), Ok(0xddcc_bbaa));
    // Only the low 32 bits of an address count.
    r.set_pos(0xffff_ffff_6000_0001);
    assert_eq!(r.read_u8(), Ok(0xbb));
}

#[test]
fn read_past_end_fails_and_keeps_position() {
    let mut r = reader();
    r.set_pos(0x5000_000c);
    assert_eq!(r.read_u32(), Err(YcdError::ReadPastEnd(ReadWidth::U32)));
    assert_eq!(r.pos(), 0x5000_000c);
    assert_eq!(r.read_u64(), Err(YcdError::ReadPastEnd(ReadWidth::U64)));
    assert_eq!(r.read_u16(), Ok(0x00a9));
    r.set_pos(0x6000_0007);
    assert_eq!(r.read_u8(), Err(YcdError::ReadPastEnd(ReadWidth::U8)));
}

#[test]
fn illegal_address_is_reported() {
    let mut r = reader();
    r.set_pos(0x1234);
    assert_eq!(r.read_u16(), Err(YcdError::IllegalAddress(0x1234)));
    assert_eq!(r.pos(), 0x1234);
    assert_eq!(
        YcdError::IllegalAddress(0x1234).message(),
        "Illegal resource address: 0x1234"
    );
}

#[test]
fn at_runs_work_there_and_puts_the_cursor_back() {
    let mut r = reader();
    r.set_pos(0x5000_0002);
    assert_eq!(r.at(0x6000_0001, |rr| rr.read_u8()), Ok(0xbb));
    assert_eq!(r.pos(), 0x5000_0002);
    // The cursor comes back even when the work fails or moves it.
    assert_eq!(
        r.at(0x6000_0006, |rr| rr.read_u32()),
        Err(YcdError::ReadPastEnd(ReadWidth::U32))
    );
    assert_eq!(r.pos(), 0x5000_0002);
    let seen = r.at(0x5000_0008, |rr| {
        rr.set_pos(0x1);
        Ok(rr.pos())
    });
    assert_eq!(seen, Ok(0x1));
    assert_eq!(r.pos(), 0x5000_0002);
    // The null address is refused without running the work.
    let mut called = false;
    let res: Result<u8, YcdError> = r.at(0, |rr| {
        called = true;
        rr.read_u8()
    });
    assert_eq!(res, Err(YcdError::ZeroAddress));
    assert!(!called);
    assert_eq!(r.pos(), 0x5000_0002);
}

#[test]
fn at_reads_through_the_jump() {
    let mut r = ResourceReader::new(vec![1, 2, 3, 4, 5, 6, 7, 8], vec![]);
    assert_eq!(r.at(0x5000_0004, |rr| rr.read_u32()), Ok(0x0807_0605));
    assert_eq!(r.pos(), 0x5000_0000);
}

#[test]
fn successive_reads_add_their_widths() {
    let mut r = reader();
    r.read_u8().unwrap();
    r.read_u16().unwrap();
    r.read_u32().unwrap();
    assert_eq!(r.pos(), 0x5000_0000 + 1 + 2 + 4);
    r.set_pos(0x5000_0000);
    r.read_u64().unwrap();
    r.read_u32().unwrap();
    assert_eq!(r.pos(), 0x5000_0000 + 8 + 4);
}

#[test]
fn cstrings_are_read_up_to_nul() {
    let r = reader();
    assert_eq!(r.read_cstring_at(0x5000_0008), Some("hi".to_string()));
    assert_eq!(r.read_cstring_at(0x5000_000b), Some("é".to_string()));
    assert_eq!(r.read_cstring_at(0x5000_000a), Some(String::new()));
    // Invalid UTF-8 gives nothing.
    assert_eq!(r.read_cstring_at(0x6000_0004), None);
    assert_eq!(r.read_cstring_at(0), None);
    assert_eq!(r.read_cstring_at(0x10), None);
    // At the very end of a stream the string is empty.
    assert_eq!(r.read_cstring_at(0x6000_0007), Some(String::new()));
    assert!(r.cstring_in_range(0x6000_0007));
    assert!(!r.cstring_in_range(0x6000_0008));
    assert_eq!(r.pos(), 0x5000_0000);
}

#[test]
fn records_read_consecutive_fields() {
    let mut r = reader();
    let v = r.read_record(&[ReadWidth::U8, ReadWidth::U16, ReadWidth::U8]).unwrap();
    assert_eq!(v, vec![0x01, 0x0302, 0x04]);
    assert_eq!(r.pos(), 0x5000_0004);
    let e = r.read_record(&[ReadWidth::U64, ReadWidth::U64]);
    assert_eq!(e, Err(YcdError::ReadPastEnd(ReadWidth::U64)));
}

#[test]
fn error_messages() {
    assert_eq!(YcdError::BufferTooSmall.message(), "buffer too small");
    assert_eq!(YcdError::Rsc7HeaderTruncated.message(), "RSC7 header truncated");
    assert_eq!(YcdError::ReadPastEnd(ReadWidth::U8).message(), "read_u8 past end");
    assert_eq!(YcdError::ReadPastEnd(ReadWidth::U16).message(), "read_u16 past end");
    assert_eq!(YcdError::ReadPastEnd(ReadWidth::U32).message(), "read_u32 past end");
    assert_eq!(YcdError::ReadPastEnd(ReadWidth::U64).message(), "read_u64 past end");
    assert_eq!(YcdError::ZeroAddress.message(), "at(0)");
    assert_eq!(
        YcdError::IllegalAddress(0xdead_beef_0000_0001).message(),
        "Illegal resource address: 0xdeadbeef00000001"
    );
}

#[test]
fn hex_text() {
    assert_eq!(hex_string(0), "0");
    assert_eq!(hex_string(15), "f");
    assert_eq!(hex_string(16), "10");
    assert_eq!(hex_string(u64::MAX), "ffffffffffffffff");
    assert_eq!(hex_string(0xabc), format!("{:x}", 0xabc));
}
