use ycd_animation_extractor::ycd_parse::{get_flags_from_size, resource_flags_size};

#[test]
fn flags_size_of_single_fields() {
    assert_eq!(resource_flags_size(0), 0);
    assert_eq!(resource_flags_size(1 << 27), 0x200);
    assert_eq!(resource_flags_size(1 << 26), 0x400);
    assert_eq!(resource_flags_size(1 << 4), 0x200 * 256);
    assert_eq!(resource_flags_size((1 << 27) | 3), 0x200 * 8);
    // The top four bits (the version) do not count.
    assert_eq!(resource_flags_size(0xf000_0000 | (1 << 27)), 0x200);
}

#[test]
fn flags_size_maximum() {
    // Every page field full and the largest shift.
    let all = 0x0fff_fff0 | 0xf;
    assert_eq!(resource_flags_size(all), (0x200u64 << 15) * 5663);
}

#[test]
fn flags_for_small_sizes() {
    assert_eq!(get_flags_from_size(0, 0), 0);
    assert_eq!(get_flags_from_size(0, 46), 0xe000_0000);
    assert_eq!(get_flags_from_size(0, 6), 0x6000_0000);
    assert_eq!(get_flags_from_size(1000, 0), 1 << 26);
    assert_eq!(get_flags_from_size(512, 0), 1 << 27);
    assert_eq!(get_flags_from_size(513, 0), 1 << 26);
}

#[test]
fn flags_keep_version() {
    for size in [0, 1, 511, 512, 100_000, 0x80000, 0x80200, 0x7fff_ffff, -1] {
        assert_eq!(get_flags_from_size(size, 0xab) >> 28, 0xb);
    }
}

#[test]
fn flags_round_trip_small_sizes() {
    for size in [0i32, 1, 2, 511, 512, 513, 1000, 4096, 70_000, 0x7ffff, 0x80000] {
        let got = resource_flags_size(get_flags_from_size(size, 0));
        let expected = 512 * ((size as u64 + 511) / 512);
        assert_eq!(got, expected, "size {}", size);
        assert!(got >= size as u64 && got < size as u64 + 512);
    }
}

#[test]
fn flags_lose_a_block_past_1024_blocks() {
    // 1025 blocks: the count is halved to 512 and the page doubled, without rounding up.
    assert_eq!(get_flags_from_size(0x80200, 0), 0x0040_0001);
    assert_eq!(resource_flags_size(get_flags_from_size(0x80200, 0)), 0x80000);
}

#[test]
fn flags_for_negative_and_wrapping_sizes() {
    assert_eq!(get_flags_from_size(-1, 0), 0);
    // i32::MAX rounds up to 2^31 bytes = 2^22 blocks, halved 12 times to 1024.
    let f = get_flags_from_size(i32::MAX, 0);
    assert_eq!(f & 0xf, 12);
    assert_eq!(resource_flags_size(f), 1u64 << 31);
}
