//! The page-size flags of an RSC7 resource header: how they encode the size of the
//! system and graphics streams.
use vstd::prelude::*;
use vstd::arithmetic::power2::{pow2, lemma2_to64};
use vstd::bits::lemma_u64_shl_is_mul;

verus! {

/// Number of pages the flags describe, each field weighted by its page multiple.
pub open spec fn page_count(flags: u32) -> int {
    ((flags >> 27) & 0x1) + 2 * ((flags >> 26) & 0x1) + 4 * ((flags >> 25) & 0x1) + 8 * ((flags
        >> 24) & 0x1) + 16 * ((flags >> 17) & 0x7f) + 32 * ((flags >> 11) & 0x3f) + 64 * ((flags
        >> 7) & 0xf) + 128 * ((flags >> 5) & 0x3) + 256 * ((flags >> 4) & 0x1)
}

/// Size of the base page: 512 bytes shifted left by the low four bits of the flags.
pub open spec fn base_page_size(flags: u32) -> int {
    (0x200 * pow2((flags & 0xf) as nat)) as int
}

/// Size in bytes of the stream that `flags` describe.
pub open spec fn flags_size_spec(flags: u32) -> int {
    base_page_size(flags) * page_count(flags)
}

/// Number of 512-byte blocks a stream of `size` bytes takes, `size` being taken as
/// an unsigned 32-bit number and the count kept in 23 bits.
pub open spec fn block_count(size: i32) -> int {
    (((size as u32) + 511) / 512) % 0x80_0000
}

/// How many times the block count is halved before it fits in 1024.
pub open spec fn size_shift(blocks: int) -> nat
    decreases blocks,
{
    if blocks > 1024 {
        1 + size_shift(blocks / 2)
    } else {
        0
    }
}

/// The block count after those halvings.
pub open spec fn shifted_blocks(blocks: int) -> int
    decreases blocks,
{
    if blocks > 1024 {
        shifted_blocks(blocks / 2)
    } else {
        blocks
    }
}

/// Flags for a version, an (already shifted) block count and a shift.
pub open spec fn encode_flags(version: u32, blocks: u32, shift: u32) -> u32 {
    ((version & 0xf) << 28) | ((blocks & 0x1) << 27) | (((blocks >> 1) & 0x1) << 26) | (((blocks
        >> 2) & 0x1) << 25) | (((blocks >> 3) & 0x1) << 24) | (((blocks >> 4) & 0x7f) << 17) | (
    shift & 0xf)
}

/// The flags that describe a stream of `size` bytes, for a resource `version`.
pub open spec fn flags_for_size(size: i32, version: u32) -> u32 {
    let blocks = block_count(size);
    encode_flags(version, shifted_blocks(blocks) as u32, size_shift(blocks) as u32)
}


proof fn lemma_shifted_blocks_bound(b: int)
    requires
        b >= 0,
    ensures
        0 <= shifted_blocks(b) <= 1024,
        shifted_blocks(b) <= b,
    decreases b,
{
    if b > 1024 {
        lemma_shifted_blocks_bound(b / 2);
    }
}

proof fn lemma_size_shift_bound(b: int, n: nat)
    requires
        0 <= b <= 1024 * pow2(n),
    ensures
        size_shift(b) <= n,
    decreases n,
{
    if b > 1024 {
        if n == 0 {
            lemma2_to64();
        } else {
            vstd::arithmetic::power2::lemma_pow2_unfold(n);
            lemma_size_shift_bound(b / 2, (n - 1) as nat);
        }
    }
}

/// Block count and shift recombine: the shifted count times two to the shift never
/// exceeds the original count.
proof fn lemma_shift_recombines(b: int)
    requires
        b >= 0,
    ensures
        pow2(size_shift(b)) * shifted_blocks(b) <= b,
    decreases b,
{
    if b > 1024 {
        lemma_shift_recombines(b / 2);
        vstd::arithmetic::power2::lemma_pow2_unfold(size_shift(b));
        let k = size_shift(b / 2);
        let m = shifted_blocks(b / 2);
        assert(pow2(k + 1) == 2 * pow2(k));
        assert(size_shift(b) == k + 1);
        assert(shifted_blocks(b) == m);
        assert(pow2(k + 1) * m == 2 * (pow2(k) * m)) by (nonlinear_arith)
            requires
                pow2(k + 1) == 2 * pow2(k),
        ;
        assert(2 * (b / 2) <= b);
        assert(pow2(k) * m <= b / 2);
        assert(pow2(k + 1) * m <= b);
    } else {
        lemma2_to64();
        assert(size_shift(b) == 0);
        assert(shifted_blocks(b) == b);
        assert(pow2(0) * b == b);
    }
}

proof fn lemma_decode_encode(version: u32, blocks: u32, shift: u32)
    requires
        blocks <= 2047,
        shift <= 15,
    ensures
        page_count(encode_flags(version, blocks, shift)) == blocks,
        encode_flags(version, blocks, shift) & 0xf == shift,
        encode_flags(version, blocks, shift) >> 28 == version & 0xf,
{
    let f = encode_flags(version, blocks, shift);
    assert(((f >> 27) & 0x1) + 2 * ((f >> 26) & 0x1) + 4 * ((f >> 25) & 0x1) + 8 * ((f >> 24)
        & 0x1) + 16 * ((f >> 17) & 0x7f) + 32 * ((f >> 11) & 0x3f) + 64 * ((f >> 7) & 0xf) + 128
        * ((f >> 5) & 0x3) + 256 * ((f >> 4) & 0x1) == blocks && f & 0xf == shift && f >> 28
        == version & 0xf) by (bit_vector)
        requires
            blocks <= 2047,
            shift <= 15,
            f == ((version & 0xf) << 28) | ((blocks & 0x1) << 27) | (((blocks >> 1) & 0x1) << 26)
                | (((blocks >> 2) & 0x1) << 25) | (((blocks >> 3) & 0x1) << 24) | (((blocks >> 4)
                & 0x7f) << 17) | (shift & 0xf),
    ;
}

/// The flags computed for any size keep the low four bits of the version in their
/// top four bits.
pub proof fn lemma_flags_keep_version(size: i32, version: u32)
    ensures
        flags_for_size(size, version) >> 28 == version & 0xf,
{
    let blocks = block_count(size);
    lemma2_to64();
    lemma_size_shift_bound(blocks, 13);
    lemma_shifted_blocks_bound(blocks);
    lemma_decode_encode(version, shifted_blocks(blocks) as u32, size_shift(blocks) as u32);
}

/// Reading back the size of the flags computed for `size` gives 512-byte pages,
/// shifted as the block count was, times the shifted block count; this never exceeds
/// 512 bytes per block of the original count.
pub proof fn lemma_flags_size_roundtrip(size: i32, version: u32)
    ensures
        flags_size_spec(flags_for_size(size, version)) == 0x200 * pow2(
            size_shift(block_count(size)),
        ) * shifted_blocks(block_count(size)),
        flags_size_spec(flags_for_size(size, version)) <= 0x200 * block_count(size),
{
    let blocks = block_count(size);
    lemma2_to64();
    lemma_size_shift_bound(blocks, 13);
    lemma_shifted_blocks_bound(blocks);
    let ss = size_shift(blocks);
    let sb = shifted_blocks(blocks);
    lemma_decode_encode(version, sb as u32, ss as u32);
    lemma_shift_recombines(blocks);
    let f = flags_for_size(size, version);
    assert(f & 0xf == ss as u32);
    assert(page_count(f) == sb);
    assert(0x200 * pow2(ss) * sb == 0x200 * (pow2(ss) * sb)) by (nonlinear_arith);
}

/// For sizes up to 512 KiB the flags describe exactly the size rounded up to a
/// whole number of 512-byte pages.
pub proof fn lemma_flags_size_exact_when_small(size: i32, version: u32)
    requires
        0 <= size <= 0x80000,
    ensures
        flags_size_spec(flags_for_size(size, version)) == 0x200 * ((size + 511) / 512),
        size <= flags_size_spec(flags_for_size(size, version)) < size + 512,
{
    let blocks = block_count(size);
    assert(blocks == (size + 511) / 512);
    assert(blocks <= 1024);
    lemma_flags_size_roundtrip(size, version);
    lemma2_to64();
}

/// The page layout of the flags: bit 27 counts one page, bit 26 two, bit 25 four,
/// bit 24 eight, bits 17..23 sixteen each, bits 11..16 thirty-two each, bits 7..10
/// sixty-four each, bits 5..6 one hundred and twenty-eight each and bit 4 two hundred
/// and fifty-six; a page is 512 bytes shifted left by the low four bits. Flags built
/// from field values this way describe exactly that many bytes.
pub proof fn lemma_flags_layout(
    a0: u32,
    a1: u32,
    a2: u32,
    a3: u32,
    a4: u32,
    a5: u32,
    a6: u32,
    a7: u32,
    a8: u32,
    shift: u32,
)
    requires
        a0 < 2,
        a1 < 2,
        a2 < 2,
        a3 < 2,
        a4 < 128,
        a5 < 64,
        a6 < 16,
        a7 < 4,
        a8 < 2,
        shift < 16,
    ensures
        flags_size_spec(
            (a0 << 27) | (a1 << 26) | (a2 << 25) | (a3 << 24) | (a4 << 17) | (a5 << 11) | (a6 << 7)
                | (a7 << 5) | (a8 << 4) | shift,
        ) == 0x200 * pow2(shift as nat) * (a0 + 2 * a1 + 4 * a2 + 8 * a3 + 16 * a4 + 32 * a5
            + 64 * a6 + 128 * a7 + 256 * a8),
{
    let f = (a0 << 27) | (a1 << 26) | (a2 << 25) | (a3 << 24) | (a4 << 17) | (a5 << 11) | (a6
        << 7) | (a7 << 5) | (a8 << 4) | shift;
    assert(((f >> 27) & 0x1) == a0 && ((f >> 26) & 0x1) == a1 && ((f >> 25) & 0x1) == a2 && ((f
        >> 24) & 0x1) == a3 && ((f >> 17) & 0x7f) == a4 && ((f >> 11) & 0x3f) == a5 && ((f >> 7)
        & 0xf) == a6 && ((f >> 5) & 0x3) == a7 && ((f >> 4) & 0x1) == a8 && (f & 0xf) == shift)
        by (bit_vector)
        requires
            a0 < 2,
            a1 < 2,
            a2 < 2,
            a3 < 2,
            a4 < 128,
            a5 < 64,
            a6 < 16,
            a7 < 4,
            a8 < 2,
            shift < 16,
            f == (a0 << 27) | (a1 << 26) | (a2 << 25) | (a3 << 24) | (a4 << 17) | (a5 << 11) | (
            a6 << 7) | (a7 << 5) | (a8 << 4) | shift,
    ;
    let n = a0 + 2 * a1 + 4 * a2 + 8 * a3 + 16 * a4 + 32 * a5 + 64 * a6 + 128 * a7 + 256 * a8;
    assert(page_count(f) == n);
    assert(base_page_size(f) == 0x200 * pow2(shift as nat));
    assert(0x200 * pow2(shift as nat) * n == (0x200 * pow2(shift as nat)) as int * n);
}

/// The top four bits of the flags (the resource version) do not change the size.
pub proof fn lemma_flags_size_ignores_version(flags: u32)
    ensures
        flags_size_spec(flags) == flags_size_spec(flags & 0x0fff_ffff),
{
    let g = flags & 0x0fff_ffff;
    assert(((flags >> 27) & 0x1) == ((g >> 27) & 0x1) && ((flags >> 26) & 0x1) == ((g >> 26)
        & 0x1) && ((flags >> 25) & 0x1) == ((g >> 25) & 0x1) && ((flags >> 24) & 0x1) == ((g
        >> 24) & 0x1) && ((flags >> 17) & 0x7f) == ((g >> 17) & 0x7f) && ((flags >> 11) & 0x3f)
        == ((g >> 11) & 0x3f) && ((flags >> 7) & 0xf) == ((g >> 7) & 0xf) && ((flags >> 5) & 0x3)
        == ((g >> 5) & 0x3) && ((flags >> 4) & 0x1) == ((g >> 4) & 0x1) && (flags & 0xf) == (g
        & 0xf)) by (bit_vector)
        requires
            g == flags & 0x0fff_ffff,
    ;
}

/// Size in bytes of a stream described by `flags`.
pub fn resource_flags_size(flags: u32) -> (r: u64)
    ensures
        r == flags_size_spec(flags),
        r <= 0x1000000 * 5663,
{
    let s0 = ((flags >> 27) & 0x1) << 0;
    let s1 = ((flags >> 26) & 0x1) << 1;
    let s2 = ((flags >> 25) & 0x1) << 2;
    let s3 = ((flags >> 24) & 0x1) << 3;
    let s4 = ((flags >> 17) & 0x7f) << 4;
    let s5 = ((flags >> 11) & 0x3f) << 5;
    let s6 = ((flags >> 7) & 0xf) << 6;
    let s7 = ((flags >> 5) & 0x3) << 7;
    let s8 = ((flags >> 4) & 0x1) << 8;
    let ss = flags & 0xf;
    assert(s0 + s1 + s2 + s3 + s4 + s5 + s6 + s7 + s8 == page_count(flags)
        && page_count(flags) <= 5663) by (bit_vector)
        requires
            s0 == ((flags >> 27) & 0x1) << 0,
            s1 == ((flags >> 26) & 0x1) << 1,
            s2 == ((flags >> 25) & 0x1) << 2,
            s3 == ((flags >> 24) & 0x1) << 3,
            s4 == ((flags >> 17) & 0x7f) << 4,
            s5 == ((flags >> 11) & 0x3f) << 5,
            s6 == ((flags >> 7) & 0xf) << 6,
            s7 == ((flags >> 5) & 0x3) << 7,
            s8 == ((flags >> 4) & 0x1) << 8,
    ;
    assert(ss <= 15) by (bit_vector)
        requires
            ss == flags & 0xf,
    ;
    proof {
        lemma2_to64();
        assert(pow2(ss as nat) <= 0x8000) by {
            vstd::arithmetic::power2::lemma_pow2_strictly_increases(ss as nat, 16);
        }
        lemma_u64_shl_is_mul(0x200u64, ss as u64);
    }
    let base_size = 0x200u64 << ss;
    let sum: u64 = (s0 + s1 + s2 + s3 + s4 + s5 + s6 + s7 + s8) as u64;
    assert(base_size * sum <= 0x1000000 * 5663) by (nonlinear_arith)
        requires
            base_size <= 0x1000000,
            sum <= 5663,
    ;
    base_size * sum
}

/// The flags that describe a stream of `size` bytes for resource `version`.
/// When more than 1024 blocks are needed the block count is halved and the page
/// shift raised, without rounding the count up again.
pub fn get_flags_from_size(size: i32, version: u32) -> (f: u32)
    ensures
        f == flags_for_size(size, version),
{
    let u = size as u32;
    let remainder = u & 0x1ff;
    let rounded = if remainder != 0 {
        assert(u - remainder >= 0) by (bit_vector)
            requires
                remainder == u & 0x1ff,
        ;
        (((u - remainder) as u64) + 0x200) as u32
    } else {
        u
    };
    let mut blockcount = rounded >> 9;
    assert(blockcount == ((u as int + 511) / 512) % 0x80_0000 && blockcount < 0x80_0000)
        by (bit_vector)
        requires
            remainder == u & 0x1ff,
            rounded == (if remainder != 0 {
                ((u - remainder) + 0x200) as u32
            } else {
                u
            }),
            blockcount == rounded >> 9,
    ;
    let ghost blocks = blockcount as int;
    assert((0x80_0000u32 >> 0u32) == 0x80_0000u32) by (bit_vector);
    let mut ss: u32 = 0;
    while blockcount > 1024
        invariant
            ss <= 23,
            blockcount < (0x80_0000u32 >> ss),
            size_shift(blocks) == ss + size_shift(blockcount as int),
            shifted_blocks(blocks) == shifted_blocks(blockcount as int),
        decreases blockcount,
    {
        assert(ss + 1 <= 23 && (blockcount >> 1) < (0x80_0000u32 >> ((ss + 1) as u32)) && (blockcount
            >> 1) == blockcount / 2) by (bit_vector)
            requires
                ss <= 23,
                blockcount > 1024,
                blockcount < (0x80_0000u32 >> ss),
        ;
        ss += 1;
        blockcount >>= 1;
    }
    let s0 = (blockcount >> 0) & 0x1;
    let s1 = (blockcount >> 1) & 0x1;
    let s2 = (blockcount >> 2) & 0x1;
    let s3 = (blockcount >> 3) & 0x1;
    let s4 = (blockcount >> 4) & 0x7f;
    let mut f = 0u32;
    f |= (version & 0xf) << 28;
    f |= (s0 & 0x1) << 27;
    f |= (s1 & 0x1) << 26;
    f |= (s2 & 0x1) << 25;
    f |= (s3 & 0x1) << 24;
    f |= (s4 & 0x7f) << 17;
    f |= ss & 0xf;
    assert(f == encode_flags(version, blockcount, ss)) by (bit_vector)
        requires
            f == ((((((0u32 | ((version & 0xf) << 28)) | ((((blockcount >> 0) & 0x1) & 0x1) << 27))
                | ((((blockcount >> 1) & 0x1) & 0x1) << 26)) | ((((blockcount >> 2) & 0x1) & 0x1)
                << 25)) | ((((blockcount >> 3) & 0x1) & 0x1) << 24)) | ((((blockcount >> 4) & 0x7f)
                & 0x7f) << 17)) | (ss & 0xf),
    ;
    f
}

} // verus!
