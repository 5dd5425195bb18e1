//! GTA V `.ycd` (clip dictionary) parsing, following the ClipDictionary layout.
use vstd::prelude::*;
use vstd::bytes::*;
use vstd::slice::{slice_subrange, slice_to_vec};
use crate::error::{ReadWidth, YcdError, error_text};
use crate::name_set::{NameSet, strictly_sorted};
use crate::resource_reader::{
    ResourceReader, SYSTEM_BASE, read_record, read_spec, record_end, record_size, cstring_in_range,
    cstring_spec, u64_windows, lemma_u64_windows_bounded, lemma_read_u64_in_windows,
    lemma_record_field,
};
use std::collections::HashSet;
pub use crate::short_name::to_short_name;
use crate::short_name::{chars_of, short_name_spec};
use crate::inflate::{inflate_spec, try_zlib_inflate};
pub use crate::resource_flags::{get_flags_from_size, resource_flags_size};
use crate::resource_flags::{flags_for_size, flags_size_spec};

verus! {

/// Magic number of an RSC7 resource header (`"RSC7"` read little-endian).
pub const RSC7_MAGIC: u32 = 0x3743_5352;

/// The system and graphics streams of an unpacked resource.
pub struct Decompressed {
    pub system: Vec<u8>,
    pub graphics: Vec<u8>,
}

/// The buffer starts with the RSC7 magic.
pub open spec fn is_rsc7(input: Seq<u8>) -> bool {
    input.len() >= 4 && spec_u32_from_le_bytes(input.subrange(0, 4)) == RSC7_MAGIC
}

/// The little-endian `u32` at byte offset `at`.
pub open spec fn u32_at(input: Seq<u8>, at: int) -> u32 {
    spec_u32_from_le_bytes(input.subrange(at, at + 4))
}

/// The compressed part: everything after the 16-byte RSC7 header, or the whole buffer.
pub open spec fn resource_body(input: Seq<u8>) -> Seq<u8> {
    if is_rsc7(input) {
        input.subrange(16, input.len() as int)
    } else {
        input
    }
}

/// The unpacked data: the inflated body, or the body as it is when it does not
/// inflate.
pub open spec fn resource_data(input: Seq<u8>) -> Seq<u8> {
    match inflate_spec(resource_body(input)) {
        Some(d) => d,
        None => resource_body(input),
    }
}

/// The system and graphics flags in the RSC7 header, if there is one.
pub open spec fn header_flags(input: Seq<u8>) -> Option<(u32, u32)> {
    if is_rsc7(input) {
        Some((u32_at(input, 8), u32_at(input, 12)))
    } else {
        None
    }
}

/// Sizes of the system and graphics streams carved out of `len` bytes of data:
/// the declared flags (or, without a header, flags computed from `len`) when both
/// streams fit, else flags computed from `len` with an empty graphics stream, else
/// all of the data as system stream.
pub open spec fn stream_sizes(len: int, declared: Option<(u32, u32)>) -> (int, int) {
    let (sf, gf) = match declared {
        Some((s, g)) => (s, g),
        None => (flags_for_size(len as i32, 0), flags_for_size(0, 46)),
    };
    let s1 = flags_size_spec(sf);
    let g1 = flags_size_spec(gf);
    if s1 + g1 <= len {
        (s1, g1)
    } else {
        let s2 = flags_size_spec(flags_for_size(len as i32, 0));
        let g2 = flags_size_spec(flags_for_size(0, 6));
        if s2 + g2 <= len {
            (s2, g2)
        } else {
            (len, 0)
        }
    }
}

/// The two streams cut from `data`.
pub open spec fn split_spec(data: Seq<u8>, declared: Option<(u32, u32)>) -> (Seq<u8>, Seq<u8>) {
    let (s, g) = stream_sizes(data.len() as int, declared);
    (data.subrange(0, s), data.subrange(s, s + g))
}

/// Unpacking a `.ycd` buffer into its system and graphics streams.
pub open spec fn decompress_spec(input: Seq<u8>) -> Result<(Seq<u8>, Seq<u8>), YcdError> {
    if input.len() < 4 {
        Err(YcdError::BufferTooSmall)
    } else if is_rsc7(input) && input.len() < 16 {
        Err(YcdError::Rsc7HeaderTruncated)
    } else {
        Ok(split_spec(resource_data(input), header_flags(input)))
    }
}

/// The two streams are consecutive slices from the start of the unpacked data: the
/// split never reaches past its end.
pub proof fn lemma_streams_prefix_data(input: Seq<u8>)
    ensures
        decompress_spec(input) matches Ok((s, g)) ==> {
            &&& s.len() + g.len() <= resource_data(input).len()
            &&& s + g == resource_data(input).subrange(0, (s.len() + g.len()) as int)
        },
{
    if decompress_spec(input) is Ok {
        let data = resource_data(input);
        let declared = header_flags(input);
        let (sf, gf) = match declared {
            Some((s, g)) => (s, g),
            None => (flags_for_size(data.len() as i32, 0), flags_for_size(0, 46)),
        };
        lemma_flags_size_nonneg(sf);
        lemma_flags_size_nonneg(gf);
        lemma_flags_size_nonneg(flags_for_size(data.len() as i32, 0));
        lemma_flags_size_nonneg(flags_for_size(0, 6));
        let (a, b) = stream_sizes(data.len() as int, declared);
        assert(0 <= a && 0 <= b && a + b <= data.len());
        assert(data.subrange(0, a) + data.subrange(a, a + b) =~= data.subrange(0, a + b));
    }
}

/// A buffer of fewer than four bytes is too small; an RSC7 buffer of fewer than
/// sixteen bytes has a truncated header.
pub proof fn lemma_short_buffers(input: Seq<u8>)
    ensures
        input.len() < 4 ==> decompress_spec(input) == Err::<(Seq<u8>, Seq<u8>), YcdError>(
            YcdError::BufferTooSmall,
        ),
        4 <= input.len() < 16 && spec_u32_from_le_bytes(input.subrange(0, 4)) == 0x3743_5352
            ==> decompress_spec(input) == Err::<(Seq<u8>, Seq<u8>), YcdError>(
            YcdError::Rsc7HeaderTruncated,
        ),
{
}

/// An RSC7 buffer declares its streams in its header: the little-endian `u32` at bytes
/// 8..12 gives the system stream's flags and the one at bytes 12..16 the graphics
/// stream's. When both declared streams fit the unpacked body, the system stream is
/// its first bytes and the graphics stream follows right after, each of the declared
/// size.
pub proof fn lemma_rsc7_declared_streams(input: Seq<u8>)
    requires
        input.len() >= 16,
        spec_u32_from_le_bytes(input.subrange(0, 4)) == 0x3743_5352,
    ensures
        ({
            let body = input.subrange(16, input.len() as int);
            let data = match inflate_spec(body) {
                Some(d) => d,
                None => body,
            };
            let s = flags_size_spec(spec_u32_from_le_bytes(input.subrange(8, 12)));
            let g = flags_size_spec(spec_u32_from_le_bytes(input.subrange(12, 16)));
            s + g <= data.len() ==> decompress_spec(input) == Ok::<
                (Seq<u8>, Seq<u8>),
                YcdError,
            >((data.subrange(0, s), data.subrange(s, s + g)))
        }),
{
    lemma_flags_size_nonneg(spec_u32_from_le_bytes(input.subrange(8, 12)));
    lemma_flags_size_nonneg(spec_u32_from_le_bytes(input.subrange(12, 16)));
}

/// A buffer without the RSC7 magic whose unpacked body is at most 512 KiB is all
/// system stream, with an empty graphics stream.
pub proof fn lemma_plain_buffer_is_system(input: Seq<u8>)
    requires
        input.len() >= 4,
        spec_u32_from_le_bytes(input.subrange(0, 4)) != 0x3743_5352,
        (match inflate_spec(input) {
            Some(d) => d,
            None => input,
        }).len() <= 0x80000,
    ensures
        ({
            let data = match inflate_spec(input) {
                Some(d) => d,
                None => input,
            };
            decompress_spec(input) == Ok::<(Seq<u8>, Seq<u8>), YcdError>(
                (data, Seq::<u8>::empty()),
            )
        }),
{
    let data = resource_data(input);
    let len = data.len() as int;
    crate::resource_flags::lemma_flags_size_exact_when_small(len as i32, 0);
    crate::resource_flags::lemma_flags_size_exact_when_small(0, 46);
    crate::resource_flags::lemma_flags_size_exact_when_small(0, 6);
    assert(data.subrange(0, len) =~= data);
    assert(data.subrange(len, len) =~= Seq::<u8>::empty());
}

proof fn lemma_flags_size_nonneg(flags: u32)
    ensures
        flags_size_spec(flags) >= 0,
{
    let base = crate::resource_flags::base_page_size(flags);
    let count = crate::resource_flags::page_count(flags);
    assert(base >= 0);
    assert(count >= 0);
    vstd::arithmetic::mul::lemma_mul_nonnegative(base, count);
}

/// Cuts unpacked `data` into the system and graphics streams, given the flags of the
/// RSC7 header when there is one.
pub fn split_streams(data: &[u8], declared: Option<(u32, u32)>) -> (d: Decompressed)
    ensures
        d.system@ == split_spec(data@, declared).0,
        d.graphics@ == split_spec(data@, declared).1,
{
    let len = data.len();
    let (system_flags, graphics_flags) = match declared {
        Some((s, g)) => (s, g),
        None => (get_flags_from_size(len as i32, 0), get_flags_from_size(0, 46)),
    };
    let mut sys_size = resource_flags_size(system_flags);
    let mut gfx_size = resource_flags_size(graphics_flags);
    if sys_size + gfx_size > len as u64 {
        sys_size = resource_flags_size(get_flags_from_size(len as i32, 0));
        gfx_size = resource_flags_size(get_flags_from_size(0, 6));
    }
    if sys_size + gfx_size > len as u64 {
        sys_size = len as u64;
        gfx_size = 0;
    }
    let sys = slice_to_vec(slice_subrange(data, 0, sys_size as usize));
    let gfx = if gfx_size > 0 {
        slice_to_vec(slice_subrange(data, sys_size as usize, (sys_size + gfx_size) as usize))
    } else {
        Vec::new()
    };
    proof {
        if gfx_size == 0 {
            assert(gfx@ =~= data@.subrange(sys_size as int, sys_size as int));
        }
    }
    Decompressed { system: sys, graphics: gfx }
}

/// Unpacks a `.ycd` buffer: reads the optional RSC7 header, inflates the body when it
/// is zlib or raw deflate data, and cuts the result into the system and graphics
/// streams.
pub fn decompress_ycd_buffer(input: &[u8]) -> (r: Result<Decompressed, YcdError>)
    ensures
        match decompress_spec(input@) {
            Err(e) => r matches Err(e2) && e2 == e,
            Ok((s, g)) => r matches Ok(d) && d.system@ == s && d.graphics@ == g,
        },
{
    if input.len() < 4 {
        return Err(YcdError::BufferTooSmall);
    }
    let magic = u32_from_le_bytes(slice_subrange(input, 0, 4));
    let rsc7 = magic == RSC7_MAGIC;
    let mut declared: Option<(u32, u32)> = None;
    let mut body = input;
    if rsc7 {
        if input.len() < 16 {
            return Err(YcdError::Rsc7HeaderTruncated);
        }
        let system_flags = u32_from_le_bytes(slice_subrange(input, 8, 12));
        let graphics_flags = u32_from_le_bytes(slice_subrange(input, 12, 16));
        declared = Some((system_flags, graphics_flags));
        body = slice_subrange(input, 16, input.len());
    }
    assert(body@ == resource_body(input@));
    let data = match try_zlib_inflate(body) {
        Some(d) => d,
        None => slice_to_vec(body),
    };
    Ok(split_streams(data.as_slice(), declared))
}


/// Clip type whose header is followed by an animation list.
pub const CLIP_TYPE_ANIMATION_LIST: u64 = 2;

/// Fields of a clip header; field 4 is the clip type, field 6 the address of its
/// full name.
pub open spec fn clip_fields() -> Seq<ReadWidth> {
    seq![
        ReadWidth::U32, ReadWidth::U32, ReadWidth::U32, ReadWidth::U32, ReadWidth::U32,
        ReadWidth::U32, ReadWidth::U64, ReadWidth::U16, ReadWidth::U16, ReadWidth::U32,
        ReadWidth::U64, ReadWidth::U32, ReadWidth::U32, ReadWidth::U64, ReadWidth::U64,
        ReadWidth::U32, ReadWidth::U32,
    ]
}

/// Fields that follow the header of an animation-list clip.
pub open spec fn anim_list_fields() -> Seq<ReadWidth> {
    seq![ReadWidth::U64, ReadWidth::U16, ReadWidth::U16]
}

/// Fields of an entry of the clip map; field 2 is the clip address, field 3 the next
/// entry.
pub open spec fn map_entry_fields() -> Seq<ReadWidth> {
    seq![ReadWidth::U32, ReadWidth::U32, ReadWidth::U64, ReadWidth::U64, ReadWidth::U32, ReadWidth::U32]
}

/// Fields of the resource file header; field 2 is the address of the page table.
pub open spec fn file_header_fields() -> Seq<ReadWidth> {
    seq![ReadWidth::U32, ReadWidth::U32, ReadWidth::U64]
}

/// Fields of the page table header.
pub open spec fn pages_info_fields() -> Seq<ReadWidth> {
    seq![ReadWidth::U32, ReadWidth::U32, ReadWidth::U8, ReadWidth::U8, ReadWidth::U16, ReadWidth::U32]
}

/// Fields of the clip dictionary that follow the file header; field 5 is the address
/// of the clip map's buckets, field 6 their number.
pub open spec fn dictionary_fields() -> Seq<ReadWidth> {
    seq![
        ReadWidth::U32, ReadWidth::U32, ReadWidth::U64, ReadWidth::U32, ReadWidth::U32,
        ReadWidth::U64, ReadWidth::U16, ReadWidth::U16, ReadWidth::U32, ReadWidth::U32,
        ReadWidth::U32,
    ]
}

fn clip_layout() -> (v: Vec<ReadWidth>)
    ensures
        v@ == clip_fields(),
{
    let v = vec![
        ReadWidth::U32, ReadWidth::U32, ReadWidth::U32, ReadWidth::U32, ReadWidth::U32,
        ReadWidth::U32, ReadWidth::U64, ReadWidth::U16, ReadWidth::U16, ReadWidth::U32,
        ReadWidth::U64, ReadWidth::U32, ReadWidth::U32, ReadWidth::U64, ReadWidth::U64,
        ReadWidth::U32, ReadWidth::U32,
    ];
    assert(v@ =~= clip_fields());
    v
}

fn anim_list_layout() -> (v: Vec<ReadWidth>)
    ensures
        v@ == anim_list_fields(),
{
    let v = vec![ReadWidth::U64, ReadWidth::U16, ReadWidth::U16];
    assert(v@ =~= anim_list_fields());
    v
}

fn map_entry_layout() -> (v: Vec<ReadWidth>)
    ensures
        v@ == map_entry_fields(),
{
    let v = vec![ReadWidth::U32, ReadWidth::U32, ReadWidth::U64, ReadWidth::U64, ReadWidth::U32, ReadWidth::U32];
    assert(v@ =~= map_entry_fields());
    v
}

fn file_header_layout() -> (v: Vec<ReadWidth>)
    ensures
        v@ == file_header_fields(),
{
    let v = vec![ReadWidth::U32, ReadWidth::U32, ReadWidth::U64];
    assert(v@ =~= file_header_fields());
    v
}

fn pages_info_layout() -> (v: Vec<ReadWidth>)
    ensures
        v@ == pages_info_fields(),
{
    let v = vec![ReadWidth::U32, ReadWidth::U32, ReadWidth::U8, ReadWidth::U8, ReadWidth::U16, ReadWidth::U32];
    assert(v@ =~= pages_info_fields());
    v
}

fn dictionary_layout() -> (v: Vec<ReadWidth>)
    ensures
        v@ == dictionary_fields(),
{
    let v = vec![
        ReadWidth::U32, ReadWidth::U32, ReadWidth::U64, ReadWidth::U32, ReadWidth::U32,
        ReadWidth::U64, ReadWidth::U16, ReadWidth::U16, ReadWidth::U32, ReadWidth::U32,
        ReadWidth::U32,
    ];
    assert(v@ =~= dictionary_fields());
    v
}

/// Why walking the clip dictionary stopped.
#[derive(Clone, Copy, Debug, PartialEq, Eq, Structural)]
pub enum WalkFault {
    /// A read failed.
    Error(YcdError),
    /// A clip's name address points past the end of its stream. Slicing the name out
    /// there is out of bounds: the walk cannot go on.
    NameOutsideStream,
}

/// The names held by an optional name.
pub open spec fn option_set(o: Option<Seq<char>>) -> Set<Seq<char>> {
    match o {
        Some(n) => Set::empty().insert(n),
        None => Set::empty(),
    }
}

/// The short name of the clip at `clip_ptr`, if its full name is readable UTF-8.
/// A null clip address holds no clip.
pub open spec fn clip_name_spec(system: Seq<u8>, graphics: Seq<u8>, clip_ptr: u64) -> Result<
    Option<Seq<char>>,
    WalkFault,
> {
    if clip_ptr == 0 {
        Ok(None)
    } else {
        match read_record(system, graphics, clip_ptr, clip_fields()) {
            Err(e) => Err(WalkFault::Error(e)),
            Ok(f) => {
                let name_ptr = f[6];
                if !cstring_in_range(system, graphics, name_ptr) {
                    Err(WalkFault::NameOutsideStream)
                } else {
                    let name = match cstring_spec(system, graphics, name_ptr) {
                        Some(full) => Some(short_name_spec(full)),
                        None => None,
                    };
                    if f[4] == CLIP_TYPE_ANIMATION_LIST {
                        match read_record(
                            system,
                            graphics,
                            record_end(clip_ptr, clip_fields()),
                            anim_list_fields(),
                        ) {
                            Err(e) => Err(WalkFault::Error(e)),
                            Ok(_) => Ok(name),
                        }
                    } else {
                        Ok(name)
                    }
                }
            },
        }
    }
}

/// Adds the short name of the clip at `clip_ptr` to `out`; the cursor is left where
/// it was.
fn collect_clip_names(r: &mut ResourceReader, clip_ptr: u64, out: &mut NameSet) -> (res: Result<
    (),
    WalkFault,
>)
    requires
        old(out).wf(),
    ensures
        final(r)@ == old(r)@,
        final(out).wf(),
        old(out).names().subset_of(final(out).names()),
        match clip_name_spec(old(r)@.system, old(r)@.graphics, clip_ptr) {
            Ok(name) => res is Ok && final(out).names() == old(out).names().union(option_set(name)),
            Err(f) => res == Err::<(), WalkFault>(f),
        },
{
    if clip_ptr == 0 {
        assert(old(out).names().union(option_set(None)) =~= old(out).names());
        return Ok(());
    }
    let back = match r.jump(clip_ptr) {
        Ok(b) => b,
        Err(e) => {
            return Err(WalkFault::Error(e));
        },
    };
    let layout = clip_layout();
    let fields = match r.read_record(layout.as_slice()) {
        Ok(f) => f,
        Err(e) => {
            r.set_pos(back);
            return Err(WalkFault::Error(e));
        },
    };
    let ty = fields[4];
    let name_ptr = fields[6];
    if !r.cstring_in_range(name_ptr) {
        r.set_pos(back);
        return Err(WalkFault::NameOutsideStream);
    }
    let full = r.read_cstring_at(name_ptr);
    let short = match &full {
        Some(s) => to_short_name(Some(s.as_str())),
        None => to_short_name(None),
    };
    if ty == CLIP_TYPE_ANIMATION_LIST {
        let tail_layout = anim_list_layout();
        match r.read_record(tail_layout.as_slice()) {
            Ok(_) => {},
            Err(e) => {
                r.set_pos(back);
                return Err(WalkFault::Error(e));
            },
        }
    }
    r.set_pos(back);
    match short {
        Some(sn) => {
            let chars = chars_of(sn.as_str());
            out.insert(chars);
            assert(option_set(Some(chars@)) =~= Set::empty().insert(chars@));
            assert(old(out).names().insert(chars@) =~= old(out).names().union(option_set(Some(chars@))));
        },
        None => {
            assert(old(out).names().union(option_set(None)) =~= old(out).names());
        },
    }
    Ok(())
}


/// The names of the clips on the chain of map entries that starts at `p`, skipping
/// entries already `seen`: the chain ends at a null address or at an entry met
/// before. `fuel` bounds the recursion; `walk_spec` gives enough that it never runs
/// out (the walk visits distinct addresses, each read from one of the streams).
pub open spec fn chain_names(
    system: Seq<u8>,
    graphics: Seq<u8>,
    p: u64,
    seen: Set<u64>,
    fuel: nat,
) -> Result<Set<Seq<char>>, WalkFault>
    decreases fuel,
{
    if fuel == 0 || p == 0 || seen.contains(p) {
        Ok(Set::empty())
    } else {
        match read_record(system, graphics, p, map_entry_fields()) {
            Err(e) => Err(WalkFault::Error(e)),
            Ok(f) => match clip_name_spec(system, graphics, f[2]) {
                Err(x) => Err(x),
                Ok(name) => match chain_names(
                    system,
                    graphics,
                    f[3],
                    seen.insert(p),
                    (fuel - 1) as nat,
                ) {
                    Err(x) => Err(x),
                    Ok(rest) => Ok(option_set(name).union(rest)),
                },
            },
        }
    }
}

/// More steps than a chain can take: one per byte of the two streams, plus the start.
pub open spec fn chain_fuel(system: Seq<u8>, graphics: Seq<u8>) -> nat {
    system.len() + graphics.len() + 2
}

/// The names of the clips on the chain of map entries that starts at `entry`.
pub open spec fn walk_spec(system: Seq<u8>, graphics: Seq<u8>, entry: u64) -> Result<
    Set<Seq<char>>,
    WalkFault,
> {
    chain_names(system, graphics, entry, Set::empty(), chain_fuel(system, graphics))
}

proof fn lemma_chain_fuel(
    system: Seq<u8>,
    graphics: Seq<u8>,
    cands: Set<u64>,
    p: u64,
    seen: Set<u64>,
    fuel: nat,
    extra: nat,
)
    requires
        cands.finite(),
        cands.len() + 1 <= fuel + seen.len(),
        cands.contains(p),
        u64_windows(system).subset_of(cands),
        u64_windows(graphics).subset_of(cands),
        seen.subset_of(cands),
        seen.finite(),
    ensures
        chain_names(system, graphics, p, seen, fuel) == chain_names(
            system,
            graphics,
            p,
            seen,
            fuel + extra,
        ),
    decreases fuel,
{
    if p != 0 && !seen.contains(p) {
        vstd::set_lib::lemma_len_subset(seen.insert(p), cands);
        assert(fuel > 0);
        match read_record(system, graphics, p, map_entry_fields()) {
            Err(_) => {},
            Ok(f) => {
                let next = f[3];
                crate::resource_reader::lemma_record_len(system, graphics, p, map_entry_fields());
                assert(map_entry_fields()[3] == ReadWidth::U64);
                lemma_record_field(system, graphics, p, map_entry_fields(), 3);
                let a = choose|a: u64|
                    #[trigger] read_spec(system, graphics, a, map_entry_fields()[3]) == Ok::<
                        u64,
                        YcdError,
                    >(next);
                lemma_read_u64_in_windows(system, graphics, a, next);
                assert(cands.contains(next));
                assert(seen.insert(p).len() == seen.len() + 1);
                lemma_chain_fuel(
                    system,
                    graphics,
                    cands,
                    next,
                    seen.insert(p),
                    (fuel - 1) as nat,
                    extra,
                );
                assert((fuel - 1) as nat + extra == (fuel + extra - 1) as nat);
            },
        }
    }
}

/// The step bound of `walk_spec` never cuts a walk short: any larger bound gives the
/// same names, or the same fault.
pub proof fn lemma_walk_fuel_enough(system: Seq<u8>, graphics: Seq<u8>, entry: u64, extra: nat)
    ensures
        walk_spec(system, graphics, entry) == chain_names(
            system,
            graphics,
            entry,
            Set::empty(),
            chain_fuel(system, graphics) + extra,
        ),
{
    let cands = Set::empty().insert(entry).union(u64_windows(system)).union(
        u64_windows(graphics),
    );
    lemma_u64_windows_bounded(system);
    lemma_u64_windows_bounded(graphics);
    vstd::set_lib::lemma_len_union(Set::empty().insert(entry), u64_windows(system));
    vstd::set_lib::lemma_len_union(
        Set::empty().insert(entry).union(u64_windows(system)),
        u64_windows(graphics),
    );
    lemma_chain_fuel(
        system,
        graphics,
        cands,
        entry,
        Set::empty(),
        chain_fuel(system, graphics),
        extra,
    );
}

/// `acc` together with the names of `r`, or the fault of `r`.
pub open spec fn union_into(acc: Set<Seq<char>>, r: Result<Set<Seq<char>>, WalkFault>) -> Result<
    Set<Seq<char>>,
    WalkFault,
> {
    match r {
        Ok(s) => Ok(acc.union(s)),
        Err(x) => Err(x),
    }
}

/// Adds the names of the clips on the chain that starts at `entry_ptr`; the cursor is
/// left where it was.
fn walk_clip_map_chain(r: &mut ResourceReader, entry_ptr: u64, names: &mut NameSet) -> (res:
    Result<(), WalkFault>)
    requires
        old(names).wf(),
    ensures
        final(r)@ == old(r)@,
        final(names).wf(),
        old(names).names().subset_of(final(names).names()),
        match walk_spec(old(r)@.system, old(r)@.graphics, entry_ptr) {
            Ok(s) => res is Ok && final(names).names() == old(names).names().union(s),
            Err(f) => res == Err::<(), WalkFault>(f),
        },
{
    broadcast use vstd::std_specs::hash::group_hash_axioms;

    let ghost sys = r@.system;
    let ghost gfx = r@.graphics;
    let ghost fuel = chain_fuel(sys, gfx);
    let ghost cands = Set::empty().insert(entry_ptr).union(u64_windows(sys)).union(
        u64_windows(gfx),
    );
    proof {
        lemma_u64_windows_bounded(sys);
        lemma_u64_windows_bounded(gfx);
        vstd::set_lib::lemma_len_union(Set::empty().insert(entry_ptr), u64_windows(sys));
        vstd::set_lib::lemma_len_union(
            Set::empty().insert(entry_ptr).union(u64_windows(sys)),
            u64_windows(gfx),
        );
        assert(Set::<Seq<char>>::empty().union(Set::empty()) =~= Set::<Seq<char>>::empty());
        assert(old(names).names().union(Set::empty()) =~= old(names).names());
    }
    let mut p = entry_ptr;
    let mut seen: HashSet<u64> = HashSet::new();
    let ghost mut collected: Set<Seq<char>> = Set::empty();
    proof {
        assert(union_into(Set::empty(), walk_spec(sys, gfx, entry_ptr)) == walk_spec(
            sys,
            gfx,
            entry_ptr,
        )) by {
            match walk_spec(sys, gfx, entry_ptr) {
                Ok(t) => {
                    assert(Set::<Seq<char>>::empty().union(t) =~= t);
                },
                Err(_) => {},
            }
        }
    }
    loop
        invariant
            r@ == old(r)@,
            sys == old(r)@.system,
            gfx == old(r)@.graphics,
            fuel == chain_fuel(sys, gfx),
            names.wf(),
            names.names() == old(names).names().union(collected),
            cands == Set::empty().insert(entry_ptr).union(u64_windows(sys)).union(
                u64_windows(gfx),
            ),
            cands.finite(),
            cands.len() + 1 <= fuel,
            cands.contains(p),
            seen@.subset_of(cands),
            seen@.finite(),
            walk_spec(sys, gfx, entry_ptr) == union_into(
                collected,
                chain_names(sys, gfx, p, seen@, (fuel - seen@.len()) as nat),
            ),
        ensures
            r@ == old(r)@,
            names.wf(),
            names.names() == old(names).names().union(collected),
            walk_spec(sys, gfx, entry_ptr) == Ok::<Set<Seq<char>>, WalkFault>(collected),
        decreases fuel - seen@.len(),
    {
        proof {
            vstd::set_lib::lemma_len_subset(seen@, cands);
        }
        if p == 0 || seen.contains(&p) {
            assert(collected.union(Set::empty()) =~= collected);
            break;
        }
        proof {
            vstd::set_lib::lemma_len_subset(seen@.insert(p), cands);
        }
        let ghost fuel_now = (fuel - seen@.len()) as nat;
        let ghost seen_before = seen@;
        seen.insert(p);
        let back = match r.jump(p) {
            Ok(b) => b,
            Err(e) => {
                return Err(WalkFault::Error(e));
            },
        };
        let layout = map_entry_layout();
        let fields = match r.read_record(layout.as_slice()) {
            Ok(f) => f,
            Err(e) => {
                r.set_pos(back);
                return Err(WalkFault::Error(e));
            },
        };
        let clip_ptr = fields[2];
        let next = fields[3];
        let ghost before = names.names();
        let res = collect_clip_names(r, clip_ptr, names);
        r.set_pos(back);
        match res {
            Ok(()) => {},
            Err(x) => {
                return Err(x);
            },
        }
        proof {
            let name = clip_name_spec(sys, gfx, clip_ptr)->Ok_0;
            let rest = chain_names(sys, gfx, next, seen_before.insert(p), (fuel_now - 1) as nat);
            assert(seen@ == seen_before.insert(p));
            assert(seen@.len() == seen_before.len() + 1);
            assert(read_record(sys, gfx, p, map_entry_fields())->Ok_0[3] == next);
            assert(map_entry_fields()[3] == ReadWidth::U64);
            lemma_record_field(sys, gfx, p, map_entry_fields(), 3);
            let a = choose|a: u64|
                #[trigger] read_spec(sys, gfx, a, map_entry_fields()[3]) == Ok::<u64, YcdError>(
                    next,
                );
            lemma_read_u64_in_windows(sys, gfx, a, next);
            assert(cands.contains(next));
            match rest {
                Ok(t) => {
                    assert(collected.union(option_set(name).union(t)) =~= collected.union(
                        option_set(name),
                    ).union(t));
                },
                Err(_) => {},
            }
            assert(old(names).names().union(collected).union(option_set(name)) =~= old(
                names,
            ).names().union(collected.union(option_set(name))));
            collected = collected.union(option_set(name));
        }
        p = next;
    }
    Ok(())
}


/// The names of the clips reachable from `count` bucket pointers stored one after
/// the other from `addr`; a null bucket is empty.
pub open spec fn bucket_names(system: Seq<u8>, graphics: Seq<u8>, addr: u64, count: nat) -> Result<
    Set<Seq<char>>,
    WalkFault,
>
    decreases count,
{
    if count == 0 {
        Ok(Set::empty())
    } else {
        match read_spec(system, graphics, addr, ReadWidth::U64) {
            Err(e) => Err(WalkFault::Error(e)),
            Ok(p) => {
                let here = if p != 0 {
                    walk_spec(system, graphics, p)
                } else {
                    Ok(Set::empty())
                };
                match here {
                    Err(x) => Err(x),
                    Ok(s) => union_into(
                        s,
                        bucket_names(system, graphics, addr.wrapping_add(8), (count - 1) as nat),
                    ),
                }
            },
        }
    }
}

/// The short names of all clips of a clip dictionary given its two streams: the file
/// header at the start of the system stream, the page table it points to (which
/// must be readable), the dictionary header after the file header, then every
/// bucket of the clip map.
pub open spec fn dictionary_names(system: Seq<u8>, graphics: Seq<u8>) -> Result<
    Set<Seq<char>>,
    WalkFault,
> {
    match read_record(system, graphics, SYSTEM_BASE, file_header_fields()) {
        Err(e) => Err(WalkFault::Error(e)),
        Ok(h) => {
            let pages = h[2];
            if pages != 0 && read_record(system, graphics, pages, pages_info_fields()) is Err {
                Err(
                    WalkFault::Error(
                        read_record(system, graphics, pages, pages_info_fields())->Err_0,
                    ),
                )
            } else {
                match read_record(
                    system,
                    graphics,
                    record_end(SYSTEM_BASE, file_header_fields()),
                    dictionary_fields(),
                ) {
                    Err(e) => Err(WalkFault::Error(e)),
                    Ok(d) => if d[5] == 0 || d[6] == 0 {
                        Ok(Set::empty())
                    } else {
                        bucket_names(system, graphics, d[5], d[6] as nat)
                    },
                }
            }
        },
    }
}

/// Address of bucket `i` of a bucket array that starts at `base`: eight bytes per
/// bucket, modulo 2^64.
pub open spec fn bucket_addr(base: u64, i: int) -> u64 {
    ((base + 8 * i) % 0x1_0000_0000_0000_0000) as u64
}

/// The pointer stored in bucket `i` of the array at `base`.
pub open spec fn bucket_ptr(system: Seq<u8>, graphics: Seq<u8>, base: u64, i: int) -> u64 {
    read_spec(system, graphics, bucket_addr(base, i), ReadWidth::U64)->Ok_0
}

proof fn lemma_bucket_addr_step(base: u64, j: int)
    requires
        j >= 0,
    ensures
        bucket_addr(base.wrapping_add(8), j) == bucket_addr(base, j + 1),
        bucket_addr(base, 0) == base,
{
    let m: int = 0x1_0000_0000_0000_0000;
    crate::resource_reader::lemma_wrapping_advance(base, 8);
    vstd::arithmetic::div_mod::lemma_add_mod_noop(base + 8, 8 * j, m);
    vstd::arithmetic::div_mod::lemma_add_mod_noop((base + 8) % m, 8 * j, m);
    vstd::arithmetic::div_mod::lemma_mod_twice(base + 8, m);
    vstd::arithmetic::div_mod::lemma_small_mod(base as nat, m as nat);
}

/// A null bucket holds no clips and does not end the walk: the names are those of
/// the buckets after it.
pub proof fn lemma_null_bucket_skipped(system: Seq<u8>, graphics: Seq<u8>, base: u64, count: nat)
    requires
        count > 0,
        read_spec(system, graphics, base, ReadWidth::U64) == Ok::<u64, YcdError>(0),
    ensures
        bucket_names(system, graphics, base, count) == bucket_names(
            system,
            graphics,
            bucket_addr(base, 1),
            (count - 1) as nat,
        ),
{
    lemma_bucket_addr_step(base, 0);
    match bucket_names(system, graphics, bucket_addr(base, 1), (count - 1) as nat) {
        Ok(t) => {
            assert(Set::<Seq<char>>::empty().union(t) =~= t);
        },
        Err(_) => {},
    }
}

/// The names of a bucket array are the union of the chains of all its buckets: when
/// the walk succeeds, every bucket pointer was read, the chain of every non-null one
/// was walked and all its names are listed, and every listed name comes from the
/// chain of some non-null bucket.
pub proof fn lemma_bucket_names_union(system: Seq<u8>, graphics: Seq<u8>, base: u64, count: nat)
    ensures
        bucket_names(system, graphics, base, count) matches Ok(s) ==> {
            &&& forall|i: int|
                0 <= i < count ==> read_spec(system, graphics, bucket_addr(base, i), ReadWidth::U64)
                    == Ok::<u64, YcdError>(#[trigger] bucket_ptr(system, graphics, base, i))
            &&& forall|i: int|
                0 <= i < count && #[trigger] bucket_ptr(system, graphics, base, i) != 0 ==> {
                    &&& walk_spec(system, graphics, bucket_ptr(system, graphics, base, i)) is Ok
                    &&& walk_spec(
                        system,
                        graphics,
                        bucket_ptr(system, graphics, base, i),
                    )->Ok_0.subset_of(s)
                }
            &&& forall|n: Seq<char>|
                s.contains(n) ==> exists|i: int|
                    0 <= i < count && #[trigger] bucket_ptr(system, graphics, base, i) != 0
                        && walk_spec(
                        system,
                        graphics,
                        bucket_ptr(system, graphics, base, i),
                    )->Ok_0.contains(n)
        },
    decreases count,
{
    if count > 0 {
        let next = base.wrapping_add(8);
        lemma_bucket_names_union(system, graphics, next, (count - 1) as nat);
        if let Ok(s) = bucket_names(system, graphics, base, count) {
            lemma_bucket_addr_step(base, 0);
            let p = read_spec(system, graphics, base, ReadWidth::U64)->Ok_0;
            assert(bucket_ptr(system, graphics, base, 0) == p);
            let t = bucket_names(system, graphics, next, (count - 1) as nat)->Ok_0;
            let h = if p != 0 {
                walk_spec(system, graphics, p)->Ok_0
            } else {
                Set::empty()
            };
            assert(s == h.union(t));
            assert forall|j: int| 0 <= j < count - 1 implies bucket_ptr(
                system,
                graphics,
                next,
                j,
            ) == bucket_ptr(system, graphics, base, j + 1) && bucket_addr(next, j) == bucket_addr(
                base,
                j + 1,
            ) by {
                lemma_bucket_addr_step(base, j);
            }
            assert forall|i: int| 0 <= i < count implies read_spec(
                system,
                graphics,
                bucket_addr(base, i),
                ReadWidth::U64,
            ) == Ok::<u64, YcdError>(#[trigger] bucket_ptr(system, graphics, base, i)) by {
                if i > 0 {
                    lemma_bucket_addr_step(base, i - 1);
                    assert(bucket_ptr(system, graphics, next, i - 1) == bucket_ptr(
                        system,
                        graphics,
                        base,
                        i,
                    ));
                }
            }
            assert forall|i: int|
                0 <= i < count && #[trigger] bucket_ptr(system, graphics, base, i) != 0 implies {
                &&& walk_spec(system, graphics, bucket_ptr(system, graphics, base, i)) is Ok
                &&& walk_spec(
                    system,
                    graphics,
                    bucket_ptr(system, graphics, base, i),
                )->Ok_0.subset_of(s)
            } by {
                if i > 0 {
                    lemma_bucket_addr_step(base, i - 1);
                    assert(bucket_ptr(system, graphics, next, i - 1) == bucket_ptr(
                        system,
                        graphics,
                        base,
                        i,
                    ));
                }
            }
            assert forall|n: Seq<char>| s.contains(n) implies exists|i: int|
                0 <= i < count && #[trigger] bucket_ptr(system, graphics, base, i) != 0
                    && walk_spec(
                    system,
                    graphics,
                    bucket_ptr(system, graphics, base, i),
                )->Ok_0.contains(n) by {
                if h.contains(n) {
                    assert(p != 0);
                    assert(bucket_ptr(system, graphics, base, 0) != 0);
                } else {
                    assert(t.contains(n));
                    let j = choose|j: int|
                        0 <= j < count - 1 && #[trigger] bucket_ptr(system, graphics, next, j) != 0
                            && walk_spec(
                            system,
                            graphics,
                            bucket_ptr(system, graphics, next, j),
                        )->Ok_0.contains(n);
                    lemma_bucket_addr_step(base, j);
                    assert(bucket_ptr(system, graphics, base, j + 1) != 0);
                }
            }
        }
    }
}

/// The address `k` bytes past `base`, modulo 2^64.
pub open spec fn field_addr(base: u64, k: int) -> u64 {
    ((base + k) % 0x1_0000_0000_0000_0000) as u64
}

proof fn lemma_field_addr_chain(base: u64, a: u64, k: int, j: int)
    requires
        a as int == (base + k) % 0x1_0000_0000_0000_0000,
        0 <= k,
        0 <= j,
    ensures
        field_addr(a, j) == field_addr(base, k + j),
{
    let m: int = 0x1_0000_0000_0000_0000;
    vstd::arithmetic::div_mod::lemma_add_mod_noop(base + k, j, m);
    vstd::arithmetic::div_mod::lemma_add_mod_noop((base + k) % m, j, m);
    vstd::arithmetic::div_mod::lemma_mod_twice(base + k, m);
}

/// The fixed layout of a clip header: the clip type is the `u32` at offset 16, the
/// address of the full name the `u64` at offset 24, and the header is 80 bytes long;
/// an animation-list clip (type 2) is followed by a `u64` and two `u16`s. When a clip
/// is read, its name is the short form of the string at that address, and for an
/// animation-list clip those twelve further bytes were readable.
pub proof fn lemma_clip_layout(system: Seq<u8>, graphics: Seq<u8>, clip: u64)
    requires
        clip != 0,
    ensures
        clip_name_spec(system, graphics, clip) matches Ok(name) ==> {
            let ty = read_spec(system, graphics, field_addr(clip, 16), ReadWidth::U32);
            let np = read_spec(system, graphics, field_addr(clip, 24), ReadWidth::U64);
            &&& ty is Ok
            &&& np is Ok
            &&& name == match cstring_spec(system, graphics, np->Ok_0) {
                Some(full) => Some(short_name_spec(full)),
                None => None,
            }
            &&& ty->Ok_0 == 2 ==> {
                &&& read_spec(system, graphics, field_addr(clip, 80), ReadWidth::U64) is Ok
                &&& read_spec(system, graphics, field_addr(clip, 88), ReadWidth::U16) is Ok
                &&& read_spec(system, graphics, field_addr(clip, 90), ReadWidth::U16) is Ok
            }
        },
{
    if clip_name_spec(system, graphics, clip) is Ok {
        let ws = clip_fields();
        crate::resource_reader::lemma_record_size_steps(ws);
        assert(record_size(ws.take(1)) == 4);
        assert(record_size(ws.take(2)) == 8);
        assert(record_size(ws.take(3)) == 12);
        assert(record_size(ws.take(4)) == 16);
        assert(record_size(ws.take(5)) == 20);
        assert(record_size(ws.take(6)) == 24);
        assert(record_size(ws.take(7)) == 32);
        assert(record_size(ws.take(8)) == 34);
        assert(record_size(ws.take(9)) == 36);
        assert(record_size(ws.take(10)) == 40);
        assert(record_size(ws.take(11)) == 48);
        assert(record_size(ws.take(12)) == 52);
        assert(record_size(ws.take(13)) == 56);
        assert(record_size(ws.take(14)) == 64);
        assert(record_size(ws.take(15)) == 72);
        assert(record_size(ws.take(16)) == 76);
        assert(record_size(ws.take(17)) == 80);
        crate::resource_reader::lemma_record_field_at(system, graphics, clip, ws, 4);
        crate::resource_reader::lemma_record_field_at(system, graphics, clip, ws, 6);
        crate::resource_reader::lemma_record_end_sum(clip, ws);
        crate::resource_reader::lemma_record_len(system, graphics, clip, ws);
        let f = read_record(system, graphics, clip, ws)->Ok_0;
        if f[4] == CLIP_TYPE_ANIMATION_LIST {
            let e = record_end(clip, ws);
            let al = anim_list_fields();
            crate::resource_reader::lemma_record_size_steps(al);
            assert(record_size(al.take(1)) == 8);
            assert(record_size(al.take(2)) == 10);
            crate::resource_reader::lemma_record_field_at(system, graphics, e, al, 0);
            crate::resource_reader::lemma_record_field_at(system, graphics, e, al, 1);
            crate::resource_reader::lemma_record_field_at(system, graphics, e, al, 2);
            lemma_field_addr_chain(clip, e, 80, 0);
            lemma_field_addr_chain(clip, e, 80, 8);
            lemma_field_addr_chain(clip, e, 80, 10);
        }
    }
}

/// The fixed layout of a clip-map entry: the clip address is the `u64` at offset 8
/// and the next entry's address the `u64` at offset 16. A walk that reaches an entry
/// it has not met yet lists the name of that entry's clip and goes on with the next
/// entry.
pub proof fn lemma_entry_layout(
    system: Seq<u8>,
    graphics: Seq<u8>,
    p: u64,
    seen: Set<u64>,
    fuel: nat,
)
    requires
        p != 0,
        !seen.contains(p),
        fuel > 0,
    ensures
        chain_names(system, graphics, p, seen, fuel) matches Ok(s) ==> {
            let clip = read_spec(system, graphics, field_addr(p, 8), ReadWidth::U64);
            let next = read_spec(system, graphics, field_addr(p, 16), ReadWidth::U64);
            &&& clip is Ok
            &&& next is Ok
            &&& clip_name_spec(system, graphics, clip->Ok_0) matches Ok(name)
            &&& chain_names(
                system,
                graphics,
                next->Ok_0,
                seen.insert(p),
                (fuel - 1) as nat,
            ) matches Ok(rest)
            &&& s == option_set(name).union(rest)
        },
{
    if chain_names(system, graphics, p, seen, fuel) is Ok {
        let ws = map_entry_fields();
        crate::resource_reader::lemma_record_size_steps(ws);
        assert(record_size(ws.take(1)) == 4);
        assert(record_size(ws.take(2)) == 8);
        assert(record_size(ws.take(3)) == 16);
        crate::resource_reader::lemma_record_len(system, graphics, p, ws);
        crate::resource_reader::lemma_record_field_at(system, graphics, p, ws, 2);
        crate::resource_reader::lemma_record_field_at(system, graphics, p, ws, 3);
    }
}

/// A walk lists the clip of the entry it starts at and, when that entry links to a
/// different entry, the clip of that second entry too; an entry that links to itself
/// lists its own clip only.
pub proof fn lemma_walk_first_entries(system: Seq<u8>, graphics: Seq<u8>, p: u64)
    requires
        p != 0,
    ensures
        walk_spec(system, graphics, p) matches Ok(s) ==> {
            let c1 = read_spec(system, graphics, field_addr(p, 8), ReadWidth::U64)->Ok_0;
            let q = read_spec(system, graphics, field_addr(p, 16), ReadWidth::U64)->Ok_0;
            let c2 = read_spec(system, graphics, field_addr(q, 8), ReadWidth::U64)->Ok_0;
            &&& option_set(clip_name_spec(system, graphics, c1)->Ok_0).subset_of(s)
            &&& q != 0 && q != p ==> option_set(
                clip_name_spec(system, graphics, c2)->Ok_0,
            ).subset_of(s)
            &&& q == p ==> s == option_set(clip_name_spec(system, graphics, c1)->Ok_0)
        },
{
    let fuel = chain_fuel(system, graphics);
    lemma_entry_layout(system, graphics, p, Set::empty(), fuel);
    if walk_spec(system, graphics, p) is Ok {
        let q = read_spec(system, graphics, field_addr(p, 16), ReadWidth::U64)->Ok_0;
        let seen = Set::<u64>::empty().insert(p);
        let rest = chain_names(system, graphics, q, seen, (fuel - 1) as nat)->Ok_0;
        if q != 0 && q != p {
            lemma_entry_layout(system, graphics, q, seen, (fuel - 1) as nat);
        }
        if q == p {
            assert(rest == Set::<Seq<char>>::empty());
            let n1 = option_set(
                clip_name_spec(
                    system,
                    graphics,
                    read_spec(system, graphics, field_addr(p, 8), ReadWidth::U64)->Ok_0,
                )->Ok_0,
            );
            assert(n1.union(rest) =~= n1);
        }
    }
}

/// The fixed layout of the start of a clip dictionary: the page table's address is
/// the `u64` at offset 8 of the system stream, the clip map's bucket address the
/// `u64` at offset 40 and its number of buckets the `u16` at offset 48. When the
/// dictionary reads, a page table at a non-null address had its 16-byte header
/// readable, and the names are those of that many buckets from that address, or none
/// when either is zero.
pub proof fn lemma_dictionary_layout(system: Seq<u8>, graphics: Seq<u8>)
    ensures
        dictionary_names(system, graphics) matches Ok(s) ==> {
            let pages = read_spec(system, graphics, field_addr(SYSTEM_BASE, 8), ReadWidth::U64);
            let clips = read_spec(system, graphics, field_addr(SYSTEM_BASE, 40), ReadWidth::U64);
            let cap = read_spec(system, graphics, field_addr(SYSTEM_BASE, 48), ReadWidth::U16);
            &&& pages is Ok
            &&& clips is Ok
            &&& cap is Ok
            &&& pages->Ok_0 != 0 ==> {
                &&& read_spec(system, graphics, pages->Ok_0, ReadWidth::U32) is Ok
                &&& read_spec(system, graphics, field_addr(pages->Ok_0, 12), ReadWidth::U32) is Ok
            }
            &&& clips->Ok_0 == 0 || cap->Ok_0 == 0 ==> s == Set::<Seq<char>>::empty()
            &&& clips->Ok_0 != 0 && cap->Ok_0 != 0 ==> bucket_names(
                system,
                graphics,
                clips->Ok_0,
                cap->Ok_0 as nat,
            ) == Ok::<Set<Seq<char>>, WalkFault>(s)
        },
{
    if dictionary_names(system, graphics) is Ok {
        let hs = file_header_fields();
        crate::resource_reader::lemma_record_size_steps(hs);
        assert(record_size(hs.take(1)) == 4);
        assert(record_size(hs.take(2)) == 8);
        assert(record_size(hs.take(3)) == 16);
        crate::resource_reader::lemma_record_len(system, graphics, SYSTEM_BASE, hs);
        crate::resource_reader::lemma_record_field_at(system, graphics, SYSTEM_BASE, hs, 2);
        crate::resource_reader::lemma_record_end_sum(SYSTEM_BASE, hs);
        let h = read_record(system, graphics, SYSTEM_BASE, hs)->Ok_0;
        let pages = h[2];
        if pages != 0 {
            let ps = pages_info_fields();
            crate::resource_reader::lemma_record_size_steps(ps);
            assert(record_size(ps.take(1)) == 4);
            assert(record_size(ps.take(2)) == 8);
            assert(record_size(ps.take(3)) == 9);
            assert(record_size(ps.take(4)) == 10);
            assert(record_size(ps.take(5)) == 12);
            crate::resource_reader::lemma_record_field_at(system, graphics, pages, ps, 0);
            crate::resource_reader::lemma_record_field_at(system, graphics, pages, ps, 5);
            vstd::arithmetic::div_mod::lemma_small_mod(pages as nat, 0x1_0000_0000_0000_0000);
        }
        let d = record_end(SYSTEM_BASE, hs);
        let ds = dictionary_fields();
        crate::resource_reader::lemma_record_size_steps(ds);
        assert(record_size(ds.take(1)) == 4);
        assert(record_size(ds.take(2)) == 8);
        assert(record_size(ds.take(3)) == 16);
        assert(record_size(ds.take(4)) == 20);
        assert(record_size(ds.take(5)) == 24);
        assert(record_size(ds.take(6)) == 32);
        crate::resource_reader::lemma_record_len(system, graphics, d, ds);
        crate::resource_reader::lemma_record_field_at(system, graphics, d, ds, 5);
        crate::resource_reader::lemma_record_field_at(system, graphics, d, ds, 6);
        lemma_field_addr_chain(SYSTEM_BASE, d, 16, 24);
        lemma_field_addr_chain(SYSTEM_BASE, d, 16, 32);
    }
}

/// Adds the names of every bucket's chain, reading `capacity` bucket pointers at the
/// cursor; the cursor is left where it was.
fn walk_buckets(r: &mut ResourceReader, capacity: u64, names: &mut NameSet) -> (res: Result<
    (),
    WalkFault,
>)
    requires
        old(names).wf(),
    ensures
        final(r)@ == old(r)@,
        final(names).wf(),
        old(names).names().subset_of(final(names).names()),
        match bucket_names(old(r)@.system, old(r)@.graphics, old(r)@.pos, capacity as nat) {
            Ok(s) => res is Ok && final(names).names() == old(names).names().union(s),
            Err(f) => res == Err::<(), WalkFault>(f),
        },
{
    let ghost sys = r@.system;
    let ghost gfx = r@.graphics;
    let ghost start = r@.pos;
    let back = r.pos();
    let mut i: u64 = 0;
    let ghost mut collected: Set<Seq<char>> = Set::empty();
    proof {
        match bucket_names(sys, gfx, start, capacity as nat) {
            Ok(t) => {
                assert(Set::<Seq<char>>::empty().union(t) =~= t);
            },
            Err(_) => {},
        }
        assert(old(names).names().union(Set::empty()) =~= old(names).names());
    }
    while i < capacity
        invariant
            r@.system == sys,
            r@.graphics == gfx,
            sys == old(r)@.system,
            gfx == old(r)@.graphics,
            start == old(r)@.pos,
            back == start,
            i <= capacity,
            names.wf(),
            names.names() == old(names).names().union(collected),
            bucket_names(sys, gfx, start, capacity as nat) == union_into(
                collected,
                bucket_names(sys, gfx, r@.pos, (capacity - i) as nat),
            ),
        decreases capacity - i,
    {
        let ghost here = r@.pos;
        let ptr = match r.read_u64() {
            Ok(p) => p,
            Err(e) => {
                r.set_pos(back);
                return Err(WalkFault::Error(e));
            },
        };
        let ghost before = names.names();
        if ptr != 0 {
            match walk_clip_map_chain(r, ptr, names) {
                Ok(()) => {},
                Err(x) => {
                    r.set_pos(back);
                    return Err(x);
                },
            }
        }
        proof {
            let s = if ptr != 0 {
                walk_spec(sys, gfx, ptr)->Ok_0
            } else {
                Set::empty()
            };
            if ptr == 0 {
                assert(before.union(Set::empty()) =~= before);
            }
            assert(names.names() == before.union(s));
            match bucket_names(sys, gfx, r@.pos, (capacity - i - 1) as nat) {
                Ok(t) => {
                    assert(collected.union(s.union(t)) =~= collected.union(s).union(t));
                },
                Err(_) => {},
            }
            assert(old(names).names().union(collected).union(s) =~= old(names).names().union(
                collected.union(s),
            ));
            collected = collected.union(s);
        }
        i = i + 1;
    }
    proof {
        assert(collected.union(Set::empty()) =~= collected);
    }
    r.set_pos(back);
    Ok(())
}

/// Adds the names of every clip of the dictionary the reader holds.
fn walk_dictionary(r: &mut ResourceReader, names: &mut NameSet) -> (res: Result<(), WalkFault>)
    requires
        old(names).wf(),
    ensures
        final(names).wf(),
        old(names).names().subset_of(final(names).names()),
        match dictionary_names(old(r)@.system, old(r)@.graphics) {
            Ok(s) => res is Ok && final(names).names() == old(names).names().union(s),
            Err(f) => res == Err::<(), WalkFault>(f),
        },
{
    let ghost sys = r@.system;
    let ghost gfx = r@.graphics;
    r.set_pos(SYSTEM_BASE);
    let header_layout = file_header_layout();
    let header = match r.read_record(header_layout.as_slice()) {
        Ok(h) => h,
        Err(e) => {
            return Err(WalkFault::Error(e));
        },
    };
    let file_pages_info_ptr = header[2];
    if file_pages_info_ptr != 0 {
        let back = match r.jump(file_pages_info_ptr) {
            Ok(b) => b,
            Err(e) => {
                return Err(WalkFault::Error(e));
            },
        };
        let ghost at_pages = r@;
        let pages_layout = pages_info_layout();
        match r.read_record(pages_layout.as_slice()) {
            Ok(info) => {
                proof {
                    lemma_record_field(sys, gfx, file_pages_info_ptr, pages_info_fields(), 2);
                    lemma_record_field(sys, gfx, file_pages_info_ptr, pages_info_fields(), 3);
                    assert(pages_info_fields()[2] == ReadWidth::U8);
                    assert(pages_info_fields()[3] == ReadWidth::U8);
                }
                let sys_pages = info[2];
                let gfx_pages = info[3];
                // Skipping the page table moves a cursor that is put back right away.
                r.set_pos(r.pos().wrapping_add(8 * (sys_pages + gfx_pages)));
            },
            Err(e) => {
                r.set_pos(back);
                return Err(WalkFault::Error(e));
            },
        }
        r.set_pos(back);
    }
    let dict_layout = dictionary_layout();
    let dict = match r.read_record(dict_layout.as_slice()) {
        Ok(d) => d,
        Err(e) => {
            return Err(WalkFault::Error(e));
        },
    };
    let clips_ptr = dict[5];
    let clips_map_capacity = dict[6];
    if clips_ptr == 0 || clips_map_capacity == 0 {
        assert(old(names).names().union(Set::empty()) =~= old(names).names());
        return Ok(());
    }
    let back = match r.jump(clips_ptr) {
        Ok(b) => b,
        Err(e) => {
            return Err(WalkFault::Error(e));
        },
    };
    let res = walk_buckets(r, clips_map_capacity, names);
    r.set_pos(back);
    res
}


/// `animations` lists the `names` in strictly increasing order, each once.
pub open spec fn lists_names(animations: Seq<String>, names: Set<Seq<char>>) -> bool {
    let v = animations.map_values(|s: String| s@);
    strictly_sorted(v) && v.to_set() == names
}

/// What reading a `.ycd` buffer yields: the names of its clips, or why it could not be
/// read.
pub open spec fn names_outcome(input: Seq<u8>) -> Result<Set<Seq<char>>, WalkFault> {
    match decompress_spec(input) {
        Err(e) => Err(WalkFault::Error(e)),
        Ok((s, g)) => dictionary_names(s, g),
    }
}

/// The clip names of a `.ycd` file, or the error that stopped reading it.
pub struct ParseResult {
    pub animations: Vec<String>,
    pub error: Option<String>,
}

/// `r` reports `outcome`: the sorted names and no error, or no names and the error's
/// text.
pub open spec fn reports(r: ParseResult, outcome: Result<Set<Seq<char>>, YcdError>) -> bool {
    match outcome {
        Ok(names) => r.error is None && lists_names(r.animations@, names),
        Err(e) => r.animations@.len() == 0 && (r.error matches Some(m) && m@ == error_text(e)),
    }
}

/// A report carries an error exactly when reading failed, and then lists no names.
pub proof fn lemma_report_error_iff(r: ParseResult, outcome: Result<Set<Seq<char>>, YcdError>)
    requires
        reports(r, outcome),
    ensures
        r.error.is_some() <==> outcome is Err,
        r.error.is_some() ==> r.animations@.len() == 0,
{
}

/// Two reports of the same outcome list the same names in the same order.
pub proof fn lemma_report_determined(
    a: ParseResult,
    b: ParseResult,
    outcome: Result<Set<Seq<char>>, YcdError>,
)
    requires
        reports(a, outcome),
        reports(b, outcome),
    ensures
        a.animations@.map_values(|s: String| s@) == b.animations@.map_values(|s: String| s@),
        a.error.is_some() == b.error.is_some(),
{
    match outcome {
        Ok(_) => {
            crate::name_set::lemma_sorted_listing_unique(
                a.animations@.map_values(|s: String| s@),
                b.animations@.map_values(|s: String| s@),
            );
        },
        Err(_) => {
            assert(a.animations@.map_values(|s: String| s@) =~= b.animations@.map_values(
                |s: String| s@,
            ));
        },
    }
}

/// The names of all clips of a dictionary whose streams are already unpacked, in
/// increasing order.
pub fn list_clip_names(dc: Decompressed) -> (r: Result<Vec<String>, WalkFault>)
    ensures
        match dictionary_names(dc.system@, dc.graphics@) {
            Ok(names) => r matches Ok(v) && lists_names(v@, names),
            Err(f) => r matches Err(g) && g == f,
        },
{
    let mut names = NameSet::new();
    let mut reader = ResourceReader::new(dc.system, dc.graphics);
    let res = walk_dictionary(&mut reader, &mut names);
    match res {
        Ok(()) => {
            let v = names.to_strings();
            proof {
                assert(Set::<Seq<char>>::empty().union(dictionary_names(dc.system@, dc.graphics@)->Ok_0)
                    =~= dictionary_names(dc.system@, dc.graphics@)->Ok_0);
                assert(Seq::<Seq<char>>::empty().to_set() =~= Set::<Seq<char>>::empty());
            }
            Ok(v)
        },
        Err(f) => Err(f),
    }
}

/// Unpacks and walks a `.ycd` buffer.
fn read_ycd(file_bytes: &[u8]) -> (r: Result<Vec<String>, WalkFault>)
    ensures
        match names_outcome(file_bytes@) {
            Ok(names) => r matches Ok(v) && lists_names(v@, names),
            Err(f) => r matches Err(g) && g == f,
        },
{
    match decompress_ycd_buffer(file_bytes) {
        Ok(dc) => list_clip_names(dc),
        Err(e) => Err(WalkFault::Error(e)),
    }
}

/// The report for an outcome that is not a fault of slicing a name.
fn report(outcome: Result<Vec<String>, YcdError>) -> (r: ParseResult)
    ensures
        match outcome {
            Ok(v) => r.error is None && r.animations@ == v@,
            Err(e) => r.animations@.len() == 0 && (r.error matches Some(m) && m@ == error_text(e)),
        },
{
    match outcome {
        Ok(v) => ParseResult { animations: v, error: None },
        Err(e) => ParseResult { animations: Vec::new(), error: Some(e.message()) },
    }
}

/// The clip names of a `.ycd` file, sorted and without repeats, or the error that
/// stopped reading it (with no names). Files where a clip's name address lies past
/// the end of its stream are left out: reading them cannot go on.
pub fn parse_ycd_animations(file_bytes: &[u8]) -> (r: ParseResult)
    requires
        names_outcome(file_bytes@) != Err::<Set<Seq<char>>, WalkFault>(
            WalkFault::NameOutsideStream,
        ),
    ensures
        match names_outcome(file_bytes@) {
            Ok(names) => reports(r, Ok(names)),
            Err(WalkFault::Error(e)) => reports(r, Err(e)),
            Err(WalkFault::NameOutsideStream) => false,
        },
{
    match read_ycd(file_bytes) {
        Ok(v) => report(Ok(v)),
        Err(WalkFault::Error(e)) => report(Err(e)),
        Err(WalkFault::NameOutsideStream) => {
            proof {
                assert(false);
            }
            report(Ok(Vec::new()))
        },
    }
}

/// Like `parse_ycd_animations`, for any buffer: `None` exactly for the files where a
/// clip's name address lies past the end of its stream.
pub fn try_parse_ycd_animations(file_bytes: &[u8]) -> (r: Option<ParseResult>)
    ensures
        match names_outcome(file_bytes@) {
            Ok(names) => r matches Some(pr) && reports(pr, Ok(names)),
            Err(WalkFault::Error(e)) => r matches Some(pr) && reports(pr, Err(e)),
            Err(WalkFault::NameOutsideStream) => r is None,
        },
{
    match read_ycd(file_bytes) {
        Ok(v) => Some(report(Ok(v))),
        Err(WalkFault::Error(e)) => Some(report(Err(e))),
        Err(WalkFault::NameOutsideStream) => None,
    }
}

} // verus!
