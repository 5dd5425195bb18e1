//! Dual-stream resource reader: the system stream is mapped at 0x50000000 and the
//! graphics stream at 0x60000000 of a 32-bit virtual address space.
use vstd::prelude::*;
use vstd::bytes::*;
use vstd::slice::slice_subrange;
use vstd::utf8::*;
use vstd::set_lib::{set_int_range, lemma_int_range, lemma_map_size_bound};
use crate::error::{ReadWidth, YcdError};

verus! {

/// Base address of the system stream.
pub const SYSTEM_BASE: u64 = 0x5000_0000;
/// Base address of the graphics stream.
pub const GRAPHICS_BASE: u64 = 0x6000_0000;

/// One of the two streams of a resource.
#[derive(Clone, Copy, Debug, PartialEq, Eq, Structural)]
pub enum Region {
    System,
    Graphics,
}

/// Where a virtual address points: only its low 32 bits count; the system stream is
/// tried first, then the graphics stream.
pub open spec fn resolve_spec(addr: u64) -> Option<(Region, u64)> {
    let a = (addr as u32) as u64;
    if a & SYSTEM_BASE == SYSTEM_BASE {
        Some((Region::System, a & !SYSTEM_BASE))
    } else if a & GRAPHICS_BASE == GRAPHICS_BASE {
        Some((Region::Graphics, a & !GRAPHICS_BASE))
    } else {
        None
    }
}

/// The bytes of one stream.
pub open spec fn region_bytes(system: Seq<u8>, graphics: Seq<u8>, r: Region) -> Seq<u8> {
    match r {
        Region::System => system,
        Region::Graphics => graphics,
    }
}

/// The value of little-endian `bytes` read as an integer of width `w`.
pub open spec fn decode_le(w: ReadWidth, bytes: Seq<u8>) -> u64 {
    match w {
        ReadWidth::U8 => bytes[0] as u64,
        ReadWidth::U16 => spec_u16_from_le_bytes(bytes) as u64,
        ReadWidth::U32 => spec_u32_from_le_bytes(bytes) as u64,
        ReadWidth::U64 => spec_u64_from_le_bytes(bytes),
    }
}

/// Reading an integer of width `w` at virtual address `addr`.
pub open spec fn read_spec(system: Seq<u8>, graphics: Seq<u8>, addr: u64, w: ReadWidth) -> Result<
    u64,
    YcdError,
> {
    match resolve_spec(addr) {
        None => Err(YcdError::IllegalAddress(addr)),
        Some((r, off)) => {
            let buf = region_bytes(system, graphics, r);
            if off + w.size() > buf.len() {
                Err(YcdError::ReadPastEnd(w))
            } else {
                Ok(decode_le(w, buf.subrange(off as int, off + w.size())))
            }
        },
    }
}

/// Index of the first NUL byte at or after `off`, or the end of `buf`.
pub open spec fn nul_end(buf: Seq<u8>, off: int) -> int
    decreases buf.len() - off,
{
    if off >= buf.len() || off < 0 {
        off
    } else if buf[off] == 0 {
        off
    } else {
        nul_end(buf, off + 1)
    }
}

/// `nul_end` is the first NUL byte at or after `off`, or the end of `buf`: the
/// bytes between are all non-zero.
pub proof fn lemma_nul_end(buf: Seq<u8>, off: int)
    requires
        0 <= off <= buf.len(),
    ensures
        off <= nul_end(buf, off) <= buf.len(),
        nul_end(buf, off) == buf.len() || buf[nul_end(buf, off)] == 0,
        forall|k: int| off <= k < nul_end(buf, off) ==> buf[k] != 0,
    decreases buf.len() - off,
{
    if off < buf.len() && buf[off] != 0 {
        lemma_nul_end(buf, off + 1);
    }
}

/// A string read at `vaddr` starts inside (or right at the end of) its stream.
/// Null and unmapped addresses count as in range: nothing is read there.
pub open spec fn cstring_in_range(system: Seq<u8>, graphics: Seq<u8>, vaddr: u64) -> bool {
    vaddr != 0 ==> match resolve_spec(vaddr) {
        None => true,
        Some((r, off)) => off <= region_bytes(system, graphics, r).len(),
    }
}

/// The bytes of the NUL-terminated string at `vaddr`, without the terminator.
pub open spec fn cstring_bytes(system: Seq<u8>, graphics: Seq<u8>, vaddr: u64) -> Option<Seq<u8>> {
    if vaddr == 0 {
        None
    } else {
        match resolve_spec(vaddr) {
            None => None,
            Some((r, off)) => {
                let buf = region_bytes(system, graphics, r);
                Some(buf.subrange(off as int, nul_end(buf, off as int)))
            },
        }
    }
}

/// The NUL-terminated UTF-8 string at `vaddr`; `None` where there is none or it is
/// not valid UTF-8.
pub open spec fn cstring_spec(system: Seq<u8>, graphics: Seq<u8>, vaddr: u64) -> Option<Seq<char>> {
    match cstring_bytes(system, graphics, vaddr) {
        None => None,
        Some(b) => if valid_utf8(b) {
            Some(decode_utf8(b))
        } else {
            None
        },
    }
}

/// Reading consecutive little-endian fields of widths `ws`, starting at `addr`; the
/// first field that cannot be read decides the error.
pub open spec fn read_record(system: Seq<u8>, graphics: Seq<u8>, addr: u64, ws: Seq<ReadWidth>) -> Result<
    Seq<u64>,
    YcdError,
>
    decreases ws.len(),
{
    if ws.len() == 0 {
        Ok(Seq::empty())
    } else {
        match read_spec(system, graphics, addr, ws[0]) {
            Err(e) => Err(e),
            Ok(v) => match read_record(
                system,
                graphics,
                addr.wrapping_add(ws[0].size() as u64),
                ws.drop_first(),
            ) {
                Err(e) => Err(e),
                Ok(vs) => Ok(seq![v] + vs),
            },
        }
    }
}

/// The address just past a record of widths `ws` that starts at `addr`.
pub open spec fn record_end(addr: u64, ws: Seq<ReadWidth>) -> u64
    decreases ws.len(),
{
    if ws.len() == 0 {
        addr
    } else {
        record_end(addr.wrapping_add(ws[0].size() as u64), ws.drop_first())
    }
}

/// Total width in bytes of the fields `ws`.
pub open spec fn record_size(ws: Seq<ReadWidth>) -> nat
    decreases ws.len(),
{
    if ws.len() == 0 {
        0
    } else {
        ws[0].size() + record_size(ws.drop_first())
    }
}

/// Moving the cursor by `n` bytes wraps around modulo 2^64.
pub proof fn lemma_wrapping_advance(a: u64, n: u64)
    ensures
        a.wrapping_add(n) as int == (a + n) % 0x1_0000_0000_0000_0000,
        a + n <= u64::MAX ==> a.wrapping_add(n) == a + n,
{
}

/// After reading the fields `ws` from `addr` the cursor stands at `addr` plus their
/// total width, modulo 2^64: successive reads add up their widths.
pub proof fn lemma_record_end_sum(addr: u64, ws: Seq<ReadWidth>)
    ensures
        record_end(addr, ws) as int == (addr + record_size(ws)) % 0x1_0000_0000_0000_0000,
    decreases ws.len(),
{
    let m: int = 0x1_0000_0000_0000_0000;
    if ws.len() == 0 {
        vstd::arithmetic::div_mod::lemma_small_mod(addr as nat, m as nat);
    } else {
        let w = ws[0].size() as u64;
        let next = addr.wrapping_add(w);
        lemma_wrapping_advance(addr, w);
        lemma_record_end_sum(next, ws.drop_first());
        let rest = record_size(ws.drop_first()) as int;
        vstd::arithmetic::div_mod::lemma_add_mod_noop(addr + w, rest, m);
        vstd::arithmetic::div_mod::lemma_mod_twice(rest, m);
        vstd::arithmetic::div_mod::lemma_small_mod(rest as nat % m as nat, m as nat);
        assert(((addr + w) % m + rest) % m == (addr + w + rest) % m) by {
            vstd::arithmetic::div_mod::lemma_add_mod_noop(addr + w, rest, m);
            vstd::arithmetic::div_mod::lemma_add_mod_noop((addr + w) % m, rest, m);
            vstd::arithmetic::div_mod::lemma_mod_twice(addr + w, m);
        }
    }
}

/// Where an address points, spelled out on its low 32 bits: bits 28 and 30 set
/// select the system stream (checked first), bits 29 and 30 the graphics stream,
/// and the offset is the address with those bits cleared.
pub proof fn lemma_resolve_masks(addr: u64)
    ensures
        resolve_spec(addr) == resolve_spec(addr & 0xFFFF_FFFF),
        ({
            let a = addr & 0xFFFF_FFFF;
            &&& a & 0x5000_0000 == 0x5000_0000 ==> resolve_spec(addr) == Some(
                (Region::System, a & 0xAFFF_FFFF),
            )
            &&& a & 0x5000_0000 != 0x5000_0000 && a & 0x6000_0000 == 0x6000_0000 ==> resolve_spec(
                addr,
            ) == Some((Region::Graphics, a & 0x9FFF_FFFF))
            &&& a & 0x5000_0000 != 0x5000_0000 && a & 0x6000_0000 != 0x6000_0000 ==> resolve_spec(
                addr,
            ) is None
        }),
{
    let a = addr & 0xFFFF_FFFF;
    assert((addr as u32) as u64 == a && ((a as u32) as u64) == a && a & !0x5000_0000u64 == a
        & 0xAFFF_FFFF && a & !0x6000_0000u64 == a & 0x9FFF_FFFF) by (bit_vector)
        requires
            a == addr & 0xFFFF_FFFF,
    ;
}

/// `vals` followed by the fields of `r`, or the error of `r`.
pub open spec fn prepend_fields(vals: Seq<u64>, r: Result<Seq<u64>, YcdError>) -> Result<
    Seq<u64>,
    YcdError,
> {
    match r {
        Ok(vs) => Ok(vals + vs),
        Err(e) => Err(e),
    }
}

/// The little-endian `u64` of the eight bytes of `buf` at `off`.
pub open spec fn u64_window(buf: Seq<u8>, off: int) -> u64 {
    spec_u64_from_le_bytes(buf.subrange(off, off + 8))
}

/// Every value that an eight-byte read at some offset of `buf` could give.
pub open spec fn u64_windows(buf: Seq<u8>) -> Set<u64> {
    set_int_range(0, buf.len() as int).map(|off: int| u64_window(buf, off))
}

/// There are no more such values than bytes in `buf`.
pub proof fn lemma_u64_windows_bounded(buf: Seq<u8>)
    ensures
        u64_windows(buf).finite(),
        u64_windows(buf).len() <= buf.len(),
{
    lemma_int_range(0, buf.len() as int);
    lemma_map_size_bound(
        set_int_range(0, buf.len() as int),
        u64_windows(buf),
        |off: int| u64_window(buf, off),
    );
}

/// A successful eight-byte read gives one of the window values of its stream.
pub proof fn lemma_read_u64_in_windows(system: Seq<u8>, graphics: Seq<u8>, addr: u64, v: u64)
    requires
        read_spec(system, graphics, addr, ReadWidth::U64) == Ok::<u64, YcdError>(v),
    ensures
        u64_windows(system).contains(v) || u64_windows(graphics).contains(v),
{
    let (r, off) = resolve_spec(addr)->0;
    let buf = region_bytes(system, graphics, r);
    assert(set_int_range(0, buf.len() as int).contains(off as int));
    assert(u64_window(buf, off as int) == v);
}

/// A record that reads has one value per field.
pub proof fn lemma_record_len(system: Seq<u8>, graphics: Seq<u8>, addr: u64, ws: Seq<ReadWidth>)
    ensures
        read_record(system, graphics, addr, ws) matches Ok(vs) ==> vs.len() == ws.len(),
    decreases ws.len(),
{
    if ws.len() > 0 {
        lemma_record_len(
            system,
            graphics,
            addr.wrapping_add(ws[0].size() as u64),
            ws.drop_first(),
        );
    }
}

/// Each value of a record that reads is what its own field read gave.
pub proof fn lemma_record_field(
    system: Seq<u8>,
    graphics: Seq<u8>,
    addr: u64,
    ws: Seq<ReadWidth>,
    i: int,
)
    requires
        read_record(system, graphics, addr, ws) is Ok,
        0 <= i < ws.len(),
    ensures
        exists|a: u64|
            #[trigger] read_spec(system, graphics, a, ws[i]) == Ok::<u64, YcdError>(
                read_record(system, graphics, addr, ws)->Ok_0[i],
            ),
    decreases i,
{
    let next = addr.wrapping_add(ws[0].size() as u64);
    if i == 0 {
        assert(read_spec(system, graphics, addr, ws[0]) == Ok::<u64, YcdError>(
            read_record(system, graphics, addr, ws)->Ok_0[0],
        ));
    } else {
        lemma_record_len(system, graphics, next, ws.drop_first());
        let v = read_spec(system, graphics, addr, ws[0])->Ok_0;
        let tail = read_record(system, graphics, next, ws.drop_first())->Ok_0;
        assert(read_record(system, graphics, addr, ws)->Ok_0 == seq![v] + tail);
        assert((seq![v] + tail)[i] == tail[i - 1]);
        lemma_record_field(system, graphics, next, ws.drop_first(), i - 1);
        let a = choose|a: u64|
            #[trigger] read_spec(system, graphics, a, ws.drop_first()[i - 1]) == Ok::<u64, YcdError>(
                read_record(system, graphics, next, ws.drop_first())->Ok_0[i - 1],
            );
        assert(read_spec(system, graphics, a, ws[i]) == Ok::<u64, YcdError>(
            read_record(system, graphics, addr, ws)->Ok_0[i],
        ));
    }
}

/// Appending a field adds its width.
pub proof fn lemma_record_size_push(ws: Seq<ReadWidth>, w: ReadWidth)
    ensures
        record_size(ws.push(w)) == record_size(ws) + w.size(),
    decreases ws.len(),
{
    let v = ws.push(w);
    assert(v.len() > 0 && v[0] == if ws.len() == 0 { w } else { ws[0] });
    assert(record_size(v) == v[0].size() + record_size(v.drop_first()));
    if ws.len() == 0 {
        assert(v.drop_first() =~= Seq::<ReadWidth>::empty());
        assert(record_size(Seq::<ReadWidth>::empty()) == 0);
    } else {
        assert(v.drop_first() =~= ws.drop_first().push(w));
        lemma_record_size_push(ws.drop_first(), w);
        assert(record_size(ws) == ws[0].size() + record_size(ws.drop_first()));
    }
}

/// The widths of the first `k` fields are those of the first `k - 1` plus the width of
/// field `k - 1`.
pub proof fn lemma_record_size_steps(ws: Seq<ReadWidth>)
    ensures
        record_size(ws.take(0)) == 0,
        record_size(ws.take(ws.len() as int)) == record_size(ws),
        forall|k: int|
            0 < k <= ws.len() ==> #[trigger] record_size(ws.take(k)) == record_size(ws.take(k - 1))
                + ws[k - 1].size(),
{
    assert(ws.take(0) =~= Seq::<ReadWidth>::empty());
    assert(ws.take(ws.len() as int) =~= ws);
    assert forall|k: int| 0 < k <= ws.len() implies #[trigger] record_size(ws.take(k))
        == record_size(ws.take(k - 1)) + ws[k - 1].size() by {
        assert(ws.take(k) =~= ws.take(k - 1).push(ws[k - 1]));
        lemma_record_size_push(ws.take(k - 1), ws[k - 1]);
    }
}

/// Field `i` of a record that reads is the value read at the record's address plus
/// the widths of the fields before it (modulo 2^64).
pub proof fn lemma_record_field_at(
    system: Seq<u8>,
    graphics: Seq<u8>,
    addr: u64,
    ws: Seq<ReadWidth>,
    i: int,
)
    requires
        read_record(system, graphics, addr, ws) is Ok,
        0 <= i < ws.len(),
    ensures
        read_spec(system, graphics, record_end(addr, ws.take(i)), ws[i]) == Ok::<u64, YcdError>(
            read_record(system, graphics, addr, ws)->Ok_0[i],
        ),
        record_end(addr, ws.take(i)) as int == (addr + record_size(ws.take(i)))
            % 0x1_0000_0000_0000_0000,
    decreases i,
{
    lemma_record_end_sum(addr, ws.take(i));
    let next = addr.wrapping_add(ws[0].size() as u64);
    if i == 0 {
        assert(ws.take(0) =~= Seq::<ReadWidth>::empty());
    } else {
        lemma_record_len(system, graphics, next, ws.drop_first());
        let v = read_spec(system, graphics, addr, ws[0])->Ok_0;
        let tail = read_record(system, graphics, next, ws.drop_first())->Ok_0;
        assert(read_record(system, graphics, addr, ws)->Ok_0 == seq![v] + tail);
        assert((seq![v] + tail)[i] == tail[i - 1]);
        lemma_record_field_at(system, graphics, next, ws.drop_first(), i - 1);
        assert(ws.take(i).drop_first() =~= ws.drop_first().take(i - 1));
        assert(ws.take(i)[0] == ws[0]);
        assert(record_end(addr, ws.take(i)) == record_end(next, ws.drop_first().take(i - 1)));
    }
}

/// Offsets below 0x1000_0000 from the system base address the system stream, and
/// from the graphics base the graphics stream, at that very offset.
pub proof fn lemma_stream_bases(off: u64)
    requires
        off < 0x1000_0000,
    ensures
        resolve_spec((SYSTEM_BASE + off) as u64) == Some((Region::System, off)),
        resolve_spec((GRAPHICS_BASE + off) as u64) == Some((Region::Graphics, off)),
{
    let s = (0x5000_0000u64 + off) as u64;
    let g = (0x6000_0000u64 + off) as u64;
    assert(((s as u32) as u64) & 0x5000_0000u64 == 0x5000_0000u64 && ((s as u32) as u64)
        & !0x5000_0000u64 == off) by (bit_vector)
        requires
            off < 0x1000_0000u64,
            s == (0x5000_0000u64 + off) as u64,
    ;
    assert(((g as u32) as u64) & 0x5000_0000u64 != 0x5000_0000u64 && ((g as u32) as u64)
        & 0x6000_0000u64 == 0x6000_0000u64 && ((g as u32) as u64) & !0x6000_0000u64 == off)
        by (bit_vector)
        requires
            off < 0x1000_0000u64,
            g == (0x6000_0000u64 + off) as u64,
    ;
}

/// The abstract state of a reader.
pub struct ReaderView {
    pub system: Seq<u8>,
    pub graphics: Seq<u8>,
    pub pos: u64,
}

impl ReaderView {
    pub open spec fn read(self, w: ReadWidth) -> Result<u64, YcdError> {
        read_spec(self.system, self.graphics, self.pos, w)
    }

    /// The state after a successful read of width `w`: the position moves on
    /// (modulo 2^64).
    pub open spec fn advanced(self, w: ReadWidth) -> ReaderView {
        ReaderView { pos: self.pos.wrapping_add(w.size() as u64), ..self }
    }

    /// The state a read of width `w` leaves behind: advanced on success, unchanged on
    /// failure.
    pub open spec fn after_read(self, w: ReadWidth) -> ReaderView {
        if self.read(w) is Ok {
            self.advanced(w)
        } else {
            self
        }
    }
}

/// Reader over the system and graphics streams of a resource, with a cursor.
#[derive(Debug)]
pub struct ResourceReader {
    system: Vec<u8>,
    graphics: Vec<u8>,
    pos: u64,
}

impl View for ResourceReader {
    type V = ReaderView;

    closed spec fn view(&self) -> ReaderView {
        ReaderView { system: self.system@, graphics: self.graphics@, pos: self.pos }
    }
}

/// `std::str::from_utf8`: `Some` exactly when the bytes are valid UTF-8, holding the
/// characters they encode.
#[verifier::external_body]
fn str_from_utf8(bytes: &[u8]) -> (r: Option<&str>)
    ensures
        r is Some <==> valid_utf8(bytes@),
        r matches Some(s) ==> s@ == decode_utf8(bytes@),
{
    std::str::from_utf8(bytes).ok()
}

impl ResourceReader {
    /// A reader over the two streams, positioned at the start of the system stream.
    pub fn new(system: Vec<u8>, graphics: Vec<u8>) -> (r: Self)
        ensures
            r@ == (ReaderView { system: system@, graphics: graphics@, pos: SYSTEM_BASE }),
    {
        ResourceReader { system, graphics, pos: SYSTEM_BASE }
    }

    pub fn set_pos(&mut self, p: u64)
        ensures
            final(self)@ == (ReaderView { pos: p, ..old(self)@ }),
    {
        self.pos = p;
    }

    pub fn pos(&self) -> (p: u64)
        ensures
            p == self@.pos,
    {
        self.pos
    }

    /// The stream and offset that `addr` maps to.
    fn resolve(&self, addr: u64) -> (r: Result<(&Vec<u8>, u64), YcdError>)
        ensures
            match resolve_spec(addr) {
                None => r == Err::<(&Vec<u8>, u64), YcdError>(YcdError::IllegalAddress(addr)),
                Some((reg, off)) => r matches Ok((buf, o)) && o == off && o <= 0xffff_ffff
                    && buf@ == region_bytes(
                    self@.system,
                    self@.graphics,
                    reg,
                ),
            },
    {
        let a = (addr as u32) as u64;
        assert(a & !0x5000_0000u64 <= a && a & !0x6000_0000u64 <= a) by (bit_vector);
        if (a & SYSTEM_BASE) == SYSTEM_BASE {
            let off = a & !SYSTEM_BASE;
            return Ok((&self.system, off));
        }
        if (a & GRAPHICS_BASE) == GRAPHICS_BASE {
            let off = a & !GRAPHICS_BASE;
            return Ok((&self.graphics, off));
        }
        Err(YcdError::IllegalAddress(addr))
    }

    /// The `w.size()` bytes at the cursor.
    fn locate(&self, w: ReadWidth) -> (r: Result<&[u8], YcdError>)
        ensures
            match self@.read(w) {
                Err(e) => r == Err::<&[u8], YcdError>(e),
                Ok(v) => r matches Ok(bytes) && bytes@.len() == w.size() && decode_le(w, bytes@)
                    == v,
            },
    {
        let (buf, off) = self.resolve(self.pos)?;
        let n = w.byte_count();
        if off + n > buf.len() as u64 {
            return Err(YcdError::ReadPastEnd(w));
        }
        Ok(slice_subrange(buf.as_slice(), off as usize, (off + n) as usize))
    }

    pub fn read_u8(&mut self) -> (r: Result<u8, YcdError>)
        ensures
            match old(self)@.read(ReadWidth::U8) {
                Ok(v) => r == Ok::<u8, YcdError>(v as u8),
                Err(e) => r == Err::<u8, YcdError>(e),
            },
            final(self)@ == old(self)@.after_read(ReadWidth::U8),
    {
        let bytes = self.locate(ReadWidth::U8)?;
        let v = bytes[0];
        self.pos = self.pos.wrapping_add(1);
        Ok(v)
    }

    pub fn read_u16(&mut self) -> (r: Result<u16, YcdError>)
        ensures
            match old(self)@.read(ReadWidth::U16) {
                Ok(v) => r == Ok::<u16, YcdError>(v as u16),
                Err(e) => r == Err::<u16, YcdError>(e),
            },
            final(self)@ == old(self)@.after_read(ReadWidth::U16),
    {
        let bytes = self.locate(ReadWidth::U16)?;
        let v = u16_from_le_bytes(bytes);
        self.pos = self.pos.wrapping_add(2);
        Ok(v)
    }

    pub fn read_u32(&mut self) -> (r: Result<u32, YcdError>)
        ensures
            match old(self)@.read(ReadWidth::U32) {
                Ok(v) => r == Ok::<u32, YcdError>(v as u32),
                Err(e) => r == Err::<u32, YcdError>(e),
            },
            final(self)@ == old(self)@.after_read(ReadWidth::U32),
    {
        let bytes = self.locate(ReadWidth::U32)?;
        let v = u32_from_le_bytes(bytes);
        self.pos = self.pos.wrapping_add(4);
        Ok(v)
    }

    pub fn read_u64(&mut self) -> (r: Result<u64, YcdError>)
        ensures
            r == old(self)@.read(ReadWidth::U64),
            final(self)@ == old(self)@.after_read(ReadWidth::U64),
    {
        let bytes = self.locate(ReadWidth::U64)?;
        let v = u64_from_le_bytes(bytes);
        self.pos = self.pos.wrapping_add(8);
        Ok(v)
    }

    /// Moves the cursor to `vaddr`, handing back the position it had so that the
    /// caller can return to it with `set_pos`. The null address is refused.
    pub(crate) fn jump(&mut self, vaddr: u64) -> (r: Result<u64, YcdError>)
        ensures
            vaddr == 0 ==> r == Err::<u64, YcdError>(YcdError::ZeroAddress) && final(self)@ == old(
                self,
            )@,
            vaddr != 0 ==> r == Ok::<u64, YcdError>(old(self)@.pos) && final(self)@ == (ReaderView {
                pos: vaddr,
                ..old(self)@
            }),
    {
        if vaddr == 0 {
            return Err(YcdError::ZeroAddress);
        }
        let back = self.pos;
        self.pos = vaddr;
        Ok(back)
    }

    /// Runs `f` with the cursor at `vaddr`, then puts the cursor back where it was,
    /// whatever `f` returned. The null address is refused without calling `f`.
    pub fn at<T, F: FnOnce(&mut ResourceReader) -> Result<T, YcdError>>(
        &mut self,
        vaddr: u64,
        f: F,
    ) -> (res: Result<T, YcdError>)
        requires
            vaddr != 0 ==> forall|r: &mut ResourceReader|
                #![trigger call_requires(f, (r,))]
                (*r)@ == (ReaderView { pos: vaddr, ..old(self)@ }) ==> call_requires(f, (r,)),
        ensures
            vaddr == 0 ==> (res matches Err(e) && e == YcdError::ZeroAddress) && final(self)@
                == old(self)@,
            vaddr != 0 ==> exists|r: &mut ResourceReader|
                (*r)@ == (ReaderView { pos: vaddr, ..old(self)@ }) && call_ensures(f, (r,), res)
                    && final(self)@ == (ReaderView { pos: old(self)@.pos, ..(*final(r))@ }),
            final(self)@.pos == old(self)@.pos,
    {
        if vaddr == 0 {
            return Err(YcdError::ZeroAddress);
        }
        let back = self.pos;
        self.pos = vaddr;
        assert(self@ == (ReaderView { pos: vaddr, ..old(self)@ }));
        let r = f(self);
        self.pos = back;
        r
    }

    /// Whether a string read at `vaddr` would start inside its stream.
    pub fn cstring_in_range(&self, vaddr: u64) -> (b: bool)
        ensures
            b == cstring_in_range(self@.system, self@.graphics, vaddr),
    {
        if vaddr == 0 {
            return true;
        }
        match self.resolve(vaddr) {
            Err(_) => true,
            Ok((buf, off)) => off <= buf.len() as u64,
        }
    }

    /// The NUL-terminated UTF-8 string at virtual address `vaddr`; the cursor does not
    /// move.
    pub fn read_cstring_at(&self, vaddr: u64) -> (r: Option<String>)
        requires
            cstring_in_range(self@.system, self@.graphics, vaddr),
        ensures
            match cstring_spec(self@.system, self@.graphics, vaddr) {
                None => r is None,
                Some(cs) => r matches Some(s) && s@ == cs,
            },
    {
        if vaddr == 0 {
            return None;
        }
        let (buf, off) = match self.resolve(vaddr) {
            Ok(x) => x,
            Err(_) => {
                return None;
            },
        };
        let start = off as usize;
        let mut end = start;
        while end < buf.len() && buf[end] != 0
            invariant
                start <= end <= buf@.len(),
                nul_end(buf@, start as int) == nul_end(buf@, end as int),
            decreases buf@.len() - end,
        {
            end = end + 1;
        }
        match str_from_utf8(slice_subrange(buf.as_slice(), start, end)) {
            Some(s) => Some(s.to_owned()),
            None => None,
        }
    }

    /// Reads one field of width `w` at the cursor.
    pub fn read_field(&mut self, w: ReadWidth) -> (r: Result<u64, YcdError>)
        ensures
            r == old(self)@.read(w),
            final(self)@ == old(self)@.after_read(w),
    {
        match w {
            ReadWidth::U8 => {
                let v = self.read_u8()?;
                Ok(v as u64)
            },
            ReadWidth::U16 => {
                let v = self.read_u16()?;
                Ok(v as u64)
            },
            ReadWidth::U32 => {
                let v = self.read_u32()?;
                Ok(v as u64)
            },
            ReadWidth::U64 => self.read_u64(),
        }
    }

    /// Reads consecutive fields of widths `ws` at the cursor.
    pub fn read_record(&mut self, ws: &[ReadWidth]) -> (r: Result<Vec<u64>, YcdError>)
        ensures
            match read_record(old(self)@.system, old(self)@.graphics, old(self)@.pos, ws@) {
                Ok(vs) => r matches Ok(v) && v@ == vs && final(self)@.pos == record_end(
                    old(self)@.pos,
                    ws@,
                ),
                Err(e) => r == Err::<Vec<u64>, YcdError>(e),
            },
            r matches Ok(v) ==> v@.len() == ws@.len(),
            final(self)@.system == old(self)@.system,
            final(self)@.graphics == old(self)@.graphics,
    {
        proof {
            lemma_record_len(self@.system, self@.graphics, self@.pos, ws@);
        }
        let ghost sys = self@.system;
        let ghost gfx = self@.graphics;
        let ghost start = self@.pos;
        let mut vals: Vec<u64> = Vec::new();
        let mut i: usize = 0;
        proof {
            assert(ws@.skip(0) =~= ws@);
            match read_record(sys, gfx, start, ws@) {
                Ok(vs) => {
                    assert(Seq::<u64>::empty() + vs =~= vs);
                },
                Err(_) => {},
            }
        }
        while i < ws.len()
            invariant
                self@.system == sys,
                self@.graphics == gfx,
                sys == old(self)@.system,
                gfx == old(self)@.graphics,
                start == old(self)@.pos,
                0 <= i <= ws@.len(),
                read_record(sys, gfx, start, ws@) == prepend_fields(
                    vals@,
                    read_record(sys, gfx, self@.pos, ws@.skip(i as int)),
                ),
                record_end(start, ws@) == record_end(self@.pos, ws@.skip(i as int)),
            decreases ws@.len() - i,
        {
            let ghost p = self@.pos;
            let ghost rest = ws@.skip(i as int);
            assert(rest.drop_first() =~= ws@.skip(i + 1));
            assert(rest[0] == ws@[i as int]);
            let rv = self.read_field(ws[i]);
            let v = match rv {
                Ok(v) => v,
                Err(e) => {
                    return Err(e);
                },
            };
            proof {
                let tail = read_record(sys, gfx, self@.pos, ws@.skip(i + 1));
                match tail {
                    Ok(vs) => {
                        assert(vals@.push(v) + vs =~= vals@ + (seq![v] + vs));
                    },
                    Err(_) => {},
                }
            }
            vals.push(v);
            i = i + 1;
        }
        assert(ws@.skip(i as int) =~= Seq::<ReadWidth>::empty());
        assert(vals@ + Seq::<u64>::empty() =~= vals@);
        Ok(vals)
    }
} // impl

} // verus!
