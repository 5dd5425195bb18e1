//! Errors reported while unpacking and walking a clip dictionary.
use vstd::prelude::*;
use vstd::string::StringExecFns;

verus! {

/// Width of a little-endian integer read from a resource stream.
#[derive(Clone, Copy, Debug, PartialEq, Eq, Structural)]
pub enum ReadWidth {
    U8,
    U16,
    U32,
    U64,
}

impl ReadWidth {
    /// Number of bytes a value of this width occupies.
    pub open spec fn size(self) -> nat {
        match self {
            ReadWidth::U8 => 1,
            ReadWidth::U16 => 2,
            ReadWidth::U32 => 4,
            ReadWidth::U64 => 8,
        }
    }

    pub fn byte_count(self) -> (n: u64)
        ensures
            n == self.size(),
    {
        match self {
            ReadWidth::U8 => 1,
            ReadWidth::U16 => 2,
            ReadWidth::U32 => 4,
            ReadWidth::U64 => 8,
        }
    }
}

/// Why a `.ycd` buffer could not be read.
#[derive(Clone, Copy, Debug, PartialEq, Eq, Structural)]
pub enum YcdError {
    /// Fewer than four bytes: not even a magic number.
    BufferTooSmall,
    /// The RSC7 magic is present but the 16-byte header is cut short.
    Rsc7HeaderTruncated,
    /// A virtual address that maps to neither the system nor the graphics stream.
    IllegalAddress(u64),
    /// A read of the given width runs past the end of its stream.
    ReadPastEnd(ReadWidth),
    /// A jump to the null address was requested.
    ZeroAddress,
}

/// Lower-case hexadecimal digit of a value below 16.
pub open spec fn hex_digit(d: nat) -> char {
    if d < 10 {
        (('0' as u32) + d) as char
    } else {
        (('a' as u32) + (d - 10)) as char
    }
}

/// Lower-case hexadecimal notation of `v`, without leading zeros (`0` for zero).
pub open spec fn hex_text(v: nat) -> Seq<char>
    decreases v,
{
    if v < 16 {
        seq![hex_digit(v)]
    } else {
        hex_text(v / 16).push(hex_digit(v % 16))
    }
}

/// The text an error is reported with.
pub open spec fn error_text(e: YcdError) -> Seq<char> {
    match e {
        YcdError::BufferTooSmall => "buffer too small"@,
        YcdError::Rsc7HeaderTruncated => "RSC7 header truncated"@,
        YcdError::IllegalAddress(a) => "Illegal resource address: 0x"@ + hex_text(a as nat),
        YcdError::ReadPastEnd(w) => match w {
            ReadWidth::U8 => "read_u8 past end"@,
            ReadWidth::U16 => "read_u16 past end"@,
            ReadWidth::U32 => "read_u32 past end"@,
            ReadWidth::U64 => "read_u64 past end"@,
        },
        YcdError::ZeroAddress => "at(0)"@,
    }
}

/// `String::push`: appends one character.
#[verifier::external_body]
fn push_char(s: &mut String, c: char)
    ensures
        final(s)@ == old(s)@.push(c),
{
    s.push(c);
}

/// A `String` holding exactly the given characters.
pub(crate) fn string_from_chars(chars: &Vec<char>) -> (s: String)
    ensures
        s@ == chars@,
{
    let mut s = String::new();
    let mut i: usize = 0;
    while i < chars.len()
        invariant
            i <= chars@.len(),
            s@ == chars@.take(i as int),
        decreases chars@.len() - i,
    {
        push_char(&mut s, chars[i]);
        assert(chars@.take(i + 1) =~= chars@.take(i as int).push(chars@[i as int]));
        i = i + 1;
    }
    assert(chars@.take(i as int) =~= chars@);
    s
}

fn push_hex(v: u64, out: &mut Vec<char>)
    ensures
        final(out)@ == old(out)@ + hex_text(v as nat),
    decreases v,
{
    if v >= 16 {
        push_hex(v / 16, out);
    }
    let d = (v % 16) as u8;
    let c: char = if d < 10 {
        (48 + d) as char
    } else {
        (87 + d) as char
    };
    assert(c == hex_digit(d as nat));
    out.push(c);
    assert(old(out)@ + hex_text(v as nat) =~= final(out)@) by {
        if v >= 16 {
            assert(hex_text(v as nat) == hex_text((v / 16) as nat).push(hex_digit((v % 16) as nat)));
        }
    }
}

/// Lower-case hexadecimal notation of `v`.
pub fn hex_string(v: u64) -> (s: String)
    ensures
        s@ == hex_text(v as nat),
{
    let mut digits: Vec<char> = Vec::new();
    push_hex(v, &mut digits);
    assert(digits@ =~= hex_text(v as nat));
    string_from_chars(&digits)
}

impl YcdError {
    /// The human-readable text of this error.
    pub fn message(&self) -> (s: String)
        ensures
            s@ == error_text(*self),
    {
        match self {
            YcdError::BufferTooSmall => String::from_str("buffer too small"),
            YcdError::Rsc7HeaderTruncated => String::from_str("RSC7 header truncated"),
            YcdError::IllegalAddress(a) => {
                let mut s = String::from_str("Illegal resource address: 0x");
                let h = hex_string(*a);
                s.append(h.as_str());
                s
            },
            YcdError::ReadPastEnd(w) => match w {
                ReadWidth::U8 => String::from_str("read_u8 past end"),
                ReadWidth::U16 => String::from_str("read_u16 past end"),
                ReadWidth::U32 => String::from_str("read_u32 past end"),
                ReadWidth::U64 => String::from_str("read_u64 past end"),
            },
            YcdError::ZeroAddress => String::from_str("at(0)"),
        }
    }
}

} // verus!
