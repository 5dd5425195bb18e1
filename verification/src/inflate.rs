//! Inflating the body of a resource with flate2's zlib or raw-deflate decoder.
use vstd::prelude::*;
use flate2::read::{DeflateDecoder, ZlibDecoder};
use std::io::Read;

verus! {

/// What `flate2::read::ZlibDecoder` yields when `body` is read to its end, or `None`
/// when it reports an error.
pub uninterp spec fn zlib_decoded(body: Seq<u8>) -> Option<Seq<u8>>;

/// What `flate2::read::DeflateDecoder` yields when `body` is read to its end, or
/// `None` when it reports an error.
pub uninterp spec fn deflate_decoded(body: Seq<u8>) -> Option<Seq<u8>>;

/// `flate2::read::ZlibDecoder` over `body`, read to the end with `Read::read_to_end`.
/// The contract names the result: it depends on the bytes of `body` alone.
#[verifier::external_body]
fn zlib_decode(body: &[u8]) -> (r: Option<Vec<u8>>)
    ensures
        match zlib_decoded(body@) {
            None => r is None,
            Some(d) => r matches Some(v) && v@ == d,
        },
{
    let mut out = Vec::new();
    match ZlibDecoder::new(body).read_to_end(&mut out) {
        Ok(_) => Some(out),
        Err(_) => None,
    }
}

/// `flate2::read::DeflateDecoder` over `body`, read to the end with
/// `Read::read_to_end`. The contract names the result: it depends on the bytes of
/// `body` alone.
#[verifier::external_body]
fn deflate_decode(body: &[u8]) -> (r: Option<Vec<u8>>)
    ensures
        match deflate_decoded(body@) {
            None => r is None,
            Some(d) => r matches Some(v) && v@ == d,
        },
{
    let mut out = Vec::new();
    match DeflateDecoder::new(body).read_to_end(&mut out) {
        Ok(_) => Some(out),
        Err(_) => None,
    }
}

/// The inflated body: the zlib stream if it decodes to something, else the raw
/// deflate stream if that does, else nothing.
pub open spec fn inflate_spec(body: Seq<u8>) -> Option<Seq<u8>> {
    if zlib_decoded(body) is Some && zlib_decoded(body)->0.len() > 0 {
        zlib_decoded(body)
    } else if deflate_decoded(body) is Some && deflate_decoded(body)->0.len() > 0 {
        deflate_decoded(body)
    } else {
        None
    }
}

/// The zlib stream wins when it decodes to something; raw deflate is used only when
/// zlib gives nothing, and an empty decoding counts as nothing.
pub proof fn lemma_inflate_choice(body: Seq<u8>)
    ensures
        (zlib_decoded(body) matches Some(d) && d.len() > 0) ==> inflate_spec(body)
            == zlib_decoded(body),
        !(zlib_decoded(body) matches Some(d) && d.len() > 0) && (deflate_decoded(
            body,
        ) matches Some(d) && d.len() > 0) ==> inflate_spec(body) == deflate_decoded(body),
        !(zlib_decoded(body) matches Some(d) && d.len() > 0) && !(deflate_decoded(
            body,
        ) matches Some(d) && d.len() > 0) ==> inflate_spec(body) is None,
        inflate_spec(body) matches Some(d) ==> d.len() > 0,
{
}

/// Given what the two decoders produced, picks the inflated body as `inflate_spec`
/// describes.
pub fn choose_inflated(zlib: Option<Vec<u8>>, deflate: Option<Vec<u8>>) -> (r: Option<Vec<u8>>)
    ensures
        match zlib {
            Some(z) if z.len() > 0 => r == Some(z),
            _ => match deflate {
                Some(d) if d.len() > 0 => r == Some(d),
                _ => r is None,
            },
        },
{
    if let Some(z) = zlib {
        if z.len() > 0 {
            return Some(z);
        }
    }
    if let Some(d) = deflate {
        if d.len() > 0 {
            return Some(d);
        }
    }
    None
}

/// Inflates `body` with zlib, falling back to raw deflate.
pub fn try_zlib_inflate(body: &[u8]) -> (r: Option<Vec<u8>>)
    ensures
        match inflate_spec(body@) {
            None => r is None,
            Some(d) => r matches Some(v) && v@ == d,
        },
{
    let z = zlib_decode(body);
    let zlib_nonempty = match &z {
        Some(out) => out.len() > 0,
        None => false,
    };
    if zlib_nonempty {
        // The raw-deflate decoder is only tried when zlib gives nothing.
        choose_inflated(z, None)
    } else {
        choose_inflated(z, deflate_decode(body))
    }
}

} // verus!
