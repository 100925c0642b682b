//! Expanding compressed message sets: GZIP, and Snappy in the framing that
//! Kafka brokers write.
//!
//! The two codecs themselves are not part of this library. What they
//! return is known here only by name: `gzip_expanded` and
//! `snappy_expanded`.

use crate::error::Error;
use crate::zreader::{available, be_i32, ZReader};
use vstd::prelude::*;

verus! {

/// The error type of the `std::io` traits.
#[verifier::external_type_specification]
#[verifier::external_body]
pub struct ExIoError(std::io::Error);

/// What reading a `flate2::read::GzDecoder` over `src` to its end yields:
/// the expanded bytes, or nothing where the decoder reports an error.
pub uninterp spec fn gzip_expanded(src: Seq<u8>) -> Option<Seq<u8>>;

/// What `snap::raw::Decoder::decompress_vec` yields for `src`: the expanded
/// bytes, or nothing where the decoder reports an error.
pub uninterp spec fn snappy_expanded(src: Seq<u8>) -> Option<Seq<u8>>;

/// Reads a `flate2::read::GzDecoder` over `src` to its end with
/// `std::io::Read::read_to_end`. The contract only names the outcome, which
/// depends on `src` alone: the bytes read on success, none on an error.
#[verifier::external_body]
fn gzip_read_to_end(src: &[u8]) -> (r: Result<Vec<u8>, std::io::Error>)
    ensures
        match r {
            Ok(v) => gzip_expanded(src@) == Some(v@),
            Err(_) => gzip_expanded(src@).is_none(),
        },
{
    let mut out = Vec::new();
    std::io::Read::read_to_end(&mut flate2::read::GzDecoder::new(src), &mut out)?;
    Ok(out)
}

/// Calls `snap::raw::Decoder::decompress_vec` on `src`. The contract only
/// names the outcome, which depends on `src` alone: the bytes returned on
/// success, none on an error.
#[verifier::external_body]
fn snappy_decompress_vec(src: &[u8]) -> (r: Option<Vec<u8>>)
    ensures
        match r {
            Some(v) => snappy_expanded(src@) == Some(v@),
            None => snappy_expanded(src@).is_none(),
        },
{
    snap::raw::Decoder::new().decompress_vec(src).ok()
}

/// The eight bytes that open a Snappy stream as brokers frame it.
pub open spec fn snappy_magic() -> Seq<u8> {
    seq![0x82u8, 0x53u8, 0x4eu8, 0x41u8, 0x50u8, 0x50u8, 0x59u8, 0x00u8]
}

/// Whether `s` starts with the header of a framed Snappy stream: the magic
/// bytes, then version 1 and lowest compatible version 1.
pub open spec fn spec_snappy_header(s: Seq<u8>) -> bool {
    &&& s.len() >= 16
    &&& s.subrange(0, 8) == snappy_magic()
    &&& be_i32(s, 8) == 1
    &&& be_i32(s, 12) == 1
}

/// The expansion of the chunks of a framed Snappy stream from `pos` on,
/// appended to `acc`. Each chunk is a positive 32-bit length and that many
/// bytes of raw Snappy data. Nothing where a chunk is cut short, has no
/// positive length or does not expand.
pub open spec fn spec_snappy_chunks(s: Seq<u8>, pos: int, acc: Seq<u8>) -> Option<Seq<u8>>
    decreases s.len() - pos,
{
    if pos >= s.len() {
        Some(acc)
    } else if !available(s, pos, 4) || be_i32(s, pos) <= 0 || !available(
        s,
        pos + 4,
        be_i32(s, pos) as int,
    ) {
        None
    } else {
        match snappy_expanded(s.subrange(pos + 4, pos + 4 + be_i32(s, pos))) {
            None => None,
            Some(b) => spec_snappy_chunks(s, pos + 4 + be_i32(s, pos), acc + b),
        }
    }
}

/// The expansion of a framed Snappy stream: the expansions of its chunks,
/// one after the other.
pub open spec fn spec_snappy_framed(s: Seq<u8>) -> Option<Seq<u8>> {
    if spec_snappy_header(s) {
        spec_snappy_chunks(s, 16, Seq::empty())
    } else {
        None
    }
}

/// What a compressed payload expands to under the codec with the given
/// number: 1 is GZIP, 2 is framed Snappy.
pub open spec fn spec_expanded(codec: int, src: Seq<u8>) -> Option<Seq<u8>> {
    if codec == 1 {
        gzip_expanded(src)
    } else {
        spec_snappy_framed(src)
    }
}

/// Expands GZIP data.
pub fn gzip_uncompress(src: &[u8]) -> (r: Result<Vec<u8>, Error>)
    ensures
        match gzip_expanded(src@) {
            Some(b) => r matches Ok(v) && v@ == b,
            None => r == Err::<Vec<u8>, Error>(Error::Decompression),
        },
{
    match gzip_read_to_end(src) {
        Ok(v) => Ok(v),
        Err(_) => Err(Error::Decompression),
    }
}

fn has_snappy_magic(m: &[u8]) -> (b: bool)
    requires
        m@.len() == 8,
    ensures
        b == (m@ == snappy_magic()),
{
    let b = m[0] == 0x82 && m[1] == 0x53 && m[2] == 0x4e && m[3] == 0x41 && m[4] == 0x50 && m[5]
        == 0x50 && m[6] == 0x59 && m[7] == 0x00;
    proof {
        if b {
            assert(m@ =~= snappy_magic());
        }
    }
    b
}

/// Expands a Snappy stream in the framing that brokers write: a header,
/// then chunks of raw Snappy data, each prefixed with its length.
pub fn snappy_uncompress(src: &[u8]) -> (r: Result<Vec<u8>, Error>)
    ensures
        match spec_snappy_framed(src@) {
            Some(b) => r matches Ok(v) && v@ == b,
            None => r == Err::<Vec<u8>, Error>(Error::Decompression),
        },
{
    let mut rd = ZReader::new(src);
    let magic = match rd.read_exact(8) {
        Ok(m) => m,
        Err(_) => return Err(Error::Decompression),
    };
    if !has_snappy_magic(magic) {
        return Err(Error::Decompression);
    }
    let version = match rd.read_i32() {
        Ok(v) => v,
        Err(_) => return Err(Error::Decompression),
    };
    let compatible = match rd.read_i32() {
        Ok(v) => v,
        Err(_) => return Err(Error::Decompression),
    };
    if version != 1 || compatible != 1 {
        return Err(Error::Decompression);
    }
    let mut out: Vec<u8> = Vec::new();
    while !rd.is_empty()
        invariant
            rd.data() == src@,
            16 <= rd.pos() <= src@.len(),
            spec_snappy_framed(src@) == spec_snappy_chunks(src@, rd.pos(), out@),
        decreases src@.len() - rd.pos(),
    {
        let ghost at = rd.pos();
        let ghost acc = out@;
        let n = match rd.read_i32() {
            Ok(n) => n,
            Err(_) => return Err(Error::Decompression),
        };
        if n <= 0 {
            return Err(Error::Decompression);
        }
        let chunk = match rd.read_exact(n as usize) {
            Ok(c) => c,
            Err(_) => return Err(Error::Decompression),
        };
        match snappy_decompress_vec(chunk) {
            Some(v) => {
                out.extend_from_slice(v.as_slice());
                assert(chunk@ == src@.subrange(at + 4, at + 4 + n));
                assert(out@ == acc + v@);
            },
            None => return Err(Error::Decompression),
        }
    }
    Ok(out)
}

} // verus!
