//! A cursor over a byte slice that reads the primitive values of the Kafka
//! wire format: big-endian two's complement integers, and byte blocks,
//! strings and arrays that are prefixed with their length.

use crate::error::Error;
use vstd::prelude::*;
use vstd::string::StringSliceAdditionalSpecFns;
use vstd::utf8::valid_utf8;

verus! {

/// The unsigned value of the two bytes at `at`, most significant first.
pub open spec fn be_u16(s: Seq<u8>, at: int) -> int {
    s[at] as int * 0x100 + s[at + 1] as int
}

/// The unsigned value of the four bytes at `at`, most significant first.
pub open spec fn be_u32(s: Seq<u8>, at: int) -> int {
    be_u16(s, at) * 0x1_0000 + be_u16(s, at + 2)
}

/// The unsigned value of the eight bytes at `at`, most significant first.
pub open spec fn be_u64(s: Seq<u8>, at: int) -> int {
    be_u32(s, at) * 0x1_0000_0000 + be_u32(s, at + 4)
}

/// The two's complement reading of an unsigned value `u` below `2 * half`.
pub open spec fn twos_complement(u: int, half: int) -> int {
    if u >= half {
        u - 2 * half
    } else {
        u
    }
}

/// The signed byte at `at`.
pub open spec fn be_i8(s: Seq<u8>, at: int) -> i8 {
    twos_complement(s[at] as int, 0x80) as i8
}

/// The signed 16-bit integer at `at`.
pub open spec fn be_i16(s: Seq<u8>, at: int) -> i16 {
    twos_complement(be_u16(s, at), 0x8000) as i16
}

/// The signed 32-bit integer at `at`.
pub open spec fn be_i32(s: Seq<u8>, at: int) -> i32 {
    twos_complement(be_u32(s, at), 0x8000_0000) as i32
}

/// The signed 64-bit integer at `at`.
pub open spec fn be_i64(s: Seq<u8>, at: int) -> i64 {
    twos_complement(be_u64(s, at), 0x8000_0000_0000_0000) as i64
}

/// Whether `n` bytes can be read from `s` at `pos`.
pub open spec fn available(s: Seq<u8>, pos: int, n: int) -> bool {
    0 <= pos && 0 <= n && pos + n <= s.len()
}

/// A stretch of a buffer: `len` bytes from `start` on.
pub struct Extent {
    pub start: int,
    pub len: int,
}

impl Extent {
    /// The bytes of `s` that the extent covers.
    pub open spec fn of(self, s: Seq<u8>) -> Seq<u8> {
        s.subrange(self.start, self.start + self.len)
    }

    /// Whether the extent lies inside `s`.
    pub open spec fn within(self, s: Seq<u8>) -> bool {
        0 <= self.start && 0 <= self.len && self.start + self.len <= s.len()
    }

    /// The same extent, seen from a buffer in which `s` starts at `base`.
    pub open spec fn shifted(self, base: int) -> Extent {
        Extent { start: self.start + base, len: self.len }
    }
}

/// Reading a signed byte at `pos`: the value and the next position.
pub open spec fn spec_read_i8(s: Seq<u8>, pos: int) -> Result<(i8, int), Error> {
    if available(s, pos, 1) {
        Ok((be_i8(s, pos), pos + 1))
    } else {
        Err(Error::UnexpectedEOF)
    }
}

/// Reading a 16-bit integer at `pos`: the value and the next position.
pub open spec fn spec_read_i16(s: Seq<u8>, pos: int) -> Result<(i16, int), Error> {
    if available(s, pos, 2) {
        Ok((be_i16(s, pos), pos + 2))
    } else {
        Err(Error::UnexpectedEOF)
    }
}

/// Reading a 32-bit integer at `pos`: the value and the next position.
pub open spec fn spec_read_i32(s: Seq<u8>, pos: int) -> Result<(i32, int), Error> {
    if available(s, pos, 4) {
        Ok((be_i32(s, pos), pos + 4))
    } else {
        Err(Error::UnexpectedEOF)
    }
}

/// Reading a 64-bit integer at `pos`: the value and the next position.
pub open spec fn spec_read_i64(s: Seq<u8>, pos: int) -> Result<(i64, int), Error> {
    if available(s, pos, 8) {
        Ok((be_i64(s, pos), pos + 8))
    } else {
        Err(Error::UnexpectedEOF)
    }
}

/// Reading exactly `n` bytes at `pos`.
pub open spec fn spec_read_exact(s: Seq<u8>, pos: int, n: int) -> Result<(Extent, int), Error> {
    if available(s, pos, n) {
        Ok((Extent { start: pos, len: n }, pos + n))
    } else {
        Err(Error::UnexpectedEOF)
    }
}

/// Reading the length of an array at `pos`: a 32-bit integer that must not
/// be negative.
pub open spec fn spec_read_array_len(s: Seq<u8>, pos: int) -> Result<(int, int), Error> {
    if !available(s, pos, 4) {
        Err(Error::UnexpectedEOF)
    } else if be_i32(s, pos) < 0 {
        Err(Error::InvalidData)
    } else {
        Ok((be_i32(s, pos) as int, pos + 4))
    }
}

/// Reading a byte block at `pos`: a 32-bit length, then that many bytes. A
/// negative length stands for a missing block, which reads as an empty one.
pub open spec fn spec_read_bytes(s: Seq<u8>, pos: int) -> Result<(Extent, int), Error> {
    if !available(s, pos, 4) {
        Err(Error::UnexpectedEOF)
    } else if be_i32(s, pos) < 0 {
        Ok((Extent { start: pos + 4, len: 0 }, pos + 4))
    } else if !available(s, pos + 4, be_i32(s, pos) as int) {
        Err(Error::UnexpectedEOF)
    } else {
        Ok((Extent { start: pos + 4, len: be_i32(s, pos) as int }, pos + 4 + be_i32(s, pos)))
    }
}

/// Reading a string at `pos`: a 16-bit length, then that many bytes of
/// UTF-8. A negative length stands for a missing string, which reads as an
/// empty one.
pub open spec fn spec_read_str(s: Seq<u8>, pos: int) -> Result<(Extent, int), Error> {
    if !available(s, pos, 2) {
        Err(Error::UnexpectedEOF)
    } else if be_i16(s, pos) < 0 {
        Ok((Extent { start: pos + 2, len: 0 }, pos + 2))
    } else if !available(s, pos + 2, be_i16(s, pos) as int) {
        Err(Error::UnexpectedEOF)
    } else if !valid_utf8(s.subrange(pos + 2, pos + 2 + be_i16(s, pos))) {
        Err(Error::InvalidData)
    } else {
        Ok((Extent { start: pos + 2, len: be_i16(s, pos) as int }, pos + 2 + be_i16(s, pos)))
    }
}

/// `std::str::from_utf8`: the bytes as a string slice exactly when they are
/// valid UTF-8, and then the string consists of those same bytes.
#[verifier::external_body]
pub(crate) fn str_from_utf8<'a>(v: &'a [u8]) -> (r: Option<&'a str>)
    ensures
        r.is_some() <==> valid_utf8(v@),
        r matches Some(t) ==> t.spec_bytes() == v@,
{
    std::str::from_utf8(v).ok()
}

/// A read position in a borrowed byte slice. Nothing is copied: what the
/// reads hand out are parts of that slice. A read that fails leaves the
/// position where it was.
pub struct ZReader<'a> {
    data: &'a [u8],
    pos: usize,
}

impl<'a> ZReader<'a> {
    #[verifier::type_invariant]
    spec fn in_bounds(self) -> bool {
        self.pos <= self.data@.len()
    }

    /// The bytes the reader was made over.
    pub closed spec fn data(&self) -> Seq<u8> {
        self.data@
    }

    /// The number of bytes read so far.
    pub closed spec fn pos(&self) -> int {
        self.pos as int
    }

    /// A reader at the start of `data`.
    pub fn new(data: &'a [u8]) -> (r: ZReader<'a>)
        ensures
            r.data() == data@,
            r.pos() == 0,
    {
        ZReader { data, pos: 0 }
    }

    /// The number of bytes read so far.
    pub fn position(&self) -> (p: usize)
        ensures
            p == self.pos(),
            p <= self.data().len(),
    {
        proof {
            use_type_invariant(self);
        }
        self.pos
    }

    /// Whether every byte has been read.
    pub fn is_empty(&self) -> (b: bool)
        ensures
            b == (self.pos() == self.data().len()),
            self.pos() <= self.data().len(),
    {
        proof {
            use_type_invariant(self);
        }
        self.pos == self.data.len()
    }

    fn left(&self) -> (n: usize)
        ensures
            n == self.data().len() - self.pos(),
            self.data().len() <= usize::MAX,
    {
        proof {
            use_type_invariant(self);
        }
        self.data.len() - self.pos
    }

    fn byte(&self, i: usize) -> (b: u8)
        requires
            self.pos() + i < self.data().len(),
        ensures
            b == self.data()[self.pos() + i],
    {
        let _total = self.data.len();
        self.data[self.pos + i]
    }

    fn take(&mut self, n: usize) -> (b: &'a [u8])
        requires
            old(self).pos() + n <= old(self).data().len(),
        ensures
            final(self).data() == old(self).data(),
            final(self).pos() == old(self).pos() + n,
            b@ == old(self).data().subrange(old(self).pos(), old(self).pos() + n),
    {
        let all: &'a [u8] = self.data;
        let _total = all.len();
        let from = self.pos;
        self.pos = from + n;
        &all[from..from + n]
    }

    /// Reads a signed byte.
    pub fn read_i8(&mut self) -> (r: Result<i8, Error>)
        ensures
            final(self).data() == old(self).data(),
            match spec_read_i8(old(self).data(), old(self).pos()) {
                Ok((v, next)) => r == Ok::<i8, Error>(v) && final(self).pos() == next,
                Err(e) => r == Err::<i8, Error>(e) && final(self).pos() == old(self).pos(),
            },
    {
        if self.left() < 1 {
            return Err(Error::UnexpectedEOF);
        }
        let u = self.byte(0);
        self.pos = self.pos + 1;
        if u >= 0x80 {
            Ok((u - 0x80) as i8 + i8::MIN)
        } else {
            Ok(u as i8)
        }
    }

    /// Reads a 16-bit integer.
    pub fn read_i16(&mut self) -> (r: Result<i16, Error>)
        ensures
            final(self).data() == old(self).data(),
            match spec_read_i16(old(self).data(), old(self).pos()) {
                Ok((v, next)) => r == Ok::<i16, Error>(v) && final(self).pos() == next,
                Err(e) => r == Err::<i16, Error>(e) && final(self).pos() == old(self).pos(),
            },
    {
        if self.left() < 2 {
            return Err(Error::UnexpectedEOF);
        }
        let u: u16 = self.byte(0) as u16 * 0x100 + self.byte(1) as u16;
        self.pos = self.pos + 2;
        if u >= 0x8000 {
            Ok((u - 0x8000) as i16 + i16::MIN)
        } else {
            Ok(u as i16)
        }
    }

    fn word(&self, i: usize) -> (u: u32)
        requires
            self.pos() + i + 4 <= self.data().len(),
        ensures
            u == be_u32(self.data(), self.pos() + i),
    {
        let _left = self.left();
        let hi: u32 = self.byte(i) as u32 * 0x100 + self.byte(i + 1) as u32;
        let lo: u32 = self.byte(i + 2) as u32 * 0x100 + self.byte(i + 3) as u32;
        hi * 0x1_0000 + lo
    }

    /// Reads a 32-bit integer.
    pub fn read_i32(&mut self) -> (r: Result<i32, Error>)
        ensures
            final(self).data() == old(self).data(),
            match spec_read_i32(old(self).data(), old(self).pos()) {
                Ok((v, next)) => r == Ok::<i32, Error>(v) && final(self).pos() == next,
                Err(e) => r == Err::<i32, Error>(e) && final(self).pos() == old(self).pos(),
            },
    {
        if self.left() < 4 {
            return Err(Error::UnexpectedEOF);
        }
        let u: u32 = self.word(0);
        self.pos = self.pos + 4;
        if u >= 0x8000_0000 {
            Ok((u - 0x8000_0000) as i32 + i32::MIN)
        } else {
            Ok(u as i32)
        }
    }

    /// Reads a 64-bit integer.
    pub fn read_i64(&mut self) -> (r: Result<i64, Error>)
        ensures
            final(self).data() == old(self).data(),
            match spec_read_i64(old(self).data(), old(self).pos()) {
                Ok((v, next)) => r == Ok::<i64, Error>(v) && final(self).pos() == next,
                Err(e) => r == Err::<i64, Error>(e) && final(self).pos() == old(self).pos(),
            },
    {
        if self.left() < 8 {
            return Err(Error::UnexpectedEOF);
        }
        let u: u64 = self.word(0) as u64 * 0x1_0000_0000 + self.word(4) as u64;
        self.pos = self.pos + 8;
        if u >= 0x8000_0000_0000_0000 {
            Ok((u - 0x8000_0000_0000_0000) as i64 + i64::MIN)
        } else {
            Ok(u as i64)
        }
    }

    /// Reads the next `n` bytes.
    pub fn read_exact(&mut self, n: usize) -> (r: Result<&'a [u8], Error>)
        ensures
            final(self).data() == old(self).data(),
            match spec_read_exact(old(self).data(), old(self).pos(), n as int) {
                Ok((extent, next)) => r matches Ok(b) && b@ == extent.of(old(self).data())
                    && final(self).pos() == next,
                Err(e) => r == Err::<&[u8], Error>(e) && final(self).pos() == old(self).pos(),
            },
    {
        if self.left() < n {
            return Err(Error::UnexpectedEOF);
        }
        Ok(self.take(n))
    }

    /// Reads the length of an array, which must not be negative.
    pub fn read_array_len(&mut self) -> (r: Result<usize, Error>)
        ensures
            final(self).data() == old(self).data(),
            match spec_read_array_len(old(self).data(), old(self).pos()) {
                Ok((n, next)) => r matches Ok(v) && v == n && final(self).pos() == next,
                Err(e) => r == Err::<usize, Error>(e) && final(self).pos() == old(self).pos(),
            },
    {
        let start = self.pos;
        let n = self.read_i32()?;
        if n < 0 {
            self.pos = start;
            return Err(Error::InvalidData);
        }
        Ok(n as usize)
    }

    /// Reads a byte block. A missing block (negative length) reads as an
    /// empty one.
    pub fn read_bytes(&mut self) -> (r: Result<&'a [u8], Error>)
        ensures
            final(self).data() == old(self).data(),
            match spec_read_bytes(old(self).data(), old(self).pos()) {
                Ok((extent, next)) => r matches Ok(b) && b@ == extent.of(old(self).data())
                    && final(self).pos() == next,
                Err(e) => r == Err::<&[u8], Error>(e) && final(self).pos() == old(self).pos(),
            },
    {
        let start = self.pos;
        let n = self.read_i32()?;
        if n < 0 {
            return Ok(self.take(0));
        }
        if self.left() < n as usize {
            self.pos = start;
            return Err(Error::UnexpectedEOF);
        }
        Ok(self.take(n as usize))
    }

    /// Reads a string. A missing string (negative length) reads as an empty
    /// one.
    pub fn read_str(&mut self) -> (r: Result<&'a str, Error>)
        ensures
            final(self).data() == old(self).data(),
            match spec_read_str(old(self).data(), old(self).pos()) {
                Ok((extent, next)) => r matches Ok(t) && t.spec_bytes() == extent.of(
                    old(self).data(),
                ) && final(self).pos() == next,
                Err(e) => r == Err::<&str, Error>(e) && final(self).pos() == old(self).pos(),
            },
    {
        let start = self.pos;
        let n = self.read_i16()?;
        let len: usize = if n < 0 {
            0
        } else {
            n as usize
        };
        if self.left() < len {
            self.pos = start;
            return Err(Error::UnexpectedEOF);
        }
        let raw = self.take(len);
        match str_from_utf8(raw) {
            Some(t) => Ok(t),
            None => {
                self.pos = start;
                Err(Error::InvalidData)
            },
        }
    }
}

} // verus!
