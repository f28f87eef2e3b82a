use byteorder::{ByteOrder, LittleEndian};
use vstd::prelude::*;
use vstd::slice::{slice_subrange, slice_to_vec};
use vstd::utf8::{decode_utf8, valid_utf8};

use crate::error::DecodeError;

verus! {

/// Upper bound on the declared length of a length-prefixed string.
pub const MAX_STRING_LEN: u64 = 1024;

/// The outcome of a read at some position: the value and the position just
/// past it, or the error that stops decoding.
pub type Step<T> = Result<(T, int), DecodeError>;

/// The unsigned number whose little-endian byte encoding is `b`.
pub open spec fn le_value(b: Seq<u8>) -> nat
    decreases b.len(),
{
    if b.len() == 0 {
        0
    } else {
        b[0] as nat + 256 * le_value(b.drop_first())
    }
}

/// The `n` bytes of `s` that start at `p`.
pub open spec fn take(s: Seq<u8>, p: int, n: int) -> Step<Seq<u8>> {
    if p + n <= s.len() {
        Ok((s.subrange(p, p + n), p + n))
    } else {
        Err(DecodeError::TruncatedInput { offset: p as usize })
    }
}

/// The little-endian `u16` at `p`.
pub open spec fn u16_at(s: Seq<u8>, p: int) -> Step<u16> {
    match take(s, p, 2) {
        Ok((b, q)) => Ok((le_value(b) as u16, q)),
        Err(e) => Err(e),
    }
}

/// The little-endian `u32` at `p`.
pub open spec fn u32_at(s: Seq<u8>, p: int) -> Step<u32> {
    match take(s, p, 4) {
        Ok((b, q)) => Ok((le_value(b) as u32, q)),
        Err(e) => Err(e),
    }
}

/// The little-endian `u64` at `p`.
pub open spec fn u64_at(s: Seq<u8>, p: int) -> Step<u64> {
    match take(s, p, 8) {
        Ok((b, q)) => Ok((le_value(b) as u64, q)),
        Err(e) => Err(e),
    }
}

/// What `String::from_utf8_lossy` makes of `b`: valid UTF-8 decoded, each
/// invalid sequence replaced by U+FFFD.
pub uninterp spec fn lossy_utf8(b: Seq<u8>) -> Seq<char>;

/// `b` decoded as UTF-8, with invalid sequences replaced.
pub open spec fn text_of(b: Seq<u8>) -> Seq<char> {
    if valid_utf8(b) {
        decode_utf8(b)
    } else {
        lossy_utf8(b)
    }
}

/// The length-prefixed string at `p`: an 8-byte little-endian length `L` of
/// at most [`MAX_STRING_LEN`], then `L` bytes decoded as lossy UTF-8.
pub open spec fn string_at(s: Seq<u8>, p: int) -> Step<Seq<char>> {
    match u64_at(s, p) {
        Ok((len, q)) => if len > MAX_STRING_LEN {
            Err(DecodeError::OversizedString { offset: p as usize, length: len })
        } else {
            match take(s, q, len as int) {
                Ok((b, r)) => Ok((text_of(b), r)),
                Err(e) => Err(e),
            }
        },
        Err(e) => Err(e),
    }
}

/// Relies on byteorder's `LittleEndian::read_u16`: the first two bytes of
/// `b`, least significant first.
#[verifier::external_body]
pub(crate) fn le_u16(b: &[u8]) -> (r: u16)
    requires
        b@.len() >= 2,
    ensures
        r as nat == le_value(b@.subrange(0, 2)),
{
    LittleEndian::read_u16(b)
}

/// Relies on byteorder's `LittleEndian::read_u32`: the first four bytes of
/// `b`, least significant first.
#[verifier::external_body]
fn le_u32(b: &[u8]) -> (r: u32)
    requires
        b@.len() >= 4,
    ensures
        r as nat == le_value(b@.subrange(0, 4)),
{
    LittleEndian::read_u32(b)
}

/// Relies on byteorder's `LittleEndian::read_u64`: the first eight bytes of
/// `b`, least significant first.
#[verifier::external_body]
fn le_u64(b: &[u8]) -> (r: u64)
    requires
        b@.len() >= 8,
    ensures
        r as nat == le_value(b@.subrange(0, 8)),
{
    LittleEndian::read_u64(b)
}

/// Relies on std's `String::from_utf8_lossy`, which decodes valid UTF-8
/// unchanged and replaces each invalid sequence with U+FFFD.
#[verifier::external_body]
fn decode_lossy(b: &[u8]) -> (r: String)
    ensures
        r@ == lossy_utf8(b@),
        valid_utf8(b@) ==> r@ == decode_utf8(b@),
{
    String::from_utf8_lossy(b).into_owned()
}

/// A sequential reader over a byte slice that never moves backwards.
pub struct Cursor<'a> {
    data: &'a [u8],
    pos: usize,
}

impl<'a> Cursor<'a> {
    /// The bytes being read.
    pub closed spec fn data(&self) -> Seq<u8> {
        self.data@
    }

    /// The position of the next byte to be read.
    pub closed spec fn pos(&self) -> int {
        self.pos as int
    }

    pub open spec fn wf(&self) -> bool {
        0 <= self.pos() <= self.data().len()
    }

    pub fn new(data: &'a [u8]) -> (r: Self)
        ensures
            r.data() == data@,
            r.pos() == 0,
            r.wf(),
    {
        Cursor { data, pos: 0 }
    }

    /// The position of the next byte to be read.
    pub fn position(&self) -> (r: usize)
        ensures
            r == self.pos(),
    {
        self.pos
    }

    /// Whether every byte has been read.
    pub fn at_end(&self) -> (r: bool)
        requires
            self.wf(),
        ensures
            r == (self.pos() >= self.data().len()),
    {
        self.pos >= self.data.len()
    }

    /// Reads exactly `n` bytes.
    pub fn read_bytes(&mut self, n: usize) -> (r: Result<Vec<u8>, DecodeError>)
        requires
            old(self).wf(),
        ensures
            final(self).wf(),
            final(self).data() == old(self).data(),
            match take(old(self).data(), old(self).pos(), n as int) {
                Ok((b, q)) => r matches Ok(v) && v@ == b && final(self).pos() == q,
                Err(e) => r == Err::<Vec<u8>, DecodeError>(e),
            },
    {
        if n > self.data.len() - self.pos {
            return Err(DecodeError::TruncatedInput { offset: self.pos });
        }
        let end = self.pos + n;
        let v = slice_to_vec(slice_subrange(self.data, self.pos, end));
        self.pos = end;
        Ok(v)
    }

    /// Reads and discards exactly `n` bytes.
    pub fn skip(&mut self, n: usize) -> (r: Result<(), DecodeError>)
        requires
            old(self).wf(),
        ensures
            final(self).wf(),
            final(self).data() == old(self).data(),
            match take(old(self).data(), old(self).pos(), n as int) {
                Ok((_, q)) => r is Ok && final(self).pos() == q,
                Err(e) => r == Err::<(), DecodeError>(e),
            },
    {
        match self.read_bytes(n) {
            Ok(_) => Ok(()),
            Err(e) => Err(e),
        }
    }

    /// Reads a little-endian `u16`.
    pub fn read_u16_le(&mut self) -> (r: Result<u16, DecodeError>)
        requires
            old(self).wf(),
        ensures
            final(self).wf(),
            final(self).data() == old(self).data(),
            match u16_at(old(self).data(), old(self).pos()) {
                Ok((x, q)) => r == Ok::<u16, DecodeError>(x) && final(self).pos() == q,
                Err(e) => r == Err::<u16, DecodeError>(e),
            },
    {
        match self.read_bytes(2) {
            Ok(b) => {
                proof {
                    assert(b@.subrange(0, 2) =~= b@);
                }
                Ok(le_u16(b.as_slice()))
            },
            Err(e) => Err(e),
        }
    }

    /// Reads a little-endian `u32`.
    pub fn read_u32_le(&mut self) -> (r: Result<u32, DecodeError>)
        requires
            old(self).wf(),
        ensures
            final(self).wf(),
            final(self).data() == old(self).data(),
            match u32_at(old(self).data(), old(self).pos()) {
                Ok((x, q)) => r == Ok::<u32, DecodeError>(x) && final(self).pos() == q,
                Err(e) => r == Err::<u32, DecodeError>(e),
            },
    {
        match self.read_bytes(4) {
            Ok(b) => {
                proof {
                    assert(b@.subrange(0, 4) =~= b@);
                }
                Ok(le_u32(b.as_slice()))
            },
            Err(e) => Err(e),
        }
    }

    /// Reads a little-endian `u64`.
    pub fn read_u64_le(&mut self) -> (r: Result<u64, DecodeError>)
        requires
            old(self).wf(),
        ensures
            final(self).wf(),
            final(self).data() == old(self).data(),
            match u64_at(old(self).data(), old(self).pos()) {
                Ok((x, q)) => r == Ok::<u64, DecodeError>(x) && final(self).pos() == q,
                Err(e) => r == Err::<u64, DecodeError>(e),
            },
    {
        match self.read_bytes(8) {
            Ok(b) => {
                proof {
                    assert(b@.subrange(0, 8) =~= b@);
                }
                Ok(le_u64(b.as_slice()))
            },
            Err(e) => Err(e),
        }
    }

    /// Reads a length-prefixed string, decoding its bytes as lossy UTF-8.
    pub fn read_length_prefixed_string(&mut self) -> (r: Result<String, DecodeError>)
        requires
            old(self).wf(),
        ensures
            final(self).wf(),
            final(self).data() == old(self).data(),
            match string_at(old(self).data(), old(self).pos()) {
                Ok((t, q)) => r matches Ok(v) && v@ == t && final(self).pos() == q,
                Err(e) => r == Err::<String, DecodeError>(e),
            },
    {
        let start = self.pos;
        let len = match self.read_u64_le() {
            Ok(x) => x,
            Err(e) => return Err(e),
        };
        if len > MAX_STRING_LEN {
            return Err(DecodeError::OversizedString { offset: start, length: len });
        }
        match self.read_bytes(len as usize) {
            Ok(b) => Ok(decode_lossy(b.as_slice())),
            Err(e) => Err(e),
        }
    }
}

} // verus!
