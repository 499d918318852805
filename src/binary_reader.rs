use vstd::prelude::*;
use byteorder::{ByteOrder, LittleEndian};

verus! {

/// Why a read from a [`BinaryReader`] failed.
#[derive(Debug, Clone, Copy, PartialEq, Eq, Structural)]
pub enum ReadError {
    /// Fewer bytes remain than the read needs.
    UnexpectedEof,
    /// A length-prefixed string does not hold valid UTF-8.
    InvalidUtf8,
    /// A seek would leave the addressable range.
    InvalidSeek,
}

/// The unsigned value of two little-endian bytes.
pub open spec fn le_u16(b0: u8, b1: u8) -> int {
    b0 + 256 * b1
}

/// The unsigned value of four little-endian bytes.
pub open spec fn le_u32(b0: u8, b1: u8, b2: u8, b3: u8) -> int {
    b0 + 256 * b1 + 65536 * b2 + 16777216 * b3
}

/// The two's-complement value of two little-endian bytes.
pub open spec fn le_i16(b0: u8, b1: u8) -> int {
    let u = le_u16(b0, b1);
    if u < 0x8000 { u } else { u - 0x10000 }
}

/// The two's-complement value of four little-endian bytes.
pub open spec fn le_i32(b0: u8, b1: u8, b2: u8, b3: u8) -> int {
    let u = le_u32(b0, b1, b2, b3);
    if u < 0x8000_0000 { u } else { u - 0x1_0000_0000 }
}

/// The two's-complement value of one byte.
pub open spec fn byte_as_i8(b: u8) -> int {
    if b < 0x80 { b as int } else { b - 0x100 }
}

/// Relies on byteorder's `LittleEndian::read_u16`: the first two bytes, least significant first.
#[verifier::external_body]
fn read_le_u16(buf: &[u8]) -> (r: u16)
    requires
        buf@.len() >= 2,
    ensures
        r == le_u16(buf@[0], buf@[1]),
{
    LittleEndian::read_u16(buf)
}

/// Relies on byteorder's `LittleEndian::read_u32`: the first four bytes, least significant first.
#[verifier::external_body]
fn read_le_u32(buf: &[u8]) -> (r: u32)
    requires
        buf@.len() >= 4,
    ensures
        r == le_u32(buf@[0], buf@[1], buf@[2], buf@[3]),
{
    LittleEndian::read_u32(buf)
}

/// Relies on `String::from_utf8`: the text that the bytes encode, or nothing
/// where they are not UTF-8.
#[verifier::external_body]
fn utf8_string(bytes: Vec<u8>) -> (r: Option<String>)
    ensures
        r.is_some() == vstd::utf8::valid_utf8(bytes@),
        r matches Some(s) ==> s@ == vstd::utf8::decode_utf8(bytes@),
{
    String::from_utf8(bytes).ok()
}

/// A little-endian reader over an in-memory byte buffer.
///
/// The position may lie past the end of the data (as a seek on a file may);
/// every read from there fails with [`ReadError::UnexpectedEof`].
pub struct BinaryReader {
    pub data: Vec<u8>,
    pub pos: usize,
}

impl BinaryReader {
    /// True when `n` bytes can be read at the current position.
    pub open spec fn has(&self, n: int) -> bool {
        self.pos + n <= self.data@.len()
    }

    /// The byte `i` places after the current position.
    pub open spec fn at(&self, i: int) -> u8 {
        self.data@[self.pos + i]
    }

    /// A reader positioned at the start of `data`.
    pub fn new(data: Vec<u8>) -> (r: Self)
        ensures
            r.data@ == data@,
            r.pos == 0,
    {
        BinaryReader { data, pos: 0 }
    }

    /// Claims `n` bytes at the current position and returns where they start,
    /// or fails, leaving the reader as it was.
    fn take(&mut self, n: usize) -> (r: Result<usize, ReadError>)
        ensures
            final(self).data == old(self).data,
            old(self).has(n as int) ==> r == Ok::<usize, ReadError>(old(self).pos)
                && final(self).pos == old(self).pos + n,
            !old(self).has(n as int) ==> r == Err::<usize, ReadError>(ReadError::UnexpectedEof)
                && final(self).pos == old(self).pos,
    {
        if self.pos > self.data.len() || n > self.data.len() - self.pos {
            return Err(ReadError::UnexpectedEof);
        }
        let start = self.pos;
        self.pos = self.pos + n;
        Ok(start)
    }

    /// Reads an unsigned byte.
    pub fn read_ubyte(&mut self) -> (r: Result<u8, ReadError>)
        ensures
            final(self).data == old(self).data,
            old(self).has(1) ==> r == Ok::<u8, ReadError>(old(self).at(0))
                && final(self).pos == old(self).pos + 1,
            !old(self).has(1) ==> r == Err::<u8, ReadError>(ReadError::UnexpectedEof)
                && final(self).pos == old(self).pos,
    {
        let start = self.take(1)?;
        Ok(self.data[start])
    }

    /// Reads a signed byte.
    pub fn read_byte(&mut self) -> (r: Result<i8, ReadError>)
        ensures
            final(self).data == old(self).data,
            old(self).has(1) ==> (r matches Ok(v) && v == byte_as_i8(old(self).at(0))
                && final(self).pos == old(self).pos + 1),
            !old(self).has(1) ==> r == Err::<i8, ReadError>(ReadError::UnexpectedEof)
                && final(self).pos == old(self).pos,
    {
        let b = self.read_ubyte()?;
        if b < 0x80 {
            Ok(b as i8)
        } else {
            Ok((b as i16 - 0x100) as i8)
        }
    }

    /// Reads a boolean stored as one byte: any nonzero byte is true.
    pub fn read_bool(&mut self) -> (r: Result<bool, ReadError>)
        ensures
            final(self).data == old(self).data,
            old(self).has(1) ==> r == Ok::<bool, ReadError>(old(self).at(0) != 0)
                && final(self).pos == old(self).pos + 1,
            !old(self).has(1) ==> r == Err::<bool, ReadError>(ReadError::UnexpectedEof)
                && final(self).pos == old(self).pos,
    {
        let b = self.read_ubyte()?;
        Ok(b != 0)
    }

    /// Reads a little-endian unsigned 16-bit integer.
    pub fn read_ushort(&mut self) -> (r: Result<u16, ReadError>)
        ensures
            final(self).data == old(self).data,
            old(self).has(2) ==> (r matches Ok(v) && v == le_u16(old(self).at(0), old(self).at(1))
                && final(self).pos == old(self).pos + 2),
            !old(self).has(2) ==> r == Err::<u16, ReadError>(ReadError::UnexpectedEof)
                && final(self).pos == old(self).pos,
    {
        let start = self.take(2)?;
        let bytes = vstd::slice::slice_subrange(self.data.as_slice(), start, start + 2);
        Ok(read_le_u16(bytes))
    }

    /// Reads a little-endian signed 16-bit integer.
    pub fn read_short(&mut self) -> (r: Result<i16, ReadError>)
        ensures
            final(self).data == old(self).data,
            old(self).has(2) ==> (r matches Ok(v) && v == le_i16(old(self).at(0), old(self).at(1))
                && final(self).pos == old(self).pos + 2),
            !old(self).has(2) ==> r == Err::<i16, ReadError>(ReadError::UnexpectedEof)
                && final(self).pos == old(self).pos,
    {
        let u = self.read_ushort()?;
        if u < 0x8000 {
            Ok(u as i16)
        } else {
            Ok((u as i32 - 0x10000) as i16)
        }
    }

    /// Reads a little-endian unsigned 32-bit integer.
    pub fn read_ulong(&mut self) -> (r: Result<u32, ReadError>)
        ensures
            final(self).data == old(self).data,
            old(self).has(4) ==> (r matches Ok(v) && v == le_u32(
                old(self).at(0),
                old(self).at(1),
                old(self).at(2),
                old(self).at(3),
            ) && final(self).pos == old(self).pos + 4),
            !old(self).has(4) ==> r == Err::<u32, ReadError>(ReadError::UnexpectedEof)
                && final(self).pos == old(self).pos,
    {
        let start = self.take(4)?;
        let bytes = vstd::slice::slice_subrange(self.data.as_slice(), start, start + 4);
        Ok(read_le_u32(bytes))
    }

    /// Reads a little-endian signed 32-bit integer.
    pub fn read_long(&mut self) -> (r: Result<i32, ReadError>)
        ensures
            final(self).data == old(self).data,
            old(self).has(4) ==> (r matches Ok(v) && v == le_i32(
                old(self).at(0),
                old(self).at(1),
                old(self).at(2),
                old(self).at(3),
            ) && final(self).pos == old(self).pos + 4),
            !old(self).has(4) ==> r == Err::<i32, ReadError>(ReadError::UnexpectedEof)
                && final(self).pos == old(self).pos,
    {
        let u = self.read_ulong()?;
        if u < 0x8000_0000 {
            Ok(u as i32)
        } else {
            Ok((u as i64 - 0x1_0000_0000) as i32)
        }
    }

    /// Reads a string prefixed with one length byte, which must be UTF-8.
    /// On failure the position is unspecified, as after a short read of a file.
    pub fn read_string(&mut self) -> (r: Result<String, ReadError>)
        ensures
            final(self).data == old(self).data,
            r == Err::<String, ReadError>(ReadError::UnexpectedEof) <==> !old(self).has(1)
                || !old(self).has(1 + old(self).at(0)),
            r == Err::<String, ReadError>(ReadError::InvalidUtf8) <==> old(self).has(1)
                && old(self).has(1 + old(self).at(0)) && !vstd::utf8::valid_utf8(
                old(self).data@.subrange(old(self).pos + 1, old(self).pos + 1 + old(self).at(0)),
            ),
            r is Ok || r == Err::<String, ReadError>(ReadError::UnexpectedEof) || r == Err::<
                String,
                ReadError,
            >(ReadError::InvalidUtf8),
            r matches Ok(s) ==> s@ == vstd::utf8::decode_utf8(
                old(self).data@.subrange(old(self).pos + 1, old(self).pos + 1 + old(self).at(0)),
            ) && final(self).pos == old(self).pos + 1 + old(self).at(0),
    {
        let len = self.read_ubyte()?;
        let start = self.take(len as usize)?;
        let end = start + len as usize;
        let mut bytes: Vec<u8> = Vec::new();
        let mut i: usize = start;
        while i < end
            invariant
                start <= i <= end,
                end == start + len,
                end <= self.data@.len(),
                bytes@ == self.data@.subrange(start as int, i as int),
            decreases end - i,
        {
            bytes.push(self.data[i]);
            i = i + 1;
        }
        match utf8_string(bytes) {
            Some(s) => Ok(s),
            None => Err(ReadError::InvalidUtf8),
        }
    }

    /// Moves the position `bytes` forward. Like a seek on a file, this may
    /// pass the end of the data; it fails only where the position would
    /// leave the range of `usize`.
    pub fn skip(&mut self, bytes: u64) -> (r: Result<(), ReadError>)
        ensures
            final(self).data == old(self).data,
            old(self).pos + bytes <= usize::MAX ==> r is Ok && final(self).pos == old(self).pos
                + bytes,
            old(self).pos + bytes > usize::MAX ==> r == Err::<(), ReadError>(
                ReadError::InvalidSeek,
            ) && final(self).pos == old(self).pos,
    {
        if bytes as u128 > (usize::MAX - self.pos) as u128 {
            return Err(ReadError::InvalidSeek);
        }
        self.pos = self.pos + bytes as usize;
        Ok(())
    }

    /// The current position.
    pub fn position(&self) -> (r: u64)
        ensures
            r == self.pos,
    {
        self.pos as u64
    }

    /// Moves to an absolute position, which may lie past the end of the data.
    pub fn set_position(&mut self, pos: u64) -> (r: Result<(), ReadError>)
        ensures
            final(self).data == old(self).data,
            pos <= usize::MAX ==> r is Ok && final(self).pos == pos,
            pos > usize::MAX ==> r == Err::<(), ReadError>(ReadError::InvalidSeek)
                && final(self).pos == old(self).pos,
    {
        if pos as u128 > usize::MAX as u128 {
            return Err(ReadError::InvalidSeek);
        }
        self.pos = pos as usize;
        Ok(())
    }
}

} // verus!
