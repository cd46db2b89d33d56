//! A binary cursor over a byte buffer.
//!
//! All record decoders walk a reassembled payload through this type: fixed
//! width little-endian integer reads that fail exactly on buffer exhaustion,
//! and a null-terminated string read that never fails (a missing terminator
//! ends the string at the end of the buffer).

use crate::errors::Error;
use crate::strings::{lossy_decode, lossy_string};
use vstd::bytes::{
    spec_u16_from_le_bytes, spec_u32_from_le_bytes, spec_u64_from_le_bytes, u16_from_le_bytes,
    u32_from_le_bytes, u64_from_le_bytes,
};
use vstd::prelude::*;
use vstd::slice::slice_subrange;

verus! {

/// The u16 read little-endian from `b[i..i + 2]`.
pub open spec fn le_u16_at(b: Seq<u8>, i: int) -> u16 {
    spec_u16_from_le_bytes(b.subrange(i, i + 2))
}

/// The u32 read little-endian from `b[i..i + 4]`.
pub open spec fn le_u32_at(b: Seq<u8>, i: int) -> u32 {
    spec_u32_from_le_bytes(b.subrange(i, i + 4))
}

/// The u64 read little-endian from `b[i..i + 8]`.
pub open spec fn le_u64_at(b: Seq<u8>, i: int) -> u64 {
    spec_u64_from_le_bytes(b.subrange(i, i + 8))
}

/// Index of the first zero byte at or after `i`, or the end of the buffer
/// when none follows: where the string that starts at `i` ends.
pub open spec fn cstr_end(b: Seq<u8>, i: int) -> int
    recommends
        0 <= i <= b.len(),
    decreases b.len() - i,
    when 0 <= i <= b.len()
{
    if i == b.len() {
        i
    } else if b[i] == 0 {
        i
    } else {
        cstr_end(b, i + 1)
    }
}

/// The characters of the null-terminated string that starts at `i`.
pub open spec fn cstr_chars(b: Seq<u8>, i: int) -> Seq<char> {
    lossy_decode(b.subrange(i, cstr_end(b, i)))
}

/// Position just after the string that starts at `i`: past the terminator
/// when one was found, else the end of the buffer.
pub open spec fn cstr_next(b: Seq<u8>, i: int) -> int {
    if cstr_end(b, i) < b.len() {
        cstr_end(b, i) + 1
    } else {
        b.len() as int
    }
}

pub proof fn lemma_cstr_end_bounds(b: Seq<u8>, i: int)
    requires
        0 <= i <= b.len(),
    ensures
        i <= cstr_end(b, i) <= b.len(),
        cstr_end(b, i) < b.len() ==> b[cstr_end(b, i)] == 0,
        forall|k: int| i <= k < cstr_end(b, i) ==> b[k] != 0,
    decreases b.len() - i,
{
    if i < b.len() && b[i] != 0 {
        lemma_cstr_end_bounds(b, i + 1);
    }
}

/// When the bytes from `i` up to `j` are non-zero and `b[j]` is zero, the
/// string that starts at `i` ends exactly at `j`.
pub proof fn lemma_cstr_end_at(b: Seq<u8>, i: int, j: int)
    requires
        0 <= i <= j < b.len(),
        forall|k: int| i <= k < j ==> b[k] != 0,
        b[j] == 0,
    ensures
        cstr_end(b, i) == j,
    decreases j - i,
{
    if i < j {
        lemma_cstr_end_at(b, i + 1, j);
    }
}

/// Reading one null-terminated string from the front of an encoded NUL-free
/// string gives the string back and lands just after its terminator.
pub proof fn lemma_cstr_reads_encoded(b: Seq<u8>, i: int, s: Seq<char>)
    requires
        crate::strings::no_nul(s),
        0 <= i,
        i + vstd::utf8::encode_utf8(s).len() < b.len(),
        b.subrange(i, i + vstd::utf8::encode_utf8(s).len()) == vstd::utf8::encode_utf8(s),
        b[i + vstd::utf8::encode_utf8(s).len()] == 0,
    ensures
        cstr_chars(b, i) == s,
        cstr_next(b, i) == i + vstd::utf8::encode_utf8(s).len() + 1,
{
    let e = vstd::utf8::encode_utf8(s);
    crate::strings::lemma_encode_no_zero(s);
    assert forall|k: int| i <= k < i + e.len() implies b[k] != 0 by {
        assert(b[k] == e[k - i]);
    }
    lemma_cstr_end_at(b, i, i + e.len());
    crate::strings::lemma_lossy_decode_encode(s);
}

/// A binary cursor: a byte buffer and the position of the next read.
pub struct Cursor {
    data: Vec<u8>,
    pos: usize,
}

impl Cursor {
    /// The whole underlying buffer.
    pub closed spec fn bytes(self) -> Seq<u8> {
        self.data@
    }

    /// The position of the next read.
    pub closed spec fn position(self) -> int {
        self.pos as int
    }

    /// The position never passes the end of the buffer.
    pub closed spec fn wf(self) -> bool {
        self.pos <= self.data@.len()
    }

    /// What well-formedness gives a caller: the position stays within the
    /// buffer.
    pub broadcast proof fn lemma_wf_bounds(self)
        requires
            #[trigger] self.wf(),
        ensures
            0 <= self.position() <= self.bytes().len(),
    {
    }

    /// A cursor over `data`, positioned at its start.
    pub fn new(data: Vec<u8>) -> (c: Cursor)
        ensures
            c.wf(),
            c.bytes() == data@,
            c.position() == 0,
    {
        Cursor { data, pos: 0 }
    }

    /// Reads one byte; fails exactly when the buffer is exhausted.
    pub fn read_u8(&mut self) -> (r: Result<u8, Error>)
        requires
            old(self).wf(),
        ensures
            final(self).wf(),
            final(self).bytes() == old(self).bytes(),
            old(self).position() < old(self).bytes().len() ==> r == Ok::<u8, Error>(
                old(self).bytes()[old(self).position()],
            ) && final(self).position() == old(self).position() + 1,
            old(self).position() == old(self).bytes().len() ==> r == Err::<u8, Error>(Error::Io)
                && final(self).position() == old(self).position(),
    {
        if self.pos < self.data.len() {
            let b = self.data[self.pos];
            self.pos = self.pos + 1;
            Ok(b)
        } else {
            Err(Error::Io)
        }
    }

    /// Reads a little-endian u16; fails exactly when fewer than two bytes
    /// are left.
    pub fn read_u16(&mut self) -> (r: Result<u16, Error>)
        requires
            old(self).wf(),
        ensures
            final(self).wf(),
            final(self).bytes() == old(self).bytes(),
            old(self).position() + 2 <= old(self).bytes().len() ==> r == Ok::<u16, Error>(
                le_u16_at(old(self).bytes(), old(self).position()),
            ) && final(self).position() == old(self).position() + 2,
            old(self).position() + 2 > old(self).bytes().len() ==> r == Err::<u16, Error>(
                Error::Io,
            ) && final(self).position() == old(self).position(),
    {
        if self.data.len() - self.pos >= 2 {
            let s = slice_subrange(self.data.as_slice(), self.pos, self.pos + 2);
            let v = u16_from_le_bytes(s);
            self.pos = self.pos + 2;
            Ok(v)
        } else {
            Err(Error::Io)
        }
    }

    /// Reads a little-endian u32; fails exactly when fewer than four bytes
    /// are left.
    pub fn read_u32(&mut self) -> (r: Result<u32, Error>)
        requires
            old(self).wf(),
        ensures
            final(self).wf(),
            final(self).bytes() == old(self).bytes(),
            old(self).position() + 4 <= old(self).bytes().len() ==> r == Ok::<u32, Error>(
                le_u32_at(old(self).bytes(), old(self).position()),
            ) && final(self).position() == old(self).position() + 4,
            old(self).position() + 4 > old(self).bytes().len() ==> r == Err::<u32, Error>(
                Error::Io,
            ) && final(self).position() == old(self).position(),
    {
        if self.data.len() - self.pos >= 4 {
            let s = slice_subrange(self.data.as_slice(), self.pos, self.pos + 4);
            let v = u32_from_le_bytes(s);
            self.pos = self.pos + 4;
            Ok(v)
        } else {
            Err(Error::Io)
        }
    }

    /// Reads a little-endian i32; fails exactly when fewer than four bytes
    /// are left.
    pub fn read_i32(&mut self) -> (r: Result<i32, Error>)
        requires
            old(self).wf(),
        ensures
            final(self).wf(),
            final(self).bytes() == old(self).bytes(),
            old(self).position() + 4 <= old(self).bytes().len() ==> r == Ok::<i32, Error>(
                le_u32_at(old(self).bytes(), old(self).position()) as i32,
            ) && final(self).position() == old(self).position() + 4,
            old(self).position() + 4 > old(self).bytes().len() ==> r == Err::<i32, Error>(
                Error::Io,
            ) && final(self).position() == old(self).position(),
    {
        match self.read_u32() {
            Ok(v) => Ok(#[verifier::truncate] (v as i32)),
            Err(e) => Err(e),
        }
    }

    /// Reads a little-endian u64; fails exactly when fewer than eight bytes
    /// are left.
    pub fn read_u64(&mut self) -> (r: Result<u64, Error>)
        requires
            old(self).wf(),
        ensures
            final(self).wf(),
            final(self).bytes() == old(self).bytes(),
            old(self).position() + 8 <= old(self).bytes().len() ==> r == Ok::<u64, Error>(
                le_u64_at(old(self).bytes(), old(self).position()),
            ) && final(self).position() == old(self).position() + 8,
            old(self).position() + 8 > old(self).bytes().len() ==> r == Err::<u64, Error>(
                Error::Io,
            ) && final(self).position() == old(self).position(),
    {
        if self.data.len() - self.pos >= 8 {
            let s = slice_subrange(self.data.as_slice(), self.pos, self.pos + 8);
            let v = u64_from_le_bytes(s);
            self.pos = self.pos + 8;
            Ok(v)
        } else {
            Err(Error::Io)
        }
    }

    /// Reads the raw bits of a little-endian 32-bit float; fails exactly when
    /// fewer than four bytes are left. The caller interprets the bits.
    pub fn read_f32_bits(&mut self) -> (r: Result<u32, Error>)
        requires
            old(self).wf(),
        ensures
            final(self).wf(),
            final(self).bytes() == old(self).bytes(),
            old(self).position() + 4 <= old(self).bytes().len() ==> r == Ok::<u32, Error>(
                le_u32_at(old(self).bytes(), old(self).position()),
            ) && final(self).position() == old(self).position() + 4,
            old(self).position() + 4 > old(self).bytes().len() ==> r == Err::<u32, Error>(
                Error::Io,
            ) && final(self).position() == old(self).position(),
    {
        self.read_u32()
    }

    /// Reads a null-terminated string: scans to the next zero byte or to the
    /// end of the buffer, and decodes the scanned bytes as UTF-8 with a
    /// replacement character for invalid sequences. Never fails.
    pub fn read_cstring(&mut self) -> (r: String)
        requires
            old(self).wf(),
        ensures
            final(self).wf(),
            final(self).bytes() == old(self).bytes(),
            r@ == cstr_chars(old(self).bytes(), old(self).position()),
            final(self).position() == cstr_next(old(self).bytes(), old(self).position()),
    {
        let ghost b = self.data@;
        let ghost p0 = self.pos as int;
        let n = self.data.len();
        let mut j: usize = self.pos;
        while j < n && self.data[j] != 0
            invariant
                self.pos <= j <= n,
                n == b.len(),
                self == old(self),
                b == self.data@,
                forall|k: int| self.pos <= k < j ==> b[k] != 0,
            decreases n - j,
        {
            j = j + 1;
        }
        proof {
            if j < n {
                lemma_cstr_end_at(b, p0, j as int);
            } else {
                lemma_cstr_end_bounds(b, p0);
                assert(cstr_end(b, p0) == n) by {
                    if cstr_end(b, p0) < n {
                        assert(b[cstr_end(b, p0)] != 0);
                    }
                }
            }
        }
        let s = slice_subrange(self.data.as_slice(), self.pos, j);
        let text = lossy_string(s);
        if j < n {
            self.pos = j + 1;
        } else {
            self.pos = n;
        }
        text
    }
}

} // verus!
