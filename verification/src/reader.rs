//! A positioned reader over an immutable byte slice.
use crate::bytes::{has_bytes, le_i32, le_i32_at, le_u32, le_u32_at};
use crate::error::Error;
use vstd::prelude::*;
use vstd::slice::slice_subrange;

verus! {

/// A byte slice and a read position in it. The position may stand past the
/// end of the slice; every read from there fails with [`Error::Truncated`].
pub struct Reader<'a> {
    pub data: &'a [u8],
    pub pos: usize,
}

impl<'a> Reader<'a> {
    /// A reader at the start of `data`.
    pub fn new(data: &'a [u8]) -> (r: Reader<'a>)
        ensures
            r.data == data,
            r.pos == 0,
    {
        Reader { data, pos: 0 }
    }

    /// Moves to the absolute position `offset`, counted from the start of the
    /// slice, whether or not the slice reaches that far.
    pub fn seek(&mut self, offset: u32)
        ensures
            final(self).data == old(self).data,
            final(self).pos == offset,
    {
        self.pos = offset as usize;
    }

    /// The current position.
    pub fn position(&self) -> (p: u64)
        ensures
            p == self.pos,
    {
        self.pos as u64
    }

    /// Reads one byte and steps over it.
    pub fn read_u8(&mut self) -> (r: Result<u8, Error>)
        ensures
            final(self).data == old(self).data,
            match r {
                Ok(v) => {
                    &&& has_bytes(old(self).data@, old(self).pos as int, 1)
                    &&& v == old(self).data@[old(self).pos as int]
                    &&& final(self).pos == old(self).pos + 1
                },
                Err(e) => {
                    &&& !has_bytes(old(self).data@, old(self).pos as int, 1)
                    &&& e == Error::Truncated
                    &&& final(self).pos == old(self).pos
                },
            },
    {
        if self.pos < self.data.len() {
            let v = self.data[self.pos];
            self.pos = self.pos + 1;
            Ok(v)
        } else {
            Err(Error::Truncated)
        }
    }

    /// Reads an unsigned little-endian 32-bit word and steps over it.
    pub fn read_u32(&mut self) -> (r: Result<u32, Error>)
        ensures
            final(self).data == old(self).data,
            match r {
                Ok(v) => {
                    &&& has_bytes(old(self).data@, old(self).pos as int, 4)
                    &&& v == le_u32_at(old(self).data@, old(self).pos as int)
                    &&& final(self).pos == old(self).pos + 4
                },
                Err(e) => {
                    &&& !has_bytes(old(self).data@, old(self).pos as int, 4)
                    &&& e == Error::Truncated
                    &&& final(self).pos == old(self).pos
                },
            },
    {
        let len = self.data.len();
        if self.pos <= len && len - self.pos >= 4 {
            let word = slice_subrange(self.data, self.pos, self.pos + 4);
            let v = le_u32(word);
            self.pos = self.pos + 4;
            Ok(v)
        } else {
            Err(Error::Truncated)
        }
    }

    /// Reads a signed little-endian 32-bit word and steps over it.
    pub fn read_i32(&mut self) -> (r: Result<i32, Error>)
        ensures
            final(self).data == old(self).data,
            match r {
                Ok(v) => {
                    &&& has_bytes(old(self).data@, old(self).pos as int, 4)
                    &&& v == le_i32_at(old(self).data@, old(self).pos as int)
                    &&& final(self).pos == old(self).pos + 4
                },
                Err(e) => {
                    &&& !has_bytes(old(self).data@, old(self).pos as int, 4)
                    &&& e == Error::Truncated
                    &&& final(self).pos == old(self).pos
                },
            },
    {
        let len = self.data.len();
        if self.pos <= len && len - self.pos >= 4 {
            let word = slice_subrange(self.data, self.pos, self.pos + 4);
            let v = le_i32(word);
            self.pos = self.pos + 4;
            Ok(v)
        } else {
            Err(Error::Truncated)
        }
    }
}

} // verus!
