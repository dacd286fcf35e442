//! Cursor over a byte slice: all binary parsing goes through here.
use crate::binary::be::{be_int, be_nat, read_i16_at, read_i32_at, read_i64_at, read_u32_at, read_u64_at};
use crate::error::{Error, ErrorV};
use vstd::prelude::*;
use vstd::utf8::*;
use vstd::slice::slice_subrange;

verus! {

/// The error for a read of `expected` bytes from the bytes `s` that remain.
pub open spec fn eof(expected: int, s: Seq<u8>) -> ErrorV {
    ErrorV::UnexpectedEof { expected: expected as usize, available: s.len() as usize }
}

/// Skipping `a` then `b` elements skips `a + b`.
pub proof fn lemma_skip_skip(s: Seq<u8>, a: int, b: int)
    requires
        0 <= a,
        0 <= b,
        a + b <= s.len(),
    ensures
        s.skip(a).skip(b) == s.skip(a + b),
{
    assert(s.skip(a).skip(b) =~= s.skip(a + b));
}

/// A read position in a byte slice.
#[derive(Debug, Clone, Copy, PartialEq, Eq)]
pub struct BufferView<'a> {
    data: &'a [u8],
    pos: usize,
}

impl<'a> BufferView<'a> {
    /// All the bytes of the view.
    pub closed spec fn bytes(&self) -> Seq<u8> {
        self.data@
    }

    /// The read position.
    pub closed spec fn position(&self) -> int {
        self.pos as int
    }

    /// The position lies within the bytes, which are no more than a slice can hold.
    pub open spec fn wf(&self) -> bool {
        &&& 0 <= self.position() <= self.bytes().len()
        &&& self.bytes().len() <= isize::MAX
    }

    /// The bytes that are still to be read.
    pub open spec fn rest(&self) -> Seq<u8> {
        self.bytes().skip(self.position())
    }

    /// The view is `old` advanced by `n` bytes.
    pub open spec fn advanced(&self, old: BufferView<'a>, n: int) -> bool {
        &&& self.wf()
        &&& self.bytes() == old.bytes()
        &&& self.position() == old.position() + n
    }

    pub fn new(data: &'a [u8]) -> (r: Self)
        requires
            data@.len() <= isize::MAX,
        ensures
            r.wf(),
            r.bytes() == data@,
            r.position() == 0,
            r.rest() == data@,
    {
        let r = Self { data, pos: 0 };
        assert(r.rest() =~= data@);
        r
    }

    pub fn remaining(&self) -> (r: usize)
        requires
            self.wf(),
        ensures
            r == self.rest().len(),
    {
        self.data.len() - self.pos
    }

    fn read_bytes(&mut self, n: usize) -> (r: Result<&'a [u8], Error>)
        requires
            old(self).wf(),
        ensures
            match r {
                Ok(b) => n <= old(self).rest().len() && b@ == old(self).rest().take(n as int)
                    && final(self).advanced(*old(self), n as int),
                Err(e) => n > old(self).rest().len() && e@ == eof(n as int, old(self).rest())
                    && *final(self) == *old(self),
            },
    {
        if n > self.data.len() - self.pos {
            return Err(Error::UnexpectedEof { expected: n, available: self.data.len() - self.pos });
        }
        let slice = slice_subrange(self.data, self.pos, self.pos + n);
        assert(slice@ =~= self.rest().take(n as int));
        self.pos = self.pos + n;
        Ok(slice)
    }

    pub fn peek_bytes(&self, n: usize) -> (r: Result<&'a [u8], Error>)
        requires
            self.wf(),
        ensures
            match r {
                Ok(b) => n <= self.rest().len() && b@ == self.rest().take(n as int),
                Err(e) => n > self.rest().len() && e@ == eof(n as int, self.rest()),
            },
    {
        if self.data.len() - self.pos < n {
            return Err(Error::UnexpectedEof { expected: n, available: self.data.len() - self.pos });
        }
        let slice = slice_subrange(self.data, self.pos, self.pos + n);
        assert(slice@ =~= self.rest().take(n as int));
        Ok(slice)
    }

    /// Fail unless exactly `len` bytes remain.
    pub fn ensure_exact_remaining(&self, len: usize) -> (r: Result<(), Error>)
        requires
            self.wf(),
        ensures
            match r {
                Ok(()) => self.rest().len() == len,
                Err(e) => self.rest().len() != len && e@ == eof(len as int, self.rest()),
            },
    {
        if self.remaining() != len {
            return Err(Error::UnexpectedEof { expected: len, available: self.remaining() });
        }
        Ok(())
    }

    /// All bytes from the current position to the end.
    pub fn read_remaining(&mut self) -> (r: &'a [u8])
        requires
            old(self).wf(),
        ensures
            r@ == old(self).rest(),
            final(self).advanced(*old(self), old(self).rest().len() as int),
    {
        let rest = slice_subrange(self.data, self.pos, self.data.len());
        assert(rest@ =~= self.rest());
        self.pos = self.data.len();
        rest
    }

    /// A view over the bytes from the read position up to `end_offset`.
    fn project_view(&self, end_offset: usize) -> (r: Result<BufferView<'a>, Error>)
        requires
            self.wf(),
        ensures
            match r {
                Ok(v) => self.position() <= end_offset <= self.bytes().len() && v.wf() && v.position()
                    == 0 && v.rest() == self.bytes().subrange(self.position(), end_offset as int),
                Err(e) => if end_offset < self.position() {
                    e@ == (ErrorV::UnexpectedEof {
                        expected: (self.position() - end_offset) as usize,
                        available: 0,
                    })
                } else {
                    end_offset > self.bytes().len() && e@ == (ErrorV::UnexpectedEof {
                        expected: (end_offset - self.position()) as usize,
                        available: self.rest().len() as usize,
                    })
                },
            },
    {
        if end_offset < self.pos {
            return Err(Error::UnexpectedEof { expected: self.pos - end_offset, available: 0 });
        }
        if end_offset > self.data.len() {
            return Err(
                Error::UnexpectedEof {
                    expected: end_offset - self.pos,
                    available: self.data.len() - self.pos,
                },
            );
        }
        Ok(BufferView::new(slice_subrange(self.data, self.pos, end_offset)))
    }

    /// Advance by `n` bytes and return a view over that span.
    pub fn read_n_and_project_view(&mut self, n: usize) -> (r: Result<BufferView<'a>, Error>)
        requires
            old(self).wf(),
        ensures
            match r {
                Ok(v) => n <= old(self).rest().len() && v.wf() && v.position() == 0 && v.rest()
                    == old(self).rest().take(n as int) && final(self).advanced(*old(self), n as int),
                Err(e) => n > old(self).rest().len() && *final(self) == *old(self) && if old(
                    self,
                ).position() + n > usize::MAX {
                    e@ == (ErrorV::MalformedInput { reason: "field span length overflow"@ })
                } else {
                    e@ == eof(n as int, old(self).rest())
                },
            },
    {
        let end = match self.pos.checked_add(n) {
            Some(end) => end,
            None => {
                return Err(Error::MalformedInput { reason: "field span length overflow" });
            },
        };
        let view = self.project_view(end)?;
        assert(view.rest() =~= old(self).rest().take(n as int));
        self.pos = end;
        Ok(view)
    }

    /// The UTF-8 text of all remaining bytes.
    pub fn read_utf8_remaining(&mut self) -> (r: Result<String, Error>)
        requires
            old(self).wf(),
        ensures
            final(self).advanced(*old(self), old(self).rest().len() as int),
            match r {
                Ok(s) => valid_utf8(old(self).rest()) && s@ == decode_utf8(old(self).rest()),
                Err(e) => !valid_utf8(old(self).rest()) && e@ == eof(1, Seq::<u8>::empty()),
            },
    {
        let bytes = self.read_remaining();
        match crate::binary::text::utf8_to_string(bytes) {
            Some(s) => Ok(s),
            None => Err(Error::UnexpectedEof { expected: 1, available: 0 }),
        }
    }

    /// Read a big-endian `u8`.
    pub fn read_u8(&mut self) -> (r: Result<u8, Error>)
        requires
            old(self).wf(),
        ensures
            match r {
                Ok(v) => 1 <= old(self).rest().len() && v == old(self).rest()[0] && final(self).advanced(
                    *old(self),
                    1,
                ),
                Err(e) => old(self).rest().len() < 1 && e@ == eof(1, old(self).rest())
                    && *final(self) == *old(self),
            },
    {
        let b = self.read_bytes(1)?;
        Ok(b[0])
    }

    /// Read a big-endian `u8` that must be exactly the `len` remaining bytes.
    pub fn read_u8_exact(&mut self, len: usize) -> (r: Result<u8, Error>)
        requires
            old(self).wf(),
        ensures
            match r {
                Ok(v) => old(self).rest().len() == len && 1 <= len && v == old(self).rest()[0]
                    && final(self).advanced(*old(self), 1),
                Err(e) => (old(self).rest().len() != len && e@ == eof(len as int, old(self).rest()))
                    || (old(self).rest().len() == len && len < 1 && e@ == eof(1, old(self).rest())),
            },
    {
        self.ensure_exact_remaining(len)?;
        self.read_u8()
    }

    /// Read a big-endian `i16`.
    pub fn read_i16(&mut self) -> (r: Result<i16, Error>)
        requires
            old(self).wf(),
        ensures
            match r {
                Ok(v) => 2 <= old(self).rest().len() && v as int == be_int(old(self).rest().take(2)) && final(self).advanced(
                    *old(self),
                    2,
                ),
                Err(e) => old(self).rest().len() < 2 && e@ == eof(2, old(self).rest())
                    && *final(self) == *old(self),
            },
    {
        if self.data.len() - self.pos < 2 {
            return Err(Error::UnexpectedEof { expected: 2, available: self.data.len() - self.pos });
        }
        let v = read_i16_at(self.data, self.pos);
        assert(self.data@.subrange(self.pos as int, self.pos + 2) =~= self.rest().take(2));
        self.pos = self.pos + 2;
        Ok(v)
    }

    /// Read a big-endian `i16` that must be exactly the `len` remaining bytes.
    pub fn read_i16_exact(&mut self, len: usize) -> (r: Result<i16, Error>)
        requires
            old(self).wf(),
        ensures
            match r {
                Ok(v) => old(self).rest().len() == len && 2 <= len && v as int == be_int(old(self).rest().take(2))
                    && final(self).advanced(*old(self), 2),
                Err(e) => (old(self).rest().len() != len && e@ == eof(len as int, old(self).rest()))
                    || (old(self).rest().len() == len && len < 2 && e@ == eof(2, old(self).rest())),
            },
    {
        self.ensure_exact_remaining(len)?;
        self.read_i16()
    }

    /// Read a big-endian `i32`.
    pub fn read_i32(&mut self) -> (r: Result<i32, Error>)
        requires
            old(self).wf(),
        ensures
            match r {
                Ok(v) => 4 <= old(self).rest().len() && v as int == be_int(old(self).rest().take(4)) && final(self).advanced(
                    *old(self),
                    4,
                ),
                Err(e) => old(self).rest().len() < 4 && e@ == eof(4, old(self).rest())
                    && *final(self) == *old(self),
            },
    {
        if self.data.len() - self.pos < 4 {
            return Err(Error::UnexpectedEof { expected: 4, available: self.data.len() - self.pos });
        }
        let v = read_i32_at(self.data, self.pos);
        assert(self.data@.subrange(self.pos as int, self.pos + 4) =~= self.rest().take(4));
        self.pos = self.pos + 4;
        Ok(v)
    }

    /// Read a big-endian `i32` that must be exactly the `len` remaining bytes.
    pub fn read_i32_exact(&mut self, len: usize) -> (r: Result<i32, Error>)
        requires
            old(self).wf(),
        ensures
            match r {
                Ok(v) => old(self).rest().len() == len && 4 <= len && v as int == be_int(old(self).rest().take(4))
                    && final(self).advanced(*old(self), 4),
                Err(e) => (old(self).rest().len() != len && e@ == eof(len as int, old(self).rest()))
                    || (old(self).rest().len() == len && len < 4 && e@ == eof(4, old(self).rest())),
            },
    {
        self.ensure_exact_remaining(len)?;
        self.read_i32()
    }

    /// Read a big-endian `i64`.
    pub fn read_i64(&mut self) -> (r: Result<i64, Error>)
        requires
            old(self).wf(),
        ensures
            match r {
                Ok(v) => 8 <= old(self).rest().len() && v as int == be_int(old(self).rest().take(8)) && final(self).advanced(
                    *old(self),
                    8,
                ),
                Err(e) => old(self).rest().len() < 8 && e@ == eof(8, old(self).rest())
                    && *final(self) == *old(self),
            },
    {
        if self.data.len() - self.pos < 8 {
            return Err(Error::UnexpectedEof { expected: 8, available: self.data.len() - self.pos });
        }
        let v = read_i64_at(self.data, self.pos);
        assert(self.data@.subrange(self.pos as int, self.pos + 8) =~= self.rest().take(8));
        self.pos = self.pos + 8;
        Ok(v)
    }

    /// Read a big-endian `i64` that must be exactly the `len` remaining bytes.
    pub fn read_i64_exact(&mut self, len: usize) -> (r: Result<i64, Error>)
        requires
            old(self).wf(),
        ensures
            match r {
                Ok(v) => old(self).rest().len() == len && 8 <= len && v as int == be_int(old(self).rest().take(8))
                    && final(self).advanced(*old(self), 8),
                Err(e) => (old(self).rest().len() != len && e@ == eof(len as int, old(self).rest()))
                    || (old(self).rest().len() == len && len < 8 && e@ == eof(8, old(self).rest())),
            },
    {
        self.ensure_exact_remaining(len)?;
        self.read_i64()
    }

    /// Read a big-endian `u32`.
    pub fn read_u32(&mut self) -> (r: Result<u32, Error>)
        requires
            old(self).wf(),
        ensures
            match r {
                Ok(v) => 4 <= old(self).rest().len() && v as nat == be_nat(old(self).rest().take(4)) && final(self).advanced(
                    *old(self),
                    4,
                ),
                Err(e) => old(self).rest().len() < 4 && e@ == eof(4, old(self).rest())
                    && *final(self) == *old(self),
            },
    {
        if self.data.len() - self.pos < 4 {
            return Err(Error::UnexpectedEof { expected: 4, available: self.data.len() - self.pos });
        }
        let v = read_u32_at(self.data, self.pos);
        assert(self.data@.subrange(self.pos as int, self.pos + 4) =~= self.rest().take(4));
        self.pos = self.pos + 4;
        Ok(v)
    }

    /// Read a big-endian `u32` that must be exactly the `len` remaining bytes.
    pub fn read_u32_exact(&mut self, len: usize) -> (r: Result<u32, Error>)
        requires
            old(self).wf(),
        ensures
            match r {
                Ok(v) => old(self).rest().len() == len && 4 <= len && v as nat == be_nat(old(self).rest().take(4))
                    && final(self).advanced(*old(self), 4),
                Err(e) => (old(self).rest().len() != len && e@ == eof(len as int, old(self).rest()))
                    || (old(self).rest().len() == len && len < 4 && e@ == eof(4, old(self).rest())),
            },
    {
        self.ensure_exact_remaining(len)?;
        self.read_u32()
    }

    /// Read a big-endian `u64`.
    pub fn read_u64(&mut self) -> (r: Result<u64, Error>)
        requires
            old(self).wf(),
        ensures
            match r {
                Ok(v) => 8 <= old(self).rest().len() && v as nat == be_nat(old(self).rest().take(8)) && final(self).advanced(
                    *old(self),
                    8,
                ),
                Err(e) => old(self).rest().len() < 8 && e@ == eof(8, old(self).rest())
                    && *final(self) == *old(self),
            },
    {
        if self.data.len() - self.pos < 8 {
            return Err(Error::UnexpectedEof { expected: 8, available: self.data.len() - self.pos });
        }
        let v = read_u64_at(self.data, self.pos);
        assert(self.data@.subrange(self.pos as int, self.pos + 8) =~= self.rest().take(8));
        self.pos = self.pos + 8;
        Ok(v)
    }

    /// Read a big-endian `u64` that must be exactly the `len` remaining bytes.
    pub fn read_u64_exact(&mut self, len: usize) -> (r: Result<u64, Error>)
        requires
            old(self).wf(),
        ensures
            match r {
                Ok(v) => old(self).rest().len() == len && 8 <= len && v as nat == be_nat(old(self).rest().take(8))
                    && final(self).advanced(*old(self), 8),
                Err(e) => (old(self).rest().len() != len && e@ == eof(len as int, old(self).rest()))
                    || (old(self).rest().len() == len && len < 8 && e@ == eof(8, old(self).rest())),
            },
    {
        self.ensure_exact_remaining(len)?;
        self.read_u64()
    }

    /// The big-endian `i16` at the read position, without advancing.
    pub fn peek_i16(&self) -> (r: Result<i16, Error>)
        requires
            self.wf(),
        ensures
            match r {
                Ok(v) => 2 <= self.rest().len() && v as int == be_int(self.rest().take(2)),
                Err(e) => self.rest().len() < 2 && e@ == eof(2, self.rest()),
            },
    {
        let mut copy = *self;
        copy.read_i16()
    }
}

impl BufferView<'static> {
    pub fn empty() -> (r: Self)
        ensures
            r.wf(),
            r.bytes() == Seq::<u8>::empty(),
            r.position() == 0,
            r.rest() == Seq::<u8>::empty(),
    {
        let r = Self { data: &[], pos: 0 };
        assert(r.rest() =~= Seq::<u8>::empty());
        r
    }
}

} // verus!
